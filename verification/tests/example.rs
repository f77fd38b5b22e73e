use nixcfg::example::{Config, LogLevel};

#[test]
fn example_config_defaults() {
    let c = Config::default();
    assert_eq!(c.data_dir, "/var/lib/mycel");
    assert_eq!(c.model, "sonnet-4-20250514");
    assert_eq!(c.log_level, LogLevel::Info);
    assert!(!c.cache_warming);
    assert_eq!(c.discord_token, "");
    assert!(c.anthropic_key.is_none());
}
