//! The configuration of the bundled example service (a discord bot), whose
//! schema the example program emits.

use vstd::prelude::*;

verus! {

/// How much the service logs.
#[derive(Debug, Clone, Copy, PartialEq, Eq, Structural)]
pub enum LogLevel {
    Trace,
    Debug,
    Info,
    Warn,
    Error,
}

/// mycel discord bot configuration
#[derive(Debug)]
pub struct Config {
    /// directory for the database, models, and workspace
    pub data_dir: String,
    /// anthropic model to use
    pub model: String,
    /// log level
    pub log_level: LogLevel,
    /// keep the prompt cache warm between messages
    pub cache_warming: bool,
    /// discord bot token (a secret)
    pub discord_token: String,
    /// anthropic API key (a secret; not needed with OAuth)
    pub anthropic_key: Option<String>,
}

impl Default for Config {
    fn default() -> (r: Config)
        ensures
            r.data_dir@ == "/var/lib/mycel"@,
            r.model@ == "sonnet-4-20250514"@,
            r.log_level == LogLevel::Info,
            !r.cache_warming,
            r.discord_token@ == Seq::<char>::empty(),
            r.anthropic_key is None,
    {
        Config {
            data_dir: String::from_str("/var/lib/mycel"),
            model: String::from_str("sonnet-4-20250514"),
            log_level: LogLevel::Info,
            cache_warming: false,
            discord_token: String::new(),
            anthropic_key: None,
        }
    }
}

} // verus!
