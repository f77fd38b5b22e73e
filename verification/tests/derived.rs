//! Schemas derived by schemars itself, taken into the library's model.

use nixcfg::{Json, NixSchema};
use schemars::SchemaGenerator;
use serde_json::Value;

fn model(v: &Value) -> Json {
    match v {
        Value::Null => Json::Null,
        Value::Bool(b) => Json::Bool(*b),
        Value::Number(n) => Json::Number(n.clone()),
        Value::String(s) => Json::Str(s.clone()),
        Value::Array(items) => Json::Array(items.iter().map(model).collect()),
        Value::Object(map) => Json::Object(map.iter().map(|(k, v)| (k.clone(), model(v))).collect()),
    }
}

fn derived_for<T: schemars::JsonSchema>() -> Json {
    model(&SchemaGenerator::default().into_root_schema_for::<T>().to_value())
}

#[test]
fn derived_integer_schema_passes_through() {
    let schema = derived_for::<u16>();
    let text = NixSchema::from("port".to_string(), schema).to_json_pretty();
    let json: Value = serde_json::from_str(&text).unwrap();
    assert_eq!(json["x-nixcfg-name"], "port");
    assert_eq!(json["type"], "integer");
    assert_eq!(json["format"], "uint16");
    assert_eq!(json["maximum"], 65535);
}

#[test]
fn derived_object_schema_takes_defaults() {
    let mut sample = serde_json::Map::new();
    sample.insert("data_dir".to_string(), Value::String("/var/lib/app".to_string()));
    sample.insert("port".to_string(), Value::from(8080u16));
    let schema = SchemaGenerator::default()
        .into_root_schema_for_value(&Value::Object(sample.clone()))
        .unwrap()
        .to_value();
    assert!(schema["properties"]["port"].is_object());
    let mut defaults = serde_json::Map::new();
    defaults.insert("port".to_string(), Value::from(9090u16));
    defaults.insert("data_dir".to_string(), Value::String("/srv".to_string()));
    let text = NixSchema::from("app".to_string(), model(&schema))
        .with_defaults(model(&Value::Object(defaults)))
        .to_json_pretty();
    let json: Value = serde_json::from_str(&text).unwrap();
    assert_eq!(json["properties"]["port"]["default"], 9090);
    assert_eq!(json["properties"]["data_dir"]["default"], "/srv");
    assert_eq!(json["properties"]["port"]["type"], schema["properties"]["port"]["type"]);
}
