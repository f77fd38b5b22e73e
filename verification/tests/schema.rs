use nixcfg::schema::NixSchema;
use nixcfg::{emit, emit_document, Json};
use serde_json::Value;

fn text(s: &str) -> Json {
    Json::Str(s.to_string())
}

fn num(n: u64) -> Json {
    Json::Number(serde_json::Number::from(n))
}

fn obj(entries: Vec<(&str, Json)>) -> Json {
    Json::Object(entries.into_iter().map(|(k, v)| (k.to_string(), v)).collect())
}

fn at<'a>(j: &'a Json, path: &[&str]) -> Option<&'a Json> {
    let mut cur = j;
    for key in path {
        cur = cur.get(key)?;
    }
    Some(cur)
}

/// The schema that schemars derives for the test configuration: a data
/// directory with a serde default, a log level enum, a secret token and a port.
fn config_schema() -> Json {
    obj(vec![
        ("$schema", text("https://json-schema.org/draft/2020-12/schema")),
        ("title", text("Config")),
        ("description", text("mycel discord bot configuration")),
        ("type", text("object")),
        (
            "properties",
            obj(vec![
                (
                    "data_dir",
                    obj(vec![
                        ("description", text("directory for the database, models, and workspace")),
                        ("type", text("string")),
                        ("default", text("/var/lib/mycel")),
                    ]),
                ),
                (
                    "log_level",
                    obj(vec![("description", text("log level")), ("$ref", text("#/$defs/LogLevel"))]),
                ),
                (
                    "discord_token",
                    obj(vec![
                        ("description", text("discord bot token")),
                        ("type", text("string")),
                        ("x-nixcfg-secret", Json::Bool(true)),
                    ]),
                ),
                (
                    "port",
                    obj(vec![
                        ("description", text("listen port")),
                        ("type", text("integer")),
                        ("format", text("uint16")),
                        ("minimum", num(0)),
                        ("maximum", num(65535)),
                        ("x-nixcfg-port", Json::Bool(true)),
                    ]),
                ),
            ]),
        ),
        ("required", Json::Array(vec![text("log_level"), text("discord_token"), text("port")])),
        (
            "$defs",
            obj(vec![(
                "LogLevel",
                obj(vec![
                    ("type", text("string")),
                    (
                        "enum",
                        Json::Array(vec![
                            text("Trace"),
                            text("Debug"),
                            text("Info"),
                            text("Warn"),
                            text("Error"),
                        ]),
                    ),
                ]),
            )]),
        ),
    ])
}

fn mycel() -> NixSchema {
    NixSchema::from("mycel".to_string(), config_schema())
}

fn pretty(s: &NixSchema) -> Value {
    serde_json::from_str(&s.to_json_pretty()).unwrap()
}

#[test]
fn schema_has_name() {
    let json = pretty(&mycel());
    assert_eq!(json["x-nixcfg-name"], "mycel");
}

#[test]
fn schema_has_properties() {
    let json = pretty(&mycel());
    assert!(json["properties"]["data_dir"].is_object());
    assert!(json["properties"]["discord_token"].is_object());
    assert!(json["properties"]["port"].is_object());
}

#[test]
fn secret_extension() {
    let json = pretty(&mycel());
    assert_eq!(json["properties"]["discord_token"]["x-nixcfg-secret"], true);
    // non-secret fields don't have the extension
    assert!(json["properties"]["data_dir"].get("x-nixcfg-secret").is_none());
}

#[test]
fn port_extension() {
    let json = pretty(&mycel());
    assert_eq!(json["properties"]["port"]["x-nixcfg-port"], true);
}

#[test]
fn descriptions_from_doc_comments() {
    let json = pretty(&mycel());
    assert_eq!(
        json["properties"]["data_dir"]["description"],
        "directory for the database, models, and workspace"
    );
    assert_eq!(json["description"], "mycel discord bot configuration");
}

#[test]
fn defaults_merged() {
    let defaults = obj(vec![
        ("data_dir", text("/var/lib/mycel")),
        ("log_level", text("Info")),
        ("discord_token", text("secret")),
        ("port", num(8080)),
    ]);
    let schema = mycel().with_defaults(defaults);
    let json = pretty(&schema);
    // port gets default from with_defaults
    assert_eq!(json["properties"]["port"]["default"], 8080);
    // secret fields don't get defaults
    assert!(json["properties"]["discord_token"].get("default").is_none());
}

#[test]
fn enum_generates_variants() {
    let json = pretty(&mycel());
    assert!(json["properties"]["log_level"].is_object());
}

#[test]
fn schema_with_round_trips_extensions() {
    // a hand-rolled fragment (what `schema_with` hands schemars) inside a container
    let container = obj(vec![
        ("title", text("ContainerWithOpaque")),
        ("type", text("object")),
        (
            "properties",
            obj(vec![
                ("name", obj(vec![("description", text("normal field")), ("type", text("string"))])),
                (
                    "opaque",
                    obj(vec![
                        ("type", text("object")),
                        ("properties", obj(vec![("host", obj(vec![("type", text("string"))]))])),
                        ("x-nixcfg-skip", Json::Bool(true)),
                        ("description", text("provided via schema_with")),
                    ]),
                ),
            ]),
        ),
    ]);
    let json = pretty(&NixSchema::from("schema-with-test".to_string(), container));
    assert_eq!(json["properties"]["opaque"]["x-nixcfg-skip"], true);
    assert_eq!(json["properties"]["opaque"]["description"], "provided via schema_with");
    assert_eq!(json["properties"]["name"]["type"], "string");
}

#[test]
fn pretty_text_is_indented_json() {
    let text = NixSchema::from("n".to_string(), obj(vec![("type", text("object"))])).to_json_pretty();
    assert_eq!(text, "{\n  \"type\": \"object\",\n  \"x-nixcfg-name\": \"n\"\n}");
}

#[test]
fn emit_writes_pretty_document() {
    let defaults = obj(vec![("port", num(8080))]);
    let text = emit("mycel".to_string(), config_schema(), defaults);
    let json: Value = serde_json::from_str(&text).unwrap();
    assert_eq!(json["x-nixcfg-name"], "mycel");
    assert_eq!(json["properties"]["port"]["default"], 8080);
    assert!(text.contains("\n  \""));
}

#[test]
fn optional_object_variant_gets_defaults() {
    let schema = obj(vec![(
        "properties",
        obj(vec![(
            "db",
            obj(vec![(
                "anyOf",
                Json::Array(vec![
                    obj(vec![
                        ("type", text("object")),
                        ("properties", obj(vec![("host", obj(vec![("type", text("string"))]))])),
                    ]),
                    obj(vec![("type", text("null"))]),
                ]),
            )]),
        )]),
    )]);
    let defaults = obj(vec![("db", obj(vec![("host", text("h"))]))]);
    let json = pretty(&NixSchema::from("n".to_string(), schema).with_defaults(defaults));
    assert_eq!(json["properties"]["db"]["anyOf"][0]["properties"]["host"]["default"], "h");
    assert_eq!(json["properties"]["db"]["default"]["host"], "h");
    assert!(json["properties"]["db"]["anyOf"][1].get("default").is_none());
}

// ── defaults merging ──────────────────────────────────────────

#[test]
fn annotation_default_wins() {
    let defaults = obj(vec![("data_dir", text("/srv/other"))]);
    let doc = mycel().with_defaults(defaults).document();
    assert_eq!(at(&doc, &["properties", "data_dir", "default"]), Some(&text("/var/lib/mycel")));
}

#[test]
fn non_object_defaults_change_nothing() {
    let plain = mycel().document();
    let with_null = mycel().with_defaults(Json::Null).document();
    let with_array = mycel().with_defaults(Json::Array(vec![num(1)])).document();
    assert_eq!(with_null, plain);
    assert_eq!(with_array, plain);
}

#[test]
fn defaults_without_matching_property_are_ignored() {
    let defaults = obj(vec![("unknown", num(3))]);
    let doc = mycel().with_defaults(defaults).document();
    assert_eq!(doc, mycel().document());
}

#[test]
fn schema_without_properties_unchanged() {
    let schema = obj(vec![("type", text("string"))]);
    let s = NixSchema::from("plain".to_string(), schema.clone())
        .with_defaults(obj(vec![("type", num(1))]));
    assert_eq!(s.schema, schema);
}

#[test]
fn nested_object_defaults_recurse() {
    let schema = obj(vec![
        ("type", text("object")),
        (
            "properties",
            obj(vec![(
                "server",
                obj(vec![
                    ("type", text("object")),
                    (
                        "properties",
                        obj(vec![
                            ("host", obj(vec![("type", text("string"))])),
                            ("token", obj(vec![("type", text("string")), ("x-nixcfg-secret", Json::Bool(true))])),
                        ]),
                    ),
                ]),
            )]),
        ),
    ]);
    let defaults = obj(vec![(
        "server",
        obj(vec![("host", text("localhost")), ("token", text("hunter2"))]),
    )]);
    let doc = NixSchema::from("nested".to_string(), schema).with_defaults(defaults).document();
    assert_eq!(
        at(&doc, &["properties", "server", "properties", "host", "default"]),
        Some(&text("localhost"))
    );
    assert!(at(&doc, &["properties", "server", "properties", "token", "default"]).is_none());
    // the object-typed property itself takes no default
    assert!(at(&doc, &["properties", "server", "default"]).is_none());
}

#[test]
fn object_typed_property_with_plain_default_takes_it() {
    let schema = obj(vec![(
        "properties",
        obj(vec![("extra", obj(vec![("type", text("object"))]))]),
    )]);
    let doc = NixSchema::from("n".to_string(), schema)
        .with_defaults(obj(vec![("extra", Json::Null)]))
        .document();
    assert_eq!(at(&doc, &["properties", "extra", "default"]), Some(&Json::Null));
}

#[test]
fn optional_property_takes_default() {
    // an `Option<T>` field: `anyOf` with an object variant
    let schema = obj(vec![(
        "properties",
        obj(vec![(
            "maybe",
            obj(vec![(
                "anyOf",
                Json::Array(vec![
                    obj(vec![
                        ("type", text("object")),
                        ("properties", obj(vec![("a", obj(vec![("type", text("integer"))]))])),
                    ]),
                    obj(vec![("type", text("null"))]),
                ]),
            )]),
        )]),
    )]);
    let dv = obj(vec![("a", num(1))]);
    let doc = NixSchema::from("n".to_string(), schema)
        .with_defaults(obj(vec![("maybe", dv.clone())]))
        .document();
    assert_eq!(at(&doc, &["properties", "maybe", "default"]), Some(&dv));
}

#[test]
fn non_object_property_schema_untouched() {
    let schema = obj(vec![("properties", obj(vec![("anything", Json::Bool(true))]))]);
    let s = NixSchema::from("n".to_string(), schema.clone())
        .with_defaults(obj(vec![("anything", num(5))]));
    assert_eq!(s.schema, schema);
}

#[test]
fn negative_and_decimal_defaults_carried() {
    let schema = obj(vec![(
        "properties",
        obj(vec![
            ("offset", obj(vec![("type", text("integer"))])),
            ("ratio", obj(vec![("type", text("number"))])),
        ]),
    )]);
    let off = Json::Number(serde_json::Number::from(-3i64));
    let ratio = Json::Number(serde_json::Number::from_f64(0.5).unwrap());
    let doc = NixSchema::from("n".to_string(), schema)
        .with_defaults(obj(vec![("offset", off.clone()), ("ratio", ratio.clone())]))
        .document();
    assert_eq!(at(&doc, &["properties", "offset", "default"]), Some(&off));
    assert_eq!(at(&doc, &["properties", "ratio", "default"]), Some(&ratio));
}

// ── document ──────────────────────────────────────────────────

#[test]
fn extensions_land_at_root() {
    let doc = mycel()
        .with_extension("x-nixcfg-version".to_string(), num(1))
        .with_extension("x-nixcfg-version".to_string(), num(2))
        .document();
    assert_eq!(doc.get("x-nixcfg-version"), Some(&num(2)));
    assert_eq!(doc.get("x-nixcfg-name"), Some(&text("mycel")));
}

#[test]
fn extension_can_override_name() {
    let doc = mycel().with_extension("x-nixcfg-name".to_string(), text("other")).document();
    assert_eq!(doc.get("x-nixcfg-name"), Some(&text("other")));
}

#[test]
fn with_extension_appends() {
    let s = mycel().with_extension("k".to_string(), num(7));
    assert_eq!(s.extensions, vec![("k".to_string(), num(7))]);
    assert_eq!(s.name, "mycel");
}

#[test]
fn document_replaces_existing_name_in_place() {
    let schema = obj(vec![("x-nixcfg-name", text("old")), ("type", text("object"))]);
    let doc = NixSchema::from("new".to_string(), schema).document();
    assert_eq!(doc, obj(vec![("x-nixcfg-name", text("new")), ("type", text("object"))]));
}

#[test]
fn boolean_schema_document_is_itself() {
    let doc = NixSchema::from("b".to_string(), Json::Bool(true)).document();
    assert_eq!(doc, Json::Bool(true));
}

#[test]
fn emit_merges_and_names() {
    let defaults = obj(vec![("port", num(8080))]);
    let doc = emit_document("mycel".to_string(), config_schema(), defaults);
    assert_eq!(doc.get("x-nixcfg-name"), Some(&text("mycel")));
    assert_eq!(at(&doc, &["properties", "port", "default"]), Some(&num(8080)));
}

#[test]
fn from_has_no_extensions() {
    let s = mycel();
    assert!(s.extensions.is_empty());
    assert_eq!(s.schema, config_schema());
}

#[test]
fn get_on_non_object_is_none() {
    assert!(text("x").get("a").is_none());
    assert!(Json::Array(vec![]).get("a").is_none());
}

#[test]
fn clone_is_equal() {
    let s = config_schema();
    assert_eq!(s.clone(), s);
    assert_eq!(s.duplicate(), s);
}

#[test]
fn with_defaults_twice_is_once() {
    let defaults = obj(vec![
        ("data_dir", text("/srv")),
        ("log_level", text("Info")),
        ("discord_token", text("secret")),
        ("port", num(8080)),
    ]);
    let once = mycel().with_defaults(defaults.clone());
    let twice = mycel().with_defaults(defaults.clone()).with_defaults(defaults);
    assert_eq!(twice.schema, once.schema);
}

#[test]
fn property_keys_and_order_kept() {
    let defaults = obj(vec![("port", num(1)), ("log_level", text("Warn"))]);
    let s = mycel().with_defaults(defaults);
    let keys: Vec<String> = match s.schema.get("properties") {
        Some(Json::Object(entries)) => entries.iter().map(|(k, _)| k.clone()).collect(),
        _ => panic!("expected properties"),
    };
    assert_eq!(keys, vec!["data_dir", "log_level", "discord_token", "port"]);
    // the log level property takes its default too
    assert_eq!(at(&s.schema, &["properties", "log_level", "default"]), Some(&text("Warn")));
    // entries outside `properties` are kept
    assert_eq!(s.schema.get("title"), Some(&text("Config")));
}

#[test]
fn secret_default_values_never_reach_schema() {
    let d1 = obj(vec![("discord_token", text("one")), ("port", num(1))]);
    let d2 = obj(vec![("discord_token", text("two")), ("port", num(1))]);
    let a = mycel().with_defaults(d1).to_json_pretty();
    let b = mycel().with_defaults(d2).to_json_pretty();
    assert_eq!(a, b);
    assert!(!a.contains("\"one\""));
}
