use nixcfg::attrs::{
    rewrite, rewrite_attrs, DeriveItem, ExtendArg, ExtendValue, Extension, FieldAttr, Fields,
    ItemData, NixcfgMeta, RewriteError, Variant,
};

type Attr = FieldAttr<&'static str, &'static str, u32, String>;

fn flag(name: &str, span: u32) -> NixcfgMeta<&'static str, u32> {
    NixcfgMeta::Flag { ident: Some(name.to_string()), span }
}

fn kv(name: &str, value: &'static str, span: u32) -> NixcfgMeta<&'static str, u32> {
    NixcfgMeta::KeyValue { ident: Some(name.to_string()), value, span }
}

fn nixcfg(metas: Vec<NixcfgMeta<&'static str, u32>>) -> Attr {
    FieldAttr::Nixcfg(Ok(metas))
}

fn ext_keys(attr: &Attr) -> Vec<(&'static str, Option<&'static str>)> {
    match attr {
        FieldAttr::Extend(args) => args
            .iter()
            .map(|a: &ExtendArg<&'static str>| {
                let v = match &a.value {
                    ExtendValue::True => None,
                    ExtendValue::Expr(e) => Some(*e),
                };
                (a.extension.key(), v)
            })
            .collect(),
        _ => panic!("expected a rewritten attribute"),
    }
}

/// The fields of the test `MacroConfig`, each with its `#[nixcfg(...)]`.
fn macro_config() -> DeriveItem<&'static str, &'static str, u32, String> {
    DeriveItem {
        attrs: vec![FieldAttr::Other("#[derive(JsonSchema, Serialize)]")],
        data: ItemData::Struct(Fields::Named(vec![
            vec![FieldAttr::Other("/// api key"), nixcfg(vec![flag("secret", 1)])],
            vec![FieldAttr::Other("/// listen port"), nixcfg(vec![flag("port", 2)])],
            vec![FieldAttr::Other("/// state dir"), nixcfg(vec![flag("path", 3)])],
            vec![FieldAttr::Other("/// runtime-only"), nixcfg(vec![flag("skip", 4)])],
            vec![
                FieldAttr::Other("/// combined secret path"),
                nixcfg(vec![flag("secret", 5), flag("path", 6)]),
            ],
            vec![
                FieldAttr::Other("/// override description and example"),
                nixcfg(vec![
                    kv("description", "\"long prose description for nix option docs\"", 7),
                    kv("example", "\"/var/lib/app\"", 8),
                ]),
            ],
        ])),
        span: 0,
    }
}

fn rewritten_fields() -> Vec<Vec<Attr>> {
    match rewrite(macro_config()) {
        Ok(item) => match item.data {
            ItemData::Struct(Fields::Named(fields)) => fields,
            _ => panic!("expected named fields"),
        },
        Err(_) => panic!("rewrite failed"),
    }
}

#[test]
fn macro_rewrites_flags() {
    let fields = rewritten_fields();
    assert_eq!(ext_keys(&fields[0][1]), vec![("x-nixcfg-secret", None)], "secret flag should be emitted");
    assert_eq!(ext_keys(&fields[1][1]), vec![("x-nixcfg-port", None)], "port flag should be emitted");
    assert_eq!(ext_keys(&fields[2][1]), vec![("x-nixcfg-path", None)], "path flag should be emitted");
    assert_eq!(ext_keys(&fields[3][1]), vec![("x-nixcfg-skip", None)], "skip flag should be emitted");
}

#[test]
fn macro_combines_flags() {
    let fields = rewritten_fields();
    assert_eq!(
        ext_keys(&fields[4][1]),
        vec![("x-nixcfg-secret", None), ("x-nixcfg-path", None)]
    );
}

#[test]
fn macro_key_value_pairs() {
    let fields = rewritten_fields();
    assert_eq!(
        ext_keys(&fields[5][1]),
        vec![
            ("x-nixcfg-description", Some("\"long prose description for nix option docs\"")),
            ("x-nixcfg-example", Some("\"/var/lib/app\"")),
        ]
    );
}

#[test]
fn macro_keeps_other_attributes() {
    let fields = rewritten_fields();
    assert!(matches!(fields[0][0], FieldAttr::Other("/// api key")));
    assert_eq!(fields[0].len(), 2);
    let item = rewrite(macro_config()).ok().unwrap();
    assert_eq!(item.attrs.len(), 1);
    assert!(matches!(item.attrs[0], FieldAttr::Other("#[derive(JsonSchema, Serialize)]")));
}

#[test]
fn empty_nixcfg_list_is_dropped() {
    let out = rewrite_attrs::<&str, &str, u32, String>(vec![FieldAttr::Other("a"), nixcfg(vec![])]);
    let out = out.ok().unwrap();
    assert_eq!(out.len(), 1);
    assert!(matches!(out[0], FieldAttr::Other("a")));
}

#[test]
fn unknown_flag_rejected() {
    let r = rewrite_attrs::<&str, &str, u32, String>(vec![nixcfg(vec![flag("secret", 1), flag("bogus", 9)])]);
    match r {
        Err(RewriteError::UnknownFlag(9, name)) => assert_eq!(name, "bogus"),
        _ => panic!("expected an unknown flag"),
    }
}

#[test]
fn unknown_key_rejected() {
    let r = rewrite_attrs::<&str, &str, u32, String>(vec![nixcfg(vec![kv("default", "1", 4)])]);
    match r {
        Err(RewriteError::UnknownKey(4, name)) => assert_eq!(name, "default"),
        _ => panic!("expected an unknown key"),
    }
}

#[test]
fn flag_word_as_key_rejected() {
    // `secret = true` is not a key=value item nixcfg knows
    let r = rewrite_attrs::<&str, &str, u32, String>(vec![nixcfg(vec![kv("secret", "true", 2)])]);
    assert!(matches!(r, Err(RewriteError::UnknownKey(2, _))));
}

#[test]
fn path_that_is_not_an_identifier_rejected() {
    let r = rewrite_attrs::<&str, &str, u32, String>(vec![nixcfg(vec![NixcfgMeta::Flag { ident: None, span: 3 }])]);
    assert!(matches!(r, Err(RewriteError::NotIdent(3))));
    let r = rewrite_attrs::<&str, &str, u32, String>(vec![nixcfg(vec![NixcfgMeta::KeyValue {
        ident: None,
        value: "1",
        span: 5,
    }])]);
    assert!(matches!(r, Err(RewriteError::NotIdent(5))));
}

#[test]
fn nested_list_rejected() {
    let r = rewrite_attrs::<&str, &str, u32, String>(vec![nixcfg(vec![NixcfgMeta::List { span: 6 }])]);
    assert!(matches!(r, Err(RewriteError::NestedList(6))));
}

#[test]
fn parse_error_passed_on() {
    let r = rewrite_attrs::<&str, &str, u32, String>(vec![FieldAttr::Nixcfg(Err("bad tokens".to_string()))]);
    match r {
        Err(RewriteError::Parse(e)) => assert_eq!(e, "bad tokens"),
        _ => panic!("expected the parse error"),
    }
}

#[test]
fn first_error_wins() {
    let r = rewrite_attrs::<&str, &str, u32, String>(vec![
        nixcfg(vec![flag("nope", 1)]),
        FieldAttr::Nixcfg(Err("later".to_string())),
    ]);
    assert!(matches!(r, Err(RewriteError::UnknownFlag(1, _))));
}

#[test]
fn union_rejected() {
    let item: DeriveItem<&str, &str, u32, String> =
        DeriveItem { attrs: vec![], data: ItemData::Union, span: 42 };
    assert!(matches!(rewrite(item), Err(RewriteError::Union(42))));
}

#[test]
fn enum_variants_and_their_fields_rewritten() {
    let item: DeriveItem<&str, &str, u32, String> = DeriveItem {
        attrs: vec![nixcfg(vec![kv("description", "\"top\"", 1)])],
        data: ItemData::Enum(vec![
            Variant { attrs: vec![nixcfg(vec![flag("skip", 2)])], fields: Fields::Unit },
            Variant {
                attrs: vec![],
                fields: Fields::Unnamed(vec![vec![nixcfg(vec![flag("port", 3)])]]),
            },
        ]),
        span: 0,
    };
    let out = rewrite(item).ok().unwrap();
    assert_eq!(ext_keys(&out.attrs[0]), vec![("x-nixcfg-description", Some("\"top\""))]);
    match &out.data {
        ItemData::Enum(vs) => {
            assert_eq!(ext_keys(&vs[0].attrs[0]), vec![("x-nixcfg-skip", None)]);
            match &vs[1].fields {
                Fields::Unnamed(f) => assert_eq!(ext_keys(&f[0][0]), vec![("x-nixcfg-port", None)]),
                _ => panic!("expected unnamed fields"),
            }
        },
        _ => panic!("expected an enum"),
    }
}

#[test]
fn field_error_comes_before_item_attribute_error() {
    let item: DeriveItem<&str, &str, u32, String> = DeriveItem {
        attrs: vec![nixcfg(vec![flag("bad_top", 1)])],
        data: ItemData::Struct(Fields::Named(vec![vec![nixcfg(vec![flag("bad_field", 2)])]])),
        span: 0,
    };
    assert!(matches!(rewrite(item), Err(RewriteError::UnknownFlag(2, _))));
}

#[test]
fn rewriting_twice_changes_nothing() {
    let once = rewrite_attrs::<&str, &str, u32, String>(vec![
        FieldAttr::Other("a"),
        nixcfg(vec![flag("port", 1)]),
    ])
    .ok()
    .unwrap();
    let twice = rewrite_attrs::<&str, &str, u32, String>(once).ok().unwrap();
    assert_eq!(twice.len(), 2);
    assert!(matches!(twice[0], FieldAttr::Other("a")));
    assert_eq!(ext_keys(&twice[1]), vec![("x-nixcfg-port", None)]);
}

#[test]
fn extension_keys() {
    assert_eq!(Extension::Secret.key(), "x-nixcfg-secret");
    assert_eq!(Extension::Port.key(), "x-nixcfg-port");
    assert_eq!(Extension::Path.key(), "x-nixcfg-path");
    assert_eq!(Extension::Skip.key(), "x-nixcfg-skip");
    assert_eq!(Extension::Description.key(), "x-nixcfg-description");
    assert_eq!(Extension::Example.key(), "x-nixcfg-example");
}
