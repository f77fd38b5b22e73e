//! The nixcfg schema: a JSON Schema document with its nixcfg name and
//! root-level extensions, and the merging of serialised defaults into it.

use vstd::prelude::*;

use crate::json::{
    entries_view, find, find_key, get, has_key, items_view, json_view, lemma_entries_view,
    lemma_find, lemma_find_same_keys, lemma_items_view, put,
    put_all, put_entry, pretty_string, pretty_text, Json, JsonModel,
};

verus! {

/// The key of the map of a schema's properties.
pub open spec fn properties_key() -> Seq<char> {
    "properties"@
}

/// The key that marks a property as a secret.
pub open spec fn secret_key() -> Seq<char> {
    "x-nixcfg-secret"@
}

/// The key of a schema's JSON type.
pub open spec fn type_key() -> Seq<char> {
    "type"@
}

/// The JSON type name of objects.
pub open spec fn object_type() -> Seq<char> {
    "object"@
}

/// The key of a schema's default value.
pub open spec fn default_key() -> Seq<char> {
    "default"@
}

/// The key of the alternatives of a schema, as an optional type has them.
pub open spec fn any_of_key() -> Seq<char> {
    "anyOf"@
}

/// The key under which the document carries the schema's nixcfg name.
pub open spec fn name_key() -> Seq<char> {
    "x-nixcfg-name"@
}

/// Whether a property's schema is marked secret.
pub open spec fn is_secret(prop: Seq<(Seq<char>, JsonModel)>) -> bool {
    get(prop, secret_key()) == Some(JsonModel::Bool(true))
}

/// Whether a property's schema has the JSON type `object`.
pub open spec fn is_object_typed(prop: Seq<(Seq<char>, JsonModel)>) -> bool {
    get(prop, type_key()) == Some(JsonModel::Str(object_type()))
}

/// A schema with `defaults` merged into the map under its `properties` key.
/// A schema that is not an object, or whose `properties` is not an object,
/// is left as it is.
pub open spec fn merge_schema(schema: JsonModel, defaults: Seq<(Seq<char>, JsonModel)>) -> JsonModel
    decreases defaults, 2int,
{
    match schema {
        JsonModel::Object(entries) => {
            let i = find(entries, properties_key());
            if 0 <= i < entries.len() && entries[i].1 is Object {
                JsonModel::Object(
                    entries.update(
                        i,
                        (entries[i].0, JsonModel::Object(merge_props(entries[i].1->Object_0, defaults))),
                    ),
                )
            } else {
                schema
            }
        },
        _ => schema,
    }
}

/// The properties of a schema after each default, in order, is merged into
/// the property with the same key.
pub open spec fn merge_props(
    props: Seq<(Seq<char>, JsonModel)>,
    defaults: Seq<(Seq<char>, JsonModel)>,
) -> Seq<(Seq<char>, JsonModel)>
    decreases defaults, 1int,
{
    if defaults.len() == 0 {
        props
    } else {
        let prev = merge_props(props, defaults.drop_last());
        let j = find(prev, defaults.last().0);
        if 0 <= j < prev.len() {
            prev.update(j, (prev[j].0, merge_prop(prev[j].1, defaults.last().1)))
        } else {
            prev
        }
    }
}

/// Whether a schema is an object schema of JSON type `object`.
pub open spec fn is_object_schema(v: JsonModel) -> bool {
    v is Object && is_object_typed(v->Object_0)
}

/// The index of the first object schema of type `object` among the
/// alternatives at or after `start`, or -1.
pub open spec fn object_variant_from(variants: Seq<JsonModel>, start: int) -> int
    decreases variants.len() - start,
{
    if start < 0 || start >= variants.len() {
        -1
    } else if is_object_schema(variants[start]) {
        start
    } else {
        object_variant_from(variants, start + 1)
    }
}

/// The index of the first object schema of type `object` among the
/// alternatives, or -1.
pub open spec fn object_variant(variants: Seq<JsonModel>) -> int {
    object_variant_from(variants, 0)
}

/// A property's entries with an object default `dv` merged into the first
/// object variant of its `anyOf` (an optional object type); other entries,
/// and entries without such a variant, stay as they are.
pub open spec fn merge_any_of(entries: Seq<(Seq<char>, JsonModel)>, dv: JsonModel) -> Seq<
    (Seq<char>, JsonModel),
>
    decreases dv, 2int,
{
    let a = find(entries, any_of_key());
    if dv is Object && 0 <= a < entries.len() && entries[a].1 is Array {
        let variants = entries[a].1->Array_0;
        let k = object_variant(variants);
        if 0 <= k < variants.len() {
            entries.update(
                a,
                (
                    entries[a].0,
                    JsonModel::Array(variants.update(k, merge_schema(variants[k], dv->Object_0))),
                ),
            )
        } else {
            entries
        }
    } else {
        entries
    }
}

/// A property's schema after the default value `dv` is merged into it:
/// a secret stays as it is; an object-typed property given an object default
/// has the default merged into its own properties (and takes no default
/// itself); any other property has an object default merged into the first
/// object variant of its `anyOf` (an optional object type), and takes `dv`
/// as its own default unless it already has one. A property schema that is
/// not an object stays as it is.
pub open spec fn merge_prop(prop: JsonModel, dv: JsonModel) -> JsonModel
    decreases dv, 3int,
{
    match prop {
        JsonModel::Object(entries) => {
            if is_secret(entries) {
                prop
            } else if is_object_typed(entries) && dv is Object {
                merge_schema(prop, dv->Object_0)
            } else {
                let merged = merge_any_of(entries, dv);
                if has_key(merged, default_key()) {
                    JsonModel::Object(merged)
                } else {
                    JsonModel::Object(merged.push((default_key(), dv)))
                }
            }
        },
        _ => prop,
    }
}

/// `defaults` merged into `schema` (see [`merge_schema`]).
fn merged_schema(schema: Json, defaults: &Vec<(String, Json)>) -> (r: Json)
    ensures
        r@ == merge_schema(schema@, entries_view(defaults@)),
    decreases entries_view(defaults@), 2int,
{
    match schema {
        Json::Object(entries) => {
            let mut entries = entries;
            let ghost old_entries = entries@;
            let key = String::from_str("properties");
            let i = find_key(&entries, &key);
            proof {
                lemma_entries_view(entries@);
                lemma_find(entries_view(entries@), key@);
            }
            if i < entries.len() {
                let (k, v) = entries.remove(i);
                match v {
                    Json::Object(props) => {
                        let merged = merged_props(props, defaults);
                        entries.insert(i, (k, Json::Object(merged)));
                        proof {
                            lemma_entries_view(entries@);
                            assert(entries_view(entries@) =~= entries_view(old_entries).update(
                                i as int,
                                (
                                    entries_view(old_entries)[i as int].0,
                                    JsonModel::Object(
                                        merge_props(
                                            entries_view(old_entries)[i as int].1->Object_0,
                                            entries_view(defaults@),
                                        ),
                                    ),
                                ),
                            ));
                        }
                    },
                    other => {
                        entries.insert(i, (k, other));
                        proof {
                            lemma_entries_view(entries@);
                            assert(entries@ =~= old_entries);
                        }
                    },
                }
            }
            Json::Object(entries)
        },
        other => other,
    }
}

/// `defaults` merged, one after the other, into the properties `props`
/// (see [`merge_props`]).
fn merged_props(props: Vec<(String, Json)>, defaults: &Vec<(String, Json)>) -> (r: Vec<
    (String, Json),
>)
    ensures
        entries_view(r@) == merge_props(entries_view(props@), entries_view(defaults@)),
    decreases entries_view(defaults@), 1int,
{
    let ghost dm = entries_view(defaults@);
    let ghost pm = entries_view(props@);
    let mut props = props;
    let mut d: usize = 0;
    proof {
        lemma_entries_view(defaults@);
        assert(dm.take(0) =~= Seq::<(Seq<char>, JsonModel)>::empty());
    }
    while d < defaults.len()
        invariant
            d <= defaults.len(),
            dm == entries_view(defaults@),
            dm.len() == defaults@.len(),
            forall|k: int|
                0 <= k < defaults@.len() ==> #[trigger] dm[k] == (
                    defaults@[k].0@,
                    json_view(defaults@[k].1),
                ),
            entries_view(props@) == merge_props(pm, dm.take(d as int)),
        decreases defaults.len() - d,
    {
        let ghost before = props@;
        let entry = &defaults[d];
        let j = find_key(&props, &entry.0);
        proof {
            lemma_entries_view(props@);
            lemma_find(entries_view(props@), entry.0@);
            assert(dm.take(d + 1).drop_last() =~= dm.take(d as int));
            assert(dm.take(d + 1).last() == dm[d as int]);
        }
        if j < props.len() {
            let (k, p) = props.remove(j);
            proof {
                assert(decreases_to!(dm => dm[d as int]));
                assert(decreases_to!(dm[d as int] => dm[d as int].1));
            }
            let np = merged_prop(p, &entry.1);
            props.insert(j, (k, np));
            proof {
                lemma_entries_view(props@);
                assert(entries_view(props@) =~= entries_view(before).update(
                    j as int,
                    (
                        entries_view(before)[j as int].0,
                        merge_prop(entries_view(before)[j as int].1, dm[d as int].1),
                    ),
                ));
            }
        }
        d = d + 1;
    }
    proof {
        assert(dm.take(defaults@.len() as int) =~= dm);
    }
    props
}

/// The default `dv` merged into the property schema `prop` (see [`merge_prop`]).
fn merged_prop(prop: Json, dv: &Json) -> (r: Json)
    ensures
        r@ == merge_prop(prop@, dv@),
    decreases dv@, 3int,
{
    match prop {
        Json::Object(entries) => {
            let mut entries = entries;
            let ghost em = entries_view(entries@);
            proof {
                lemma_entries_view(entries@);
            }
            let secret = String::from_str("x-nixcfg-secret");
            let si = find_key(&entries, &secret);
            proof {
                lemma_find(em, secret@);
            }
            if si < entries.len() && entries[si].1.is_true() {
                return Json::Object(entries);
            }
            let ty = String::from_str("type");
            let ti = find_key(&entries, &ty);
            let object = String::from_str("object");
            proof {
                lemma_find(em, ty@);
            }
            if ti < entries.len() && entries[ti].1.is_text(&object) {
                match dv {
                    Json::Object(sub) => {
                        proof {
                            assert(decreases_to!(dv@ => entries_view(sub@)));
                        }
                        return merged_schema(Json::Object(entries), sub);
                    },
                    _ => {},
                }
            }
            let ghost merged = merge_any_of(em, dv@);
            match dv {
                Json::Object(sub) => {
                    let ak = String::from_str("anyOf");
                    let ai = find_key(&entries, &ak);
                    proof {
                        lemma_find(em, ak@);
                    }
                    if ai < entries.len() {
                        let ghost before = entries@;
                        let (k, v) = entries.remove(ai);
                        match v {
                            Json::Array(variants) => {
                                proof {
                                    assert(decreases_to!(dv@ => entries_view(sub@)));
                                    assert(em[ai as int].1 == JsonModel::Array(items_view(variants@)));
                                }
                                let ghost k_view = k@;
                                let ghost old_vs = variants@;
                                proof {
                                    lemma_items_view(old_vs);
                                }
                                let variants = merged_variants(variants, sub);
                                entries.insert(ai, (k, Json::Array(variants)));
                                proof {
                                    lemma_entries_view(entries@);
                                    assert(entries_view(entries@) =~= em.update(
                                        ai as int,
                                        (k_view, JsonModel::Array(items_view(variants@))),
                                    ));
                                    assert(k_view == em[ai as int].0);
                                    assert(dv@->Object_0 == entries_view(sub@));
                                    assert(find(em, any_of_key()) == ai);
                                    assert(entries_view(entries@) == merged);
                                }
                            },
                            other => {
                                entries.insert(ai, (k, other));
                                proof {
                                    assert(entries@ =~= before);
                                    assert(!(em[ai as int].1 is Array));
                                }
                            },
                        }
                        proof {
                            lemma_entries_view(entries@);
                        }
                    }
                    proof {
                        assert(entries_view(entries@) =~= merged);
                    }
                },
                _ => {},
            }
            let ghost mm = entries_view(entries@);
            proof {
                lemma_entries_view(entries@);
                lemma_find_same_keys(mm, em, default_key());
            }
            let dk = String::from_str("default");
            let di = find_key(&entries, &dk);
            proof {
                lemma_find(mm, dk@);
            }
            if di == entries.len() {
                let copy = dv.duplicate();
                entries.push((dk, copy));
                proof {
                    lemma_entries_view(entries@);
                    assert(entries_view(entries@) =~= mm.push((default_key(), dv@)));
                }
            }
            Json::Object(entries)
        },
        other => other,
    }
}

/// Whether `v` is an object schema of JSON type `object`.
fn is_object_schema_value(v: &Json) -> (b: bool)
    ensures
        b == is_object_schema(v@),
{
    match v {
        Json::Object(entries) => {
            let ty = String::from_str("type");
            let object = String::from_str("object");
            let ti = find_key(entries, &ty);
            proof {
                lemma_entries_view(entries@);
                lemma_find(entries_view(entries@), ty@);
            }
            ti < entries.len() && entries[ti].1.is_text(&object)
        },
        _ => false,
    }
}

/// The alternatives of an `anyOf` with the object default `defaults` merged
/// into the first object variant (see [`merge_any_of`]).
fn merged_variants(input: Vec<Json>, defaults: &Vec<(String, Json)>) -> (r: Vec<Json>)
    ensures
        items_view(r@) == (if 0 <= object_variant(items_view(input@)) < input@.len() {
            items_view(input@).update(
                object_variant(items_view(input@)),
                merge_schema(
                    items_view(input@)[object_variant(items_view(input@))],
                    entries_view(defaults@),
                ),
            )
        } else {
            items_view(input@)
        }),
    decreases entries_view(defaults@), 3int,
{
    let mut variants = input;
    let ghost vm = items_view(variants@);
    proof {
        lemma_items_view(variants@);
    }
    let mut i: usize = 0;
    while i < variants.len()
        invariant
            i <= variants.len(),
            variants@ == input@,
            vm == items_view(input@),
            vm.len() == input@.len(),
            object_variant(vm) == object_variant_from(vm, i as int),
            forall|j: int| 0 <= j < input@.len() ==> #[trigger] vm[j] == json_view(input@[j]),
        decreases variants.len() - i,
    {
        if is_object_schema_value(&variants[i]) {
            let v = variants.remove(i);
            let m = merged_schema(v, defaults);
            variants.insert(i, m);
            proof {
                lemma_items_view(variants@);
                assert(items_view(variants@) =~= vm.update(
                    i as int,
                    merge_schema(vm[i as int], entries_view(defaults@)),
                ));
            }
            return variants;
        }
        i = i + 1;
    }
    proof {
        assert(object_variant_from(vm, i as int) == -1);
    }
    variants
}

/// Merges the object entries `defaults` into the properties of `schema` (see
/// [`merge_schema`]).
pub fn merge_defaults(schema: &mut Json, defaults: &Vec<(String, Json)>)
    ensures
        final(schema)@ == merge_schema(old(schema)@, entries_view(defaults@)),
{
    let mut taken = Json::Null;
    std::mem::swap(schema, &mut taken);
    *schema = merged_schema(taken, defaults);
}

/// A JSON Schema document with the nixcfg metadata that wraps it.
#[derive(Debug, Clone)]
pub struct NixSchema {
    /// the name under which nix exposes the module options
    pub name: String,
    /// the JSON Schema of the configuration
    pub schema: Json,
    /// root-level properties added to the document, in the order given
    pub extensions: Vec<(String, Json)>,
}

/// The model of a [`NixSchema`].
pub struct NixSchemaModel {
    pub name: Seq<char>,
    pub schema: JsonModel,
    pub extensions: Seq<(Seq<char>, JsonModel)>,
}

impl View for NixSchema {
    type V = NixSchemaModel;

    open spec fn view(&self) -> NixSchemaModel {
        NixSchemaModel {
            name: self.name@,
            schema: self.schema@,
            extensions: entries_view(self.extensions@),
        }
    }
}

/// A schema after a serialised default value is merged into it: the defaults
/// are merged only where they form an object.
pub open spec fn with_defaults_model(schema: JsonModel, defaults: JsonModel) -> JsonModel {
    match defaults {
        JsonModel::Object(d) => merge_schema(schema, d),
        _ => schema,
    }
}

/// The document of a nixcfg schema: an object schema with the name set under
/// `x-nixcfg-name` and then each extension set in turn (a later one wins over
/// an earlier one and over the name); a schema that is not an object as it is.
pub open spec fn document_model(s: NixSchemaModel) -> JsonModel {
    match s.schema {
        JsonModel::Object(entries) => JsonModel::Object(
            put_all(put(entries, name_key(), JsonModel::Str(s.name)), s.extensions),
        ),
        _ => s.schema,
    }
}

impl NixSchema {
    /// A nixcfg schema named `name` around the JSON Schema `schema`, with no
    /// extensions.
    pub fn from(name: String, schema: Json) -> (r: NixSchema)
        ensures
            r@ == (NixSchemaModel {
                name: name@,
                schema: schema@,
                extensions: Seq::empty(),
            }),
    {
        let r = NixSchema { name, schema, extensions: Vec::new() };
        proof {
            assert(entries_view(r.extensions@) =~= Seq::<(Seq<char>, JsonModel)>::empty());
        }
        r
    }

    /// Merges defaults from a serialised `T::default()` into the schema: where
    /// `defaults` is an object, its entries are merged into the schema's
    /// `properties`, recursing into nested objects (see [`merge_schema`]).
    pub fn with_defaults(self, defaults: Json) -> (r: NixSchema)
        ensures
            r@ == (NixSchemaModel {
                schema: with_defaults_model(self@.schema, defaults@),
                ..self@
            }),
    {
        let mut s = self;
        match defaults {
            Json::Object(map) => {
                merge_defaults(&mut s.schema, &map);
            },
            _ => {},
        }
        s
    }

    /// Adds a root-level extension property to the document.
    pub fn with_extension(self, key: String, value: Json) -> (r: NixSchema)
        ensures
            r@ == (NixSchemaModel {
                extensions: self@.extensions.push((key@, value@)),
                ..self@
            }),
    {
        let mut s = self;
        let ghost before = s.extensions@;
        s.extensions.push((key, value));
        proof {
            lemma_entries_view(s.extensions@);
            lemma_entries_view(before);
            assert(entries_view(s.extensions@) =~= entries_view(before).push((key@, value@)));
        }
        s
    }

    /// The document serialised to pretty JSON, with the nixcfg wrapper.
    pub fn to_json_pretty(&self) -> (s: String)
        ensures
            s@ == pretty_text(document_model(self@)),
    {
        let doc = self.document();
        pretty_string(&doc)
    }

    /// The document that nixcfg emits for this schema (see [`document_model`]).
    pub fn document(&self) -> (r: Json)
        ensures
            r@ == document_model(self@),
    {
        match &self.schema {
            Json::Object(entries) => {
                let root = self.schema.duplicate();
                let mut out = match root {
                    Json::Object(e) => e,
                    _ => Vec::new(),
                };
                let ghost start = entries_view(out@);
                put_entry(&mut out, String::from_str("x-nixcfg-name"), Json::Str(self.name.clone()));
                let ghost named = entries_view(out@);
                let ghost exts = entries_view(self.extensions@);
                proof {
                    lemma_entries_view(self.extensions@);
                    assert(exts.take(0) =~= Seq::<(Seq<char>, JsonModel)>::empty());
                }
                let mut i: usize = 0;
                while i < self.extensions.len()
                    invariant
                        i <= self.extensions.len(),
                        exts == entries_view(self.extensions@),
                        exts.len() == self.extensions@.len(),
                        forall|k: int|
                            0 <= k < self.extensions@.len() ==> #[trigger] exts[k] == (
                                self.extensions@[k].0@,
                                json_view(self.extensions@[k].1),
                            ),
                        entries_view(out@) == put_all(named, exts.take(i as int)),
                    decreases self.extensions.len() - i,
                {
                    let k = self.extensions[i].0.clone();
                    let v = self.extensions[i].1.duplicate();
                    put_entry(&mut out, k, v);
                    proof {
                        assert(exts.take(i + 1).drop_last() =~= exts.take(i as int));
                    }
                    i = i + 1;
                }
                proof {
                    assert(exts.take(self.extensions@.len() as int) =~= exts);
                }
                Json::Object(out)
            },
            _ => self.schema.duplicate(),
        }
    }
}

/// The document for a schema named `name` with the serialised defaults
/// `defaults` merged in: the composition of [`NixSchema::from`],
/// [`NixSchema::with_defaults`] and [`NixSchema::document`].
pub fn emit_document(name: String, schema: Json, defaults: Json) -> (r: Json)
    ensures
        r@ == document_model(
            NixSchemaModel {
                name: name@,
                schema: with_defaults_model(schema@, defaults@),
                extensions: Seq::empty(),
            },
        ),
{
    NixSchema::from(name, schema).with_defaults(defaults).document()
}

/// The schema named `name`, with the serialised defaults `defaults` merged
/// in, as pretty JSON: the document of [`emit_document`] written out by
/// [`pretty_string`].
pub fn emit(name: String, schema: Json, defaults: Json) -> (s: String)
    ensures
        s@ == pretty_text(
            document_model(
                NixSchemaModel {
                    name: name@,
                    schema: with_defaults_model(schema@, defaults@),
                    extensions: Seq::empty(),
                },
            ),
        ),
{
    let doc = emit_document(name, schema, defaults);
    pretty_string(&doc)
}

} // verus!
