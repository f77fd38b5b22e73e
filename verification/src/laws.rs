//! What merging defaults and building the document keep and change, stated
//! over the models of [`crate::schema`].

use vstd::prelude::*;

use crate::json::{
    find, get, has_key, lemma_find, lemma_find_push, lemma_find_same_keys,
    lemma_find_update_same_key, law_get_put_all, law_get_put_other, law_get_put_same, put,
    put_all, JsonModel,
};
use crate::schema::{
    any_of_key, default_key, document_model, is_object_schema, is_object_typed, is_secret,
    merge_any_of, merge_prop, merge_props, merge_schema, name_key, object_variant,
    object_variant_from, properties_key, secret_key, type_key, NixSchemaModel,
};

verus! {

/// Whether no two entries share a key, as in any JSON object.
pub open spec fn distinct_keys(entries: Seq<(Seq<char>, JsonModel)>) -> bool {
    forall|i: int, j: int| 0 <= i < j < entries.len() ==> entries[i].0 != entries[j].0
}

/// Merging defaults keeps the properties, their number, order and keys.
pub proof fn law_merge_props_keeps_keys(
    props: Seq<(Seq<char>, JsonModel)>,
    defaults: Seq<(Seq<char>, JsonModel)>,
)
    ensures
        merge_props(props, defaults).len() == props.len(),
        forall|i: int| 0 <= i < props.len() ==> #[trigger] merge_props(props, defaults)[i].0 == props[i].0,
    decreases defaults.len(),
{
    if defaults.len() > 0 {
        law_merge_props_keeps_keys(props, defaults.drop_last());
        let prev = merge_props(props, defaults.drop_last());
        lemma_find(prev, defaults.last().0);
    }
}

/// A property whose key no default has is left as it is.
pub proof fn law_property_without_default_unchanged(
    props: Seq<(Seq<char>, JsonModel)>,
    defaults: Seq<(Seq<char>, JsonModel)>,
    j: int,
)
    requires
        0 <= j < props.len(),
        forall|i: int| 0 <= i < defaults.len() ==> defaults[i].0 != props[j].0,
    ensures
        merge_props(props, defaults)[j] == props[j],
    decreases defaults.len(),
{
    if defaults.len() > 0 {
        let init = defaults.drop_last();
        assert forall|i: int| 0 <= i < init.len() implies init[i].0 != props[j].0 by {
            assert(init[i] == defaults[i]);
        }
        law_property_without_default_unchanged(props, init, j);
        law_merge_props_keeps_keys(props, init);
        let prev = merge_props(props, init);
        lemma_find(prev, defaults.last().0);
    }
}

/// A secret property never takes a default: merging leaves it as it is.
pub proof fn law_secret_property_unchanged(
    props: Seq<(Seq<char>, JsonModel)>,
    defaults: Seq<(Seq<char>, JsonModel)>,
    j: int,
)
    requires
        0 <= j < props.len(),
        props[j].1 is Object,
        is_secret(props[j].1->Object_0),
    ensures
        merge_props(props, defaults)[j] == props[j],
    decreases defaults.len(),
{
    if defaults.len() > 0 {
        let init = defaults.drop_last();
        law_secret_property_unchanged(props, init, j);
        law_merge_props_keeps_keys(props, init);
        let prev = merge_props(props, init);
        lemma_find(prev, defaults.last().0);
        let jj = find(prev, defaults.last().0);
        if jj == j {
            assert(merge_prop(prev[j].1, defaults.last().1) == prev[j].1);
            assert(merge_props(props, defaults)[j] == (prev[j].0, prev[j].1));
        }
    }
}

/// Merging a schema changes only the value under `properties`.
pub proof fn law_merge_schema_keeps_other_entries(
    schema: JsonModel,
    defaults: Seq<(Seq<char>, JsonModel)>,
    key: Seq<char>,
)
    requires
        schema is Object,
        key != properties_key(),
    ensures
        merge_schema(schema, defaults) is Object,
        get(merge_schema(schema, defaults)->Object_0, key) == get(schema->Object_0, key),
{
    let entries = schema->Object_0;
    let i = find(entries, properties_key());
    lemma_find(entries, properties_key());
    lemma_find(entries, key);
    if 0 <= i < entries.len() && entries[i].1 is Object {
        let v = JsonModel::Object(merge_props(entries[i].1->Object_0, defaults));
        lemma_find_update_same_key(entries, i, v, key);
    }
}

/// The keys that merging reads are distinct from one another.
proof fn lemma_keys_differ()
    ensures
        default_key() != properties_key(),
        default_key() != any_of_key(),
        default_key() != secret_key(),
        default_key() != type_key(),
        secret_key() != properties_key(),
        secret_key() != any_of_key(),
        type_key() != properties_key(),
        type_key() != any_of_key(),
{
    reveal_strlit("default");
    reveal_strlit("properties");
    reveal_strlit("anyOf");
    reveal_strlit("x-nixcfg-secret");
    reveal_strlit("type");
    assert(default_key()[0] != properties_key()[0]);
    assert(default_key()[0] != any_of_key()[0]);
    assert(default_key()[0] != secret_key()[0]);
    assert(default_key()[0] != type_key()[0]);
    assert(secret_key()[0] != properties_key()[0]);
    assert(secret_key()[0] != any_of_key()[0]);
    assert(type_key()[0] != properties_key()[0]);
    assert(type_key()[0] != any_of_key()[0]);
}

/// `object_variant_from` gives the first object variant at or after `start`, or -1.
proof fn lemma_object_variant_from(variants: Seq<JsonModel>, start: int)
    requires
        0 <= start,
    ensures
        object_variant_from(variants, start) == -1 || (start <= object_variant_from(variants, start)
            < variants.len() && is_object_schema(variants[object_variant_from(variants, start)])),
        forall|j: int|
            start <= j < variants.len() && (object_variant_from(variants, start) == -1 || j
                < object_variant_from(variants, start)) ==> !is_object_schema(variants[j]),
    decreases variants.len() - start,
{
    if start < variants.len() && !is_object_schema(variants[start]) {
        lemma_object_variant_from(variants, start + 1);
    }
}

/// Merging into an `anyOf` changes only the value under `anyOf`: the keys,
/// and every other entry, stay.
proof fn lemma_merge_any_of_keeps(entries: Seq<(Seq<char>, JsonModel)>, dv: JsonModel)
    ensures
        merge_any_of(entries, dv).len() == entries.len(),
        forall|i: int| 0 <= i < entries.len() ==> #[trigger] merge_any_of(entries, dv)[i].0 == entries[i].0,
        forall|i: int|
            0 <= i < entries.len() && i != find(entries, any_of_key()) ==> #[trigger] merge_any_of(
                entries,
                dv,
            )[i] == entries[i],
        forall|key: Seq<char>|
            key != any_of_key() ==> #[trigger] get(merge_any_of(entries, dv), key) == get(entries, key),
        forall|key: Seq<char>| #[trigger] find(merge_any_of(entries, dv), key) == find(entries, key),
{
    lemma_find(entries, any_of_key());
    let m = merge_any_of(entries, dv);
    assert forall|key: Seq<char>| #[trigger] find(m, key) == find(entries, key) by {
        lemma_find_same_keys(m, entries, key);
    }
    assert forall|key: Seq<char>| key != any_of_key() implies #[trigger] get(m, key) == get(entries, key) by {
        lemma_find_same_keys(m, entries, key);
        lemma_find(entries, key);
    }
}

/// Adding a `default` entry commutes with merging into the `anyOf`.
proof fn lemma_merge_any_of_push(entries: Seq<(Seq<char>, JsonModel)>, dv: JsonModel, x: (Seq<char>, JsonModel))
    requires
        x.0 != any_of_key(),
    ensures
        merge_any_of(entries.push(x), dv) == merge_any_of(entries, dv).push(x),
{
    lemma_find_push(entries, x, any_of_key());
    lemma_find(entries, any_of_key());
    let a = find(entries, any_of_key());
    if 0 <= a < entries.len() {
        assert(entries.push(x)[a] == entries[a]);
    }
    assert(merge_any_of(entries.push(x), dv) =~= merge_any_of(entries, dv).push(x));
}

/// Merging into an `anyOf` twice with one default is merging once.
proof fn lemma_merge_any_of_idempotent(entries: Seq<(Seq<char>, JsonModel)>, dv: JsonModel)
    requires
        dv is Object ==> distinct_keys_deep(dv->Object_0),
    ensures
        merge_any_of(merge_any_of(entries, dv), dv) == merge_any_of(entries, dv),
    decreases dv, 2int,
{
    lemma_keys_differ();
    let a = find(entries, any_of_key());
    lemma_find(entries, any_of_key());
    let m = merge_any_of(entries, dv);
    lemma_merge_any_of_keeps(entries, dv);
    if dv is Object && 0 <= a < entries.len() && entries[a].1 is Array {
        let vs = entries[a].1->Array_0;
        let k = object_variant(vs);
        lemma_object_variant_from(vs, 0);
        if 0 <= k < vs.len() {
            let dvo = dv->Object_0;
            let v1 = merge_schema(vs[k], dvo);
            let vs1 = vs.update(k, v1);
            law_merge_schema_keeps_other_entries(vs[k], dvo, type_key());
            assert(is_object_schema(v1));
            lemma_object_variant_from(vs1, 0);
            let k1 = object_variant(vs1);
            if k1 != k {
                if 0 <= k1 < k {
                    assert(vs1[k1] == vs[k1]);
                }
                assert(false);
            }
            assert(m[a].1 == JsonModel::Array(vs1));
            assert(decreases_to!(dv => dvo));
            lemma_merge_schema_idempotent(vs[k], dvo);
            assert(vs1.update(k, merge_schema(vs1[k], dvo)) =~= vs1);
            assert(merge_any_of(m, dv) =~= m);
        }
    }
}

/// A default already set on a property (an annotation default) wins over
/// the merged one: its value stays.
pub proof fn law_existing_default_kept(
    props: Seq<(Seq<char>, JsonModel)>,
    defaults: Seq<(Seq<char>, JsonModel)>,
    j: int,
)
    requires
        0 <= j < props.len(),
        props[j].1 is Object,
        has_key(props[j].1->Object_0, default_key()),
    ensures
        merge_props(props, defaults)[j].1 is Object,
        get(merge_props(props, defaults)[j].1->Object_0, default_key()) == get(
            props[j].1->Object_0,
            default_key(),
        ),
    decreases defaults.len(),
{
    if defaults.len() > 0 {
        let init = defaults.drop_last();
        law_existing_default_kept(props, init, j);
        law_merge_props_keeps_keys(props, init);
        let prev = merge_props(props, init);
        lemma_find(prev, defaults.last().0);
        let jj = find(prev, defaults.last().0);
        if jj == j {
            let p = prev[j].1;
            assert(merge_props(props, defaults)[j] == (prev[j].0, merge_prop(p, defaults.last().1)));
            let dv = defaults.last().1;
            assert(has_key(p->Object_0, default_key()));
            lemma_keys_differ();
            if !is_secret(p->Object_0) && is_object_typed(p->Object_0) && dv is Object {
                law_merge_schema_keeps_other_entries(p, dv->Object_0, default_key());
            } else {
                lemma_merge_any_of_keeps(p->Object_0, dv);
            }
        }
    }
}

/// Where no two defaults share a key, the property that the default under
/// `defaults[i].0` names is merged with that default, and with it alone.
pub proof fn law_property_merged_with_its_default(
    props: Seq<(Seq<char>, JsonModel)>,
    defaults: Seq<(Seq<char>, JsonModel)>,
    i: int,
)
    requires
        distinct_keys(defaults),
        0 <= i < defaults.len(),
        find(props, defaults[i].0) >= 0,
    ensures
        merge_props(props, defaults)[find(props, defaults[i].0)] == (
            props[find(props, defaults[i].0)].0,
            merge_prop(props[find(props, defaults[i].0)].1, defaults[i].1),
        ),
    decreases defaults.len(),
{
    let k = defaults[i].0;
    let j = find(props, k);
    lemma_find(props, k);
    let init = defaults.drop_last();
    law_merge_props_keeps_keys(props, init);
    let prev = merge_props(props, init);
    lemma_find_same_keys_props(props, init, k);
    if i == defaults.len() - 1 {
        assert forall|m: int| 0 <= m < init.len() implies init[m].0 != props[j].0 by {
            assert(init[m] == defaults[m]);
        }
        law_property_without_default_unchanged(props, init, j);
    } else {
        assert(init[i] == defaults[i]);
        assert forall|a: int, b: int| 0 <= a < b < init.len() implies init[a].0 != init[b].0 by {
            assert(init[a] == defaults[a]);
            assert(init[b] == defaults[b]);
        }
        law_property_merged_with_its_default(props, init, i);
        lemma_find(prev, defaults.last().0);
        assert(defaults.last().0 != k);
    }
}

/// Merging keeps the keys of the properties, so a key is found where it was.
proof fn lemma_find_same_keys_props(
    props: Seq<(Seq<char>, JsonModel)>,
    defaults: Seq<(Seq<char>, JsonModel)>,
    key: Seq<char>,
)
    ensures
        find(merge_props(props, defaults), key) == find(props, key),
{
    law_merge_props_keeps_keys(props, defaults);
    lemma_find_same_keys(merge_props(props, defaults), props, key);
}

/// A property that is not secret, has no default, and is not an object
/// schema given an object default, takes the default given under its key.
pub proof fn law_default_filled(
    props: Seq<(Seq<char>, JsonModel)>,
    defaults: Seq<(Seq<char>, JsonModel)>,
    i: int,
)
    requires
        distinct_keys(defaults),
        0 <= i < defaults.len(),
        find(props, defaults[i].0) >= 0,
        props[find(props, defaults[i].0)].1 is Object,
        !is_secret(props[find(props, defaults[i].0)].1->Object_0),
        !has_key(props[find(props, defaults[i].0)].1->Object_0, default_key()),
        !(is_object_typed(props[find(props, defaults[i].0)].1->Object_0)
            && defaults[i].1 is Object),
    ensures
        merge_props(props, defaults)[find(props, defaults[i].0)].1 == JsonModel::Object(
            merge_any_of(props[find(props, defaults[i].0)].1->Object_0, defaults[i].1).push(
                (default_key(), defaults[i].1),
            ),
        ),
        get(merge_props(props, defaults)[find(props, defaults[i].0)].1->Object_0, default_key())
            == Some(defaults[i].1),
{
    law_property_merged_with_its_default(props, defaults, i);
    let p = props[find(props, defaults[i].0)].1->Object_0;
    lemma_merge_any_of_keeps(p, defaults[i].1);
    let m = merge_any_of(p, defaults[i].1);
    lemma_find_push(m, (default_key(), defaults[i].1), default_key());
}

/// Defaults given for secret properties never reach the schema: two
/// defaults maps with the same keys that differ only in values whose key
/// names a secret property (or no property) merge to the same properties.
pub proof fn law_secret_defaults_never_reach_schema(
    props: Seq<(Seq<char>, JsonModel)>,
    d1: Seq<(Seq<char>, JsonModel)>,
    d2: Seq<(Seq<char>, JsonModel)>,
)
    requires
        d1.len() == d2.len(),
        forall|i: int| 0 <= i < d1.len() ==> #[trigger] d1[i].0 == d2[i].0,
        forall|i: int|
            0 <= i < d1.len() && #[trigger] d1[i].1 != d2[i].1 ==> find(props, d1[i].0) < 0 || (
            props[find(props, d1[i].0)].1 is Object && is_secret(
                props[find(props, d1[i].0)].1->Object_0,
            )),
    ensures
        merge_props(props, d1) == merge_props(props, d2),
    decreases d1.len(),
{
    if d1.len() > 0 {
        let i1 = d1.drop_last();
        let i2 = d2.drop_last();
        assert forall|i: int| 0 <= i < i1.len() implies #[trigger] i1[i].0 == i2[i].0 by {
            assert(i1[i] == d1[i]);
            assert(i2[i] == d2[i]);
        }
        assert forall|i: int|
            0 <= i < i1.len() && #[trigger] i1[i].1 != i2[i].1 implies find(props, i1[i].0) < 0 || (
            props[find(props, i1[i].0)].1 is Object && is_secret(
                props[find(props, i1[i].0)].1->Object_0,
            )) by {
            assert(i1[i] == d1[i]);
            assert(i2[i] == d2[i]);
        }
        law_secret_defaults_never_reach_schema(props, i1, i2);
        let n = d1.len() - 1;
        assert(d1[n].0 == d2[n].0);
        let key = d1[n].0;
        let prev = merge_props(props, i1);
        lemma_find_same_keys_props(props, i1, key);
        lemma_find(props, key);
        law_merge_props_keeps_keys(props, i1);
        let j = find(prev, key);
        if d1[n].1 != d2[n].1 {
            if j >= 0 {
                law_secret_property_unchanged(props, i1, j);
                assert(prev[j] == props[j]);
                assert(merge_prop(prev[j].1, d1[n].1) == prev[j].1);
                assert(merge_prop(prev[j].1, d2[n].1) == prev[j].1);
                assert(prev.update(j, (prev[j].0, prev[j].1)) =~= prev);
            }
        } else {
            assert(d1.last() == d2.last());
        }
    }
}

/// Merging a default into a property only ever adds a `default` entry to
/// it: the property keeps its keys in their order, and where it grows, the
/// one new entry is the default.
pub proof fn law_merge_prop_adds_only_default(prop: JsonModel, dv: JsonModel)
    requires
        prop is Object,
    ensures
        merge_prop(prop, dv) is Object,
        ({
            let before = prop->Object_0;
            let after = merge_prop(prop, dv)->Object_0;
            &&& after.len() == before.len() || after.len() == before.len() + 1
            &&& forall|i: int| 0 <= i < before.len() ==> #[trigger] after[i].0 == before[i].0
            &&& after.len() == before.len() + 1 ==> after[before.len() as int] == (default_key(), dv)
        }),
{
    let pe = prop->Object_0;
    if is_secret(pe) {
    } else if is_object_typed(pe) && dv is Object {
        let i = find(pe, properties_key());
        lemma_find(pe, properties_key());
    } else {
        lemma_merge_any_of_keeps(pe, dv);
    }
}

/// Whether `b` is `a` with `default` entries added, at any depth: every
/// object keeps its entries, keys and order, and grows only by entries under
/// `default` at its end; every array keeps its length; every other value
/// stays as it is.
pub open spec fn grows_by_defaults(a: JsonModel, b: JsonModel) -> bool
    decreases a,
{
    if a is Object {
        &&& b is Object
        &&& a->Object_0.len() <= b->Object_0.len()
        &&& forall|i: int|
            0 <= i < a->Object_0.len() ==> #[trigger] b->Object_0[i].0 == a->Object_0[i].0
                && grows_by_defaults(a->Object_0[i].1, b->Object_0[i].1)
        &&& forall|i: int|
            a->Object_0.len() <= i < b->Object_0.len() ==> #[trigger] b->Object_0[i].0
                == default_key()
    } else if a is Array {
        &&& b is Array
        &&& a->Array_0.len() == b->Array_0.len()
        &&& forall|i: int|
            0 <= i < a->Array_0.len() ==> grows_by_defaults(
                #[trigger] a->Array_0[i],
                b->Array_0[i],
            )
    } else {
        a == b
    }
}

/// Every value grows from itself.
proof fn lemma_grows_refl(a: JsonModel)
    ensures
        grows_by_defaults(a, a),
    decreases a,
{
    if a is Object {
        let ea = a->Object_0;
        assert forall|i: int| #![trigger ea[i]] 0 <= i < ea.len() implies grows_by_defaults(
            ea[i].1,
            ea[i].1,
        ) by {
            lemma_grows_refl(ea[i].1);
        }
    } else if a is Array {
        let va = a->Array_0;
        assert forall|i: int| 0 <= i < va.len() implies grows_by_defaults(
            #[trigger] va[i],
            va[i],
        ) by {
            lemma_grows_refl(va[i]);
        }
    }
}

/// Growing twice is growing.
proof fn lemma_grows_trans(a: JsonModel, b: JsonModel, c: JsonModel)
    requires
        grows_by_defaults(a, b),
        grows_by_defaults(b, c),
    ensures
        grows_by_defaults(a, c),
    decreases a,
{
    match a {
        JsonModel::Object(ea) => {
            let eb = b->Object_0;
            let ec = c->Object_0;
            assert forall|i: int| 0 <= i < ea.len() implies #[trigger] ec[i].0 == ea[i].0
                && grows_by_defaults(ea[i].1, ec[i].1) by {
                assert(eb[i].0 == ea[i].0);
                assert(ec[i].0 == eb[i].0);
                lemma_grows_trans(ea[i].1, eb[i].1, ec[i].1);
            }
            assert forall|i: int| ea.len() <= i < ec.len() implies #[trigger] ec[i].0
                == default_key() by {
                if i < eb.len() {
                    assert(ec[i].0 == eb[i].0);
                }
            }
        },
        JsonModel::Array(va) => {
            let vb = b->Array_0;
            let vc = c->Array_0;
            assert forall|i: int| 0 <= i < va.len() implies grows_by_defaults(
                #[trigger] va[i],
                vc[i],
            ) by {
                lemma_grows_trans(va[i], vb[i], vc[i]);
            }
        },
        _ => {},
    }
}

/// Replacing one entry's value by a grown one grows the object.
proof fn lemma_grows_update(entries: Seq<(Seq<char>, JsonModel)>, i: int, v: JsonModel)
    requires
        0 <= i < entries.len(),
        grows_by_defaults(entries[i].1, v),
    ensures
        grows_by_defaults(
            JsonModel::Object(entries),
            JsonModel::Object(entries.update(i, (entries[i].0, v))),
        ),
{
    let eb = entries.update(i, (entries[i].0, v));
    assert forall|j: int| 0 <= j < entries.len() implies #[trigger] eb[j].0 == entries[j].0
        && grows_by_defaults(entries[j].1, eb[j].1) by {
        if j != i {
            lemma_grows_refl(entries[j].1);
        }
    }
}

/// Merging defaults into a schema only adds `default` entries, at any depth:
/// no key is removed or changed, and no property is added.
pub proof fn law_merge_schema_grows_by_defaults(
    schema: JsonModel,
    defaults: Seq<(Seq<char>, JsonModel)>,
)
    ensures
        grows_by_defaults(schema, merge_schema(schema, defaults)),
    decreases defaults, 2int,
{
    match schema {
        JsonModel::Object(entries) => {
            let i = find(entries, properties_key());
            lemma_find(entries, properties_key());
            if 0 <= i < entries.len() && entries[i].1 is Object {
                let props = entries[i].1->Object_0;
                lemma_merge_props_grows(props, defaults);
                lemma_grows_update(entries, i, JsonModel::Object(merge_props(props, defaults)));
            } else {
                lemma_grows_refl(schema);
            }
        },
        _ => {
            lemma_grows_refl(schema);
        },
    }
}

/// Merging defaults into properties only adds `default` entries.
proof fn lemma_merge_props_grows(
    props: Seq<(Seq<char>, JsonModel)>,
    defaults: Seq<(Seq<char>, JsonModel)>,
)
    ensures
        grows_by_defaults(JsonModel::Object(props), JsonModel::Object(merge_props(props, defaults))),
    decreases defaults, 1int,
{
    if defaults.len() == 0 {
        lemma_grows_refl(JsonModel::Object(props));
    } else {
        let init = defaults.drop_last();
        lemma_merge_props_grows(props, init);
        let prev = merge_props(props, init);
        let j = find(prev, defaults.last().0);
        lemma_find(prev, defaults.last().0);
        if 0 <= j < prev.len() {
            assert(decreases_to!(defaults => defaults[defaults.len() - 1]));
            assert(decreases_to!(defaults[defaults.len() - 1] => defaults[defaults.len() - 1].1));
            lemma_merge_prop_grows(prev[j].1, defaults.last().1);
            lemma_grows_update(prev, j, merge_prop(prev[j].1, defaults.last().1));
            lemma_grows_trans(
                JsonModel::Object(props),
                JsonModel::Object(prev),
                JsonModel::Object(merge_props(props, defaults)),
            );
        }
    }
}

/// Merging a default into a property only adds `default` entries.
proof fn lemma_merge_prop_grows(prop: JsonModel, dv: JsonModel)
    ensures
        grows_by_defaults(prop, merge_prop(prop, dv)),
    decreases dv, 3int,
{
    match prop {
        JsonModel::Object(pe) => {
            if is_secret(pe) {
                lemma_grows_refl(prop);
            } else if is_object_typed(pe) && dv is Object {
                law_merge_schema_grows_by_defaults(prop, dv->Object_0);
            } else {
                let m = merge_any_of(pe, dv);
                lemma_merge_any_of_grows(pe, dv);
                if !has_key(m, default_key()) {
                    let pushed = m.push((default_key(), dv));
                    assert forall|i: int| 0 <= i < m.len() implies #[trigger] pushed[i].0 == m[i].0
                        && grows_by_defaults(m[i].1, pushed[i].1) by {
                        lemma_grows_refl(m[i].1);
                    }
                    assert forall|i: int| m.len() <= i < pushed.len() implies #[trigger] pushed[i].0
                        == default_key() by {
                        assert(i == m.len());
                    }
                    lemma_grows_trans(prop, JsonModel::Object(m), JsonModel::Object(pushed));
                }
            }
        },
        _ => {
            lemma_grows_refl(prop);
        },
    }
}

/// Merging into an `anyOf` only adds `default` entries.
proof fn lemma_merge_any_of_grows(entries: Seq<(Seq<char>, JsonModel)>, dv: JsonModel)
    ensures
        grows_by_defaults(JsonModel::Object(entries), JsonModel::Object(merge_any_of(entries, dv))),
    decreases dv, 2int,
{
    let a = find(entries, any_of_key());
    lemma_find(entries, any_of_key());
    if dv is Object && 0 <= a < entries.len() && entries[a].1 is Array {
        let vs = entries[a].1->Array_0;
        let k = object_variant(vs);
        lemma_object_variant_from(vs, 0);
        if 0 <= k < vs.len() {
            let dvo = dv->Object_0;
            assert(decreases_to!(dv => dvo));
            law_merge_schema_grows_by_defaults(vs[k], dvo);
            let vs1 = vs.update(k, merge_schema(vs[k], dvo));
            assert forall|i: int| 0 <= i < vs.len() implies grows_by_defaults(
                #[trigger] vs[i],
                vs1[i],
            ) by {
                if i != k {
                    lemma_grows_refl(vs[i]);
                }
            }
            assert(grows_by_defaults(entries[a].1, JsonModel::Array(vs1)));
            lemma_grows_update(entries, a, JsonModel::Array(vs1));
        } else {
            lemma_grows_refl(JsonModel::Object(entries));
        }
    } else {
        lemma_grows_refl(JsonModel::Object(entries));
    }
}

/// Whether no object, at any depth, repeats a key: what every JSON value
/// that serde_json holds satisfies.
pub open spec fn distinct_deep(j: JsonModel) -> bool
    decreases j,
{
    if j is Object {
        &&& distinct_keys(j->Object_0)
        &&& forall|i: int|
            #![trigger j->Object_0[i]]
            0 <= i < j->Object_0.len() ==> distinct_deep(j->Object_0[i].1)
    } else if j is Array {
        forall|i: int| 0 <= i < j->Array_0.len() ==> distinct_deep(#[trigger] j->Array_0[i])
    } else {
        true
    }
}

/// Replacing a value in an object whose keys are distinct keeps them distinct.
proof fn lemma_distinct_update(entries: Seq<(Seq<char>, JsonModel)>, i: int, v: JsonModel)
    requires
        0 <= i < entries.len(),
        distinct_deep(JsonModel::Object(entries)),
        distinct_deep(v),
    ensures
        distinct_deep(JsonModel::Object(entries.update(i, (entries[i].0, v)))),
{
    let e = entries.update(i, (entries[i].0, v));
    assert forall|a: int, b: int| 0 <= a < b < e.len() implies e[a].0 != e[b].0 by {
        assert(entries[a].0 != entries[b].0);
    }
    assert forall|k: int| #![trigger e[k]] 0 <= k < e.len() implies distinct_deep(e[k].1) by {
        if k != i {
            assert(distinct_deep(entries[k].1));
        }
    }
}

/// Adding an entry under a key an object lacks keeps its keys distinct.
proof fn lemma_distinct_push(entries: Seq<(Seq<char>, JsonModel)>, key: Seq<char>, v: JsonModel)
    requires
        distinct_deep(JsonModel::Object(entries)),
        !has_key(entries, key),
        distinct_deep(v),
    ensures
        distinct_deep(JsonModel::Object(entries.push((key, v)))),
{
    lemma_find(entries, key);
    let e = entries.push((key, v));
    assert forall|a: int, b: int| 0 <= a < b < e.len() implies e[a].0 != e[b].0 by {
        if b < entries.len() {
            assert(entries[a].0 != entries[b].0);
        } else {
            assert(e[a] == entries[a]);
        }
    }
    assert forall|k: int| #![trigger e[k]] 0 <= k < e.len() implies distinct_deep(e[k].1) by {
        if k < entries.len() {
            assert(e[k] == entries[k]);
            assert(distinct_deep(entries[k].1));
        }
    }
}

/// Merging keeps every object's keys distinct: where no object in the schema
/// or in the default values repeats a key, no object in the merged schema
/// does. In particular a property that already has a `default` entry is not
/// given a second one.
pub proof fn law_merge_keeps_keys_distinct(schema: JsonModel, defaults: Seq<(Seq<char>, JsonModel)>)
    requires
        distinct_deep(schema),
        forall|i: int| 0 <= i < defaults.len() ==> distinct_deep(#[trigger] defaults[i].1),
    ensures
        distinct_deep(merge_schema(schema, defaults)),
    decreases defaults, 2int,
{
    if schema is Object {
        let entries = schema->Object_0;
        let i = find(entries, properties_key());
        lemma_find(entries, properties_key());
        if 0 <= i < entries.len() && entries[i].1 is Object {
            let props = entries[i].1->Object_0;
            assert(distinct_deep(entries[i].1));
            lemma_merge_props_keeps_distinct(props, defaults);
            lemma_distinct_update(entries, i, JsonModel::Object(merge_props(props, defaults)));
        }
    }
}

/// Merging defaults into properties keeps every object's keys distinct.
proof fn lemma_merge_props_keeps_distinct(
    props: Seq<(Seq<char>, JsonModel)>,
    defaults: Seq<(Seq<char>, JsonModel)>,
)
    requires
        distinct_deep(JsonModel::Object(props)),
        forall|i: int| 0 <= i < defaults.len() ==> distinct_deep(#[trigger] defaults[i].1),
    ensures
        distinct_deep(JsonModel::Object(merge_props(props, defaults))),
    decreases defaults, 1int,
{
    if defaults.len() > 0 {
        let init = defaults.drop_last();
        assert forall|i: int| 0 <= i < init.len() implies distinct_deep(#[trigger] init[i].1) by {
            assert(init[i] == defaults[i]);
        }
        lemma_merge_props_keeps_distinct(props, init);
        let prev = merge_props(props, init);
        let j = find(prev, defaults.last().0);
        lemma_find(prev, defaults.last().0);
        if 0 <= j < prev.len() {
            let n = defaults.len() - 1;
            assert(distinct_deep(defaults[n].1));
            assert(decreases_to!(defaults => defaults[n]));
            assert(decreases_to!(defaults[n] => defaults[n].1));
            assert(distinct_deep(prev[j].1));
            lemma_merge_prop_keeps_distinct(prev[j].1, defaults[n].1);
            lemma_distinct_update(prev, j, merge_prop(prev[j].1, defaults[n].1));
        }
    }
}

/// Merging a default into a property keeps every object's keys distinct.
proof fn lemma_merge_prop_keeps_distinct(prop: JsonModel, dv: JsonModel)
    requires
        distinct_deep(prop),
        distinct_deep(dv),
    ensures
        distinct_deep(merge_prop(prop, dv)),
    decreases dv, 3int,
{
    if prop is Object {
        let pe = prop->Object_0;
        if is_secret(pe) {
        } else if is_object_typed(pe) && dv is Object {
            let dvo = dv->Object_0;
            assert forall|i: int| 0 <= i < dvo.len() implies distinct_deep(#[trigger] dvo[i].1) by {
                assert(distinct_deep(dvo[i].1));
            }
            law_merge_keeps_keys_distinct(prop, dvo);
        } else {
            let m = merge_any_of(pe, dv);
            lemma_merge_any_of_keeps_distinct(pe, dv);
            lemma_merge_any_of_keeps(pe, dv);
            if !has_key(m, default_key()) {
                lemma_distinct_push(m, default_key(), dv);
            }
        }
    }
}

/// Merging into an `anyOf` keeps every object's keys distinct.
proof fn lemma_merge_any_of_keeps_distinct(entries: Seq<(Seq<char>, JsonModel)>, dv: JsonModel)
    requires
        distinct_deep(JsonModel::Object(entries)),
        distinct_deep(dv),
    ensures
        distinct_deep(JsonModel::Object(merge_any_of(entries, dv))),
    decreases dv, 2int,
{
    let a = find(entries, any_of_key());
    lemma_find(entries, any_of_key());
    if dv is Object && 0 <= a < entries.len() && entries[a].1 is Array {
        let vs = entries[a].1->Array_0;
        let k = object_variant(vs);
        lemma_object_variant_from(vs, 0);
        if 0 <= k < vs.len() {
            let dvo = dv->Object_0;
            assert(decreases_to!(dv => dvo));
            assert(distinct_deep(entries[a].1));
            assert(distinct_deep(vs[k]));
            assert forall|i: int| 0 <= i < dvo.len() implies distinct_deep(#[trigger] dvo[i].1) by {
                assert(distinct_deep(dvo[i].1));
            }
            law_merge_keeps_keys_distinct(vs[k], dvo);
            let vs1 = vs.update(k, merge_schema(vs[k], dvo));
            assert forall|i: int| 0 <= i < vs1.len() implies distinct_deep(#[trigger] vs1[i]) by {
                if i != k {
                    assert(distinct_deep(vs[i]));
                }
            }
            lemma_distinct_update(entries, a, JsonModel::Array(vs1));
        }
    }
}

/// Setting a key keeps an object's keys distinct, and adds no key but it.
proof fn lemma_put_keys(entries: Seq<(Seq<char>, JsonModel)>, key: Seq<char>, value: JsonModel)
    requires
        distinct_keys(entries),
    ensures
        distinct_keys(put(entries, key, value)),
        forall|i: int|
            0 <= i < put(entries, key, value).len() ==> #[trigger] put(entries, key, value)[i].0
                == key || has_key(entries, put(entries, key, value)[i].0),
{
    lemma_find(entries, key);
    let r = put(entries, key, value);
    assert forall|a: int, b: int| 0 <= a < b < r.len() implies r[a].0 != r[b].0 by {
        if b < entries.len() {
            assert(entries[a].0 != entries[b].0);
        }
    }
    assert forall|i: int| 0 <= i < r.len() implies #[trigger] r[i].0 == key || has_key(
        entries,
        r[i].0,
    ) by {
        if i < entries.len() && r[i].0 != key {
            assert(r[i] == entries[i]);
            lemma_find(entries, r[i].0);
        }
    }
}

/// Setting keys one after the other keeps an object's keys distinct, and
/// adds no key but theirs.
proof fn lemma_put_all_keys(entries: Seq<(Seq<char>, JsonModel)>, updates: Seq<(Seq<char>, JsonModel)>)
    requires
        distinct_keys(entries),
    ensures
        distinct_keys(put_all(entries, updates)),
        forall|i: int|
            0 <= i < put_all(entries, updates).len() ==> has_key(
                entries,
                #[trigger] put_all(entries, updates)[i].0,
            ) || exists|j: int| 0 <= j < updates.len() && updates[j].0 == put_all(entries, updates)[i].0,
    decreases updates.len(),
{
    if updates.len() > 0 {
        let init = updates.drop_last();
        lemma_put_all_keys(entries, init);
        let prev = put_all(entries, init);
        let last = updates.last();
        lemma_put_keys(prev, last.0, last.1);
        let r = put_all(entries, updates);
        assert forall|i: int| 0 <= i < r.len() implies has_key(entries, #[trigger] r[i].0) || exists|
            j: int,
        | 0 <= j < updates.len() && updates[j].0 == r[i].0 by {
            if r[i].0 == last.0 {
                assert(updates[updates.len() - 1].0 == r[i].0);
            } else {
                assert(has_key(prev, r[i].0));
                lemma_find(prev, r[i].0);
                let f = find(prev, r[i].0);
                assert(prev[f].0 == r[i].0);
                if !has_key(entries, prev[f].0) {
                    let j = choose|j: int| 0 <= j < init.len() && init[j].0 == prev[f].0;
                    assert(updates[j] == init[j]);
                }
            }
        }
    } else {
        assert forall|i: int| 0 <= i < entries.len() implies has_key(
            entries,
            #[trigger] put_all(entries, updates)[i].0,
        ) by {
            lemma_find(entries, entries[i].0);
        }
    }
}

/// The document has one entry per key: where the schema's keys are
/// distinct, the document's are, and each of its keys is the name key, a key
/// of the schema, or the key of an extension.
pub proof fn law_document_keys(s: NixSchemaModel)
    requires
        s.schema is Object,
        distinct_keys(s.schema->Object_0),
    ensures
        document_model(s) is Object,
        distinct_keys(document_model(s)->Object_0),
        forall|i: int|
            0 <= i < document_model(s)->Object_0.len() ==> #[trigger] document_model(s)->Object_0[i].0
                == name_key() || has_key(s.schema->Object_0, document_model(s)->Object_0[i].0)
                || exists|j: int|
                0 <= j < s.extensions.len() && s.extensions[j].0 == document_model(
                    s,
                )->Object_0[i].0,
{
    let e = s.schema->Object_0;
    let named = put(e, name_key(), JsonModel::Str(s.name));
    lemma_put_keys(e, name_key(), JsonModel::Str(s.name));
    lemma_put_all_keys(named, s.extensions);
    let d = document_model(s)->Object_0;
    assert forall|i: int| 0 <= i < d.len() implies #[trigger] d[i].0 == name_key() || has_key(e, d[i].0)
        || exists|j: int| 0 <= j < s.extensions.len() && s.extensions[j].0 == d[i].0 by {
        if has_key(named, d[i].0) {
            lemma_find(named, d[i].0);
            let f = find(named, d[i].0);
            assert(named[f].0 == d[i].0);
        }
    }
}

/// The document carries the schema's name under `x-nixcfg-name`, unless an
/// extension is set under that key.
pub proof fn law_document_name(s: NixSchemaModel)
    requires
        s.schema is Object,
        forall|i: int| 0 <= i < s.extensions.len() ==> s.extensions[i].0 != name_key(),
    ensures
        document_model(s) is Object,
        get(document_model(s)->Object_0, name_key()) == Some(JsonModel::Str(s.name)),
{
    let named = put(s.schema->Object_0, name_key(), JsonModel::Str(s.name));
    law_get_put_all(named, s.extensions, name_key());
    law_get_put_same(s.schema->Object_0, name_key(), JsonModel::Str(s.name));
}

/// Each extension key carries the value of the last extension set under it.
pub proof fn law_document_extension(s: NixSchemaModel, i: int)
    requires
        s.schema is Object,
        0 <= i < s.extensions.len(),
        forall|j: int| i < j < s.extensions.len() ==> s.extensions[j].0 != s.extensions[i].0,
    ensures
        get(document_model(s)->Object_0, s.extensions[i].0) == Some(s.extensions[i].1),
{
    let named = put(s.schema->Object_0, name_key(), JsonModel::Str(s.name));
    law_get_put_all(named, s.extensions, s.extensions[i].0);
}

/// Every other entry of the schema, `x-nixcfg-*` keys among them, passes into
/// the document untouched.
pub proof fn law_document_keeps_schema_entries(s: NixSchemaModel, key: Seq<char>)
    requires
        s.schema is Object,
        key != name_key(),
        forall|i: int| 0 <= i < s.extensions.len() ==> s.extensions[i].0 != key,
    ensures
        get(document_model(s)->Object_0, key) == get(s.schema->Object_0, key),
{
    let named = put(s.schema->Object_0, name_key(), JsonModel::Str(s.name));
    law_get_put_all(named, s.extensions, key);
    law_get_put_other(s.schema->Object_0, name_key(), JsonModel::Str(s.name), key);
}

/// Whether no object among `defaults` and the objects nested in its values
/// repeats a key, as in any JSON value.
pub open spec fn distinct_keys_deep(defaults: Seq<(Seq<char>, JsonModel)>) -> bool
    decreases defaults,
{
    if defaults.len() == 0 {
        true
    } else {
        &&& distinct_keys_deep(defaults.drop_last())
        &&& !has_key(defaults.drop_last(), defaults.last().0)
        &&& match defaults.last().1 {
            JsonModel::Object(sub) => distinct_keys_deep(sub),
            _ => true,
        }
    }
}

/// Deeply distinct keys are distinct keys, down into each object value.
proof fn lemma_distinct_keys_deep(defaults: Seq<(Seq<char>, JsonModel)>)
    requires
        distinct_keys_deep(defaults),
    ensures
        distinct_keys(defaults),
        forall|i: int|
            0 <= i < defaults.len() && (#[trigger] defaults[i]).1 is Object ==> distinct_keys_deep(
                defaults[i].1->Object_0,
            ),
    decreases defaults.len(),
{
    if defaults.len() > 0 {
        let init = defaults.drop_last();
        lemma_distinct_keys_deep(init);
        lemma_find(init, defaults.last().0);
        assert forall|a: int, b: int| 0 <= a < b < defaults.len() implies defaults[a].0
            != defaults[b].0 by {
            if b == defaults.len() - 1 {
                assert(init[a] == defaults[a]);
            } else {
                assert(init[a] == defaults[a]);
                assert(init[b] == defaults[b]);
            }
        }
        assert forall|i: int|
            0 <= i < defaults.len() && (#[trigger] defaults[i]).1 is Object implies distinct_keys_deep(
            defaults[i].1->Object_0,
        ) by {
            if i < defaults.len() - 1 {
                assert(init[i] == defaults[i]);
            }
        }
    }
}

/// Where no two defaults share a key, a property is merged with the default
/// under its key when it is the first property with that key, and is left as
/// it is otherwise.
proof fn lemma_merge_props_at(
    props: Seq<(Seq<char>, JsonModel)>,
    defaults: Seq<(Seq<char>, JsonModel)>,
    j: int,
)
    requires
        distinct_keys(defaults),
        0 <= j < props.len(),
    ensures
        merge_props(props, defaults)[j] == (if find(props, props[j].0) == j && find(
            defaults,
            props[j].0,
        ) >= 0 {
            (props[j].0, merge_prop(props[j].1, defaults[find(defaults, props[j].0)].1))
        } else {
            props[j]
        }),
    decreases defaults.len(),
{
    let key = props[j].0;
    lemma_find(defaults, key);
    if defaults.len() > 0 {
        let init = defaults.drop_last();
        let last = defaults.last();
        assert forall|a: int, b: int| 0 <= a < b < init.len() implies init[a].0 != init[b].0 by {
            assert(init[a] == defaults[a]);
            assert(init[b] == defaults[b]);
        }
        lemma_merge_props_at(props, init, j);
        law_merge_props_keeps_keys(props, init);
        let prev = merge_props(props, init);
        lemma_find_same_keys(prev, props, last.0);
        lemma_find(props, last.0);
        lemma_find(props, key);
        assert(init.push(last) =~= defaults);
        lemma_find_push(init, last, key);
        lemma_find(init, key);
        if find(props, last.0) == j {
            assert(last.0 == key);
            if find(init, key) >= 0 {
                assert(init[find(init, key)] == defaults[find(init, key)]);
                assert(false);
            }
        }
    } else {
        assert(find(defaults, key) == -1);
    }
}

/// Merging a property twice with one default is merging it once.
proof fn lemma_merge_prop_idempotent(prop: JsonModel, dv: JsonModel)
    requires
        dv is Object ==> distinct_keys_deep(dv->Object_0),
    ensures
        merge_prop(merge_prop(prop, dv), dv) == merge_prop(prop, dv),
    decreases dv, 3int,
{
    lemma_keys_differ();
    match prop {
        JsonModel::Object(pe) => {
            if is_secret(pe) {
            } else if is_object_typed(pe) && dv is Object {
                law_merge_schema_keeps_other_entries(prop, dv->Object_0, secret_key());
                law_merge_schema_keeps_other_entries(prop, dv->Object_0, type_key());
                lemma_merge_schema_idempotent(prop, dv->Object_0);
            } else {
                let m = merge_any_of(pe, dv);
                lemma_merge_any_of_keeps(pe, dv);
                lemma_merge_any_of_idempotent(pe, dv);
                lemma_find(m, default_key());
                if has_key(m, default_key()) {
                    lemma_merge_any_of_keeps(m, dv);
                } else {
                    let x = (default_key(), dv);
                    lemma_find_push(m, x, secret_key());
                    lemma_find_push(m, x, type_key());
                    lemma_find_push(m, x, default_key());
                    lemma_find(m, secret_key());
                    lemma_find(m, type_key());
                    if find(m, secret_key()) >= 0 {
                        assert(m.push(x)[find(m, secret_key())] == m[find(m, secret_key())]);
                    }
                    if find(m, type_key()) >= 0 {
                        assert(m.push(x)[find(m, type_key())] == m[find(m, type_key())]);
                    }
                    lemma_merge_any_of_push(m, dv, x);
                    lemma_merge_any_of_keeps(m.push(x), dv);
                }
            }
        },
        _ => {},
    }
}

/// Merging a schema twice with the same defaults is merging it once.
proof fn lemma_merge_schema_idempotent(schema: JsonModel, defaults: Seq<(Seq<char>, JsonModel)>)
    requires
        distinct_keys_deep(defaults),
    ensures
        merge_schema(merge_schema(schema, defaults), defaults) == merge_schema(schema, defaults),
    decreases defaults, 2int,
{
    match schema {
        JsonModel::Object(entries) => {
            let i = find(entries, properties_key());
            lemma_find(entries, properties_key());
            if 0 <= i < entries.len() && entries[i].1 is Object {
                let props = entries[i].1->Object_0;
                let mp = merge_props(props, defaults);
                let e1 = entries.update(i, (entries[i].0, JsonModel::Object(mp)));
                lemma_find_update_same_key(entries, i, JsonModel::Object(mp), properties_key());
                lemma_merge_props_idempotent(props, defaults);
                assert(e1.update(i, (e1[i].0, JsonModel::Object(merge_props(mp, defaults)))) =~= e1);
            }
        },
        _ => {},
    }
}

/// Merging properties twice with the same defaults is merging them once.
proof fn lemma_merge_props_idempotent(
    props: Seq<(Seq<char>, JsonModel)>,
    defaults: Seq<(Seq<char>, JsonModel)>,
)
    requires
        distinct_keys_deep(defaults),
    ensures
        merge_props(merge_props(props, defaults), defaults) == merge_props(props, defaults),
    decreases defaults, 1int,
{
    lemma_distinct_keys_deep(defaults);
    let once = merge_props(props, defaults);
    let twice = merge_props(once, defaults);
    law_merge_props_keeps_keys(props, defaults);
    law_merge_props_keeps_keys(once, defaults);
    assert forall|j: int| 0 <= j < props.len() implies twice[j] == once[j] by {
        let key = props[j].0;
        lemma_merge_props_at(props, defaults, j);
        lemma_merge_props_at(once, defaults, j);
        lemma_find_same_keys(once, props, key);
        if find(props, key) == j && find(defaults, key) >= 0 {
            let di = find(defaults, key);
            lemma_find(defaults, key);
            assert(decreases_to!(defaults => defaults[di]));
            assert(decreases_to!(defaults[di] => defaults[di].1));
            lemma_merge_prop_idempotent(props[j].1, defaults[di].1);
        }
    }
    assert(twice =~= once);
}

/// Merging the same defaults a second time changes nothing: where no object
/// among the defaults repeats a key, merging is idempotent.
pub proof fn law_merge_idempotent(schema: JsonModel, defaults: Seq<(Seq<char>, JsonModel)>)
    requires
        distinct_keys_deep(defaults),
    ensures
        merge_schema(merge_schema(schema, defaults), defaults) == merge_schema(schema, defaults),
{
    lemma_merge_schema_idempotent(schema, defaults);
}

} // verus!
