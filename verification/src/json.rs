//! A JSON value as the library holds it, and its mathematical model.

use vstd::prelude::*;

verus! {

/// A JSON number is kept as serde_json's own `Number`, which this library
/// only carries through.
#[verifier::external_type_specification]
#[verifier::external_body]
pub struct ExNumber(serde_json::Number);

/// `serde_json::Number`'s `Clone` (derived, over a `Copy` enum of `u64`,
/// `i64` and `f64`): the copy is the same number.
pub assume_specification[ <serde_json::Number as Clone>::clone ](n: &serde_json::Number) -> (r:
    serde_json::Number)
    ensures
        r == *n,
;

/// A JSON value. Objects keep their entries in a vector of key/value pairs;
/// a key occurs at most once in the objects this library builds or receives.
#[derive(Debug, PartialEq)]
pub enum Json {
    Null,
    Bool(bool),
    Number(serde_json::Number),
    Str(String),
    Array(Vec<Json>),
    Object(Vec<(String, Json)>),
}

/// The mathematical model of a JSON value: strings are character sequences,
/// arrays and objects are sequences.
pub enum JsonModel {
    Null,
    Bool(bool),
    Number(serde_json::Number),
    Str(Seq<char>),
    Array(Seq<JsonModel>),
    Object(Seq<(Seq<char>, JsonModel)>),
}

pub open spec fn json_view(j: Json) -> JsonModel
    decreases j,
{
    match j {
        Json::Null => JsonModel::Null,
        Json::Bool(b) => JsonModel::Bool(b),
        Json::Number(n) => JsonModel::Number(n),
        Json::Str(s) => JsonModel::Str(s@),
        Json::Array(items) => JsonModel::Array(items_view(items@)),
        Json::Object(entries) => JsonModel::Object(entries_view(entries@)),
    }
}

/// The model of a sequence of JSON values.
pub open spec fn items_view(items: Seq<Json>) -> Seq<JsonModel>
    decreases items,
{
    if items.len() == 0 {
        Seq::empty()
    } else {
        items_view(items.drop_last()).push(json_view(items.last()))
    }
}

/// The model of the entries of a JSON object.
pub open spec fn entries_view(entries: Seq<(String, Json)>) -> Seq<(Seq<char>, JsonModel)>
    decreases entries,
{
    if entries.len() == 0 {
        Seq::empty()
    } else {
        entries_view(entries.drop_last()).push((entries.last().0@, json_view(entries.last().1)))
    }
}

impl View for Json {
    type V = JsonModel;

    open spec fn view(&self) -> JsonModel {
        json_view(*self)
    }
}

/// Each model entry of a sequence of JSON values is the model of the value.
pub proof fn lemma_items_view(items: Seq<Json>)
    ensures
        items_view(items).len() == items.len(),
        forall|i: int| 0 <= i < items.len() ==> #[trigger] items_view(items)[i] == json_view(items[i]),
    decreases items.len(),
{
    if items.len() > 0 {
        lemma_items_view(items.drop_last());
    }
}

/// Each model entry of an object is the model of its key and value.
pub proof fn lemma_entries_view(entries: Seq<(String, Json)>)
    ensures
        entries_view(entries).len() == entries.len(),
        forall|i: int|
            0 <= i < entries.len() ==> #[trigger] entries_view(entries)[i] == (
                entries[i].0@,
                json_view(entries[i].1),
            ),
    decreases entries.len(),
{
    if entries.len() > 0 {
        lemma_entries_view(entries.drop_last());
    }
}

/// The index of the first entry at or after `start` whose key is `key`, or -1.
pub open spec fn find_from(entries: Seq<(Seq<char>, JsonModel)>, key: Seq<char>, start: int) -> int
    decreases entries.len() - start,
{
    if start < 0 || start >= entries.len() {
        -1
    } else if entries[start].0 == key {
        start
    } else {
        find_from(entries, key, start + 1)
    }
}

/// The index of the entry of an object whose key is `key`, or -1 where there is none.
pub open spec fn find(entries: Seq<(Seq<char>, JsonModel)>, key: Seq<char>) -> int {
    find_from(entries, key, 0)
}

/// The value under `key` in an object's entries.
pub open spec fn get(entries: Seq<(Seq<char>, JsonModel)>, key: Seq<char>) -> Option<JsonModel> {
    let i = find(entries, key);
    if i >= 0 {
        Some(entries[i].1)
    } else {
        None
    }
}

/// Whether an object has an entry under `key`.
pub open spec fn has_key(entries: Seq<(Seq<char>, JsonModel)>, key: Seq<char>) -> bool {
    find(entries, key) >= 0
}

/// The entries of an object after `key` is mapped to `value`: an entry under
/// `key` keeps its place and takes the new value; otherwise the entry is added
/// at the end.
pub open spec fn put(
    entries: Seq<(Seq<char>, JsonModel)>,
    key: Seq<char>,
    value: JsonModel,
) -> Seq<(Seq<char>, JsonModel)> {
    let i = find(entries, key);
    if i >= 0 {
        entries.update(i, (key, value))
    } else {
        entries.push((key, value))
    }
}

/// `find_from` gives the first match at or after `start`, or -1 where there is none.
pub proof fn lemma_find_from(entries: Seq<(Seq<char>, JsonModel)>, key: Seq<char>, start: int)
    requires
        0 <= start,
    ensures
        find_from(entries, key, start) == -1 || (start <= find_from(entries, key, start)
            < entries.len() && entries[find_from(entries, key, start)].0 == key),
        forall|j: int|
            start <= j < entries.len() && (find_from(entries, key, start) == -1 || j < find_from(
                entries,
                key,
                start,
            )) ==> entries[j].0 != key,
    decreases entries.len() - start,
{
    if start < entries.len() && entries[start].0 != key {
        lemma_find_from(entries, key, start + 1);
    }
}

/// `find` gives the first entry with the key, or -1 where no entry has it.
pub proof fn lemma_find(entries: Seq<(Seq<char>, JsonModel)>, key: Seq<char>)
    ensures
        find(entries, key) == -1 || (0 <= find(entries, key) < entries.len() && entries[find(
            entries,
            key,
        )].0 == key),
        forall|j: int|
            0 <= j < entries.len() && (find(entries, key) == -1 || j < find(entries, key))
                ==> entries[j].0 != key,
{
    lemma_find_from(entries, key, 0);
}

/// Entries whose keys agree agree on `find`.
pub proof fn lemma_find_same_keys(
    a: Seq<(Seq<char>, JsonModel)>,
    b: Seq<(Seq<char>, JsonModel)>,
    key: Seq<char>,
)
    requires
        a.len() == b.len(),
        forall|i: int| 0 <= i < a.len() ==> a[i].0 == b[i].0,
    ensures
        find(a, key) == find(b, key),
{
    lemma_find(a, key);
    lemma_find(b, key);
    if find(a, key) >= 0 && find(b, key) >= 0 {
    } else if find(a, key) >= 0 {
        assert(b[find(a, key)].0 == key);
    } else if find(b, key) >= 0 {
        assert(a[find(b, key)].0 == key);
    }
}

impl Json {
    /// A copy of this value, built entry by entry.
    pub fn duplicate(&self) -> (r: Json)
        ensures
            r@ == self@,
        decreases self,
    {
        match self {
            Json::Null => Json::Null,
            Json::Bool(b) => Json::Bool(*b),
            Json::Number(n) => Json::Number(n.clone()),
            Json::Str(s) => Json::Str(s.clone()),
            Json::Array(items) => {
                let mut out: Vec<Json> = Vec::new();
                let mut i: usize = 0;
                while i < items.len()
                    invariant
                        i <= items.len(),
                        *self == Json::Array(*items),
                        out@.len() == i,
                        forall|j: int| 0 <= j < i ==> #[trigger] json_view(out@[j]) == json_view(
                            items@[j],
                        ),
                    decreases items.len() - i,
                {
                    let item = &items[i];
                    proof {
                        assert(decreases_to!(*self => self->Array_0));
                        assert(decreases_to!(*items => items@));
                        assert(decreases_to!(items@ => items@[i as int]));
                        assert(*item == items@[i as int]);
                    }
                    let c = item.duplicate();
                    out.push(c);
                    i = i + 1;
                }
                proof {
                    lemma_items_view(out@);
                    lemma_items_view(items@);
                    assert(items_view(out@) =~= items_view(items@));
                }
                Json::Array(out)
            },
            Json::Object(entries) => {
                let mut out: Vec<(String, Json)> = Vec::new();
                let mut i: usize = 0;
                while i < entries.len()
                    invariant
                        i <= entries.len(),
                        *self == Json::Object(*entries),
                        out@.len() == i,
                        forall|j: int|
                            0 <= j < i ==> #[trigger] out@[j].0@ == entries@[j].0@ && json_view(
                                out@[j].1,
                            ) == json_view(entries@[j].1),
                    decreases entries.len() - i,
                {
                    let entry = &entries[i];
                    proof {
                        assert(decreases_to!(*self => self->Object_0));
                        assert(decreases_to!(*entries => entries@));
                        assert(decreases_to!(entries@ => entries@[i as int]));
                        assert(decreases_to!(entries@[i as int] => entries@[i as int].1));
                        assert(*entry == entries@[i as int]);
                    }
                    let c = entry.1.duplicate();
                    out.push((entries[i].0.clone(), c));
                    i = i + 1;
                }
                proof {
                    lemma_entries_view(out@);
                    lemma_entries_view(entries@);
                    assert(entries_view(out@) =~= entries_view(entries@));
                }
                Json::Object(out)
            },
        }
    }
}

/// The index of the entry under `key`, or the number of entries where there is none.
pub fn find_key(entries: &Vec<(String, Json)>, key: &String) -> (i: usize)
    ensures
        find(entries_view(entries@), key@) == -1 ==> i == entries@.len(),
        find(entries_view(entries@), key@) != -1 ==> i as int == find(entries_view(entries@), key@),
{
    let ghost m = entries_view(entries@);
    proof {
        lemma_entries_view(entries@);
    }
    let mut i: usize = 0;
    while i < entries.len()
        invariant
            i <= entries.len(),
            m == entries_view(entries@),
            m.len() == entries@.len(),
            find(m, key@) == find_from(m, key@, i as int),
            forall|j: int| 0 <= j < entries.len() ==> #[trigger] m[j].0 == entries@[j].0@,
        decreases entries.len() - i,
    {
        if entries[i].0 == *key {
            return i;
        }
        i = i + 1;
    }
    i
}

impl Json {
    /// The value under `key`, where this value is an object that has one.
    pub fn get(&self, key: &str) -> (r: Option<&Json>)
        ensures
            match self@ {
                JsonModel::Object(entries) => match r {
                    Some(v) => get(entries, key@) == Some(v@),
                    None => get(entries, key@) is None,
                },
                _ => r is None,
            },
    {
        match self {
            Json::Object(entries) => {
                let k = String::from_str(key);
                let i = find_key(entries, &k);
                proof {
                    lemma_entries_view(entries@);
                    lemma_find(entries_view(entries@), k@);
                }
                if i < entries.len() {
                    Some(&entries[i].1)
                } else {
                    None
                }
            },
            _ => None,
        }
    }

    /// Whether this value is the boolean `true`.
    pub fn is_true(&self) -> (b: bool)
        ensures
            b == (self@ == JsonModel::Bool(true)),
    {
        match self {
            Json::Bool(v) => *v,
            _ => false,
        }
    }

    /// Whether this value is the string `text`.
    pub fn is_text(&self, text: &String) -> (b: bool)
        ensures
            b == (self@ == JsonModel::Str(text@)),
    {
        match self {
            Json::Str(s) => *s == *text,
            _ => false,
        }
    }
}

impl Clone for Json {
    fn clone(&self) -> (r: Json)
        ensures
            r@ == self@,
    {
        self.duplicate()
    }
}

/// The model of an object after each entry of `updates`, in order, is set in it.
pub open spec fn put_all(
    entries: Seq<(Seq<char>, JsonModel)>,
    updates: Seq<(Seq<char>, JsonModel)>,
) -> Seq<(Seq<char>, JsonModel)>
    decreases updates.len(),
{
    if updates.len() == 0 {
        entries
    } else {
        let prev = put_all(entries, updates.drop_last());
        put(prev, updates.last().0, updates.last().1)
    }
}

/// Maps `key` to `value` in the entries of an object (see [`put`]).
pub fn put_entry(entries: &mut Vec<(String, Json)>, key: String, value: Json)
    ensures
        entries_view(final(entries)@) == put(entries_view(old(entries)@), key@, value@),
{
    let ghost before = entries@;
    let i = find_key(entries, &key);
    proof {
        lemma_entries_view(entries@);
        lemma_find(entries_view(entries@), key@);
    }
    if i < entries.len() {
        entries.remove(i);
        entries.insert(i, (key, value));
    } else {
        entries.push((key, value));
    }
    proof {
        lemma_entries_view(entries@);
        assert(entries_view(entries@) =~= put(entries_view(before), key@, value@));
    }
}

/// Where an entry is added at the end, the first entry with a key is the
/// earlier one, or else the added one.
pub proof fn lemma_find_push(entries: Seq<(Seq<char>, JsonModel)>, x: (Seq<char>, JsonModel), key: Seq<char>)
    ensures
        find(entries.push(x), key) == (if find(entries, key) >= 0 {
            find(entries, key)
        } else if x.0 == key {
            entries.len() as int
        } else {
            -1
        }),
{
    let p = entries.push(x);
    lemma_find(entries, key);
    lemma_find(p, key);
    if find(entries, key) >= 0 {
        assert(p[find(entries, key)].0 == key);
    } else if x.0 == key {
        assert(p[entries.len() as int].0 == key);
    } else if find(p, key) >= 0 {
        assert(p[find(p, key)].0 == key);
        assert(find(p, key) < entries.len());
        assert(entries[find(p, key)].0 == key);
    }
}

/// Replacing the value of an entry keeps the keys, so `find` gives what it gave.
pub proof fn lemma_find_update_same_key(
    entries: Seq<(Seq<char>, JsonModel)>,
    i: int,
    v: JsonModel,
    key: Seq<char>,
)
    requires
        0 <= i < entries.len(),
    ensures
        find(entries.update(i, (entries[i].0, v)), key) == find(entries, key),
{
    lemma_find_same_keys(entries.update(i, (entries[i].0, v)), entries, key);
}

/// A read of the key just written gives the written value.
pub proof fn law_get_put_same(entries: Seq<(Seq<char>, JsonModel)>, key: Seq<char>, value: JsonModel)
    ensures
        get(put(entries, key, value), key) == Some(value),
{
    lemma_find(entries, key);
    if find(entries, key) >= 0 {
        lemma_find_same_keys(entries.update(find(entries, key), (key, value)), entries, key);
    } else {
        lemma_find_push(entries, (key, value), key);
    }
}

/// A write under one key leaves the value under any other key as it was.
pub proof fn law_get_put_other(
    entries: Seq<(Seq<char>, JsonModel)>,
    key: Seq<char>,
    value: JsonModel,
    other: Seq<char>,
)
    requires
        other != key,
    ensures
        get(put(entries, key, value), other) == get(entries, other),
{
    lemma_find(entries, key);
    lemma_find(entries, other);
    if find(entries, key) >= 0 {
        lemma_find_same_keys(entries.update(find(entries, key), (key, value)), entries, other);
    } else {
        lemma_find_push(entries, (key, value), other);
    }
}

/// After a sequence of writes, a key reads as the last value written under
/// it, or where none was written under it, as it read before.
pub proof fn law_get_put_all(
    entries: Seq<(Seq<char>, JsonModel)>,
    updates: Seq<(Seq<char>, JsonModel)>,
    key: Seq<char>,
)
    ensures
        (forall|i: int| 0 <= i < updates.len() ==> updates[i].0 != key) ==> get(
            put_all(entries, updates),
            key,
        ) == get(entries, key),
        forall|i: int|
            0 <= i < updates.len() && updates[i].0 == key && (forall|j: int|
                i < j < updates.len() ==> updates[j].0 != key) ==> get(put_all(entries, updates), key)
                == Some(updates[i].1),
    decreases updates.len(),
{
    if updates.len() > 0 {
        let init = updates.drop_last();
        law_get_put_all(entries, init, key);
        let last = updates.last();
        if last.0 == key {
            law_get_put_same(put_all(entries, init), key, last.1);
        } else {
            law_get_put_other(put_all(entries, init), last.0, last.1, key);
            assert forall|i: int|
                0 <= i < updates.len() && updates[i].0 == key && (forall|j: int|
                    i < j < updates.len() ==> updates[j].0 != key) implies get(
                put_all(entries, updates),
                key,
            ) == Some(updates[i].1) by {
                assert(i < updates.len() - 1);
                assert(init[i] == updates[i]);
                assert forall|j: int| i < j < init.len() implies init[j].0 != key by {
                    assert(init[j] == updates[j]);
                }
            }
            assert((forall|i: int| 0 <= i < updates.len() ==> updates[i].0 != key) ==> (forall|
                i: int,
            |
                0 <= i < init.len() ==> init[i].0 != key)) by {
                if forall|i: int| 0 <= i < updates.len() ==> updates[i].0 != key {
                    assert forall|i: int| 0 <= i < init.len() implies init[i].0 != key by {
                        assert(init[i] == updates[i]);
                    }
                }
            }
        }
    }
}

/// A `serde_json::Value`, which this library builds only to hand it to
/// serde_json's serialiser.
#[verifier::external_type_specification]
#[verifier::external_body]
pub struct ExValue(serde_json::Value);

/// The `serde_json::Value` of a value, variant for variant; an object's
/// entries are collected into serde_json's `Map`. This is the conversion of
/// [`pretty_string`]'s argument, apart because it recurses.
#[verifier::external_body]
fn json_value(doc: &Json) -> serde_json::Value {
    match doc {
        Json::Null => serde_json::Value::Null,
        Json::Bool(b) => serde_json::Value::Bool(*b),
        Json::Number(n) => serde_json::Value::Number(n.clone()),
        Json::Str(s) => serde_json::Value::String(s.clone()),
        Json::Array(items) => serde_json::Value::Array(items.iter().map(json_value).collect()),
        Json::Object(entries) => serde_json::Value::Object(
            entries.iter().map(|e| (e.0.clone(), json_value(&e.1))).collect(),
        ),
    }
}

/// The pretty-printed JSON text of a value, as `serde_json::to_string_pretty`
/// writes it.
pub uninterp spec fn pretty_text(doc: JsonModel) -> Seq<char>;

/// Calls `serde_json::to_string_pretty` on the value: the text is
/// [`pretty_text`] of the value's model. serde_json's serialiser fails only
/// for a `Serialize` impl that fails or a map with keys that are not strings,
/// and a `serde_json::Value` has neither, so the call does not fail. What the
/// text is (two-space indentation, keys in the order of serde_json's `Map`,
/// escaping, number formatting) is left to serde_json and not stated here.
#[verifier::external_body]
pub fn pretty_string(doc: &Json) -> (s: String)
    ensures
        s@ == pretty_text(doc@),
{
    serde_json::to_string_pretty(&json_value(doc)).expect("a serde_json::Value serialises")
}

} // verus!
