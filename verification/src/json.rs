//! A JSON document, as built for sing-box, the mathematical value it
//! stands for, and its pretty-printed text (written by serde_json).

use vstd::prelude::*;

use crate::text::texts_of;

verus! {

/// A JSON value. Objects keep their entries in insertion order.
#[derive(Debug)]
pub enum JsonValue {
    Bool(bool),
    Number(u64),
    String(String),
    Array(Vec<JsonValue>),
    Object(Vec<(String, JsonValue)>),
}

/// The value a [`JsonValue`] stands for.
pub enum Json {
    Bool(bool),
    Number(u64),
    String(Seq<char>),
    Array(Seq<Json>),
    Object(Seq<(Seq<char>, Json)>),
}

pub open spec fn json_of(j: JsonValue) -> Json
    decreases j,
{
    match j {
        JsonValue::Bool(b) => Json::Bool(b),
        JsonValue::Number(n) => Json::Number(n),
        JsonValue::String(s) => Json::String(s@),
        JsonValue::Array(items) => Json::Array(
            Seq::new(
                items@.len(),
                |i: int|
                    if 0 <= i < items@.len() {
                        json_of(items@[i])
                    } else {
                        Json::Bool(false)
                    },
            ),
        ),
        JsonValue::Object(entries) => Json::Object(
            Seq::new(
                entries@.len(),
                |i: int|
                    if 0 <= i < entries@.len() {
                        (entries@[i].0@, json_of(entries@[i].1))
                    } else {
                        (Seq::<char>::empty(), Json::Bool(false))
                    },
            ),
        ),
    }
}

impl View for JsonValue {
    type V = Json;

    open spec fn view(&self) -> Json {
        json_of(*self)
    }
}

/// The values of array items.
pub open spec fn items_of(items: Seq<JsonValue>) -> Seq<Json> {
    Seq::new(
        items.len(),
        |i: int|
            if 0 <= i < items.len() {
                json_of(items[i])
            } else {
                Json::Bool(false)
            },
    )
}

/// The keys and values of object entries.
pub open spec fn entries_of(entries: Seq<(String, JsonValue)>) -> Seq<(Seq<char>, Json)> {
    Seq::new(
        entries.len(),
        |i: int|
            if 0 <= i < entries.len() {
                (entries[i].0@, json_of(entries[i].1))
            } else {
                (Seq::<char>::empty(), Json::Bool(false))
            },
    )
}

/// A JSON string.
pub open spec fn jstr(s: Seq<char>) -> Json {
    Json::String(s)
}

/// A JSON array of strings.
pub open spec fn jstrs(s: Seq<Seq<char>>) -> Json {
    Json::Array(json_strings(s))
}

pub open spec fn json_strings(s: Seq<Seq<char>>) -> Seq<Json> {
    s.map_values(|x: Seq<char>| Json::String(x))
}

/// The keys of object entries, in order.
pub open spec fn keys_of(entries: Seq<(Seq<char>, Json)>) -> Seq<Seq<char>> {
    entries.map_values(|e: (Seq<char>, Json)| e.0)
}

/// The value under `key` (the first entry with that key), if `j` is an
/// object that has one.
pub open spec fn field(j: Json, key: Seq<char>) -> Option<Json> {
    match j {
        Json::Object(entries) => match keys_of(entries).index_of_first(key) {
            Some(i) => Some(entries[i].1),
            None => None,
        },
        _ => None,
    }
}

/// `entries` with the value under `key` replaced by `value` (at its first
/// occurrence), or with `(key, value)` appended when there is no such entry.
pub open spec fn with_field(entries: Seq<(Seq<char>, Json)>, key: Seq<char>, value: Json) -> Seq<
    (Seq<char>, Json),
> {
    match keys_of(entries).index_of_first(key) {
        Some(i) => entries.update(i, (key, value)),
        None => entries.push((key, value)),
    }
}

impl JsonValue {
    /// An object with the given entries, in order.
    pub fn object(entries: Vec<(String, JsonValue)>) -> (j: JsonValue)
        ensures
            j@ == Json::Object(entries_of(entries@)),
    {
        let ghost e = entries@;
        let j = JsonValue::Object(entries);
        proof {
            if let Json::Object(s) = json_of(j) {
                assert(s =~= entries_of(e));
            }
        }
        j
    }

    /// An array with the given items, in order.
    pub fn array(items: Vec<JsonValue>) -> (j: JsonValue)
        ensures
            j@ == Json::Array(items_of(items@)),
    {
        let ghost e = items@;
        let j = JsonValue::Array(items);
        proof {
            if let Json::Array(s) = json_of(j) {
                assert(s =~= items_of(e));
            }
        }
        j
    }

    /// An array of the given strings, in order.
    pub fn strings(v: &[String]) -> (j: JsonValue)
        ensures
            j@ == jstrs(texts_of(v@)),
    {
        let mut items: Vec<JsonValue> = Vec::new();
        let mut i: usize = 0;
        while i < v.len()
            invariant
                i <= v.len(),
                items_of(items@) == json_strings(texts_of(v@).take(i as int)),
            decreases v.len() - i,
        {
            push_item(&mut items, JsonValue::String(v[i].clone()));
            i = i + 1;
            assert(items_of(items@) =~= json_strings(texts_of(v@).take(i as int)));
        }
        assert(texts_of(v@).take(i as int) =~= texts_of(v@));
        JsonValue::array(items)
    }

    /// A JSON string holding `s`.
    pub fn text(s: &str) -> (j: JsonValue)
        ensures
            j@ == Json::String(s@),
    {
        JsonValue::String(s.to_string())
    }
}

/// Appends an item to an array under construction.
pub fn push_item(items: &mut Vec<JsonValue>, value: JsonValue)
    ensures
        items_of(final(items)@) == items_of(old(items)@).push(json_of(value)),
{
    let ghost before = items@;
    items.push(value);
    assert(items_of(items@) =~= items_of(before).push(json_of(value)));
}

/// Appends an entry to an object under construction.
pub fn push_entry(entries: &mut Vec<(String, JsonValue)>, key: &str, value: JsonValue)
    ensures
        entries_of(final(entries)@) == entries_of(old(entries)@).push((key@, json_of(value))),
{
    let ghost before = entries@;
    entries.push((key.to_string(), value));
    assert(entries_of(entries@) =~= entries_of(before).push((key@, json_of(value))));
}

/// Sets `key` to `value` in an object under construction: the first entry
/// with that key gets the new value, or the entry is appended.
pub fn set_entry(entries: &mut Vec<(String, JsonValue)>, key: &str, value: JsonValue)
    ensures
        entries_of(final(entries)@) == with_field(entries_of(old(entries)@), key@, json_of(value)),
{
    let ghost before = entries_of(entries@);
    let ghost keys = keys_of(before);
    proof {
        keys.index_of_first_ensures(key@);
    }
    let k = key.to_string();
    let mut i: usize = 0;
    while i < entries.len()
        invariant
            i <= entries.len(),
            k@ == key@,
            before == entries_of(entries@),
            entries@ == old(entries)@,
            keys == keys_of(before),
            forall|j: int| 0 <= j < i ==> keys[j] != key@,
            match keys.index_of_first(key@) {
                Some(index) => {
                    &&& 0 <= index < keys.len()
                    &&& keys[index] == key@
                    &&& forall|j: int| 0 <= j < index < keys.len() ==> keys[j] != key@
                },
                None => !keys.contains(key@),
            },
        decreases entries.len() - i,
    {
        if entries[i].0 == k {
            assert(keys[i as int] == key@);
            assert(keys.index_of_first(key@) == Some(i as int));
            entries.set(i, (k, value));
            assert(entries_of(entries@) =~= before.update(i as int, (key@, json_of(value))));
            return ;
        }
        assert(keys[i as int] != key@);
        i = i + 1;
    }
    push_entry(entries, key, value);
}

/// The value of the first entry with key `key`, found entry by entry.
pub open spec fn lookup_entry(e: Seq<(Seq<char>, Json)>, key: Seq<char>) -> Option<Json>
    decreases e.len(),
{
    if e.len() == 0 {
        None
    } else if e[0].0 == key {
        Some(e[0].1)
    } else {
        lookup_entry(e.drop_first(), key)
    }
}

/// A field of an object is the value of its first entry with that key.
pub proof fn lemma_field_lookup(e: Seq<(Seq<char>, Json)>, key: Seq<char>)
    ensures
        field(Json::Object(e), key) == lookup_entry(e, key),
    decreases e.len(),
{
    let keys = keys_of(e);
    keys.index_of_first_ensures(key);
    if e.len() > 0 {
        let rest = e.drop_first();
        lemma_field_lookup(rest, key);
        let rkeys = keys_of(rest);
        assert(rkeys =~= keys.drop_first());
        rkeys.index_of_first_ensures(key);
        if e[0].0 == key {
            assert(keys[0] == key);
            if let Some(i) = keys.index_of_first(key) {
                assert(i == 0);
            }
        } else {
            assert(keys[0] != key);
            match keys.index_of_first(key) {
                Some(i) => {
                    assert(i > 0);
                    assert(rkeys[i - 1] == key);
                    match rkeys.index_of_first(key) {
                        Some(m) => {
                            assert(keys[m + 1] == key);
                            assert(m == i - 1);
                        },
                        None => {
                            assert(rkeys.contains(key));
                        },
                    }
                    assert(e[i] == rest[i - 1]);
                },
                None => {
                    if let Some(m) = rkeys.index_of_first(key) {
                        assert(keys[m + 1] == key);
                        assert(keys.contains(key));
                    }
                },
            }
        }
    } else {
        assert(!keys.contains(key));
    }
}

/// Setting a key makes it hold the new value and leaves every other key's
/// value as it was.
pub proof fn lemma_with_field(
    entries: Seq<(Seq<char>, Json)>,
    key: Seq<char>,
    value: Json,
    other: Seq<char>,
)
    ensures
        field(Json::Object(with_field(entries, key, value)), key) == Some(value),
        other != key ==> field(Json::Object(with_field(entries, key, value)), other) == field(
            Json::Object(entries),
            other,
        ),
{
    let keys = keys_of(entries);
    let set = with_field(entries, key, value);
    let nkeys = keys_of(set);
    keys.index_of_first_ensures(key);
    keys.index_of_first_ensures(other);
    nkeys.index_of_first_ensures(key);
    nkeys.index_of_first_ensures(other);
    match keys.index_of_first(key) {
        Some(i) => {
            assert(nkeys =~= keys);
        },
        None => {
            assert(nkeys =~= keys.push(key));
            assert(nkeys[keys.len() as int] == key);
            if let Some(j) = nkeys.index_of_first(key) {
                if j < keys.len() {
                    assert(keys[j] == key);
                }
            }
            if other != key {
                match keys.index_of_first(other) {
                    Some(j) => {
                        assert(nkeys[j] == other);
                        if let Some(m) = nkeys.index_of_first(other) {
                            if m < j {
                                assert(keys[m] == other);
                            }
                        }
                    },
                    None => {
                        if let Some(m) = nkeys.index_of_first(other) {
                            if m < keys.len() {
                                assert(keys[m] == other);
                            }
                        }
                    },
                }
            }
        },
    }
}

#[verifier::external_type_specification]
#[verifier::external_body]
pub struct ExSerdeValue(serde_json::Value);

/// The text `serde_json::to_string_pretty` writes for a JSON value (objects
/// with their keys in serde_json's map order, two-space indentation).
pub uninterp spec fn pretty_json_text(j: Json) -> Seq<char>;

/// The `serde_json::Value` holding the same document, variant for variant.
/// Nothing is claimed of it: it is only handed to `to_pretty_json`.
#[verifier::external_body]
fn serde_value(j: &JsonValue) -> serde_json::Value {
    match j {
        JsonValue::Bool(b) => serde_json::Value::Bool(*b),
        JsonValue::Number(n) => serde_json::Value::from(*n),
        JsonValue::String(s) => serde_json::Value::String(s.clone()),
        JsonValue::Array(items) => serde_json::Value::Array(items.iter().map(serde_value).collect()),
        JsonValue::Object(entries) => serde_json::Value::Object(
            entries.iter().map(|e| (e.0.clone(), serde_value(&e.1))).collect(),
        ),
    }
}

/// `serde_json::to_string_pretty` on the document: its pretty-printed JSON
/// text, named `pretty_json_text`. It succeeds: serialising a `Value` built
/// from booleans, `u64` numbers, strings, arrays and string-keyed objects
/// into memory has no failing step.
#[verifier::external_body]
fn to_pretty_json(j: &JsonValue) -> (r: Result<String, String>)
    ensures
        r is Ok,
        r matches Ok(t) ==> t@ == pretty_json_text(j@),
{
    match serde_json::to_string_pretty(&serde_value(j)) {
        Ok(t) => Ok(t),
        Err(e) => Err(e.to_string()),
    }
}

impl JsonValue {
    /// The document as pretty-printed JSON text.
    pub fn to_pretty_string(&self) -> (s: String)
        ensures
            s@ == pretty_json_text(self@),
    {
        match to_pretty_json(self) {
            Ok(t) => t,
            Err(e) => {
                proof {
                    assert(false);
                }
                e
            },
        }
    }
}

} // verus!
