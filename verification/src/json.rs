//! JSON values, read and written by `serde_json`.
//!
//! A `serde_json::Value` is opaque to the verifier; [`json_model`] names the JSON data it
//! holds, and every call into `serde_json` that the library makes goes through one of
//! the small trusted functions below, whose contracts say what the call does to or
//! gives of that data.
use vstd::prelude::*;
use serde_json::Value;

verus! {

#[verifier::external_type_specification]
#[verifier::external_body]
pub struct ExValue(serde_json::Value);

#[verifier::external_type_specification]
#[verifier::external_body]
#[verifier::reject_recursive_types(K)]
#[verifier::reject_recursive_types(V)]
pub struct ExJsonMap<K, V>(serde_json::Map<K, V>);

#[verifier::external_type_specification]
#[verifier::external_body]
pub struct ExJsonError(serde_json::Error);

/// The kind of a JSON value.
#[derive(Clone, Copy, Debug, PartialEq, Eq, Structural)]
pub enum JsonKind {
    Null,
    Bool,
    Number,
    String,
    Array,
    Object,
}

/// JSON data.  A number is held as the text that `serde_json` shows for it; an object
/// as its entries in the order in which its map walks them.
pub enum JsonData {
    Null,
    Bool(bool),
    Number(Seq<char>),
    Str(Seq<char>),
    Array(Seq<JsonData>),
    Object(Seq<(Seq<char>, JsonData)>),
}

/// The word by which messages name a kind of JSON value.
pub open spec fn kind_word(k: JsonKind) -> Seq<char> {
    match k {
        JsonKind::Null => "null"@,
        JsonKind::Bool => "bool"@,
        JsonKind::Number => "number"@,
        JsonKind::String => "string"@,
        JsonKind::Array => "array"@,
        JsonKind::Object => "object"@,
    }
}

impl JsonKind {
    /// The word by which messages name this kind.
    pub fn as_str(&self) -> (res: &'static str)
        ensures
            res@ == kind_word(*self),
    {
        match self {
            JsonKind::Null => "null",
            JsonKind::Bool => "bool",
            JsonKind::Number => "number",
            JsonKind::String => "string",
            JsonKind::Array => "array",
            JsonKind::Object => "object",
        }
    }
}

pub open spec fn kind_of(d: JsonData) -> JsonKind {
    match d {
        JsonData::Null => JsonKind::Null,
        JsonData::Bool(_) => JsonKind::Bool,
        JsonData::Number(_) => JsonKind::Number,
        JsonData::Str(_) => JsonKind::String,
        JsonData::Array(_) => JsonKind::Array,
        JsonData::Object(_) => JsonKind::Object,
    }
}

/// The JSON data that a `serde_json::Value` holds.
pub uninterp spec fn json_model(v: serde_json::Value) -> JsonData;

/// The entries of a `serde_json::Map`, in the order in which it walks them.
pub uninterp spec fn map_model(m: serde_json::Map<String, serde_json::Value>) -> Seq<(Seq<char>, JsonData)>;

/// What `serde_json::from_str` reads from a text: `None` where it fails.
pub uninterp spec fn parsed_json(text: Seq<char>) -> Option<JsonData>;

/// What `serde_json::to_string` writes for JSON data.
pub uninterp spec fn compact_json(d: JsonData) -> Seq<char>;

/// What `serde_json::to_string_pretty` writes for JSON data.
pub uninterp spec fn pretty_json(d: JsonData) -> Seq<char>;

pub open spec fn models(vs: Seq<Value>) -> Seq<JsonData> {
    vs.map_values(|v: Value| json_model(v))
}

pub open spec fn array_items(d: JsonData) -> Seq<JsonData> {
    match d {
        JsonData::Array(items) => items,
        _ => seq![],
    }
}

pub open spec fn object_entries(d: JsonData) -> Seq<(Seq<char>, JsonData)> {
    match d {
        JsonData::Object(es) => es,
        _ => seq![],
    }
}

/// Whether an entry list has an entry with key `k`.
pub open spec fn has_key(es: Seq<(Seq<char>, JsonData)>, k: Seq<char>) -> bool {
    exists|i: int| 0 <= i < es.len() && (#[trigger] es[i]).0 == k
}

/// The value of the first entry with key `k`.
pub open spec fn value_at(es: Seq<(Seq<char>, JsonData)>, k: Seq<char>) -> JsonData
    decreases es.len(),
{
    if es.len() == 0 {
        JsonData::Null
    } else if es[0].0 == k {
        es[0].1
    } else {
        value_at(es.skip(1), k)
    }
}

/// Whether `a` comes before `b` in the order of strings: by characters, and a proper
/// prefix before what it begins.  (UTF-8 keeps the order of code points, so this is
/// the byte order in which `String` compares.)
pub open spec fn key_lt(a: Seq<char>, b: Seq<char>) -> bool
    decreases a.len(),
{
    if b.len() == 0 {
        false
    } else if a.len() == 0 {
        true
    } else if a[0] != b[0] {
        (a[0] as u32) < (b[0] as u32)
    } else {
        key_lt(a.skip(1), b.skip(1))
    }
}

/// Whether the keys of an entry list strictly increase.
pub open spec fn keys_sorted(es: Seq<(Seq<char>, JsonData)>) -> bool {
    forall|i: int, j: int| 0 <= i < j < es.len() ==> key_lt(#[trigger] es[i].0, #[trigger] es[j].0)
}

/// The entries after inserting `k` with value `v` into a sorted entry list: the value of
/// an equal key is replaced, else the entry goes where its key belongs.
pub open spec fn sorted_insert(es: Seq<(Seq<char>, JsonData)>, k: Seq<char>, v: JsonData) -> Seq<(Seq<char>, JsonData)>
    decreases es.len(),
{
    if es.len() == 0 {
        seq![(k, v)]
    } else if es[0].0 == k {
        seq![(k, v)] + es.skip(1)
    } else if key_lt(k, es[0].0) {
        seq![(k, v)] + es
    } else {
        seq![es[0]] + sorted_insert(es.skip(1), k, v)
    }
}

pub proof fn lemma_key_lt_irreflexive(a: Seq<char>)
    ensures
        !key_lt(a, a),
    decreases a.len(),
{
    if a.len() > 0 {
        lemma_key_lt_irreflexive(a.skip(1));
    }
}

pub proof fn lemma_key_lt_transitive(a: Seq<char>, b: Seq<char>, c: Seq<char>)
    requires
        key_lt(a, b),
        key_lt(b, c),
    ensures
        key_lt(a, c),
    decreases a.len(),
{
    if a.len() > 0 && a[0] == b[0] && b[0] == c[0] {
        lemma_key_lt_transitive(a.skip(1), b.skip(1), c.skip(1));
    }
}

pub proof fn lemma_key_lt_total(a: Seq<char>, b: Seq<char>)
    requires
        a != b,
    ensures
        key_lt(a, b) || key_lt(b, a),
    decreases a.len(),
{
    if a.len() == 0 {
        assert(b.len() > 0) by {
            if b.len() == 0 {
                assert(a =~= b);
            }
        }
    } else if b.len() == 0 {
    } else if a[0] == b[0] {
        assert(a.skip(1) != b.skip(1)) by {
            if a.skip(1) == b.skip(1) {
                assert(a =~= seq![a[0]] + a.skip(1));
                assert(b =~= seq![b[0]] + b.skip(1));
            }
        }
        lemma_key_lt_total(a.skip(1), b.skip(1));
    } else {
        vstd::utf8::char_u32_cast(a[0], a[0] as u32);
        vstd::utf8::char_u32_cast(b[0], b[0] as u32);
        assert((a[0] as u32) != (b[0] as u32));
    }
}

/// Inserting into a sorted entry list keeps it sorted, and keeps every bound below
/// both the new key and the old keys.
pub proof fn lemma_sorted_insert(es: Seq<(Seq<char>, JsonData)>, k: Seq<char>, v: JsonData)
    requires
        keys_sorted(es),
    ensures
        keys_sorted(sorted_insert(es, k, v)),
        forall|x: Seq<char>|
            key_lt(x, k) && (forall|i: int| 0 <= i < es.len() ==> key_lt(x, #[trigger] es[i].0)) ==> forall|j: int|
                0 <= j < sorted_insert(es, k, v).len() ==> key_lt(x, #[trigger] sorted_insert(es, k, v)[j].0),
    decreases es.len(),
{
    let r = sorted_insert(es, k, v);
    if es.len() == 0 {
    } else if es[0].0 == k {
        assert forall|i: int, j: int| 0 <= i < j < r.len() implies key_lt(#[trigger] r[i].0, #[trigger] r[j].0) by {
            if i == 0 {
                assert(r[j] == es[j]);
            } else {
                assert(r[i] == es[i] && r[j] == es[j]);
            }
        }
        assert forall|x: Seq<char>|
            key_lt(x, k) && (forall|i: int| 0 <= i < es.len() ==> key_lt(x, #[trigger] es[i].0)) implies forall|j: int|
                0 <= j < r.len() ==> key_lt(x, #[trigger] r[j].0) by {
            assert forall|j: int| 0 <= j < r.len() implies key_lt(x, #[trigger] r[j].0) by {
                if j > 0 {
                    assert(r[j] == es[j]);
                }
            }
        }
    } else if key_lt(k, es[0].0) {
        assert forall|i: int, j: int| 0 <= i < j < r.len() implies key_lt(#[trigger] r[i].0, #[trigger] r[j].0) by {
            if i == 0 {
                assert(r[j] == es[j - 1]);
                if j > 1 {
                    lemma_key_lt_transitive(k, es[0].0, es[j - 1].0);
                }
            } else {
                assert(r[i] == es[i - 1] && r[j] == es[j - 1]);
            }
        }
        assert forall|x: Seq<char>|
            key_lt(x, k) && (forall|i: int| 0 <= i < es.len() ==> key_lt(x, #[trigger] es[i].0)) implies forall|j: int|
                0 <= j < r.len() ==> key_lt(x, #[trigger] r[j].0) by {
            assert forall|j: int| 0 <= j < r.len() implies key_lt(x, #[trigger] r[j].0) by {
                if j > 0 {
                    assert(r[j] == es[j - 1]);
                }
            }
        }
    } else {
        let rest = es.skip(1);
        assert(keys_sorted(rest)) by {
            assert forall|i: int, j: int| 0 <= i < j < rest.len() implies key_lt(#[trigger] rest[i].0, #[trigger] rest[j].0) by {
                assert(rest[i] == es[i + 1] && rest[j] == es[j + 1]);
            }
        }
        lemma_sorted_insert(rest, k, v);
        let r2 = sorted_insert(rest, k, v);
        assert(r =~= seq![es[0]] + r2);
        lemma_key_lt_total(k, es[0].0);
        let x0 = es[0].0;
        assert(key_lt(x0, k));
        assert(forall|i: int| 0 <= i < rest.len() ==> key_lt(x0, #[trigger] rest[i].0)) by {
            assert forall|i: int| 0 <= i < rest.len() implies key_lt(x0, #[trigger] rest[i].0) by {
                assert(rest[i] == es[i + 1]);
            }
        }
        assert forall|i: int, j: int| 0 <= i < j < r.len() implies key_lt(#[trigger] r[i].0, #[trigger] r[j].0) by {
            if i == 0 {
                assert(r[j] == r2[j - 1]);
            } else {
                assert(r[i] == r2[i - 1] && r[j] == r2[j - 1]);
            }
        }
        assert forall|x: Seq<char>|
            key_lt(x, k) && (forall|i: int| 0 <= i < es.len() ==> key_lt(x, #[trigger] es[i].0)) implies forall|j: int|
                0 <= j < r.len() ==> key_lt(x, #[trigger] r[j].0) by {
            assert(forall|i: int| 0 <= i < rest.len() ==> key_lt(x, #[trigger] rest[i].0)) by {
                assert forall|i: int| 0 <= i < rest.len() implies key_lt(x, #[trigger] rest[i].0) by {
                    assert(rest[i] == es[i + 1]);
                }
            }
            assert forall|j: int| 0 <= j < r.len() implies key_lt(x, #[trigger] r[j].0) by {
                if j > 0 {
                    assert(r[j] == r2[j - 1]);
                }
            }
        }
    }
}

/// `serde_json::from_str` into a `Value`.
#[verifier::external_body]
pub(crate) fn json_from_str(s: &str) -> (res: Result<Value, serde_json::Error>)
    ensures
        res is Ok <==> parsed_json(s@) is Some,
        res matches Ok(v) ==> parsed_json(s@) == Some(json_model(v)),
{
    serde_json::from_str::<Value>(s)
}

/// `serde_json::to_string` of a `Value`.  Serialization fails only where a `Serialize`
/// impl fails or a map has keys that are not strings; a `Value` has neither, so it
/// succeeds.
#[verifier::external_body]
pub(crate) fn json_to_string(v: &Value) -> (res: Result<String, serde_json::Error>)
    ensures
        res is Ok,
        res matches Ok(s) ==> s@ == compact_json(json_model(*v)),
{
    serde_json::to_string(v)
}

/// `serde_json::to_string_pretty` of a `Value`; as [`json_to_string`], it succeeds.
#[verifier::external_body]
pub(crate) fn json_to_string_pretty(v: &Value) -> (res: Result<String, serde_json::Error>)
    ensures
        res is Ok,
        res matches Ok(s) ==> s@ == pretty_json(json_model(*v)),
{
    serde_json::to_string_pretty(v)
}

/// The variant of a `Value`.
#[verifier::external_body]
pub(crate) fn json_kind(v: &Value) -> (res: JsonKind)
    ensures
        res == kind_of(json_model(*v)),
{
    match v {
        Value::Null => JsonKind::Null,
        Value::Bool(_) => JsonKind::Bool,
        Value::Number(_) => JsonKind::Number,
        Value::String(_) => JsonKind::String,
        Value::Array(_) => JsonKind::Array,
        Value::Object(_) => JsonKind::Object,
    }
}

/// `Value::as_bool` of a boolean.
#[verifier::external_body]
pub(crate) fn json_bool(v: &Value) -> (res: bool)
    requires
        json_model(*v) is Bool,
    ensures
        json_model(*v) == JsonData::Bool(res),
{
    v.as_bool().unwrap()
}

/// `Value::as_number` of a number, shown through its `Display`, which writes an integer
/// with `itoa` and a (finite) float with `zmij`: digits, signs, a point and an exponent
/// mark are all the characters it uses.
#[verifier::external_body]
pub(crate) fn json_number_text(v: &Value) -> (res: String)
    requires
        json_model(*v) is Number,
    ensures
        json_model(*v) == JsonData::Number(res@),
        forall|i: int| 0 <= i < res@.len() ==> crate::highlight::is_num_char(#[trigger] res@[i]),
{
    v.as_number().unwrap().to_string()
}

/// `Value::as_str` of a string.
#[verifier::external_body]
pub(crate) fn json_str(v: &Value) -> (res: &str)
    requires
        json_model(*v) is Str,
    ensures
        json_model(*v) == JsonData::Str(res@),
{
    v.as_str().unwrap()
}

/// `Value::as_array` of an array.
#[verifier::external_body]
pub(crate) fn json_items(v: &Value) -> (res: &Vec<Value>)
    requires
        json_model(*v) is Array,
    ensures
        json_model(*v) == JsonData::Array(models(res@)),
{
    v.as_array().unwrap()
}

/// `Value::as_object` of an object, walked with `Map::iter`.
#[verifier::external_body]
pub(crate) fn json_entries(v: &Value) -> (res: Vec<(&String, &Value)>)
    requires
        json_model(*v) is Object,
    ensures
        res@.len() == object_entries(json_model(*v)).len(),
        forall|i: int|
            0 <= i < res@.len() ==> (#[trigger] res@[i]).0@ == object_entries(json_model(*v))[i].0
                && json_model(*res@[i].1) == object_entries(json_model(*v))[i].1,
{
    v.as_object().unwrap().iter().collect()
}

/// `Map::get` on the map of an object.
#[verifier::external_body]
pub(crate) fn json_get<'a>(v: &'a Value, key: &str) -> (res: Option<&'a Value>)
    requires
        json_model(*v) is Object,
    ensures
        res is Some <==> has_key(object_entries(json_model(*v)), key@),
        res matches Some(r) ==> json_model(*r) == value_at(object_entries(json_model(*v)), key@),
{
    v.as_object().unwrap().get(key)
}

/// `Value::clone`.
#[verifier::external_body]
pub(crate) fn json_clone(v: &Value) -> (res: Value)
    ensures
        json_model(res) == json_model(*v),
{
    v.clone()
}

/// `Value::Array` of a vector of values.
#[verifier::external_body]
pub(crate) fn json_array(items: Vec<Value>) -> (res: Value)
    ensures
        json_model(res) == JsonData::Array(models(items@)),
{
    Value::Array(items)
}

/// `Value::String` of a string.
#[verifier::external_body]
pub(crate) fn json_string(s: String) -> (res: Value)
    ensures
        json_model(res) == JsonData::Str(s@),
{
    Value::String(s)
}

/// `Map::new`.
#[verifier::external_body]
pub(crate) fn json_map_new() -> (res: serde_json::Map<String, Value>)
    ensures
        map_model(res) == Seq::<(Seq<char>, JsonData)>::empty(),
{
    serde_json::Map::new()
}

/// `Map::insert`: the map walks its keys in order, so on a map whose keys are sorted the
/// entry goes where its key belongs, replacing the value of an equal key.
#[verifier::external_body]
pub(crate) fn json_map_insert(m: &mut serde_json::Map<String, Value>, k: String, v: Value)
    ensures
        keys_sorted(map_model(*old(m))) ==> map_model(*final(m)) == sorted_insert(
            map_model(*old(m)),
            k@,
            json_model(v),
        ),
{
    m.insert(k, v);
}

/// `Value::Object` of a map.
#[verifier::external_body]
pub(crate) fn json_object(m: serde_json::Map<String, Value>) -> (res: Value)
    ensures
        json_model(res) == JsonData::Object(map_model(m)),
{
    Value::Object(m)
}

} // verus!
