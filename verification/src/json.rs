//! A JSON object as the library reads it: the members of a hook payload or
//! a config file, each member's value reduced to what the logic looks at.
//!
//! Parsing itself is serde_json's; `json_object` only converts its result
//! into these plain values.

use vstd::prelude::*;

use serde_json::Value;

verus! {

/// A value one level inside a member: a boolean, a number truncated to
/// `i32` (saturating, as a float-to-int cast does), a string, or anything
/// else (null, an array, an object).
#[derive(Debug, Clone, PartialEq, Eq)]
pub enum JsonLeaf {
    Bool(bool),
    Number(i32),
    Text(String),
    Other,
}

/// The value of a member of the top-level object: a nested object, with
/// its own members reduced to leaves, or a leaf.
#[derive(Debug, Clone, PartialEq, Eq)]
pub enum JsonValue {
    Leaf(JsonLeaf),
    Object(Vec<(String, JsonLeaf)>),
}

/// A parsed top-level JSON object: its members, each key once.
#[derive(Debug, Clone, PartialEq, Eq)]
pub struct JsonObject {
    pub members: Vec<(String, JsonValue)>,
}

/// What serde_json makes of `raw` when it is a JSON object, reduced to
/// plain values; `None` when `raw` is not valid JSON or not an object.
pub uninterp spec fn json_object_of(raw: Seq<u8>) -> Option<JsonObject>;

/// `serde_json::from_slice::<Value>`, its object converted member by member
/// into `JsonObject`. The contract names the result only; the parse is
/// serde_json's.
#[verifier::external_body]
pub(crate) fn json_object(raw: &[u8]) -> (r: Option<JsonObject>)
    ensures
        r == json_object_of(raw@),
{
    let leaf = |v: &Value| match v {
        Value::Bool(b) => JsonLeaf::Bool(*b),
        Value::Number(n) => JsonLeaf::Number(n.as_f64().unwrap_or_default() as i32),
        Value::String(s) => JsonLeaf::Text(s.clone()),
        _ => JsonLeaf::Other,
    };
    let Ok(Value::Object(m)) = serde_json::from_slice(raw) else { return None };
    Some(JsonObject { members: m.iter().map(|(k, v)| (k.clone(), match v {
        Value::Object(o) => JsonValue::Object(o.iter().map(|(k, v)| (k.clone(), leaf(v))).collect()),
        _ => JsonValue::Leaf(leaf(v)),
    })).collect() })
}

/// The bytes serde_json writes for the object in `raw` (or for an empty
/// object, when `raw` holds none) after each entry is set as a member, in
/// order: pretty-printed, with a trailing newline.
pub uninterp spec fn config_with_members(raw: Seq<u8>, entries: Seq<(Seq<char>, JsonLeaf)>) -> Seq<u8>;

/// The entries as the contract of `json_set_members` sees them: each key
/// by its characters.
pub open spec fn entries_view(entries: Seq<(String, JsonLeaf)>) -> Seq<(Seq<char>, JsonLeaf)> {
    entries.map_values(|e: (String, JsonLeaf)| (e.0@, e.1))
}

/// `serde_json::from_slice::<Value>` of `raw` (its object, or an empty map
/// when it is none), each entry put in with `Map::insert`, then
/// `serde_json::to_string_pretty` and a newline. The contract names the
/// result only; parsing and printing are serde_json's.
#[verifier::external_body]
pub(crate) fn json_set_members(raw: &[u8], entries: &Vec<(String, JsonLeaf)>) -> (r: Vec<u8>)
    ensures
        r@ == config_with_members(raw@, entries_view(entries@)),
{
    let mut obj = match serde_json::from_slice(raw) {
        Ok(Value::Object(m)) => m,
        _ => serde_json::Map::new(),
    };
    for (k, v) in entries {
        let v = match v {
            JsonLeaf::Bool(b) => Value::Bool(*b),
            JsonLeaf::Number(n) => Value::from(*n),
            JsonLeaf::Text(s) => Value::String(s.clone()),
            JsonLeaf::Other => Value::Null,
        };
        obj.insert(k.clone(), v);
    }
    let text = serde_json::to_string_pretty(&Value::Object(obj)).unwrap_or_default();
    (text + "\n").into_bytes()
}

/// The value of the first member named `key`.
pub open spec fn member_of(ms: Seq<(String, JsonValue)>, key: Seq<char>) -> Option<JsonValue>
    decreases ms.len(),
{
    if ms.len() == 0 {
        None
    } else if ms[0].0@ == key {
        Some(ms[0].1)
    } else {
        member_of(ms.drop_first(), key)
    }
}

/// The value of the first member named `key` of a nested object.
pub open spec fn leaf_member_of(ms: Seq<(String, JsonLeaf)>, key: Seq<char>) -> Option<JsonLeaf>
    decreases ms.len(),
{
    if ms.len() == 0 {
        None
    } else if ms[0].0@ == key {
        Some(ms[0].1)
    } else {
        leaf_member_of(ms.drop_first(), key)
    }
}

/// Some member of a nested object is named `key`.
pub open spec fn has_leaf_key(ms: Seq<(String, JsonLeaf)>, key: Seq<char>) -> bool {
    exists|i: int| 0 <= i < ms.len() && (#[trigger] ms[i]).0@ == key
}

/// A nested object has a member named `key` exactly when looking it up
/// finds one, whatever its value.
pub proof fn lemma_leaf_member_found(ms: Seq<(String, JsonLeaf)>, key: Seq<char>)
    ensures
        leaf_member_of(ms, key) is Some <==> has_leaf_key(ms, key),
    decreases ms.len(),
{
    if ms.len() > 0 {
        let rest = ms.drop_first();
        lemma_leaf_member_found(rest, key);
        if has_leaf_key(ms, key) && ms[0].0@ != key {
            let i = choose|i: int| 0 <= i < ms.len() && (#[trigger] ms[i]).0@ == key;
            assert(rest[i - 1] == ms[i]);
        }
        if has_leaf_key(rest, key) {
            let j = choose|j: int| 0 <= j < rest.len() && (#[trigger] rest[j]).0@ == key;
            assert(ms[j + 1] == rest[j]);
        }
    }
}

/// A member that is a string, as text; anything else reads as empty.
pub open spec fn text_of(v: Option<JsonValue>) -> Seq<char> {
    match v {
        Some(JsonValue::Leaf(JsonLeaf::Text(s))) => s@,
        _ => Seq::empty(),
    }
}

/// A member that is a number, truncated; anything else is `None`.
pub open spec fn int_of(v: Option<JsonValue>) -> Option<i32> {
    match v {
        Some(JsonValue::Leaf(JsonLeaf::Number(n))) => Some(n),
        _ => None,
    }
}

/// A member that is a string; anything else is `None`.
pub open spec fn str_of(v: Option<JsonValue>) -> Option<String> {
    match v {
        Some(JsonValue::Leaf(JsonLeaf::Text(s))) => Some(s),
        _ => None,
    }
}

/// A member that is a boolean; anything else is `None`.
pub open spec fn bool_of(v: Option<JsonValue>) -> Option<bool> {
    match v {
        Some(JsonValue::Leaf(JsonLeaf::Bool(b))) => Some(b),
        _ => None,
    }
}

/// The value of the first member of `o` named `key`.
pub fn member<'a>(o: &'a JsonObject, key: &str) -> (r: Option<&'a JsonValue>)
    ensures
        match r {
            Some(v) => member_of(o.members@, key@) == Some(*v),
            None => member_of(o.members@, key@) is None,
        },
{
    let ghost ms = o.members@;
    assert(ms.skip(0) =~= ms);
    let mut i: usize = 0;
    while i < o.members.len()
        invariant
            ms == o.members@,
            i <= ms.len(),
            member_of(ms, key@) == member_of(ms.skip(i as int), key@),
        decreases ms.len() - i,
    {
        proof {
            assert(ms.skip(i as int)[0] == ms[i as int]);
            assert(ms.skip(i as int).drop_first() =~= ms.skip(i + 1));
        }
        if crate::text::str_eq(o.members[i].0.as_str(), key) {
            return Some(&o.members[i].1);
        }
        i += 1;
    }
    proof {
        assert(ms.skip(i as int).len() == 0);
    }
    None
}

/// The value of the first member named `key` of a nested object.
pub fn leaf_member<'a>(ms: &'a Vec<(String, JsonLeaf)>, key: &str) -> (r: Option<&'a JsonLeaf>)
    ensures
        match r {
            Some(v) => leaf_member_of(ms@, key@) == Some(*v),
            None => leaf_member_of(ms@, key@) is None,
        },
{
    let ghost s = ms@;
    assert(s.skip(0) =~= s);
    let mut i: usize = 0;
    while i < ms.len()
        invariant
            s == ms@,
            i <= s.len(),
            leaf_member_of(s, key@) == leaf_member_of(s.skip(i as int), key@),
        decreases s.len() - i,
    {
        proof {
            assert(s.skip(i as int)[0] == s[i as int]);
            assert(s.skip(i as int).drop_first() =~= s.skip(i + 1));
        }
        if crate::text::str_eq(ms[i].0.as_str(), key) {
            return Some(&ms[i].1);
        }
        i += 1;
    }
    proof {
        assert(s.skip(i as int).len() == 0);
    }
    None
}

} // verus!
