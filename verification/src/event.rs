//! Hook payloads, as the session tracker reads them.
//!
//! A payload is a JSON object written by a hook. The tracker reads only a few
//! of its fields, so a payload is held here as those fields and nothing else.
//! A payload the hook cut short mid-string is not valid JSON any more; the
//! fields the tracker needs all come before the long ones, so `salvage`
//! recovers them by scanning the text.

use vstd::prelude::*;
use vstd::utf8::*;

use crate::json::{
    has_leaf_key, json_object, json_object_of, lemma_leaf_member_found, leaf_member, leaf_member_of, member, member_of, text_of, JsonLeaf,
    JsonObject, JsonValue,
};
use crate::text::{chars_of, lossy_chars, lossy_text, string_from_chars};

verus! {

/// The `success` member of an object-shaped tool response.
#[derive(Debug, Clone, Copy, PartialEq, Eq)]
pub enum SuccessField {
    /// No `success` member.
    Absent,
    /// A boolean `success` member.
    Flag(bool),
    /// A `success` member that is not a boolean.
    NotBool,
}

/// The `tool_response` member of a payload.
#[derive(Debug, Clone, PartialEq, Eq)]
pub enum ToolResponse {
    Absent,
    Object { success: SuccessField, has_error: bool },
    Text(String),
    /// Any other JSON value.
    Other,
}

/// What the tracker reads of one hook payload. A string member that is absent
/// or not a string reads as empty.
#[derive(Debug, Clone, PartialEq, Eq)]
pub struct HookEvent {
    pub session_id: String,
    pub hook_event_name: String,
    pub tool_name: String,
    pub tool_response: ToolResponse,
}

/// `c` matches `lower` or `upper`.
pub open spec fn either(c: char, lower: char, upper: char) -> bool {
    c == lower || c == upper
}

/// The text begins with "error" in any letter case.
///
/// Lower-casing maps only `E`, `R` and `O` (and themselves) onto `e`, `r` and
/// `o` one character for one, so this is exactly "lower-cases to something
/// that starts with `error`".
pub open spec fn starts_with_error(t: Seq<char>) -> bool {
    &&& t.len() >= 5
    &&& either(t[0], 'e', 'E')
    &&& either(t[1], 'r', 'R')
    &&& either(t[2], 'r', 'R')
    &&& either(t[3], 'o', 'O')
    &&& either(t[4], 'r', 'R')
}

/// A tool response reports failure: an object whose `success` is `false`
/// (a non-boolean `success` counts as `true`), an object without `success`
/// that has an `error` member, or text that starts with "error".
pub open spec fn indicates_error(r: ToolResponse) -> bool {
    match r {
        ToolResponse::Object { success, has_error } => match success {
            SuccessField::Flag(b) => !b,
            SuccessField::NotBool => false,
            SuccessField::Absent => has_error,
        },
        ToolResponse::Text(t) => starts_with_error(t@),
        _ => false,
    }
}

pub fn response_indicates_error(response: &ToolResponse) -> (r: bool)
    ensures
        r == indicates_error(*response),
{
    match response {
        ToolResponse::Object { success, has_error } => match success {
            SuccessField::Flag(b) => !*b,
            SuccessField::NotBool => false,
            SuccessField::Absent => *has_error,
        },
        ToolResponse::Text(text) => {
            let t = chars_of(text.as_str());
            t.len() >= 5 && (t[0] == 'e' || t[0] == 'E') && (t[1] == 'r' || t[1] == 'R') && (t[2]
                == 'r' || t[2] == 'R') && (t[3] == 'o' || t[3] == 'O') && (t[4] == 'r' || t[4]
                == 'R')
        },
        _ => false,
    }
}

/// Unicode `White_Space`, the set that `str::trim_start` removes.
pub open spec fn is_white_space(c: char) -> bool {
    let u = c as u32;
    (9 <= u <= 13) || u == 32 || u == 0x85 || u == 0xA0 || u == 0x1680 || (0x2000 <= u <= 0x200A)
        || u == 0x2028 || u == 0x2029 || u == 0x202F || u == 0x205F || u == 0x3000
}

fn white_space(c: char) -> (r: bool)
    ensures
        r == is_white_space(c),
{
    let u = c as u32;
    (9 <= u && u <= 13) || u == 32 || u == 0x85 || u == 0xA0 || u == 0x1680 || (0x2000 <= u && u
        <= 0x200A) || u == 0x2028 || u == 0x2029 || u == 0x202F || u == 0x205F || u == 0x3000
}

/// The first position at or after `i` that is not white space.
pub open spec fn skip_ws(t: Seq<char>, i: int) -> int
    decreases t.len() - i,
{
    if 0 <= i < t.len() && is_white_space(t[i]) {
        skip_ws(t, i + 1)
    } else {
        i
    }
}

/// `n` occurs in `t` starting at `i`.
pub open spec fn occurs_at(t: Seq<char>, n: Seq<char>, i: int) -> bool {
    0 <= i && i + n.len() <= t.len() && t.subrange(i, i + n.len()) == n
}

/// The first position at or after `from` where `n` occurs, or -1.
pub open spec fn first_occurrence(t: Seq<char>, n: Seq<char>, from: int) -> int
    decreases t.len() + 1 - from,
{
    if from < 0 || from + n.len() > t.len() {
        -1
    } else if occurs_at(t, n, from) {
        from
    } else {
        first_occurrence(t, n, from + 1)
    }
}

/// The first position at or after `from` holding `c`, or -1.
pub open spec fn first_char(t: Seq<char>, c: char, from: int) -> int
    decreases t.len() - from,
{
    if from < 0 || from >= t.len() {
        -1
    } else if t[from] == c {
        from
    } else {
        first_char(t, c, from + 1)
    }
}

/// What follows a key at `after`: white space, a colon, white space, then a
/// quoted string with no quote inside it.
pub open spec fn value_after(t: Seq<char>, after: int) -> Option<Seq<char>> {
    let j = skip_ws(t, after);
    if 0 <= j < t.len() && t[j] == ':' {
        let k = skip_ws(t, j + 1);
        if 0 <= k < t.len() && t[k] == '"' {
            let e = first_char(t, '"', k + 1);
            if e >= 0 {
                Some(t.subrange(k + 1, e))
            } else {
                None
            }
        } else {
            None
        }
    } else {
        None
    }
}

pub proof fn lemma_first_occurrence_bounds(t: Seq<char>, n: Seq<char>, from: int)
    ensures
        first_occurrence(t, n, from) == -1 || (from <= first_occurrence(t, n, from) && occurs_at(
            t,
            n,
            first_occurrence(t, n, from),
        )),
    decreases t.len() + 1 - from,
{
    if from < 0 || from + n.len() > t.len() {
    } else if occurs_at(t, n, from) {
    } else {
        lemma_first_occurrence_bounds(t, n, from + 1);
    }
}

pub proof fn lemma_first_char_bounds(t: Seq<char>, c: char, from: int)
    ensures
        first_char(t, c, from) == -1 || (from <= first_char(t, c, from) < t.len() && t[first_char(
            t,
            c,
            from,
        )] == c),
    decreases t.len() - from,
{
    if from < 0 || from >= t.len() {
    } else if t[from] == c {
    } else {
        lemma_first_char_bounds(t, c, from + 1);
    }
}

/// Scan for the quoted key `n` from `from` on, and return the value after
/// the leftmost occurrence that is followed by one: the leftmost place where
/// the whole pattern `"key"\s*:\s*"([^"]*)"` matches. An occurrence that is
/// not followed by a value is passed over one position at a time, so a match
/// that starts inside it is still found.
pub open spec fn scan_from(t: Seq<char>, n: Seq<char>, from: int) -> Option<Seq<char>>
    decreases t.len() - from,
{
    if n.len() == 0 || from < 0 {
        None
    } else {
        let i = first_occurrence(t, n, from);
        if i < 0 {
            None
        } else {
            match value_after(t, i + n.len()) {
                Some(v) => Some(v),
                None => {
                    proof {
                        lemma_first_occurrence_bounds(t, n, from);
                    }
                    scan_from(t, n, i + 1)
                },
            }
        }
    }
}

/// The value of `"key" : "value"` in `t`, first match winning.
pub open spec fn scan_spec(t: Seq<char>, key: Seq<char>) -> Option<Seq<char>> {
    scan_from(t, seq!['"'] + key + seq!['"'], 0)
}

/// What `salvage` recovers from text: a non-empty session id, a non-empty
/// event name, and the tool name (empty if there is none).
pub open spec fn salvage_spec(t: Seq<char>) -> Option<(Seq<char>, Seq<char>, Seq<char>)> {
    match (scan_spec(t, "session_id"@), scan_spec(t, "hook_event_name"@)) {
        (Some(id), Some(name)) => if id.len() == 0 || name.len() == 0 {
            None
        } else {
            Some(
                (
                    id,
                    name,
                    match scan_spec(t, "tool_name"@) {
                        Some(tool) => tool,
                        None => Seq::empty(),
                    },
                ),
            )
        },
        _ => None,
    }
}

fn skip_white_space(t: &Vec<char>, start: usize) -> (r: usize)
    requires
        start <= t@.len(),
    ensures
        r == skip_ws(t@, start as int),
        start <= r <= t@.len(),
{
    let mut i = start;
    while i < t.len() && white_space(t[i])
        invariant
            start <= i <= t@.len(),
            skip_ws(t@, start as int) == skip_ws(t@, i as int),
        decreases t@.len() - i,
    {
        i += 1;
    }
    i
}

fn occurs(t: &Vec<char>, n: &Vec<char>, i: usize) -> (r: bool)
    requires
        i + n@.len() <= t@.len(),
    ensures
        r == occurs_at(t@, n@, i as int),
{
    let tl = t.len();
    let mut k: usize = 0;
    while k < n.len()
        invariant
            k <= n@.len(),
            tl == t@.len(),
            i + n@.len() <= t@.len(),
            forall|m: int| 0 <= m < k ==> t@[i + m] == n@[m],
        decreases n@.len() - k,
    {
        if t[i + k] != n[k] {
            assert(t@.subrange(i as int, i + n@.len())[k as int] != n@[k as int]);
            return false;
        }
        k += 1;
    }
    assert(t@.subrange(i as int, i + n@.len()) =~= n@);
    true
}

fn find_from(t: &Vec<char>, n: &Vec<char>, from: usize) -> (r: Option<usize>)
    requires
        from <= t@.len(),
        n@.len() >= 1,
    ensures
        match r {
            Some(i) => i == first_occurrence(t@, n@, from as int),
            None => first_occurrence(t@, n@, from as int) == -1,
        },
{
    let mut i = from;
    while i <= t.len() && n.len() <= t.len() - i
        invariant
            from <= i,
            n@.len() >= 1,
            first_occurrence(t@, n@, from as int) == first_occurrence(t@, n@, i as int),
        decreases t@.len() + 1 - i,
    {
        if occurs(t, n, i) {
            return Some(i);
        }
        i += 1;
    }
    None
}

fn find_char(t: &Vec<char>, c: char, from: usize) -> (r: Option<usize>)
    requires
        from <= t@.len(),
    ensures
        match r {
            Some(i) => i == first_char(t@, c, from as int) && from <= i < t@.len(),
            None => first_char(t@, c, from as int) == -1,
        },
{
    proof {
        lemma_first_char_bounds(t@, c, from as int);
    }
    let mut i = from;
    while i < t.len()
        invariant
            from <= i <= t@.len(),
            first_char(t@, c, from as int) == first_char(t@, c, i as int),
        decreases t@.len() - i,
    {
        if t[i] == c {
            return Some(i);
        }
        i += 1;
    }
    None
}

fn sub_chars(t: &Vec<char>, start: usize, end: usize) -> (r: Vec<char>)
    requires
        start <= end <= t@.len(),
    ensures
        r@ == t@.subrange(start as int, end as int),
{
    let mut r: Vec<char> = Vec::new();
    let mut i = start;
    while i < end
        invariant
            start <= i <= end <= t@.len(),
            r@ == t@.subrange(start as int, i as int),
        decreases end - i,
    {
        r.push(t[i]);
        i += 1;
    }
    r
}

fn value_at(t: &Vec<char>, after: usize) -> (r: Option<Vec<char>>)
    requires
        after <= t@.len(),
    ensures
        match r {
            Some(v) => value_after(t@, after as int) == Some(v@),
            None => value_after(t@, after as int) is None,
        },
{
    let j = skip_white_space(t, after);
    if j < t.len() && t[j] == ':' {
        let k = skip_white_space(t, j + 1);
        if k < t.len() && t[k] == '"' {
            match find_char(t, '"', k + 1) {
                Some(e) => Some(sub_chars(t, k + 1, e)),
                None => None,
            }
        } else {
            None
        }
    } else {
        None
    }
}

/// Find `"key" : "value"` in `text` and return the value: the capture of
/// the leftmost match of the pattern `"key"\s*:\s*"([^"]*)"`.
///
/// First match wins on purpose: these keys appear near the head of the
/// payload, so an occurrence of the same text inside a later member cannot
/// shadow the real one. Like the pattern `"key"\s*:\s*"([^"]*)"`, it does not
/// handle an escaped quote inside the value.
pub fn scan_field(text: &Vec<char>, key: &str) -> (r: Option<String>)
    ensures
        match r {
            Some(v) => scan_spec(text@, key@) == Some(v@),
            None => scan_spec(text@, key@) is None,
        },
{
    let mut needle: Vec<char> = Vec::new();
    needle.push('"');
    let k = chars_of(key);
    let mut i: usize = 0;
    while i < k.len()
        invariant
            i <= k@.len(),
            needle@ == seq!['"'] + k@.subrange(0, i as int),
        decreases k@.len() - i,
    {
        needle.push(k[i]);
        i += 1;
    }
    needle.push('"');
    assert(needle@ =~= seq!['"'] + key@ + seq!['"']);
    let ghost n = needle@;
    let mut from: usize = 0;
    while from <= text.len()
        invariant
            n == needle@,
            n == seq!['"'] + key@ + seq!['"'],
            n.len() >= 2,
            from <= text@.len(),
            scan_from(text@, n, 0) == scan_from(text@, n, from as int),
        decreases text@.len() - from,
    {
        match find_from(text, &needle, from) {
            None => {
                assert(scan_from(text@, n, from as int) is None);
                return None;
            },
            Some(at) => {
                proof {
                    lemma_first_occurrence_bounds(text@, n, from as int);
                }
                let after = at + needle.len();
                match value_at(text, after) {
                    Some(v) => {
                        assert(scan_from(text@, n, from as int) == Some(v@));
                        return Some(string_from_chars(v.as_slice()));
                    },
                    None => {
                        from = at + 1;
                    },
                }
            },
        }
    }
    None
}

/// Recover the fields the tracker needs from a payload the hook truncated.
/// Returns `None` if `raw` does not yield a usable event.
///
/// A truncated payload carries no tool response: that member comes after
/// the long ones, so it is the one most likely to have been cut.
pub fn salvage(raw: &[u8]) -> (r: Option<HookEvent>)
    ensures
        match r {
            Some(e) => salvage_spec(lossy_chars(raw@)) == Some(
                (e.session_id@, e.hook_event_name@, e.tool_name@),
            ) && e.tool_response == ToolResponse::Absent,
            None => salvage_spec(lossy_chars(raw@)) is None,
        },
        valid_utf8(raw@) ==> match r {
            Some(e) => salvage_spec(decode_utf8(raw@)) == Some(
                (e.session_id@, e.hook_event_name@, e.tool_name@),
            ),
            None => salvage_spec(decode_utf8(raw@)) is None,
        },
{
    let text = lossy_text(raw);
    let id = match scan_field(&text, "session_id") {
        Some(v) => v,
        None => {
            return None;
        },
    };
    let event = match scan_field(&text, "hook_event_name") {
        Some(v) => v,
        None => {
            return None;
        },
    };
    if id.as_str().is_empty() || event.as_str().is_empty() {
        return None;
    }
    let tool = match scan_field(&text, "tool_name") {
        Some(v) => v,
        None => String::new(),
    };
    Some(
        HookEvent {
            session_id: id,
            hook_event_name: event,
            tool_name: tool,
            tool_response: ToolResponse::Absent,
        },
    )
}

/// The `success` member of a tool response object.
pub open spec fn success_of(ms: Seq<(String, JsonLeaf)>) -> SuccessField {
    match leaf_member_of(ms, "success"@) {
        None => SuccessField::Absent,
        Some(JsonLeaf::Bool(b)) => SuccessField::Flag(b),
        Some(_) => SuccessField::NotBool,
    }
}

/// What the tracker reads of a payload's `tool_response` member.
pub open spec fn response_of(v: Option<JsonValue>) -> ToolResponse {
    match v {
        None => ToolResponse::Absent,
        Some(JsonValue::Object(ms)) => ToolResponse::Object {
            success: success_of(ms@),
            has_error: leaf_member_of(ms@, "error"@) is Some,
        },
        Some(JsonValue::Leaf(JsonLeaf::Text(t))) => ToolResponse::Text(t),
        Some(JsonValue::Leaf(_)) => ToolResponse::Other,
    }
}

/// `e` is what the tracker reads of the payload object `o`: each string
/// member as its text (empty when absent or not a string), and the tool
/// response as `response_of` classifies it.
pub open spec fn event_matches(e: HookEvent, o: JsonObject) -> bool {
    &&& e.session_id@ == text_of(member_of(o.members@, "session_id"@))
    &&& e.hook_event_name@ == text_of(member_of(o.members@, "hook_event_name"@))
    &&& e.tool_name@ == text_of(member_of(o.members@, "tool_name"@))
    &&& e.tool_response == response_of(member_of(o.members@, "tool_response"@))
}

fn text_member(o: &JsonObject, key: &str) -> (r: String)
    ensures
        r@ == text_of(member_of(o.members@, key@)),
{
    match member(o, key) {
        Some(JsonValue::Leaf(JsonLeaf::Text(t))) => t.clone(),
        _ => String::new(),
    }
}

/// What the tracker reads of a parsed payload object.
pub fn event_of_object(o: &JsonObject) -> (e: HookEvent)
    ensures
        event_matches(e, *o),
{
    let tool_response = match member(o, "tool_response") {
        None => ToolResponse::Absent,
        Some(JsonValue::Object(ms)) => {
            let success = match leaf_member(ms, "success") {
                None => SuccessField::Absent,
                Some(JsonLeaf::Bool(b)) => SuccessField::Flag(*b),
                Some(_) => SuccessField::NotBool,
            };
            let has_error = leaf_member(ms, "error").is_some();
            ToolResponse::Object { success, has_error }
        },
        Some(JsonValue::Leaf(JsonLeaf::Text(t))) => ToolResponse::Text(t.clone()),
        Some(JsonValue::Leaf(_)) => ToolResponse::Other,
    };
    HookEvent {
        session_id: text_member(o, "session_id"),
        hook_event_name: text_member(o, "hook_event_name"),
        tool_name: text_member(o, "tool_name"),
        tool_response,
    }
}

/// A payload that parses as a JSON object, read as an event; `None` when
/// it does not parse as one.
pub fn event_from_json(raw: &[u8]) -> (r: Option<HookEvent>)
    ensures
        match json_object_of(raw@) {
            Some(o) => r matches Some(e) && event_matches(e, o),
            None => r is None,
        },
{
    match json_object(raw) {
        Some(o) => Some(event_of_object(&o)),
        None => None,
    }
}

/// An inbox file read as an event: as JSON when it parses as an object,
/// otherwise what `salvage` recovers of it (most likely the hook capped an
/// oversized payload mid-string).
pub fn event_from_bytes(raw: &[u8]) -> (r: Option<HookEvent>)
    ensures
        match json_object_of(raw@) {
            Some(o) => r matches Some(e) && event_matches(e, o),
            None => match r {
                Some(e) => salvage_spec(lossy_chars(raw@)) == Some(
                    (e.session_id@, e.hook_event_name@, e.tool_name@),
                ) && e.tool_response == ToolResponse::Absent,
                None => salvage_spec(lossy_chars(raw@)) is None,
            },
        },
{
    match json_object(raw) {
        Some(o) => Some(event_of_object(&o)),
        None => salvage(raw),
    }
}

/// A tool response object reports failure by its members alone: without a
/// `success` member it has an error exactly when it has an `error` member,
/// whatever that member holds; a boolean `success` decides by itself, and
/// a `success` that is not a boolean never reports failure.
pub proof fn law_error_member_marks_failure(ms: Vec<(String, JsonLeaf)>)
    ensures
        ({
            let r = response_of(Some(JsonValue::Object(ms)));
            &&& r matches ToolResponse::Object { has_error, .. } && has_error == has_leaf_key(
                ms@,
                "error"@,
            )
            &&& !has_leaf_key(ms@, "success"@) ==> (indicates_error(r) <==> has_leaf_key(
                ms@,
                "error"@,
            ))
            &&& leaf_member_of(ms@, "success"@) matches Some(JsonLeaf::Bool(b)) ==> (indicates_error(r)
                <==> !b)
            &&& (leaf_member_of(ms@, "success"@) is Some && !(leaf_member_of(ms@, "success"@) matches Some(
                JsonLeaf::Bool(_),
            ))) ==> !indicates_error(r)
        }),
{
    lemma_leaf_member_found(ms@, "error"@);
    lemma_leaf_member_found(ms@, "success"@);
}

} // verus!
