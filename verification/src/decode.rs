//! Trusted boundary to the JSON parser and the UTF-8 decoder.
//!
//! Raw batch bodies arrive as bytes.  The wrappers here hand single
//! documents to `serde_json` and read the opaque values back piece by
//! piece.  What a parsed value holds is named: `parse_of` is the reading
//! the parser gives a byte string - a function of the bytes alone - and
//! `json_model` the reading of a parsed value; each accessor's contract
//! ties what it returns to that reading.  `decode_value` then rebuilds
//! each document as the library's own [`JsonValue`], proved to read
//! exactly as the model, on which everything downstream is verified.

use vstd::prelude::*;

use crate::json::{JsonValue, SpecJson};

verus! {

/// `serde_json`'s parsed JSON value, opaque to the library; only the
/// wrappers below look inside.
#[verifier::external_type_specification]
#[verifier::external_body]
pub struct ExValue(serde_json::Value);

/// The reading of a parsed JSON value: which variant it is and what it
/// holds, numbers by their text rendering, object members in the value's
/// own member order.
pub uninterp spec fn json_model(v: serde_json::Value) -> SpecJson;

/// What parsing a byte string yields: a reading exactly when the bytes are
/// one well-formed JSON document.  The parser's result depends on the
/// bytes alone.
pub uninterp spec fn parse_of(b: Seq<u8>) -> Option<SpecJson>;

/// Relies on String::from_utf8: it succeeds exactly on valid UTF-8 and
/// yields its decoding.
#[verifier::external_body]
pub fn utf8_to_string(b: &Vec<u8>) -> (r: Option<String>)
    ensures
        r is Some <==> vstd::utf8::valid_utf8(b@),
        r matches Some(s) ==> s@ == vstd::utf8::decode_utf8(b@),
{
    String::from_utf8(b.clone()).ok()
}

/// Relies on serde_json::from_slice: one JSON document parsed from raw
/// bytes, or nothing when the bytes are not a single well-formed document;
/// deterministic in the bytes.
#[verifier::external_body]
pub fn json_parse_slice(b: &[u8]) -> (r: Option<serde_json::Value>)
    ensures
        r is Some <==> parse_of(b@) is Some,
        r matches Some(v) ==> json_model(v) == parse_of(b@)->Some_0,
{
    serde_json::from_slice::<serde_json::Value>(b).ok()
}

/// Relies on serde_json::Value::is_null: true exactly for the null value.
#[verifier::external_body]
pub fn json_is_null(v: &serde_json::Value) -> (r: bool)
    ensures
        r == (json_model(*v) is Null),
{
    v.is_null()
}

/// Relies on serde_json::Value::as_bool: the boolean exactly when the
/// value is one.
#[verifier::external_body]
pub fn json_as_bool(v: &serde_json::Value) -> (r: Option<bool>)
    ensures
        r is Some <==> json_model(*v) is Bool,
        r matches Some(b) ==> json_model(*v) == SpecJson::Bool(b),
{
    v.as_bool()
}

/// Relies on serde_json::Value::as_str: the string exactly when the value
/// is one; the copy-out converts.
#[verifier::external_body]
pub fn json_as_str(v: &serde_json::Value) -> (r: Option<String>)
    ensures
        r is Some <==> json_model(*v) is Str,
        r matches Some(s) ==> json_model(*v) == SpecJson::Str(s@),
{
    v.as_str().map(|s| s.to_owned())
}

/// Relies on serde_json::Value::as_number and the number's text rendering:
/// the numeric source text exactly when the value is a number.
#[verifier::external_body]
pub fn json_num_text(v: &serde_json::Value) -> (r: Option<String>)
    ensures
        r is Some <==> json_model(*v) is Num,
        r matches Some(t) ==> json_model(*v) == SpecJson::Num(t@),
{
    v.as_number().map(|n| n.to_string())
}

/// Relies on serde_json::Value::as_array: the elements exactly when the
/// value is an array, each reading as the model's element.
#[verifier::external_body]
pub fn json_as_array(v: &serde_json::Value) -> (r: Option<&Vec<serde_json::Value>>)
    ensures
        r is Some <==> json_model(*v) is Arr,
        r matches Some(a) ==> a@.len() == json_model(*v)->Arr_0.len() && forall|i: int|
            0 <= i < a@.len() ==> json_model(#[trigger] a@[i]) == json_model(*v)->Arr_0[i],
{
    v.as_array()
}

/// Relies on serde_json::Value::as_object: the members exactly when the
/// value is an object, in the value's own member order, keys and values
/// copied out.
#[verifier::external_body]
pub fn json_obj_entries(v: &serde_json::Value) -> (r: Option<Vec<(String, serde_json::Value)>>)
    ensures
        r is Some <==> json_model(*v) is Obj,
        r matches Some(m) ==> m@.len() == json_model(*v)->Obj_0.len() && forall|i: int|
            0 <= i < m@.len() ==> (#[trigger] m@[i]).0@ == json_model(*v)->Obj_0[i].0
                && json_model(m@[i].1) == json_model(*v)->Obj_0[i].1,
{
    v.as_object().map(|m| m.iter().map(|(k, x)| (k.clone(), x.clone())).collect())
}

/// How deep a reading nests: one for a leaf, one more per array or object
/// level.
pub open spec fn spec_json_depth(m: SpecJson) -> nat
    decreases m,
{
    match m {
        SpecJson::Arr(s) => 1 + seq_depth(s, s.len() as int),
        SpecJson::Obj(s) => 1 + obj_depth(s, s.len() as int),
        _ => 1,
    }
}

/// The deepest reading among the first `n` elements.
pub open spec fn seq_depth(s: Seq<SpecJson>, n: int) -> nat
    decreases s, n,
{
    if n <= 0 || n > s.len() {
        0
    } else {
        let d = spec_json_depth(s[n - 1]);
        let rest = seq_depth(s, n - 1);
        if d > rest {
            d
        } else {
            rest
        }
    }
}

/// The deepest reading among the first `n` member values.
pub open spec fn obj_depth(s: Seq<(Seq<char>, SpecJson)>, n: int) -> nat
    decreases s, n,
{
    if n <= 0 || n > s.len() {
        0
    } else {
        let d = spec_json_depth(s[n - 1].1);
        let rest = obj_depth(s, n - 1);
        if d > rest {
            d
        } else {
            rest
        }
    }
}

proof fn lemma_seq_depth(s: Seq<SpecJson>, n: int)
    requires
        0 <= n <= s.len(),
    ensures
        forall|i: int| 0 <= i < n ==> spec_json_depth(#[trigger] s[i]) <= seq_depth(s, n),
    decreases n,
{
    if n > 0 {
        lemma_seq_depth(s, n - 1);
    }
}

proof fn lemma_obj_depth(s: Seq<(Seq<char>, SpecJson)>, n: int)
    requires
        0 <= n <= s.len(),
    ensures
        forall|i: int| 0 <= i < n ==> spec_json_depth((#[trigger] s[i]).1) <= obj_depth(s, n),
    decreases n,
{
    if n > 0 {
        lemma_obj_depth(s, n - 1);
    }
}

/// How deep a document may nest before decoding gives it up; a protocol
/// guard, far beyond what graph documents hold.
pub const MAX_JSON_DEPTH: u32 = 64;

/// Rebuild a parsed value as the library's own JSON model, outermost
/// first.  The result reads exactly as the value's model; only a value
/// nested deeper than the budget yields nothing.
#[verifier::loop_isolation(false)]
pub fn decode_value(v: &serde_json::Value, depth: u32) -> (r: Option<JsonValue>)
    ensures
        r matches Some(jv) ==> jv.deep_view() == json_model(*v),
        spec_json_depth(json_model(*v)) <= depth ==> r is Some,
    decreases depth,
{
    if depth == 0 {
        return None;
    }
    if json_is_null(v) {
        return Some(JsonValue::Null);
    }
    match json_as_bool(v) {
        Some(b) => {
            return Some(JsonValue::Bool(b));
        },
        None => {},
    }
    match json_num_text(v) {
        Some(t) => {
            return Some(JsonValue::Num(t));
        },
        None => {},
    }
    match json_as_str(v) {
        Some(s) => {
            return Some(JsonValue::Str(s));
        },
        None => {},
    }
    match json_as_array(v) {
        Some(elts) => {
            let ghost melts = json_model(*v)->Arr_0;
            let mut out: Vec<JsonValue> = Vec::new();
            let n = elts.len();
            let mut i: usize = 0;
            while i < n
                invariant
                    depth >= 1,
                    n == elts@.len(),
                    i <= n,
                    out@.len() == i,
                    forall|j: int| 0 <= j < i ==> (#[trigger] out@[j]).deep_view() == melts[j],
                decreases n - i,
            {
                match decode_value(&elts[i], depth - 1) {
                    Some(d) => {
                        out.push(d);
                    },
                    None => {
                        proof {
                            if spec_json_depth(json_model(*v)) <= depth {
                                lemma_seq_depth(melts, melts.len() as int);
                                assert(spec_json_depth(melts[i as int]) <= depth - 1);
                            }
                        }
                        return None;
                    },
                }
                i += 1;
            }
            proof {
                crate::json::lemma_arr_view(out);
                assert(crate::json::arr_view(out) =~= melts);
            }
            return Some(JsonValue::Arr(out));
        },
        None => {},
    }
    match json_obj_entries(v) {
        Some(members) => {
            let ghost mmems = json_model(*v)->Obj_0;
            let mut out: Vec<(String, JsonValue)> = Vec::new();
            let n = members.len();
            let mut i: usize = 0;
            while i < n
                invariant
                    depth >= 1,
                    n == members@.len(),
                    i <= n,
                    out@.len() == i,
                    forall|j: int|
                        0 <= j < i ==> (#[trigger] out@[j]).0@ == mmems[j].0
                            && out@[j].1.deep_view() == mmems[j].1,
                decreases n - i,
            {
                match decode_value(&members[i].1, depth - 1) {
                    Some(d) => {
                        let k = members[i].0.clone();
                        out.push((k, d));
                    },
                    None => {
                        proof {
                            if spec_json_depth(json_model(*v)) <= depth {
                                lemma_obj_depth(mmems, mmems.len() as int);
                                assert(spec_json_depth(mmems[i as int].1) <= depth - 1);
                            }
                        }
                        return None;
                    },
                }
                i += 1;
            }
            proof {
                crate::json::lemma_obj_view(out);
                assert(crate::json::obj_view(out) =~= mmems);
            }
            return Some(JsonValue::Obj(out));
        },
        None => {},
    }
    proof {
        match json_model(*v) {
            SpecJson::Null => {
                assert(false);
            },
            SpecJson::Bool(b) => {
                assert(false);
            },
            SpecJson::Num(t) => {
                assert(false);
            },
            SpecJson::Str(s) => {
                assert(false);
            },
            SpecJson::Arr(s) => {
                assert(false);
            },
            SpecJson::Obj(s) => {
                assert(false);
            },
        }
    }
    None
}

/// Parse one document from raw bytes into the library's JSON model: the
/// result reads exactly as the parser's reading of the bytes, owed
/// whenever the bytes are one document within the depth budget.
pub fn parse_document(b: &[u8]) -> (r: Option<JsonValue>)
    ensures
        r matches Some(jv) ==> parse_of(b@) is Some && jv.deep_view() == parse_of(b@)->Some_0,
        parse_of(b@) matches Some(m) && spec_json_depth(m) <= MAX_JSON_DEPTH ==> r is Some,
        r is None ==> parse_of(b@) is None || spec_json_depth(parse_of(b@)->Some_0)
            > MAX_JSON_DEPTH,
{
    match json_parse_slice(b) {
        Some(v) => decode_value(&v, MAX_JSON_DEPTH),
        None => None,
    }
}

} // verus!
