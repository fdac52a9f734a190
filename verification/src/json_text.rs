//! Reading JSON and JSON5 text into Nix values, through `serde_json` and
//! `json5`.
use vstd::prelude::*;
use crate::json_model::{
    Json, JsonTree, JsonNumber, json_list_view, json_entries_view, lemma_json_list_view,
    lemma_json_entries_view, json_to_nix, json_to_nix_tree, json_valid, json_valid_pred,
    json_all, json_small_pred, lemma_json_list_all, lemma_json_entries_all, float_is_finite,
    nix_to_json_tree, lemma_json_nix_round_trip,
};
use crate::keys::key_lt;
use crate::value::NixValue;

verus! {

#[verifier::external_type_specification]
#[verifier::external_body]
pub struct ExSerdeJsonValue(serde_json::Value);

#[verifier::external_type_specification]
#[verifier::external_body]
pub struct ExSerdeJsonNumber(serde_json::Number);

#[verifier::external_type_specification]
#[verifier::external_body]
pub struct ExSerdeJsonError(serde_json::Error);

#[verifier::external_type_specification]
#[verifier::external_body]
pub struct ExJson5Error(json5::Error);

/// The JSON document that a `serde_json::Value` holds.
pub uninterp spec fn serde_json_tree(v: serde_json::Value) -> JsonTree;

/// The number that a `serde_json::Number` holds.
pub uninterp spec fn serde_json_number(n: serde_json::Number) -> JsonNumber;

/// What `serde_json::from_str` makes of a text: `None` where it fails.
pub uninterp spec fn serde_json_parse(text: Seq<char>) -> Option<JsonTree>;

/// What `json5::from_str` makes of a text, read as a `serde_json::Value`:
/// `None` where it fails.
pub uninterp spec fn json5_parse(text: Seq<char>) -> Option<JsonTree>;

/// The top level of a `serde_json::Value`, its parts left as they are.
pub enum SerdeJsonNode<'a> {
    Null,
    Bool(bool),
    Number(&'a serde_json::Number),
    Str(&'a String),
    Array(&'a Vec<serde_json::Value>),
    Object(Vec<(&'a String, &'a serde_json::Value)>),
}

/// `n` is the top level of the document `t`.
pub open spec fn node_agrees<'a>(n: SerdeJsonNode<'a>, t: JsonTree) -> bool {
    match n {
        SerdeJsonNode::Null => t == JsonTree::Null,
        SerdeJsonNode::Bool(b) => t == JsonTree::Bool(b),
        SerdeJsonNode::Number(x) => t == JsonTree::Number(serde_json_number(*x)),
        SerdeJsonNode::Str(s) => t == JsonTree::Str(s@),
        SerdeJsonNode::Array(a) => {
            &&& t is Array
            &&& t->Array_0.len() == a@.len()
            &&& forall|i: int|
                0 <= i < a@.len() ==> #[trigger] t->Array_0[i] == serde_json_tree(a@[i])
        },
        SerdeJsonNode::Object(es) => {
            &&& t is Object
            &&& t->Object_0.len() == es@.len()
            &&& forall|i: int|
                0 <= i < es@.len() ==> #[trigger] t->Object_0[i] == (
                    es@[i].0@,
                    serde_json_tree(*es@[i].1),
                )
        },
    }
}

/// Tells the variants of a `serde_json::Value` apart; an object's entries
/// come in the order of its map, which (a `BTreeMap` of `String`s, as
/// `serde_json` builds it without its `preserve_order` feature, which this
/// crate does not turn on) holds each name once and goes through them in
/// `String` order, the order of `key_lt`.
#[verifier::external_body]
fn serde_json_node<'a>(v: &'a serde_json::Value) -> (r: SerdeJsonNode<'a>)
    ensures
        node_agrees(r, serde_json_tree(*v)),
        r matches SerdeJsonNode::Object(es) ==> forall|i: int, j: int|
            0 <= i < j < es@.len() ==> key_lt((#[trigger] es@[i]).0@, (#[trigger] es@[j]).0@),
{
    match v {
        serde_json::Value::Null => SerdeJsonNode::Null,
        serde_json::Value::Bool(b) => SerdeJsonNode::Bool(*b),
        serde_json::Value::Number(n) => SerdeJsonNode::Number(n),
        serde_json::Value::String(s) => SerdeJsonNode::Str(s),
        serde_json::Value::Array(a) => SerdeJsonNode::Array(a),
        serde_json::Value::Object(m) => SerdeJsonNode::Object(m.iter().collect()),
    }
}

/// Tells a `serde_json::Number` apart by `as_i64`, `as_u64` and `as_f64`:
/// an integer that fits `i64`, a larger integer (with the bit pattern of
/// `as_f64`), or a float (by the bit pattern of `as_f64`). A number holds a
/// float only when it is finite (`Number::from_f64` and the parser refuse
/// the others).
#[verifier::external_body]
fn serde_json_number_parts(n: &serde_json::Number) -> (r: JsonNumber)
    ensures
        r == serde_json_number(*n),
        r matches JsonNumber::Float(f) ==> float_is_finite(f),
        r matches JsonNumber::Big(u, _) ==> u > i64::MAX,
{
    let bits = n.as_f64().map_or(0, |x| x.to_bits());
    match (n.as_i64(), n.as_u64()) {
        (Some(i), _) => JsonNumber::Int(i),
        (None, Some(u)) => JsonNumber::Big(u, bits),
        (None, None) => JsonNumber::Float(bits),
    }
}

/// Calls `serde_json::from_str`, reading the text as a `serde_json::Value`.
#[verifier::external_body]
fn serde_json_from_str(text: &str) -> (r: Result<serde_json::Value, serde_json::Error>)
    ensures
        r is Ok <==> serde_json_parse(text@) is Some,
        r matches Ok(v) ==> serde_json_parse(text@) == Some(serde_json_tree(v)),
{
    serde_json::from_str(text)
}

/// Calls `json5::from_str`, reading the text as a `serde_json::Value`.
#[verifier::external_body]
fn json5_from_str(text: &str) -> (r: Result<serde_json::Value, json5::Error>)
    ensures
        r is Ok <==> json5_parse(text@) is Some,
        r matches Ok(v) ==> json5_parse(text@) == Some(serde_json_tree(v)),
{
    json5::from_str(text)
}

/// The document that `v` holds, as a `Json`.
pub fn json_from_serde(v: &serde_json::Value) -> (r: Json)
    ensures
        r@ == serde_json_tree(*v),
        json_valid(r@),
    decreases serde_json_tree(*v),
{
    let ghost t = serde_json_tree(*v);
    match serde_json_node(v) {
        SerdeJsonNode::Null => Json::Null,
        SerdeJsonNode::Bool(b) => Json::Bool(b),
        SerdeJsonNode::Number(n) => Json::Number(serde_json_number_parts(n)),
        SerdeJsonNode::Str(s) => Json::String(s.clone()),
        SerdeJsonNode::Array(a) => {
            let mut out: Vec<Json> = Vec::new();
            let mut i: usize = 0;
            while i < a.len()
                invariant
                    t == serde_json_tree(*v),
                    t is Array,
                    t->Array_0.len() == a@.len(),
                    forall|k: int|
                        0 <= k < a@.len() ==> #[trigger] t->Array_0[k] == serde_json_tree(a@[k]),
                    i <= a@.len(),
                    out@.len() == i,
                    forall|k: int| 0 <= k < i ==> #[trigger] out@[k]@ == t->Array_0[k],
                    forall|k: int| 0 <= k < i ==> json_valid(#[trigger] out@[k]@),
                decreases a@.len() - i,
            {
                proof {
                    assert(decreases_to!(t => t->Array_0));
                    assert(decreases_to!(t->Array_0 => t->Array_0[i as int]));
                }
                let x = json_from_serde(&a[i]);
                out.push(x);
                i = i + 1;
            }
            proof {
                lemma_json_list_view(out@);
                assert forall|k: int| 0 <= k < out@.len() implies #[trigger] json_list_view(out@)[k]
                    == t->Array_0[k] by {
                    assert(out@[k]@ == t->Array_0[k]);
                }
                assert(json_list_view(out@) =~= t->Array_0);
                lemma_json_list_all(t->Array_0, json_valid_pred());
                assert forall|k: int| 0 <= k < out@.len() implies json_all(#[trigger] t->Array_0[k], json_valid_pred()) by {
                    assert(json_valid(out@[k]@));
                }
            }
            Json::Array(out)
        },
        SerdeJsonNode::Object(es) => {
            let mut out: Vec<(String, Json)> = Vec::new();
            let mut i: usize = 0;
            while i < es.len()
                invariant
                    t == serde_json_tree(*v),
                    t is Object,
                    t->Object_0.len() == es@.len(),
                    forall|k: int|
                        0 <= k < es@.len() ==> #[trigger] t->Object_0[k] == (
                            es@[k].0@,
                            serde_json_tree(*es@[k].1),
                        ),
                    i <= es@.len(),
                    out@.len() == i,
                    forall|k: int|
                        0 <= k < i ==> (#[trigger] out@[k]).0@ == t->Object_0[k].0 && out@[k].1@
                            == t->Object_0[k].1,
                    forall|k: int| 0 <= k < i ==> json_valid((#[trigger] out@[k]).1@),
                decreases es@.len() - i,
            {
                proof {
                    assert(decreases_to!(t => t->Object_0));
                    assert(decreases_to!(t->Object_0 => t->Object_0[i as int]));
                    assert(decreases_to!(t->Object_0[i as int] => t->Object_0[i as int].1));
                }
                let x = json_from_serde(es[i].1);
                let key = es[i].0.clone();
                out.push((key, x));
                i = i + 1;
            }
            proof {
                lemma_json_entries_view(out@);
                assert forall|k: int| 0 <= k < out@.len() implies #[trigger] json_entries_view(out@)[k]
                    == t->Object_0[k] by {
                    assert(out@[k].0@ == t->Object_0[k].0);
                }
                assert(json_entries_view(out@) =~= t->Object_0);
                lemma_json_entries_all(t->Object_0, json_valid_pred());
                assert forall|k: int| 0 <= k < out@.len() implies json_all(#[trigger] t->Object_0[k].1, json_valid_pred()) by {
                    assert(json_valid(out@[k].1@));
                }
                assert forall|k: int, m: int| 0 <= k < m < t->Object_0.len() implies key_lt(
                    #[trigger] t->Object_0[k].0,
                    #[trigger] t->Object_0[m].0,
                ) by {
                    assert(key_lt(es@[k].0@, es@[m].0@));
                }
            }
            Json::Object(out)
        },
    }
}

/// Why a text could not be read into a Nix value.
#[derive(Clone, Copy, Debug, PartialEq, Eq, Structural)]
pub enum TextInputError {
    /// The argument is not a string.
    NotAString,
    /// The text is not valid in the format.
    Syntax,
}

/// Reads the JSON text `arg` into a Nix value.
#[allow(non_snake_case)]
pub fn fromJSON(arg: NixValue) -> (r: NixValue)
    requires
        arg is String,
        serde_json_parse(arg->String_0@) is Some,
    ensures
        r@ == json_to_nix_tree(serde_json_parse(arg->String_0@)->Some_0),
        r.wf(),
        json_valid(serde_json_parse(arg->String_0@)->Some_0),
        json_all(serde_json_parse(arg->String_0@)->Some_0, json_small_pred()) ==> nix_to_json_tree(r@)
            == serde_json_parse(arg->String_0@)->Some_0,
{
    match arg {
        NixValue::String(s) => match serde_json_from_str(s.as_str()) {
            Ok(v) => {
                let j = json_from_serde(&v);
                proof {
                    if json_all(j@, json_small_pred()) {
                        lemma_json_nix_round_trip(j@);
                    }
                }
                json_to_nix(&j)
            },
            Err(_) => NixValue::Null,
        },
        _ => NixValue::Null,
    }
}

/// Reads the JSON5 text `arg` into a Nix value.
#[allow(non_snake_case)]
pub fn fromJSON5(arg: NixValue) -> (r: NixValue)
    requires
        arg is String,
        json5_parse(arg->String_0@) is Some,
    ensures
        r@ == json_to_nix_tree(json5_parse(arg->String_0@)->Some_0),
        r.wf(),
        json_valid(json5_parse(arg->String_0@)->Some_0),
        json_all(json5_parse(arg->String_0@)->Some_0, json_small_pred()) ==> nix_to_json_tree(r@)
            == json5_parse(arg->String_0@)->Some_0,
{
    match arg {
        NixValue::String(s) => match json5_from_str(s.as_str()) {
            Ok(v) => {
                let j = json_from_serde(&v);
                proof {
                    if json_all(j@, json_small_pred()) {
                        lemma_json_nix_round_trip(j@);
                    }
                }
                json_to_nix(&j)
            },
            Err(_) => NixValue::Null,
        },
        _ => NixValue::Null,
    }
}

/// `fromJSON`, answering with an error where `fromJSON` does not apply: the
/// argument is not a string, or not JSON.
pub fn try_from_json(arg: NixValue) -> (r: Result<NixValue, TextInputError>)
    ensures
        !(arg is String) ==> r == Err::<NixValue, TextInputError>(TextInputError::NotAString),
        arg is String && serde_json_parse(arg->String_0@) is None ==> r == Err::<
            NixValue,
            TextInputError,
        >(TextInputError::Syntax),
        arg is String && serde_json_parse(arg->String_0@) is Some ==> r is Ok && r->Ok_0@
            == json_to_nix_tree(serde_json_parse(arg->String_0@)->Some_0) && r->Ok_0.wf(),
{
    let parses = match &arg {
        NixValue::String(s) => serde_json_from_str(s.as_str()).is_ok(),
        _ => {
            return Err(TextInputError::NotAString);
        },
    };
    if parses {
        Ok(fromJSON(arg))
    } else {
        Err(TextInputError::Syntax)
    }
}

/// `fromJSON5`, answering with an error where `fromJSON5` does not apply: the
/// argument is not a string, or not JSON5.
pub fn try_from_json5(arg: NixValue) -> (r: Result<NixValue, TextInputError>)
    ensures
        !(arg is String) ==> r == Err::<NixValue, TextInputError>(TextInputError::NotAString),
        arg is String && json5_parse(arg->String_0@) is None ==> r == Err::<
            NixValue,
            TextInputError,
        >(TextInputError::Syntax),
        arg is String && json5_parse(arg->String_0@) is Some ==> r is Ok && r->Ok_0@
            == json_to_nix_tree(json5_parse(arg->String_0@)->Some_0) && r->Ok_0.wf(),
{
    let parses = match &arg {
        NixValue::String(s) => json5_from_str(s.as_str()).is_ok(),
        _ => {
            return Err(TextInputError::NotAString);
        },
    };
    if parses {
        Ok(fromJSON5(arg))
    } else {
        Err(TextInputError::Syntax)
    }
}

} // verus!
