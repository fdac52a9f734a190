//! Reading TOML text into Nix values, through `toml`.
use vstd::prelude::*;
use crate::toml_model::{
    Toml, TomlTree, toml_list_view, toml_entries_view, lemma_toml_list_view,
    lemma_toml_entries_view, toml_to_nix, toml_to_nix_tree, toml_valid, toml_valid_pred, toml_all,
    toml_plain_pred, lemma_toml_list_all, lemma_toml_entries_all, nix_to_toml_tree,
    lemma_toml_nix_round_trip,
};
use crate::keys::key_lt;
use crate::value::NixV;
use crate::value::NixValue;
use crate::json_text::TextInputError;

verus! {

#[verifier::external_type_specification]
#[verifier::external_body]
pub struct ExTomlValue(toml::Value);

#[verifier::external_type_specification]
#[verifier::external_body]
pub struct ExTomlDeError(toml::de::Error);

/// The TOML value that a `toml::Value` holds; a date-time is held as its
/// `Display` text.
pub uninterp spec fn toml_tree(v: toml::Value) -> TomlTree;

/// What `toml::from_str` makes of a TOML document, read as a `toml::Table`
/// (taken as a table value): `None` where it fails.
pub uninterp spec fn toml_document_parse(text: Seq<char>) -> Option<TomlTree>;

/// What parsing a single TOML value (`toml::de::ValueDeserializer::parse`)
/// and reading it as a `toml::Value` makes of a text: `None` where either
/// step fails.
pub uninterp spec fn toml_value_parse(text: Seq<char>) -> Option<TomlTree>;

/// The top level of a `toml::Value`, its parts left as they are.
pub enum TomlNode<'a> {
    Str(&'a String),
    Integer(i64),
    Float(u64),
    Boolean(bool),
    Datetime(String),
    Array(&'a Vec<toml::Value>),
    Table(Vec<(&'a String, &'a toml::Value)>),
}

/// `n` is the top level of the value `t`.
pub open spec fn toml_node_agrees<'a>(n: TomlNode<'a>, t: TomlTree) -> bool {
    match n {
        TomlNode::Str(s) => t == TomlTree::Str(s@),
        TomlNode::Integer(i) => t == TomlTree::Integer(i),
        TomlNode::Float(f) => t == TomlTree::Float(f),
        TomlNode::Boolean(b) => t == TomlTree::Boolean(b),
        TomlNode::Datetime(d) => t == TomlTree::Datetime(d@),
        TomlNode::Array(a) => {
            &&& t is Array
            &&& t->Array_0.len() == a@.len()
            &&& forall|i: int| 0 <= i < a@.len() ==> #[trigger] t->Array_0[i] == toml_tree(a@[i])
        },
        TomlNode::Table(es) => {
            &&& t is Table
            &&& t->Table_0.len() == es@.len()
            &&& forall|i: int|
                0 <= i < es@.len() ==> #[trigger] t->Table_0[i] == (es@[i].0@, toml_tree(*es@[i].1))
        },
    }
}

/// Tells the variants of a `toml::Value` apart: a float by its bit pattern, a
/// date-time by its `Display` text; a table's entries come in the order of
/// its map, which (a `BTreeMap` of `String`s, as `toml` builds it without its
/// `preserve_order` feature, which this crate does not turn on) holds each
/// name once and goes through them in `String` order, the order of
/// `key_lt`.
#[verifier::external_body]
fn toml_node<'a>(v: &'a toml::Value) -> (r: TomlNode<'a>)
    ensures
        toml_node_agrees(r, toml_tree(*v)),
        r matches TomlNode::Table(es) ==> forall|i: int, j: int|
            0 <= i < j < es@.len() ==> key_lt((#[trigger] es@[i]).0@, (#[trigger] es@[j]).0@),
{
    match v {
        toml::Value::String(s) => TomlNode::Str(s),
        toml::Value::Integer(i) => TomlNode::Integer(*i),
        toml::Value::Float(f) => TomlNode::Float(f.to_bits()),
        toml::Value::Boolean(b) => TomlNode::Boolean(*b),
        toml::Value::Datetime(d) => TomlNode::Datetime(d.to_string()),
        toml::Value::Array(a) => TomlNode::Array(a),
        toml::Value::Table(t) => TomlNode::Table(t.iter().collect()),
    }
}

/// Calls `toml::from_str`, reading a TOML document as a `toml::Table`, and
/// hands the table back as a `toml::Value::Table`.
#[verifier::external_body]
fn toml_from_str(text: &str) -> (r: Result<toml::Value, toml::de::Error>)
    ensures
        r is Ok <==> toml_document_parse(text@) is Some,
        r matches Ok(v) ==> toml_document_parse(text@) == Some(toml_tree(v)),
        r matches Ok(v) ==> toml_tree(v) is Table,
{
    toml::from_str::<toml::Table>(text).map(toml::Value::Table)
}

/// Reads a single TOML value: calls `toml::de::ValueDeserializer::parse`,
/// then `toml::Value`'s `Deserialize::deserialize` on what it parsed.
#[verifier::external_body]
fn toml_value_from_str(text: &str) -> (r: Result<toml::Value, toml::de::Error>)
    ensures
        r is Ok <==> toml_value_parse(text@) is Some,
        r matches Ok(v) ==> toml_value_parse(text@) == Some(toml_tree(v)),
{
    let parsed = toml::de::ValueDeserializer::parse(text)?;
    <toml::Value as serde::Deserialize>::deserialize(parsed)
}

/// The value that `v` holds, as a `Toml`.
pub fn toml_from_value(v: &toml::Value) -> (r: Toml)
    ensures
        r@ == toml_tree(*v),
        toml_valid(r@),
    decreases toml_tree(*v),
{
    let ghost t = toml_tree(*v);
    match toml_node(v) {
        TomlNode::Str(s) => Toml::String(s.clone()),
        TomlNode::Integer(i) => Toml::Integer(i),
        TomlNode::Float(f) => Toml::Float(f),
        TomlNode::Boolean(b) => Toml::Boolean(b),
        TomlNode::Datetime(d) => Toml::Datetime(d),
        TomlNode::Array(a) => {
            let mut out: Vec<Toml> = Vec::new();
            let mut i: usize = 0;
            while i < a.len()
                invariant
                    t == toml_tree(*v),
                    t is Array,
                    t->Array_0.len() == a@.len(),
                    forall|k: int| 0 <= k < a@.len() ==> #[trigger] t->Array_0[k] == toml_tree(a@[k]),
                    i <= a@.len(),
                    out@.len() == i,
                    forall|k: int| 0 <= k < i ==> #[trigger] out@[k]@ == t->Array_0[k],
                    forall|k: int| 0 <= k < i ==> toml_valid(#[trigger] out@[k]@),
                decreases a@.len() - i,
            {
                proof {
                    assert(decreases_to!(t => t->Array_0));
                    assert(decreases_to!(t->Array_0 => t->Array_0[i as int]));
                }
                let x = toml_from_value(&a[i]);
                out.push(x);
                i = i + 1;
            }
            proof {
                lemma_toml_list_view(out@);
                assert forall|k: int| 0 <= k < out@.len() implies #[trigger] toml_list_view(out@)[k]
                    == t->Array_0[k] by {
                    assert(out@[k]@ == t->Array_0[k]);
                }
                assert(toml_list_view(out@) =~= t->Array_0);
                lemma_toml_list_all(t->Array_0, toml_valid_pred());
                assert forall|k: int| 0 <= k < out@.len() implies toml_all(#[trigger] t->Array_0[k], toml_valid_pred()) by {
                    assert(toml_valid(out@[k]@));
                }
            }
            Toml::Array(out)
        },
        TomlNode::Table(es) => {
            let mut out: Vec<(String, Toml)> = Vec::new();
            let mut i: usize = 0;
            while i < es.len()
                invariant
                    t == toml_tree(*v),
                    t is Table,
                    t->Table_0.len() == es@.len(),
                    forall|k: int|
                        0 <= k < es@.len() ==> #[trigger] t->Table_0[k] == (
                            es@[k].0@,
                            toml_tree(*es@[k].1),
                        ),
                    i <= es@.len(),
                    out@.len() == i,
                    forall|k: int|
                        0 <= k < i ==> (#[trigger] out@[k]).0@ == t->Table_0[k].0 && out@[k].1@
                            == t->Table_0[k].1,
                    forall|k: int| 0 <= k < i ==> toml_valid((#[trigger] out@[k]).1@),
                decreases es@.len() - i,
            {
                proof {
                    assert(decreases_to!(t => t->Table_0));
                    assert(decreases_to!(t->Table_0 => t->Table_0[i as int]));
                    assert(decreases_to!(t->Table_0[i as int] => t->Table_0[i as int].1));
                }
                let x = toml_from_value(es[i].1);
                let key = es[i].0.clone();
                out.push((key, x));
                i = i + 1;
            }
            proof {
                lemma_toml_entries_view(out@);
                assert forall|k: int| 0 <= k < out@.len() implies #[trigger] toml_entries_view(out@)[k]
                    == t->Table_0[k] by {
                    assert(out@[k].0@ == t->Table_0[k].0);
                }
                assert(toml_entries_view(out@) =~= t->Table_0);
                lemma_toml_entries_all(t->Table_0, toml_valid_pred());
                assert forall|k: int| 0 <= k < out@.len() implies toml_all(#[trigger] t->Table_0[k].1, toml_valid_pred()) by {
                    assert(toml_valid(out@[k].1@));
                }
                assert forall|k: int, m: int| 0 <= k < m < t->Table_0.len() implies key_lt(
                    #[trigger] t->Table_0[k].0,
                    #[trigger] t->Table_0[m].0,
                ) by {
                    assert(key_lt(es@[k].0@, es@[m].0@));
                }
            }
            Toml::Table(out)
        },
    }
}

/// Reads the TOML document `arg` into a Nix value (an attribute set).
#[allow(non_snake_case)]
pub fn fromTOML(arg: NixValue) -> (r: NixValue)
    requires
        arg is String,
        toml_document_parse(arg->String_0@) is Some,
    ensures
        r@ == toml_to_nix_tree(toml_document_parse(arg->String_0@)->Some_0),
        r.wf(),
        r@ is Attrs,
        toml_valid(toml_document_parse(arg->String_0@)->Some_0),
        toml_all(toml_document_parse(arg->String_0@)->Some_0, toml_plain_pred())
            ==> nix_to_toml_tree(r@) == toml_document_parse(arg->String_0@)->Some_0,
{
    match arg {
        NixValue::String(s) => match toml_from_str(s.as_str()) {
            Ok(v) => {
                let t = toml_from_value(&v);
                proof {
                    if toml_all(t@, toml_plain_pred()) {
                        lemma_toml_nix_round_trip(t@);
                    }
                }
                toml_to_nix(&t)
            },
            Err(_) => NixValue::Null,
        },
        _ => NixValue::Null,
    }
}

/// Reads the single TOML value `arg` (such as `[1, 2]` or `"x"`) into a Nix
/// value.
#[allow(non_snake_case)]
pub fn fromTOMLValue(arg: NixValue) -> (r: NixValue)
    requires
        arg is String,
        toml_value_parse(arg->String_0@) is Some,
    ensures
        r@ == toml_to_nix_tree(toml_value_parse(arg->String_0@)->Some_0),
        r.wf(),
        toml_valid(toml_value_parse(arg->String_0@)->Some_0),
        toml_all(toml_value_parse(arg->String_0@)->Some_0, toml_plain_pred()) ==> nix_to_toml_tree(
            r@,
        ) == toml_value_parse(arg->String_0@)->Some_0,
{
    match arg {
        NixValue::String(s) => match toml_value_from_str(s.as_str()) {
            Ok(v) => {
                let t = toml_from_value(&v);
                proof {
                    if toml_all(t@, toml_plain_pred()) {
                        lemma_toml_nix_round_trip(t@);
                    }
                }
                toml_to_nix(&t)
            },
            Err(_) => NixValue::Null,
        },
        _ => NixValue::Null,
    }
}

/// `fromTOML`, answering with an error where `fromTOML` does not apply: the
/// argument is not a string, or not a TOML document.
pub fn try_from_toml(arg: NixValue) -> (r: Result<NixValue, TextInputError>)
    ensures
        !(arg is String) ==> r == Err::<NixValue, TextInputError>(TextInputError::NotAString),
        arg is String && toml_document_parse(arg->String_0@) is None ==> r == Err::<
            NixValue,
            TextInputError,
        >(TextInputError::Syntax),
        arg is String && toml_document_parse(arg->String_0@) is Some ==> r is Ok && r->Ok_0@
            == toml_to_nix_tree(toml_document_parse(arg->String_0@)->Some_0) && r->Ok_0.wf()
            && r->Ok_0@ is Attrs,
{
    let parses = match &arg {
        NixValue::String(s) => toml_from_str(s.as_str()).is_ok(),
        _ => {
            return Err(TextInputError::NotAString);
        },
    };
    if parses {
        Ok(fromTOML(arg))
    } else {
        Err(TextInputError::Syntax)
    }
}

/// `fromTOMLValue`, answering with an error where `fromTOMLValue` does not
/// apply: the argument is not a string, or not a TOML value.
pub fn try_from_toml_value(arg: NixValue) -> (r: Result<NixValue, TextInputError>)
    ensures
        !(arg is String) ==> r == Err::<NixValue, TextInputError>(TextInputError::NotAString),
        arg is String && toml_value_parse(arg->String_0@) is None ==> r == Err::<
            NixValue,
            TextInputError,
        >(TextInputError::Syntax),
        arg is String && toml_value_parse(arg->String_0@) is Some ==> r is Ok && r->Ok_0@
            == toml_to_nix_tree(toml_value_parse(arg->String_0@)->Some_0) && r->Ok_0.wf(),
{
    let parses = match &arg {
        NixValue::String(s) => toml_value_from_str(s.as_str()).is_ok(),
        _ => {
            return Err(TextInputError::NotAString);
        },
    };
    if parses {
        Ok(fromTOMLValue(arg))
    } else {
        Err(TextInputError::Syntax)
    }
}

} // verus!
