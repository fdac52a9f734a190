//! JSON documents and their conversion to and from Nix values.
use vstd::prelude::*;
use crate::value::{
    NixValue, NixV, list_view, attrs_view, lemma_list_view, lemma_attrs_view, nix_wf, keys_sorted,
    attrs_from, attrs_insert_entry, lemma_attrs_from, lemma_attrs_from_sorted, nix_all,
    lemma_list_all, lemma_entries_all,
};
use crate::writing::{
    WriteIssue, write_issue, write_issue_of, utf8_text, path_text, lemma_list_issue_none,
    lemma_entries_issue_none,
};

verus! {

/// A JSON number, as `serde_json` tells them apart: an integer that fits
/// `i64`; a larger integer (`Big`), with the bit pattern of its nearest
/// 64-bit float; or a float, by its bit pattern.
#[derive(Clone, Copy, Debug, PartialEq, Eq, Structural)]
pub enum JsonNumber {
    Int(i64),
    Big(u64, u64),
    Float(u64),
}

/// A JSON document.
#[derive(Debug, PartialEq)]
pub enum Json {
    Null,
    Bool(bool),
    Number(JsonNumber),
    String(String),
    Array(Vec<Json>),
    Object(Vec<(String, Json)>),
}

/// The mathematical model of a JSON document.
pub enum JsonTree {
    Null,
    Bool(bool),
    Number(JsonNumber),
    Str(Seq<char>),
    Array(Seq<JsonTree>),
    Object(Seq<(Seq<char>, JsonTree)>),
}

pub open spec fn json_view(j: Json) -> JsonTree
    decreases j,
{
    match j {
        Json::Null => JsonTree::Null,
        Json::Bool(b) => JsonTree::Bool(b),
        Json::Number(n) => JsonTree::Number(n),
        Json::String(s) => JsonTree::Str(s@),
        Json::Array(a) => JsonTree::Array(json_list_view(a@)),
        Json::Object(es) => JsonTree::Object(json_entries_view(es@)),
    }
}

pub open spec fn json_list_view(s: Seq<Json>) -> Seq<JsonTree>
    decreases s,
{
    if s.len() == 0 {
        Seq::empty()
    } else {
        json_list_view(s.drop_last()).push(json_view(s.last()))
    }
}

pub open spec fn json_entries_view(s: Seq<(String, Json)>) -> Seq<(Seq<char>, JsonTree)>
    decreases s,
{
    if s.len() == 0 {
        Seq::empty()
    } else {
        proof {
            assert(decreases_to!(s => s[s.len() - 1]));
        }
        json_entries_view(s.drop_last()).push((s.last().0@, json_view(s.last().1)))
    }
}

pub proof fn lemma_json_list_view(s: Seq<Json>)
    ensures
        json_list_view(s).len() == s.len(),
        forall|i: int| 0 <= i < s.len() ==> #[trigger] json_list_view(s)[i] == json_view(s[i]),
    decreases s.len(),
{
    if s.len() > 0 {
        lemma_json_list_view(s.drop_last());
    }
}

pub proof fn lemma_json_entries_view(s: Seq<(String, Json)>)
    ensures
        json_entries_view(s).len() == s.len(),
        forall|i: int|
            0 <= i < s.len() ==> #[trigger] json_entries_view(s)[i] == (s[i].0@, json_view(s[i].1)),
    decreases s.len(),
{
    if s.len() > 0 {
        lemma_json_entries_view(s.drop_last());
    }
}

impl View for Json {
    type V = JsonTree;

    open spec fn view(&self) -> JsonTree {
        json_view(*self)
    }
}

// ---------------------------------------------------------------------------
// From Nix to JSON.
/// The bit pattern `bits` is that of a finite float (not infinite, not NaN).
pub open spec fn float_is_finite(bits: u64) -> bool {
    bits & 0x7ff0_0000_0000_0000u64 != 0x7ff0_0000_0000_0000u64
}

/// Tests whether the float with bit pattern `bits` is finite.
pub fn float_bits_finite(bits: u64) -> (r: bool)
    ensures
        r == float_is_finite(bits),
{
    bits & 0x7ff0_0000_0000_0000u64 != 0x7ff0_0000_0000_0000u64
}

/// What keeps `v` from having a JSON form: the first function, or path that
/// is not UTF-8 text (see `write_issue`).
pub open spec fn json_issue(v: NixV) -> Option<WriteIssue> {
    write_issue(v, false)
}

/// The JSON form of a Nix value: a path becomes its UTF-8 text, a float that is not
/// finite becomes `null` (as `serde_json` turns such a float into `null`), an
/// attribute set becomes an object with the same entries in the same order.
pub open spec fn nix_to_json_tree(v: NixV) -> JsonTree
    decreases v,
{
    match v {
        NixV::Null => JsonTree::Null,
        NixV::Bool(b) => JsonTree::Bool(b),
        NixV::Int(i) => JsonTree::Number(JsonNumber::Int(i)),
        NixV::Float(f) => if float_is_finite(f) {
            JsonTree::Number(JsonNumber::Float(f))
        } else {
            JsonTree::Null
        },
        NixV::Str(s) => JsonTree::Str(s),
        NixV::Path(_, p) => JsonTree::Str(utf8_text(p)->Some_0),
        NixV::Attrs(es) => JsonTree::Object(nix_attrs_to_json(es)),
        NixV::List(l) => JsonTree::Array(nix_list_to_json(l)),
        NixV::Function(_) => JsonTree::Null,
    }
}

pub open spec fn nix_list_to_json(s: Seq<NixV>) -> Seq<JsonTree>
    decreases s,
{
    if s.len() == 0 {
        Seq::empty()
    } else {
        nix_list_to_json(s.drop_last()).push(nix_to_json_tree(s.last()))
    }
}

pub open spec fn nix_attrs_to_json(s: Seq<(Seq<char>, NixV)>) -> Seq<(Seq<char>, JsonTree)>
    decreases s,
{
    if s.len() == 0 {
        Seq::empty()
    } else {
        proof {
            assert(decreases_to!(s => s[s.len() - 1]));
        }
        nix_attrs_to_json(s.drop_last()).push((s.last().0, nix_to_json_tree(s.last().1)))
    }
}

pub proof fn lemma_nix_list_to_json(s: Seq<NixV>)
    ensures
        nix_list_to_json(s).len() == s.len(),
        forall|i: int|
            0 <= i < s.len() ==> #[trigger] nix_list_to_json(s)[i] == nix_to_json_tree(s[i]),
    decreases s.len(),
{
    if s.len() > 0 {
        lemma_nix_list_to_json(s.drop_last());
    }
}

pub proof fn lemma_nix_attrs_to_json(s: Seq<(Seq<char>, NixV)>)
    ensures
        nix_attrs_to_json(s).len() == s.len(),
        forall|i: int|
            0 <= i < s.len() ==> #[trigger] nix_attrs_to_json(s)[i] == (
                s[i].0,
                nix_to_json_tree(s[i].1),
            ),
    decreases s.len(),
{
    if s.len() > 0 {
        lemma_nix_attrs_to_json(s.drop_last());
    }
}

/// Finds what keeps `v` from having a JSON form (see `json_issue`).
pub fn json_issue_of(v: &NixValue) -> (r: Option<WriteIssue>)
    ensures
        r == json_issue(v@),
{
    write_issue_of(v, false)
}

/// The JSON form of `v` (see `nix_to_json_tree`); `v` holds no function and
/// no path that is not UTF-8.
pub fn nix_to_json(v: &NixValue) -> (r: Json)
    requires
        json_issue(v@) is None,
    ensures
        r@ == nix_to_json_tree(v@),
    decreases v@,
{
    match v {
        NixValue::Null => Json::Null,
        NixValue::Bool(b) => Json::Bool(*b),
        NixValue::Int(i) => Json::Number(JsonNumber::Int(*i)),
        NixValue::Float(f) => {
            if float_bits_finite(*f) {
                Json::Number(JsonNumber::Float(*f))
            } else {
                Json::Null
            }
        },
        NixValue::String(s) => Json::String(s.clone()),
        NixValue::Path(_, p) => Json::String(path_text(p)),
        NixValue::List(l) => {
            proof {
                lemma_list_view(l@);
            }
            let mut out: Vec<Json> = Vec::new();
            let mut i: usize = 0;
            while i < l.len()
                invariant
                    *v == NixValue::List(*l),
                    json_issue(v@) is None,
                    i <= l@.len(),
                    out@.len() == i,
                    list_view(l@).len() == l@.len(),
                    forall|j: int| 0 <= j < l@.len() ==> #[trigger] list_view(l@)[j] == l@[j]@,
                    forall|j: int|
                        0 <= j < i ==> #[trigger] out@[j]@ == nix_to_json_tree(list_view(l@)[j]),
                decreases l@.len() - i,
            {
                proof {
                    assert(v@ == NixV::List(list_view(l@)));
                    assert(decreases_to!(v@ => v@->List_0));
                    assert(decreases_to!(v@->List_0 => v@->List_0[i as int]));
                    lemma_list_issue_none(list_view(l@), i as int, false);
                }
                let x = nix_to_json(&l[i]);
                out.push(x);
                i = i + 1;
            }
            proof {
                lemma_json_list_view(out@);
                lemma_nix_list_to_json(list_view(l@));
                assert forall|j: int| 0 <= j < out@.len() implies #[trigger] json_list_view(out@)[j]
                    == nix_list_to_json(list_view(l@))[j] by {
                    assert(out@[j]@ == nix_to_json_tree(list_view(l@)[j]));
                }
                assert(json_list_view(out@) =~= nix_list_to_json(list_view(l@)));
            }
            Json::Array(out)
        },
        NixValue::Attrs(es) => {
            proof {
                lemma_attrs_view(es@);
            }
            let mut out: Vec<(String, Json)> = Vec::new();
            let mut i: usize = 0;
            while i < es.len()
                invariant
                    *v == NixValue::Attrs(*es),
                    json_issue(v@) is None,
                    i <= es@.len(),
                    out@.len() == i,
                    attrs_view(es@).len() == es@.len(),
                    forall|j: int|
                        0 <= j < es@.len() ==> #[trigger] attrs_view(es@)[j] == (
                            es@[j].0@,
                            es@[j].1@,
                        ),
                    forall|j: int|
                        0 <= j < i ==> (#[trigger] out@[j]).0@ == attrs_view(es@)[j].0 && out@[j].1@
                            == nix_to_json_tree(attrs_view(es@)[j].1),
                decreases es@.len() - i,
            {
                proof {
                    assert(v@ == NixV::Attrs(attrs_view(es@)));
                    assert(decreases_to!(v@ => v@->Attrs_0));
                    assert(decreases_to!(v@->Attrs_0 => v@->Attrs_0[i as int]));
                    assert(decreases_to!(v@->Attrs_0[i as int] => v@->Attrs_0[i as int].1));
                    lemma_entries_issue_none(attrs_view(es@), i as int, false);
                }
                let x = nix_to_json(&es[i].1);
                out.push((es[i].0.clone(), x));
                i = i + 1;
            }
            proof {
                lemma_json_entries_view(out@);
                lemma_nix_attrs_to_json(attrs_view(es@));
                assert forall|j: int| 0 <= j < out@.len() implies #[trigger] json_entries_view(out@)[j]
                    == nix_attrs_to_json(attrs_view(es@))[j] by {
                    assert(out@[j].0@ == attrs_view(es@)[j].0);
                }
                assert(json_entries_view(out@) =~= nix_attrs_to_json(attrs_view(es@)));
            }
            Json::Object(out)
        },
        NixValue::Function(_) => Json::Null,
    }
}


// ---------------------------------------------------------------------------
// From JSON to Nix.
pub open spec fn json_number_to_nix(n: JsonNumber) -> NixV {
    match n {
        JsonNumber::Int(i) => NixV::Int(i),
        JsonNumber::Big(_, f) => NixV::Float(f),
        JsonNumber::Float(f) => NixV::Float(f),
    }
}

/// The Nix value of a JSON document: an integer that fits `i64` stays an
/// integer, any other number becomes a float; an object becomes the attribute
/// set built from its entries in order.
pub open spec fn json_to_nix_tree(t: JsonTree) -> NixV
    decreases t,
{
    match t {
        JsonTree::Null => NixV::Null,
        JsonTree::Bool(b) => NixV::Bool(b),
        JsonTree::Number(n) => json_number_to_nix(n),
        JsonTree::Str(s) => NixV::Str(s),
        JsonTree::Array(a) => NixV::List(json_list_to_nix(a)),
        JsonTree::Object(es) => NixV::Attrs(attrs_from(json_entries_to_nix(es))),
    }
}

pub open spec fn json_list_to_nix(s: Seq<JsonTree>) -> Seq<NixV>
    decreases s,
{
    if s.len() == 0 {
        Seq::empty()
    } else {
        json_list_to_nix(s.drop_last()).push(json_to_nix_tree(s.last()))
    }
}

pub open spec fn json_entries_to_nix(s: Seq<(Seq<char>, JsonTree)>) -> Seq<(Seq<char>, NixV)>
    decreases s,
{
    if s.len() == 0 {
        Seq::empty()
    } else {
        proof {
            assert(decreases_to!(s => s[s.len() - 1]));
        }
        json_entries_to_nix(s.drop_last()).push((s.last().0, json_to_nix_tree(s.last().1)))
    }
}

pub proof fn lemma_json_list_to_nix(s: Seq<JsonTree>)
    ensures
        json_list_to_nix(s).len() == s.len(),
        forall|i: int|
            0 <= i < s.len() ==> #[trigger] json_list_to_nix(s)[i] == json_to_nix_tree(s[i]),
    decreases s.len(),
{
    if s.len() > 0 {
        lemma_json_list_to_nix(s.drop_last());
    }
}

pub proof fn lemma_json_entries_to_nix(s: Seq<(Seq<char>, JsonTree)>)
    ensures
        json_entries_to_nix(s).len() == s.len(),
        forall|i: int|
            0 <= i < s.len() ==> #[trigger] json_entries_to_nix(s)[i] == (
                s[i].0,
                json_to_nix_tree(s[i].1),
            ),
    decreases s.len(),
{
    if s.len() > 0 {
        lemma_json_entries_to_nix(s.drop_last());
    }
}

/// The Nix value of a JSON document is well formed.
pub proof fn lemma_json_to_nix_wf(t: JsonTree)
    ensures
        nix_wf(json_to_nix_tree(t)),
    decreases t,
{
    match t {
        JsonTree::Array(a) => {
            lemma_json_list_to_nix(a);
            assert forall|i: int| 0 <= i < a.len() implies #[trigger] nix_wf(json_list_to_nix(a)[i]) by {
                lemma_json_to_nix_wf(a[i]);
            }
            crate::value::lemma_list_wf(json_list_to_nix(a));
        },
        JsonTree::Object(es) => {
            let m = json_entries_to_nix(es);
            lemma_json_entries_to_nix(es);
            lemma_attrs_from(m);
            assert forall|i: int| 0 <= i < attrs_from(m).len() implies #[trigger] nix_wf(attrs_from(m)[i].1) by {
                let k = choose|k: int| 0 <= k < m.len() && m[k] == attrs_from(m)[i];
                assert(decreases_to!(t => es));
                lemma_json_to_nix_wf(es[k].1);
            }
            crate::value::lemma_entries_wf(attrs_from(m));
        },
        _ => {},
    }
}

/// The Nix value of `j` (see `json_to_nix_tree`).
pub fn json_to_nix(j: &Json) -> (r: NixValue)
    ensures
        r@ == json_to_nix_tree(j@),
        r.wf(),
    decreases j@,
{
    proof {
        lemma_json_to_nix_wf(j@);
    }
    match j {
        Json::Null => NixValue::Null,
        Json::Bool(b) => NixValue::Bool(*b),
        Json::Number(n) => match n {
            JsonNumber::Int(i) => NixValue::Int(*i),
            JsonNumber::Big(_, f) => NixValue::Float(*f),
            JsonNumber::Float(f) => NixValue::Float(*f),
        },
        Json::String(s) => NixValue::String(s.clone()),
        Json::Array(a) => {
            proof {
                lemma_json_list_view(a@);
            }
            let mut out: Vec<NixValue> = Vec::new();
            let mut i: usize = 0;
            while i < a.len()
                invariant
                    *j == Json::Array(*a),
                    i <= a@.len(),
                    out@.len() == i,
                    json_list_view(a@).len() == a@.len(),
                    forall|k: int| 0 <= k < a@.len() ==> #[trigger] json_list_view(a@)[k] == a@[k]@,
                    forall|k: int|
                        0 <= k < i ==> #[trigger] out@[k]@ == json_to_nix_tree(json_list_view(a@)[k]),
                decreases a@.len() - i,
            {
                proof {
                    assert(j@ == JsonTree::Array(json_list_view(a@)));
                    assert(decreases_to!(j@ => j@->Array_0));
                    assert(decreases_to!(j@->Array_0 => j@->Array_0[i as int]));
                }
                let x = json_to_nix(&a[i]);
                out.push(x);
                i = i + 1;
            }
            proof {
                lemma_list_view(out@);
                lemma_json_list_to_nix(json_list_view(a@));
                assert forall|k: int| 0 <= k < out@.len() implies #[trigger] list_view(out@)[k]
                    == json_list_to_nix(json_list_view(a@))[k] by {
                    assert(out@[k]@ == json_to_nix_tree(json_list_view(a@)[k]));
                }
                assert(list_view(out@) =~= json_list_to_nix(json_list_view(a@)));
            }
            NixValue::List(out)
        },
        Json::Object(es) => {
            let ghost m = json_entries_to_nix(json_entries_view(es@));
            proof {
                lemma_json_entries_view(es@);
                lemma_json_entries_to_nix(json_entries_view(es@));
                assert(m.take(0) =~= Seq::<(Seq<char>, NixV)>::empty());
            }
            let mut out: Vec<(String, NixValue)> = Vec::new();
            let mut i: usize = 0;
            while i < es.len()
                invariant
                    *j == Json::Object(*es),
                    m == json_entries_to_nix(json_entries_view(es@)),
                    i <= es@.len(),
                    m.len() == es@.len(),
                    json_entries_view(es@).len() == es@.len(),
                    forall|k: int|
                        0 <= k < es@.len() ==> #[trigger] json_entries_view(es@)[k] == (
                            es@[k].0@,
                            es@[k].1@,
                        ),
                    forall|k: int|
                        0 <= k < es@.len() ==> #[trigger] m[k] == (
                            json_entries_view(es@)[k].0,
                            json_to_nix_tree(json_entries_view(es@)[k].1),
                        ),
                    attrs_view(out@) == attrs_from(m.take(i as int)),
                    keys_sorted(attrs_view(out@)),
                decreases es@.len() - i,
            {
                proof {
                    assert(j@ == JsonTree::Object(json_entries_view(es@)));
                    assert(decreases_to!(j@ => j@->Object_0));
                    assert(decreases_to!(j@->Object_0 => j@->Object_0[i as int]));
                    assert(decreases_to!(j@->Object_0[i as int] => j@->Object_0[i as int].1));
                }
                let x = json_to_nix(&es[i].1);
                let key = es[i].0.clone();
                proof {
                    lemma_attrs_from(m.take(i as int));
                }
                attrs_insert_entry(&mut out, key, x);
                proof {
                    assert(m.take(i + 1).drop_last() =~= m.take(i as int));
                    assert(m.take(i + 1).last() == m[i as int]);
                    lemma_attrs_from(m.take(i + 1));
                }
                i = i + 1;
            }
            proof {
                assert(m.take(i as int) =~= m);
            }
            NixValue::Attrs(out)
        },
    }
}


// ---------------------------------------------------------------------------
// Properties of every node of a JSON document.
/// Every node of `t` satisfies `p`.
pub open spec fn json_all(t: JsonTree, p: spec_fn(JsonTree) -> bool) -> bool
    decreases t,
{
    p(t) && match t {
        JsonTree::Array(a) => json_list_all(a, p),
        JsonTree::Object(es) => json_entries_all(es, p),
        _ => true,
    }
}

pub open spec fn json_list_all(s: Seq<JsonTree>, p: spec_fn(JsonTree) -> bool) -> bool
    decreases s,
{
    if s.len() == 0 {
        true
    } else {
        json_list_all(s.drop_last(), p) && json_all(s.last(), p)
    }
}

pub open spec fn json_entries_all(s: Seq<(Seq<char>, JsonTree)>, p: spec_fn(JsonTree) -> bool) -> bool
    decreases s,
{
    if s.len() == 0 {
        true
    } else {
        proof {
            assert(decreases_to!(s => s[s.len() - 1]));
        }
        json_entries_all(s.drop_last(), p) && json_all(s.last().1, p)
    }
}

pub proof fn lemma_json_list_all(s: Seq<JsonTree>, p: spec_fn(JsonTree) -> bool)
    ensures
        json_list_all(s, p) <==> forall|i: int| 0 <= i < s.len() ==> #[trigger] json_all(s[i], p),
    decreases s.len(),
{
    if s.len() > 0 {
        lemma_json_list_all(s.drop_last(), p);
        if !json_list_all(s, p) {
            if !json_all(s.last(), p) {
                assert(!json_all(s[s.len() - 1], p));
            } else {
                let k = choose|k: int| 0 <= k < s.len() - 1 && !json_all(#[trigger] s.drop_last()[k], p);
                assert(s.drop_last()[k] == s[k]);
            }
        } else {
            assert forall|i: int| 0 <= i < s.len() implies #[trigger] json_all(s[i], p) by {
                if i < s.len() - 1 {
                    assert(s.drop_last()[i] == s[i]);
                }
            }
        }
    }
}

pub proof fn lemma_json_entries_all(s: Seq<(Seq<char>, JsonTree)>, p: spec_fn(JsonTree) -> bool)
    ensures
        json_entries_all(s, p) <==> forall|i: int| 0 <= i < s.len() ==> #[trigger] json_all(s[i].1, p),
    decreases s.len(),
{
    if s.len() > 0 {
        lemma_json_entries_all(s.drop_last(), p);
        if !json_entries_all(s, p) {
            if !json_all(s.last().1, p) {
                assert(!json_all(s[s.len() - 1].1, p));
            } else {
                let k = choose|k: int| 0 <= k < s.len() - 1 && !json_all(#[trigger] s.drop_last()[k].1, p);
                assert(s.drop_last()[k] == s[k]);
            }
        } else {
            assert forall|i: int| 0 <= i < s.len() implies #[trigger] json_all(s[i].1, p) by {
                if i < s.len() - 1 {
                    assert(s.drop_last()[i] == s[i]);
                }
            }
        }
    }
}

// ---------------------------------------------------------------------------
// Round trips.
/// A node that JSON carries unchanged: no function, no path, no float that is
/// not finite.
pub open spec fn json_exact_node(x: NixV) -> bool {
    match x {
        NixV::Function(_) => false,
        NixV::Path(_, _) => false,
        NixV::Float(f) => float_is_finite(f),
        _ => true,
    }
}

pub open spec fn json_exact_pred() -> spec_fn(NixV) -> bool {
    |x: NixV| json_exact_node(x)
}

/// `v` holds no function, no path and no float that is not finite.
pub open spec fn json_exact(v: NixV) -> bool {
    nix_all(v, json_exact_pred())
}

/// A node as `serde_json` holds it: a float is finite, an integer of the
/// `Big` kind is larger than `i64::MAX`, an object's names are sorted, each
/// once.
pub open spec fn json_valid_node(t: JsonTree) -> bool {
    match t {
        JsonTree::Number(JsonNumber::Float(f)) => float_is_finite(f),
        JsonTree::Number(JsonNumber::Big(u, _)) => u > i64::MAX,
        JsonTree::Object(es) => keys_sorted(es),
        _ => true,
    }
}

pub open spec fn json_valid_pred() -> spec_fn(JsonTree) -> bool {
    |t: JsonTree| json_valid_node(t)
}

/// Every node of `t` is as `serde_json` holds it (see `json_valid_node`).
pub open spec fn json_valid(t: JsonTree) -> bool {
    json_all(t, json_valid_pred())
}

/// A node that is not an integer larger than `i64::MAX`.
pub open spec fn json_small_node(t: JsonTree) -> bool {
    !(t matches JsonTree::Number(JsonNumber::Big(_, _)))
}

pub open spec fn json_small_pred() -> spec_fn(JsonTree) -> bool {
    |t: JsonTree| json_small_node(t)
}

/// `t` is as `serde_json` holds a document, and every integer in it fits
/// `i64`.
pub open spec fn json_canonical(t: JsonTree) -> bool {
    json_valid(t) && json_all(t, json_small_pred())
}

/// Writing a Nix value as JSON and reading it back gives the value, when it
/// is well formed and holds no function, no path and no float that is not
/// finite.
pub proof fn lemma_nix_json_round_trip(v: NixV)
    requires
        nix_wf(v),
        json_exact(v),
    ensures
        json_to_nix_tree(nix_to_json_tree(v)) == v,
    decreases v,
{
    match v {
        NixV::List(l) => {
            lemma_list_all(l, json_exact_pred());
            crate::value::lemma_list_wf(l);
            let j = nix_list_to_json(l);
            lemma_nix_list_to_json(l);
            lemma_json_list_to_nix(j);
            assert forall|i: int| 0 <= i < l.len() implies #[trigger] json_list_to_nix(j)[i] == l[i] by {
                assert(decreases_to!(v => v->List_0));
                assert(decreases_to!(v->List_0 => v->List_0[i]));
                lemma_nix_json_round_trip(l[i]);
            }
            assert(json_list_to_nix(j) =~= l);
        },
        NixV::Attrs(es) => {
            lemma_entries_all(es, json_exact_pred());
            crate::value::lemma_entries_wf(es);
            let j = nix_attrs_to_json(es);
            lemma_nix_attrs_to_json(es);
            lemma_json_entries_to_nix(j);
            let m = json_entries_to_nix(j);
            assert forall|i: int| 0 <= i < es.len() implies #[trigger] m[i] == es[i] by {
                assert(decreases_to!(v => v->Attrs_0));
                assert(decreases_to!(v->Attrs_0 => v->Attrs_0[i]));
                assert(decreases_to!(v->Attrs_0[i] => v->Attrs_0[i].1));
                lemma_nix_json_round_trip(es[i].1);
            }
            assert(m =~= es);
            lemma_attrs_from_sorted(es);
        },
        _ => {},
    }
}

/// Reading a JSON document as a Nix value and writing that as JSON gives the
/// document, when it is as `serde_json` holds documents (finite floats,
/// objects with sorted names, each once) and every integer in it fits `i64`.
pub proof fn lemma_json_nix_round_trip(t: JsonTree)
    requires
        json_canonical(t),
    ensures
        nix_to_json_tree(json_to_nix_tree(t)) == t,
    decreases t,
{
    match t {
        JsonTree::Array(a) => {
            lemma_json_list_all(a, json_valid_pred());
            lemma_json_list_all(a, json_small_pred());
            let n = json_list_to_nix(a);
            lemma_json_list_to_nix(a);
            lemma_nix_list_to_json(n);
            assert forall|i: int| 0 <= i < a.len() implies #[trigger] nix_list_to_json(n)[i] == a[i] by {
                assert(decreases_to!(t => t->Array_0));
                assert(decreases_to!(t->Array_0 => t->Array_0[i]));
                lemma_json_nix_round_trip(a[i]);
            }
            assert(nix_list_to_json(n) =~= a);
        },
        JsonTree::Object(es) => {
            lemma_json_entries_all(es, json_valid_pred());
            lemma_json_entries_all(es, json_small_pred());
            let m = json_entries_to_nix(es);
            lemma_json_entries_to_nix(es);
            assert(keys_sorted(m)) by {
                assert forall|i: int, k: int| 0 <= i < k < m.len() implies crate::keys::key_lt(
                    #[trigger] m[i].0,
                    #[trigger] m[k].0,
                ) by {
                    assert(crate::keys::key_lt(es[i].0, es[k].0));
                }
            }
            lemma_attrs_from_sorted(m);
            lemma_nix_attrs_to_json(m);
            assert forall|i: int| 0 <= i < es.len() implies #[trigger] nix_attrs_to_json(m)[i] == es[i] by {
                assert(decreases_to!(t => t->Object_0));
                assert(decreases_to!(t->Object_0 => t->Object_0[i]));
                assert(decreases_to!(t->Object_0[i] => t->Object_0[i].1));
                lemma_json_nix_round_trip(es[i].1);
            }
            assert(nix_attrs_to_json(m) =~= es);
        },
        _ => {},
    }
}

} // verus!

verus! {

// ---------------------------------------------------------------------------
// What each kind of value becomes.
/// A JSON document's model is what it holds: a string its characters, an
/// array its elements' models in order, an object its names with their
/// values' models in order.
pub proof fn lemma_json_view_parts(j: Json)
    ensures
        j == Json::Null ==> j@ == JsonTree::Null,
        j matches Json::Bool(b) ==> j@ == JsonTree::Bool(b),
        j matches Json::Number(n) ==> j@ == JsonTree::Number(n),
        j matches Json::String(s) ==> j@ == JsonTree::Str(s@),
        j matches Json::Array(a) ==> j@ matches JsonTree::Array(m) && m.len() == a@.len() && forall|i: int|
            0 <= i < a@.len() ==> #[trigger] m[i] == a@[i]@,
        j matches Json::Object(es) ==> j@ matches JsonTree::Object(m) && m.len() == es@.len()
            && forall|i: int| 0 <= i < es@.len() ==> #[trigger] m[i] == (es@[i].0@, es@[i].1@),
{
    match j {
        Json::Array(a) => lemma_json_list_view(a@),
        Json::Object(es) => lemma_json_entries_view(es@),
        _ => {},
    }
}

/// What a Nix value becomes in JSON: null, a boolean, an integer and a string
/// stay what they are (a string with the same characters); a finite float
/// stays that float and any other float becomes null; a UTF-8 path becomes
/// its text; a list becomes the array of its elements' forms, in order; an
/// attribute set becomes the object of the same names, in the same order,
/// with their values' forms.
pub proof fn lemma_nix_to_json_parts(v: NixV)
    ensures
        v == NixV::Null ==> nix_to_json_tree(v) == JsonTree::Null,
        v matches NixV::Bool(b) ==> nix_to_json_tree(v) == JsonTree::Bool(b),
        v matches NixV::Int(i) ==> nix_to_json_tree(v) == JsonTree::Number(JsonNumber::Int(i)),
        v matches NixV::Float(f) ==> nix_to_json_tree(v) == (if float_is_finite(f) {
            JsonTree::Number(JsonNumber::Float(f))
        } else {
            JsonTree::Null
        }),
        v matches NixV::Str(s) ==> nix_to_json_tree(v) == JsonTree::Str(s),
        v matches NixV::Path(_, p) ==> (utf8_text(p) matches Some(t) ==> nix_to_json_tree(v)
            == JsonTree::Str(t)),
        v matches NixV::List(l) ==> nix_to_json_tree(v) matches JsonTree::Array(a) && a.len()
            == l.len() && forall|i: int| 0 <= i < l.len() ==> #[trigger] a[i] == nix_to_json_tree(l[i]),
        v matches NixV::Attrs(es) ==> nix_to_json_tree(v) matches JsonTree::Object(os) && os.len()
            == es.len() && forall|i: int|
            0 <= i < es.len() ==> #[trigger] os[i] == (es[i].0, nix_to_json_tree(es[i].1)),
{
    match v {
        NixV::List(l) => lemma_nix_list_to_json(l),
        NixV::Attrs(es) => lemma_nix_attrs_to_json(es),
        _ => {},
    }
}

/// What a JSON document becomes as a Nix value: null, a boolean and a string
/// stay what they are (a string with the same characters); an integer that
/// fits `i64` stays that integer, a larger one becomes its float, a float
/// stays that float; an array becomes the list of its elements' values, in
/// order; an object becomes the attribute set built from its names, in order,
/// with their values' values (see `attrs_from`: names sorted, a later entry
/// replacing an earlier one).
pub proof fn lemma_json_to_nix_parts(t: JsonTree)
    ensures
        t == JsonTree::Null ==> json_to_nix_tree(t) == NixV::Null,
        t matches JsonTree::Bool(b) ==> json_to_nix_tree(t) == NixV::Bool(b),
        t matches JsonTree::Number(JsonNumber::Int(i)) ==> json_to_nix_tree(t) == NixV::Int(i),
        t matches JsonTree::Number(JsonNumber::Big(_, f)) ==> json_to_nix_tree(t) == NixV::Float(f),
        t matches JsonTree::Number(JsonNumber::Float(f)) ==> json_to_nix_tree(t) == NixV::Float(f),
        t matches JsonTree::Str(s) ==> json_to_nix_tree(t) == NixV::Str(s),
        t matches JsonTree::Array(a) ==> json_to_nix_tree(t) matches NixV::List(l) && l.len()
            == a.len() && forall|i: int| 0 <= i < a.len() ==> #[trigger] l[i] == json_to_nix_tree(a[i]),
        t matches JsonTree::Object(es) ==> json_to_nix_tree(t) == NixV::Attrs(
            attrs_from(Seq::new(es.len(), |i: int| (es[i].0, json_to_nix_tree(es[i].1)))),
        ),
{
    match t {
        JsonTree::Array(a) => lemma_json_list_to_nix(a),
        JsonTree::Object(es) => {
            lemma_json_entries_to_nix(es);
            assert(json_entries_to_nix(es) =~= Seq::new(
                es.len(),
                |i: int| (es[i].0, json_to_nix_tree(es[i].1)),
            ));
        },
        _ => {},
    }
}

} // verus!
