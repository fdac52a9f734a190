//! TOML documents and their conversion to and from Nix values.
use vstd::prelude::*;
use crate::value::{
    NixValue, NixV, list_view, attrs_view, lemma_list_view, lemma_attrs_view, nix_wf, keys_sorted,
    attrs_from, attrs_insert_entry, lemma_attrs_from, lemma_attrs_from_sorted, nix_all,
    lemma_list_all, lemma_entries_all,
};
use crate::writing::{
    WriteIssue, write_issue, write_issue_of, utf8_text, path_text, lemma_list_issue_none,
    lemma_entries_issue_none,
};

verus! {

/// A TOML value. `Float` holds the bit pattern of a 64-bit float; `Datetime`
/// holds a date-time as TOML writes it.
#[derive(Debug, PartialEq)]
pub enum Toml {
    String(String),
    Integer(i64),
    Float(u64),
    Boolean(bool),
    Datetime(String),
    Array(Vec<Toml>),
    Table(Vec<(String, Toml)>),
}

/// The mathematical model of a TOML value.
pub enum TomlTree {
    Str(Seq<char>),
    Integer(i64),
    Float(u64),
    Boolean(bool),
    Datetime(Seq<char>),
    Array(Seq<TomlTree>),
    Table(Seq<(Seq<char>, TomlTree)>),
}

pub open spec fn toml_view(t: Toml) -> TomlTree
    decreases t,
{
    match t {
        Toml::String(s) => TomlTree::Str(s@),
        Toml::Integer(i) => TomlTree::Integer(i),
        Toml::Float(f) => TomlTree::Float(f),
        Toml::Boolean(b) => TomlTree::Boolean(b),
        Toml::Datetime(d) => TomlTree::Datetime(d@),
        Toml::Array(a) => TomlTree::Array(toml_list_view(a@)),
        Toml::Table(es) => TomlTree::Table(toml_entries_view(es@)),
    }
}

pub open spec fn toml_list_view(s: Seq<Toml>) -> Seq<TomlTree>
    decreases s,
{
    if s.len() == 0 {
        Seq::empty()
    } else {
        toml_list_view(s.drop_last()).push(toml_view(s.last()))
    }
}

pub open spec fn toml_entries_view(s: Seq<(String, Toml)>) -> Seq<(Seq<char>, TomlTree)>
    decreases s,
{
    if s.len() == 0 {
        Seq::empty()
    } else {
        proof {
            assert(decreases_to!(s => s[s.len() - 1]));
        }
        toml_entries_view(s.drop_last()).push((s.last().0@, toml_view(s.last().1)))
    }
}

pub proof fn lemma_toml_list_view(s: Seq<Toml>)
    ensures
        toml_list_view(s).len() == s.len(),
        forall|i: int| 0 <= i < s.len() ==> #[trigger] toml_list_view(s)[i] == toml_view(s[i]),
    decreases s.len(),
{
    if s.len() > 0 {
        lemma_toml_list_view(s.drop_last());
    }
}

pub proof fn lemma_toml_entries_view(s: Seq<(String, Toml)>)
    ensures
        toml_entries_view(s).len() == s.len(),
        forall|i: int|
            0 <= i < s.len() ==> #[trigger] toml_entries_view(s)[i] == (s[i].0@, toml_view(s[i].1)),
    decreases s.len(),
{
    if s.len() > 0 {
        lemma_toml_entries_view(s.drop_last());
    }
}

impl View for Toml {
    type V = TomlTree;

    open spec fn view(&self) -> TomlTree {
        toml_view(*self)
    }
}

// ---------------------------------------------------------------------------
// From Nix to TOML.
/// What keeps `v` from having a TOML form: the first null (TOML has none),
/// function, or path that is not UTF-8 text (see `write_issue`).
pub open spec fn toml_issue(v: NixV) -> Option<WriteIssue> {
    write_issue(v, true)
}

/// What keeps a Nix value from being written as a TOML document: a document
/// is an attribute set, and it has a TOML form only without null and
/// functions.
#[derive(Clone, Copy, Debug, PartialEq, Eq, Structural)]
pub enum TomlDocumentIssue {
    NotAttrs,
    Value(WriteIssue),
}

/// What keeps `v` from being written as a TOML document: first whether it is
/// an attribute set, then what `toml_issue` finds.
pub open spec fn toml_document_issue(v: NixV) -> Option<TomlDocumentIssue> {
    if !(v is Attrs) {
        Some(TomlDocumentIssue::NotAttrs)
    } else {
        match toml_issue(v) {
            Some(i) => Some(TomlDocumentIssue::Value(i)),
            None => None,
        }
    }
}

/// Finds what keeps `v` from being written as a TOML document (see
/// `toml_document_issue`).
pub fn toml_document_issue_of(v: &NixValue) -> (r: Option<TomlDocumentIssue>)
    ensures
        r == toml_document_issue(v@),
{
    match v {
        NixValue::Attrs(_) => match toml_issue_of(v) {
            Some(i) => Some(TomlDocumentIssue::Value(i)),
            None => None,
        },
        _ => Some(TomlDocumentIssue::NotAttrs),
    }
}

/// Finds what keeps `v` from having a TOML form (see `toml_issue`).
pub fn toml_issue_of(v: &NixValue) -> (r: Option<WriteIssue>)
    ensures
        r == toml_issue(v@),
{
    write_issue_of(v, true)
}

/// The TOML form of a Nix value: a path becomes its UTF-8 text, an attribute
/// set a table with the same entries in the same order. A null, a function
/// or a path that is not UTF-8 has no TOML form; this gives no particular
/// value for them.
pub open spec fn nix_to_toml_tree(v: NixV) -> TomlTree
    decreases v,
{
    match v {
        NixV::Bool(b) => TomlTree::Boolean(b),
        NixV::Int(i) => TomlTree::Integer(i),
        NixV::Float(f) => TomlTree::Float(f),
        NixV::Str(s) => TomlTree::Str(s),
        NixV::Path(_, p) => TomlTree::Str(utf8_text(p)->Some_0),
        NixV::Attrs(es) => TomlTree::Table(nix_attrs_to_toml(es)),
        NixV::List(l) => TomlTree::Array(nix_list_to_toml(l)),
        _ => TomlTree::Str(Seq::empty()),
    }
}

pub open spec fn nix_list_to_toml(s: Seq<NixV>) -> Seq<TomlTree>
    decreases s,
{
    if s.len() == 0 {
        Seq::empty()
    } else {
        nix_list_to_toml(s.drop_last()).push(nix_to_toml_tree(s.last()))
    }
}

pub open spec fn nix_attrs_to_toml(s: Seq<(Seq<char>, NixV)>) -> Seq<(Seq<char>, TomlTree)>
    decreases s,
{
    if s.len() == 0 {
        Seq::empty()
    } else {
        proof {
            assert(decreases_to!(s => s[s.len() - 1]));
        }
        nix_attrs_to_toml(s.drop_last()).push((s.last().0, nix_to_toml_tree(s.last().1)))
    }
}

pub proof fn lemma_nix_list_to_toml(s: Seq<NixV>)
    ensures
        nix_list_to_toml(s).len() == s.len(),
        forall|i: int|
            0 <= i < s.len() ==> #[trigger] nix_list_to_toml(s)[i] == nix_to_toml_tree(s[i]),
    decreases s.len(),
{
    if s.len() > 0 {
        lemma_nix_list_to_toml(s.drop_last());
    }
}

pub proof fn lemma_nix_attrs_to_toml(s: Seq<(Seq<char>, NixV)>)
    ensures
        nix_attrs_to_toml(s).len() == s.len(),
        forall|i: int|
            0 <= i < s.len() ==> #[trigger] nix_attrs_to_toml(s)[i] == (
                s[i].0,
                nix_to_toml_tree(s[i].1),
            ),
    decreases s.len(),
{
    if s.len() > 0 {
        lemma_nix_attrs_to_toml(s.drop_last());
    }
}

/// The TOML form of `v` (see `nix_to_toml_tree`); `v` holds no null, no
/// function and no path that is not UTF-8.
pub fn nix_to_toml(v: &NixValue) -> (r: Toml)
    requires
        toml_issue(v@) is None,
    ensures
        r@ == nix_to_toml_tree(v@),
    decreases v@,
{
    match v {
        NixValue::Bool(b) => Toml::Boolean(*b),
        NixValue::Int(i) => Toml::Integer(*i),
        NixValue::Float(f) => Toml::Float(*f),
        NixValue::String(s) => Toml::String(s.clone()),
        NixValue::Path(_, p) => Toml::String(path_text(p)),
        NixValue::List(l) => {
            proof {
                lemma_list_view(l@);
                assert(list_view(l@).take(0) =~= Seq::<NixV>::empty());
            }
            let ghost s = list_view(l@);
            let mut out: Vec<Toml> = Vec::new();
            let mut i: usize = 0;
            while i < l.len()
                invariant
                    *v == NixValue::List(*l),
                    toml_issue(v@) is None,
                    s == list_view(l@),
                    i <= l@.len(),
                    out@.len() == i,
                    s.len() == l@.len(),
                    forall|j: int| 0 <= j < l@.len() ==> #[trigger] s[j] == l@[j]@,
                    forall|j: int| 0 <= j < i ==> #[trigger] out@[j]@ == nix_to_toml_tree(s[j]),
                decreases l@.len() - i,
            {
                proof {
                    assert(v@ == NixV::List(s));
                    assert(decreases_to!(v@ => v@->List_0));
                    assert(decreases_to!(v@->List_0 => v@->List_0[i as int]));
                    lemma_list_issue_none(s, i as int, true);
                }
                let x = nix_to_toml(&l[i]);
                out.push(x);
                i = i + 1;
            }
            proof {
                lemma_toml_list_view(out@);
                lemma_nix_list_to_toml(s);
                assert forall|j: int| 0 <= j < out@.len() implies #[trigger] toml_list_view(out@)[j]
                    == nix_list_to_toml(s)[j] by {
                    assert(out@[j]@ == nix_to_toml_tree(s[j]));
                }
                assert(toml_list_view(out@) =~= nix_list_to_toml(s));
            }
            Toml::Array(out)
        },
        NixValue::Attrs(es) => {
            proof {
                lemma_attrs_view(es@);
            }
            let ghost s = attrs_view(es@);
            let mut out: Vec<(String, Toml)> = Vec::new();
            let mut i: usize = 0;
            while i < es.len()
                invariant
                    *v == NixValue::Attrs(*es),
                    toml_issue(v@) is None,
                    s == attrs_view(es@),
                    i <= es@.len(),
                    out@.len() == i,
                    s.len() == es@.len(),
                    forall|j: int| 0 <= j < es@.len() ==> #[trigger] s[j] == (es@[j].0@, es@[j].1@),
                    forall|j: int|
                        0 <= j < i ==> (#[trigger] out@[j]).0@ == s[j].0 && out@[j].1@
                            == nix_to_toml_tree(s[j].1),
                decreases es@.len() - i,
            {
                proof {
                    assert(v@ == NixV::Attrs(s));
                    assert(decreases_to!(v@ => v@->Attrs_0));
                    assert(decreases_to!(v@->Attrs_0 => v@->Attrs_0[i as int]));
                    assert(decreases_to!(v@->Attrs_0[i as int] => v@->Attrs_0[i as int].1));
                    lemma_entries_issue_none(s, i as int, true);
                }
                let x = nix_to_toml(&es[i].1);
                out.push((es[i].0.clone(), x));
                i = i + 1;
            }
            proof {
                lemma_toml_entries_view(out@);
                lemma_nix_attrs_to_toml(s);
                assert forall|j: int| 0 <= j < out@.len() implies #[trigger] toml_entries_view(out@)[j]
                    == nix_attrs_to_toml(s)[j] by {
                    assert(out@[j].0@ == s[j].0);
                }
                assert(toml_entries_view(out@) =~= nix_attrs_to_toml(s));
            }
            Toml::Table(out)
        },
        _ => Toml::String(String::new()),
    }
}

// ---------------------------------------------------------------------------
// From TOML to Nix.
/// The Nix value of a TOML value: a date-time becomes its text, a table the
/// attribute set built from its entries in order.
pub open spec fn toml_to_nix_tree(t: TomlTree) -> NixV
    decreases t,
{
    match t {
        TomlTree::Str(s) => NixV::Str(s),
        TomlTree::Integer(i) => NixV::Int(i),
        TomlTree::Float(f) => NixV::Float(f),
        TomlTree::Boolean(b) => NixV::Bool(b),
        TomlTree::Datetime(d) => NixV::Str(d),
        TomlTree::Array(a) => NixV::List(toml_list_to_nix(a)),
        TomlTree::Table(es) => NixV::Attrs(attrs_from(toml_entries_to_nix(es))),
    }
}

pub open spec fn toml_list_to_nix(s: Seq<TomlTree>) -> Seq<NixV>
    decreases s,
{
    if s.len() == 0 {
        Seq::empty()
    } else {
        toml_list_to_nix(s.drop_last()).push(toml_to_nix_tree(s.last()))
    }
}

pub open spec fn toml_entries_to_nix(s: Seq<(Seq<char>, TomlTree)>) -> Seq<(Seq<char>, NixV)>
    decreases s,
{
    if s.len() == 0 {
        Seq::empty()
    } else {
        proof {
            assert(decreases_to!(s => s[s.len() - 1]));
        }
        toml_entries_to_nix(s.drop_last()).push((s.last().0, toml_to_nix_tree(s.last().1)))
    }
}

pub proof fn lemma_toml_list_to_nix(s: Seq<TomlTree>)
    ensures
        toml_list_to_nix(s).len() == s.len(),
        forall|i: int|
            0 <= i < s.len() ==> #[trigger] toml_list_to_nix(s)[i] == toml_to_nix_tree(s[i]),
    decreases s.len(),
{
    if s.len() > 0 {
        lemma_toml_list_to_nix(s.drop_last());
    }
}

pub proof fn lemma_toml_entries_to_nix(s: Seq<(Seq<char>, TomlTree)>)
    ensures
        toml_entries_to_nix(s).len() == s.len(),
        forall|i: int|
            0 <= i < s.len() ==> #[trigger] toml_entries_to_nix(s)[i] == (
                s[i].0,
                toml_to_nix_tree(s[i].1),
            ),
    decreases s.len(),
{
    if s.len() > 0 {
        lemma_toml_entries_to_nix(s.drop_last());
    }
}

/// The Nix value of a TOML value is well formed.
pub proof fn lemma_toml_to_nix_wf(t: TomlTree)
    ensures
        nix_wf(toml_to_nix_tree(t)),
    decreases t,
{
    match t {
        TomlTree::Array(a) => {
            lemma_toml_list_to_nix(a);
            assert forall|i: int| 0 <= i < a.len() implies #[trigger] nix_wf(toml_list_to_nix(a)[i]) by {
                lemma_toml_to_nix_wf(a[i]);
            }
            crate::value::lemma_list_wf(toml_list_to_nix(a));
        },
        TomlTree::Table(es) => {
            let m = toml_entries_to_nix(es);
            lemma_toml_entries_to_nix(es);
            lemma_attrs_from(m);
            assert forall|i: int| 0 <= i < attrs_from(m).len() implies #[trigger] nix_wf(attrs_from(m)[i].1) by {
                let k = choose|k: int| 0 <= k < m.len() && m[k] == attrs_from(m)[i];
                lemma_toml_to_nix_wf(es[k].1);
            }
            crate::value::lemma_entries_wf(attrs_from(m));
        },
        _ => {},
    }
}

/// The Nix value of `t` (see `toml_to_nix_tree`).
pub fn toml_to_nix(t: &Toml) -> (r: NixValue)
    ensures
        r@ == toml_to_nix_tree(t@),
        r.wf(),
    decreases t@,
{
    proof {
        lemma_toml_to_nix_wf(t@);
    }
    match t {
        Toml::String(s) => NixValue::String(s.clone()),
        Toml::Integer(i) => NixValue::Int(*i),
        Toml::Float(f) => NixValue::Float(*f),
        Toml::Boolean(b) => NixValue::Bool(*b),
        Toml::Datetime(d) => NixValue::String(d.clone()),
        Toml::Array(a) => {
            proof {
                lemma_toml_list_view(a@);
            }
            let mut out: Vec<NixValue> = Vec::new();
            let mut i: usize = 0;
            while i < a.len()
                invariant
                    *t == Toml::Array(*a),
                    i <= a@.len(),
                    out@.len() == i,
                    toml_list_view(a@).len() == a@.len(),
                    forall|k: int| 0 <= k < a@.len() ==> #[trigger] toml_list_view(a@)[k] == a@[k]@,
                    forall|k: int|
                        0 <= k < i ==> #[trigger] out@[k]@ == toml_to_nix_tree(toml_list_view(a@)[k]),
                decreases a@.len() - i,
            {
                proof {
                    assert(t@ == TomlTree::Array(toml_list_view(a@)));
                    assert(decreases_to!(t@ => t@->Array_0));
                    assert(decreases_to!(t@->Array_0 => t@->Array_0[i as int]));
                }
                let x = toml_to_nix(&a[i]);
                out.push(x);
                i = i + 1;
            }
            proof {
                lemma_list_view(out@);
                lemma_toml_list_to_nix(toml_list_view(a@));
                assert forall|k: int| 0 <= k < out@.len() implies #[trigger] list_view(out@)[k]
                    == toml_list_to_nix(toml_list_view(a@))[k] by {
                    assert(out@[k]@ == toml_to_nix_tree(toml_list_view(a@)[k]));
                }
                assert(list_view(out@) =~= toml_list_to_nix(toml_list_view(a@)));
            }
            NixValue::List(out)
        },
        Toml::Table(es) => {
            let ghost m = toml_entries_to_nix(toml_entries_view(es@));
            proof {
                lemma_toml_entries_view(es@);
                lemma_toml_entries_to_nix(toml_entries_view(es@));
                assert(m.take(0) =~= Seq::<(Seq<char>, NixV)>::empty());
            }
            let mut out: Vec<(String, NixValue)> = Vec::new();
            let mut i: usize = 0;
            while i < es.len()
                invariant
                    *t == Toml::Table(*es),
                    m == toml_entries_to_nix(toml_entries_view(es@)),
                    i <= es@.len(),
                    m.len() == es@.len(),
                    toml_entries_view(es@).len() == es@.len(),
                    forall|k: int|
                        0 <= k < es@.len() ==> #[trigger] toml_entries_view(es@)[k] == (
                            es@[k].0@,
                            es@[k].1@,
                        ),
                    forall|k: int|
                        0 <= k < es@.len() ==> #[trigger] m[k] == (
                            toml_entries_view(es@)[k].0,
                            toml_to_nix_tree(toml_entries_view(es@)[k].1),
                        ),
                    attrs_view(out@) == attrs_from(m.take(i as int)),
                    keys_sorted(attrs_view(out@)),
                decreases es@.len() - i,
            {
                proof {
                    assert(t@ == TomlTree::Table(toml_entries_view(es@)));
                    assert(decreases_to!(t@ => t@->Table_0));
                    assert(decreases_to!(t@->Table_0 => t@->Table_0[i as int]));
                    assert(decreases_to!(t@->Table_0[i as int] => t@->Table_0[i as int].1));
                }
                let x = toml_to_nix(&es[i].1);
                let key = es[i].0.clone();
                proof {
                    lemma_attrs_from(m.take(i as int));
                }
                attrs_insert_entry(&mut out, key, x);
                proof {
                    assert(m.take(i + 1).drop_last() =~= m.take(i as int));
                    assert(m.take(i + 1).last() == m[i as int]);
                    lemma_attrs_from(m.take(i + 1));
                }
                i = i + 1;
            }
            proof {
                assert(m.take(i as int) =~= m);
            }
            NixValue::Attrs(out)
        },
    }
}

// ---------------------------------------------------------------------------
// Properties of every node of a TOML value.
/// Every node of `t` satisfies `p`.
pub open spec fn toml_all(t: TomlTree, p: spec_fn(TomlTree) -> bool) -> bool
    decreases t,
{
    p(t) && match t {
        TomlTree::Array(a) => toml_list_all(a, p),
        TomlTree::Table(es) => toml_entries_all(es, p),
        _ => true,
    }
}

pub open spec fn toml_list_all(s: Seq<TomlTree>, p: spec_fn(TomlTree) -> bool) -> bool
    decreases s,
{
    if s.len() == 0 {
        true
    } else {
        toml_list_all(s.drop_last(), p) && toml_all(s.last(), p)
    }
}

pub open spec fn toml_entries_all(s: Seq<(Seq<char>, TomlTree)>, p: spec_fn(TomlTree) -> bool) -> bool
    decreases s,
{
    if s.len() == 0 {
        true
    } else {
        proof {
            assert(decreases_to!(s => s[s.len() - 1]));
        }
        toml_entries_all(s.drop_last(), p) && toml_all(s.last().1, p)
    }
}

pub proof fn lemma_toml_list_all(s: Seq<TomlTree>, p: spec_fn(TomlTree) -> bool)
    ensures
        toml_list_all(s, p) <==> forall|i: int| 0 <= i < s.len() ==> #[trigger] toml_all(s[i], p),
    decreases s.len(),
{
    if s.len() > 0 {
        lemma_toml_list_all(s.drop_last(), p);
        if !toml_list_all(s, p) {
            if !toml_all(s.last(), p) {
                assert(!toml_all(s[s.len() - 1], p));
            } else {
                let k = choose|k: int| 0 <= k < s.len() - 1 && !toml_all(#[trigger] s.drop_last()[k], p);
                assert(s.drop_last()[k] == s[k]);
            }
        } else {
            assert forall|i: int| 0 <= i < s.len() implies #[trigger] toml_all(s[i], p) by {
                if i < s.len() - 1 {
                    assert(s.drop_last()[i] == s[i]);
                }
            }
        }
    }
}

pub proof fn lemma_toml_entries_all(s: Seq<(Seq<char>, TomlTree)>, p: spec_fn(TomlTree) -> bool)
    ensures
        toml_entries_all(s, p) <==> forall|i: int| 0 <= i < s.len() ==> #[trigger] toml_all(s[i].1, p),
    decreases s.len(),
{
    if s.len() > 0 {
        lemma_toml_entries_all(s.drop_last(), p);
        if !toml_entries_all(s, p) {
            if !toml_all(s.last().1, p) {
                assert(!toml_all(s[s.len() - 1].1, p));
            } else {
                let k = choose|k: int| 0 <= k < s.len() - 1 && !toml_all(#[trigger] s.drop_last()[k].1, p);
                assert(s.drop_last()[k] == s[k]);
            }
        } else {
            assert forall|i: int| 0 <= i < s.len() implies #[trigger] toml_all(s[i].1, p) by {
                if i < s.len() - 1 {
                    assert(s.drop_last()[i] == s[i]);
                }
            }
        }
    }
}

// ---------------------------------------------------------------------------
// Round trips.
/// A node that TOML carries unchanged: no null, no function, no path.
pub open spec fn toml_exact_node(x: NixV) -> bool {
    match x {
        NixV::Null => false,
        NixV::Function(_) => false,
        NixV::Path(_, _) => false,
        _ => true,
    }
}

pub open spec fn toml_exact_pred() -> spec_fn(NixV) -> bool {
    |x: NixV| toml_exact_node(x)
}

/// `v` holds no null, no function and no path.
pub open spec fn toml_exact(v: NixV) -> bool {
    nix_all(v, toml_exact_pred())
}

/// A node as `toml` holds it: a table's names are sorted, each once.
pub open spec fn toml_valid_node(t: TomlTree) -> bool {
    t is Table ==> keys_sorted(t->Table_0)
}

pub open spec fn toml_valid_pred() -> spec_fn(TomlTree) -> bool {
    |t: TomlTree| toml_valid_node(t)
}

/// Every table in `t` has its names sorted, each once.
pub open spec fn toml_valid(t: TomlTree) -> bool {
    toml_all(t, toml_valid_pred())
}

/// A node that is not a date-time.
pub open spec fn toml_plain_node(t: TomlTree) -> bool {
    !(t is Datetime)
}

pub open spec fn toml_plain_pred() -> spec_fn(TomlTree) -> bool {
    |t: TomlTree| toml_plain_node(t)
}

/// `t` is as `toml` holds values and holds no date-time.
pub open spec fn toml_canonical(t: TomlTree) -> bool {
    toml_valid(t) && toml_all(t, toml_plain_pred())
}

/// Writing a Nix value as TOML and reading it back gives the value, when it
/// is well formed and holds no null, no function and no path. (Floats of
/// every kind survive: TOML holds NaN and the infinities.)
pub proof fn lemma_nix_toml_round_trip(v: NixV)
    requires
        nix_wf(v),
        toml_exact(v),
    ensures
        toml_to_nix_tree(nix_to_toml_tree(v)) == v,
    decreases v,
{
    match v {
        NixV::List(l) => {
            lemma_list_all(l, toml_exact_pred());
            crate::value::lemma_list_wf(l);
            let j = nix_list_to_toml(l);
            lemma_nix_list_to_toml(l);
            lemma_toml_list_to_nix(j);
            assert forall|i: int| 0 <= i < l.len() implies #[trigger] toml_list_to_nix(j)[i] == l[i] by {
                assert(decreases_to!(v => v->List_0));
                assert(decreases_to!(v->List_0 => v->List_0[i]));
                lemma_nix_toml_round_trip(l[i]);
            }
            assert(toml_list_to_nix(j) =~= l);
        },
        NixV::Attrs(es) => {
            lemma_entries_all(es, toml_exact_pred());
            crate::value::lemma_entries_wf(es);
            let j = nix_attrs_to_toml(es);
            lemma_nix_attrs_to_toml(es);
            lemma_toml_entries_to_nix(j);
            let m = toml_entries_to_nix(j);
            assert forall|i: int| 0 <= i < es.len() implies #[trigger] m[i] == es[i] by {
                assert(decreases_to!(v => v->Attrs_0));
                assert(decreases_to!(v->Attrs_0 => v->Attrs_0[i]));
                assert(decreases_to!(v->Attrs_0[i] => v->Attrs_0[i].1));
                lemma_nix_toml_round_trip(es[i].1);
            }
            assert(m =~= es);
            lemma_attrs_from_sorted(es);
        },
        _ => {},
    }
}

/// Reading a TOML value as a Nix value and writing that as TOML gives the
/// value, when it holds no date-time and each table has its names sorted,
/// each once (as `toml` keeps a table's names).
pub proof fn lemma_toml_nix_round_trip(t: TomlTree)
    requires
        toml_canonical(t),
    ensures
        nix_to_toml_tree(toml_to_nix_tree(t)) == t,
    decreases t,
{
    match t {
        TomlTree::Array(a) => {
            lemma_toml_list_all(a, toml_valid_pred());
            lemma_toml_list_all(a, toml_plain_pred());
            let n = toml_list_to_nix(a);
            lemma_toml_list_to_nix(a);
            lemma_nix_list_to_toml(n);
            assert forall|i: int| 0 <= i < a.len() implies #[trigger] nix_list_to_toml(n)[i] == a[i] by {
                assert(decreases_to!(t => t->Array_0));
                assert(decreases_to!(t->Array_0 => t->Array_0[i]));
                lemma_toml_nix_round_trip(a[i]);
            }
            assert(nix_list_to_toml(n) =~= a);
        },
        TomlTree::Table(es) => {
            lemma_toml_entries_all(es, toml_valid_pred());
            lemma_toml_entries_all(es, toml_plain_pred());
            let m = toml_entries_to_nix(es);
            lemma_toml_entries_to_nix(es);
            assert(keys_sorted(m)) by {
                assert forall|i: int, k: int| 0 <= i < k < m.len() implies crate::keys::key_lt(
                    #[trigger] m[i].0,
                    #[trigger] m[k].0,
                ) by {
                    assert(crate::keys::key_lt(es[i].0, es[k].0));
                }
            }
            lemma_attrs_from_sorted(m);
            lemma_nix_attrs_to_toml(m);
            assert forall|i: int| 0 <= i < es.len() implies #[trigger] nix_attrs_to_toml(m)[i] == es[i] by {
                assert(decreases_to!(t => t->Table_0));
                assert(decreases_to!(t->Table_0 => t->Table_0[i]));
                assert(decreases_to!(t->Table_0[i] => t->Table_0[i].1));
                lemma_toml_nix_round_trip(es[i].1);
            }
            assert(nix_attrs_to_toml(m) =~= es);
        },
        _ => {},
    }
}

} // verus!

verus! {

// ---------------------------------------------------------------------------
// What each kind of value becomes.
/// A TOML value's model is what it holds: a string or a date-time its
/// characters, an array its elements' models in order, a table its names
/// with their values' models in order.
pub proof fn lemma_toml_view_parts(t: Toml)
    ensures
        t matches Toml::String(s) ==> t@ == TomlTree::Str(s@),
        t matches Toml::Integer(i) ==> t@ == TomlTree::Integer(i),
        t matches Toml::Float(f) ==> t@ == TomlTree::Float(f),
        t matches Toml::Boolean(b) ==> t@ == TomlTree::Boolean(b),
        t matches Toml::Datetime(d) ==> t@ == TomlTree::Datetime(d@),
        t matches Toml::Array(a) ==> t@ matches TomlTree::Array(m) && m.len() == a@.len() && forall|i: int|
            0 <= i < a@.len() ==> #[trigger] m[i] == a@[i]@,
        t matches Toml::Table(es) ==> t@ matches TomlTree::Table(m) && m.len() == es@.len()
            && forall|i: int| 0 <= i < es@.len() ==> #[trigger] m[i] == (es@[i].0@, es@[i].1@),
{
    match t {
        Toml::Array(a) => lemma_toml_list_view(a@),
        Toml::Table(es) => lemma_toml_entries_view(es@),
        _ => {},
    }
}

/// What a Nix value becomes in TOML: a boolean, an integer, a float (by its
/// bit pattern) and a string stay what they are (a string with the same
/// characters); a UTF-8 path becomes its text; a list becomes the array of
/// its elements' forms, in order; an attribute set becomes the table of the
/// same names, in the same order, with their values' forms. Nothing becomes a
/// date-time.
pub proof fn lemma_nix_to_toml_parts(v: NixV)
    ensures
        v matches NixV::Bool(b) ==> nix_to_toml_tree(v) == TomlTree::Boolean(b),
        v matches NixV::Int(i) ==> nix_to_toml_tree(v) == TomlTree::Integer(i),
        v matches NixV::Float(f) ==> nix_to_toml_tree(v) == TomlTree::Float(f),
        v matches NixV::Str(s) ==> nix_to_toml_tree(v) == TomlTree::Str(s),
        v matches NixV::Path(_, p) ==> (utf8_text(p) matches Some(t) ==> nix_to_toml_tree(v)
            == TomlTree::Str(t)),
        v matches NixV::List(l) ==> nix_to_toml_tree(v) matches TomlTree::Array(a) && a.len()
            == l.len() && forall|i: int| 0 <= i < l.len() ==> #[trigger] a[i] == nix_to_toml_tree(l[i]),
        v matches NixV::Attrs(es) ==> nix_to_toml_tree(v) matches TomlTree::Table(ts) && ts.len()
            == es.len() && forall|i: int|
            0 <= i < es.len() ==> #[trigger] ts[i] == (es[i].0, nix_to_toml_tree(es[i].1)),
        !(nix_to_toml_tree(v) is Datetime),
{
    match v {
        NixV::List(l) => lemma_nix_list_to_toml(l),
        NixV::Attrs(es) => lemma_nix_attrs_to_toml(es),
        _ => {},
    }
}

/// What a TOML value becomes as a Nix value: a string stays that string (the
/// same characters), a date-time becomes exactly its text, an integer, a
/// float (by its bit pattern) and a boolean stay what they are; an array
/// becomes the list of its elements' values, in order; a table becomes the
/// attribute set built from its names, in order, with their values' values
/// (see `attrs_from`).
pub proof fn lemma_toml_to_nix_parts(t: TomlTree)
    ensures
        t matches TomlTree::Str(s) ==> toml_to_nix_tree(t) == NixV::Str(s),
        t matches TomlTree::Datetime(d) ==> toml_to_nix_tree(t) == NixV::Str(d),
        t matches TomlTree::Integer(i) ==> toml_to_nix_tree(t) == NixV::Int(i),
        t matches TomlTree::Float(f) ==> toml_to_nix_tree(t) == NixV::Float(f),
        t matches TomlTree::Boolean(b) ==> toml_to_nix_tree(t) == NixV::Bool(b),
        t matches TomlTree::Array(a) ==> toml_to_nix_tree(t) matches NixV::List(l) && l.len()
            == a.len() && forall|i: int| 0 <= i < a.len() ==> #[trigger] l[i] == toml_to_nix_tree(a[i]),
        t matches TomlTree::Table(es) ==> toml_to_nix_tree(t) == NixV::Attrs(
            attrs_from(Seq::new(es.len(), |i: int| (es[i].0, toml_to_nix_tree(es[i].1)))),
        ),
{
    match t {
        TomlTree::Array(a) => lemma_toml_list_to_nix(a),
        TomlTree::Table(es) => {
            lemma_toml_entries_to_nix(es);
            assert(toml_entries_to_nix(es) =~= Seq::new(
                es.len(),
                |i: int| (es[i].0, toml_to_nix_tree(es[i].1)),
            ));
        },
        _ => {},
    }
}

} // verus!
