//! The Nix value model.
use vstd::prelude::*;
use crate::keys::{key_lt, lemma_key_lt_transitive, lemma_key_trichotomy, key_less, lemma_key_lt_irreflexive};

verus! {

/// A handle to a value that stays inside the Nix evaluator (the value behind
/// a path, or a function); `id` is the evaluator's number for it.
#[derive(Clone, Copy, Debug, PartialEq, Eq, Structural)]
pub struct NixRef {
    pub id: u32,
}

/// A Nix value.
///
/// `Float` holds the IEEE-754 bit pattern of a 64-bit float. `Path` holds the
/// path as the bytes that the system gives for it (not always UTF-8). `Attrs` holds the
/// attribute set's entries sorted by name, each name once (see `wf`).
#[derive(Debug, PartialEq)]
pub enum NixValue {
    Null,
    Bool(bool),
    Int(i64),
    Float(u64),
    String(String),
    Path(NixRef, Vec<u8>),
    Attrs(Vec<(String, NixValue)>),
    List(Vec<NixValue>),
    Function(NixRef),
}

/// The mathematical model of a `NixValue`.
pub enum NixV {
    Null,
    Bool(bool),
    Int(i64),
    Float(u64),
    Str(Seq<char>),
    Path(u32, Seq<u8>),
    Attrs(Seq<(Seq<char>, NixV)>),
    List(Seq<NixV>),
    Function(u32),
}

pub open spec fn nix_view(v: NixValue) -> NixV
    decreases v,
{
    match v {
        NixValue::Null => NixV::Null,
        NixValue::Bool(b) => NixV::Bool(b),
        NixValue::Int(i) => NixV::Int(i),
        NixValue::Float(f) => NixV::Float(f),
        NixValue::String(s) => NixV::Str(s@),
        NixValue::Path(r, p) => NixV::Path(r.id, p@),
        NixValue::Attrs(es) => NixV::Attrs(attrs_view(es@)),
        NixValue::List(l) => NixV::List(list_view(l@)),
        NixValue::Function(r) => NixV::Function(r.id),
    }
}

pub open spec fn list_view(s: Seq<NixValue>) -> Seq<NixV>
    decreases s,
{
    if s.len() == 0 {
        Seq::empty()
    } else {
        list_view(s.drop_last()).push(nix_view(s.last()))
    }
}

pub open spec fn attrs_view(s: Seq<(String, NixValue)>) -> Seq<(Seq<char>, NixV)>
    decreases s,
{
    if s.len() == 0 {
        Seq::empty()
    } else {
        proof {
            assert(decreases_to!(s => s[s.len() - 1]));
        }
        attrs_view(s.drop_last()).push((s.last().0@, nix_view(s.last().1)))
    }
}

pub broadcast proof fn lemma_list_view(s: Seq<NixValue>)
    ensures
        #[trigger] list_view(s).len() == s.len(),
        forall|i: int| 0 <= i < s.len() ==> #[trigger] list_view(s)[i] == nix_view(s[i]),
    decreases s.len(),
{
    if s.len() > 0 {
        lemma_list_view(s.drop_last());
    }
}

pub broadcast proof fn lemma_attrs_view(s: Seq<(String, NixValue)>)
    ensures
        #[trigger] attrs_view(s).len() == s.len(),
        forall|i: int|
            0 <= i < s.len() ==> #[trigger] attrs_view(s)[i] == (s[i].0@, nix_view(s[i].1)),
    decreases s.len(),
{
    if s.len() > 0 {
        lemma_attrs_view(s.drop_last());
    }
}

impl View for NixValue {
    type V = NixV;

    open spec fn view(&self) -> NixV {
        nix_view(*self)
    }
}

/// The names of `es` are strictly increasing.
pub open spec fn keys_sorted<V>(es: Seq<(Seq<char>, V)>) -> bool {
    forall|i: int, j: int| 0 <= i < j < es.len() ==> key_lt(#[trigger] es[i].0, #[trigger] es[j].0)
}

/// A node whose names, if it is an attribute set, are sorted, each once.
pub open spec fn wf_node(x: NixV) -> bool {
    x is Attrs ==> keys_sorted(x->Attrs_0)
}

pub open spec fn wf_pred() -> spec_fn(NixV) -> bool {
    |x: NixV| wf_node(x)
}

/// Every attribute set inside `v` has its names sorted, each name once.
pub open spec fn nix_wf(v: NixV) -> bool {
    nix_all(v, wf_pred())
}

/// A list is well formed when its elements are.
pub proof fn lemma_list_wf(s: Seq<NixV>)
    ensures
        nix_wf(NixV::List(s)) <==> forall|i: int| 0 <= i < s.len() ==> #[trigger] nix_wf(s[i]),
{
    lemma_list_all(s, wf_pred());
    assert(wf_pred()(NixV::List(s)));
    if forall|i: int| 0 <= i < s.len() ==> #[trigger] nix_wf(s[i]) {
        assert forall|i: int| 0 <= i < s.len() implies #[trigger] nix_all(s[i], wf_pred()) by {
            assert(nix_wf(s[i]));
        }
    }
    if nix_wf(NixV::List(s)) {
        assert forall|i: int| 0 <= i < s.len() implies #[trigger] nix_wf(s[i]) by {
            assert(nix_all(s[i], wf_pred()));
        }
    }
}

/// An attribute set is well formed when its names are sorted, each once, and
/// its values are well formed.
pub proof fn lemma_entries_wf(s: Seq<(Seq<char>, NixV)>)
    ensures
        nix_wf(NixV::Attrs(s)) <==> keys_sorted(s) && forall|i: int|
            0 <= i < s.len() ==> #[trigger] nix_wf(s[i].1),
{
    lemma_entries_all(s, wf_pred());
    assert(wf_pred()(NixV::Attrs(s)) == keys_sorted(s));
    if forall|i: int| 0 <= i < s.len() ==> #[trigger] nix_wf(s[i].1) {
        assert forall|i: int| 0 <= i < s.len() implies #[trigger] nix_all(s[i].1, wf_pred()) by {
            assert(nix_wf(s[i].1));
        }
    }
    if nix_wf(NixV::Attrs(s)) {
        assert forall|i: int| 0 <= i < s.len() implies #[trigger] nix_wf(s[i].1) by {
            assert(nix_all(s[i].1, wf_pred()));
        }
    }
}

/// Every node of `v` (`v` itself, and the nodes of its elements and entries)
/// satisfies `p`.
pub open spec fn nix_all(v: NixV, p: spec_fn(NixV) -> bool) -> bool
    decreases v,
{
    p(v) && match v {
        NixV::List(l) => list_all(l, p),
        NixV::Attrs(es) => entries_all(es, p),
        _ => true,
    }
}

pub open spec fn list_all(s: Seq<NixV>, p: spec_fn(NixV) -> bool) -> bool
    decreases s,
{
    if s.len() == 0 {
        true
    } else {
        list_all(s.drop_last(), p) && nix_all(s.last(), p)
    }
}

pub open spec fn entries_all(s: Seq<(Seq<char>, NixV)>, p: spec_fn(NixV) -> bool) -> bool
    decreases s,
{
    if s.len() == 0 {
        true
    } else {
        proof {
            assert(decreases_to!(s => s[s.len() - 1]));
        }
        entries_all(s.drop_last(), p) && nix_all(s.last().1, p)
    }
}

pub proof fn lemma_list_all(s: Seq<NixV>, p: spec_fn(NixV) -> bool)
    ensures
        list_all(s, p) <==> forall|i: int| 0 <= i < s.len() ==> #[trigger] nix_all(s[i], p),
    decreases s.len(),
{
    if s.len() > 0 {
        lemma_list_all(s.drop_last(), p);
        if !list_all(s, p) {
            if !nix_all(s.last(), p) {
                assert(!nix_all(s[s.len() - 1], p));
            } else {
                let k = choose|k: int| 0 <= k < s.len() - 1 && !nix_all(#[trigger] s.drop_last()[k], p);
                assert(s.drop_last()[k] == s[k]);
            }
        } else {
            assert forall|i: int| 0 <= i < s.len() implies #[trigger] nix_all(s[i], p) by {
                if i < s.len() - 1 {
                    assert(s.drop_last()[i] == s[i]);
                }
            }
        }
    }
}

pub proof fn lemma_entries_all(s: Seq<(Seq<char>, NixV)>, p: spec_fn(NixV) -> bool)
    ensures
        entries_all(s, p) <==> forall|i: int| 0 <= i < s.len() ==> #[trigger] nix_all(s[i].1, p),
    decreases s.len(),
{
    if s.len() > 0 {
        lemma_entries_all(s.drop_last(), p);
        if !entries_all(s, p) {
            if !nix_all(s.last().1, p) {
                assert(!nix_all(s[s.len() - 1].1, p));
            } else {
                let k = choose|k: int| 0 <= k < s.len() - 1 && !nix_all(#[trigger] s.drop_last()[k].1, p);
                assert(s.drop_last()[k] == s[k]);
            }
        } else {
            assert forall|i: int| 0 <= i < s.len() implies #[trigger] nix_all(s[i].1, p) by {
                if i < s.len() - 1 {
                    assert(s.drop_last()[i] == s[i]);
                }
            }
        }
    }
}

impl NixValue {
    /// The value is well formed: see `nix_wf`.
    pub open spec fn wf(&self) -> bool {
        nix_wf(self@)
    }
}

// ---------------------------------------------------------------------------
// Attribute sets: what inserting into and building them does.
/// `es` with `(k, v)` inserted: an entry named `k` has its value replaced, or
/// the entry goes before the first name that sorts after `k`.
pub open spec fn attrs_insert(es: Seq<(Seq<char>, NixV)>, k: Seq<char>, v: NixV) -> Seq<
    (Seq<char>, NixV),
>
    decreases es.len(),
{
    if es.len() == 0 {
        seq![(k, v)]
    } else if es[0].0 == k {
        seq![(k, v)] + es.drop_first()
    } else if key_lt(k, es[0].0) {
        seq![(k, v)] + es
    } else {
        seq![es[0]] + attrs_insert(es.drop_first(), k, v)
    }
}

/// The attribute set built from `es` in order, a later entry replacing an
/// earlier one of the same name.
pub open spec fn attrs_from(es: Seq<(Seq<char>, NixV)>) -> Seq<(Seq<char>, NixV)>
    decreases es.len(),
{
    if es.len() == 0 {
        Seq::empty()
    } else {
        attrs_insert(attrs_from(es.drop_last()), es.last().0, es.last().1)
    }
}

/// The value of the entry named `k`, if there is one.
pub open spec fn attrs_get(es: Seq<(Seq<char>, NixV)>, k: Seq<char>) -> Option<NixV>
    decreases es.len(),
{
    if es.len() == 0 {
        None
    } else if es[0].0 == k {
        Some(es[0].1)
    } else {
        attrs_get(es.drop_first(), k)
    }
}

proof fn lemma_sorted_drop_first(es: Seq<(Seq<char>, NixV)>)
    requires
        keys_sorted(es),
        es.len() > 0,
    ensures
        keys_sorted(es.drop_first()),
        forall|j: int| 0 < j < es.len() ==> key_lt(es[0].0, #[trigger] es[j].0),
{
    assert forall|i: int, j: int| 0 <= i < j < es.drop_first().len() implies key_lt(
        #[trigger] es.drop_first()[i].0,
        #[trigger] es.drop_first()[j].0,
    ) by {
        assert(es.drop_first()[i] == es[i + 1]);
        assert(es.drop_first()[j] == es[j + 1]);
    }
    assert forall|j: int| 0 < j < es.len() implies key_lt(es[0].0, #[trigger] es[j].0) by {
        assert(key_lt(es[0].0, es[j].0));
    }
}

proof fn lemma_sorted_cons(e: (Seq<char>, NixV), es: Seq<(Seq<char>, NixV)>)
    requires
        keys_sorted(es),
        forall|j: int| 0 <= j < es.len() ==> key_lt(e.0, #[trigger] es[j].0),
    ensures
        keys_sorted(seq![e] + es),
{
    let s = seq![e] + es;
    assert forall|i: int, j: int| 0 <= i < j < s.len() implies key_lt(
        #[trigger] s[i].0,
        #[trigger] s[j].0,
    ) by {
        if i == 0 {
            assert(s[j] == es[j - 1]);
        } else {
            assert(s[i] == es[i - 1]);
            assert(s[j] == es[j - 1]);
        }
    }
}

/// Inserting keeps the names sorted; every entry of the result is the new one
/// or one of `es`; the new entry is in the result.
pub proof fn lemma_attrs_insert(es: Seq<(Seq<char>, NixV)>, k: Seq<char>, v: NixV)
    requires
        keys_sorted(es),
    ensures
        keys_sorted(attrs_insert(es, k, v)),
        forall|j: int|
            0 <= j < attrs_insert(es, k, v).len() ==> #[trigger] attrs_insert(es, k, v)[j] == (
            k,
            v,
        ) || es.contains(attrs_insert(es, k, v)[j]),
        attrs_insert(es, k, v).contains((k, v)),
    decreases es.len(),
{
    let r = attrs_insert(es, k, v);
    if es.len() == 0 {
        assert(r[0] == (k, v));
    } else {
        lemma_sorted_drop_first(es);
        let e0 = es[0];
        lemma_key_trichotomy(k, e0.0);
        if e0.0 == k {
            assert(r[0] == (k, v));
            assert forall|j: int| 0 <= j < es.drop_first().len() implies key_lt(
                k,
                #[trigger] es.drop_first()[j].0,
            ) by {
                assert(es.drop_first()[j] == es[j + 1]);
            }
            lemma_sorted_cons((k, v), es.drop_first());
            assert forall|j: int| 0 < j < r.len() implies es.contains(#[trigger] r[j]) by {
                assert(r[j] == es[j]);
            }
        } else if key_lt(k, e0.0) {
            assert(r[0] == (k, v));
            assert forall|j: int| 0 <= j < es.len() implies key_lt(k, #[trigger] es[j].0) by {
                if j > 0 {
                    lemma_key_lt_transitive(k, e0.0, es[j].0);
                }
            }
            lemma_sorted_cons((k, v), es);
            assert forall|j: int| 0 < j < r.len() implies es.contains(#[trigger] r[j]) by {
                assert(r[j] == es[j - 1]);
            }
        } else {
            let rest = es.drop_first();
            lemma_attrs_insert(rest, k, v);
            let ri = attrs_insert(rest, k, v);
            assert(r == seq![e0] + ri);
            assert forall|j: int| 0 <= j < ri.len() implies key_lt(e0.0, #[trigger] ri[j].0) by {
                if ri[j] == (k, v) {
                } else {
                    let m = choose|m: int| 0 <= m < rest.len() && rest[m] == ri[j];
                    assert(rest[m] == es[m + 1]);
                }
            }
            lemma_sorted_cons(e0, ri);
            assert forall|j: int|
                0 <= j < r.len() && r[j] != (k, v) implies es.contains(#[trigger] r[j]) by {
                if j == 0 {
                    assert(es[0] == r[j]);
                } else {
                    assert(r[j] == ri[j - 1]);
                    let m = choose|m: int| 0 <= m < rest.len() && rest[m] == ri[j - 1];
                    assert(es[m + 1] == r[j]);
                }
            }
            let m = choose|m: int| 0 <= m < ri.len() && ri[m] == (k, v);
            assert(r[m + 1] == (k, v));
        }
    }
}

/// Reading after an insert: the name inserted gives the value inserted, every
/// other name gives what it gave before.
pub proof fn lemma_attrs_get_insert(
    es: Seq<(Seq<char>, NixV)>,
    k: Seq<char>,
    v: NixV,
    k2: Seq<char>,
)
    ensures
        attrs_get(attrs_insert(es, k, v), k) == Some(v),
        k2 != k ==> attrs_get(attrs_insert(es, k, v), k2) == attrs_get(es, k2),
    decreases es.len(),
{
    let r = attrs_insert(es, k, v);
    if es.len() == 0 {
        assert(r[0] == (k, v));
        assert(r.drop_first() =~= Seq::<(Seq<char>, NixV)>::empty());
        assert(attrs_get(r.drop_first(), k2) == None::<NixV>);
    } else if es[0].0 == k {
        assert(r[0] == (k, v));
        assert(r.drop_first() =~= es.drop_first());
    } else if key_lt(k, es[0].0) {
        assert(r[0] == (k, v));
        assert(r.drop_first() =~= es);
    } else {
        lemma_attrs_get_insert(es.drop_first(), k, v, k2);
        assert(r[0] == es[0]);
        assert(r.drop_first() =~= attrs_insert(es.drop_first(), k, v));
        if k2 != k && es[0].0 != k2 {
            assert(attrs_get(r, k2) == attrs_get(r.drop_first(), k2));
            assert(attrs_get(es, k2) == attrs_get(es.drop_first(), k2));
        }
    }
}

/// Inserting a name that sorts after every name of `es` appends the entry.
proof fn lemma_attrs_insert_last(es: Seq<(Seq<char>, NixV)>, k: Seq<char>, v: NixV)
    requires
        forall|j: int| 0 <= j < es.len() ==> key_lt(#[trigger] es[j].0, k),
    ensures
        attrs_insert(es, k, v) == es.push((k, v)),
    decreases es.len(),
{
    if es.len() > 0 {
        lemma_key_trichotomy(es[0].0, k);
        assert forall|j: int| 0 <= j < es.drop_first().len() implies key_lt(
            #[trigger] es.drop_first()[j].0,
            k,
        ) by {
            assert(es.drop_first()[j] == es[j + 1]);
        }
        lemma_attrs_insert_last(es.drop_first(), k, v);
        assert(seq![es[0]] + es.drop_first().push((k, v)) =~= es.push((k, v)));
    } else {
        assert(seq![(k, v)] =~= es.push((k, v)));
    }
}

/// Building an attribute set from entries already sorted gives them back.
pub proof fn lemma_attrs_from_sorted(es: Seq<(Seq<char>, NixV)>)
    requires
        keys_sorted(es),
    ensures
        attrs_from(es) == es,
    decreases es.len(),
{
    if es.len() > 0 {
        let init = es.drop_last();
        assert(keys_sorted(init)) by {
            assert forall|i: int, j: int| 0 <= i < j < init.len() implies key_lt(
                #[trigger] init[i].0,
                #[trigger] init[j].0,
            ) by {
                assert(init[i] == es[i] && init[j] == es[j]);
            }
        }
        lemma_attrs_from_sorted(init);
        assert forall|j: int| 0 <= j < init.len() implies key_lt(
            #[trigger] init[j].0,
            es.last().0,
        ) by {
            assert(init[j] == es[j]);
        }
        lemma_attrs_insert_last(init, es.last().0, es.last().1);
        assert(init.push(es.last()) =~= es);
    }
}

/// A built attribute set has its names sorted, and each of its entries is one
/// of the entries it was built from.
pub proof fn lemma_attrs_from(es: Seq<(Seq<char>, NixV)>)
    ensures
        keys_sorted(attrs_from(es)),
        forall|j: int|
            0 <= j < attrs_from(es).len() ==> es.contains(#[trigger] attrs_from(es)[j]),
    decreases es.len(),
{
    if es.len() > 0 {
        let init = es.drop_last();
        lemma_attrs_from(init);
        let a = attrs_from(init);
        lemma_attrs_insert(a, es.last().0, es.last().1);
        assert forall|j: int| 0 <= j < attrs_from(es).len() implies es.contains(
            #[trigger] attrs_from(es)[j],
        ) by {
            let x = attrs_from(es)[j];
            if x == (es.last().0, es.last().1) {
                assert(es[es.len() - 1] == x);
            } else {
                let m = choose|m: int| 0 <= m < a.len() && a[m] == x;
                let n = choose|n: int| 0 <= n < init.len() && init[n] == a[m];
                assert(es[n] == x);
            }
        }
    } else {
        assert(keys_sorted(attrs_from(es)));
    }
}

/// The value of the last entry named `k` in `es`, if there is one.
pub open spec fn last_value(es: Seq<(Seq<char>, NixV)>, k: Seq<char>) -> Option<NixV>
    decreases es.len(),
{
    if es.len() == 0 {
        None
    } else if es.last().0 == k {
        Some(es.last().1)
    } else {
        last_value(es.drop_last(), k)
    }
}

/// In an attribute set built from entries, each name gives the value of its
/// last entry; a name without entries gives nothing.
pub proof fn lemma_attrs_from_get(es: Seq<(Seq<char>, NixV)>, k: Seq<char>)
    ensures
        attrs_get(attrs_from(es), k) == last_value(es, k),
    decreases es.len(),
{
    if es.len() > 0 {
        lemma_attrs_from_get(es.drop_last(), k);
        lemma_attrs_get_insert(attrs_from(es.drop_last()), es.last().0, es.last().1, k);
    }
}

// ---------------------------------------------------------------------------
// Executable attribute-set operations.
/// Inserts `(key, value)` into the sorted entries `es`, as `BTreeMap::insert`
/// does: a present name gets the new value, a new name is put in its place.
pub fn attrs_insert_entry(es: &mut Vec<(String, NixValue)>, key: String, value: NixValue)
    requires
        keys_sorted(attrs_view(old(es)@)),
    ensures
        attrs_view(final(es)@) == attrs_insert(attrs_view(old(es)@), key@, value@),
        keys_sorted(attrs_view(final(es)@)),
{
    broadcast use lemma_attrs_view;

    let ghost s = attrs_view(es@);
    let ghost kv = key@;
    let ghost vv = value@;
    let mut i: usize = 0;
    while i < es.len() && key_less(es[i].0.as_str(), key.as_str())
        invariant
            i <= es@.len(),
            s == attrs_view(es@),
            s.len() == es@.len(),
            kv == key@,
            keys_sorted(s),
            forall|j: int| 0 <= j < i ==> key_lt(#[trigger] s[j].0, kv),
        decreases es@.len() - i,
    {
        proof {
            lemma_attrs_view(es@);
        }
        assert(s[i as int].0 == es@[i as int].0@);
        i = i + 1;
    }
    proof {
        if i < es@.len() {
            assert(s[i as int].0 == es@[i as int].0@);
        }
        lemma_insert_position(s, kv, vv, i as int);
        lemma_attrs_insert(s, kv, vv);
    }
    if i < es.len() && es[i].0 == key {
        es.set(i, (key, value));
        assert(attrs_view(es@) =~= s.take(i as int) + seq![(kv, vv)] + s.skip(i + 1));
    } else {
        es.insert(i, (key, value));
        assert(attrs_view(es@) =~= s.take(i as int) + seq![(kv, vv)] + s.skip(i as int));
    }
}

/// Where `attrs_insert` puts the entry: `i` is the first position whose name
/// does not sort before `k`.
proof fn lemma_insert_position(s: Seq<(Seq<char>, NixV)>, k: Seq<char>, v: NixV, i: int)
    requires
        keys_sorted(s),
        0 <= i <= s.len(),
        forall|j: int| 0 <= j < i ==> key_lt(#[trigger] s[j].0, k),
        i < s.len() ==> !key_lt(s[i].0, k),
    ensures
        i < s.len() && s[i].0 == k ==> attrs_insert(s, k, v) == s.take(i) + seq![(k, v)] + s.skip(
            i + 1,
        ),
        !(i < s.len() && s[i].0 == k) ==> attrs_insert(s, k, v) == s.take(i) + seq![(k, v)]
            + s.skip(i),
    decreases i,
{
    if i == 0 {
        if s.len() > 0 {
            lemma_key_trichotomy(s[0].0, k);
            assert(s.take(0) + seq![(k, v)] + s.skip(1) =~= seq![(k, v)] + s.drop_first());
            assert(s.take(0) + seq![(k, v)] + s.skip(0) =~= seq![(k, v)] + s);
        } else {
            assert(s.take(0) + seq![(k, v)] + s.skip(0) =~= seq![(k, v)]);
        }
    } else {
        lemma_key_trichotomy(s[0].0, k);
        lemma_sorted_drop_first(s);
        let rest = s.drop_first();
        assert forall|j: int| 0 <= j < i - 1 implies key_lt(#[trigger] rest[j].0, k) by {
            assert(rest[j] == s[j + 1]);
        }
        if i < s.len() {
            assert(rest[i - 1] == s[i]);
        }
        lemma_insert_position(rest, k, v, i - 1);
        if i < s.len() {
            assert(seq![s[0]] + (rest.take(i - 1) + seq![(k, v)] + rest.skip(i)) =~= s.take(i)
                + seq![(k, v)] + s.skip(i + 1));
        }
        assert(seq![s[0]] + (rest.take(i - 1) + seq![(k, v)] + rest.skip(i - 1)) =~= s.take(i)
            + seq![(k, v)] + s.skip(i));
    }
}

// ---------------------------------------------------------------------------
// Building values.
impl From<()> for NixValue {
    fn from(v: ()) -> (r: NixValue) {
        NixValue::Null
    }
}

impl vstd::std_specs::convert::FromSpecImpl<()> for NixValue {
    open spec fn obeys_from_spec() -> bool {
        true
    }

    open spec fn from_spec(v: ()) -> NixValue {
        NixValue::Null
    }
}

impl From<bool> for NixValue {
    fn from(v: bool) -> (r: NixValue) {
        NixValue::Bool(v)
    }
}

impl vstd::std_specs::convert::FromSpecImpl<bool> for NixValue {
    open spec fn obeys_from_spec() -> bool {
        true
    }

    open spec fn from_spec(v: bool) -> NixValue {
        NixValue::Bool(v)
    }
}

impl From<i8> for NixValue {
    fn from(v: i8) -> (r: NixValue) {
        NixValue::Int(v as i64)
    }
}

impl vstd::std_specs::convert::FromSpecImpl<i8> for NixValue {
    open spec fn obeys_from_spec() -> bool {
        true
    }

    open spec fn from_spec(v: i8) -> NixValue {
        NixValue::Int(v as i64)
    }
}

impl From<i16> for NixValue {
    fn from(v: i16) -> (r: NixValue) {
        NixValue::Int(v as i64)
    }
}

impl vstd::std_specs::convert::FromSpecImpl<i16> for NixValue {
    open spec fn obeys_from_spec() -> bool {
        true
    }

    open spec fn from_spec(v: i16) -> NixValue {
        NixValue::Int(v as i64)
    }
}

impl From<i32> for NixValue {
    fn from(v: i32) -> (r: NixValue) {
        NixValue::Int(v as i64)
    }
}

impl vstd::std_specs::convert::FromSpecImpl<i32> for NixValue {
    open spec fn obeys_from_spec() -> bool {
        true
    }

    open spec fn from_spec(v: i32) -> NixValue {
        NixValue::Int(v as i64)
    }
}

impl From<i64> for NixValue {
    fn from(v: i64) -> (r: NixValue) {
        NixValue::Int(v)
    }
}

impl vstd::std_specs::convert::FromSpecImpl<i64> for NixValue {
    open spec fn obeys_from_spec() -> bool {
        true
    }

    open spec fn from_spec(v: i64) -> NixValue {
        NixValue::Int(v)
    }
}

impl From<u8> for NixValue {
    fn from(v: u8) -> (r: NixValue) {
        NixValue::Int(v as i64)
    }
}

impl vstd::std_specs::convert::FromSpecImpl<u8> for NixValue {
    open spec fn obeys_from_spec() -> bool {
        true
    }

    open spec fn from_spec(v: u8) -> NixValue {
        NixValue::Int(v as i64)
    }
}

impl From<u16> for NixValue {
    fn from(v: u16) -> (r: NixValue) {
        NixValue::Int(v as i64)
    }
}

impl vstd::std_specs::convert::FromSpecImpl<u16> for NixValue {
    open spec fn obeys_from_spec() -> bool {
        true
    }

    open spec fn from_spec(v: u16) -> NixValue {
        NixValue::Int(v as i64)
    }
}

impl From<u32> for NixValue {
    fn from(v: u32) -> (r: NixValue) {
        NixValue::Int(v as i64)
    }
}

impl vstd::std_specs::convert::FromSpecImpl<u32> for NixValue {
    open spec fn obeys_from_spec() -> bool {
        true
    }

    open spec fn from_spec(v: u32) -> NixValue {
        NixValue::Int(v as i64)
    }
}

impl From<String> for NixValue {
    fn from(v: String) -> (r: NixValue) {
        NixValue::String(v)
    }
}

impl vstd::std_specs::convert::FromSpecImpl<String> for NixValue {
    open spec fn obeys_from_spec() -> bool {
        true
    }

    open spec fn from_spec(v: String) -> NixValue {
        NixValue::String(v)
    }
}

/// `std`'s `impl<T> From<T> for T`, which its documentation describes as
/// returning the argument unchanged. Claimed: the result is the argument.
pub assume_specification<Same>[ <Same as std::convert::From<Same>>::from ](x: Same) -> (y: Same)
    ensures
        y == x,
;

/// `y` is a value that converting `x` into a `NixValue` gives.
pub open spec fn converts<Item>(x: Item, y: NixValue) -> bool
    where Item: Into<NixValue>,
{
    call_ensures(<Item as Into<NixValue>>::into, (x,), y)
}

/// `r` is the list of the items of `v`, each converted, in their order.
pub open spec fn list_of<Item>(v: Seq<Item>, r: NixValue) -> bool
    where Item: Into<NixValue>,
{
    &&& r is List
    &&& r->List_0@.len() == v.len()
    &&& forall|i: int| 0 <= i < v.len() ==> converts(v[i], #[trigger] r->List_0@[i])
}

/// `y` is a value that converting a copy (`clone`) of `x` gives.
pub open spec fn converts_clone<Item: Clone>(x: Item, y: NixValue) -> bool
    where Item: Into<NixValue>,
{
    exists|c: Item| cloned(x, c) && converts(c, y)
}

/// `r` is the list of copies (`clone`) of the items of `v`, each converted,
/// in their order.
pub open spec fn list_of_clones<Item: Clone>(v: Seq<Item>, r: NixValue) -> bool
    where Item: Into<NixValue>,
{
    &&& r is List
    &&& r->List_0@.len() == v.len()
    &&& forall|i: int| 0 <= i < v.len() ==> converts_clone(v[i], #[trigger] r->List_0@[i])
}

/// `n` is a value that converting `k` into a `String` gives.
pub open spec fn name_converts<K>(k: K, n: String) -> bool
    where K: Into<String>,
{
    call_ensures(<K as Into<String>>::into, (k,), n)
}

/// `n` is a value that converting a copy (`clone`) of `k` into a `String`
/// gives.
pub open spec fn name_converts_clone<K: Clone>(k: K, n: String) -> bool
    where K: Into<String>,
{
    exists|c: K| cloned(k, c) && name_converts(c, n)
}

/// `es` holds the pairs of `v`, the name converted to a `String` and the value
/// to a `NixValue`.
pub open spec fn entries_of<K, Item>(v: Seq<(K, Item)>, es: Seq<(String, NixValue)>) -> bool
    where K: Into<String>, Item: Into<NixValue>,
{
    &&& es.len() == v.len()
    &&& forall|i: int|
        0 <= i < v.len() ==> name_converts(v[i].0, (#[trigger] es[i]).0) && converts(v[i].1, es[i].1)
}

/// `es` holds the pairs of `v`, copied, the name converted to a `String` and
/// the value to a `NixValue`.
pub open spec fn entries_of_clones<K: Clone, Item: Clone>(
    v: Seq<(K, Item)>,
    es: Seq<(String, NixValue)>,
) -> bool
    where K: Into<String>, Item: Into<NixValue>,
{
    &&& es.len() == v.len()
    &&& forall|i: int|
        0 <= i < v.len() ==> name_converts_clone(v[i].0, (#[trigger] es[i]).0) && converts_clone(
            v[i].1,
            es[i].1,
        )
}

/// `r` is the attribute set of the pairs of `v`, copied and converted, taken
/// in order: a later pair replaces an earlier one of the same name.
pub open spec fn attrs_of_clones<K: Clone, Item: Clone>(v: Seq<(K, Item)>, r: NixValue) -> bool
    where K: Into<String>, Item: Into<NixValue>,
{
    exists|es: Seq<(String, NixValue)>|
        entries_of_clones(v, es) && r@ == NixV::Attrs(attrs_from(#[trigger] attrs_view(es)))
}

/// `r` is the attribute set of the pairs of `v`, converted, taken in order: a
/// later pair replaces an earlier one of the same name.
pub open spec fn attrs_of<K, Item>(v: Seq<(K, Item)>, r: NixValue) -> bool
    where K: Into<String>, Item: Into<NixValue>,
{
    exists|es: Seq<(String, NixValue)>|
        entries_of(v, es) && r@ == NixV::Attrs(attrs_from(#[trigger] attrs_view(es)))
}

/// A string value holding a copy of the text.
impl<'a> From<&'a str> for NixValue {
    fn from(v: &'a str) -> (r: NixValue)
        ensures
            r@ == NixV::Str(v@),
    {
        NixValue::String(v.to_owned())
    }
}

/// What `from` gives is stated on `from` itself (its view); `from_spec` is not
/// used.
impl<'a> vstd::std_specs::convert::FromSpecImpl<&'a str> for NixValue {
    open spec fn obeys_from_spec() -> bool {
        false
    }

    open spec fn from_spec(v: &'a str) -> NixValue {
        choose|r: NixValue| r@ == NixV::Str(v@)
    }
}

/// A string value holding the text, borrowed or owned.
impl<'a> From<std::borrow::Cow<'a, str>> for NixValue {
    fn from(v: std::borrow::Cow<'a, str>) -> (r: NixValue)
        ensures
            r@ == NixV::Str(v@),
    {
        match v {
            std::borrow::Cow::Borrowed(b) => NixValue::String(b.to_owned()),
            std::borrow::Cow::Owned(o) => NixValue::String(o),
        }
    }
}

/// What `from` gives is stated on `from` itself (its view); `from_spec` is not
/// used.
impl<'a> vstd::std_specs::convert::FromSpecImpl<std::borrow::Cow<'a, str>> for NixValue {
    open spec fn obeys_from_spec() -> bool {
        false
    }

    open spec fn from_spec(v: std::borrow::Cow<'a, str>) -> NixValue {
        choose|r: NixValue| r@ == NixV::Str(v@)
    }
}

/// `None` becomes `null`; `Some(x)` becomes what `x` converts to.
impl<Item> From<Option<Item>> for NixValue
    where Item: Into<NixValue>,
{
    fn from(v: Option<Item>) -> (r: NixValue)
        ensures
            v is None ==> r == NixValue::Null,
            v matches Some(x) ==> converts(x, r),
    {
        match v {
            None => NixValue::Null,
            Some(x) => x.into(),
        }
    }
}

/// What `from` gives is stated on `from` itself, over the item's own
/// conversion; `from_spec` is not used.
impl<Item> vstd::std_specs::convert::FromSpecImpl<Option<Item>> for NixValue
    where Item: Into<NixValue>,
{
    open spec fn obeys_from_spec() -> bool {
        false
    }

    open spec fn from_spec(v: Option<Item>) -> NixValue {
        match v {
            None => NixValue::Null,
            Some(x) => choose|y: NixValue| converts(x, y),
        }
    }
}

/// A list of the items, each converted, in their order: what
/// `NixValue::list_from_vec` gives, and its contract says. The contract stands
/// there and not on this `from`: Verus would also apply a contract of this
/// impl to a vector of pairs, which the pairs conversion below takes.
impl<Item> From<Vec<Item>> for NixValue
    where Item: Into<NixValue>,
{
    fn from(v: Vec<Item>) -> (r: NixValue) {
        NixValue::list_from_vec(v)
    }
}

/// What `from` gives is stated on `NixValue::list_from_vec`; `from_spec` is
/// not used.
impl<Item> vstd::std_specs::convert::FromSpecImpl<Vec<Item>> for NixValue
    where Item: Into<NixValue>,
{
    open spec fn obeys_from_spec() -> bool {
        false
    }

    open spec fn from_spec(v: Vec<Item>) -> NixValue {
        choose|r: NixValue| list_of(v@, r)
    }
}

/// A list of copies of the items, each converted, in their order: what
/// `NixValue::list_from_slice` gives, and its contract says (it stands there
/// for the reason given at the `Vec` conversion).
impl<'a, Item: Clone> From<&'a [Item]> for NixValue
    where Item: Into<NixValue>,
{
    fn from(v: &'a [Item]) -> (r: NixValue) {
        NixValue::list_from_slice(v)
    }
}

/// What `from` gives is stated on `NixValue::list_from_slice`; `from_spec`
/// is not used.
impl<'a, Item: Clone> vstd::std_specs::convert::FromSpecImpl<&'a [Item]> for NixValue
    where Item: Into<NixValue>,
{
    open spec fn obeys_from_spec() -> bool {
        false
    }

    open spec fn from_spec(v: &'a [Item]) -> NixValue {
        choose|r: NixValue| list_of_clones(v@, r)
    }
}

impl NixValue {
    /// The list of the items of `v`, each converted, in their order.
    pub fn list_from_vec<Item>(v: Vec<Item>) -> (r: NixValue)
        where Item: Into<NixValue>,
        ensures
            list_of(v@, r),
    {
        let ghost all = v@;
        let mut out: Vec<NixValue> = Vec::new();
        for x in it: v.into_iter()
            invariant
                it.seq() == all,
                out@.len() == it.index(),
                forall|i: int| 0 <= i < out@.len() ==> converts(all[i], #[trigger] out@[i]),
        {
            let y: NixValue = x.into();
            out.push(y);
        }
        NixValue::List(out)
    }

    /// The list of copies of the items of `v`, each converted, in their
    /// order; `v` is left as it is.
    pub fn list_from_slice<Item: Clone>(v: &[Item]) -> (r: NixValue)
        where Item: Into<NixValue>,
        ensures
            list_of_clones(v@, r),
    {
        let mut out: Vec<NixValue> = Vec::new();
        let mut i: usize = 0;
        while i < v.len()
            invariant
                i <= v@.len(),
                out@.len() == i,
                forall|j: int| 0 <= j < i ==> converts_clone(v@[j], #[trigger] out@[j]),
            decreases v@.len() - i,
        {
            let ghost before = out@;
            let c = v[i].clone();
            let y: NixValue = c.into();
            out.push(y);
            assert forall|j: int| 0 <= j < i + 1 implies converts_clone(v@[j], #[trigger] out@[j]) by {
                if j < i {
                    assert(out@[j] == before[j]);
                } else {
                    assert(cloned(v@[j], c) && converts(c, out@[j]));
                }
            }
            i = i + 1;
        }
        NixValue::List(out)
    }
}

/// The attribute set of the pairs, converted, taken in order: a later pair
/// replaces an earlier one of the same name (as collecting into a `BTreeMap`
/// does).
impl<K, Item> From<Vec<(K, Item)>> for NixValue
    where K: Into<String>, Item: Into<NixValue>,
{
    fn from(v: Vec<(K, Item)>) -> (r: NixValue)
        ensures
            attrs_of(v@, r),
            r@ is Attrs && keys_sorted(r@->Attrs_0),
    {
        let ghost all = v@;
        let mut es: Vec<(String, NixValue)> = Vec::new();
        for pair in it: v.into_iter()
            invariant
                it.seq() == all,
                es@.len() == it.index(),
                forall|i: int|
                    0 <= i < es@.len() ==> name_converts(all[i].0, (#[trigger] es@[i]).0)
                        && converts(all[i].1, es@[i].1),
        {
            let (k, x) = pair;
            let name: String = k.into();
            let y: NixValue = x.into();
            es.push((name, y));
        }
        let ghost ev = es@;
        let r = NixValue::from_entries(es);
        assert(entries_of(all, ev) && r@ == NixV::Attrs(attrs_from(attrs_view(ev))));
        r
    }
}

/// What `from` gives is stated on `from` itself (`attrs_of`); `from_spec` is
/// not used.
impl<K, Item> vstd::std_specs::convert::FromSpecImpl<Vec<(K, Item)>> for NixValue
    where K: Into<String>, Item: Into<NixValue>,
{
    open spec fn obeys_from_spec() -> bool {
        false
    }

    open spec fn from_spec(v: Vec<(K, Item)>) -> NixValue {
        choose|r: NixValue| attrs_of(v@, r)
    }
}

/// The attribute set of copies of the pairs, converted, taken in order: a
/// later pair replaces an earlier one of the same name.
impl<'a, K: Clone, Item: Clone> From<&'a [(K, Item)]> for NixValue
    where K: Into<String>, Item: Into<NixValue>,
{
    fn from(v: &'a [(K, Item)]) -> (r: NixValue)
        ensures
            attrs_of_clones(v@, r),
            r@ is Attrs && keys_sorted(r@->Attrs_0),
    {
        let mut es: Vec<(String, NixValue)> = Vec::new();
        let mut i: usize = 0;
        while i < v.len()
            invariant
                i <= v@.len(),
                es@.len() == i,
                forall|j: int|
                    0 <= j < i ==> name_converts_clone(v@[j].0, (#[trigger] es@[j]).0)
                        && converts_clone(v@[j].1, es@[j].1),
            decreases v@.len() - i,
        {
            let ghost before = es@;
            let k = v[i].0.clone();
            let x = v[i].1.clone();
            let name: String = k.into();
            let y: NixValue = x.into();
            es.push((name, y));
            assert forall|j: int| 0 <= j < i + 1 implies name_converts_clone(
                v@[j].0,
                (#[trigger] es@[j]).0,
            ) && converts_clone(v@[j].1, es@[j].1) by {
                if j < i {
                    assert(es@[j] == before[j]);
                } else {
                    assert(cloned(v@[j].0, k) && name_converts(k, es@[j].0));
                    assert(cloned(v@[j].1, x) && converts(x, es@[j].1));
                }
            }
            i = i + 1;
        }
        let ghost ev = es@;
        let r = NixValue::from_entries(es);
        assert(entries_of_clones(v@, ev) && r@ == NixV::Attrs(attrs_from(attrs_view(ev))));
        r
    }
}

/// What `from` gives is stated on `from` itself (`attrs_of_clones`);
/// `from_spec` is not used.
impl<'a, K: Clone, Item: Clone> vstd::std_specs::convert::FromSpecImpl<&'a [(K, Item)]> for NixValue
    where K: Into<String>, Item: Into<NixValue>,
{
    open spec fn obeys_from_spec() -> bool {
        false
    }

    open spec fn from_spec(v: &'a [(K, Item)]) -> NixValue {
        choose|r: NixValue| attrs_of_clones(v@, r)
    }
}

impl NixValue {
    /// An integer given as `isize`; every `isize` fits a Nix integer.
    pub fn from_isize(v: isize) -> (r: NixValue)
        ensures
            r@ == NixV::Int(v as i64),
    {
        NixValue::Int(v as i64)
    }

    /// An integer given as `usize`, which must fit a Nix (64-bit signed) integer.
    pub fn from_usize(v: usize) -> (r: NixValue)
        requires
            v <= i64::MAX,
        ensures
            r@ == NixV::Int(v as i64),
    {
        NixValue::Int(v as i64)
    }

    /// An integer given as `u64`, which must fit a Nix (64-bit signed) integer.
    pub fn from_u64(v: u64) -> (r: NixValue)
        requires
            v <= i64::MAX,
        ensures
            r@ == NixV::Int(v as i64),
    {
        NixValue::Int(v as i64)
    }

    /// An integer given as `u128`, which must fit a Nix (64-bit signed) integer.
    pub fn from_u128(v: u128) -> (r: NixValue)
        requires
            v <= i64::MAX,
        ensures
            r@ == NixV::Int(v as i64),
    {
        NixValue::Int(v as i64)
    }

    /// An integer given as `i128`, which must fit a Nix (64-bit signed) integer.
    pub fn from_i128(v: i128) -> (r: NixValue)
        requires
            i64::MIN <= v <= i64::MAX,
        ensures
            r@ == NixV::Int(v as i64),
    {
        NixValue::Int(v as i64)
    }

    /// A path: the evaluator's handle of the path value and the path itself,
    /// as the bytes that the system gives for it.
    pub fn path(id: u32, path: Vec<u8>) -> (r: NixValue)
        ensures
            r@ == NixV::Path(id, path@),
    {
        NixValue::Path(NixRef { id }, path)
    }

    /// The attribute set made of `entries`, taken in order: a later entry
    /// replaces an earlier one of the same name (as collecting into a
    /// `BTreeMap` does).
    pub fn from_entries(entries: Vec<(String, NixValue)>) -> (r: NixValue)
        ensures
            r@ == NixV::Attrs(attrs_from(attrs_view(entries@))),
            r@ is Attrs ==> keys_sorted(r@->Attrs_0),
    {
        broadcast use lemma_attrs_view;

        let ghost all = attrs_view(entries@);
        let mut rest = entries;
        let mut out: Vec<(String, NixValue)> = Vec::new();
        let ghost mut i: int = 0;
        assert(all.skip(0) =~= all);
        assert(all.take(0) =~= Seq::<(Seq<char>, NixV)>::empty());
        while rest.len() > 0
            invariant
                0 <= i <= all.len(),
                attrs_view(rest@) == all.skip(i),
                rest@.len() == all.len() - i,
                attrs_view(out@) == attrs_from(all.take(i)),
                keys_sorted(attrs_view(out@)),
            decreases rest@.len(),
        {
            proof {
                lemma_attrs_from(all.take(i));
            }
            let ghost before = rest@;
            let (k, v) = rest.remove(0);
            proof {
                lemma_attrs_view(rest@);
                lemma_attrs_view(before);
                assert(all.skip(i)[0] == all[i]);
                assert(attrs_view(before)[0] == all[i]);
                assert forall|j: int| 0 <= j < rest@.len() implies #[trigger] attrs_view(rest@)[j] == all.skip(i + 1)[j] by {
                    assert(rest@[j] == before[j + 1]);
                    assert(attrs_view(before)[j + 1] == all.skip(i)[j + 1]);
                }
                assert(attrs_view(rest@) =~= all.skip(i + 1));
                assert(all.take(i + 1).drop_last() =~= all.take(i));
                assert(all.take(i + 1).last() == all[i]);
            }
            attrs_insert_entry(&mut out, k, v);
            proof {
                i = i + 1;
            }
        }
        assert(all.take(i) =~= all);
        NixValue::Attrs(out)
    }
}


impl NixValue {
    /// A copy of the value, down to its elements and entries.
    pub fn duplicate(&self) -> (r: NixValue)
        ensures
            r@ == self@,
        decreases self@,
    {
        match self {
            NixValue::Null => NixValue::Null,
            NixValue::Bool(b) => NixValue::Bool(*b),
            NixValue::Int(i) => NixValue::Int(*i),
            NixValue::Float(f) => NixValue::Float(*f),
            NixValue::String(s) => NixValue::String(s.clone()),
            NixValue::Path(r, p) => NixValue::Path(*r, p.clone()),
            NixValue::Function(r) => NixValue::Function(*r),
            NixValue::List(l) => {
                proof {
                    lemma_list_view(l@);
                }
                let mut out: Vec<NixValue> = Vec::new();
                let mut i: usize = 0;
                while i < l.len()
                    invariant
                        *self == NixValue::List(*l),
                        i <= l@.len(),
                        out@.len() == i,
                        list_view(l@).len() == l@.len(),
                        forall|j: int| 0 <= j < l@.len() ==> #[trigger] list_view(l@)[j] == l@[j]@,
                        forall|j: int| 0 <= j < i ==> #[trigger] out@[j]@ == l@[j]@,
                    decreases l@.len() - i,
                {
                    proof {
                        assert(self@ == NixV::List(list_view(l@)));
                        assert(decreases_to!(self@ => self@->List_0));
                        assert(decreases_to!(self@->List_0 => self@->List_0[i as int]));
                    }
                    let x = l[i].duplicate();
                    out.push(x);
                    i = i + 1;
                }
                proof {
                    lemma_list_view(out@);
                    assert forall|j: int| 0 <= j < out@.len() implies #[trigger] list_view(out@)[j]
                        == list_view(l@)[j] by {
                        assert(out@[j]@ == l@[j]@);
                    }
                    assert(list_view(out@) =~= list_view(l@));
                }
                NixValue::List(out)
            },
            NixValue::Attrs(es) => {
                proof {
                    lemma_attrs_view(es@);
                }
                let mut out: Vec<(String, NixValue)> = Vec::new();
                let mut i: usize = 0;
                while i < es.len()
                    invariant
                        *self == NixValue::Attrs(*es),
                        i <= es@.len(),
                        out@.len() == i,
                        attrs_view(es@).len() == es@.len(),
                        forall|j: int|
                            0 <= j < es@.len() ==> #[trigger] attrs_view(es@)[j] == (
                                es@[j].0@,
                                es@[j].1@,
                            ),
                        forall|j: int|
                            0 <= j < i ==> (#[trigger] out@[j]).0@ == es@[j].0@ && out@[j].1@
                                == es@[j].1@,
                    decreases es@.len() - i,
                {
                    proof {
                        assert(self@ == NixV::Attrs(attrs_view(es@)));
                        assert(decreases_to!(self@ => self@->Attrs_0));
                        assert(decreases_to!(self@->Attrs_0 => self@->Attrs_0[i as int]));
                        assert(decreases_to!(self@->Attrs_0[i as int] => self@->Attrs_0[i as int].1));
                    }
                    let x = es[i].1.duplicate();
                    out.push((es[i].0.clone(), x));
                    i = i + 1;
                }
                proof {
                    lemma_attrs_view(out@);
                    assert forall|j: int| 0 <= j < out@.len() implies #[trigger] attrs_view(out@)[j]
                        == attrs_view(es@)[j] by {
                        assert(out@[j].0@ == es@[j].0@);
                    }
                    assert(attrs_view(out@) =~= attrs_view(es@));
                }
                NixValue::Attrs(out)
            },
        }
    }
}

impl Clone for NixValue {
    fn clone(&self) -> (r: NixValue)
        ensures
            r@ == self@,
    {
        self.duplicate()
    }
}

} // verus!

verus! {

/// Converting a unit, a boolean, an integer of any of the widths that always
/// fit a Nix integer, or a `String` gives the value itself: `null`, the
/// boolean, the integer with the same mathematical value, the string with
/// the same characters.
pub proof fn lemma_from_keeps_value(b: bool, a: i8, c: i16, d: i32, e: i64, f: u8, g: u16, h: u32, s: String)
    ensures
        <NixValue as vstd::std_specs::convert::FromSpec<()>>::obeys_from_spec()
            && <NixValue as vstd::std_specs::convert::FromSpec<()>>::from_spec(()) == NixValue::Null,
        <NixValue as vstd::std_specs::convert::FromSpec<bool>>::obeys_from_spec()
            && <NixValue as vstd::std_specs::convert::FromSpec<bool>>::from_spec(b) == NixValue::Bool(b),
        <NixValue as vstd::std_specs::convert::FromSpec<i8>>::obeys_from_spec(),
        <NixValue as vstd::std_specs::convert::FromSpec<i8>>::from_spec(a) matches NixValue::Int(x)
            && x == a,
        <NixValue as vstd::std_specs::convert::FromSpec<i16>>::obeys_from_spec(),
        <NixValue as vstd::std_specs::convert::FromSpec<i16>>::from_spec(c) matches NixValue::Int(x)
            && x == c,
        <NixValue as vstd::std_specs::convert::FromSpec<i32>>::obeys_from_spec(),
        <NixValue as vstd::std_specs::convert::FromSpec<i32>>::from_spec(d) matches NixValue::Int(x)
            && x == d,
        <NixValue as vstd::std_specs::convert::FromSpec<i64>>::obeys_from_spec(),
        <NixValue as vstd::std_specs::convert::FromSpec<i64>>::from_spec(e) matches NixValue::Int(x)
            && x == e,
        <NixValue as vstd::std_specs::convert::FromSpec<u8>>::obeys_from_spec(),
        <NixValue as vstd::std_specs::convert::FromSpec<u8>>::from_spec(f) matches NixValue::Int(x)
            && x == f,
        <NixValue as vstd::std_specs::convert::FromSpec<u16>>::obeys_from_spec(),
        <NixValue as vstd::std_specs::convert::FromSpec<u16>>::from_spec(g) matches NixValue::Int(x)
            && x == g,
        <NixValue as vstd::std_specs::convert::FromSpec<u32>>::obeys_from_spec(),
        <NixValue as vstd::std_specs::convert::FromSpec<u32>>::from_spec(h) matches NixValue::Int(x)
            && x == h,
        <NixValue as vstd::std_specs::convert::FromSpec<String>>::obeys_from_spec(),
        <NixValue as vstd::std_specs::convert::FromSpec<String>>::from_spec(s) matches NixValue::String(t)
            && t@ == s@,
{
}

/// A Nix value's model is what it holds: the boolean, the integer, the float's
/// bit pattern, the string's characters, the path's handle and bytes, the
/// function's handle, the list's elements' models in order, the attribute
/// set's names with their values' models in order.
pub proof fn lemma_view_parts(v: NixValue)
    ensures
        v == NixValue::Null ==> v@ == NixV::Null,
        v matches NixValue::Bool(b) ==> v@ == NixV::Bool(b),
        v matches NixValue::Int(i) ==> v@ == NixV::Int(i),
        v matches NixValue::Float(f) ==> v@ == NixV::Float(f),
        v matches NixValue::String(s) ==> v@ == NixV::Str(s@),
        v matches NixValue::Path(r, p) ==> v@ == NixV::Path(r.id, p@),
        v matches NixValue::Function(r) ==> v@ == NixV::Function(r.id),
        v matches NixValue::List(l) ==> v@ matches NixV::List(m) && m.len() == l@.len() && forall|i: int|
            0 <= i < l@.len() ==> #[trigger] m[i] == l@[i]@,
        v matches NixValue::Attrs(es) ==> v@ matches NixV::Attrs(m) && m.len() == es@.len()
            && forall|i: int| 0 <= i < es@.len() ==> #[trigger] m[i] == (es@[i].0@, es@[i].1@),
{
    match v {
        NixValue::List(l) => lemma_list_view(l@),
        NixValue::Attrs(es) => lemma_attrs_view(es@),
        _ => {},
    }
}

} // verus!

verus! {

/// Entry `j` of `es` is the last one with its name.
pub open spec fn is_last_of_name(es: Seq<(Seq<char>, NixV)>, j: int) -> bool {
    &&& 0 <= j < es.len()
    &&& forall|j2: int| j < j2 < es.len() ==> #[trigger] es[j2].0 != es[j].0
}

/// In entries sorted by name, looking a name up finds exactly the entry that
/// has it.
proof fn lemma_sorted_get_contains(r: Seq<(Seq<char>, NixV)>, k: Seq<char>, v: NixV)
    requires
        keys_sorted(r),
    ensures
        attrs_get(r, k) == Some(v) <==> r.contains((k, v)),
    decreases r.len(),
{
    if r.len() > 0 {
        lemma_sorted_drop_first(r);
        lemma_sorted_get_contains(r.drop_first(), k, v);
        if r[0].0 == k {
            if r.drop_first().contains((k, v)) {
                let m = choose|m: int| 0 <= m < r.drop_first().len() && r.drop_first()[m] == (k, v);
                assert(r[m + 1] == (k, v));
                assert(key_lt(r[0].0, r[m + 1].0));
                lemma_key_lt_irreflexive(k);
            }
            if r.contains((k, v)) {
                let m = choose|m: int| 0 <= m < r.len() && r[m] == (k, v);
                if m > 0 {
                    assert(key_lt(r[0].0, r[m].0));
                    lemma_key_lt_irreflexive(k);
                }
            }
        } else {
            if r.contains((k, v)) {
                let m = choose|m: int| 0 <= m < r.len() && r[m] == (k, v);
                assert(m > 0);
                assert(r.drop_first()[m - 1] == (k, v));
            }
            if r.drop_first().contains((k, v)) {
                let m = choose|m: int| 0 <= m < r.drop_first().len() && r.drop_first()[m] == (k, v);
                assert(r[m + 1] == (k, v));
            }
        }
    }
}

/// The attribute set built from `es` holds, sorted by name, exactly the
/// entries of `es` that are the last ones with their names: a later entry
/// replaces an earlier one of the same name, and no name is lost.
pub proof fn lemma_attrs_from_entries(es: Seq<(Seq<char>, NixV)>)
    ensures
        keys_sorted(attrs_from(es)),
        forall|i: int|
            0 <= i < attrs_from(es).len() ==> exists|j: int|
                is_last_of_name(es, j) && es[j] == #[trigger] attrs_from(es)[i],
        forall|j: int| #[trigger] is_last_of_name(es, j) ==> attrs_from(es).contains(es[j]),
    decreases es.len(),
{
    lemma_attrs_from(es);
    if es.len() > 0 {
        let init = es.drop_last();
        let (k, v) = es.last();
        lemma_attrs_from_entries(init);
        let r = attrs_from(init);
        let r2 = attrs_from(es);
        assert(r2 == attrs_insert(r, k, v));
        lemma_attrs_insert(r, k, v);
        assert forall|i: int| 0 <= i < r2.len() implies exists|j: int|
            is_last_of_name(es, j) && es[j] == #[trigger] r2[i] by {
            if r2[i] == (k, v) {
                assert(is_last_of_name(es, es.len() - 1));
            } else {
                assert(r.contains(r2[i]));
                let m = choose|m: int| 0 <= m < r.len() && r[m] == r2[i];
                let j = choose|j: int| is_last_of_name(init, j) && init[j] == #[trigger] r[m];
                let p = choose|p: int| 0 <= p < r2.len() && r2[p] == (k, v);
                if r2[i].0 == k {
                    if i < p {
                        assert(key_lt(r2[i].0, r2[p].0));
                    } else if p < i {
                        assert(key_lt(r2[p].0, r2[i].0));
                    }
                    lemma_key_lt_irreflexive(k);
                }
                assert(es[j] == init[j]);
                assert forall|j2: int| j < j2 < es.len() implies #[trigger] es[j2].0 != es[j].0 by {
                    if j2 < es.len() - 1 {
                        assert(es[j2] == init[j2]);
                    }
                }
                assert(is_last_of_name(es, j));
            }
        }
        assert forall|j: int| #[trigger] is_last_of_name(es, j) implies r2.contains(es[j]) by {
            if j < es.len() - 1 {
                assert(es[j] == init[j]);
                assert(es[es.len() - 1].0 != es[j].0);
                assert forall|j2: int| j < j2 < init.len() implies #[trigger] init[j2].0 != init[j].0 by {
                    assert(init[j2] == es[j2]);
                }
                assert(is_last_of_name(init, j));
                let (k2, v2) = es[j];
                lemma_sorted_get_contains(r, k2, v2);
                lemma_attrs_get_insert(r, k, v, k2);
                lemma_sorted_get_contains(r2, k2, v2);
            }
        }
    }
}

} // verus!
