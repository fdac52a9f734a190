//! What keeps a Nix value from being written as JSON or TOML, and the text of
//! a path.
use vstd::prelude::*;
use crate::value::{
    NixValue, NixV, list_view, attrs_view, lemma_list_view, lemma_attrs_view, nix_all, lemma_list_all,
    lemma_entries_all,
};

verus! {

/// The text that `std::str::from_utf8` reads from `bytes`: `None` where they
/// are not UTF-8.
pub uninterp spec fn utf8_text(bytes: Seq<u8>) -> Option<Seq<char>>;

/// Calls `std::str::from_utf8` and copies the text it reads. Claimed: it reads
/// text exactly where `utf8_text` does, and that text.
#[verifier::external_body]
pub(crate) fn utf8_decode(bytes: &[u8]) -> (r: Option<String>)
    ensures
        match r {
            Some(s) => utf8_text(bytes@) == Some(s@),
            None => utf8_text(bytes@) is None,
        },
{
    match std::str::from_utf8(bytes) {
        Ok(s) => Some(s.to_owned()),
        Err(_) => None,
    }
}

/// What keeps a Nix value from being written: a null (in TOML, which has
/// none), a function, or a path that is not UTF-8 text.
#[derive(Clone, Copy, Debug, PartialEq, Eq, Structural)]
pub enum WriteIssue {
    Null,
    Function,
    Path,
}

/// The first issue met in `v`, going through lists in order and attribute
/// sets in the order of their names, each node before what it holds; a null
/// counts only where `nulls` is set.
pub open spec fn write_issue(v: NixV, nulls: bool) -> Option<WriteIssue>
    decreases v,
{
    match v {
        NixV::Null => if nulls {
            Some(WriteIssue::Null)
        } else {
            None
        },
        NixV::Function(_) => Some(WriteIssue::Function),
        NixV::Path(_, p) => if utf8_text(p) is None {
            Some(WriteIssue::Path)
        } else {
            None
        },
        NixV::List(l) => list_write_issue(l, nulls),
        NixV::Attrs(es) => entries_write_issue(es, nulls),
        _ => None,
    }
}

pub open spec fn list_write_issue(s: Seq<NixV>, nulls: bool) -> Option<WriteIssue>
    decreases s,
{
    if s.len() == 0 {
        None
    } else {
        match list_write_issue(s.drop_last(), nulls) {
            Some(x) => Some(x),
            None => write_issue(s.last(), nulls),
        }
    }
}

pub open spec fn entries_write_issue(s: Seq<(Seq<char>, NixV)>, nulls: bool) -> Option<WriteIssue>
    decreases s,
{
    if s.len() == 0 {
        None
    } else {
        proof {
            assert(decreases_to!(s => s[s.len() - 1]));
        }
        match entries_write_issue(s.drop_last(), nulls) {
            Some(x) => Some(x),
            None => write_issue(s.last().1, nulls),
        }
    }
}

/// The first issue of a sequence is that of its first element that has one.
proof fn lemma_list_write_issue_step(s: Seq<NixV>, i: int, nulls: bool)
    requires
        0 <= i < s.len(),
    ensures
        list_write_issue(s.take(i + 1), nulls) == match list_write_issue(s.take(i), nulls) {
            Some(x) => Some(x),
            None => write_issue(s[i], nulls),
        },
{
    assert(s.take(i + 1).drop_last() =~= s.take(i));
}

proof fn lemma_entries_write_issue_step(s: Seq<(Seq<char>, NixV)>, i: int, nulls: bool)
    requires
        0 <= i < s.len(),
    ensures
        entries_write_issue(s.take(i + 1), nulls) == match entries_write_issue(s.take(i), nulls) {
            Some(x) => Some(x),
            None => write_issue(s[i].1, nulls),
        },
{
    assert(s.take(i + 1).drop_last() =~= s.take(i));
}

/// Once a prefix has an issue, the whole sequence has that issue.
proof fn lemma_list_write_issue_prefix(s: Seq<NixV>, n: int, nulls: bool)
    requires
        0 <= n <= s.len(),
        list_write_issue(s.take(n), nulls) is Some,
    ensures
        list_write_issue(s, nulls) == list_write_issue(s.take(n), nulls),
    decreases s.len() - n,
{
    if n == s.len() {
        assert(s.take(n) =~= s);
    } else {
        lemma_list_write_issue_step(s, n, nulls);
        lemma_list_write_issue_prefix(s, n + 1, nulls);
    }
}

proof fn lemma_entries_write_issue_prefix(s: Seq<(Seq<char>, NixV)>, n: int, nulls: bool)
    requires
        0 <= n <= s.len(),
        entries_write_issue(s.take(n), nulls) is Some,
    ensures
        entries_write_issue(s, nulls) == entries_write_issue(s.take(n), nulls),
    decreases s.len() - n,
{
    if n == s.len() {
        assert(s.take(n) =~= s);
    } else {
        lemma_entries_write_issue_step(s, n, nulls);
        lemma_entries_write_issue_prefix(s, n + 1, nulls);
    }
}

/// A sequence without an issue has none in any element.
pub proof fn lemma_list_issue_none(s: Seq<NixV>, i: int, nulls: bool)
    requires
        list_write_issue(s, nulls) is None,
        0 <= i < s.len(),
    ensures
        write_issue(s[i], nulls) is None,
    decreases s.len(),
{
    if i < s.len() - 1 {
        assert(s.drop_last()[i] == s[i]);
        lemma_list_issue_none(s.drop_last(), i, nulls);
    }
}

pub proof fn lemma_entries_issue_none(s: Seq<(Seq<char>, NixV)>, i: int, nulls: bool)
    requires
        entries_write_issue(s, nulls) is None,
        0 <= i < s.len(),
    ensures
        write_issue(s[i].1, nulls) is None,
    decreases s.len(),
{
    if i < s.len() - 1 {
        assert(s.drop_last()[i] == s[i]);
        lemma_entries_issue_none(s.drop_last(), i, nulls);
    }
}

/// Finds what keeps `v` from being written (see `write_issue`).
pub fn write_issue_of(v: &NixValue, nulls: bool) -> (r: Option<WriteIssue>)
    ensures
        r == write_issue(v@, nulls),
    decreases v@,
{
    match v {
        NixValue::Null => if nulls {
            Some(WriteIssue::Null)
        } else {
            None
        },
        NixValue::Function(_) => Some(WriteIssue::Function),
        NixValue::Path(_, p) => if utf8_decode(p.as_slice()).is_none() {
            Some(WriteIssue::Path)
        } else {
            None
        },
        NixValue::List(l) => {
            proof {
                lemma_list_view(l@);
                assert(list_view(l@).take(0) =~= Seq::<NixV>::empty());
            }
            let ghost s = list_view(l@);
            let mut i: usize = 0;
            while i < l.len()
                invariant
                    *v == NixValue::List(*l),
                    s == list_view(l@),
                    i <= l@.len(),
                    s.len() == l@.len(),
                    forall|j: int| 0 <= j < l@.len() ==> #[trigger] s[j] == l@[j]@,
                    list_write_issue(s.take(i as int), nulls) is None,
                decreases l@.len() - i,
            {
                proof {
                    assert(v@ == NixV::List(s));
                    assert(decreases_to!(v@ => v@->List_0));
                    assert(decreases_to!(v@->List_0 => v@->List_0[i as int]));
                    lemma_list_write_issue_step(s, i as int, nulls);
                }
                let x = write_issue_of(&l[i], nulls);
                if x.is_some() {
                    proof {
                        lemma_list_write_issue_prefix(s, i + 1, nulls);
                    }
                    return x;
                }
                i = i + 1;
            }
            proof {
                assert(s.take(i as int) =~= s);
            }
            None
        },
        NixValue::Attrs(es) => {
            proof {
                lemma_attrs_view(es@);
                assert(attrs_view(es@).take(0) =~= Seq::<(Seq<char>, NixV)>::empty());
            }
            let ghost s = attrs_view(es@);
            let mut i: usize = 0;
            while i < es.len()
                invariant
                    *v == NixValue::Attrs(*es),
                    s == attrs_view(es@),
                    i <= es@.len(),
                    s.len() == es@.len(),
                    forall|j: int| 0 <= j < es@.len() ==> #[trigger] s[j] == (es@[j].0@, es@[j].1@),
                    entries_write_issue(s.take(i as int), nulls) is None,
                decreases es@.len() - i,
            {
                proof {
                    assert(v@ == NixV::Attrs(s));
                    assert(decreases_to!(v@ => v@->Attrs_0));
                    assert(decreases_to!(v@->Attrs_0 => v@->Attrs_0[i as int]));
                    assert(decreases_to!(v@->Attrs_0[i as int] => v@->Attrs_0[i as int].1));
                    lemma_entries_write_issue_step(s, i as int, nulls);
                }
                let x = write_issue_of(&es[i].1, nulls);
                if x.is_some() {
                    proof {
                        lemma_entries_write_issue_prefix(s, i + 1, nulls);
                    }
                    return x;
                }
                i = i + 1;
            }
            proof {
                assert(s.take(i as int) =~= s);
            }
            None
        },
        _ => None,
    }
}

/// The text of a path that is UTF-8 (`write_issue` finds none in it).
pub(crate) fn path_text(p: &Vec<u8>) -> (r: String)
    requires
        utf8_text(p@) is Some,
    ensures
        r@ == utf8_text(p@)->Some_0,
{
    match utf8_decode(p.as_slice()) {
        Some(s) => s,
        None => String::new(),
    }
}

} // verus!

verus! {

/// A node that can be written by itself: no function, no path that is not
/// UTF-8 text, and (where `nulls` is set) no null.
pub open spec fn writable_node(x: NixV, nulls: bool) -> bool {
    &&& !(nulls && x is Null)
    &&& !(x is Function)
    &&& (x matches NixV::Path(_, p) ==> utf8_text(p) is Some)
}

/// The issue of a sequence is the issue of one of its elements; it has none
/// exactly when no element has one.
proof fn lemma_list_write_issue_elements(s: Seq<NixV>, nulls: bool)
    ensures
        list_write_issue(s, nulls) is None <==> forall|i: int|
            0 <= i < s.len() ==> #[trigger] write_issue(s[i], nulls) is None,
        list_write_issue(s, nulls) matches Some(x) ==> exists|i: int|
            0 <= i < s.len() && #[trigger] write_issue(s[i], nulls) == Some(x),
    decreases s.len(),
{
    if s.len() > 0 {
        let init = s.drop_last();
        lemma_list_write_issue_elements(init, nulls);
        let last = s.len() - 1;
        assert(s[last] == s.last());
        match list_write_issue(init, nulls) {
            Some(x) => {
                let i = choose|i: int| 0 <= i < init.len() && #[trigger] write_issue(init[i], nulls) == Some(x);
                assert(init[i] == s[i]);
                assert(write_issue(s[i], nulls) == Some(x));
            },
            None => {
                assert forall|i: int| 0 <= i < init.len() implies #[trigger] write_issue(s[i], nulls) is None by {
                    assert(init[i] == s[i]);
                    assert(write_issue(init[i], nulls) is None);
                }
                if write_issue(s[last], nulls) is None {
                    assert forall|i: int| 0 <= i < s.len() implies #[trigger] write_issue(s[i], nulls) is None by {
                        if i < last {
                            assert(write_issue(s[i], nulls) is None);
                        }
                    }
                }
            },
        }
    }
}

proof fn lemma_entries_write_issue_elements(s: Seq<(Seq<char>, NixV)>, nulls: bool)
    ensures
        entries_write_issue(s, nulls) is None <==> forall|i: int|
            0 <= i < s.len() ==> #[trigger] write_issue(s[i].1, nulls) is None,
        entries_write_issue(s, nulls) matches Some(x) ==> exists|i: int|
            0 <= i < s.len() && #[trigger] write_issue(s[i].1, nulls) == Some(x),
    decreases s.len(),
{
    if s.len() > 0 {
        let init = s.drop_last();
        lemma_entries_write_issue_elements(init, nulls);
        let last = s.len() - 1;
        assert(s[last] == s.last());
        match entries_write_issue(init, nulls) {
            Some(x) => {
                let i = choose|i: int| 0 <= i < init.len() && #[trigger] write_issue(init[i].1, nulls) == Some(x);
                assert(init[i] == s[i]);
                assert(write_issue(s[i].1, nulls) == Some(x));
            },
            None => {
                assert forall|i: int| 0 <= i < init.len() implies #[trigger] write_issue(s[i].1, nulls) is None by {
                    assert(init[i] == s[i]);
                    assert(write_issue(init[i].1, nulls) is None);
                }
                if write_issue(s[last].1, nulls) is None {
                    assert forall|i: int| 0 <= i < s.len() implies #[trigger] write_issue(s[i].1, nulls) is None by {
                        if i < last {
                            assert(write_issue(s[i].1, nulls) is None);
                        }
                    }
                }
            },
        }
    }
}

/// A value has no issue exactly when every node of it can be written by
/// itself (`writable_node`); where nulls do not count, the issue found is
/// never a null.
pub proof fn lemma_write_issue_none(v: NixV, nulls: bool)
    ensures
        write_issue(v, nulls) is None <==> nix_all(v, |x: NixV| writable_node(x, nulls)),
        !nulls ==> write_issue(v, nulls) != Some(WriteIssue::Null),
    decreases v,
{
    let p = |x: NixV| writable_node(x, nulls);
    match v {
        NixV::List(l) => {
            assert forall|i: int| 0 <= i < l.len() implies (write_issue(#[trigger] l[i], nulls) is None
                <==> nix_all(l[i], p)) && (!nulls ==> write_issue(l[i], nulls) != Some(WriteIssue::Null)) by {
                lemma_write_issue_none(l[i], nulls);
            }
            lemma_list_write_issue_elements(l, nulls);
            lemma_list_all(l, p);
        },
        NixV::Attrs(es) => {
            assert forall|i: int| 0 <= i < es.len() implies (write_issue(#[trigger] es[i].1, nulls) is None
                <==> nix_all(es[i].1, p)) && (!nulls ==> write_issue(es[i].1, nulls) != Some(WriteIssue::Null)) by {
                assert(decreases_to!(v => es));
                assert(decreases_to!(es => es[i]));
                lemma_write_issue_none(es[i].1, nulls);
            }
            lemma_entries_write_issue_elements(es, nulls);
            lemma_entries_all(es, p);
        },
        _ => {},
    }
}

} // verus!
