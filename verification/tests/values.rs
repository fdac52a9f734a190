use nix_wasm_lib::keys::key_less;
use nix_wasm_lib::value::{attrs_insert_entry, NixRef, NixValue};

fn s(x: &str) -> String {
    x.to_string()
}

#[test]
fn names_sort_by_character() {
    assert!(key_less("a", "b"));
    assert!(!key_less("b", "a"));
    assert!(!key_less("a", "a"));
    assert!(key_less("a", "ab"));
    assert!(!key_less("ab", "a"));
    assert!(key_less("", "a"));
    assert!(!key_less("", ""));
    assert!(key_less("Z", "a"));
    assert!(key_less("z", "é"));
    assert!(key_less("abc", "abd"));
}

#[test]
fn names_sort_like_strings() {
    let names = ["b", "a", "ab", "", "é", "Z", "z", "aa", "a\u{1F600}", "a\u{7F}"];
    for x in names.iter() {
        for y in names.iter() {
            assert_eq!(key_less(x, y), x < y, "{:?} {:?}", x, y);
        }
    }
}

#[test]
fn insert_keeps_names_sorted() {
    let mut es: Vec<(String, NixValue)> = Vec::new();
    attrs_insert_entry(&mut es, s("m"), NixValue::Int(1));
    attrs_insert_entry(&mut es, s("a"), NixValue::Int(2));
    attrs_insert_entry(&mut es, s("z"), NixValue::Int(3));
    attrs_insert_entry(&mut es, s("k"), NixValue::Int(4));
    let names: Vec<&str> = es.iter().map(|(k, _)| k.as_str()).collect();
    assert_eq!(names, vec!["a", "k", "m", "z"]);
    assert_eq!(es[0].1, NixValue::Int(2));
    assert_eq!(es[1].1, NixValue::Int(4));
}

#[test]
fn insert_replaces_a_present_name() {
    let mut es: Vec<(String, NixValue)> = Vec::new();
    attrs_insert_entry(&mut es, s("x"), NixValue::Int(1));
    attrs_insert_entry(&mut es, s("y"), NixValue::Int(2));
    attrs_insert_entry(&mut es, s("x"), NixValue::Bool(true));
    assert_eq!(es, vec![(s("x"), NixValue::Bool(true)), (s("y"), NixValue::Int(2))]);
}

#[test]
fn entries_later_replaces_earlier() {
    let v = NixValue::from_entries(vec![
        (s("b"), NixValue::Int(1)),
        (s("a"), NixValue::Int(2)),
        (s("b"), NixValue::Int(3)),
    ]);
    assert_eq!(
        v,
        NixValue::Attrs(vec![(s("a"), NixValue::Int(2)), (s("b"), NixValue::Int(3))])
    );
}

#[test]
fn entries_empty() {
    assert_eq!(NixValue::from_entries(Vec::new()), NixValue::Attrs(Vec::new()));
}

#[test]
fn scalars_convert() {
    assert_eq!(NixValue::from(()), NixValue::Null);
    assert_eq!(NixValue::from(true), NixValue::Bool(true));
    assert_eq!(NixValue::from(-5i8), NixValue::Int(-5));
    assert_eq!(NixValue::from(300i16), NixValue::Int(300));
    assert_eq!(NixValue::from(-70000i32), NixValue::Int(-70000));
    assert_eq!(NixValue::from(i64::MIN), NixValue::Int(i64::MIN));
    assert_eq!(NixValue::from(255u8), NixValue::Int(255));
    assert_eq!(NixValue::from(65535u16), NixValue::Int(65535));
    assert_eq!(NixValue::from(u32::MAX), NixValue::Int(4294967295));
    assert_eq!(NixValue::from_isize(-3), NixValue::Int(-3));
    assert_eq!(NixValue::from_usize(7), NixValue::Int(7));
    assert_eq!(NixValue::from_u64(i64::MAX as u64), NixValue::Int(i64::MAX));
    assert_eq!(NixValue::from_u128(12), NixValue::Int(12));
    assert_eq!(NixValue::from_i128(-12), NixValue::Int(-12));
    assert_eq!(NixValue::from(s("hi")), NixValue::String(s("hi")));
    assert_eq!(NixValue::from("hi"), NixValue::String(s("hi")));
    assert_eq!(
        NixValue::from(std::borrow::Cow::Borrowed("b")),
        NixValue::String(s("b"))
    );
    assert_eq!(
        NixValue::from(std::borrow::Cow::<str>::Owned(s("o"))),
        NixValue::String(s("o"))
    );
}

#[test]
fn options_and_lists_convert() {
    assert_eq!(NixValue::from(None::<NixValue>), NixValue::Null);
    assert_eq!(NixValue::from(Some(NixValue::Int(1))), NixValue::Int(1));
    assert_eq!(
        NixValue::from(vec![NixValue::Int(1), NixValue::Null]),
        NixValue::List(vec![NixValue::Int(1), NixValue::Null])
    );
    assert_eq!(NixValue::from(None::<i64>), NixValue::Null);
    assert_eq!(NixValue::from(Some(4i64)), NixValue::Int(4));
    assert_eq!(NixValue::from(Some(())), NixValue::Null);
    assert_eq!(NixValue::from(Some(Some(true))), NixValue::Bool(true));
    assert_eq!(
        NixValue::from(vec![1i64, 2, 3]),
        NixValue::List(vec![NixValue::Int(1), NixValue::Int(2), NixValue::Int(3)])
    );
    assert_eq!(
        NixValue::from(vec![vec![1u8], vec![]]),
        NixValue::List(vec![NixValue::List(vec![NixValue::Int(1)]), NixValue::List(vec![])])
    );
    assert_eq!(NixValue::from(Vec::<bool>::new()), NixValue::List(vec![]));
}

#[test]
fn slices_convert_copies() {
    let items = vec![s("a"), s("b")];
    let r = NixValue::from(&items[..]);
    assert_eq!(r, NixValue::List(vec![NixValue::String(s("a")), NixValue::String(s("b"))]));
    assert_eq!(items, vec![s("a"), s("b")]);
    let none: &[i64] = &[];
    assert_eq!(NixValue::from(none), NixValue::List(vec![]));
}

#[test]
fn pairs_convert_to_sorted_attrs_later_wins() {
    let r = NixValue::from(vec![("b", 1i64), ("a", 2), ("b", 3)]);
    assert_eq!(
        r,
        NixValue::Attrs(vec![(s("a"), NixValue::Int(2)), (s("b"), NixValue::Int(3))])
    );
    let r2 = NixValue::from(vec![(s("x"), Some(true)), (s("w"), None)]);
    assert_eq!(
        r2,
        NixValue::Attrs(vec![(s("w"), NixValue::Null), (s("x"), NixValue::Bool(true))])
    );
    assert_eq!(NixValue::from(Vec::<(String, i64)>::new()), NixValue::Attrs(vec![]));
    let pairs = vec![(s("z"), 1u8), (s("y"), 2u8), (s("z"), 3u8)];
    assert_eq!(
        NixValue::from(&pairs[..]),
        NixValue::Attrs(vec![(s("y"), NixValue::Int(2)), (s("z"), NixValue::Int(3))])
    );
    assert_eq!(pairs.len(), 3);
}

#[test]
fn paths_keep_their_handle() {
    assert_eq!(
        NixValue::path(9, b"/nix/store/x".to_vec()),
        NixValue::Path(NixRef { id: 9 }, b"/nix/store/x".to_vec())
    );
}

#[test]
fn copies_are_equal() {
    let v = NixValue::Attrs(vec![
        (s("a"), NixValue::List(vec![NixValue::Int(1), NixValue::String(s("x"))])),
        (s("f"), NixValue::Function(NixRef { id: 5 })),
        (s("p"), NixValue::Path(NixRef { id: 6 }, b"/p".to_vec())),
    ]);
    assert_eq!(v.duplicate(), v);
    assert_eq!(v.clone(), v);
}

#[test]
fn lists_are_built_from_vectors_and_slices() {
    assert_eq!(
        NixValue::list_from_vec(vec![Some(1i64), None]),
        NixValue::List(vec![NixValue::Int(1), NixValue::Null])
    );
    let items = [true, false];
    assert_eq!(
        NixValue::list_from_slice(&items[..]),
        NixValue::List(vec![NixValue::Bool(true), NixValue::Bool(false)])
    );
    assert_eq!(NixValue::list_from_vec(Vec::<u8>::new()), NixValue::List(vec![]));
}
