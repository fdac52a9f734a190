use nix_wasm_lib::json_text::TextInputError;
use nix_wasm_lib::toml_model::{
    nix_to_toml, toml_document_issue_of, toml_issue_of, toml_to_nix, Toml, TomlDocumentIssue,
};
use nix_wasm_lib::writing::WriteIssue;
use nix_wasm_lib::toml_text::{
    fromTOML, fromTOMLValue, toml_from_value, try_from_toml, try_from_toml_value,
};
use nix_wasm_lib::value::{NixRef, NixValue};

fn s(x: &str) -> String {
    x.to_string()
}

fn text(x: &str) -> NixValue {
    NixValue::String(s(x))
}

#[test]
fn issues_are_found_in_order() {
    assert_eq!(toml_issue_of(&NixValue::Int(1)), None);
    assert_eq!(toml_issue_of(&NixValue::Null), Some(WriteIssue::Null));
    assert_eq!(toml_issue_of(&NixValue::Function(NixRef { id: 1 })), Some(WriteIssue::Function));
    let v = NixValue::Attrs(vec![
        (s("a"), NixValue::List(vec![NixValue::Int(1), NixValue::Function(NixRef { id: 4 })])),
        (s("b"), NixValue::Null),
    ]);
    assert_eq!(toml_issue_of(&v), Some(WriteIssue::Function));
    let w = NixValue::List(vec![NixValue::Null, NixValue::Function(NixRef { id: 4 })]);
    assert_eq!(toml_issue_of(&w), Some(WriteIssue::Null));
}

#[test]
fn nix_values_become_toml() {
    let v = NixValue::Attrs(vec![
        (s("a"), NixValue::List(vec![NixValue::Int(1), NixValue::Bool(true)])),
        (s("f"), NixValue::Float(f64::INFINITY.to_bits())),
        (s("p"), NixValue::Path(NixRef { id: 2 }, b"/x".to_vec())),
        (s("t"), NixValue::Attrs(vec![(s("k"), NixValue::String(s("v")))])),
    ]);
    assert_eq!(
        nix_to_toml(&v),
        Toml::Table(vec![
            (s("a"), Toml::Array(vec![Toml::Integer(1), Toml::Boolean(true)])),
            (s("f"), Toml::Float(f64::INFINITY.to_bits())),
            (s("p"), Toml::String(s("/x"))),
            (s("t"), Toml::Table(vec![(s("k"), Toml::String(s("v")))])),
        ])
    );
}

#[test]
fn toml_becomes_nix_values() {
    let t = Toml::Table(vec![
        (s("z"), Toml::Datetime(s("1979-05-27T07:32:00Z"))),
        (s("a"), Toml::Float(1.5f64.to_bits())),
        (s("z"), Toml::Integer(2)),
    ]);
    assert_eq!(
        toml_to_nix(&t),
        NixValue::Attrs(vec![
            (s("a"), NixValue::Float(1.5f64.to_bits())),
            (s("z"), NixValue::Int(2)),
        ])
    );
}

#[test]
fn toml_values_are_read() {
    let v: toml::Value = toml::from_str("b = 1\na = [\"x\", 2.5]\nd = 1979-05-27\n[t]\nk = false\n").unwrap();
    assert_eq!(
        toml_from_value(&v),
        Toml::Table(vec![
            (s("a"), Toml::Array(vec![Toml::String(s("x")), Toml::Float(2.5f64.to_bits())])),
            (s("b"), Toml::Integer(1)),
            (s("d"), Toml::Datetime(s("1979-05-27"))),
            (s("t"), Toml::Table(vec![(s("k"), Toml::Boolean(false))])),
        ])
    );
}

#[test]
fn from_toml_reads_documents() {
    let v = fromTOML(text("name = \"x\"\nwhen = 1979-05-27T07:32:00Z\n[deps]\nn = 3\n"));
    assert_eq!(
        v,
        NixValue::Attrs(vec![
            (s("deps"), NixValue::Attrs(vec![(s("n"), NixValue::Int(3))])),
            (s("name"), NixValue::String(s("x"))),
            (s("when"), NixValue::String(s("1979-05-27T07:32:00Z"))),
        ])
    );
}

#[test]
fn from_toml_value_reads_single_values() {
    assert_eq!(
        fromTOMLValue(text("[1, \"a\", true]")),
        NixValue::List(vec![NixValue::Int(1), NixValue::String(s("a")), NixValue::Bool(true)])
    );
    assert_eq!(fromTOMLValue(text("\"x\"")), NixValue::String(s("x")));
    assert_eq!(fromTOMLValue(text("-3")), NixValue::Int(-3));
    assert_eq!(
        fromTOMLValue(text("{ a = 1, b = 2.0 }")),
        NixValue::Attrs(vec![(s("a"), NixValue::Int(1)), (s("b"), NixValue::Float(2.0f64.to_bits()))])
    );
}

#[test]
fn try_from_toml_errors() {
    assert_eq!(try_from_toml(NixValue::Bool(true)), Err(TextInputError::NotAString));
    assert_eq!(try_from_toml(text("a = ")), Err(TextInputError::Syntax));
    assert_eq!(try_from_toml(text("")), Ok(NixValue::Attrs(vec![])));
    assert_eq!(try_from_toml_value(NixValue::Int(3)), Err(TextInputError::NotAString));
    assert_eq!(try_from_toml_value(text("a = 1")), Err(TextInputError::Syntax));
    assert_eq!(try_from_toml_value(text("1")), Ok(NixValue::Int(1)));
}

#[test]
fn nix_toml_round_trip() {
    let v = NixValue::Attrs(vec![
        (s("a"), NixValue::List(vec![NixValue::Int(1), NixValue::Float(f64::NAN.to_bits())])),
        (s("b"), NixValue::Attrs(vec![(s("c"), NixValue::String(s("x")))])),
    ]);
    assert_eq!(toml_to_nix(&nix_to_toml(&v)), v);
}

#[test]
fn toml_nix_round_trip() {
    let t = Toml::Table(vec![
        (s("a"), Toml::Boolean(false)),
        (s("b"), Toml::Array(vec![Toml::Table(vec![(s("x"), Toml::Integer(7))])])),
    ]);
    assert_eq!(nix_to_toml(&toml_to_nix(&t)), t);
}

#[test]
fn from_toml_reads_every_document_as_attrs() {
    let v = fromTOML(text("\"$__toml_private_datetime\" = \"1979-05-27\"\n"));
    assert_eq!(
        v,
        NixValue::Attrs(vec![(s("$__toml_private_datetime"), NixValue::String(s("1979-05-27")))])
    );
    assert_eq!(fromTOML(text("")), NixValue::Attrs(vec![]));
}

#[test]
fn documents_must_be_attrs_without_null_or_functions() {
    assert_eq!(toml_document_issue_of(&NixValue::Int(1)), Some(TomlDocumentIssue::NotAttrs));
    assert_eq!(toml_document_issue_of(&NixValue::Null), Some(TomlDocumentIssue::NotAttrs));
    assert_eq!(
        toml_document_issue_of(&NixValue::Attrs(vec![(s("a"), NixValue::Null)])),
        Some(TomlDocumentIssue::Value(WriteIssue::Null))
    );
    assert_eq!(
        toml_document_issue_of(&NixValue::Attrs(vec![(s("f"), NixValue::Function(NixRef { id: 1 }))])),
        Some(TomlDocumentIssue::Value(WriteIssue::Function))
    );
    assert_eq!(toml_document_issue_of(&NixValue::Attrs(vec![(s("a"), NixValue::Int(1))])), None);
}

#[test]
fn paths_must_be_utf8_for_toml() {
    let bad = NixValue::Path(NixRef { id: 1 }, vec![0xc3]);
    assert_eq!(toml_issue_of(&bad), Some(WriteIssue::Path));
    let v = NixValue::Attrs(vec![(s("a"), NixValue::Null), (s("b"), bad)]);
    assert_eq!(toml_issue_of(&v), Some(WriteIssue::Null));
    let ok = NixValue::Path(NixRef { id: 1 }, b"/nix/store".to_vec());
    assert_eq!(nix_to_toml(&ok), Toml::String(s("/nix/store")));
}
