use nix_wasm_lib::writing::WriteIssue;
use nix_wasm_lib::json_model::{
    float_bits_finite, json_issue_of, json_to_nix, nix_to_json, Json, JsonNumber,
};
use nix_wasm_lib::json_text::{
    fromJSON, fromJSON5, json_from_serde, try_from_json, try_from_json5, TextInputError,
};
use nix_wasm_lib::value::{NixRef, NixValue};

fn s(x: &str) -> String {
    x.to_string()
}

fn text(x: &str) -> NixValue {
    NixValue::String(s(x))
}

#[test]
fn finite_floats() {
    assert!(float_bits_finite(1.5f64.to_bits()));
    assert!(float_bits_finite((-0.0f64).to_bits()));
    assert!(float_bits_finite(f64::MAX.to_bits()));
    assert!(!float_bits_finite(f64::NAN.to_bits()));
    assert!(!float_bits_finite(f64::INFINITY.to_bits()));
    assert!(!float_bits_finite(f64::NEG_INFINITY.to_bits()));
}

#[test]
fn nix_values_become_json() {
    let v = NixValue::Attrs(vec![
        (s("a"), NixValue::List(vec![NixValue::Int(1), NixValue::Bool(false), NixValue::Null])),
        (s("p"), NixValue::Path(NixRef { id: 3 }, b"/tmp/x".to_vec())),
        (s("x"), NixValue::Float(2.5f64.to_bits())),
        (s("y"), NixValue::Float(f64::NAN.to_bits())),
    ]);
    assert_eq!(json_issue_of(&v), None);
    let j = nix_to_json(&v);
    assert_eq!(
        j,
        Json::Object(vec![
            (
                s("a"),
                Json::Array(vec![
                    Json::Number(JsonNumber::Int(1)),
                    Json::Bool(false),
                    Json::Null
                ])
            ),
            (s("p"), Json::String(s("/tmp/x"))),
            (s("x"), Json::Number(JsonNumber::Float(2.5f64.to_bits()))),
            (s("y"), Json::Null),
        ])
    );
}

#[test]
fn functions_have_no_json_form() {
    let v = NixValue::List(vec![
        NixValue::Int(1),
        NixValue::Attrs(vec![(s("f"), NixValue::Function(NixRef { id: 1 }))]),
    ]);
    assert_eq!(json_issue_of(&v), Some(WriteIssue::Function));
    assert_eq!(json_issue_of(&NixValue::Function(NixRef { id: 2 })), Some(WriteIssue::Function));
    assert_eq!(json_issue_of(&NixValue::List(vec![])), None);
    assert_eq!(json_issue_of(&NixValue::Null), None);
}

#[test]
fn paths_must_be_utf8_for_json() {
    let bad = NixValue::Path(NixRef { id: 1 }, vec![0x2f, 0xff, 0xfe]);
    assert_eq!(json_issue_of(&bad), Some(WriteIssue::Path));
    let v = NixValue::List(vec![bad, NixValue::Function(NixRef { id: 2 })]);
    assert_eq!(json_issue_of(&v), Some(WriteIssue::Path));
    let w = NixValue::List(vec![
        NixValue::Function(NixRef { id: 2 }),
        NixValue::Path(NixRef { id: 1 }, vec![0xff]),
    ]);
    assert_eq!(json_issue_of(&w), Some(WriteIssue::Function));
    let ok = NixValue::Path(NixRef { id: 1 }, "/é".as_bytes().to_vec());
    assert_eq!(json_issue_of(&ok), None);
    assert_eq!(nix_to_json(&ok), Json::String(s("/é")));
}

#[test]
fn json_becomes_nix_values() {
    let j = Json::Object(vec![
        (s("b"), Json::Number(JsonNumber::Big(u64::MAX, (u64::MAX as f64).to_bits()))),
        (s("a"), Json::String(s("x"))),
        (s("b"), Json::Number(JsonNumber::Int(-4))),
        (s("c"), Json::Array(vec![Json::Number(JsonNumber::Float(0.5f64.to_bits()))])),
    ]);
    assert_eq!(
        json_to_nix(&j),
        NixValue::Attrs(vec![
            (s("a"), NixValue::String(s("x"))),
            (s("b"), NixValue::Int(-4)),
            (s("c"), NixValue::List(vec![NixValue::Float(0.5f64.to_bits())])),
        ])
    );
    assert_eq!(
        json_to_nix(&Json::Number(JsonNumber::Big(1u64 << 63, 9.223372036854775808e18f64.to_bits()))),
        NixValue::Float(9.223372036854775808e18f64.to_bits())
    );
}

#[test]
fn serde_values_are_read() {
    let v: serde_json::Value =
        serde_json::from_str(r#"{"z": [1, -2, 18446744073709551615, 1.25], "a": null, "t": true, "s": "é"}"#)
            .unwrap();
    assert_eq!(
        json_from_serde(&v),
        Json::Object(vec![
            (s("a"), Json::Null),
            (s("s"), Json::String(s("é"))),
            (s("t"), Json::Bool(true)),
            (
                s("z"),
                Json::Array(vec![
                    Json::Number(JsonNumber::Int(1)),
                    Json::Number(JsonNumber::Int(-2)),
                    Json::Number(JsonNumber::Big(u64::MAX, (u64::MAX as f64).to_bits())),
                    Json::Number(JsonNumber::Float(1.25f64.to_bits())),
                ])
            ),
        ])
    );
}

#[test]
fn from_json_reads_text() {
    let v = fromJSON(text(r#"{"b": 1, "a": [true, null, "x"], "f": 0.5, "n": {"m": -7}}"#));
    assert_eq!(
        v,
        NixValue::Attrs(vec![
            (s("a"), NixValue::List(vec![NixValue::Bool(true), NixValue::Null, NixValue::String(s("x"))])),
            (s("b"), NixValue::Int(1)),
            (s("f"), NixValue::Float(0.5f64.to_bits())),
            (s("n"), NixValue::Attrs(vec![(s("m"), NixValue::Int(-7))])),
        ])
    );
}

#[test]
fn from_json_large_integer_is_float() {
    assert_eq!(
        fromJSON(text("9223372036854775808")),
        NixValue::Float(9223372036854775808.0f64.to_bits())
    );
    assert_eq!(fromJSON(text("9223372036854775807")), NixValue::Int(i64::MAX));
}

#[test]
fn from_json5_reads_text() {
    let v = fromJSON5(text("{ // comment\n  b: 'x', a: [1, 2,], }"));
    assert_eq!(
        v,
        NixValue::Attrs(vec![
            (s("a"), NixValue::List(vec![NixValue::Int(1), NixValue::Int(2)])),
            (s("b"), NixValue::String(s("x"))),
        ])
    );
}

#[test]
fn try_from_json_errors() {
    assert_eq!(try_from_json(NixValue::Int(1)), Err(TextInputError::NotAString));
    assert_eq!(try_from_json(text("{")), Err(TextInputError::Syntax));
    assert_eq!(try_from_json(text("[1]")), Ok(NixValue::List(vec![NixValue::Int(1)])));
    assert_eq!(try_from_json5(NixValue::Null), Err(TextInputError::NotAString));
    assert_eq!(try_from_json5(text("{a:")), Err(TextInputError::Syntax));
    assert_eq!(try_from_json5(text("{a: 1}")), Ok(NixValue::Attrs(vec![(s("a"), NixValue::Int(1))])));
}

#[test]
fn nix_json_round_trip() {
    let v = NixValue::Attrs(vec![
        (s("a"), NixValue::List(vec![NixValue::Int(1), NixValue::Float(0.25f64.to_bits())])),
        (s("b"), NixValue::Attrs(vec![(s("c"), NixValue::Null), (s("d"), NixValue::Bool(true))])),
        (s("e"), NixValue::String(s("text"))),
    ]);
    assert_eq!(json_to_nix(&nix_to_json(&v)), v);
}

#[test]
fn json_nix_round_trip() {
    let j = Json::Object(vec![
        (s("k"), Json::Array(vec![Json::Number(JsonNumber::Int(3)), Json::Null])),
        (s("l"), Json::Number(JsonNumber::Float(1.5f64.to_bits()))),
    ]);
    assert_eq!(nix_to_json(&json_to_nix(&j)), j);
}
