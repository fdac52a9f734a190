use nix_wasm_lib::export::{
    export_runs_out,
    check_group, check_punct, parse_arg, parse_args, parse_export, parse_function, parse_ident,
    parse_lit, parse_punct, parse_until_group, wrapper_args, wrapper_params, wrapper_source, Delimiter,
    ExportError, ExportFailure, ParseError, Token, TokenKind,
};

fn ident(x: &str, span: u32) -> Token {
    Token { kind: TokenKind::Ident(x.to_string()), span }
}

fn punct(c: char, span: u32) -> Token {
    Token { kind: TokenKind::Punct(c), span }
}

fn group(d: Delimiter, inner: Vec<Token>, span: u32) -> Token {
    Token { kind: TokenKind::Group(d, inner), span }
}

/// `pub fn f(a: NixValue, b: nix_types::NixValue) -> NixValue { }`
fn signature() -> Vec<Token> {
    vec![
        ident("pub", 0),
        ident("fn", 1),
        ident("f", 2),
        group(
            Delimiter::Parenthesis,
            vec![
                ident("a", 10),
                punct(':', 11),
                ident("NixValue", 12),
                punct(',', 13),
                ident("b", 14),
                punct(':', 15),
                ident("nix_types", 16),
                punct(':', 17),
                punct(':', 18),
                ident("NixValue", 19),
            ],
            3,
        ),
        punct('-', 4),
        punct('>', 5),
        ident("NixValue", 6),
        group(Delimiter::Brace, vec![], 7),
    ]
}

#[test]
fn signature_is_read() {
    let sig = parse_export(&signature()).unwrap();
    assert_eq!(sig.name, "f");
    assert_eq!(sig.args_at, 3);
    assert_eq!(sig.args.len(), 2);
    assert_eq!(sig.args[0].name, "a");
    assert_eq!((sig.args[0].ty_start, sig.args[0].ty_end), (2, 3));
    assert_eq!(sig.args[1].name, "b");
    assert_eq!((sig.args[1].ty_start, sig.args[1].ty_end), (6, 10));
    assert_eq!((sig.ret_start, sig.ret_end), (6, 7));
    assert_eq!(sig.body_at, 7);
}

#[test]
fn wrapper_lists_are_written() {
    let sig = parse_export(&signature()).unwrap();
    assert_eq!(
        wrapper_params(&sig.args),
        "a: nix_types::compat::Value, b: nix_types::compat::Value"
    );
    assert_eq!(
        wrapper_args(&sig.args),
        "nix_types::NixValue::from(a).into(), nix_types::NixValue::from(b).into()"
    );
    assert_eq!(wrapper_params(&vec![]), "");
    assert_eq!(wrapper_args(&vec![]), "");
}

#[test]
fn private_function_is_refused() {
    let mut ts = signature();
    ts.remove(0);
    assert_eq!(
        parse_export(&ts).unwrap_err(),
        ExportError { failure: ExportFailure::NotPublic, span: Some(1) }
    );
    assert_eq!(
        parse_export(&vec![]).unwrap_err(),
        ExportError { failure: ExportFailure::NotPublic, span: None }
    );
}

#[test]
fn missing_parts_are_reported() {
    let mut ts = signature();
    ts[1] = ident("struct", 1);
    assert_eq!(parse_export(&ts).unwrap_err(), ExportError { failure: ExportFailure::ExpectedFn, span: Some(1) });

    let mut ts = signature();
    ts[2] = punct('*', 2);
    assert_eq!(parse_export(&ts).unwrap_err(), ExportError { failure: ExportFailure::ExpectedName, span: Some(2) });

    let mut ts = signature();
    ts[3] = ident("x", 3);
    assert_eq!(
        parse_export(&ts).unwrap_err(),
        ExportError { failure: ExportFailure::ExpectedArguments, span: Some(3) }
    );

    let mut ts = signature();
    ts.truncate(4);
    assert_eq!(
        parse_export(&ts).unwrap_err(),
        ExportError { failure: ExportFailure::NoReturnValue, span: None }
    );

    let mut ts = signature();
    ts[5] = punct('-', 5);
    assert_eq!(parse_export(&ts).unwrap_err(), ExportError { failure: ExportFailure::ExpectedArrow, span: Some(5) });

    let mut ts = signature();
    ts[7] = group(Delimiter::Bracket, vec![], 7);
    assert_eq!(parse_export(&ts).unwrap_err(), ExportError { failure: ExportFailure::ExpectedBody, span: Some(7) });

    let mut ts = signature();
    ts.truncate(7);
    assert_eq!(parse_export(&ts).unwrap_err(), ExportError { failure: ExportFailure::ExpectedBody, span: None });
}

#[test]
fn messages_are_the_compile_errors() {
    assert_eq!(ExportFailure::NotPublic.message(), "A function must be public to be exported to Nix.");
    assert_eq!(ExportFailure::ExpectedFn.message(), "Expected fn");
    assert_eq!(ExportFailure::ExpectedName.message(), "Expected function name.");
    assert_eq!(ExportFailure::ExpectedArguments.message(), "Expected arguments.");
    assert_eq!(
        ExportFailure::NoReturnValue.message(),
        "A function must return a value to be exported to Nix."
    );
    assert_eq!(ExportFailure::ExpectedArrow.message(), "Expected ->");
    assert_eq!(ExportFailure::ExpectedBody.message(), "Expected function body.");
}

#[test]
fn single_steps() {
    let ts = signature();
    assert_eq!(parse_ident(&ts, 2), Ok(("f".to_string(), 2, 3)));
    assert_eq!(parse_ident(&ts, 4), Err(ParseError::NonMatch(4)));
    assert_eq!(parse_ident(&ts, 8), Err(ParseError::NoneLeft));
    assert_eq!(parse_lit(&ts, 0, "pub"), Ok(1));
    assert_eq!(parse_lit(&ts, 1, "pub"), Err(ParseError::NonMatch(1)));
    assert_eq!(parse_punct(&ts, 4, '-'), Ok(5));
    assert_eq!(parse_punct(&ts, 4, '>'), Err(ParseError::NonMatch(4)));
    assert_eq!(check_punct(&ts, 4, '-'), Ok(true));
    assert_eq!(check_punct(&ts, 2, '-'), Ok(false));
    assert_eq!(check_punct(&ts, 8, '-'), Err(ParseError::NoneLeft));
    assert_eq!(check_group(&ts, 3), Ok(true));
    assert_eq!(check_group(&ts, 2), Ok(false));
    assert_eq!(check_group(&ts, 8), Err(ParseError::NoneLeft));
    assert_eq!(parse_until_group(&ts, 4), 7);
    assert_eq!(parse_until_group(&ts, 8), 8);
    assert_eq!(parse_function(&ts, 7), Ok(8));
    assert_eq!(parse_function(&ts, 3), Err(ParseError::NonMatch(3)));
    let (args, next) = parse_args(&ts, 3).unwrap();
    assert_eq!((args.len(), next), (2, 4));
    let a = parse_arg(&ts, 2);
    assert_eq!(a.unwrap_err(), ParseError::NonMatch(3));
}

#[test]
fn argument_list_stops_where_no_argument_follows() {
    // `(a: T, 1)`: the list ends before `1`.
    let ts = vec![group(
        Delimiter::Parenthesis,
        vec![ident("a", 1), punct(':', 2), ident("T", 3), punct(',', 4), Token { kind: TokenKind::Literal, span: 5 }],
        0,
    )];
    let (args, next) = parse_args(&ts, 0).unwrap();
    assert_eq!(next, 1);
    assert_eq!(args.len(), 1);
    assert_eq!(args[0].name, "a");
    // `()`: no arguments.
    let empty = vec![group(Delimiter::Parenthesis, vec![], 0)];
    assert_eq!(parse_args(&empty, 0).unwrap().0.len(), 0);
}

#[test]
fn running_out_after_the_name_is_seen() {
    let ts = vec![ident("pub", 0), ident("fn", 1), ident("f", 2)];
    assert!(export_runs_out(&ts));
    assert!(!export_runs_out(&signature()));
    assert!(!export_runs_out(&vec![ident("pub", 0), ident("fn", 1)]));
    assert!(!export_runs_out(&vec![ident("fn", 0), ident("fn", 1), ident("f", 2)]));
}

#[test]
fn trailing_comma_grouped_types_and_rest_are_handled() {
    // `pub fn g(xs: Vec<(i64, i64)>,) -> Option<u8> { } struct Rest;`
    let ts = vec![
        ident("pub", 0),
        ident("fn", 1),
        ident("g", 2),
        group(
            Delimiter::Parenthesis,
            vec![
                ident("xs", 10),
                punct(':', 11),
                ident("Vec", 12),
                punct('<', 13),
                group(
                    Delimiter::Parenthesis,
                    vec![ident("i64", 20), punct(',', 21), ident("i64", 22)],
                    14,
                ),
                punct('>', 15),
                punct(',', 16),
            ],
            3,
        ),
        punct('-', 4),
        punct('>', 5),
        ident("Option", 6),
        punct('<', 7),
        ident("u8", 8),
        punct('>', 9),
        group(Delimiter::Brace, vec![], 30),
        ident("struct", 31),
        ident("Rest", 32),
        punct(';', 33),
    ];
    let sig = parse_export(&ts).unwrap();
    assert_eq!(sig.name, "g");
    assert_eq!(sig.args.len(), 1);
    assert_eq!(sig.args[0].name, "xs");
    assert_eq!((sig.args[0].ty_start, sig.args[0].ty_end), (2, 6));
    assert_eq!((sig.ret_start, sig.ret_end), (6, 10));
    assert_eq!(sig.body_at, 10);
    assert_eq!(wrapper_params(&sig.args), "xs: nix_types::compat::Value");
}

#[test]
fn wrapper_source_is_written() {
    let sig = parse_export(&signature()).unwrap();
    assert_eq!(
        wrapper_source("f", "(a : NixValue)", "NixValue", "{ a }", &sig.args),
        "#[unsafe(no_mangle)] pub extern \"C\" fn f(a: nix_types::compat::Value, b: nix_types::compat::Value) -> nix_types::compat::Value { use nix_types::compat::Value as _; use nix_types::NixValue as _; fn __f (a : NixValue) -> NixValue { a } nix_types::compat::Value::from(nix_types::NixValue::from(__f(nix_types::NixValue::from(a).into(), nix_types::NixValue::from(b).into()))) }"
    );
}
