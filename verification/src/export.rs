//! Reading the signature of a function that is exported to Nix.
//!
//! The exporting attribute sees the function as a stream of tokens. This
//! module reads that stream (`pub fn name(args) -> type { body }`), finds the
//! function's name, the names of its arguments, where its return type and its
//! body stand, and writes the argument lists of the exported wrapper.
use vstd::prelude::*;
use vstd::string::StringExecFns;

verus! {

/// How a group of tokens is delimited.
#[derive(Clone, Copy, Debug, PartialEq, Eq, Structural)]
pub enum Delimiter {
    Parenthesis,
    Brace,
    Bracket,
    /// An invisible group (`proc_macro`'s `Delimiter::None`).
    Invisible,
}

/// A token: an identifier, a punctuation character, a literal, or a
/// delimited group of tokens.
#[derive(Debug, PartialEq)]
pub enum TokenKind {
    Ident(String),
    Punct(char),
    Literal,
    Group(Delimiter, Vec<Token>),
}

/// A token with the number of its place in the source (its span).
#[derive(Debug, PartialEq)]
pub struct Token {
    pub kind: TokenKind,
    pub span: u32,
}

/// Why reading a token failed: a token of another kind stands there (with its
/// span), or no token is left.
#[derive(Clone, Copy, Debug, PartialEq, Eq, Structural)]
pub enum ParseError {
    NonMatch(u32),
    NoneLeft,
}

// ---------------------------------------------------------------------------
// The single steps, as functions of the token sequence and a position.
pub open spec fn spec_parse_ident(ts: Seq<Token>, pos: int) -> Result<(Seq<char>, u32, int), ParseError> {
    if pos >= ts.len() {
        Err(ParseError::NoneLeft)
    } else {
        match ts[pos].kind {
            TokenKind::Ident(s) => Ok((s@, ts[pos].span, pos + 1)),
            _ => Err(ParseError::NonMatch(ts[pos].span)),
        }
    }
}

pub open spec fn spec_parse_lit(ts: Seq<Token>, pos: int, lit: Seq<char>) -> Result<int, ParseError> {
    match spec_parse_ident(ts, pos) {
        Err(e) => Err(e),
        Ok((s, sp, p)) => if s == lit {
            Ok(p)
        } else {
            Err(ParseError::NonMatch(sp))
        },
    }
}

pub open spec fn spec_parse_group(ts: Seq<Token>, pos: int) -> Result<int, ParseError> {
    if pos >= ts.len() {
        Err(ParseError::NoneLeft)
    } else if ts[pos].kind is Group {
        Ok(pos + 1)
    } else {
        Err(ParseError::NonMatch(ts[pos].span))
    }
}

pub open spec fn spec_parse_function(ts: Seq<Token>, pos: int) -> Result<int, ParseError> {
    if pos >= ts.len() {
        Err(ParseError::NoneLeft)
    } else {
        match ts[pos].kind {
            TokenKind::Group(d, _) => if d == Delimiter::Brace {
                Ok(pos + 1)
            } else {
                Err(ParseError::NonMatch(ts[pos].span))
            },
            _ => Err(ParseError::NonMatch(ts[pos].span)),
        }
    }
}

pub open spec fn spec_parse_punct(ts: Seq<Token>, pos: int, c: char) -> Result<int, ParseError> {
    if pos >= ts.len() {
        Err(ParseError::NoneLeft)
    } else {
        match ts[pos].kind {
            TokenKind::Punct(p) => if p == c {
                Ok(pos + 1)
            } else {
                Err(ParseError::NonMatch(ts[pos].span))
            },
            _ => Err(ParseError::NonMatch(ts[pos].span)),
        }
    }
}

pub open spec fn spec_check_punct(ts: Seq<Token>, pos: int, c: char) -> Result<bool, ParseError> {
    if pos >= ts.len() {
        Err(ParseError::NoneLeft)
    } else {
        match ts[pos].kind {
            TokenKind::Punct(p) => Ok(p == c),
            _ => Ok(false),
        }
    }
}

pub open spec fn spec_check_group(ts: Seq<Token>, pos: int) -> Result<bool, ParseError> {
    if pos >= ts.len() {
        Err(ParseError::NoneLeft)
    } else {
        Ok(ts[pos].kind is Group)
    }
}

/// The first position at or after `pos` where a group stands, or the end.
pub open spec fn spec_group_end(ts: Seq<Token>, pos: int) -> int
    decreases ts.len() - pos,
{
    if pos >= ts.len() || ts[pos].kind is Group {
        pos
    } else {
        spec_group_end(ts, pos + 1)
    }
}

/// The first position at or after `pos` where a `,` stands, or the end.
pub open spec fn spec_comma_end(ts: Seq<Token>, pos: int) -> int
    decreases ts.len() - pos,
{
    if pos >= ts.len() || ts[pos].kind == TokenKind::Punct(',') {
        pos
    } else {
        spec_comma_end(ts, pos + 1)
    }
}

/// An argument `name: type`: its name, and where its type starts and ends.
pub open spec fn spec_parse_arg(ts: Seq<Token>, pos: int) -> Result<(Seq<char>, int, int), ParseError> {
    match spec_parse_ident(ts, pos) {
        Err(e) => Err(e),
        Ok((name, _, p1)) => match spec_parse_punct(ts, p1, ':') {
            Err(e) => Err(e),
            Ok(p2) => Ok((name, p2, spec_comma_end(ts, p2))),
        },
    }
}

pub proof fn lemma_comma_end(ts: Seq<Token>, pos: int)
    requires
        pos <= ts.len(),
    ensures
        pos <= spec_comma_end(ts, pos) <= ts.len(),
        spec_comma_end(ts, pos) < ts.len() ==> ts[spec_comma_end(ts, pos)].kind == TokenKind::Punct(
            ',',
        ),
    decreases ts.len() - pos,
{
    if pos < ts.len() && ts[pos].kind != TokenKind::Punct(',') {
        lemma_comma_end(ts, pos + 1);
    }
}

pub proof fn lemma_group_end(ts: Seq<Token>, pos: int)
    requires
        pos <= ts.len(),
    ensures
        pos <= spec_group_end(ts, pos) <= ts.len(),
        spec_group_end(ts, pos) < ts.len() ==> ts[spec_group_end(ts, pos)].kind is Group,
    decreases ts.len() - pos,
{
    if pos < ts.len() && !(ts[pos].kind is Group) {
        lemma_group_end(ts, pos + 1);
    }
}

/// Reading an argument takes at least its name and its `:`.
pub proof fn lemma_parse_arg_advances(ts: Seq<Token>, pos: int)
    ensures
        spec_parse_arg(ts, pos) matches Ok((_, s, e)) ==> pos + 2 == s && s <= e <= ts.len(),
{
    if spec_parse_arg(ts, pos) is Ok {
        lemma_comma_end(ts, pos + 2);
    }
}

/// The arguments from `pos` on in a group's tokens: arguments separated by
/// `,`; the list ends where no further argument can be read.
pub open spec fn spec_parse_arg_list(ts: Seq<Token>, pos: int) -> Result<Seq<(Seq<char>, int, int)>, ParseError>
    decreases ts.len() - pos,
{
    match spec_parse_arg(ts, pos) {
        Err(_) => Ok(Seq::empty()),
        Ok((name, s, e)) => {
            proof {
                lemma_parse_arg_advances(ts, pos);
            }
            if spec_check_punct(ts, e, ',') == Ok::<bool, ParseError>(true) {
                match spec_parse_arg_list(ts, e + 1) {
                    Ok(rest) => Ok(seq![(name, s, e)] + rest),
                    Err(x) => Err(x),
                }
            } else if e < ts.len() {
                Err(ParseError::NonMatch(ts[e].span))
            } else {
                Ok(seq![(name, s, e)])
            }
        },
    }
}

/// The argument group at `pos`: its arguments, and the position after it.
pub open spec fn spec_parse_args(ts: Seq<Token>, pos: int) -> Result<(Seq<(Seq<char>, int, int)>, int), ParseError> {
    if pos >= ts.len() {
        Err(ParseError::NoneLeft)
    } else {
        match ts[pos].kind {
            TokenKind::Group(_, inner) => match spec_parse_arg_list(inner@, 0) {
                Ok(args) => Ok((args, pos + 1)),
                Err(e) => Err(e),
            },
            _ => Err(ParseError::NonMatch(ts[pos].span)),
        }
    }
}


// ---------------------------------------------------------------------------
// The whole signature.
/// What the exported function's signature lacks.
#[derive(Clone, Copy, Debug, PartialEq, Eq, Structural)]
pub enum ExportFailure {
    NotPublic,
    ExpectedFn,
    ExpectedName,
    ExpectedArguments,
    NoReturnValue,
    ExpectedArrow,
    ExpectedBody,
}

/// A signature that cannot be exported: what it lacks, and the span of the
/// token that stands in its place (none where the tokens ran out).
#[derive(Clone, Copy, Debug, PartialEq, Eq)]
pub struct ExportError {
    pub failure: ExportFailure,
    pub span: Option<u32>,
}

pub open spec fn export_error(f: ExportFailure, e: ParseError) -> ExportError {
    ExportError {
        failure: f,
        span: match e {
            ParseError::NonMatch(s) => Some(s),
            ParseError::NoneLeft => None,
        },
    }
}

/// An argument of the exported function: its name, and where its type starts
/// and ends among the tokens of the argument group.
#[derive(Debug, PartialEq)]
pub struct Arg {
    pub name: String,
    pub ty_start: usize,
    pub ty_end: usize,
}

/// The parts of an exported function's signature, as positions in its
/// tokens: the argument group stands at `args_at`, the return type from
/// `ret_start` to `ret_end`, the body at `body_at`.
#[derive(Debug, PartialEq)]
pub struct ExportSignature {
    pub name: String,
    pub args_at: usize,
    pub args: Vec<Arg>,
    pub ret_start: usize,
    pub ret_end: usize,
    pub body_at: usize,
}

pub open spec fn arg_view(a: Arg) -> (Seq<char>, int, int) {
    (a.name@, a.ty_start as int, a.ty_end as int)
}

pub open spec fn args_view(args: Seq<Arg>) -> Seq<(Seq<char>, int, int)> {
    args.map_values(|a: Arg| arg_view(a))
}

/// The signature's parts as plain values: name, argument group position,
/// arguments, return type start and end, body position.
pub open spec fn signature_view(sig: ExportSignature) -> (Seq<char>, int, Seq<(Seq<char>, int, int)>, int, int, int) {
    (sig.name@, sig.args_at as int, args_view(sig.args@), sig.ret_start as int, sig.ret_end as int, sig.body_at as int)
}

/// Reading the signature stops at the argument group when the tokens end
/// right after the name (no token to take the argument list from).
pub open spec fn spec_export_runs_out(ts: Seq<Token>) -> bool {
    &&& spec_parse_lit(ts, 0, "pub"@) matches Ok(p1)
    &&& spec_parse_lit(ts, p1, "fn"@) matches Ok(p2)
    &&& spec_parse_ident(ts, p2) matches Ok((_, _, p3))
    &&& p3 >= ts.len()
}

/// Reading `pub fn name(args) -> type { body }`.
pub open spec fn spec_parse_export(ts: Seq<Token>) -> Result<
    (Seq<char>, int, Seq<(Seq<char>, int, int)>, int, int, int),
    ExportError,
> {
    match spec_parse_lit(ts, 0, "pub"@) {
        Err(e) => Err(export_error(ExportFailure::NotPublic, e)),
        Ok(p1) => match spec_parse_lit(ts, p1, "fn"@) {
            Err(e) => Err(export_error(ExportFailure::ExpectedFn, e)),
            Ok(p2) => match spec_parse_ident(ts, p2) {
                Err(e) => Err(export_error(ExportFailure::ExpectedName, e)),
                Ok((name, _, p3)) => match spec_parse_args(ts, p3) {
                    Err(e) => Err(export_error(ExportFailure::ExpectedArguments, e)),
                    Ok((args, p4)) => match spec_parse_punct(ts, p4, '-') {
                        Err(e) => Err(export_error(ExportFailure::NoReturnValue, e)),
                        Ok(p5) => match spec_parse_punct(ts, p5, '>') {
                            Err(e) => Err(export_error(ExportFailure::ExpectedArrow, e)),
                            Ok(p6) => {
                                let p7 = spec_group_end(ts, p6);
                                match spec_parse_function(ts, p7) {
                                    Err(e) => Err(export_error(ExportFailure::ExpectedBody, e)),
                                    Ok(_) => Ok((name, p3, args, p6, p7, p7)),
                                }
                            },
                        },
                    },
                },
            },
        },
    }
}

// ---------------------------------------------------------------------------
// Executable steps.
/// Reads an identifier at `pos`: its text, its span, and the next position.
pub fn parse_ident(ts: &Vec<Token>, pos: usize) -> (r: Result<(String, u32, usize), ParseError>)
    ensures
        match r {
            Ok((s, sp, p)) => spec_parse_ident(ts@, pos as int) == Ok::<(Seq<char>, u32, int), ParseError>((s@, sp, p as int)),
            Err(e) => spec_parse_ident(ts@, pos as int) == Err::<(Seq<char>, u32, int), ParseError>(e),
        },
{
    if pos >= ts.len() {
        return Err(ParseError::NoneLeft);
    }
    match &ts[pos].kind {
        TokenKind::Ident(s) => Ok((s.clone(), ts[pos].span, pos + 1)),
        _ => Err(ParseError::NonMatch(ts[pos].span)),
    }
}

/// Reads the identifier `lit` at `pos`, giving the next position.
pub fn parse_lit(ts: &Vec<Token>, pos: usize, lit: &str) -> (r: Result<usize, ParseError>)
    ensures
        match r {
            Ok(p) => spec_parse_lit(ts@, pos as int, lit@) == Ok::<int, ParseError>(p as int),
            Err(e) => spec_parse_lit(ts@, pos as int, lit@) == Err::<int, ParseError>(e),
        },
{
    let (id, span, next) = match parse_ident(ts, pos) {
        Ok(x) => x,
        Err(e) => {
            return Err(e);
        },
    };
    let expected = lit.to_owned();
    if id == expected {
        Ok(next)
    } else {
        Err(ParseError::NonMatch(span))
    }
}

/// Reads a group at `pos`, giving the next position.
pub fn parse_group(ts: &Vec<Token>, pos: usize) -> (r: Result<usize, ParseError>)
    ensures
        match r {
            Ok(p) => spec_parse_group(ts@, pos as int) == Ok::<int, ParseError>(p as int),
            Err(e) => spec_parse_group(ts@, pos as int) == Err::<int, ParseError>(e),
        },
{
    if pos >= ts.len() {
        return Err(ParseError::NoneLeft);
    }
    match &ts[pos].kind {
        TokenKind::Group(_, _) => Ok(pos + 1),
        _ => Err(ParseError::NonMatch(ts[pos].span)),
    }
}

/// Reads a brace-delimited group (a function body) at `pos`.
pub fn parse_function(ts: &Vec<Token>, pos: usize) -> (r: Result<usize, ParseError>)
    ensures
        match r {
            Ok(p) => spec_parse_function(ts@, pos as int) == Ok::<int, ParseError>(p as int),
            Err(e) => spec_parse_function(ts@, pos as int) == Err::<int, ParseError>(e),
        },
{
    if pos >= ts.len() {
        return Err(ParseError::NoneLeft);
    }
    match &ts[pos].kind {
        TokenKind::Group(d, _) => {
            if *d == Delimiter::Brace {
                Ok(pos + 1)
            } else {
                Err(ParseError::NonMatch(ts[pos].span))
            }
        },
        _ => Err(ParseError::NonMatch(ts[pos].span)),
    }
}

/// Reads the punctuation character `c` at `pos`.
pub fn parse_punct(ts: &Vec<Token>, pos: usize, c: char) -> (r: Result<usize, ParseError>)
    ensures
        match r {
            Ok(p) => spec_parse_punct(ts@, pos as int, c) == Ok::<int, ParseError>(p as int),
            Err(e) => spec_parse_punct(ts@, pos as int, c) == Err::<int, ParseError>(e),
        },
{
    if pos >= ts.len() {
        return Err(ParseError::NoneLeft);
    }
    match &ts[pos].kind {
        TokenKind::Punct(p) => {
            if *p == c {
                Ok(pos + 1)
            } else {
                Err(ParseError::NonMatch(ts[pos].span))
            }
        },
        _ => Err(ParseError::NonMatch(ts[pos].span)),
    }
}

/// Tells whether the punctuation character `c` stands at `pos`.
pub fn check_punct(ts: &Vec<Token>, pos: usize, c: char) -> (r: Result<bool, ParseError>)
    ensures
        r == spec_check_punct(ts@, pos as int, c),
{
    if pos >= ts.len() {
        return Err(ParseError::NoneLeft);
    }
    match &ts[pos].kind {
        TokenKind::Punct(p) => Ok(*p == c),
        _ => Ok(false),
    }
}

/// Tells whether a group stands at `pos`.
pub fn check_group(ts: &Vec<Token>, pos: usize) -> (r: Result<bool, ParseError>)
    ensures
        r == spec_check_group(ts@, pos as int),
{
    if pos >= ts.len() {
        return Err(ParseError::NoneLeft);
    }
    match &ts[pos].kind {
        TokenKind::Group(_, _) => Ok(true),
        _ => Ok(false),
    }
}

/// Skips the tokens before the next group: gives the position of that group,
/// or the end.
pub fn parse_until_group(ts: &Vec<Token>, pos: usize) -> (r: usize)
    requires
        pos <= ts@.len(),
    ensures
        r == spec_group_end(ts@, pos as int),
{
    let mut p = pos;
    loop
        invariant
            pos <= p <= ts@.len(),
            spec_group_end(ts@, p as int) == spec_group_end(ts@, pos as int),
        decreases ts@.len() - p,
    {
        match check_group(ts, p) {
            Ok(false) => {
                assert(p < ts@.len());
                assert(ts@.len() == ts.len());
                p = p + 1;
            },
            _ => {
                return p;
            },
        }
    }
}

/// Skips the tokens before the next `,`: gives its position, or the end.
fn skip_to_comma(ts: &Vec<Token>, pos: usize) -> (r: usize)
    requires
        pos <= ts@.len(),
    ensures
        r == spec_comma_end(ts@, pos as int),
{
    let mut p = pos;
    loop
        invariant
            pos <= p <= ts@.len(),
            spec_comma_end(ts@, p as int) == spec_comma_end(ts@, pos as int),
        decreases ts@.len() - p,
    {
        match check_punct(ts, p, ',') {
            Ok(false) => {
                assert(p < ts@.len());
                assert(ts@.len() == ts.len());
                p = p + 1;
            },
            _ => {
                return p;
            },
        }
    }
}

/// Reads an argument `name: type` at `pos`; its type runs to the next `,`.
pub fn parse_arg(ts: &Vec<Token>, pos: usize) -> (r: Result<Arg, ParseError>)
    ensures
        match r {
            Ok(a) => spec_parse_arg(ts@, pos as int) == Ok::<(Seq<char>, int, int), ParseError>(arg_view(a)),
            Err(e) => spec_parse_arg(ts@, pos as int) == Err::<(Seq<char>, int, int), ParseError>(e),
        },
{
    let (name, _span, p1) = match parse_ident(ts, pos) {
        Ok(x) => x,
        Err(e) => {
            return Err(e);
        },
    };
    let p2 = match parse_punct(ts, p1, ':') {
        Ok(p) => p,
        Err(e) => {
            return Err(e);
        },
    };
    let end = skip_to_comma(ts, p2);
    Ok(Arg { name, ty_start: p2, ty_end: end })
}

/// Reads the argument list inside an argument group's tokens.
fn parse_arg_list(ts: &Vec<Token>) -> (r: Result<Vec<Arg>, ParseError>)
    ensures
        match r {
            Ok(args) => spec_parse_arg_list(ts@, 0) == Ok::<Seq<(Seq<char>, int, int)>, ParseError>(args_view(args@)),
            Err(e) => spec_parse_arg_list(ts@, 0) == Err::<Seq<(Seq<char>, int, int)>, ParseError>(e),
        },
{
    let mut args: Vec<Arg> = Vec::new();
    let mut p: usize = 0;
    assert(args_view(args@) + Seq::<(Seq<char>, int, int)>::empty() =~= args_view(args@));
    loop
        invariant
            p <= ts@.len(),
            spec_parse_arg_list(ts@, 0) == match spec_parse_arg_list(ts@, p as int) {
                Ok(rest) => Ok(args_view(args@) + rest),
                Err(x) => Err::<Seq<(Seq<char>, int, int)>, ParseError>(x),
            },
        decreases ts@.len() - p,
    {
        proof {
            lemma_parse_arg_advances(ts@, p as int);
        }
        let a = match parse_arg(ts, p) {
            Ok(a) => a,
            Err(_) => {
                assert(args_view(args@) + Seq::<(Seq<char>, int, int)>::empty() =~= args_view(args@));
                return Ok(args);
            },
        };
        let e = a.ty_end;
        let ghost av = arg_view(a);
        let ghost before = args_view(args@);
        match check_punct(ts, e, ',') {
            Ok(true) => {
                let q = match parse_punct(ts, e, ',') {
                    Ok(q) => q,
                    Err(x) => {
                        return Err(x);
                    },
                };
                args.push(a);
                proof {
                    assert(args_view(args@) =~= before.push(av));
                    match spec_parse_arg_list(ts@, q as int) {
                        Ok(rest) => {
                            assert(before + (seq![av] + rest) =~= before.push(av) + rest);
                        },
                        Err(_) => {},
                    }
                }
                p = q;
            },
            _ => {
                if e < ts.len() {
                    return Err(ParseError::NonMatch(ts[e].span));
                }
                args.push(a);
                assert(args_view(args@) =~= before + seq![av]);
                return Ok(args);
            },
        }
    }
}

/// Reads the argument group at `pos`: its arguments and the next position.
pub fn parse_args(ts: &Vec<Token>, pos: usize) -> (r: Result<(Vec<Arg>, usize), ParseError>)
    ensures
        match r {
            Ok((args, p)) => spec_parse_args(ts@, pos as int) == Ok::<(Seq<(Seq<char>, int, int)>, int), ParseError>((args_view(args@), p as int)),
            Err(e) => spec_parse_args(ts@, pos as int) == Err::<(Seq<(Seq<char>, int, int)>, int), ParseError>(e),
        },
{
    let next = match parse_group(ts, pos) {
        Ok(p) => p,
        Err(e) => {
            return Err(e);
        },
    };
    match &ts[pos].kind {
        TokenKind::Group(_, inner) => match parse_arg_list(inner) {
            Ok(args) => Ok((args, next)),
            Err(e) => Err(e),
        },
        _ => Err(ParseError::NonMatch(ts[pos].span)),
    }
}

/// Reads the signature `pub fn name(args) -> type { body }` of a function to
/// export, or says what it lacks.
pub fn parse_export(ts: &Vec<Token>) -> (r: Result<ExportSignature, ExportError>)
    requires
        !spec_export_runs_out(ts@),
    ensures
        match r {
            Ok(sig) => spec_parse_export(ts@) == Ok::<(Seq<char>, int, Seq<(Seq<char>, int, int)>, int, int, int), ExportError>(signature_view(sig)),
            Err(e) => spec_parse_export(ts@) == Err::<(Seq<char>, int, Seq<(Seq<char>, int, int)>, int, int, int), ExportError>(e),
        },
{
    let p1 = match parse_lit(ts, 0, "pub") {
        Ok(p) => p,
        Err(e) => {
            return Err(export_error_of(ExportFailure::NotPublic, e));
        },
    };
    let p2 = match parse_lit(ts, p1, "fn") {
        Ok(p) => p,
        Err(e) => {
            return Err(export_error_of(ExportFailure::ExpectedFn, e));
        },
    };
    let (name, _span, p3) = match parse_ident(ts, p2) {
        Ok(x) => x,
        Err(e) => {
            return Err(export_error_of(ExportFailure::ExpectedName, e));
        },
    };
    let (args, p4) = match parse_args(ts, p3) {
        Ok(x) => x,
        Err(e) => {
            return Err(export_error_of(ExportFailure::ExpectedArguments, e));
        },
    };
    let p5 = match parse_punct(ts, p4, '-') {
        Ok(p) => p,
        Err(e) => {
            return Err(export_error_of(ExportFailure::NoReturnValue, e));
        },
    };
    let p6 = match parse_punct(ts, p5, '>') {
        Ok(p) => p,
        Err(e) => {
            return Err(export_error_of(ExportFailure::ExpectedArrow, e));
        },
    };
    let p7 = parse_until_group(ts, p6);
    match parse_function(ts, p7) {
        Ok(_) => {},
        Err(e) => {
            return Err(export_error_of(ExportFailure::ExpectedBody, e));
        },
    }
    Ok(ExportSignature { name, args_at: p3, args, ret_start: p6, ret_end: p7, body_at: p7 })
}

/// Tells whether the tokens end right after `pub fn name`, where reading the
/// signature cannot go on (see `parse_export`).
pub fn export_runs_out(ts: &Vec<Token>) -> (r: bool)
    ensures
        r == spec_export_runs_out(ts@),
{
    match parse_lit(ts, 0, "pub") {
        Ok(p1) => match parse_lit(ts, p1, "fn") {
            Ok(p2) => match parse_ident(ts, p2) {
                Ok((_, _, p3)) => p3 >= ts.len(),
                Err(_) => false,
            },
            Err(_) => false,
        },
        Err(_) => false,
    }
}

fn export_error_of(f: ExportFailure, e: ParseError) -> (r: ExportError)
    ensures
        r == export_error(f, e),
{
    ExportError {
        failure: f,
        span: match e {
            ParseError::NonMatch(s) => Some(s),
            ParseError::NoneLeft => None,
        },
    }
}


// ---------------------------------------------------------------------------
// Messages and the wrapper's argument lists.
pub open spec fn export_message(f: ExportFailure) -> Seq<char> {
    match f {
        ExportFailure::NotPublic => "A function must be public to be exported to Nix."@,
        ExportFailure::ExpectedFn => "Expected fn"@,
        ExportFailure::ExpectedName => "Expected function name."@,
        ExportFailure::ExpectedArguments => "Expected arguments."@,
        ExportFailure::NoReturnValue => "A function must return a value to be exported to Nix."@,
        ExportFailure::ExpectedArrow => "Expected ->"@,
        ExportFailure::ExpectedBody => "Expected function body."@,
    }
}

impl ExportFailure {
    /// The compile error's message for this failure.
    pub fn message(&self) -> (r: &'static str)
        ensures
            r@ == export_message(*self),
    {
        match self {
            ExportFailure::NotPublic => "A function must be public to be exported to Nix.",
            ExportFailure::ExpectedFn => "Expected fn",
            ExportFailure::ExpectedName => "Expected function name.",
            ExportFailure::ExpectedArguments => "Expected arguments.",
            ExportFailure::NoReturnValue => "A function must return a value to be exported to Nix.",
            ExportFailure::ExpectedArrow => "Expected ->",
            ExportFailure::ExpectedBody => "Expected function body.",
        }
    }
}

/// A parameter of the exported wrapper: the argument's name taking a raw Nix
/// value.
pub open spec fn param_text(name: Seq<char>) -> Seq<char> {
    name + ": nix_types::compat::Value"@
}

/// What the wrapper passes on for an argument: the raw value made a
/// `NixValue`, then converted to the argument's type.
pub open spec fn pass_text(name: Seq<char>) -> Seq<char> {
    "nix_types::NixValue::from("@ + name + ").into()"@
}

/// The wrapper's parameters, separated by `, `.
pub open spec fn params_text(args: Seq<Arg>) -> Seq<char>
    decreases args.len(),
{
    if args.len() == 0 {
        Seq::empty()
    } else if args.len() == 1 {
        param_text(args[0].name@)
    } else {
        params_text(args.drop_last()) + ", "@ + param_text(args.last().name@)
    }
}

/// The wrapper's call arguments, separated by `, `.
pub open spec fn passes_text(args: Seq<Arg>) -> Seq<char>
    decreases args.len(),
{
    if args.len() == 0 {
        Seq::empty()
    } else if args.len() == 1 {
        pass_text(args[0].name@)
    } else {
        passes_text(args.drop_last()) + ", "@ + pass_text(args.last().name@)
    }
}

/// The source text of the exported wrapper of the function `name`, whose
/// argument group, return type and body read `group`, `ret` and `body`, and
/// whose arguments are `args`: a C-ABI function of the same name taking and
/// giving raw Nix values, which holds the function itself under the name
/// `__name` and calls it on the arguments made `NixValue`s and converted to
/// their types.
pub open spec fn wrapper_text(
    name: Seq<char>,
    group: Seq<char>,
    ret: Seq<char>,
    body: Seq<char>,
    args: Seq<Arg>,
) -> Seq<char> {
    "#[unsafe(no_mangle)] pub extern \"C\" fn "@ + name + "("@ + params_text(args)
        + ") -> nix_types::compat::Value { use nix_types::compat::Value as _; use nix_types::NixValue as _; fn __"@
        + name + " "@ + group + " -> "@ + ret + " "@ + body
        + " nix_types::compat::Value::from(nix_types::NixValue::from(__"@ + name + "("@
        + passes_text(args) + "))) }"@
}

/// Writes the exported wrapper's source text (see `wrapper_text`).
pub fn wrapper_source(name: &str, group: &str, ret: &str, body: &str, args: &Vec<Arg>) -> (r: String)
    ensures
        r@ == wrapper_text(name@, group@, ret@, body@, args@),
{
    let params = wrapper_params(args);
    let passes = wrapper_args(args);
    let mut out = String::new();
    out.append("#[unsafe(no_mangle)] pub extern \"C\" fn ");
    out.append(name);
    out.append("(");
    out.append(params.as_str());
    out.append(") -> nix_types::compat::Value { use nix_types::compat::Value as _; use nix_types::NixValue as _; fn __");
    out.append(name);
    out.append(" ");
    out.append(group);
    out.append(" -> ");
    out.append(ret);
    out.append(" ");
    out.append(body);
    out.append(" nix_types::compat::Value::from(nix_types::NixValue::from(__");
    out.append(name);
    out.append("(");
    out.append(passes.as_str());
    out.append("))) }");
    assert(out@ =~= wrapper_text(name@, group@, ret@, body@, args@));
    out
}

/// Writes the exported wrapper's parameter list.
pub fn wrapper_params(args: &Vec<Arg>) -> (r: String)
    ensures
        r@ == params_text(args@),
{
    let mut out = String::new();
    let mut i: usize = 0;
    assert(args@.take(0) =~= Seq::<Arg>::empty());
    while i < args.len()
        invariant
            i <= args@.len(),
            out@ == params_text(args@.take(i as int)),
        decreases args@.len() - i,
    {
        if i > 0 {
            out.append(", ");
        }
        out.append(args[i].name.as_str());
        out.append(": nix_types::compat::Value");
        proof {
            let t = args@.take(i + 1);
            assert(t.drop_last() =~= args@.take(i as int));
            assert(t.last() == args@[i as int]);
            if i == 0 {
                assert(t.len() == 1);
                assert(out@ =~= param_text(t[0].name@));
            } else {
                assert(out@ =~= params_text(t.drop_last()) + ", "@ + param_text(t.last().name@));
            }
        }
        i = i + 1;
    }
    assert(args@.take(i as int) =~= args@);
    out
}

/// Writes the arguments that the exported wrapper passes to the function.
pub fn wrapper_args(args: &Vec<Arg>) -> (r: String)
    ensures
        r@ == passes_text(args@),
{
    let mut out = String::new();
    let mut i: usize = 0;
    assert(args@.take(0) =~= Seq::<Arg>::empty());
    while i < args.len()
        invariant
            i <= args@.len(),
            out@ == passes_text(args@.take(i as int)),
        decreases args@.len() - i,
    {
        if i > 0 {
            out.append(", ");
        }
        out.append("nix_types::NixValue::from(");
        out.append(args[i].name.as_str());
        out.append(").into()");
        proof {
            let t = args@.take(i + 1);
            assert(t.drop_last() =~= args@.take(i as int));
            assert(t.last() == args@[i as int]);
            if i == 0 {
                assert(t.len() == 1);
                assert(out@ =~= pass_text(t[0].name@));
            } else {
                assert(out@ =~= passes_text(t.drop_last()) + ", "@ + pass_text(t.last().name@));
            }
        }
        i = i + 1;
    }
    assert(args@.take(i as int) =~= args@);
    out
}


// ---------------------------------------------------------------------------
// What a read signature looks like.
pub open spec fn is_ident_text(t: Token, text: Seq<char>) -> bool {
    t.kind matches TokenKind::Ident(s) && s@ == text
}

/// The tokens are a signature `pub fn name(args) -> ret { body }`: `pub`,
/// `fn`, the name, the argument group, `-`, `>`, the return type (tokens
/// without a group) and a brace-delimited body, possibly followed by more.
pub open spec fn is_signature(ts: Seq<Token>, ret_end: int) -> bool {
    &&& 6 <= ret_end < ts.len()
    &&& is_ident_text(ts[0], "pub"@)
    &&& is_ident_text(ts[1], "fn"@)
    &&& ts[2].kind is Ident
    &&& ts[3].kind is Group
    &&& ts[4].kind == TokenKind::Punct('-')
    &&& ts[5].kind == TokenKind::Punct('>')
    &&& forall|i: int| 6 <= i < ret_end ==> !(#[trigger] ts[i].kind is Group)
    &&& ts[ret_end].kind matches TokenKind::Group(d, _) && d == Delimiter::Brace
}

/// A signature is read exactly when the tokens have its shape and the
/// argument group's tokens can be read; then its name, arguments, return type
/// and body are what stand there.
pub proof fn lemma_signature_read(ts: Seq<Token>)
    ensures
        spec_parse_export(ts) matches Ok((name, args_at, args, ret_start, ret_end, body_at)) ==> {
            &&& is_signature(ts, ret_end)
            &&& ts[2].kind == TokenKind::Ident(ts[2].kind->Ident_0) && name == ts[2].kind->Ident_0@
            &&& args_at == 3
            &&& spec_parse_arg_list(ts[3].kind->Group_1@, 0) == Ok::<Seq<(Seq<char>, int, int)>, ParseError>(args)
            &&& ret_start == 6
            &&& body_at == ret_end
        },
        forall|ret_end: int|
            #[trigger] is_signature(ts, ret_end) && spec_parse_arg_list(ts[3].kind->Group_1@, 0) is Ok
                ==> spec_parse_export(ts) == Ok::<(Seq<char>, int, Seq<(Seq<char>, int, int)>, int, int, int), ExportError>((
                ts[2].kind->Ident_0@,
                3,
                spec_parse_arg_list(ts[3].kind->Group_1@, 0)->Ok_0,
                6,
                ret_end,
                ret_end,
            )),
{
    if spec_parse_export(ts) is Ok {
        lemma_group_end(ts, 6);
        let e = spec_group_end(ts, 6);
        assert forall|i: int| 6 <= i < e implies !(#[trigger] ts[i].kind is Group) by {
            lemma_group_end_skips(ts, 6, i);
        }
    }
    assert forall|ret_end: int|
        #[trigger] is_signature(ts, ret_end) && spec_parse_arg_list(ts[3].kind->Group_1@, 0) is Ok
        implies spec_parse_export(ts) == Ok::<(Seq<char>, int, Seq<(Seq<char>, int, int)>, int, int, int), ExportError>((
            ts[2].kind->Ident_0@,
            3,
            spec_parse_arg_list(ts[3].kind->Group_1@, 0)->Ok_0,
            6,
            ret_end,
            ret_end,
        )) by {
        lemma_group_end_at(ts, 6, ret_end);
    }
}

/// Every position that `spec_group_end` steps over holds no group.
proof fn lemma_group_end_skips(ts: Seq<Token>, pos: int, i: int)
    requires
        pos <= i < spec_group_end(ts, pos),
    ensures
        !(ts[i].kind is Group),
    decreases ts.len() - pos,
{
    if pos < ts.len() && !(ts[pos].kind is Group) && i > pos {
        lemma_group_end_skips(ts, pos + 1, i);
    }
}

/// Where no group stands from `pos` up to a group at `end`, `spec_group_end`
/// finds `end`.
proof fn lemma_group_end_at(ts: Seq<Token>, pos: int, end: int)
    requires
        pos <= end < ts.len(),
        ts[end].kind is Group,
        forall|i: int| pos <= i < end ==> !(#[trigger] ts[i].kind is Group),
    ensures
        spec_group_end(ts, pos) == end,
    decreases end - pos,
{
    if pos < end {
        lemma_group_end_at(ts, pos + 1, end);
    }
}


/// Each argument read from a group's tokens is an identifier, a `:`, and a
/// type that runs up to the next `,` or the end and holds no `,`.
pub open spec fn is_arg_at(ts: Seq<Token>, a: (Seq<char>, int, int)) -> bool {
    &&& 2 <= a.1 <= a.2 <= ts.len()
    &&& is_ident_text(ts[a.1 - 2], a.0)
    &&& ts[a.1 - 1].kind == TokenKind::Punct(':')
    &&& forall|i: int| a.1 <= i < a.2 ==> #[trigger] ts[i].kind != TokenKind::Punct(',')
    &&& (a.2 == ts.len() || ts[a.2].kind == TokenKind::Punct(','))
}

/// The arguments read from a group's tokens come in order, each as
/// `is_arg_at` describes, one after the other with a `,` between them.
pub proof fn lemma_arg_list_shape(ts: Seq<Token>, pos: int)
    requires
        0 <= pos,
    ensures
        spec_parse_arg_list(ts, pos) matches Ok(args) ==> {
            &&& forall|k: int| 0 <= k < args.len() ==> is_arg_at(ts, #[trigger] args[k])
            &&& args.len() > 0 ==> args[0].1 == pos + 2
            &&& forall|k: int| 0 < k < args.len() ==> #[trigger] args[k].1 == args[k - 1].2 + 3
        },
    decreases ts.len() - pos,
{
    lemma_parse_arg_advances(ts, pos);
    match spec_parse_arg(ts, pos) {
        Err(_) => {},
        Ok((name, s, e)) => {
            lemma_comma_end(ts, s);
            assert forall|i: int| s <= i < e implies #[trigger] ts[i].kind != TokenKind::Punct(',') by {
                lemma_comma_end_skips(ts, s, i);
            }
            assert(is_arg_at(ts, (name, s, e)));
            if spec_check_punct(ts, e, ',') == Ok::<bool, ParseError>(true) {
                lemma_arg_list_shape(ts, e + 1);
                match spec_parse_arg_list(ts, e + 1) {
                    Ok(rest) => {
                        let args = seq![(name, s, e)] + rest;
                        assert forall|k: int| 0 <= k < args.len() implies is_arg_at(ts, #[trigger] args[k]) by {
                            if k > 0 {
                                assert(args[k] == rest[k - 1]);
                            }
                        }
                        assert forall|k: int| 0 < k < args.len() implies #[trigger] args[k].1 == args[k - 1].2 + 3 by {
                            assert(args[k] == rest[k - 1]);
                            if k > 1 {
                                assert(args[k - 1] == rest[k - 2]);
                            }
                        }
                    },
                    Err(_) => {},
                }
            }
        },
    }
}

/// The tokens from `pos` on are the arguments `args`, `x1: T1, ..., xn: Tn`:
/// each as `is_arg_at` describes, one after the other with a `,` between
/// them, the last one followed by nothing or by one `,`; where `args` is
/// empty, no token stands there.
pub open spec fn is_arg_list(ts: Seq<Token>, pos: int, args: Seq<(Seq<char>, int, int)>) -> bool {
    if args.len() == 0 {
        pos >= ts.len()
    } else {
        &&& args[0].1 == pos + 2
        &&& forall|k: int| 0 <= k < args.len() ==> is_arg_at(ts, #[trigger] args[k])
        &&& forall|k: int| 0 < k < args.len() ==> #[trigger] args[k].1 == args[k - 1].2 + 3
        &&& (args.last().2 == ts.len() || args.last().2 + 1 == ts.len())
    }
}

/// Tokens that are an argument list are read as exactly those arguments.
pub proof fn lemma_arg_list_read(ts: Seq<Token>, pos: int, args: Seq<(Seq<char>, int, int)>)
    requires
        0 <= pos,
        is_arg_list(ts, pos, args),
    ensures
        spec_parse_arg_list(ts, pos) == Ok::<Seq<(Seq<char>, int, int)>, ParseError>(args),
    decreases args.len(),
{
    if args.len() > 0 {
        let a = args[0];
        assert(is_arg_at(ts, args[0]));
        lemma_comma_end_at(ts, a.1, a.2);
        assert(spec_parse_arg(ts, pos) == Ok::<(Seq<char>, int, int), ParseError>(a));
        if args.len() == 1 {
            if a.2 < ts.len() {
                assert(spec_parse_arg_list(ts, a.2 + 1) == Ok::<Seq<(Seq<char>, int, int)>, ParseError>(Seq::empty()));
                assert(seq![a] + Seq::<(Seq<char>, int, int)>::empty() =~= args);
            } else {
                assert(seq![a] =~= args);
            }
        } else {
            let rest = args.drop_first();
            assert(args[1].1 == a.2 + 3);
            assert(is_arg_at(ts, args[1]));
            assert forall|k: int| 0 <= k < rest.len() implies is_arg_at(ts, #[trigger] rest[k]) by {
                assert(rest[k] == args[k + 1]);
            }
            assert forall|k: int| 0 < k < rest.len() implies #[trigger] rest[k].1 == rest[k - 1].2 + 3 by {
                assert(rest[k] == args[k + 1]);
                assert(rest[k - 1] == args[k]);
            }
            assert(rest.last() == args.last());
            lemma_arg_list_read(ts, a.2 + 1, rest);
            assert(seq![a] + rest =~= args);
        }
    } else {
        assert(args =~= Seq::<(Seq<char>, int, int)>::empty());
    }
}

/// Where no `,` stands from `pos` up to `end`, and `end` is the end or a `,`,
/// `spec_comma_end` finds `end`.
proof fn lemma_comma_end_at(ts: Seq<Token>, pos: int, end: int)
    requires
        pos <= end <= ts.len(),
        end == ts.len() || ts[end].kind == TokenKind::Punct(','),
        forall|i: int| pos <= i < end ==> #[trigger] ts[i].kind != TokenKind::Punct(','),
    ensures
        spec_comma_end(ts, pos) == end,
    decreases end - pos,
{
    if pos < end {
        lemma_comma_end_at(ts, pos + 1, end);
    }
}

/// A token stream of the shape `pub fn F(x1: T1, ..., xn: Tn) -> R { B } ...`
/// (`is_signature`, with the argument group an argument list) is read as
/// the signature of `F`: its arguments are exactly `x1` to `xn` with their
/// types, its return type runs from after `->` to the body, and the body is
/// the brace group; whatever follows the body is not read.
pub proof fn lemma_export_read(ts: Seq<Token>, ret_end: int, args: Seq<(Seq<char>, int, int)>)
    requires
        is_signature(ts, ret_end),
        is_arg_list(ts[3].kind->Group_1@, 0, args),
    ensures
        spec_parse_export(ts) == Ok::<(Seq<char>, int, Seq<(Seq<char>, int, int)>, int, int, int), ExportError>((
            ts[2].kind->Ident_0@,
            3,
            args,
            6,
            ret_end,
            ret_end,
        )),
{
    lemma_arg_list_read(ts[3].kind->Group_1@, 0, args);
    lemma_signature_read(ts);
    assert(is_signature(ts, ret_end) && spec_parse_arg_list(ts[3].kind->Group_1@, 0) is Ok);
}

/// Every position that `spec_comma_end` steps over holds no `,`.
proof fn lemma_comma_end_skips(ts: Seq<Token>, pos: int, i: int)
    requires
        pos <= i < spec_comma_end(ts, pos),
    ensures
        ts[i].kind != TokenKind::Punct(','),
    decreases ts.len() - pos,
{
    if pos < ts.len() && ts[pos].kind != TokenKind::Punct(',') && i > pos {
        lemma_comma_end_skips(ts, pos + 1, i);
    }
}

} // verus!

verus! {

/// The wrapper's parameter list: nothing for no arguments; for one argument
/// its name followed by `: nix_types::compat::Value`; one more argument adds
/// exactly `, ` and that argument's parameter at the end.
pub proof fn lemma_params_text(args: Seq<Arg>, x: Arg)
    ensures
        params_text(Seq::<Arg>::empty()) == Seq::<char>::empty(),
        params_text(seq![x]) == x.name@ + ": nix_types::compat::Value"@,
        args.len() > 0 ==> params_text(args.push(x)) == params_text(args) + ", "@ + x.name@
            + ": nix_types::compat::Value"@,
{
    assert(seq![x].len() == 1);
    if args.len() > 0 {
        assert(args.push(x).drop_last() =~= args);
        assert(args.push(x).last() == x);
    }
}

/// The wrapper's call arguments: nothing for no arguments; for one argument
/// `nix_types::NixValue::from(name).into()`; one more argument adds exactly
/// `, ` and that argument's call text at the end.
pub proof fn lemma_passes_text(args: Seq<Arg>, x: Arg)
    ensures
        passes_text(Seq::<Arg>::empty()) == Seq::<char>::empty(),
        passes_text(seq![x]) == "nix_types::NixValue::from("@ + x.name@ + ").into()"@,
        args.len() > 0 ==> passes_text(args.push(x)) == passes_text(args) + ", "@
            + "nix_types::NixValue::from("@ + x.name@ + ").into()"@,
{
    assert(seq![x].len() == 1);
    if args.len() > 0 {
        assert(args.push(x).drop_last() =~= args);
        assert(args.push(x).last() == x);
    }
}

} // verus!
