//! Call grammar and function-declaration grammar.
//!
//! A call is a single invocation line, split on whitespace: the first
//! token names the command or function, the remaining tokens are its
//! arguments, kept verbatim — no quote handling at this layer.
//!
//! A function declaration is an optional `export`, the keyword `func`, a
//! name, a parenthesized parameter list of `identifier : type`, and a
//! bracket-balanced body delimited by `{` and `}`.  The body is extracted
//! by a scan that tracks brace depth and honours `\` escapes, stopping at
//! the first unmatched `}` — so escaped braces never affect the depth and
//! never terminate the block early.  A declaration may span any number of
//! lines: when the text ends before the declaration can be completed, the
//! parse reports "incomplete" rather than a violation, so a streaming
//! caller can supply more input and retry.

use vstd::prelude::*;
use crate::diagnostics::{ExpectedToken, ParseFault, FaultView};
use crate::lexical::{
    word_end, lemma_word_end, scan_word_end, ws_end, lemma_ws_end, scan_ws_end, spec_is_blank,
};
use crate::text::{
    spec_tokens, split_tokens, spec_trim, trim, spec_lines, split_trimmed_lines, match_at,
    check_match_at, lemma_tokens_blank,
};
use crate::types::{
    DeaconType, TypeView, type_view, type_wf, type_at, parse_type_at, lemma_type_at_bounds,
};

verus! {

/// A parsed invocation line.
#[derive(Debug, Clone, PartialEq, Eq)]
pub struct Call {
    pub name: String,
    pub args: Vec<String>,
}

/// The mathematical content of a [`Call`].
pub struct CallView {
    pub name: Seq<char>,
    pub args: Seq<Seq<char>>,
}

impl View for Call {
    type V = CallView;

    open spec fn view(&self) -> CallView {
        CallView { name: self.name@, args: self.args.deep_view() }
    }
}

/// Parse a call: the first whitespace-separated token is the name, the
/// remaining tokens are the arguments, verbatim.
///
/// The input must not be blank; a blank line is not a call and must be
/// filtered out by the caller.
pub fn parse_call(input: &str) -> (r: Result<Call, ParseFault>)
    requires
        !spec_is_blank(input@),
    ensures
        r matches Ok(c) && c@.name == spec_tokens(input@)[0]
            && c@.args == spec_tokens(input@).skip(1),
{
    proof {
        lemma_tokens_blank(input@);
    }
    let mut tokens = split_tokens(input);
    let ghost all = tokens.deep_view();
    let name = tokens.remove(0);
    proof {
        assert(name@ == all[0]);
        assert(tokens.deep_view() =~~= all.skip(1));
    }
    Ok(Call { name, args: tokens })
}

/// Position of the `}` closing the block that starts at `i` with `depth`
/// open braces, honouring `\` escapes; `None` when the text ends first.
///
/// A `\` makes the following character insignificant for the scan.  A `{`
/// deepens the nesting, a `}` at depth zero is the unmatched closing brace
/// the scan looks for, and one at positive depth closes an inner block.
pub open spec fn body_end(s: Seq<char>, i: int, depth: int) -> Option<int>
    decreases s.len() - i,
{
    if i < 0 || i >= s.len() {
        None
    } else if s[i] == '\\' {
        if i + 1 < s.len() {
            body_end(s, i + 2, depth)
        } else {
            None
        }
    } else if s[i] == '{' {
        body_end(s, i + 1, depth + 1)
    } else if s[i] == '}' {
        if depth == 0 {
            Some(i)
        } else {
            body_end(s, i + 1, depth - 1)
        }
    } else {
        body_end(s, i + 1, depth)
    }
}

pub proof fn lemma_body_end(s: Seq<char>, i: int, depth: int)
    requires
        0 <= i <= s.len(),
    ensures
        body_end(s, i, depth) matches Some(e) ==> i <= e < s.len() && s[e] == '}',
    decreases s.len() - i,
{
    if i < s.len() {
        if s[i] == '\\' {
            if i + 1 < s.len() {
                lemma_body_end(s, i + 2, depth);
            }
        } else if s[i] == '{' {
            lemma_body_end(s, i + 1, depth + 1);
        } else if s[i] == '}' {
            if depth != 0 {
                lemma_body_end(s, i + 1, depth - 1);
            }
        } else {
            lemma_body_end(s, i + 1, depth);
        }
    }
}

/// Executable bracket-balanced scan for [`body_end`], from `from` at
/// depth zero.
pub fn scan_body_end(s: &str, from: usize) -> (r: Option<usize>)
    requires
        from <= s@.len(),
    ensures
        match r {
            Some(e) => body_end(s@, from as int, 0) == Some(e as int) && from <= e < s@.len(),
            None => body_end(s@, from as int, 0) is None,
        },
{
    let n: usize = s.unicode_len();
    let mut i: usize = from;
    let mut depth: usize = 0;
    loop
        invariant
            from <= i <= n,
            n == s@.len(),
            depth <= i - from,
            body_end(s@, from as int, 0) == body_end(s@, i as int, depth as int),
        decreases n - i,
    {
        if i >= n {
            return None;
        }
        let c = s.get_char(i);
        if c == '\\' {
            if i + 1 < n {
                i = i + 2;
            } else {
                return None;
            }
        } else if c == '{' {
            i = i + 1;
            depth = depth + 1;
        } else if c == '}' {
            if depth == 0 {
                proof {
                    lemma_body_end(s@, from as int, 0);
                }
                return Some(i);
            }
            i = i + 1;
            depth = depth - 1;
        } else {
            i = i + 1;
        }
    }
}

/// A formal parameter of a function declaration.
#[derive(Debug, PartialEq, Eq)]
pub struct FormalArg {
    pub identifier: String,
    pub ty: DeaconType,
}

/// A parsed function declaration.
#[derive(Debug, PartialEq, Eq)]
pub struct Function {
    pub name: String,
    pub exported: bool,
    pub args: Vec<FormalArg>,
    pub body: Vec<String>,
}

/// The mathematical content of a [`FormalArg`].
pub struct ParamView {
    pub identifier: Seq<char>,
    pub ty: TypeView,
}

/// The mathematical content of a [`Function`].
pub struct FnDeclView {
    pub name: Seq<char>,
    pub exported: bool,
    pub params: Seq<ParamView>,
    pub body: Seq<Seq<char>>,
}

/// Views of a sequence of formal parameters.
pub open spec fn param_views(args: Seq<FormalArg>) -> Seq<ParamView> {
    args.map(|k: int, a: FormalArg| ParamView { identifier: a.identifier@, ty: type_view(a.ty) })
}

impl View for Function {
    type V = FnDeclView;

    open spec fn view(&self) -> FnDeclView {
        FnDeclView {
            name: self.name@,
            exported: self.exported,
            params: param_views(self.args@),
            body: self.body.deep_view(),
        }
    }
}

/// Well-formed declaration: every parameter type is well formed.
pub open spec fn function_wf(f: Function) -> bool {
    forall|k: int| 0 <= k < f.args@.len() ==> type_wf(#[trigger] f.args@[k].ty)
}

/// Result of parsing a parameter list.
pub enum ParamsParse {
    /// The parameters and the position just past the closing parenthesis.
    Done(Seq<ParamView>, int),
    /// The text ended where more characters could complete the list.
    Incomplete,
    /// A grammar violation within the list.
    Fault(FaultView),
}

/// Parse the non-empty parameter list starting at `i` (just after the
/// opening parenthesis or a comma): `identifier : type`, comma-separated,
/// closed by `)`.
pub open spec fn fn_params_list(s: Seq<char>, i: int) -> ParamsParse
    decreases s.len() - i + 1,
    via fn_params_list_decreases
{
    if i < 0 || i > s.len() {
        ParamsParse::Incomplete
    } else {
        let a = ws_end(s, i);
        if a >= s.len() {
            ParamsParse::Incomplete
        } else {
            let ie = word_end(s, a);
            if ie == a {
                ParamsParse::Fault(FaultView { offset: a, expected: ExpectedToken::Identifier })
            } else {
                let c = ws_end(s, ie);
                if c >= s.len() {
                    ParamsParse::Incomplete
                } else if s[c] != ':' {
                    ParamsParse::Fault(FaultView { offset: c, expected: ExpectedToken::Char(':') })
                } else {
                    let t = ws_end(s, c + 1);
                    match type_at(s, t) {
                        Err(f) => {
                            if f.offset == s.len() {
                                ParamsParse::Incomplete
                            } else {
                                ParamsParse::Fault(f)
                            }
                        },
                        Ok(p) => {
                            let param = ParamView { identifier: s.subrange(a, ie), ty: p.0 };
                            let d = ws_end(s, p.1);
                            if d >= s.len() {
                                ParamsParse::Incomplete
                            } else if s[d] == ',' {
                                match fn_params_list(s, d + 1) {
                                    ParamsParse::Done(ps, q) => ParamsParse::Done(
                                        seq![param] + ps,
                                        q,
                                    ),
                                    other => other,
                                }
                            } else if s[d] == ')' {
                                ParamsParse::Done(seq![param], d + 1)
                            } else {
                                ParamsParse::Fault(FaultView {
                                    offset: d,
                                    expected: ExpectedToken::Char(')'),
                                })
                            }
                        },
                    }
                }
            }
        }
    }
}

#[via_fn]
proof fn fn_params_list_decreases(s: Seq<char>, i: int) {
    if 0 <= i <= s.len() {
        lemma_ws_end(s, i);
        let a = ws_end(s, i);
        if a < s.len() {
            lemma_word_end(s, a);
            let ie = word_end(s, a);
            if ie != a {
                lemma_ws_end(s, ie);
                let c = ws_end(s, ie);
                if c < s.len() && s[c] == ':' {
                    lemma_ws_end(s, c + 1);
                    let t = ws_end(s, c + 1);
                    lemma_type_at_bounds(s, t);
                    match type_at(s, t) {
                        Ok(p) => {
                            lemma_ws_end(s, p.1);
                        },
                        Err(_) => {},
                    }
                }
            }
        }
    }
}

/// Parse the parameter list starting at `i`, allowing the empty list as
/// an immediate closing parenthesis.
pub open spec fn fn_params(s: Seq<char>, i: int) -> ParamsParse {
    if i < 0 || i > s.len() {
        ParamsParse::Incomplete
    } else {
        let a = ws_end(s, i);
        if a >= s.len() {
            ParamsParse::Incomplete
        } else if s[a] == ')' {
            ParamsParse::Done(Seq::empty(), a + 1)
        } else {
            fn_params_list(s, i)
        }
    }
}

/// The parameter list starting at `i`, prefixed by the already collected
/// parameter views `acc`, composes to the list starting at `start`.
pub open spec fn params_continue(s: Seq<char>, start: int, i: int, acc: Seq<ParamView>) -> bool {
    match fn_params_list(s, i) {
        ParamsParse::Done(ps, q) => fn_params_list(s, start) == ParamsParse::Done(acc + ps, q),
        ParamsParse::Incomplete => fn_params_list(s, start) is Incomplete,
        ParamsParse::Fault(f) => fn_params_list(s, start) == ParamsParse::Fault(f),
    }
}

/// How an attempted declaration parse can end without a declaration.
#[derive(Debug, Clone, Copy, PartialEq, Eq, Structural)]
pub enum FnParseError {
    /// More text is needed before a verdict can be reached — also the
    /// signal that the text does not begin with a function declaration
    /// at all, so a streaming caller may try another grammar.
    Incomplete,
    /// A recoverable grammar violation at a known position.
    Error(ParseFault),
    /// A committed, unrecoverable violation for this declaration.  The
    /// grammar as specified recovers through `Error` or waits for more
    /// input, so this parser never produces it; the driver nevertheless
    /// handles it, as the error model demands.
    Failure(ParseFault),
}

/// Result of attempting to parse a function declaration.
pub enum FnParse {
    /// The declaration and the position where the remainder starts.
    Done(FnDeclView, int),
    /// The text ended where more characters could complete a declaration,
    /// or does not begin with `func` at all.
    Incomplete,
    /// A grammar violation at a known position.
    Fault(FaultView),
}

/// Parse a function declaration at the start of the text:
/// `export`? `func` name `(` parameters `)` `{` body `}`.
///
/// The keyword `func` missing is reported as incomplete, not as a
/// violation: a streaming caller treats "no `func` yet" as "not a
/// function header; try another grammar", while still allowing more text
/// to arrive.  After `func`, a missing token is a violation when a wrong
/// character stands in its place and incomplete when the text ends.
pub open spec fn spec_parse_func(s: Seq<char>) -> FnParse {
    let h = ws_end(s, 0);
    let exported = match_at(s, "export"@, h) && ws_end(s, h + "export"@.len()) > h
        + "export"@.len();
    let f = if exported {
        ws_end(s, h + "export"@.len())
    } else {
        h
    };
    if !match_at(s, "func"@, f) {
        FnParse::Incomplete
    } else {
        let nm_start = ws_end(s, f + "func"@.len());
        let nm_end = word_end(s, nm_start);
        if nm_end == nm_start {
            if nm_start >= s.len() {
                FnParse::Incomplete
            } else {
                FnParse::Fault(FaultView {
                    offset: nm_start,
                    expected: ExpectedToken::Identifier,
                })
            }
        } else if nm_end >= s.len() {
            FnParse::Incomplete
        } else if s[nm_end] != '(' {
            FnParse::Fault(FaultView { offset: nm_end, expected: ExpectedToken::Char('(') })
        } else {
            match fn_params(s, nm_end + 1) {
                ParamsParse::Incomplete => FnParse::Incomplete,
                ParamsParse::Fault(f) => FnParse::Fault(f),
                ParamsParse::Done(params, q) => {
                    let g = ws_end(s, q);
                    if g >= s.len() {
                        FnParse::Incomplete
                    } else if s[g] != '{' {
                        FnParse::Fault(FaultView { offset: g, expected: ExpectedToken::Char('{') })
                    } else {
                        match body_end(s, g + 1, 0) {
                            None => FnParse::Incomplete,
                            Some(e) => FnParse::Done(
                                FnDeclView {
                                    name: s.subrange(nm_start, nm_end),
                                    exported,
                                    params,
                                    body: spec_lines(spec_trim(s.subrange(g + 1, e))),
                                },
                                e + 1,
                            ),
                        }
                    }
                },
            }
        }
    }
}

/// On success the parameter list ends after `i` and within the text.
pub proof fn lemma_fn_params_list_bounds(s: Seq<char>, i: int)
    requires
        0 <= i <= s.len(),
    ensures
        fn_params_list(s, i) matches ParamsParse::Done(ps, q) ==> i < q <= s.len(),
    decreases s.len() - i + 1,
{
    lemma_ws_end(s, i);
    let a = ws_end(s, i);
    if a < s.len() {
        lemma_word_end(s, a);
        let ie = word_end(s, a);
        if ie != a {
            lemma_ws_end(s, ie);
            let c = ws_end(s, ie);
            if c < s.len() && s[c] == ':' {
                lemma_ws_end(s, c + 1);
                let t = ws_end(s, c + 1);
                lemma_type_at_bounds(s, t);
                match type_at(s, t) {
                    Ok(p) => {
                        lemma_ws_end(s, p.1);
                        let d = ws_end(s, p.1);
                        if d < s.len() && s[d] == ',' {
                            lemma_fn_params_list_bounds(s, d + 1);
                        }
                    },
                    Err(_) => {},
                }
            }
        }
    }
}

/// On success the parameter list ends after `i` and within the text.
pub proof fn lemma_fn_params_bounds(s: Seq<char>, i: int)
    requires
        0 <= i <= s.len(),
    ensures
        fn_params(s, i) matches ParamsParse::Done(ps, q) ==> i < q <= s.len(),
{
    lemma_ws_end(s, i);
    lemma_fn_params_list_bounds(s, i);
}

/// A fault of the parameter list is positioned within the text.
pub proof fn lemma_fn_params_list_fault_bounds(s: Seq<char>, i: int)
    requires
        0 <= i <= s.len(),
    ensures
        fn_params_list(s, i) matches ParamsParse::Fault(f) ==> 0 <= f.offset <= s.len(),
    decreases s.len() - i + 1,
{
    lemma_ws_end(s, i);
    let a = ws_end(s, i);
    if a < s.len() {
        lemma_word_end(s, a);
        let ie = word_end(s, a);
        if ie != a {
            lemma_ws_end(s, ie);
            let c = ws_end(s, ie);
            if c < s.len() && s[c] == ':' {
                lemma_ws_end(s, c + 1);
                let t = ws_end(s, c + 1);
                crate::types::lemma_type_at_fault_bounds(s, t);
                lemma_type_at_bounds(s, t);
                match type_at(s, t) {
                    Ok(p) => {
                        lemma_ws_end(s, p.1);
                        let d = ws_end(s, p.1);
                        if d < s.len() && s[d] == ',' {
                            lemma_fn_params_list_fault_bounds(s, d + 1);
                        }
                    },
                    Err(_) => {},
                }
            }
        }
    }
}

/// A fault of the parameter list, the empty form included, is positioned
/// within the text.
pub proof fn lemma_fn_params_fault_bounds(s: Seq<char>, i: int)
    requires
        0 <= i <= s.len(),
    ensures
        fn_params(s, i) matches ParamsParse::Fault(f) ==> 0 <= f.offset <= s.len(),
{
    lemma_ws_end(s, i);
    lemma_fn_params_list_fault_bounds(s, i);
}

/// A fault of the declaration parse is positioned within the text.
pub proof fn lemma_spec_parse_func_fault_bounds(s: Seq<char>)
    ensures
        spec_parse_func(s) matches FnParse::Fault(f) ==> 0 <= f.offset <= s.len(),
{
    reveal_strlit("export");
    reveal_strlit("func");
    lemma_ws_end(s, 0);
    let h = ws_end(s, 0);
    let exported = match_at(s, "export"@, h) && ws_end(s, h + "export"@.len()) > h
        + "export"@.len();
    if match_at(s, "export"@, h) {
        lemma_ws_end(s, h + 6);
    }
    let f = if exported {
        ws_end(s, h + "export"@.len())
    } else {
        h
    };
    if match_at(s, "func"@, f) {
        lemma_ws_end(s, f + 4);
        let nm_start = ws_end(s, f + 4);
        lemma_word_end(s, nm_start);
        let nm_end = word_end(s, nm_start);
        if nm_end != nm_start && nm_end < s.len() && s[nm_end] == '(' {
            lemma_fn_params_fault_bounds(s, nm_end + 1);
            lemma_fn_params_bounds(s, nm_end + 1);
            match fn_params(s, nm_end + 1) {
                ParamsParse::Done(params, q) => {
                    lemma_ws_end(s, q);
                },
                _ => {},
            }
        }
    }
}

/// The fault that describes an incomplete text is positioned within it.
pub proof fn lemma_spec_incomplete_fault_bounds(s: Seq<char>)
    ensures
        0 <= spec_incomplete_fault(s).offset <= s.len(),
{
    reveal_strlit("export");
    reveal_strlit("func");
    lemma_ws_end(s, 0);
    let h = ws_end(s, 0);
    let exported = match_at(s, "export"@, h) && ws_end(s, h + "export"@.len()) > h
        + "export"@.len();
    if match_at(s, "export"@, h) {
        lemma_ws_end(s, h + 6);
    }
    let f = if exported {
        ws_end(s, h + "export"@.len())
    } else {
        h
    };
    if match_at(s, "func"@, f) {
        lemma_ws_end(s, f + 4);
        let nm_start = ws_end(s, f + 4);
        lemma_word_end(s, nm_start);
        let nm_end = word_end(s, nm_start);
        if nm_end != nm_start && nm_end < s.len() && s[nm_end] == '(' {
            lemma_fn_params_fault_bounds(s, nm_end + 1);
            lemma_fn_params_bounds(s, nm_end + 1);
            match fn_params(s, nm_end + 1) {
                ParamsParse::Done(params, q) => {
                    lemma_ws_end(s, q);
                },
                _ => {},
            }
        }
    }
}

/// A successful declaration parse consumes at least one character and no
/// more than the text.
pub proof fn lemma_spec_parse_func_bounds(s: Seq<char>)
    ensures
        spec_parse_func(s) matches FnParse::Done(dv, rem) ==> 1 <= rem <= s.len(),
{
    reveal_strlit("export");
    reveal_strlit("func");
    lemma_ws_end(s, 0);
    let h = ws_end(s, 0);
    let exported = match_at(s, "export"@, h) && ws_end(s, h + "export"@.len()) > h
        + "export"@.len();
    if match_at(s, "export"@, h) {
        lemma_ws_end(s, h + 6);
    }
    let f = if exported {
        ws_end(s, h + "export"@.len())
    } else {
        h
    };
    if match_at(s, "func"@, f) {
        lemma_ws_end(s, f + 4);
        let nm_start = ws_end(s, f + 4);
        lemma_word_end(s, nm_start);
        let nm_end = word_end(s, nm_start);
        if nm_end != nm_start && nm_end < s.len() && s[nm_end] == '(' {
            lemma_fn_params_bounds(s, nm_end + 1);
            match fn_params(s, nm_end + 1) {
                ParamsParse::Done(params, q) => {
                    lemma_ws_end(s, q);
                    let g = ws_end(s, q);
                    if g < s.len() && s[g] == '{' {
                        lemma_body_end(s, g + 1, 0);
                    }
                },
                _ => {},
            }
        }
    }
}

/// Parse the parameter list of a declaration, starting just after the
/// opening parenthesis.
fn parse_fn_params(input: &str, start: usize) -> (r: Result<(Vec<FormalArg>, usize), FnParseError>)
    requires
        start <= input@.len(),
    ensures
        match fn_params(input@, start as int) {
            ParamsParse::Done(ps, q) => r matches Ok((v, e)) && param_views(v@) == ps
                && e as int == q && e <= input@.len()
                && (forall|k: int| 0 <= k < v@.len() ==> type_wf(#[trigger] v@[k].ty)),
            ParamsParse::Incomplete => r == Err::<(Vec<FormalArg>, usize), FnParseError>(
                FnParseError::Incomplete,
            ),
            ParamsParse::Fault(ff) => r matches Err(e) && e matches FnParseError::Error(f)
                && f@.offset == ff.offset && f@.expected == ff.expected,
        },
{
    let n: usize = input.unicode_len();
    let ghost s = input@;
    let ghost start_int = start as int;
    let a0: usize = scan_ws_end(input, start);
    proof {
        lemma_ws_end(s, start_int);
    }
    if a0 >= n {
        return Err(FnParseError::Incomplete);
    }
    if input.get_char(a0) == ')' {
        let empty: Vec<FormalArg> = Vec::new();
        proof {
            assert(param_views(empty@) =~= Seq::<ParamView>::empty());
        }
        return Ok((empty, a0 + 1));
    }
    let mut params: Vec<FormalArg> = Vec::new();
    let mut i: usize = start;
    proof {
        match fn_params_list(s, start_int) {
            ParamsParse::Done(ps, q) => {
                assert(param_views(params@) =~= Seq::<ParamView>::empty());
                assert(Seq::<ParamView>::empty() + ps =~= ps);
            },
            _ => {},
        }
        assert(params_continue(s, start_int, start_int, param_views(params@)));
    }
    loop
        invariant
            start <= i <= n,
            n == s.len(),
            s == input@,
            start_int == start as int,
            fn_params(s, start_int) == fn_params_list(s, start_int),
            forall|k: int| 0 <= k < params@.len() ==> type_wf(#[trigger] params@[k].ty),
            params_continue(s, start_int, i as int, param_views(params@)),
        decreases n - i,
    {
        let a: usize = scan_ws_end(input, i);
        proof {
            lemma_ws_end(s, i as int);
        }
        if a >= n {
            return Err(FnParseError::Incomplete);
        }
        let ie: usize = scan_word_end(input, a);
        proof {
            lemma_word_end(s, a as int);
        }
        if ie == a {
            return Err(FnParseError::Error(ParseFault {
                offset: a,
                expected: ExpectedToken::Identifier,
            }));
        }
        let c: usize = scan_ws_end(input, ie);
        proof {
            lemma_ws_end(s, ie as int);
        }
        if c >= n {
            return Err(FnParseError::Incomplete);
        }
        if input.get_char(c) != ':' {
            return Err(FnParseError::Error(ParseFault {
                offset: c,
                expected: ExpectedToken::Char(':'),
            }));
        }
        let t: usize = scan_ws_end(input, c + 1);
        proof {
            lemma_ws_end(s, c as int + 1);
        }
        match parse_type_at(input, t) {
            Err(f) => {
                if f.offset == n {
                    return Err(FnParseError::Incomplete);
                }
                return Err(FnParseError::Error(f));
            },
            Ok((ty, te)) => {
                proof {
                    lemma_type_at_bounds(s, t as int);
                }
                let identifier = String::from_str(input.substring_char(a, ie));
                let ghost pview = ParamView { identifier: s.subrange(a as int, ie as int), ty: type_view(ty) };
                let ghost prev = param_views(params@);
                params.push(FormalArg { identifier, ty });
                proof {
                    assert(param_views(params@) =~= prev + seq![pview]);
                }
                let d: usize = scan_ws_end(input, te);
                proof {
                    lemma_ws_end(s, te as int);
                }
                if d >= n {
                    return Err(FnParseError::Incomplete);
                }
                if input.get_char(d) == ',' {
                    proof {
                        match fn_params_list(s, d as int + 1) {
                            ParamsParse::Done(ps, q) => {
                                assert(fn_params_list(s, i as int) == ParamsParse::Done(
                                    seq![pview] + ps,
                                    q,
                                ));
                                assert(prev + (seq![pview] + ps) =~= (prev + seq![pview]) + ps);
                            },
                            _ => {},
                        }
                    }
                    i = d + 1;
                } else if input.get_char(d) == ')' {
                    proof {
                        assert(fn_params_list(s, i as int) == ParamsParse::Done(
                            seq![pview],
                            (d + 1) as int,
                        ));
                        assert(prev + seq![pview] =~= param_views(params@));
                    }
                    return Ok((params, d + 1));
                } else {
                    return Err(FnParseError::Error(ParseFault {
                        offset: d,
                        expected: ExpectedToken::Char(')'),
                    }));
                }
            },
        }
    }
}

/// The positioned fault that describes why a text is not a complete
/// declaration: the same walk as [`spec_parse_func`], with each place
/// where the text runs out reported as a fault of its own.
///
/// Text that never reaches the keyword `func` expects a whole
/// declaration; a header cut short expects its next token at the end of
/// the text; and a body whose block never closes expects `}`, positioned
/// at the `{` that opened the unterminated block.
pub open spec fn spec_incomplete_fault(s: Seq<char>) -> FaultView {
    let h = ws_end(s, 0);
    let exported = match_at(s, "export"@, h) && ws_end(s, h + "export"@.len()) > h
        + "export"@.len();
    let f = if exported {
        ws_end(s, h + "export"@.len())
    } else {
        h
    };
    if !match_at(s, "func"@, f) {
        FaultView { offset: s.len() as int, expected: ExpectedToken::Declaration }
    } else {
        let nm_start = ws_end(s, f + "func"@.len());
        let nm_end = word_end(s, nm_start);
        if nm_end == nm_start {
            if nm_start >= s.len() {
                FaultView { offset: s.len() as int, expected: ExpectedToken::Identifier }
            } else {
                FaultView { offset: nm_start, expected: ExpectedToken::Identifier }
            }
        } else if nm_end >= s.len() {
            FaultView { offset: s.len() as int, expected: ExpectedToken::Char('(') }
        } else if s[nm_end] != '(' {
            FaultView { offset: nm_end, expected: ExpectedToken::Char('(') }
        } else {
            match fn_params(s, nm_end + 1) {
                ParamsParse::Incomplete => FaultView {
                    offset: s.len() as int,
                    expected: ExpectedToken::Char(')'),
                },
                ParamsParse::Fault(ff) => ff,
                ParamsParse::Done(params, q) => {
                    let g = ws_end(s, q);
                    if g >= s.len() {
                        FaultView { offset: s.len() as int, expected: ExpectedToken::Char('{') }
                    } else if s[g] != '{' {
                        FaultView { offset: g, expected: ExpectedToken::Char('{') }
                    } else {
                        match body_end(s, g + 1, 0) {
                            None => FaultView { offset: g, expected: ExpectedToken::Char('}') },
                            Some(e) => FaultView {
                                offset: s.len() as int,
                                expected: ExpectedToken::Declaration,
                            },
                        }
                    }
                },
            }
        }
    }
}

/// Describe why the text is not a complete declaration, as a positioned
/// fault: what was expected, and where.  For a body whose block never
/// closes, the fault sits at the `{` that opened the unterminated block.
pub fn incomplete_fault(input: &str) -> (r: ParseFault)
    ensures
        r@ == spec_incomplete_fault(input@),
{
    let n: usize = input.unicode_len();
    let ghost s = input@;
    proof {
        reveal_strlit("export");
        reveal_strlit("func");
    }
    let h: usize = scan_ws_end(input, 0);
    proof {
        lemma_ws_end(s, 0);
    }
    let has_export = check_match_at(input, "export", h);
    let mut f_pos: usize = h;
    if has_export {
        let we: usize = scan_ws_end(input, h + 6);
        proof {
            lemma_ws_end(s, h as int + 6);
        }
        if we > h + 6 {
            f_pos = we;
        }
    }
    if !check_match_at(input, "func", f_pos) {
        return ParseFault { offset: n, expected: ExpectedToken::Declaration };
    }
    let nm_start: usize = scan_ws_end(input, f_pos + 4);
    proof {
        lemma_ws_end(s, f_pos as int + 4);
    }
    let nm_end: usize = scan_word_end(input, nm_start);
    proof {
        lemma_word_end(s, nm_start as int);
    }
    if nm_end == nm_start {
        if nm_start >= n {
            return ParseFault { offset: n, expected: ExpectedToken::Identifier };
        }
        return ParseFault { offset: nm_start, expected: ExpectedToken::Identifier };
    }
    if nm_end >= n {
        return ParseFault { offset: n, expected: ExpectedToken::Char('(') };
    }
    if input.get_char(nm_end) != '(' {
        return ParseFault { offset: nm_end, expected: ExpectedToken::Char('(') };
    }
    match parse_fn_params(input, nm_end + 1) {
        Err(e) => {
            match e {
                FnParseError::Incomplete => {
                    return ParseFault { offset: n, expected: ExpectedToken::Char(')') };
                },
                FnParseError::Error(f) | FnParseError::Failure(f) => {
                    return f;
                },
            }
        },
        Ok((_, q)) => {
            let g: usize = scan_ws_end(input, q);
            proof {
                lemma_ws_end(s, q as int);
            }
            if g >= n {
                return ParseFault { offset: n, expected: ExpectedToken::Char('{') };
            }
            if input.get_char(g) != '{' {
                return ParseFault { offset: g, expected: ExpectedToken::Char('{') };
            }
            match scan_body_end(input, g + 1) {
                None => ParseFault { offset: g, expected: ExpectedToken::Char('}') },
                Some(_) => ParseFault { offset: n, expected: ExpectedToken::Declaration },
            }
        },
    }
}

/// Parse a function declaration at the start of the input, returning the
/// declaration and the remaining text after its closing brace.
pub fn parse_func_declaration<'a>(input: &'a str) -> (r: Result<
    (Function, &'a str),
    FnParseError,
>)
    ensures
        match spec_parse_func(input@) {
            FnParse::Done(dv, rem) => r matches Ok((f, rest)) && f@.name == dv.name
                && f@.exported == dv.exported && f@.params == dv.params && f@.body == dv.body
                && function_wf(f) && rest@ == input@.subrange(rem, input@.len() as int),
            FnParse::Incomplete => r == Err::<(Function, &'a str), FnParseError>(
                FnParseError::Incomplete,
            ),
            FnParse::Fault(ff) => r matches Err(e) && e matches FnParseError::Error(f)
                && f@.offset == ff.offset && f@.expected == ff.expected,
        },
{
    let n: usize = input.unicode_len();
    let ghost s = input@;
    proof {
        reveal_strlit("export");
        reveal_strlit("func");
    }
    let h: usize = scan_ws_end(input, 0);
    proof {
        lemma_ws_end(s, 0);
    }
    let has_export = check_match_at(input, "export", h);
    let mut exported = false;
    let mut f_pos: usize = h;
    if has_export {
        let we: usize = scan_ws_end(input, h + 6);
        proof {
            lemma_ws_end(s, h as int + 6);
        }
        if we > h + 6 {
            exported = true;
            f_pos = we;
        }
    }
    if !check_match_at(input, "func", f_pos) {
        return Err(FnParseError::Incomplete);
    }
    let nm_start: usize = scan_ws_end(input, f_pos + 4);
    proof {
        lemma_ws_end(s, f_pos as int + 4);
    }
    let nm_end: usize = scan_word_end(input, nm_start);
    proof {
        lemma_word_end(s, nm_start as int);
    }
    if nm_end == nm_start {
        if nm_start >= n {
            return Err(FnParseError::Incomplete);
        }
        return Err(FnParseError::Error(ParseFault {
            offset: nm_start,
            expected: ExpectedToken::Identifier,
        }));
    }
    if nm_end >= n {
        return Err(FnParseError::Incomplete);
    }
    if input.get_char(nm_end) != '(' {
        return Err(FnParseError::Error(ParseFault {
            offset: nm_end,
            expected: ExpectedToken::Char('('),
        }));
    }
    let params_result = parse_fn_params(input, nm_end + 1);
    match params_result {
        Err(e) => {
            return Err(e);
        },
        Ok((args, q)) => {
            let g: usize = scan_ws_end(input, q);
            proof {
                lemma_ws_end(s, q as int);
            }
            if g >= n {
                return Err(FnParseError::Incomplete);
            }
            if input.get_char(g) != '{' {
                return Err(FnParseError::Error(ParseFault {
                    offset: g,
                    expected: ExpectedToken::Char('{'),
                }));
            }
            match scan_body_end(input, g + 1) {
                None => {
                    return Err(FnParseError::Incomplete);
                },
                Some(e) => {
                    let body_text = trim(input.substring_char(g + 1, e));
                    let body = split_trimmed_lines(body_text);
                    let name = String::from_str(input.substring_char(nm_start, nm_end));
                    let rest = input.substring_char(e + 1, n);
                    return Ok((Function { name, exported, args, body }, rest));
                },
            }
        },
    }
}

} // verus!
