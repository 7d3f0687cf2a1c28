//! Variable grammar: declaration and reassignment statements.
//!
//! A declaration is `let` whitespace `$` identifier `=` value; a
//! reassignment is the same form without the leading `let`.  The value is
//! the rest of the line after the optional whitespace that follows `=`,
//! captured verbatim and not further validated, and must be non-empty.
//! Both forms fail with a positioned fault naming the token that was
//! expected.

use vstd::prelude::*;
use crate::diagnostics::{ExpectedToken, ParseFault, FaultView};
use crate::lexical::{word_end, lemma_word_end, scan_word_end, ws_end, lemma_ws_end, scan_ws_end};
use crate::text::{find_char, lemma_find_char, scan_find_char, check_match_at, match_at};

verus! {

/// A parsed variable binding.
#[derive(Debug, Clone, PartialEq, Eq)]
pub struct Variable {
    pub identifier: String,
    pub value: String,
}

/// The mathematical content of a [`Variable`].
pub struct VariableView {
    pub identifier: Seq<char>,
    pub value: Seq<char>,
}

impl View for Variable {
    type V = VariableView;

    open spec fn view(&self) -> VariableView {
        VariableView { identifier: self.identifier@, value: self.value@ }
    }
}

/// Result of parsing the `$` identifier `=` value tail shared by both
/// variable forms, starting at position `i`.
pub open spec fn spec_parse_binding_tail(s: Seq<char>, i: int) -> Result<VariableView, FaultView>
    recommends
        0 <= i <= s.len(),
{
    if i >= s.len() || s[i] != '$' {
        Err(FaultView { offset: i, expected: ExpectedToken::Char('$') })
    } else {
        let is = i + 1;
        let ie = word_end(s, is);
        if ie == is {
            Err(FaultView { offset: is, expected: ExpectedToken::Identifier })
        } else {
            let es = ws_end(s, ie);
            if es >= s.len() || s[es] != '=' {
                Err(FaultView { offset: es, expected: ExpectedToken::Char('=') })
            } else {
                let vs = ws_end(s, es + 1);
                let nl = find_char(s, vs, '\n');
                if nl == vs {
                    Err(FaultView { offset: vs, expected: ExpectedToken::Value })
                } else {
                    Ok(VariableView {
                        identifier: s.subrange(is, ie),
                        value: s.subrange(vs, nl),
                    })
                }
            }
        }
    }
}

/// Result of parsing a declaration: the literal `let`, at least one
/// whitespace character, then the binding tail.
pub open spec fn spec_parse_decl(s: Seq<char>) -> Result<VariableView, FaultView> {
    if s.len() < 3 || s.subrange(0, 3) != "let"@ {
        Err(FaultView { offset: 0, expected: ExpectedToken::KeywordLet })
    } else {
        let aw = ws_end(s, 3);
        if aw == 3 {
            Err(FaultView { offset: 3, expected: ExpectedToken::Whitespace })
        } else {
            spec_parse_binding_tail(s, aw)
        }
    }
}

/// Result of parsing a reassignment: the binding tail alone.
pub open spec fn spec_parse_reassignment(s: Seq<char>) -> Result<VariableView, FaultView> {
    spec_parse_binding_tail(s, 0)
}

/// Parse the `$` identifier `=` value tail starting at `i`.
fn parse_binding_tail(input: &str, i: usize) -> (r: Result<Variable, ParseFault>)
    requires
        i <= input@.len(),
    ensures
        match spec_parse_binding_tail(input@, i as int) {
            Ok(vv) => r matches Ok(v) && v@.identifier == vv.identifier && v@.value == vv.value,
            Err(ff) => r matches Err(f) && f@.offset == ff.offset && f@.expected == ff.expected,
        },
{
    let n: usize = input.unicode_len();
    if i >= n || input.get_char(i) != '$' {
        return Err(ParseFault { offset: i, expected: ExpectedToken::Char('$') });
    }
    let is: usize = i + 1;
    let ie: usize = scan_word_end(input, is);
    proof {
        lemma_word_end(input@, is as int);
    }
    if ie == is {
        return Err(ParseFault { offset: is, expected: ExpectedToken::Identifier });
    }
    let es: usize = scan_ws_end(input, ie);
    proof {
        lemma_ws_end(input@, ie as int);
    }
    if es >= n || input.get_char(es) != '=' {
        return Err(ParseFault { offset: es, expected: ExpectedToken::Char('=') });
    }
    let vs: usize = scan_ws_end(input, es + 1);
    proof {
        lemma_ws_end(input@, es as int + 1);
    }
    let nl: usize = scan_find_char(input, vs, '\n');
    proof {
        lemma_find_char(input@, vs as int, '\n');
    }
    if nl == vs {
        return Err(ParseFault { offset: vs, expected: ExpectedToken::Value });
    }
    let identifier = String::from_str(input.substring_char(is, ie));
    let value = String::from_str(input.substring_char(vs, nl));
    Ok(Variable { identifier, value })
}

/// Parse a variable declaration of the form `let $name = value`.
pub fn parse_variable_decl(input: &str) -> (r: Result<Variable, ParseFault>)
    ensures
        match spec_parse_decl(input@) {
            Ok(vv) => r matches Ok(v) && v@.identifier == vv.identifier && v@.value == vv.value,
            Err(ff) => r matches Err(f) && f@.offset == ff.offset && f@.expected == ff.expected,
        },
{
    let has_let = check_match_at(input, "let", 0);
    proof {
        reveal_strlit("let");
        assert(has_let == (input@.len() >= 3 && input@.subrange(0, 3) == ("let")@));
    }
    if !has_let {
        return Err(ParseFault { offset: 0, expected: ExpectedToken::KeywordLet });
    }
    let aw: usize = scan_ws_end(input, 3);
    proof {
        lemma_ws_end(input@, 3);
    }
    if aw == 3 {
        return Err(ParseFault { offset: 3, expected: ExpectedToken::Whitespace });
    }
    parse_binding_tail(input, aw)
}

/// Parse a variable reassignment of the form `$name = value`.
pub fn parse_variable_reassignment(input: &str) -> (r: Result<Variable, ParseFault>)
    ensures
        match spec_parse_reassignment(input@) {
            Ok(vv) => r matches Ok(v) && v@.identifier == vv.identifier && v@.value == vv.value,
            Err(ff) => r matches Err(f) && f@.offset == ff.offset && f@.expected == ff.expected,
        },
{
    parse_binding_tail(input, 0)
}

} // verus!
