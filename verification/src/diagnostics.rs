//! Positioned parse faults and user-facing diagnostics.
//!
//! A grammar failure is first captured as a [`ParseFault`]: the character
//! offset at which the text stopped matching, and the token that was
//! expected there.  At the boundary facing the user it is turned into a
//! [`Diagnostic`] carrying the source name and an optional hint, and
//! rendered as plain text.  Rendering is total: it cannot fail or panic.

use vstd::prelude::*;
use crate::text::{spec_decimal, decimal_string};

verus! {

/// The token a grammar expected at the point where matching stopped.
#[derive(Debug, Clone, Copy, PartialEq, Eq, Structural)]
pub enum ExpectedToken {
    /// A specific character.
    Char(char),
    /// A non-empty run of identifier characters.
    Identifier,
    /// One of the type keywords.
    TypeKeyword,
    /// At least one whitespace character.
    Whitespace,
    /// A non-empty value text.
    Value,
    /// The literal keyword `let`.
    KeywordLet,
    /// The end of the input, with nothing but whitespace allowed.
    End,
    /// A complete function declaration.
    Declaration,
}

/// A grammar violation at a known position.
#[derive(Debug, Clone, Copy, PartialEq, Eq, Structural)]
pub struct ParseFault {
    /// Character offset into the parsed text at which matching stopped.
    pub offset: usize,
    /// What the grammar expected at that offset.
    pub expected: ExpectedToken,
}

/// A positioned fault in spec form.
pub struct FaultView {
    pub offset: int,
    pub expected: ExpectedToken,
}

impl View for ParseFault {
    type V = FaultView;

    open spec fn view(&self) -> FaultView {
        FaultView { offset: self.offset as int, expected: self.expected }
    }
}

/// A positioned, user-facing description of a grammar violation.
#[derive(Debug, Clone, PartialEq, Eq)]
pub struct Diagnostic {
    /// Name of the source the text came from.
    pub source: String,
    /// Character offset of the violation: within the whole script for
    /// batch linting, within the buffered declaration text for the
    /// interactive driver.
    pub offset: usize,
    /// What the grammar expected at that offset.
    pub expected: ExpectedToken,
    /// An optional hint clarifying the rule that was violated.
    pub note: Option<String>,
}

/// The mathematical content of a [`Diagnostic`].
pub struct DiagnosticView {
    pub source: Seq<char>,
    pub offset: int,
    pub expected: ExpectedToken,
    pub note: Option<Seq<char>>,
}

impl View for Diagnostic {
    type V = DiagnosticView;

    open spec fn view(&self) -> DiagnosticView {
        DiagnosticView {
            source: self.source@,
            offset: self.offset as int,
            expected: self.expected,
            note: match self.note {
                Some(ref n) => Some(n@),
                None => None,
            },
        }
    }
}

/// The hint attached when a newline was expected.
pub open spec fn brace_hint_text() -> Seq<char> {
    "The '{' character must be followed by a newline, and the '}' character must be after another newline."@
}

/// Relies on `String::from` for `char`: the returned string holds exactly
/// the one character.
#[verifier::external_body]
pub(crate) fn char_string(c: char) -> (s: String)
    ensures
        s@ == seq![c],
{
    String::from(c)
}

/// The rendered description of an expected token.
pub open spec fn expected_text(e: ExpectedToken) -> Seq<char> {
    match e {
        ExpectedToken::Char(c) => seq!['\''] + seq![c] + seq!['\''],
        ExpectedToken::Identifier => "an identifier"@,
        ExpectedToken::TypeKeyword => "a type keyword"@,
        ExpectedToken::Whitespace => "whitespace"@,
        ExpectedToken::Value => "a value"@,
        ExpectedToken::KeywordLet => "'let'"@,
        ExpectedToken::End => "end of input"@,
        ExpectedToken::Declaration => "a complete function declaration"@,
    }
}

/// The full rendering of a diagnostic.
pub open spec fn spec_render(d: DiagnosticView) -> Seq<char> {
    let head = d.source + ": error at offset "@ + spec_decimal(d.offset) + ": expected "@
        + expected_text(d.expected) + "."@;
    match d.note {
        Some(n) => head + " hint: "@ + n,
        None => head,
    }
}

impl Diagnostic {
    /// Build a diagnostic from a fault.  The brace-placement hint is
    /// attached exactly when the expected token is a newline.
    pub fn from_fault(source: &str, fault: &ParseFault) -> (d: Diagnostic)
        ensures
            d@.source == source@,
            d@.offset == fault.offset as int,
            d@.expected == fault.expected,
            d@.note == if fault.expected == ExpectedToken::Char('\n') {
                Some(brace_hint_text())
            } else {
                None::<Seq<char>>
            },
    {
        let note = if fault.expected == ExpectedToken::Char('\n') {
            Some(String::from_str(
                "The '{' character must be followed by a newline, and the '}' character must be after another newline.",
            ))
        } else {
            None
        };
        Diagnostic {
            source: String::from_str(source),
            offset: fault.offset,
            expected: fault.expected,
            note,
        }
    }

    /// Render the diagnostic as plain text.  Rendering is total and exact:
    /// the result is pinned for every diagnostic value.
    pub fn render(&self) -> (r: String)
        ensures
            r@ == spec_render(self@),
    {
        let mut r = String::new();
        r.append(self.source.as_str());
        r.append(": error at offset ");
        let num = decimal_string(self.offset);
        r.append(num.as_str());
        r.append(": expected ");
        match self.expected {
            ExpectedToken::Char(c) => {
                r.append("'");
                let cs = char_string(c);
                r.append(cs.as_str());
                r.append("'");
                proof {
                    reveal_strlit("'");
                    assert(("'")@ + seq![c] + ("'")@ =~= expected_text(ExpectedToken::Char(c)));
                }
            },
            ExpectedToken::Identifier => { r.append("an identifier"); },
            ExpectedToken::TypeKeyword => { r.append("a type keyword"); },
            ExpectedToken::Whitespace => { r.append("whitespace"); },
            ExpectedToken::Value => { r.append("a value"); },
            ExpectedToken::KeywordLet => { r.append("'let'"); },
            ExpectedToken::End => { r.append("end of input"); },
            ExpectedToken::Declaration => { r.append("a complete function declaration"); },
        }
        r.append(".");
        match &self.note {
            Some(n) => {
                r.append(" hint: ");
                r.append(n.as_str());
            },
            None => {},
        }
        proof {
            assert(r@ =~= spec_render(self@));
        }
        r
    }
}

} // verus!
