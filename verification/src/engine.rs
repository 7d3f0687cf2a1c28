//! Incremental linting driver.
//!
//! The function-declaration grammar is driven across a whole script, or
//! across successive lines from an interactive source.  A successful parse
//! emits the declaration and parsing continues with the remainder; an
//! incomplete parse waits for more text; a grammar violation is turned
//! into a diagnostic, after which the driver discards the offending text
//! and goes on with what follows.  When the input is exhausted while
//! buffered text is still incomplete, a final diagnostic is reported
//! rather than the text being dropped silently.
//!
//! Batch linting positions every diagnostic within the whole script: the
//! length of the consumed prefix is carried along, so offsets are
//! absolute.  The interactive driver has no enclosing script; its
//! offsets are relative to the attempted declaration's text: the
//! buffered text with surrounding whitespace removed.

use vstd::prelude::*;
use crate::diagnostics::{Diagnostic, DiagnosticView, ExpectedToken, ParseFault, brace_hint_text, FaultView};
use crate::function::{
    Function, FnDeclView, FnParse, FnParseError, spec_parse_func, parse_func_declaration,
    lemma_spec_parse_func_bounds, spec_incomplete_fault, incomplete_fault,
    lemma_spec_parse_func_fault_bounds, lemma_spec_incomplete_fault_bounds,
};
use crate::lexical::{is_blank, lemma_ws_end, spec_is_blank};
use crate::text::{
    spec_trim, trim, lemma_trim_bounds, find_char, lemma_find_char, scan_find_char,
};

verus! {

/// A value of one of two kinds.
#[derive(Debug, Clone, PartialEq, Eq)]
pub enum Either<A, B> {
    A(A),
    B(B),
}

/// The diagnostic built from a fault, in spec form.
pub open spec fn diag_of_fault(src: Seq<char>, f: FaultView) -> DiagnosticView {
    DiagnosticView {
        source: src,
        offset: f.offset,
        expected: f.expected,
        note: if f.expected == ExpectedToken::Char('\n') {
            Some(brace_hint_text())
        } else {
            None
        },
    }
}

/// The diagnostic built from a fault positioned within a buffer that
/// begins `base` characters into the source: the offset is absolute.
pub open spec fn diag_of_fault_at(src: Seq<char>, f: FaultView, base: int) -> DiagnosticView {
    diag_of_fault(src, FaultView { offset: base + f.offset, expected: f.expected })
}

/// Views of a sequence of declarations.
pub open spec fn fn_views(fs: Seq<Function>) -> Seq<FnDeclView> {
    fs.map(|k: int, f: Function| f@)
}

/// Views of a sequence of diagnostics.
pub open spec fn diag_views(ds: Seq<Diagnostic>) -> Seq<DiagnosticView> {
    ds.map(|k: int, d: Diagnostic| d@)
}

/// What draining the buffer `[start, upto)` of the script yields: the
/// declarations parsed one after another, the diagnostic of a grammar
/// violation — positioned absolutely, and ending the buffer — and the
/// start of what stays buffered.
pub open spec fn drain_at(s: Seq<char>, start: int, upto: int, src: Seq<char>) -> (
    Seq<FnDeclView>,
    Seq<DiagnosticView>,
    int,
)
    decreases upto - start,
    via drain_at_decreases
{
    if start < 0 || start >= upto || upto > s.len() {
        (Seq::empty(), Seq::empty(), start)
    } else {
        let t = s.subrange(start, upto);
        if spec_is_blank(t) {
            (Seq::empty(), Seq::empty(), start)
        } else {
            match spec_parse_func(t) {
                FnParse::Done(dv, rem) => {
                    let rest = drain_at(s, start + rem, upto, src);
                    (seq![dv] + rest.0, rest.1, rest.2)
                },
                FnParse::Incomplete => (Seq::empty(), Seq::empty(), start),
                FnParse::Fault(f) => (
                    Seq::empty(),
                    seq![diag_of_fault_at(src, f, start)],
                    upto,
                ),
            }
        }
    }
}

#[via_fn]
proof fn drain_at_decreases(s: Seq<char>, start: int, upto: int, src: Seq<char>) {
    if 0 <= start < upto <= s.len() {
        let t = s.subrange(start, upto);
        if !spec_is_blank(t) {
            lemma_spec_parse_func_bounds(t);
        }
    }
}

/// Drive the grammar across the script line by line: the buffer
/// `[start, upto)` is extended to the end of each successive line —
/// `pos` is where the next line begins — and drained after each.  Yields
/// all declarations and diagnostics, and the final buffer bounds.
pub open spec fn lint_lines(s: Seq<char>, start: int, upto: int, pos: int, src: Seq<char>) -> (
    Seq<FnDeclView>,
    Seq<DiagnosticView>,
    int,
    int,
)
    decreases s.len() - pos + 1,
    via lint_lines_decreases
{
    if pos < 0 || pos >= s.len() {
        (Seq::empty(), Seq::empty(), start, upto)
    } else {
        let nl = find_char(s, pos, '\n');
        let step = drain_at(s, start, nl, src);
        let rest = lint_lines(s, step.2, nl, nl + 1, src);
        (step.0 + rest.0, step.1 + rest.1, rest.2, rest.3)
    }
}

#[via_fn]
proof fn lint_lines_decreases(s: Seq<char>, start: int, upto: int, pos: int, src: Seq<char>) {
    if 0 <= pos < s.len() {
        lemma_find_char(s, pos, '\n');
    }
}

/// The declarations and diagnostics that linting a whole script yields.
///
/// The script is driven line by line; a grammar violation yields one
/// diagnostic and the run continues with the following line; text left
/// incomplete when the input ends yields a final diagnostic.  Every
/// diagnostic is positioned absolutely within the script.
pub open spec fn spec_lint(s: Seq<char>, src: Seq<char>) -> (Seq<FnDeclView>, Seq<DiagnosticView>) {
    let run = lint_lines(s, 0, 0, 0, src);
    let leftover = s.subrange(run.2, run.3);
    if spec_is_blank(leftover) {
        (run.0, run.1)
    } else {
        (run.0, run.1.push(diag_of_fault_at(src, spec_incomplete_fault(leftover), run.2)))
    }
}

/// Drain the buffer `[start, upto)` of the script: emit the
/// declarations and the diagnostic, if any, and return the new buffer
/// start.
fn drain_segment(
    input: &str,
    source: &str,
    start: usize,
    upto: usize,
    funcs: &mut Vec<Function>,
    diags: &mut Vec<Diagnostic>,
) -> (ns: usize)
    requires
        start <= upto <= input@.len(),
    ensures
        start <= ns <= upto,
        ns as int == drain_at(input@, start as int, upto as int, source@).2,
        fn_views(final(funcs)@) == fn_views(old(funcs)@) + drain_at(
            input@,
            start as int,
            upto as int,
            source@,
        ).0,
        diag_views(final(diags)@) == diag_views(old(diags)@) + drain_at(
            input@,
            start as int,
            upto as int,
            source@,
        ).1,
{
    let ghost s = input@;
    let ghost src = source@;
    let mut cur: usize = start;
    proof {
        let full = drain_at(s, start as int, upto as int, src);
        assert(fn_views(old(funcs)@) + full.0 =~= fn_views(funcs@) + full.0);
        assert(diag_views(old(diags)@) + full.1 =~= diag_views(diags@) + full.1);
    }
    loop
        invariant
            start <= cur <= upto <= input@.len(),
            s == input@,
            src == source@,
            fn_views(old(funcs)@) + drain_at(s, start as int, upto as int, src).0 == fn_views(
                funcs@,
            ) + drain_at(s, cur as int, upto as int, src).0,
            diag_views(old(diags)@) + drain_at(s, start as int, upto as int, src).1 == diag_views(
                diags@,
            ) + drain_at(s, cur as int, upto as int, src).1,
            drain_at(s, start as int, upto as int, src).2 == drain_at(
                s,
                cur as int,
                upto as int,
                src,
            ).2,
        decreases upto - cur,
    {
        let buf = input.substring_char(cur, upto);
        let ghost t = s.subrange(cur as int, upto as int);
        if is_blank(buf) {
            proof {
                assert(drain_at(s, cur as int, upto as int, src).0 =~= Seq::<FnDeclView>::empty());
                assert(drain_at(s, cur as int, upto as int, src).1
                    =~= Seq::<DiagnosticView>::empty());
                assert(fn_views(funcs@) + Seq::<FnDeclView>::empty() =~= fn_views(funcs@));
                assert(diag_views(diags@) + Seq::<DiagnosticView>::empty() =~= diag_views(diags@));
            }
            return cur;
        }
        match parse_func_declaration(buf) {
            Ok((f, rest)) => {
                proof {
                    lemma_spec_parse_func_bounds(t);
                }
                let rem: usize = buf.unicode_len() - rest.unicode_len();
                let ghost fview = f@;
                let ghost prev = fn_views(funcs@);
                funcs.push(f);
                proof {
                    assert(fn_views(funcs@) =~= prev + seq![fview]);
                    let r1 = drain_at(s, cur + rem, upto as int, src);
                    assert(prev + (seq![fview] + r1.0) =~= (prev + seq![fview]) + r1.0);
                }
                cur = cur + rem;
            },
            Err(e) => {
                match e {
                    FnParseError::Incomplete => {
                        proof {
                            assert(drain_at(s, cur as int, upto as int, src).0
                                =~= Seq::<FnDeclView>::empty());
                            assert(drain_at(s, cur as int, upto as int, src).1
                                =~= Seq::<DiagnosticView>::empty());
                            assert(fn_views(funcs@) + Seq::<FnDeclView>::empty()
                                =~= fn_views(funcs@));
                            assert(diag_views(diags@) + Seq::<DiagnosticView>::empty()
                                =~= diag_views(diags@));
                        }
                        return cur;
                    },
                    FnParseError::Error(f) | FnParseError::Failure(f) => {
                        proof {
                            lemma_spec_parse_func_fault_bounds(t);
                        }
                        let shifted = ParseFault { offset: cur + f.offset, expected: f.expected };
                        let d = Diagnostic::from_fault(source, &shifted);
                        let ghost dview = d@;
                        let ghost prev = diag_views(diags@);
                        diags.push(d);
                        proof {
                            assert(diag_views(diags@) =~= prev + seq![dview]);
                            assert(prev + seq![dview] + Seq::<DiagnosticView>::empty()
                                =~= prev + seq![dview]);
                            assert(fn_views(funcs@) + Seq::<FnDeclView>::empty()
                                =~= fn_views(funcs@));
                        }
                        return upto;
                    },
                }
            },
        }
    }
}

/// Lint a whole script: parse every function declaration in the text
/// and report every grammar violation as a diagnostic, positioned within
/// the script; after a violation the run continues with the next line.
pub fn lint_script(input: &str, source: &str) -> (r: (Vec<Function>, Vec<Diagnostic>))
    ensures
        fn_views(r.0@) == spec_lint(input@, source@).0,
        diag_views(r.1@) == spec_lint(input@, source@).1,
{
    let n: usize = input.unicode_len();
    let ghost s = input@;
    let ghost src = source@;
    let mut funcs: Vec<Function> = Vec::new();
    let mut diags: Vec<Diagnostic> = Vec::new();
    let mut start: usize = 0;
    let mut upto: usize = 0;
    let mut pos: usize = 0;
    proof {
        let r0 = lint_lines(s, 0, 0, 0, src);
        assert(fn_views(funcs@) =~= Seq::<FnDeclView>::empty());
        assert(diag_views(diags@) =~= Seq::<DiagnosticView>::empty());
        assert(Seq::<FnDeclView>::empty() + r0.0 =~= r0.0);
        assert(Seq::<DiagnosticView>::empty() + r0.1 =~= r0.1);
    }
    while pos < n
        invariant
            0 <= start <= upto <= n,
            upto <= pos,
            n == s.len(),
            s == input@,
            src == source@,
            lint_lines(s, 0, 0, 0, src).0 == fn_views(funcs@) + lint_lines(
                s,
                start as int,
                upto as int,
                pos as int,
                src,
            ).0,
            lint_lines(s, 0, 0, 0, src).1 == diag_views(diags@) + lint_lines(
                s,
                start as int,
                upto as int,
                pos as int,
                src,
            ).1,
            lint_lines(s, 0, 0, 0, src).2 == lint_lines(
                s,
                start as int,
                upto as int,
                pos as int,
                src,
            ).2,
            lint_lines(s, 0, 0, 0, src).3 == lint_lines(
                s,
                start as int,
                upto as int,
                pos as int,
                src,
            ).3,
        decreases n - pos,
    {
        let nl: usize = scan_find_char(input, pos, '\n');
        proof {
            lemma_find_char(s, pos as int, '\n');
        }
        let ghost step = drain_at(s, start as int, nl as int, src);
        let ghost rest = lint_lines(s, step.2, nl as int, nl as int + 1, src);
        let ns = drain_segment(input, source, start, nl, &mut funcs, &mut diags);
        proof {
            assert(lint_lines(s, 0, 0, 0, src).0 =~= fn_views(funcs@) + rest.0);
            assert(lint_lines(s, 0, 0, 0, src).1 =~= diag_views(diags@) + rest.1);
        }
        start = ns;
        upto = nl;
        if nl >= n {
            proof {
                assert(lint_lines(s, ns as int, nl as int, n as int, src) == rest);
            }
            pos = n;
        } else {
            pos = nl + 1;
        }
    }
    proof {
        let run = lint_lines(s, 0, 0, 0, src);
        assert(lint_lines(s, start as int, upto as int, pos as int, src) == (
            Seq::<FnDeclView>::empty(),
            Seq::<DiagnosticView>::empty(),
            start as int,
            upto as int,
        ));
        assert(run.0 =~= fn_views(funcs@));
        assert(run.1 =~= diag_views(diags@));
    }
    let leftover = input.substring_char(start, upto);
    if is_blank(leftover) {
        return (funcs, diags);
    }
    let fault = incomplete_fault(leftover);
    proof {
        lemma_spec_incomplete_fault_bounds(leftover@);
    }
    let shifted = ParseFault { offset: start + fault.offset, expected: fault.expected };
    let d = Diagnostic::from_fault(source, &shifted);
    let ghost dview = d@;
    let ghost prev = diag_views(diags@);
    diags.push(d);
    proof {
        assert(diag_views(diags@) =~= prev.push(dview));
    }
    (funcs, diags)
}

/// View of a driver outcome: an emitted declaration or diagnostic.
pub open spec fn outcome_view(o: Either<Function, Diagnostic>) -> Either<
    FnDeclView,
    DiagnosticView,
> {
    match o {
        Either::A(f) => Either::A(f@),
        Either::B(d) => Either::B(d@),
    }
}

/// Views of a sequence of driver outcomes.
pub open spec fn outcome_views(os: Seq<Either<Function, Diagnostic>>) -> Seq<
    Either<FnDeclView, DiagnosticView>,
> {
    os.map(|k: int, o: Either<Function, Diagnostic>| outcome_view(o))
}

/// What draining the buffered text yields: the outcomes emitted, and the
/// text that stays buffered.
///
/// Complete declarations are emitted one after another; text that is
/// still incomplete stays in the buffer for more input to extend; a
/// grammar violation is emitted as a diagnostic and the buffer is
/// discarded.
pub open spec fn spec_drain(s: Seq<char>, src: Seq<char>) -> (
    Seq<Either<FnDeclView, DiagnosticView>>,
    Seq<char>,
)
    decreases s.len(),
    via spec_drain_decreases
{
    let t = spec_trim(s);
    if t.len() == 0 {
        (Seq::empty(), Seq::empty())
    } else {
        match spec_parse_func(t) {
            FnParse::Done(dv, rem) => {
                let rest = spec_drain(t.subrange(rem, t.len() as int), src);
                (seq![Either::A(dv)] + rest.0, rest.1)
            },
            FnParse::Incomplete => (Seq::empty(), s),
            FnParse::Fault(f) => (seq![Either::B(diag_of_fault(src, f))], Seq::empty()),
        }
    }
}

#[via_fn]
proof fn spec_drain_decreases(s: Seq<char>, src: Seq<char>) {
    let t = spec_trim(s);
    if t.len() > 0 {
        lemma_ws_end(s, 0);
        lemma_trim_bounds(s);
        lemma_spec_parse_func_bounds(t);
    }
}

/// The buffer after a new line arrives: the line itself when nothing is
/// buffered, otherwise the buffer, a line break, and the line.
pub open spec fn buffer_appended(buf: Seq<char>, line: Seq<char>) -> Seq<char> {
    if buf.len() == 0 {
        line
    } else {
        buf + seq!['\n'] + line
    }
}

/// The mathematical content of a [`Linter`].
pub struct LinterView {
    pub source: Seq<char>,
    pub buffer: Seq<char>,
}

/// The incremental linting driver: a two-state machine over a buffer of
/// accumulated text.
///
/// An empty buffer awaits a line; a non-empty buffer holds a partial
/// declaration that more lines may complete.  Each pushed line is
/// appended and the buffer is drained: complete declarations and
/// diagnostics are emitted, incomplete text stays buffered.  Distinct
/// scripts or sessions must use distinct driver instances.
pub struct Linter {
    source: String,
    buffer: String,
}

impl View for Linter {
    type V = LinterView;

    closed spec fn view(&self) -> LinterView {
        LinterView { source: self.source@, buffer: self.buffer@ }
    }
}

impl Linter {
    /// A fresh driver for the named source, with nothing buffered.
    pub fn new(source: &str) -> (l: Linter)
        ensures
            l@.source == source@,
            l@.buffer == Seq::<char>::empty(),
    {
        Linter { source: String::from_str(source), buffer: String::new() }
    }

    /// Feed the next line to the driver and collect what it emits.
    pub fn push_line(&mut self, line: &str) -> (out: Vec<Either<Function, Diagnostic>>)
        ensures
            final(self)@.source == old(self)@.source,
            outcome_views(out@) == spec_drain(
                buffer_appended(old(self)@.buffer, line@),
                old(self)@.source,
            ).0,
            final(self)@.buffer == spec_drain(
                buffer_appended(old(self)@.buffer, line@),
                old(self)@.source,
            ).1,
    {
        let ghost src = self.source@;
        let ghost combined = buffer_appended(self.buffer@, line@);
        if self.buffer.unicode_len() == 0 {
            self.buffer = String::from_str(line);
        } else {
            self.buffer.append("\n");
            self.buffer.append(line);
            proof {
                reveal_strlit("\n");
                assert(("\n")@ =~= seq!['\n']);
            }
        }
        proof {
            assert(self.buffer@ == combined);
        }
        let mut out: Vec<Either<Function, Diagnostic>> = Vec::new();
        proof {
            let r0 = spec_drain(combined, src);
            assert(outcome_views(out@) =~= Seq::<Either<FnDeclView, DiagnosticView>>::empty());
            assert(Seq::<Either<FnDeclView, DiagnosticView>>::empty() + r0.0 =~= r0.0);
        }
        loop
            invariant
                src == self.source@,
                src == old(self)@.source,
                combined == buffer_appended(old(self)@.buffer, line@),
                spec_drain(combined, src).0 == outcome_views(out@) + spec_drain(
                    self.buffer@,
                    src,
                ).0,
                spec_drain(combined, src).1 == spec_drain(self.buffer@, src).1,
            decreases self.buffer@.len(),
        {
            let trimmed = trim(self.buffer.as_str());
            let ghost t = spec_trim(self.buffer@);
            if trimmed.unicode_len() == 0 {
                proof {
                    assert(outcome_views(out@) + Seq::<Either<FnDeclView, DiagnosticView>>::empty()
                        =~= outcome_views(out@));
                }
                self.buffer = String::new();
                return out;
            }
            match parse_func_declaration(trimmed) {
                Ok((f, rest)) => {
                    proof {
                        lemma_spec_parse_func_bounds(t);
                        lemma_ws_end(self.buffer@, 0);
                        lemma_trim_bounds(self.buffer@);
                    }
                    let next = String::from_str(rest);
                    let ghost oview = outcome_view(Either::A(f));
                    let ghost prev = outcome_views(out@);
                    out.push(Either::A(f));
                    proof {
                        assert(outcome_views(out@) =~= prev + seq![oview]);
                        let r1 = spec_drain(next@, src);
                        assert(prev + (seq![oview] + r1.0) =~= (prev + seq![oview]) + r1.0);
                    }
                    self.buffer = next;
                },
                Err(e) => {
                    match e {
                        FnParseError::Incomplete => {
                            proof {
                                assert(outcome_views(out@)
                                    + Seq::<Either<FnDeclView, DiagnosticView>>::empty()
                                    =~= outcome_views(out@));
                            }
                            return out;
                        },
                        FnParseError::Error(f) | FnParseError::Failure(f) => {
                            let d = Diagnostic::from_fault(self.source.as_str(), &f);
                            let ghost oview = outcome_view(Either::B(d));
                            let ghost prev = outcome_views(out@);
                            out.push(Either::B(d));
                            proof {
                                assert(outcome_views(out@) =~= prev + seq![oview]);
                                assert(prev + seq![oview] + Seq::<
                                    Either<FnDeclView, DiagnosticView>,
                                >::empty() =~= prev + seq![oview]);
                            }
                            self.buffer = String::new();
                            return out;
                        },
                    }
                },
            }
        }
    }

    /// Report whether buffered text was left incomplete when the input
    /// ended, and reset the driver.  The diagnostic describes what was
    /// missing and where, within the buffered text: in particular, a body
    /// whose block never closes is reported at its opening brace.
    pub fn finish(&mut self) -> (r: Option<Diagnostic>)
        ensures
            final(self)@.source == old(self)@.source,
            final(self)@.buffer == Seq::<char>::empty(),
            spec_is_blank(old(self)@.buffer) ==> r is None,
            !spec_is_blank(old(self)@.buffer) ==> (r matches Some(d) && d@ == diag_of_fault(
                old(self)@.source,
                spec_incomplete_fault(old(self)@.buffer),
            )),
    {
        if is_blank(self.buffer.as_str()) {
            self.buffer = String::new();
            return None;
        }
        let fault = incomplete_fault(self.buffer.as_str());
        let d = Diagnostic::from_fault(self.source.as_str(), &fault);
        self.buffer = String::new();
        Some(d)
    }
}

} // verus!
