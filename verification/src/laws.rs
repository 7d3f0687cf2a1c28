//! Laws of the declaration grammar, stated and proved against the spec
//! functions the parsers' contracts use.
//!
//! A declaration written in the canonical shape
//! `export? func NAME(P1: T1, ..., Pn: Tn) { L1 \n ... \n Lk }` is
//! rendered by [`render_decl`]; the laws state that parsing such a text
//! reproduces the name, the ordered parameter list and the ordered line
//! sequence exactly, whatever text follows the declaration — and hence
//! that two concatenated declarations parse one after the other.

use vstd::prelude::*;
use crate::lexical::{
    is_word_char, is_space_char, word_end, ws_end, lemma_word_end_step, lemma_ws_end_step,
};
use crate::text::{
    spec_trim, spec_lines, lines_from, find_char, lemma_find_char, lemma_find_char_step,
    ws_rend, lemma_ws_rend_step,
};
use crate::types::{TypeView, keyword_of, tuple_elem_list, type_at};
use crate::function::{ParamView, fn_params, fn_params_list, body_end, spec_parse_func};

verus! {

/// A non-empty run of identifier characters.
pub open spec fn is_word_seq(s: Seq<char>) -> bool {
    forall|k: int| 0 <= k < s.len() ==> is_word_char(#[trigger] s[k])
}

/// The keyword a scalar type is written as.
pub open spec fn keyword_text(t: TypeView) -> Seq<char> {
    match t {
        TypeView::Str => "string"@,
        TypeView::Int => "int"@,
        TypeView::Bool => "bool"@,
        TypeView::Null => "null"@,
        TypeView::Tuple(_) => Seq::empty(),
    }
}

/// A scalar type: any type other than a tuple.
pub open spec fn scalar_ty(t: TypeView) -> bool {
    !(t is Tuple)
}

/// A well-formed type: a tuple holds scalars only.
pub open spec fn wf_type_view(t: TypeView) -> bool {
    match t {
        TypeView::Tuple(es) => forall|k: int| 0 <= k < es.len() ==> scalar_ty(#[trigger] es[k]),
        _ => true,
    }
}

/// The written form of a non-empty tuple element list.
pub open spec fn render_scalar_list(es: Seq<TypeView>) -> Seq<char>
    decreases es.len(),
{
    if es.len() == 0 {
        Seq::empty()
    } else if es.len() == 1 {
        keyword_text(es[0])
    } else {
        keyword_text(es[0]) + ", "@ + render_scalar_list(es.skip(1))
    }
}

/// The written form of a type.
pub open spec fn render_type(t: TypeView) -> Seq<char> {
    match t {
        TypeView::Tuple(es) => "("@ + render_scalar_list(es) + ")"@,
        _ => keyword_text(t),
    }
}

/// The written form of one parameter.
pub open spec fn render_param(p: ParamView) -> Seq<char> {
    p.identifier + ": "@ + render_type(p.ty)
}

/// The written form of a parameter list.
pub open spec fn render_params(ps: Seq<ParamView>) -> Seq<char>
    decreases ps.len(),
{
    if ps.len() == 0 {
        Seq::empty()
    } else if ps.len() == 1 {
        render_param(ps[0])
    } else {
        render_param(ps[0]) + ", "@ + render_params(ps.skip(1))
    }
}

/// The body lines joined by line breaks.
pub open spec fn join_nl(lines: Seq<Seq<char>>) -> Seq<char>
    decreases lines.len(),
{
    if lines.len() == 0 {
        Seq::empty()
    } else if lines.len() == 1 {
        lines[0]
    } else {
        lines[0] + seq!['\n'] + join_nl(lines.skip(1))
    }
}

/// The text between the braces of a rendered declaration.
pub open spec fn render_body(lines: Seq<Seq<char>>) -> Seq<char> {
    if lines.len() == 0 {
        seq!['\n']
    } else {
        seq!['\n'] + join_nl(lines) + seq!['\n']
    }
}

/// The canonical written form of a whole declaration.
pub open spec fn render_decl(
    exported: bool,
    name: Seq<char>,
    params: Seq<ParamView>,
    lines: Seq<Seq<char>>,
) -> Seq<char> {
    (if exported {
        "export "@
    } else {
        Seq::empty()
    }) + "func "@ + name + "("@ + render_params(params) + ") {"@ + render_body(lines) + "}"@
}

/// A well-formed identifier.
pub open spec fn wf_name(n: Seq<char>) -> bool {
    n.len() > 0 && is_word_seq(n)
}

/// A well-formed parameter: a named identifier with a well-formed type.
pub open spec fn wf_param(p: ParamView) -> bool {
    wf_name(p.identifier) && wf_type_view(p.ty)
}

/// A well-formed body line: already trimmed, on one line, and free of
/// braces and escapes.
pub open spec fn wf_line(l: Seq<char>) -> bool {
    spec_trim(l) == l && forall|k: int|
        0 <= k < l.len() ==> l[k] != '\n' && l[k] != '{' && l[k] != '}' && (#[trigger] l[k])
            != '\\'
}

/// A well-formed body: every line well formed, and the first and last
/// lines non-empty, so that no line is lost to trimming.
pub open spec fn wf_lines(ls: Seq<Seq<char>>) -> bool {
    (forall|k: int| 0 <= k < ls.len() ==> wf_line(#[trigger] ls[k])) && (ls.len() > 0
        ==> ls[0].len() > 0 && ls[ls.len() - 1].len() > 0)
}

/// A well-formed canonical declaration.
pub open spec fn render_wf(name: Seq<char>, params: Seq<ParamView>, lines: Seq<Seq<char>>) -> bool {
    wf_name(name) && (forall|k: int| 0 <= k < params.len() ==> wf_param(#[trigger] params[k]))
        && wf_lines(lines)
}

// --- exact characterisations of the scans ---

/// A run of identifier characters bounded by a non-identifier character
/// or the end of the text scans to exactly its bound.
pub proof fn lemma_word_end_exact(s: Seq<char>, i: int, j: int)
    requires
        0 <= i <= j <= s.len(),
        forall|k: int| i <= k < j ==> is_word_char(#[trigger] s[k]),
        j == s.len() || !is_word_char(s[j]),
    ensures
        word_end(s, i) == j,
{
    lemma_word_end_step(s, i, j);
}

/// A run of whitespace bounded by a non-whitespace character or the end
/// of the text scans to exactly its bound.
pub proof fn lemma_ws_end_exact(s: Seq<char>, i: int, j: int)
    requires
        0 <= i <= j <= s.len(),
        forall|k: int| i <= k < j ==> is_space_char(#[trigger] s[k]),
        j == s.len() || !is_space_char(s[j]),
    ensures
        ws_end(s, i) == j,
{
    lemma_ws_end_step(s, i, j);
}

/// A stretch without the character, bounded by the character or the end
/// of the text, is found at exactly its bound.
pub proof fn lemma_find_char_exact(s: Seq<char>, i: int, j: int, c: char)
    requires
        0 <= i <= j <= s.len(),
        forall|k: int| i <= k < j ==> s[k] != c,
        j == s.len() || s[j] == c,
    ensures
        find_char(s, i, c) == j,
{
    lemma_find_char_step(s, i, j, c);
}

/// A stretch free of braces and escapes, closed by `}`, scans to exactly
/// that closing brace.
pub proof fn lemma_body_end_clean(s: Seq<char>, i: int, e: int)
    requires
        0 <= i <= e < s.len(),
        forall|k: int| i <= k < e ==> s[k] != '{' && s[k] != '}' && (#[trigger] s[k]) != '\\',
        s[e] == '}',
    ensures
        body_end(s, i, 0) == Some(e),
    decreases e - i,
{
    if i < e {
        lemma_body_end_clean(s, i + 1, e);
    }
}

/// An escaped character — a brace as much as any other — never affects
/// the bracket-balanced scan: the scan steps straight over it.
pub proof fn lemma_escape_skips(s: Seq<char>, i: int, depth: int)
    requires
        0 <= i,
        i + 1 < s.len(),
        s[i] == '\\',
    ensures
        body_end(s, i, depth) == body_end(s, i + 2, depth),
{
}

/// LAW — an escaped closing brace inside a body never terminates the
/// block early: after a stretch of ordinary text, an escape and whatever
/// character follows it — in particular `\}` — are stepped over, and the
/// scan carries on behind them at the same depth.
pub proof fn lemma_escaped_brace_does_not_close(s: Seq<char>, i: int, j: int, depth: int)
    requires
        0 <= i <= j,
        j + 1 < s.len(),
        forall|k: int| i <= k < j ==> s[k] != '{' && s[k] != '}' && (#[trigger] s[k]) != '\\',
        s[j] == '\\',
    ensures
        body_end(s, i, depth) == body_end(s, j + 2, depth),
    decreases j - i,
{
    if i < j {
        lemma_escaped_brace_does_not_close(s, i + 1, j, depth);
    }
}

/// A backward run of whitespace bounded below by a non-whitespace
/// character or the start of the text scans back to exactly its bound.
pub proof fn lemma_ws_rend_exact(s: Seq<char>, j: int, i: int)
    requires
        0 <= j <= i <= s.len(),
        forall|k: int| j <= k < i ==> is_space_char(#[trigger] s[k]),
        j == 0 || !is_space_char(s[j - 1]),
    ensures
        ws_rend(s, i) == j,
{
    lemma_ws_rend_step(s, j, i);
}

/// Finding a character in a suffix is finding it from an offset.
pub proof fn lemma_find_char_shift(s: Seq<char>, c: int, i: int, ch: char)
    requires
        0 <= c <= s.len(),
        0 <= i,
    ensures
        find_char(s.skip(c), i, ch) == find_char(s, c + i, ch) - c,
    decreases s.len() - c - i + 1,
{
    let t = s.skip(c);
    if 0 <= i < t.len() && t[i] != ch {
        lemma_find_char_shift(s, c, i + 1, ch);
    }
}

/// The lines of a suffix are the lines from that offset on.
pub proof fn lemma_lines_from_offset(s: Seq<char>, c: int)
    requires
        0 <= c <= s.len(),
    ensures
        lines_from(s, c) == spec_lines(s.skip(c)),
    decreases s.len() - c,
{
    let t = s.skip(c);
    if c < s.len() {
        let nl = find_char(s, c, '\n');
        lemma_find_char(s, c, '\n');
        lemma_find_char_shift(s, c, 0, '\n');
        assert(find_char(t, 0, '\n') == nl - c);
        assert(t.subrange(0, nl - c) =~= s.subrange(c, nl));
        if nl + 1 <= s.len() {
            lemma_lines_from_offset(s, nl + 1);
            assert(t.skip(nl - c + 1) =~= s.skip(nl + 1));
            lemma_lines_from_offset(t, nl - c + 1);
            assert(lines_from(t, nl - c + 1) == spec_lines(s.skip(nl + 1)));
        } else {
            assert(nl == s.len());
            assert(lines_from(s, nl + 1) =~= Seq::<Seq<char>>::empty());
            assert(lines_from(t, nl - c + 1) =~= Seq::<Seq<char>>::empty());
        }
    }
}

/// Splitting joined lines gives the lines back, as long as each line is
/// trimmed, free of line breaks, and the last line is non-empty.
pub proof fn lemma_lines_of_join(ls: Seq<Seq<char>>)
    requires
        forall|k: int| 0 <= k < ls.len() ==> wf_line(#[trigger] ls[k]),
        ls.len() > 0 ==> ls[ls.len() - 1].len() > 0,
    ensures
        spec_lines(join_nl(ls)) == ls,
    decreases ls.len(),
{
    let s = join_nl(ls);
    if ls.len() == 0 {
        assert(spec_lines(s) =~= ls);
    } else if ls.len() == 1 {
        assert(s == ls[0]);
        assert(s.len() > 0);
        assert(forall|k: int| 0 <= k < s.len() ==> s[k] != '\n');
        lemma_find_char_exact(s, 0, s.len() as int, '\n');
        assert(s.subrange(0, s.len() as int) =~= s);
        assert(spec_trim(s) == s);
        assert(lines_from(s, s.len() as int + 1) =~= Seq::<Seq<char>>::empty());
        assert(spec_lines(s) =~= ls);
    } else {
        let head = ls[0];
        let rest = ls.skip(1);
        let hl = head.len() as int;
        assert(s == head + seq!['\n'] + join_nl(rest));
        assert(forall|k: int| 0 <= k < hl ==> #[trigger] s[k] == head[k]);
        assert(s[hl] == '\n');
        lemma_find_char_exact(s, 0, hl, '\n');
        assert(s.subrange(0, hl) =~= head);
        assert(spec_trim(head) == head);
        lemma_lines_from_offset(s, hl + 1);
        assert(s.skip(hl + 1) =~= join_nl(rest));
        lemma_lines_of_join(rest);
        assert(spec_lines(s) == seq![head] + rest);
        assert(seq![head] + rest =~= ls);
    }
}

/// The characters of joined well-formed lines: line breaks and line
/// characters only, so no braces and no escapes; and the join ends with
/// the last character of the last line.
pub proof fn lemma_join_nl_facts(ls: Seq<Seq<char>>)
    requires
        forall|k: int| 0 <= k < ls.len() ==> wf_line(#[trigger] ls[k]),
        ls.len() > 0,
        ls[ls.len() - 1].len() > 0,
    ensures
        join_nl(ls).len() > 0,
        forall|k: int| 0 <= k < join_nl(ls).len() ==> join_nl(ls)[k] != '{' && join_nl(ls)[k]
            != '}' && (#[trigger] join_nl(ls)[k]) != '\\',
        !is_space_char(join_nl(ls)[join_nl(ls).len() - 1]),
        ls[0].len() > 0 ==> join_nl(ls)[0] == ls[0][0],
    decreases ls.len(),
{
    let s = join_nl(ls);
    if ls.len() == 1 {
        assert(s == ls[0]);
        crate::text::lemma_trim_trimmed(ls[0]);
        assert(spec_trim(ls[0]) == ls[0]);
        assert(!is_space_char(ls[0][ls[0].len() - 1]));
    } else {
        let head = ls[0];
        let rest = ls.skip(1);
        let hl = head.len() as int;
        lemma_join_nl_facts(rest);
        let jr = join_nl(rest);
        assert(s == head + seq!['\n'] + jr);
        assert(forall|k: int| 0 <= k < hl ==> #[trigger] s[k] == head[k]);
        assert(s[hl] == '\n');
        assert(forall|k: int| hl + 1 <= k < s.len() ==> #[trigger] s[k] == jr[k - hl - 1]);
        assert(s[s.len() - 1] == jr[jr.len() - 1]);
        assert(forall|k: int| 0 <= k < s.len() ==> s[k] != '{' && s[k] != '}' && (#[trigger] s[k])
            != '\\') by {
            assert(forall|k: int| 0 <= k < hl ==> head[k] != '{' && head[k] != '}' && (
            #[trigger] head[k]) != '\\');
        }
    }
}

/// Trimming the rendered body of well-formed lines leaves exactly the
/// joined lines, and splitting gives the lines back.
pub proof fn lemma_render_body_lines(ls: Seq<Seq<char>>)
    requires
        forall|k: int| 0 <= k < ls.len() ==> wf_line(#[trigger] ls[k]),
        ls.len() > 0 ==> ls[0].len() > 0 && ls[ls.len() - 1].len() > 0,
    ensures
        spec_lines(spec_trim(render_body(ls))) == ls,
{
    let bt = render_body(ls);
    if ls.len() == 0 {
        assert(bt == seq!['\n']);
        assert(is_space_char(bt[0]));
        lemma_ws_end_exact(bt, 0, 1);
        assert(spec_trim(bt) =~= Seq::<char>::empty());
        assert(spec_lines(Seq::<char>::empty()) =~= ls);
    } else {
        lemma_join_nl_facts(ls);
        let j = join_nl(ls);
        let jl = j.len() as int;
        assert(bt == seq!['\n'] + j + seq!['\n']);
        assert(bt[0] == '\n');
        assert(forall|k: int| 1 <= k < jl + 1 ==> #[trigger] bt[k] == j[k - 1]);
        assert(bt[jl + 1] == '\n');
        crate::text::lemma_trim_trimmed(ls[0]);
        assert(j[0] == ls[0][0]);
        assert(!is_space_char(j[0]));
        assert(bt[1] == j[0]);
        lemma_ws_end_exact(bt, 0, 1);
        assert(bt[jl] == j[jl - 1]);
        assert(!is_space_char(bt[jl]));
        lemma_ws_rend_exact(bt, jl + 1, bt.len() as int);
        assert(spec_trim(bt) =~= j);
        lemma_lines_of_join(ls);
    }
}

// --- parsing a rendered declaration ---

/// The keyword of a scalar type is a non-empty identifier run and
/// denotes exactly that type.
pub proof fn lemma_keyword_text_facts(t: TypeView)
    requires
        scalar_ty(t),
    ensures
        keyword_text(t).len() > 0,
        is_word_seq(keyword_text(t)),
        keyword_of(keyword_text(t)) == Some(t),
{
    reveal_strlit("string");
    reveal_strlit("int");
    reveal_strlit("bool");
    reveal_strlit("null");
    assert(("string")@.len() == 6);
    assert(("int")@.len() == 3);
    assert(("bool")@.len() == 4);
    assert(("null")@.len() == 4);
    match t {
        TypeView::Str => {
            assert(keyword_of(("string")@) == Some(TypeView::Str));
        },
        TypeView::Int => {
            assert(("int")@ != ("string")@);
            assert(keyword_of(("int")@) == Some(TypeView::Int));
        },
        TypeView::Bool => {
            assert(("bool")@ != ("string")@ && ("bool")@ != ("int")@);
            assert(keyword_of(("bool")@) == Some(TypeView::Bool));
        },
        TypeView::Null => {
            assert(("null")@ != ("string")@ && ("null")@ != ("int")@);
            assert(("null")@[0] != ("bool")@[0]);
            assert(keyword_of(("null")@) == Some(TypeView::Null));
        },
        TypeView::Tuple(_) => {},
    }
}

/// A rendered tuple element list standing at `[p, p + len)` of the text,
/// closed by `)`, parses to exactly its elements — also when entered at
/// a position `q` whose leading whitespace ends at `p`.
pub proof fn lemma_scalar_list_parse(s: Seq<char>, q: int, p: int, es: Seq<TypeView>)
    requires
        0 <= q <= p,
        ws_end(s, q) == p,
        es.len() > 0,
        forall|k: int| 0 <= k < es.len() ==> scalar_ty(#[trigger] es[k]),
        p + render_scalar_list(es).len() < s.len(),
        s.subrange(p, p + render_scalar_list(es).len() as int) == render_scalar_list(es),
        s[p + render_scalar_list(es).len() as int] == ')',
    ensures
        tuple_elem_list(s, q) == Ok::<(Seq<TypeView>, int), crate::diagnostics::FaultView>((
            es,
            p + render_scalar_list(es).len() + 1,
        )),
    decreases es.len(),
{
    let r = render_scalar_list(es);
    let ll = r.len() as int;
    let seg = s.subrange(p, p + ll);
    let kw = keyword_text(es[0]);
    let kl = kw.len() as int;
    lemma_keyword_text_facts(es[0]);
    assert(forall|k: int| p <= k < p + ll ==> #[trigger] s[k] == r[k - p]) by {
        assert(forall|k: int| p <= k < p + ll ==> s[k] == #[trigger] seg[k - p]);
    }
    if es.len() == 1 {
        assert(r == kw);
        assert(forall|k: int| p <= k < p + kl ==> is_word_char(#[trigger] s[k])) by {
            assert(forall|k: int| p <= k < p + kl ==> #[trigger] s[k] == kw[k - p]);
        }
        assert(s[p + kl] == ')');
        lemma_word_end_exact(s, p, p + kl);
        assert(word_end(s, p) == p + kl);
        assert(keyword_of(s.subrange(p, p + kl)) == Some(es[0])) by {
            assert(s.subrange(p, p + kl) =~= kw);
        }
        lemma_ws_end_exact(s, p + kl, p + kl);
        assert(tuple_elem_list(s, q) == Ok::<(Seq<TypeView>, int), crate::diagnostics::FaultView>((
            seq![es[0]],
            p + kl + 1,
        )));
        assert(seq![es[0]] =~= es);
    } else {
        let rest = es.skip(1);
        let rr = render_scalar_list(rest);
        assert(r == kw + ", "@ + rr);
        reveal_strlit(", ");
        assert(forall|k: int| p <= k < p + kl ==> is_word_char(#[trigger] s[k])) by {
            assert(forall|k: int| p <= k < p + kl ==> #[trigger] s[k] == (kw + ", "@ + rr)[k - p]);
        }
        assert(r[kl] == ',' && r[kl + 1] == ' ');
        assert(s[p + kl] == ',');
        assert(s[p + kl + 1] == ' ');
        lemma_word_end_exact(s, p, p + kl);
        assert(keyword_of(s.subrange(p, p + kl)) == Some(es[0])) by {
            assert(s.subrange(p, p + kl) =~= kw);
        }
        lemma_ws_end_exact(s, p + kl, p + kl);
        // the rest of the list starts after the comma and one space
        let p2 = p + kl + 2;
        assert(rest.len() > 0);
        lemma_keyword_text_facts(rest[0]);
        assert(forall|k: int| 0 <= k < rr.len() ==> #[trigger] rr[k] == s[p + kl + 2 + k]);
        assert(rr[0] == keyword_text(rest[0])[0]) by {
            assert(rr == keyword_text(rest[0]) || rr == keyword_text(rest[0]) + ", "@
                + render_scalar_list(rest.skip(1)));
        }
        assert(is_word_char(s[p2]));
        lemma_ws_end_exact(s, p + kl + 1, p2);
        assert(s.subrange(p2, p2 + rr.len() as int) =~= rr);
        lemma_scalar_list_parse(s, p + kl + 1, p2, rest);
        assert(tuple_elem_list(s, p + kl + 1)
            == Ok::<(Seq<TypeView>, int), crate::diagnostics::FaultView>((
            rest,
            p2 + rr.len() + 1,
        )));
        assert(seq![es[0]] + rest =~= es);
        assert(p2 + rr.len() + 1 == p + ll + 1);
    }
}

/// A rendered type standing at `[p, p + len)` of the text parses to
/// exactly that type.  For a keyword the character after the type must
/// not extend the identifier run; for a tuple nothing is required of it.
pub proof fn lemma_type_at_parse(s: Seq<char>, p: int, t: TypeView)
    requires
        0 <= p,
        wf_type_view(t),
        p + render_type(t).len() < s.len(),
        s.subrange(p, p + render_type(t).len() as int) == render_type(t),
        scalar_ty(t) ==> !is_word_char(s[p + render_type(t).len() as int]),
    ensures
        type_at(s, p) == Ok::<(TypeView, int), crate::diagnostics::FaultView>((
            t,
            p + render_type(t).len(),
        )),
{
    let r = render_type(t);
    let ll = r.len() as int;
    let seg = s.subrange(p, p + ll);
    assert(forall|k: int| p <= k < p + ll ==> #[trigger] s[k] == r[k - p]) by {
        assert(forall|k: int| p <= k < p + ll ==> s[k] == #[trigger] seg[k - p]);
    }
    match t {
        TypeView::Tuple(es) => {
            reveal_strlit("(");
            reveal_strlit(")");
            assert(("(")@.len() == 1 && (")")@.len() == 1);
            assert(s[p] == '(');
            lemma_word_end_exact(s, p, p);
            if es.len() == 0 {
                assert(render_scalar_list(es) == Seq::<char>::empty());
                assert(ll == 2);
                assert(s[p + 1] == ')');
                assert(type_at(s, p) == Ok::<(TypeView, int), crate::diagnostics::FaultView>((
                    TypeView::Tuple(Seq::empty()),
                    p + 2,
                )));
                assert(TypeView::Tuple(Seq::<TypeView>::empty()) == t) by {
                    assert(es =~= Seq::<TypeView>::empty());
                }
            } else {
                let rsc = render_scalar_list(es);
                lemma_keyword_text_facts(es[0]);
                assert(rsc[0] == keyword_text(es[0])[0]) by {
                    assert(rsc == keyword_text(es[0]) || rsc == keyword_text(es[0]) + ", "@
                        + render_scalar_list(es.skip(1)));
                }
                assert(s[p + 1] == rsc[0]);
                assert(is_word_char(s[p + 1]));
                assert(s[p + 1] != ')');
                lemma_ws_end_exact(s, p + 1, p + 1);
                assert(s.subrange(p + 1, p + 1 + rsc.len() as int) =~= rsc);
                assert(s[p + 1 + rsc.len() as int] == ')');
                lemma_scalar_list_parse(s, p + 1, p + 1, es);
                assert(tuple_elem_list(s, p + 1)
                    == Ok::<(Seq<TypeView>, int), crate::diagnostics::FaultView>((
                    es,
                    p + 1 + rsc.len() + 1,
                )));
            }
        },
        _ => {
            lemma_keyword_text_facts(t);
            assert(forall|k: int| p <= k < p + ll ==> is_word_char(#[trigger] s[k])) by {
                assert(forall|k: int| p <= k < p + ll ==> #[trigger] s[k] == keyword_text(t)[k
                    - p]);
            }
            lemma_word_end_exact(s, p, p + ll);
            assert(keyword_of(s.subrange(p, p + ll)) == Some(t)) by {
                assert(s.subrange(p, p + ll) =~= keyword_text(t));
            }
        },
    }
}

/// A rendered parameter list standing at `[p, p + len)` of the text,
/// closed by `)`, parses to exactly its parameters — also when entered
/// at a position `q` whose leading whitespace ends at `p`.
#[verifier::rlimit(100)]
pub proof fn lemma_params_list_parse(s: Seq<char>, q: int, p: int, ps: Seq<ParamView>)
    requires
        0 <= q <= p,
        ws_end(s, q) == p,
        ps.len() > 0,
        forall|k: int| 0 <= k < ps.len() ==> wf_param(#[trigger] ps[k]),
        p + render_params(ps).len() < s.len(),
        s.subrange(p, p + render_params(ps).len() as int) == render_params(ps),
        s[p + render_params(ps).len() as int] == ')',
    ensures
        fn_params_list(s, q) == crate::function::ParamsParse::Done(
            ps,
            p + render_params(ps).len() + 1,
        ),
    decreases ps.len(),
{
    reveal_strlit(": ");
    reveal_strlit(", ");
    assert((": ")@.len() == 2 && (", ")@.len() == 2);
    let r = render_params(ps);
    let ll = r.len() as int;
    let seg = s.subrange(p, p + ll);
    assert(forall|k: int| p <= k < p + ll ==> #[trigger] s[k] == r[k - p]) by {
        assert(forall|k: int| p <= k < p + ll ==> s[k] == #[trigger] seg[k - p]);
    }
    let p0 = ps[0];
    let rp = render_param(p0);
    let idl = p0.identifier.len() as int;
    let rt = render_type(p0.ty);
    assert(rp == p0.identifier + ": "@ + rt);
    assert(forall|k: int| 0 <= k < rp.len() ==> #[trigger] rp[k] == r[k]) by {
        assert(r == rp || r == rp + ", "@ + render_params(ps.skip(1)));
    }
    // the identifier run
    assert(forall|k: int| p <= k < p + idl ==> is_word_char(#[trigger] s[k])) by {
        assert(forall|k: int| p <= k < p + idl ==> #[trigger] s[k] == p0.identifier[k - p]);
    }
    assert(s[p + idl] == ':');
    assert(s[p + idl + 1] == ' ');
    lemma_word_end_exact(s, p, p + idl);
    lemma_ws_end_exact(s, p + idl, p + idl);
    // the type
    let tp = p + idl + 2;
    if scalar_ty(p0.ty) {
        lemma_keyword_text_facts(p0.ty);
    } else {
        reveal_strlit("(");
        assert(rt == "("@ + render_scalar_list(p0.ty->Tuple_0) + ")"@);
        assert(rt.len() > 0);
    }
    assert(rt.len() > 0);
    assert(rp[idl + 2] == rt[0]);
    assert(s[tp] == rt[0]);
    if scalar_ty(p0.ty) {
        assert(rt[0] == keyword_text(p0.ty)[0]);
        assert(is_word_char(s[tp]));
    } else {
        assert(rt == "("@ + render_scalar_list(p0.ty->Tuple_0) + ")"@);
        assert(rt[0] == '(');
    }
    assert(!is_space_char(s[tp]));
    lemma_ws_end_exact(s, p + idl + 1, tp);
    let te = tp + rt.len() as int;
    assert(s.subrange(tp, te) =~= rt);
    if ps.len() == 1 {
        assert(r == rp);
        assert(te == p + ll);
        lemma_type_at_parse(s, tp, p0.ty);
        lemma_ws_end_exact(s, te, te);
        assert(fn_params_list(s, q) == crate::function::ParamsParse::Done(
            seq![ParamView { identifier: s.subrange(p, p + idl), ty: p0.ty }],
            p + ll + 1,
        ));
        assert(seq![ParamView { identifier: s.subrange(p, p + idl), ty: p0.ty }] =~= ps) by {
            assert(s.subrange(p, p + idl) =~= p0.identifier);
        }
    } else {
        let rest = ps.skip(1);
        let rr = render_params(rest);
        assert(r == rp + ", "@ + rr);
        assert(s[te] == ',');
        assert(s[te + 1] == ' ');
        lemma_type_at_parse(s, tp, p0.ty);
        lemma_ws_end_exact(s, te, te);
        // the rest of the list starts after the comma and one space
        let p2 = te + 2;
        assert(rest.len() > 0);
        let head = rest[0];
        assert(wf_param(head));
        assert(rr[0] == head.identifier[0]) by {
            assert(rr == render_param(head) || rr == render_param(head) + ", "@
                + render_params(rest.skip(1)));
            assert(render_param(head)[0] == head.identifier[0]);
        }
        assert(forall|k: int| 0 <= k < rr.len() ==> #[trigger] rr[k] == s[p2 + k]);
        assert(s[p2] == head.identifier[0]);
        assert(is_word_char(s[p2]));
        lemma_ws_end_exact(s, te + 1, p2);
        assert(s.subrange(p2, p2 + rr.len() as int) =~= rr);
        lemma_params_list_parse(s, te + 1, p2, rest);
        assert(fn_params_list(s, te + 1) == crate::function::ParamsParse::Done(
            rest,
            p2 + rr.len() + 1,
        ));
        assert(fn_params_list(s, q) == crate::function::ParamsParse::Done(
            seq![ParamView { identifier: s.subrange(p, p + idl), ty: p0.ty }] + rest,
            p2 + rr.len() + 1,
        ));
        assert(seq![ParamView { identifier: s.subrange(p, p + idl), ty: p0.ty }] + rest =~= ps)
            by {
            assert(s.subrange(p, p + idl) =~= p0.identifier);
        }
        assert(p2 + rr.len() + 1 == p + ll + 1);
    }
}

/// The header of a rendered declaration — export mark, keyword, name,
/// parameter list — parses to exactly its components.
#[verifier::rlimit(100)]
proof fn lemma_render_parse_header(
    s: Seq<char>,
    exported: bool,
    name: Seq<char>,
    params: Seq<ParamView>,
    lines: Seq<Seq<char>>,
)
    requires
        render_wf(name, params, lines),
        render_decl(exported, name, params, lines).len() <= s.len(),
        s.subrange(0, render_decl(exported, name, params, lines).len() as int) == render_decl(
            exported,
            name,
            params,
            lines,
        ),
    ensures
        ({
            let pre: int = if exported { 7 } else { 0 };
            let npos = pre + 5;
            let opos = npos + name.len();
            let ppos = opos + 1;
            let cpos = ppos + render_params(params).len();
            ws_end(s, 0) == 0
            && (crate::text::match_at(s, "export"@, 0) && ws_end(s, 6) > 6) == exported
            && (exported ==> ws_end(s, 6) == 7)
            && crate::text::match_at(s, "func"@, pre)
            && ws_end(s, pre + 4) == npos
            && word_end(s, npos) == opos
            && opos < s.len()
            && s[opos] == '('
            && s.subrange(npos, opos as int) == name
            && fn_params(s, ppos as int) == crate::function::ParamsParse::Done(params, cpos + 1)
        }),
{
    reveal_strlit("export");
    reveal_strlit("export ");
    reveal_strlit("func");
    reveal_strlit("func ");
    reveal_strlit("(");
    reveal_strlit(") {");
    reveal_strlit("}");
    assert(("export")@.len() == 6);
    assert(("export ")@.len() == 7);
    assert(("func")@.len() == 4);
    assert(("func ")@.len() == 5);
    assert(("(")@.len() == 1);
    assert((") {")@.len() == 3);
    assert(("}")@.len() == 1);
    let r = render_decl(exported, name, params, lines);
    let rl = r.len() as int;
    let seg = s.subrange(0, rl);
    assert(forall|k: int| 0 <= k < rl ==> #[trigger] s[k] == r[k]) by {
        assert(forall|k: int| 0 <= k < rl ==> s[k] == #[trigger] seg[k]);
    }
    let pre: int = if exported { 7 } else { 0 };
    let nl = name.len() as int;
    let rp = render_params(params);
    let lp = rp.len() as int;
    let rb = render_body(lines);
    let lb = rb.len() as int;
    let fpos = pre;
    let npos = pre + 5;
    let opos = npos + nl;
    let ppos = opos + 1;
    let cpos = ppos + lp;
    assert(rl == cpos + 3 + lb + 1);
    assert(rb.len() > 0);
    // characters of each piece
    assert(forall|k: int| 0 <= k < 7 ==> exported ==> #[trigger] r[k] == ("export ")@[k]);
    assert(forall|k: int| fpos <= k < fpos + 5 ==> #[trigger] r[k] == ("func ")@[k - fpos]);
    assert(forall|k: int| npos <= k < npos + nl ==> #[trigger] r[k] == name[k - npos]);
    assert(r[opos] == '(');
    assert(forall|k: int| ppos <= k < ppos + lp ==> #[trigger] r[k] == rp[k - ppos]);
    assert(forall|k: int| cpos <= k < cpos + 3 ==> #[trigger] r[k] == (") {")@[k - cpos]);
    // step 1: no leading whitespace
    assert(s[0] == r[0]);
    assert(!is_space_char(s[0]));
    lemma_ws_end_exact(s, 0, 0);
    // step 2: the export marker
    if exported {
        assert(s.subrange(0, 6) =~= ("export")@);
        assert(crate::text::match_at(s, ("export")@, 0));
        assert(is_space_char(s[6]));
        assert(s[7] == ("func ")@[0]);
        assert(!is_space_char(s[7]));
        lemma_ws_end_exact(s, 6, 7);
    } else {
        assert(s[0] == 'f');
        if crate::text::match_at(s, ("export")@, 0) {
            assert(s.subrange(0, 6) == ("export")@);
            assert(s.subrange(0, 6)[0] == s[0]);
            assert(false);
        }
    }
    // step 3: the func keyword
    assert(s.subrange(fpos, fpos + 4) =~= ("func")@);
    assert(crate::text::match_at(s, ("func")@, fpos));
    // step 4: the name
    assert(is_space_char(s[fpos + 4]));
    assert(s[npos] == name[0]);
    assert(!is_space_char(s[npos]));
    lemma_ws_end_exact(s, fpos + 4, npos);
    assert(forall|k: int| npos <= k < npos + nl ==> is_word_char(#[trigger] s[k]));
    assert(s[opos] == '(');
    assert(!is_word_char(s[opos]));
    lemma_word_end_exact(s, npos, opos);
    assert(s.subrange(npos, opos) =~= name);
    // step 5: the parameters
    if params.len() == 0 {
        assert(lp == 0);
        assert(s[ppos] == ')');
        lemma_ws_end_exact(s, ppos, ppos);
        assert(fn_params(s, ppos) == crate::function::ParamsParse::Done(
            Seq::<ParamView>::empty(),
            ppos + 1,
        ));
        assert(Seq::<ParamView>::empty() =~= params);
    } else {
        let p0 = params[0];
        assert(wf_param(p0));
        assert(rp[0] == p0.identifier[0]) by {
            assert(rp == render_param(p0) || rp == render_param(p0) + ", "@ + render_params(
                params.skip(1),
            ));
            assert(render_param(p0)[0] == p0.identifier[0]);
        }
        assert(s[ppos] == p0.identifier[0]);
        assert(is_word_char(s[ppos]));
        assert(s[ppos] != ')');
        assert(!is_space_char(s[ppos]));
        lemma_ws_end_exact(s, ppos, ppos);
        assert(s.subrange(ppos, ppos + lp) =~= rp);
        assert(s[ppos + lp] == ')');
        lemma_params_list_parse(s, ppos, ppos, params);
        assert(fn_params(s, ppos) == crate::function::ParamsParse::Done(params, cpos + 1));
    }
}

/// The brace-delimited body of a rendered declaration parses to exactly
/// its lines, ending at the declaration's closing brace.
#[verifier::rlimit(100)]
proof fn lemma_render_parse_body(
    s: Seq<char>,
    exported: bool,
    name: Seq<char>,
    params: Seq<ParamView>,
    lines: Seq<Seq<char>>,
)
    requires
        render_wf(name, params, lines),
        render_decl(exported, name, params, lines).len() <= s.len(),
        s.subrange(0, render_decl(exported, name, params, lines).len() as int) == render_decl(
            exported,
            name,
            params,
            lines,
        ),
    ensures
        ({
            let pre: int = if exported { 7 } else { 0 };
            let cpos = pre + 5 + name.len() + 1 + render_params(params).len();
            let bpos = cpos + 3;
            let epos = bpos + render_body(lines).len();
            ws_end(s, cpos + 1) == cpos + 2
            && cpos + 2 < s.len()
            && s[cpos + 2] == '{'
            && body_end(s, bpos as int, 0) == Some(epos as int)
            && spec_lines(spec_trim(s.subrange(bpos as int, epos as int))) == lines
            && epos + 1 == render_decl(exported, name, params, lines).len()
        }),
{
    reveal_strlit("export ");
    reveal_strlit("func ");
    reveal_strlit("(");
    reveal_strlit(") {");
    reveal_strlit("}");
    assert(("export ")@.len() == 7);
    assert(("func ")@.len() == 5);
    assert(("(")@.len() == 1);
    assert((") {")@.len() == 3);
    assert(("}")@.len() == 1);
    let r = render_decl(exported, name, params, lines);
    let rl = r.len() as int;
    let seg = s.subrange(0, rl);
    assert(forall|k: int| 0 <= k < rl ==> #[trigger] s[k] == r[k]) by {
        assert(forall|k: int| 0 <= k < rl ==> s[k] == #[trigger] seg[k]);
    }
    let pre: int = if exported { 7 } else { 0 };
    let nl = name.len() as int;
    let lp = render_params(params).len() as int;
    let rb = render_body(lines);
    let lb = rb.len() as int;
    let cpos = pre + 5 + nl + 1 + lp;
    let bpos = cpos + 3;
    let epos = bpos + lb;
    assert(rl == epos + 1);
    assert(rb.len() > 0);
    assert(forall|k: int| cpos <= k < cpos + 3 ==> #[trigger] r[k] == (") {")@[k - cpos]);
    assert(forall|k: int| bpos <= k < bpos + lb ==> #[trigger] r[k] == rb[k - bpos]);
    assert(r[epos] == '}');
    // the opening brace after one space
    assert(is_space_char(s[cpos + 1]));
    assert(s[cpos + 2] == '{');
    assert(!is_space_char(s[cpos + 2]));
    lemma_ws_end_exact(s, cpos + 1, cpos + 2);
    // the body holds no brace and no escape
    if lines.len() > 0 {
        lemma_join_nl_facts(lines);
    }
    assert(forall|k: int| bpos <= k < epos ==> s[k] != '{' && s[k] != '}' && (#[trigger] s[k])
        != '\\') by {
        assert(forall|k: int| 0 <= k < lb ==> rb[k] != '{' && rb[k] != '}' && (#[trigger] rb[k])
            != '\\') by {
            if lines.len() == 0 {
                assert(rb =~= seq!['\n']);
            } else {
                let j = join_nl(lines);
                assert(rb == seq!['\n'] + j + seq!['\n']);
                assert(forall|k: int| 1 <= k < lb - 1 ==> #[trigger] rb[k] == j[k - 1]);
                assert(rb[0] == '\n' && rb[lb - 1] == '\n');
            }
        }
    }
    assert(s[epos] == '}');
    lemma_body_end_clean(s, bpos, epos);
    // the body lines
    assert(s.subrange(bpos, epos) =~= rb);
    lemma_render_body_lines(lines);
    assert(spec_lines(spec_trim(s.subrange(bpos, epos))) == lines);
}

/// Parsing a text that begins with a well-formed canonical declaration
/// yields exactly that declaration, whatever text follows it, and the
/// remainder starts right after the declaration's closing brace.
#[verifier::rlimit(100)]
pub proof fn lemma_render_parse(
    s: Seq<char>,
    exported: bool,
    name: Seq<char>,
    params: Seq<ParamView>,
    lines: Seq<Seq<char>>,
)
    requires
        render_wf(name, params, lines),
        render_decl(exported, name, params, lines).len() <= s.len(),
        s.subrange(0, render_decl(exported, name, params, lines).len() as int) == render_decl(
            exported,
            name,
            params,
            lines,
        ),
    ensures
        spec_parse_func(s) == crate::function::FnParse::Done(
            crate::function::FnDeclView { name, exported, params, body: lines },
            render_decl(exported, name, params, lines).len() as int,
        ),
{
    reveal_strlit("export");
    reveal_strlit("func");
    assert(("export")@.len() == 6);
    assert(("func")@.len() == 4);
    lemma_render_parse_header(s, exported, name, params, lines);
    lemma_render_parse_body(s, exported, name, params, lines);
    let pre: int = if exported { 7 } else { 0 };
    let npos = pre + 5;
    let opos = npos + name.len() as int;
    let ppos = opos + 1;
    let cpos = ppos + render_params(params).len() as int;
    let bpos = cpos + 3;
    let epos = bpos + render_body(lines).len() as int;
    assert(name.len() > 0);
    assert(word_end(s, npos) == opos && npos != opos);
}

/// LAW — declaration round trip.
///
/// For a well-formed declaration written canonically as
/// `export? func NAME(P1: T1, ..., Pn: Tn) { L1 \n ... \n Lk }`,
/// parsing reproduces the name, the export mark, the ordered parameter
/// list, and the trimmed, order-preserved line sequence, consuming the
/// whole text.
pub proof fn lemma_declaration_round_trip(
    exported: bool,
    name: Seq<char>,
    params: Seq<ParamView>,
    lines: Seq<Seq<char>>,
)
    requires
        render_wf(name, params, lines),
    ensures
        spec_parse_func(render_decl(exported, name, params, lines))
            == crate::function::FnParse::Done(
            crate::function::FnDeclView { name, exported, params, body: lines },
            render_decl(exported, name, params, lines).len() as int,
        ),
{
    let r = render_decl(exported, name, params, lines);
    assert(r.subrange(0, r.len() as int) =~= r);
    lemma_render_parse(r, exported, name, params, lines);
}

// --- extending the text behind a complete parse ---

/// Appending text does not move a whitespace run that ends at a
/// witnessed character of the prefix.
proof fn lemma_ws_end_extend(s1: Seq<char>, s2: Seq<char>, i: int)
    requires
        0 <= i <= s1.len(),
        ws_end(s1, i) < s1.len(),
    ensures
        ws_end(s1 + s2, i) == ws_end(s1, i),
{
    let s = s1 + s2;
    let p = ws_end(s1, i);
    crate::lexical::lemma_ws_end(s1, i);
    assert(forall|k: int| i <= k < p ==> #[trigger] s[k] == s1[k]);
    assert(s[p] == s1[p]);
    lemma_ws_end_exact(s, i, p);
}

/// Appending text does not move an identifier run that ends at a
/// witnessed character of the prefix.
proof fn lemma_word_end_extend(s1: Seq<char>, s2: Seq<char>, i: int)
    requires
        0 <= i <= s1.len(),
        word_end(s1, i) < s1.len(),
    ensures
        word_end(s1 + s2, i) == word_end(s1, i),
{
    let s = s1 + s2;
    let p = word_end(s1, i);
    crate::lexical::lemma_word_end(s1, i);
    assert(forall|k: int| i <= k < p ==> #[trigger] s[k] == s1[k]);
    assert(s[p] == s1[p]);
    lemma_word_end_exact(s, i, p);
}

/// Appending text does not change a keyword match within the prefix,
/// whether it holds or fails, as long as the window lies in the prefix.
proof fn lemma_match_at_extend(s1: Seq<char>, s2: Seq<char>, pat: Seq<char>, i: int)
    requires
        0 <= i,
        i + pat.len() <= s1.len(),
    ensures
        crate::text::match_at(s1 + s2, pat, i) == crate::text::match_at(s1, pat, i),
{
    let s = s1 + s2;
    assert(s.subrange(i, i + pat.len() as int) =~= s1.subrange(i, i + pat.len() as int));
}

/// Appending text does not move the closing brace the balanced scan
/// finds in the prefix.
proof fn lemma_body_end_extend(s1: Seq<char>, s2: Seq<char>, i: int, depth: int)
    requires
        0 <= i <= s1.len(),
        body_end(s1, i, depth) is Some,
    ensures
        body_end(s1 + s2, i, depth) == body_end(s1, i, depth),
    decreases s1.len() - i,
{
    let s = s1 + s2;
    assert(i < s1.len());
    assert(s[i] == s1[i]);
    if s1[i] == '\\' {
        assert(i + 1 < s1.len());
        lemma_body_end_extend(s1, s2, i + 2, depth);
    } else if s1[i] == '{' {
        lemma_body_end_extend(s1, s2, i + 1, depth + 1);
    } else if s1[i] == '}' {
        if depth != 0 {
            lemma_body_end_extend(s1, s2, i + 1, depth - 1);
        }
    } else {
        lemma_body_end_extend(s1, s2, i + 1, depth);
    }
}

/// Appending text does not change a tuple element list that parsed
/// completely within the prefix.
#[verifier::rlimit(100)]
proof fn lemma_tuple_elem_list_extend(s1: Seq<char>, s2: Seq<char>, i: int)
    requires
        0 <= i <= s1.len(),
        tuple_elem_list(s1, i) is Ok,
    ensures
        tuple_elem_list(s1 + s2, i) == tuple_elem_list(s1, i),
    decreases s1.len() - i,
{
    let s = s1 + s2;
    crate::lexical::lemma_ws_end(s1, i);
    let a = ws_end(s1, i);
    crate::lexical::lemma_word_end(s1, a);
    let j = word_end(s1, a);
    assert(j != s1.len() && j != a);
    assert(a < s1.len());
    lemma_ws_end_extend(s1, s2, i);
    lemma_word_end_extend(s1, s2, a);
    assert(s.subrange(a, j) =~= s1.subrange(a, j));
    crate::lexical::lemma_ws_end(s1, j);
    let b = ws_end(s1, j);
    assert(b < s1.len());
    lemma_ws_end_extend(s1, s2, j);
    assert(s[b] == s1[b]);
    if s1[b] == ',' {
        lemma_tuple_elem_list_extend(s1, s2, b + 1);
    }
}

/// Appending text does not change a type that parsed completely within
/// the prefix.
proof fn lemma_type_at_extend(s1: Seq<char>, s2: Seq<char>, i: int)
    requires
        0 <= i <= s1.len(),
        type_at(s1, i) is Ok,
    ensures
        type_at(s1 + s2, i) == type_at(s1, i),
{
    let s = s1 + s2;
    crate::lexical::lemma_word_end(s1, i);
    let j = word_end(s1, i);
    if j > i {
        assert(j != s1.len());
        lemma_word_end_extend(s1, s2, i);
        assert(s.subrange(i, j) =~= s1.subrange(i, j));
    } else {
        assert(i < s1.len() && s1[i] == '(');
        assert(word_end(s1, i) == i);
        lemma_word_end_extend(s1, s2, i);
        assert(s[i] == s1[i]);
        if i + 1 < s1.len() && s1[i + 1] == ')' {
            assert(s[i + 1] == s1[i + 1]);
        } else {
            assert(tuple_elem_list(s1, i + 1) is Ok);
            crate::types::lemma_tuple_elem_list_bounds(s1, i + 1);
            assert(i + 1 <= s1.len());
            lemma_tuple_elem_list_extend(s1, s2, i + 1);
            if i + 1 < s1.len() {
                assert(s[i + 1] == s1[i + 1]);
            } else {
                // the element list cannot start at the very end
                crate::lexical::lemma_ws_end(s1, i + 1);
                crate::lexical::lemma_word_end(s1, ws_end(s1, i + 1));
                assert(tuple_elem_list(s1, i + 1) is Err);
                assert(false);
            }
        }
    }
}

/// Appending text does not change a parameter list that parsed
/// completely within the prefix.
#[verifier::rlimit(100)]
proof fn lemma_fn_params_list_extend(s1: Seq<char>, s2: Seq<char>, i: int)
    requires
        0 <= i <= s1.len(),
        fn_params_list(s1, i) is Done,
    ensures
        fn_params_list(s1 + s2, i) == fn_params_list(s1, i),
    decreases s1.len() - i,
{
    let s = s1 + s2;
    crate::lexical::lemma_ws_end(s1, i);
    let a = ws_end(s1, i);
    assert(a < s1.len());
    lemma_ws_end_extend(s1, s2, i);
    crate::lexical::lemma_word_end(s1, a);
    let ie = word_end(s1, a);
    assert(ie != a);
    crate::lexical::lemma_ws_end(s1, ie);
    let c = ws_end(s1, ie);
    assert(c < s1.len() && s1[c] == ':');
    assert(ie <= c);
    assert(ie < s1.len());
    lemma_word_end_extend(s1, s2, a);
    lemma_ws_end_extend(s1, s2, ie);
    assert(s[c] == s1[c]);
    crate::lexical::lemma_ws_end(s1, c + 1);
    let t = ws_end(s1, c + 1);
    assert(type_at(s1, t) is Ok) by {
        match type_at(s1, t) {
            Err(f) => {
                assert(fn_params_list(s1, i) is Incomplete || fn_params_list(s1, i) is Fault);
                assert(false);
            },
            Ok(_) => {},
        }
    }
    assert(t < s1.len()) by {
        if t == s1.len() {
            crate::lexical::lemma_word_end(s1, t);
            assert(word_end(s1, t) == t);
            assert(type_at(s1, t) is Err);
        }
    }
    lemma_ws_end_extend(s1, s2, c + 1);
    lemma_type_at_extend(s1, s2, t);
    crate::types::lemma_type_at_bounds(s1, t);
    match type_at(s1, t) {
        Ok(p) => {
            crate::lexical::lemma_ws_end(s1, p.1);
            let d = ws_end(s1, p.1);
            assert(d < s1.len());
            lemma_ws_end_extend(s1, s2, p.1);
            assert(s[d] == s1[d]);
            assert(s.subrange(a, ie) =~= s1.subrange(a, ie));
            if s1[d] == ',' {
                lemma_fn_params_list_extend(s1, s2, d + 1);
            }
        },
        Err(_) => {},
    }
}

/// Appending text does not change a parameter list, including the empty
/// one, that parsed completely within the prefix.
proof fn lemma_fn_params_extend(s1: Seq<char>, s2: Seq<char>, i: int)
    requires
        0 <= i <= s1.len(),
        fn_params(s1, i) is Done,
    ensures
        fn_params(s1 + s2, i) == fn_params(s1, i),
{
    let s = s1 + s2;
    crate::lexical::lemma_ws_end(s1, i);
    let a = ws_end(s1, i);
    assert(a < s1.len());
    lemma_ws_end_extend(s1, s2, i);
    assert(s[a] == s1[a]);
    if s1[a] != ')' {
        lemma_fn_params_list_extend(s1, s2, i);
    }
}

/// LAW — parsing is unchanged by whatever follows a declaration.
///
/// A text that parses as a complete declaration, consumed to its end,
/// parses to the same declaration when any further text is appended, and
/// the remainder is then exactly that further text.  In particular, for
/// two declaration texts concatenated in one buffer, parsing once yields
/// the first declaration and a remainder that is exactly the second
/// text, whose own parse is whatever it was on its own.
#[verifier::rlimit(100)]
pub proof fn lemma_parse_extension(s1: Seq<char>, s2: Seq<char>)
    requires
        spec_parse_func(s1) matches crate::function::FnParse::Done(dv, rem) && rem == s1.len(),
    ensures
        spec_parse_func(s1 + s2) == spec_parse_func(s1),
        (s1 + s2).skip(s1.len() as int) == s2,
{
    reveal_strlit("export");
    reveal_strlit("func");
    assert(("export")@.len() == 6);
    assert(("func")@.len() == 4);
    let s = s1 + s2;
    assert(s.skip(s1.len() as int) =~= s2);
    crate::lexical::lemma_ws_end(s1, 0);
    let h = ws_end(s1, 0);
    // the declaration holds characters beyond its header, so every
    // header scan stops at a witnessed character of the prefix
    let exported = crate::text::match_at(s1, "export"@, h) && ws_end(s1, h + 6) > h + 6;
    let f = if exported {
        ws_end(s1, h + 6)
    } else {
        h
    };
    assert(crate::text::match_at(s1, "func"@, f));
    assert(f + 4 <= s1.len());
    crate::lexical::lemma_ws_end(s1, f + 4);
    let nm_start = ws_end(s1, f + 4);
    crate::lexical::lemma_word_end(s1, nm_start);
    let nm_end = word_end(s1, nm_start);
    assert(nm_end != nm_start && nm_end < s1.len() && s1[nm_end] == '(');
    // the name and its opening parenthesis lie well inside the prefix
    assert(f >= h);
    assert(nm_start >= f + 4);
    assert(nm_end >= nm_start + 1);
    assert(s1.len() > nm_end);
    assert(h < s1.len());
    lemma_ws_end_extend(s1, s2, 0);
    // the export test reads only the prefix
    if crate::text::match_at(s1, "export"@, h) {
        lemma_match_at_extend(s1, s2, "export"@, h);
        crate::lexical::lemma_ws_end(s1, h + 6);
        if ws_end(s1, h + 6) > h + 6 {
            assert(exported && f == ws_end(s1, h + 6));
            assert(f < s1.len());
            lemma_ws_end_extend(s1, s2, h + 6);
        } else {
            assert(ws_end(s1, h + 6) == h + 6);
            if h + 6 == s1.len() {
                // "export" would end the text, yet the parse went on
                assert(!exported && f == h);
                assert(s1.subrange(h, h + 6) == ("export")@);
                assert(s1.subrange(h, h + 4) == ("func")@);
                assert(s1.subrange(h, h + 6)[0] == s1[h]);
                assert(s1.subrange(h, h + 4)[0] == s1[h]);
                assert(false);
            }
            lemma_ws_end_extend(s1, s2, h + 6);
        }
    } else {
        assert(h + 6 <= s1.len()) by {
            assert(nm_end >= h + 5 && nm_end < s1.len());
        }
        lemma_match_at_extend(s1, s2, "export"@, h);
    }
    assert((crate::text::match_at(s, "export"@, h) && ws_end(s, h + 6) > h + 6) == exported);
    lemma_match_at_extend(s1, s2, "func"@, f);
    assert(nm_start < s1.len());
    lemma_ws_end_extend(s1, s2, f + 4);
    lemma_word_end_extend(s1, s2, nm_start);
    assert(s[nm_end] == s1[nm_end]);
    assert(s.subrange(nm_start, nm_end) =~= s1.subrange(nm_start, nm_end));
    assert(fn_params(s1, nm_end + 1) is Done) by {
        if fn_params(s1, nm_end + 1) is Incomplete {
            assert(spec_parse_func(s1) is Incomplete);
        }
        if fn_params(s1, nm_end + 1) matches crate::function::ParamsParse::Fault(ff) {
            assert(spec_parse_func(s1) is Fault);
        }
    }
    lemma_fn_params_extend(s1, s2, nm_end + 1);
    match fn_params(s1, nm_end + 1) {
        crate::function::ParamsParse::Done(params, q) => {
            crate::function::lemma_fn_params_bounds(s1, nm_end + 1);
            crate::lexical::lemma_ws_end(s1, q);
            let g = ws_end(s1, q);
            assert(g < s1.len() && s1[g] == '{');
            lemma_ws_end_extend(s1, s2, q);
            assert(s[g] == s1[g]);
            assert(body_end(s1, g + 1, 0) is Some) by {
                if body_end(s1, g + 1, 0) is None {
                    assert(spec_parse_func(s1) is Incomplete);
                }
            }
            lemma_body_end_extend(s1, s2, g + 1, 0);
            crate::function::lemma_body_end(s1, g + 1, 0);
            match body_end(s1, g + 1, 0) {
                Some(e) => {
                    assert(s.subrange(g + 1, e) =~= s1.subrange(g + 1, e));
                },
                None => {},
            }
        },
        _ => {},
    }
}

/// LAW — sequential declarations.
///
/// Two well-formed declarations concatenated in one buffer parse one
/// after the other: parsing once yields the first declaration and a
/// remainder that is exactly the second declaration's text, and parsing
/// that remainder yields exactly the second declaration.
pub proof fn lemma_sequential_declarations(
    exported1: bool,
    name1: Seq<char>,
    params1: Seq<ParamView>,
    lines1: Seq<Seq<char>>,
    exported2: bool,
    name2: Seq<char>,
    params2: Seq<ParamView>,
    lines2: Seq<Seq<char>>,
)
    requires
        render_wf(name1, params1, lines1),
        render_wf(name2, params2, lines2),
    ensures
        ({
            let r1 = render_decl(exported1, name1, params1, lines1);
            let r2 = render_decl(exported2, name2, params2, lines2);
            spec_parse_func(r1 + r2) == crate::function::FnParse::Done(
                crate::function::FnDeclView {
                    name: name1,
                    exported: exported1,
                    params: params1,
                    body: lines1,
                },
                r1.len() as int,
            ) && (r1 + r2).skip(r1.len() as int) == r2 && spec_parse_func(r2)
                == crate::function::FnParse::Done(
                crate::function::FnDeclView {
                    name: name2,
                    exported: exported2,
                    params: params2,
                    body: lines2,
                },
                r2.len() as int,
            )
        }),
{
    let r1 = render_decl(exported1, name1, params1, lines1);
    let r2 = render_decl(exported2, name2, params2, lines2);
    let s = r1 + r2;
    assert(s.subrange(0, r1.len() as int) =~= r1);
    lemma_render_parse(s, exported1, name1, params1, lines1);
    assert(s.skip(r1.len() as int) =~= r2);
    lemma_declaration_round_trip(exported2, name2, params2, lines2);
}

} // verus!
