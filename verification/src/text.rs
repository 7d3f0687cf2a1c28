//! Text utilities shared by the grammar layer: trimming, line splitting,
//! whitespace tokenisation, substring search and replacement, and decimal
//! rendering of numbers.
//!
//! Each executable function computes a recursively specified function over
//! the character sequence of its input.

use vstd::prelude::*;
use crate::lexical::{is_space_char, space_char, ws_end, lemma_ws_end, scan_ws_end, spec_is_blank};

verus! {

/// Start of the backward-maximal run of whitespace ending at `i`: the least
/// index `j` such that every character in `[j, i)` is whitespace.
pub open spec fn ws_rend(s: Seq<char>, i: int) -> int
    decreases i,
{
    if 0 < i <= s.len() && is_space_char(s[i - 1]) {
        ws_rend(s, i - 1)
    } else {
        i
    }
}

pub proof fn lemma_ws_rend(s: Seq<char>, i: int)
    requires
        0 <= i <= s.len(),
    ensures
        0 <= ws_rend(s, i) <= i,
        forall|k: int| ws_rend(s, i) <= k < i ==> is_space_char(#[trigger] s[k]),
        ws_rend(s, i) > 0 ==> !is_space_char(s[ws_rend(s, i) - 1]),
    decreases i,
{
    if 0 < i && is_space_char(s[i - 1]) {
        lemma_ws_rend(s, i - 1);
    }
}

pub proof fn lemma_ws_rend_step(s: Seq<char>, i: int, j: int)
    requires
        0 <= i <= j <= s.len(),
        forall|k: int| i <= k < j ==> is_space_char(#[trigger] s[k]),
    ensures
        ws_rend(s, i) == ws_rend(s, j),
    decreases j - i,
{
    if i < j {
        lemma_ws_rend_step(s, i, j - 1);
    }
}

/// A non-whitespace character below `i` bounds the backward whitespace run.
pub proof fn lemma_ws_rend_lower(s: Seq<char>, p: int, i: int)
    requires
        0 <= p < i <= s.len(),
        !is_space_char(s[p]),
    ensures
        p < ws_rend(s, i),
    decreases i,
{
    if 0 < i && is_space_char(s[i - 1]) {
        lemma_ws_rend_lower(s, p, i - 1);
    }
}

/// The input with leading and trailing whitespace removed.
pub open spec fn spec_trim(s: Seq<char>) -> Seq<char> {
    let a = ws_end(s, 0);
    if a == s.len() {
        Seq::empty()
    } else {
        s.subrange(a, ws_rend(s, s.len() as int))
    }
}

pub proof fn lemma_trim_bounds(s: Seq<char>)
    ensures
        ws_end(s, 0) < s.len() ==> ws_end(s, 0) < ws_rend(s, s.len() as int) <= s.len(),
{
    lemma_ws_end(s, 0);
    lemma_ws_rend(s, s.len() as int);
    if ws_end(s, 0) < s.len() {
        lemma_ws_rend_lower(s, ws_end(s, 0), s.len() as int);
    }
}

/// Remove leading and trailing whitespace, keeping a slice of the input.
pub fn trim<'a>(s: &'a str) -> (t: &'a str)
    ensures
        t@ == spec_trim(s@),
{
    let n: usize = s.unicode_len();
    let a: usize = scan_ws_end(s, 0);
    proof {
        lemma_trim_bounds(s@);
        lemma_ws_end(s@, 0);
    }
    if a == n {
        let t = s.substring_char(n, n);
        proof {
            assert(t@ =~= spec_trim(s@));
        }
        return t;
    }
    let mut b: usize = n;
    proof {
        lemma_ws_rend(s@, n as int);
    }
    while b > a && space_char(s.get_char(b - 1))
        invariant
            a <= b <= n,
            n == s@.len(),
            a == ws_end(s@, 0),
            a < n,
            !is_space_char(s@[a as int]),
            ws_rend(s@, n as int) == ws_rend(s@, b as int),
            forall|k: int| b <= k < n ==> is_space_char(#[trigger] s@[k]),
        decreases b,
    {
        b = b - 1;
        proof {
            lemma_ws_rend_step(s@, b as int, n as int);
        }
    }
    proof {
        lemma_ws_rend(s@, b as int);
        if b > a {
            assert(!is_space_char(s@[b - 1]) || b == a);
        }
        assert(ws_rend(s@, b as int) == b as int) by {
            if 0 < b && is_space_char(s@[b - 1]) {
                assert(b == a);
            }
        }
    }
    s.substring_char(a, b)
}

/// Trimming is idempotent, and a trimmed text neither starts nor ends with
/// whitespace.
pub proof fn lemma_trim_trimmed(s: Seq<char>)
    ensures
        spec_trim(s).len() > 0 ==> !is_space_char(spec_trim(s)[0]),
        spec_trim(s).len() > 0 ==> !is_space_char(spec_trim(s)[spec_trim(s).len() - 1]),
        spec_trim(spec_trim(s)) == spec_trim(s),
{
    lemma_ws_end(s, 0);
    lemma_ws_rend(s, s.len() as int);
    lemma_trim_bounds(s);
    let t = spec_trim(s);
    if t.len() > 0 {
        let a = ws_end(s, 0);
        assert(t[0] == s[a]);
        assert(!is_space_char(t[0]));
        assert(t[t.len() - 1] == s[ws_rend(s, s.len() as int) - 1]);
        lemma_ws_end(t, 0);
        assert(ws_end(t, 0) == 0) by {
            if 0 < t.len() && is_space_char(t[0]) {
            }
        }
        lemma_ws_rend(t, t.len() as int);
        assert(ws_rend(t, t.len() as int) == t.len()) by {
            if is_space_char(t[t.len() - 1]) {
            }
        }
        assert(spec_trim(t) =~= t);
    } else {
        assert(spec_trim(t) =~= t);
    }
}

/// A blank text trims to nothing, and a non-blank text does not.
pub proof fn lemma_trim_blank(s: Seq<char>)
    ensures
        spec_is_blank(s) <==> spec_trim(s).len() == 0,
{
    lemma_ws_end(s, 0);
    lemma_trim_bounds(s);
}

/// First position at or after `i` holding the character `c`, or the length
/// of the text if there is none.
pub open spec fn find_char(s: Seq<char>, i: int, c: char) -> int
    decreases s.len() - i,
{
    if 0 <= i < s.len() && s[i] != c {
        find_char(s, i + 1, c)
    } else {
        i
    }
}

pub proof fn lemma_find_char(s: Seq<char>, i: int, c: char)
    requires
        0 <= i <= s.len(),
    ensures
        i <= find_char(s, i, c) <= s.len(),
        forall|k: int| i <= k < find_char(s, i, c) ==> s[k] != c,
        find_char(s, i, c) < s.len() ==> s[find_char(s, i, c)] == c,
    decreases s.len() - i,
{
    if i < s.len() && s[i] != c {
        lemma_find_char(s, i + 1, c);
    }
}

pub proof fn lemma_find_char_step(s: Seq<char>, i: int, j: int, c: char)
    requires
        0 <= i <= j <= s.len(),
        forall|k: int| i <= k < j ==> s[k] != c,
    ensures
        find_char(s, i, c) == find_char(s, j, c),
    decreases j - i,
{
    if i < j {
        lemma_find_char_step(s, i + 1, j, c);
    }
}

/// Executable scan for [`find_char`].
pub fn scan_find_char(s: &str, from: usize, c: char) -> (pos: usize)
    requires
        from <= s@.len(),
    ensures
        pos == find_char(s@, from as int, c),
{
    let n: usize = s.unicode_len();
    let mut pos: usize = from;
    while pos < n && s.get_char(pos) != c
        invariant
            from <= pos <= n,
            n == s@.len(),
            find_char(s@, from as int, c) == find_char(s@, pos as int, c),
            forall|k: int| from <= k < pos ==> s@[k] != c,
        decreases n - pos,
    {
        pos = pos + 1;
        proof {
            lemma_find_char_step(s@, from as int, pos as int, c);
        }
    }
    pos
}

/// The individually trimmed lines of the text from position `i` on, split
/// at `'\n'`.
pub open spec fn lines_from(s: Seq<char>, i: int) -> Seq<Seq<char>>
    decreases s.len() - i + 1,
    via lines_from_decreases
{
    if i < 0 || i >= s.len() {
        Seq::empty()
    } else {
        let nl = find_char(s, i, '\n');
        seq![spec_trim(s.subrange(i, nl))] + lines_from(s, nl + 1)
    }
}

#[via_fn]
proof fn lines_from_decreases(s: Seq<char>, i: int) {
    if 0 <= i < s.len() {
        lemma_find_char(s, i, '\n');
    }
}

/// The trimmed lines of the whole text.
pub open spec fn spec_lines(s: Seq<char>) -> Seq<Seq<char>> {
    lines_from(s, 0)
}

/// Split the text at line breaks and trim each line.
pub fn split_trimmed_lines(s: &str) -> (lines: Vec<String>)
    ensures
        lines.deep_view() == spec_lines(s@),
{
    let n: usize = s.unicode_len();
    let mut lines: Vec<String> = Vec::new();
    let mut i: usize = 0;
    while i < n
        invariant
            0 <= i <= n + 1,
            n == s@.len(),
            spec_lines(s@) == lines.deep_view() + lines_from(s@, i as int),
        decreases n + 1 - i,
    {
        proof {
            lemma_find_char(s@, i as int, '\n');
        }
        let nl: usize = scan_find_char(s, i, '\n');
        let line = trim(s.substring_char(i, nl));
        let owned = String::from_str(line);
        let ghost prefix = lines.deep_view();
        let ghost line_view = owned@;
        lines.push(owned);
        proof {
            assert(lines.deep_view() =~~= prefix.push(line_view));
            assert(prefix.push(line_view) =~~= prefix + seq![line_view]);
            assert(lines.deep_view() + lines_from(s@, nl + 1) =~~= spec_lines(s@));
        }
        if nl == n {
            proof {
                assert(lines.deep_view() =~~= spec_lines(s@));
            }
            return lines;
        }
        i = nl + 1;
    }
    proof {
        assert(lines.deep_view() =~~= spec_lines(s@));
    }
    lines
}

/// End of the maximal run of non-whitespace characters starting at `i`.
pub open spec fn token_end(s: Seq<char>, i: int) -> int
    decreases s.len() - i,
{
    if 0 <= i < s.len() && !is_space_char(s[i]) {
        token_end(s, i + 1)
    } else {
        i
    }
}

pub proof fn lemma_token_end(s: Seq<char>, i: int)
    requires
        0 <= i <= s.len(),
    ensures
        i <= token_end(s, i) <= s.len(),
        forall|k: int| i <= k < token_end(s, i) ==> !is_space_char(#[trigger] s[k]),
        token_end(s, i) < s.len() ==> is_space_char(s[token_end(s, i)]),
    decreases s.len() - i,
{
    if i < s.len() && !is_space_char(s[i]) {
        lemma_token_end(s, i + 1);
    }
}

pub proof fn lemma_token_end_step(s: Seq<char>, i: int, j: int)
    requires
        0 <= i <= j <= s.len(),
        forall|k: int| i <= k < j ==> !is_space_char(#[trigger] s[k]),
    ensures
        token_end(s, i) == token_end(s, j),
    decreases j - i,
{
    if i < j {
        lemma_token_end_step(s, i + 1, j);
    }
}

/// Executable scan for [`token_end`].
pub fn scan_token_end(s: &str, from: usize) -> (end: usize)
    requires
        from <= s@.len(),
    ensures
        end == token_end(s@, from as int),
{
    let n: usize = s.unicode_len();
    let mut end: usize = from;
    while end < n && !space_char(s.get_char(end))
        invariant
            from <= end <= n,
            n == s@.len(),
            token_end(s@, from as int) == token_end(s@, end as int),
            forall|k: int| from <= k < end ==> !is_space_char(#[trigger] s@[k]),
        decreases n - end,
    {
        end = end + 1;
        proof {
            lemma_token_end_step(s@, from as int, end as int);
        }
    }
    end
}

/// The whitespace-separated tokens of the text from position `i` on.
pub open spec fn tokens_from(s: Seq<char>, i: int) -> Seq<Seq<char>>
    decreases s.len() - i,
    via tokens_from_decreases
{
    if i < 0 || i > s.len() {
        Seq::empty()
    } else {
        let j = ws_end(s, i);
        if j >= s.len() {
            Seq::empty()
        } else {
            seq![s.subrange(j, token_end(s, j))] + tokens_from(s, token_end(s, j))
        }
    }
}

#[via_fn]
proof fn tokens_from_decreases(s: Seq<char>, i: int) {
    if 0 <= i <= s.len() {
        lemma_ws_end(s, i);
        let j = ws_end(s, i);
        if j < s.len() {
            lemma_token_end(s, j);
            assert(token_end(s, j) > j) by {
                if token_end(s, j) == j {
                    assert(is_space_char(s[j]));
                }
            }
        }
    }
}

/// The whitespace-separated tokens of the whole text.
pub open spec fn spec_tokens(s: Seq<char>) -> Seq<Seq<char>> {
    tokens_from(s, 0)
}

/// Split the text into whitespace-separated tokens.
pub fn split_tokens(s: &str) -> (tokens: Vec<String>)
    ensures
        tokens.deep_view() == spec_tokens(s@),
{
    let n: usize = s.unicode_len();
    let mut tokens: Vec<String> = Vec::new();
    let mut i: usize = 0;
    proof {
        lemma_ws_end(s@, 0);
    }
    loop
        invariant
            0 <= i <= n,
            n == s@.len(),
            spec_tokens(s@) == tokens.deep_view() + tokens_from(s@, i as int),
        decreases n - i,
    {
        let j: usize = scan_ws_end(s, i);
        proof {
            lemma_ws_end(s@, i as int);
        }
        if j >= n {
            proof {
                assert(tokens.deep_view() =~~= spec_tokens(s@));
            }
            return tokens;
        }
        let e: usize = scan_token_end(s, j);
        proof {
            lemma_token_end(s@, j as int);
            assert(e > j) by {
                if token_end(s@, j as int) == j {
                    assert(is_space_char(s@[j as int]) || !(j < n));
                }
            }
        }
        let tok = String::from_str(s.substring_char(j, e));
        let ghost prefix = tokens.deep_view();
        let ghost tok_view = tok@;
        tokens.push(tok);
        proof {
            assert(tokens.deep_view() =~~= prefix.push(tok_view));
            assert(prefix.push(tok_view) =~~= prefix + seq![tok_view]);
            assert(tokens.deep_view() + tokens_from(s@, e as int) =~~= spec_tokens(s@));
        }
        i = e;
    }
}

/// The pattern occurs in the text at position `i`.
pub open spec fn match_at(s: Seq<char>, pat: Seq<char>, i: int) -> bool {
    0 <= i && i + pat.len() <= s.len() && s.subrange(i, i + pat.len()) == pat
}

/// First position at or after `i` where the pattern occurs, if any.
pub open spec fn find_sub(s: Seq<char>, pat: Seq<char>, i: int) -> Option<int>
    decreases s.len() - i + 1,
{
    if i < 0 || i + pat.len() > s.len() {
        None
    } else if match_at(s, pat, i) {
        Some(i)
    } else {
        find_sub(s, pat, i + 1)
    }
}

pub proof fn lemma_find_sub(s: Seq<char>, pat: Seq<char>, i: int)
    requires
        0 <= i,
    ensures
        find_sub(s, pat, i) matches Some(j) ==> i <= j && match_at(s, pat, j)
            && (forall|k: int| i <= k < j ==> !match_at(s, pat, k)),
        find_sub(s, pat, i) is None ==> forall|k: int| i <= k ==> !match_at(s, pat, k),
    decreases s.len() - i + 1,
{
    if i + pat.len() > s.len() {
    } else if match_at(s, pat, i) {
    } else {
        lemma_find_sub(s, pat, i + 1);
    }
}

pub proof fn lemma_find_sub_step(s: Seq<char>, pat: Seq<char>, i: int, j: int)
    requires
        0 <= i <= j,
        forall|k: int| i <= k < j ==> !match_at(s, pat, k),
    ensures
        find_sub(s, pat, i) == find_sub(s, pat, j),
    decreases j - i,
{
    if i < j {
        if i + pat.len() > s.len() {
            lemma_find_sub(s, pat, j);
            assert(!match_at(s, pat, j));
        } else {
            lemma_find_sub_step(s, pat, i + 1, j);
        }
    }
}

/// Finding in a suffix is finding from an offset.
pub proof fn lemma_find_sub_skip(s: Seq<char>, pat: Seq<char>, c: int, i: int)
    requires
        0 <= c <= s.len(),
        0 <= i,
    ensures
        match find_sub(s.skip(c), pat, i) {
            Some(j) => find_sub(s, pat, i + c) == Some(j + c),
            None => find_sub(s, pat, i + c) is None,
        },
    decreases s.len() - c - i + 1,
{
    let t = s.skip(c);
    assert(t.len() == s.len() - c);
    if i + pat.len() <= t.len() {
        assert(t.subrange(i, i + pat.len() as int) =~= s.subrange(i + c, i + c + pat.len() as int));
        assert(match_at(t, pat, i) == match_at(s, pat, i + c));
        if !match_at(t, pat, i) {
            if pat.len() == 0 {
                assert(t.subrange(i, i) =~= pat);
            }
            lemma_find_sub_skip(s, pat, c, i + 1);
        }
    }
}

/// Executable test for [`match_at`].
pub fn check_match_at(s: &str, pat: &str, i: usize) -> (b: bool)
    ensures
        b == match_at(s@, pat@, i as int),
{
    let n: usize = s.unicode_len();
    let m: usize = pat.unicode_len();
    if n < m || i > n - m {
        return false;
    }
    let mut k: usize = 0;
    while k < m
        invariant
            0 <= k <= m,
            m == pat@.len(),
            n == s@.len(),
            i + m <= n,
            forall|kk: int| 0 <= kk < k ==> s@[i + kk] == pat@[kk],
        decreases m - k,
    {
        if s.get_char(i + k) != pat.get_char(k) {
            return false;
        }
        k = k + 1;
    }
    proof {
        assert(s@.subrange(i as int, i + m) =~= pat@);
    }
    true
}

/// Find the first occurrence of the pattern at or after `from`.
pub fn find_in(s: &str, pat: &str, from: usize) -> (pos: Option<usize>)
    requires
        from <= s@.len(),
    ensures
        match pos {
            Some(j) => find_sub(s@, pat@, from as int) == Some(j as int),
            None => find_sub(s@, pat@, from as int) is None,
        },
{
    let n: usize = s.unicode_len();
    let m: usize = pat.unicode_len();
    let mut i: usize = from;
    if m == 0 {
        proof {
            assert(s@.subrange(from as int, from as int) =~= pat@);
            assert(match_at(s@, pat@, from as int));
        }
        return Some(from);
    }
    if n < m {
        proof {
            assert(forall|k: int| !match_at(s@, pat@, k));
            lemma_find_sub(s@, pat@, from as int);
        }
        return None;
    }
    while i <= n - m
        invariant
            from <= i,
            i <= n + 1,
            n == s@.len(),
            m == pat@.len(),
            1 <= m <= n,
            find_sub(s@, pat@, from as int) == find_sub(s@, pat@, i as int),
            forall|k: int| from <= k < i ==> !match_at(s@, pat@, k),
        decreases n - i,
    {
        if check_match_at(s, pat, i) {
            return Some(i);
        }
        i = i + 1;
        proof {
            lemma_find_sub_step(s@, pat@, from as int, i as int);
        }
    }
    proof {
        assert(forall|k: int| i <= k ==> !match_at(s@, pat@, k));
        lemma_find_sub(s@, pat@, i as int);
    }
    None
}

/// The text with every occurrence of the pattern replaced, scanning left to
/// right and not rescanning replacements.
pub open spec fn spec_replace(s: Seq<char>, pat: Seq<char>, sub: Seq<char>) -> Seq<char>
    decreases s.len(),
    via spec_replace_decreases
{
    if pat.len() == 0 {
        s
    } else {
        match find_sub(s, pat, 0) {
            None => s,
            Some(j) => s.subrange(0, j) + sub + spec_replace(
                s.skip(j + pat.len() as int),
                pat,
                sub,
            ),
        }
    }
}

#[via_fn]
proof fn spec_replace_decreases(s: Seq<char>, pat: Seq<char>, sub: Seq<char>) {
    if pat.len() > 0 {
        lemma_find_sub(s, pat, 0);
    }
}

/// Replace every occurrence of `pat` in `s` by `sub`.
pub fn replace_all(s: &str, pat: &str, sub: &str) -> (r: String)
    ensures
        r@ == spec_replace(s@, pat@, sub@),
{
    let n: usize = s.unicode_len();
    let m: usize = pat.unicode_len();
    if m == 0 {
        return String::from_str(s);
    }
    let mut out = String::new();
    let mut c: usize = 0;
    proof {
        assert(s@.skip(0) =~= s@);
        assert(out@ + spec_replace(s@, pat@, sub@) =~= spec_replace(s@, pat@, sub@));
    }
    loop
        invariant
            0 <= c <= n,
            n == s@.len(),
            m == pat@.len(),
            m >= 1,
            spec_replace(s@, pat@, sub@) == out@ + spec_replace(s@.skip(c as int), pat@, sub@),
        decreases n - c,
    {
        let found = find_in(s, pat, c);
        proof {
            lemma_find_sub_skip(s@, pat@, c as int, 0);
        }
        match found {
            None => {
                let ghost prefix = out@;
                out.append(s.substring_char(c, n));
                proof {
                    assert(spec_replace(s@.skip(c as int), pat@, sub@) == s@.skip(c as int));
                    assert(s@.subrange(c as int, n as int) =~= s@.skip(c as int));
                    assert(out@ =~= prefix + s@.skip(c as int));
                }
                return out;
            },
            Some(j) => {
                proof {
                    lemma_find_sub(s@, pat@, c as int);
                }
                let ghost prefix = out@;
                let ghost t = s@.skip(c as int);
                let ghost rest = spec_replace(s@.skip(j + pat@.len() as int), pat@, sub@);
                out.append(s.substring_char(c, j));
                out.append(sub);
                proof {
                    assert(find_sub(t, pat@, 0) == Some(j - c));
                    assert(spec_replace(t, pat@, sub@) == t.subrange(0, j - c) + sub@
                        + spec_replace(t.skip(j - c + pat@.len() as int), pat@, sub@));
                    assert(t.subrange(0, j - c) =~= s@.subrange(c as int, j as int));
                    assert(t.skip(j - c + pat@.len() as int) =~= s@.skip(j + pat@.len() as int));
                    assert(out@ =~= prefix + s@.subrange(c as int, j as int) + sub@);
                    assert(out@ + rest =~= prefix + spec_replace(t, pat@, sub@));
                }
                c = j + m;
            },
        }
    }
}

/// The decimal digit character for `d`.
pub open spec fn digit_char(d: int) -> char {
    if d == 0 { '0' }
    else if d == 1 { '1' }
    else if d == 2 { '2' }
    else if d == 3 { '3' }
    else if d == 4 { '4' }
    else if d == 5 { '5' }
    else if d == 6 { '6' }
    else if d == 7 { '7' }
    else if d == 8 { '8' }
    else { '9' }
}

/// The decimal rendering of a non-negative number.
pub open spec fn spec_decimal(n: int) -> Seq<char>
    decreases n,
{
    if n < 0 {
        Seq::empty()
    } else if n < 10 {
        seq![digit_char(n)]
    } else {
        spec_decimal(n / 10).push(digit_char(n % 10))
    }
}

fn digit_str(d: usize) -> (s: &'static str)
    requires
        d < 10,
    ensures
        s@ == seq![digit_char(d as int)],
{
    proof {
        reveal_strlit("0");
        reveal_strlit("1");
        reveal_strlit("2");
        reveal_strlit("3");
        reveal_strlit("4");
        reveal_strlit("5");
        reveal_strlit("6");
        reveal_strlit("7");
        reveal_strlit("8");
        reveal_strlit("9");
    }
    let s = match d {
        0 => "0",
        1 => "1",
        2 => "2",
        3 => "3",
        4 => "4",
        5 => "5",
        6 => "6",
        7 => "7",
        8 => "8",
        _ => "9",
    };
    proof {
        assert(s@ =~= seq![digit_char(d as int)]);
    }
    s
}

/// Render a number in decimal.
pub fn decimal_string(n: usize) -> (r: String)
    ensures
        r@ == spec_decimal(n as int),
    decreases n,
{
    if n < 10 {
        String::from_str(digit_str(n))
    } else {
        let mut r = decimal_string(n / 10);
        r.append(digit_str(n % 10));
        proof {
            assert(spec_decimal(n as int / 10) + seq![digit_char(n as int % 10)]
                =~= spec_decimal(n as int / 10).push(digit_char(n as int % 10)));
        }
        r
    }
}

/// Compare two texts for equality.
pub fn str_eq(a: &str, b: &str) -> (r: bool)
    ensures
        r == (a@ == b@),
{
    let an: usize = a.unicode_len();
    let bn: usize = b.unicode_len();
    if an != bn {
        return false;
    }
    let m = check_match_at(a, b, 0);
    proof {
        if m {
            assert(a@.subrange(0, bn as int) =~= a@);
        } else {
            assert(a@.subrange(0, bn as int) =~= a@);
        }
    }
    m
}

/// The tokens joined by single spaces.
pub open spec fn join_space(ts: Seq<Seq<char>>) -> Seq<char>
    decreases ts.len(),
{
    if ts.len() == 0 {
        Seq::empty()
    } else if ts.len() == 1 {
        ts[0]
    } else {
        ts[0] + seq![' '] + join_space(ts.skip(1))
    }
}

/// Joining after appending one more token appends a space and the token,
/// except to an empty list.
pub proof fn lemma_join_space_push(ts: Seq<Seq<char>>, t: Seq<char>)
    ensures
        ts.len() == 0 ==> join_space(ts.push(t)) == t,
        ts.len() > 0 ==> join_space(ts.push(t)) == join_space(ts) + seq![' '] + t,
    decreases ts.len(),
{
    if ts.len() == 0 {
        assert(ts.push(t)[0] == t);
    } else if ts.len() == 1 {
        assert(ts.push(t).skip(1) =~= seq![t]);
        assert(ts.push(t)[0] == ts[0]);
        assert(join_space(seq![t]) == t);
        assert(join_space(ts.push(t)) == ts[0] + seq![' '] + t);
    } else {
        lemma_join_space_push(ts.skip(1), t);
        assert(ts.push(t).skip(1) =~= ts.skip(1).push(t));
        assert(ts.push(t)[0] == ts[0]);
    }
}

/// A text is blank exactly when it has no tokens.
pub proof fn lemma_tokens_blank(s: Seq<char>)
    ensures
        spec_is_blank(s) <==> spec_tokens(s).len() == 0,
{
    lemma_ws_end(s, 0);
    if ws_end(s, 0) >= s.len() {
        assert(spec_is_blank(s));
    } else {
        assert(!is_space_char(s[ws_end(s, 0)]));
        assert(!spec_is_blank(s));
        lemma_token_end(s, ws_end(s, 0));
    }
}

} // verus!
