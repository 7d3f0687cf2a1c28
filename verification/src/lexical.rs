//! Lexical primitives: character classes and maximal-run scans.
//!
//! The grammar layer is built on two character classes — identifier
//! characters (ASCII letters and underscore) and ASCII whitespace — and on
//! scans that find the end of a maximal run of a class starting at a given
//! position.  The scans are specified as recursive functions over the
//! character sequence, and the executable scans are proved to compute them.

use vstd::prelude::*;

verus! {

/// An identifier character: an ASCII letter or an underscore.
pub open spec fn is_word_char(c: char) -> bool {
    ('a' <= c && c <= 'z') || ('A' <= c && c <= 'Z') || c == '_'
}

/// An ASCII whitespace character.
pub open spec fn is_space_char(c: char) -> bool {
    c == ' ' || c == '\t' || c == '\n' || c == '\r' || c == '\u{c}'
}

/// Executable test for [`is_word_char`].
pub fn word_char(c: char) -> (b: bool)
    ensures
        b == is_word_char(c),
{
    ('a' <= c && c <= 'z') || ('A' <= c && c <= 'Z') || c == '_'
}

/// Executable test for [`is_space_char`].
pub fn space_char(c: char) -> (b: bool)
    ensures
        b == is_space_char(c),
{
    c == ' ' || c == '\t' || c == '\n' || c == '\r' || c == '\u{c}'
}

/// End of the maximal run of identifier characters starting at `i`.
pub open spec fn word_end(s: Seq<char>, i: int) -> int
    decreases s.len() - i,
{
    if 0 <= i < s.len() && is_word_char(s[i]) {
        word_end(s, i + 1)
    } else {
        i
    }
}

/// End of the maximal run of whitespace characters starting at `i`.
pub open spec fn ws_end(s: Seq<char>, i: int) -> int
    decreases s.len() - i,
{
    if 0 <= i < s.len() && is_space_char(s[i]) {
        ws_end(s, i + 1)
    } else {
        i
    }
}

pub proof fn lemma_word_end(s: Seq<char>, i: int)
    requires
        0 <= i <= s.len(),
    ensures
        i <= word_end(s, i) <= s.len(),
        forall|k: int| i <= k < word_end(s, i) ==> is_word_char(#[trigger] s[k]),
        word_end(s, i) < s.len() ==> !is_word_char(s[word_end(s, i)]),
    decreases s.len() - i,
{
    if i < s.len() && is_word_char(s[i]) {
        lemma_word_end(s, i + 1);
    }
}

pub proof fn lemma_ws_end(s: Seq<char>, i: int)
    requires
        0 <= i <= s.len(),
    ensures
        i <= ws_end(s, i) <= s.len(),
        forall|k: int| i <= k < ws_end(s, i) ==> is_space_char(#[trigger] s[k]),
        ws_end(s, i) < s.len() ==> !is_space_char(s[ws_end(s, i)]),
    decreases s.len() - i,
{
    if i < s.len() && is_space_char(s[i]) {
        lemma_ws_end(s, i + 1);
    }
}

/// A run that has begun and not yet ended continues: scanning from any
/// position inside the run ends at the same place.
pub proof fn lemma_word_end_step(s: Seq<char>, i: int, j: int)
    requires
        0 <= i <= j <= s.len(),
        forall|k: int| i <= k < j ==> is_word_char(#[trigger] s[k]),
    ensures
        word_end(s, i) == word_end(s, j),
    decreases j - i,
{
    if i < j {
        lemma_word_end_step(s, i + 1, j);
    }
}

pub proof fn lemma_ws_end_step(s: Seq<char>, i: int, j: int)
    requires
        0 <= i <= j <= s.len(),
        forall|k: int| i <= k < j ==> is_space_char(#[trigger] s[k]),
    ensures
        ws_end(s, i) == ws_end(s, j),
    decreases j - i,
{
    if i < j {
        lemma_ws_end_step(s, i + 1, j);
    }
}

/// Executable scan for [`word_end`].
pub fn scan_word_end(s: &str, from: usize) -> (end: usize)
    requires
        from <= s@.len(),
    ensures
        end == word_end(s@, from as int),
{
    let n: usize = s.unicode_len();
    let mut end: usize = from;
    proof {
        lemma_word_end(s@, from as int);
    }
    while end < n && word_char(s.get_char(end))
        invariant
            from <= end <= n,
            n == s@.len(),
            word_end(s@, from as int) == word_end(s@, end as int),
            forall|k: int| from <= k < end ==> is_word_char(#[trigger] s@[k]),
        decreases n - end,
    {
        end = end + 1;
        proof {
            lemma_word_end_step(s@, from as int, end as int);
        }
    }
    end
}

/// Executable scan for [`ws_end`].
pub fn scan_ws_end(s: &str, from: usize) -> (end: usize)
    requires
        from <= s@.len(),
    ensures
        end == ws_end(s@, from as int),
{
    let n: usize = s.unicode_len();
    let mut end: usize = from;
    proof {
        lemma_ws_end(s@, from as int);
    }
    while end < n && space_char(s.get_char(end))
        invariant
            from <= end <= n,
            n == s@.len(),
            ws_end(s@, from as int) == ws_end(s@, end as int),
            forall|k: int| from <= k < end ==> is_space_char(#[trigger] s@[k]),
        decreases n - end,
    {
        end = end + 1;
        proof {
            lemma_ws_end_step(s@, from as int, end as int);
        }
    }
    end
}

/// Blank text: nothing but whitespace (possibly empty).
pub open spec fn spec_is_blank(s: Seq<char>) -> bool {
    forall|k: int| 0 <= k < s.len() ==> is_space_char(#[trigger] s[k])
}

/// Whether the input holds no token at all, only whitespace.
pub fn is_blank(input: &str) -> (b: bool)
    ensures
        b == spec_is_blank(input@),
{
    let end: usize = scan_ws_end(input, 0);
    proof {
        lemma_ws_end(input@, 0);
    }
    end == input.unicode_len()
}

} // verus!
