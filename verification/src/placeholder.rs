//! Environment-placeholder grammar.
//!
//! A placeholder is a possibly empty identifier run delimited by `?`
//! markers.  Scanning is a greedy, left-to-right repetition anchored at the
//! start of the text: placeholders are collected as long as the text keeps
//! matching `? name ?`, and whatever follows the last match is ignored.

use vstd::prelude::*;
use crate::lexical::{word_end, lemma_word_end, scan_word_end};

verus! {

/// The placeholder names matched by the greedy repetition starting at `i`.
pub open spec fn placeholders_from(s: Seq<char>, i: int) -> Seq<Seq<char>>
    decreases s.len() - i + 1,
    via placeholders_from_decreases
{
    if 0 <= i < s.len() && s[i] == '?' {
        let j = word_end(s, i + 1);
        if j < s.len() && s[j] == '?' {
            seq![s.subrange(i + 1, j)] + placeholders_from(s, j + 1)
        } else {
            Seq::empty()
        }
    } else {
        Seq::empty()
    }
}

#[via_fn]
proof fn placeholders_from_decreases(s: Seq<char>, i: int) {
    if 0 <= i < s.len() && s[i] == '?' {
        lemma_word_end(s, i + 1);
    }
}

/// The placeholder names at the start of the whole text.
pub open spec fn spec_placeholders(s: Seq<char>) -> Seq<Seq<char>> {
    placeholders_from(s, 0)
}

/// Scan the input for `?name?` environment placeholders.
///
/// Returns the matched names in order, or `None` when the input does not
/// start with a placeholder, so that "no placeholders" is distinguished
/// from an impossible empty match list.
pub fn parse_env_vars(input: &str) -> (r: Option<Vec<String>>)
    ensures
        match r {
            Some(v) => v.deep_view() == spec_placeholders(input@) && v@.len() > 0,
            None => spec_placeholders(input@).len() == 0,
        },
{
    let n: usize = input.unicode_len();
    let mut out: Vec<String> = Vec::new();
    let mut i: usize = 0;
    loop
        invariant
            0 <= i <= n,
            n == input@.len(),
            spec_placeholders(input@) == out.deep_view() + placeholders_from(input@, i as int),
            out@.len() == out.deep_view().len(),
        decreases n - i,
    {
        if i < n && input.get_char(i) == '?' {
            let j: usize = scan_word_end(input, i + 1);
            proof {
                lemma_word_end(input@, i as int + 1);
            }
            if j < n && input.get_char(j) == '?' {
                let name = String::from_str(input.substring_char(i + 1, j));
                let ghost prefix = out.deep_view();
                let ghost name_view = name@;
                out.push(name);
                proof {
                    assert(out.deep_view() =~~= prefix.push(name_view));
                    assert(prefix.push(name_view) =~~= prefix + seq![name_view]);
                    assert(out.deep_view() + placeholders_from(input@, j as int + 1)
                        =~~= spec_placeholders(input@));
                }
                i = j + 1;
                continue;
            }
            proof {
                assert(placeholders_from(input@, i as int) =~~= Seq::<Seq<char>>::empty());
                assert(out.deep_view() =~~= spec_placeholders(input@));
            }
            if out.len() == 0 {
                return None;
            }
            return Some(out);
        }
        proof {
            assert(placeholders_from(input@, i as int) =~~= Seq::<Seq<char>>::empty());
            assert(out.deep_view() =~~= spec_placeholders(input@));
        }
        if out.len() == 0 {
            return None;
        }
        return Some(out);
    }
}

} // verus!
