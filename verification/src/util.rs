//! Prompt-text assembly.
//!
//! The prompt's text — who is logged in, on which machine, in which
//! directory — is assembled here from plain values; colouring it and
//! printing it belong to the host.

use vstd::prelude::*;

verus! {

/// The prompt's leading text: `user@host: dir `.
pub open spec fn spec_prompt_line(user: Seq<char>, host: Seq<char>, dir: Seq<char>) -> Seq<char> {
    user + "@"@ + host + ": "@ + dir + " "@
}

/// Assemble the prompt's leading text.
pub fn prompt_line(user: &str, host: &str, dir: &str) -> (r: String)
    ensures
        r@ == spec_prompt_line(user@, host@, dir@),
{
    let mut r = String::new();
    r.append(user);
    r.append("@");
    r.append(host);
    r.append(": ");
    r.append(dir);
    r.append(" ");
    proof {
        assert(r@ =~= spec_prompt_line(user@, host@, dir@));
    }
    r
}

} // verus!
