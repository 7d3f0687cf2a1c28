//! Environment substitution and process-invocation preparation.
//!
//! Substitution walks the whitespace-separated tokens of a line; each
//! token that starts with `?name?` placeholders has every occurrence of
//! each placeholder replaced by the variable's value, or left as written
//! when the variable is absent.  The variables are handed in as plain
//! name–value pairs; looking them up in the process environment is the
//! caller's business.
//!
//! Invocation preparation normalises backslash escapes, strips the
//! leading `!` escape, and splits the line into words by shell quoting
//! rules.  The split itself is the work of an outside crate and is
//! trusted; everything around it is verified.

use vstd::prelude::*;
use crate::function::Call;
use crate::placeholder::{spec_placeholders, parse_env_vars};
use crate::text::{
    spec_tokens, split_tokens, spec_replace, replace_all, join_space, lemma_join_space_push,
    str_eq,
};

verus! {

/// The name–value pairs of an environment, in spec form.
pub open spec fn env_view(env: Seq<(String, String)>) -> Seq<(Seq<char>, Seq<char>)> {
    env.map(|k: int, p: (String, String)| (p.0@, p.1@))
}

/// The value of the first pair with the given name, from position `i` on.
pub open spec fn lookup_from(
    env: Seq<(Seq<char>, Seq<char>)>,
    name: Seq<char>,
    i: int,
) -> Option<Seq<char>>
    decreases env.len() - i,
{
    if i < 0 || i >= env.len() {
        None
    } else if env[i].0 == name {
        Some(env[i].1)
    } else {
        lookup_from(env, name, i + 1)
    }
}

/// The written form of a placeholder: the name between its markers.
pub open spec fn placeholder_marker(name: Seq<char>) -> Seq<char> {
    seq!['?'] + name + seq!['?']
}

/// What a placeholder is replaced by: the variable's value, or its own
/// written form when the variable is absent.
pub open spec fn substitution_of(
    env: Seq<(Seq<char>, Seq<char>)>,
    name: Seq<char>,
) -> Seq<char> {
    match lookup_from(env, name, 0) {
        Some(v) => v,
        None => placeholder_marker(name),
    }
}

/// The token after the placeholders from position `i` of the name list
/// on have each been substituted, one after another.
pub open spec fn subst_from(
    tok: Seq<char>,
    names: Seq<Seq<char>>,
    i: int,
    env: Seq<(Seq<char>, Seq<char>)>,
) -> Seq<char>
    decreases names.len() - i,
{
    if i < 0 || i >= names.len() {
        tok
    } else {
        subst_from(
            spec_replace(tok, placeholder_marker(names[i]), substitution_of(env, names[i])),
            names,
            i + 1,
            env,
        )
    }
}

/// A token after environment substitution.
pub open spec fn subst_token(tok: Seq<char>, env: Seq<(Seq<char>, Seq<char>)>) -> Seq<char> {
    subst_from(tok, spec_placeholders(tok), 0, env)
}

/// The tokens from position `i` on, each after substitution.
pub open spec fn subst_all_from(
    ts: Seq<Seq<char>>,
    i: int,
    env: Seq<(Seq<char>, Seq<char>)>,
) -> Seq<Seq<char>>
    decreases ts.len() - i,
{
    if i < 0 || i >= ts.len() {
        Seq::empty()
    } else {
        seq![subst_token(ts[i], env)] + subst_all_from(ts, i + 1, env)
    }
}

/// A whole line after environment substitution: its tokens substituted
/// and joined by single spaces.
pub open spec fn spec_substitute(s: Seq<char>, env: Seq<(Seq<char>, Seq<char>)>) -> Seq<char> {
    join_space(subst_all_from(spec_tokens(s), 0, env))
}

/// Look a variable up among the given pairs; the first match wins.
fn env_lookup(env: &Vec<(String, String)>, name: &str) -> (r: Option<String>)
    ensures
        match r {
            Some(v) => lookup_from(env_view(env@), name@, 0) == Some(v@),
            None => lookup_from(env_view(env@), name@, 0) is None,
        },
{
    let n = env.len();
    let mut k: usize = 0;
    while k < n
        invariant
            0 <= k <= n,
            n == env@.len(),
            lookup_from(env_view(env@), name@, 0) == lookup_from(env_view(env@), name@, k as int),
        decreases n - k,
    {
        let hit = str_eq(env[k].0.as_str(), name);
        if hit {
            let v = env[k].1.clone();
            return Some(v);
        }
        k = k + 1;
    }
    None
}

/// Substitute environment placeholders into a line, token by token.
pub fn substitute_env_var(input: &str, env: &Vec<(String, String)>) -> (r: String)
    ensures
        r@ == spec_substitute(input@, env_view(env@)),
{
    let ghost ev = env_view(env@);
    let tokens = split_tokens(input);
    let ghost ts = tokens.deep_view();
    let n = tokens.len();
    let mut done: Vec<String> = Vec::new();
    let mut k: usize = 0;
    proof {
        assert(done.deep_view() =~~= Seq::<Seq<char>>::empty());
    }
    while k < n
        invariant
            0 <= k <= n,
            n == tokens@.len(),
            ts == tokens.deep_view(),
            ev == env_view(env@),
            done.deep_view().len() == k as int,
            done.deep_view() + subst_all_from(ts, k as int, ev) =~~= subst_all_from(ts, 0, ev),
        decreases n - k,
    {
        let tok = &tokens[k];
        let mut cur: String = tok.clone();
        let ghost names = spec_placeholders(tok@);
        match parse_env_vars(tok.as_str()) {
            None => {
                proof {
                    assert(subst_token(tok@, ev) == cur@);
                }
            },
            Some(vars) => {
                let ghost nv = vars.deep_view();
                let m = vars.len();
                let mut j: usize = 0;
                while j < m
                    invariant
                        0 <= j <= m,
                        m == vars@.len(),
                        nv == vars.deep_view(),
                        nv == names,
                        ev == env_view(env@),
                        subst_from(cur@, names, j as int, ev) == subst_from(tok@, names, 0, ev),
                    decreases m - j,
                {
                    let name = &vars[j];
                    let mut marker = String::new();
                    marker.append("?");
                    marker.append(name.as_str());
                    marker.append("?");
                    proof {
                        reveal_strlit("?");
                        assert(marker@ =~= placeholder_marker(name@));
                        assert(name@ == names[j as int]);
                    }
                    let value = match env_lookup(env, name.as_str()) {
                        Some(v) => v,
                        None => {
                            let m2 = marker.clone();
                            m2
                        },
                    };
                    proof {
                        assert(value@ == substitution_of(ev, names[j as int]));
                    }
                    let replaced = replace_all(cur.as_str(), marker.as_str(), value.as_str());
                    cur = replaced;
                    j = j + 1;
                }
                proof {
                    assert(subst_token(tok@, ev) == cur@);
                }
            },
        }
        let ghost prev = done.deep_view();
        let ghost cur_view = cur@;
        done.push(cur);
        proof {
            assert(done.deep_view() =~~= prev.push(cur_view));
            assert(prev.push(cur_view) =~~= prev + seq![cur_view]);
            assert(cur_view == subst_token(ts[k as int], ev));
            assert(done.deep_view() + subst_all_from(ts, k as int + 1, ev)
                =~~= subst_all_from(ts, 0, ev));
        }
        k = k + 1;
    }
    let ghost subbed = subst_all_from(ts, 0, ev);
    proof {
        assert(done.deep_view() =~~= subbed);
    }
    let mut out = String::new();
    let mut k2: usize = 0;
    let ghost dv = done.deep_view();
    while k2 < n
        invariant
            0 <= k2 <= n,
            n == done@.len(),
            dv == done.deep_view(),
            out@ == join_space(dv.take(k2 as int)),
        decreases n - k2,
    {
        if k2 > 0 {
            out.append(" ");
            proof {
                reveal_strlit(" ");
            }
        }
        out.append(done[k2].as_str());
        proof {
            lemma_join_space_push(dv.take(k2 as int), dv[k2 as int]);
            assert(dv.take(k2 as int).push(dv[k2 as int]) =~~= dv.take(k2 as int + 1));
            if k2 == 0 {
                assert(out@ =~= join_space(dv.take(1)));
            } else {
                assert(out@ =~= join_space(dv.take(k2 as int)) + seq![' '] + dv[k2 as int]);
            }
        }
        k2 = k2 + 1;
    }
    proof {
        assert(dv.take(n as int) =~~= dv);
        assert(out@ == spec_substitute(input@, ev));
    }
    out
}

/// How preparing an invocation can fail.
#[derive(Debug, Clone, Copy, PartialEq, Eq, Structural)]
pub enum ShellError {
    /// A quote opened in the line is never closed.
    UnclosedQuotes,
    /// The line holds no word at all, so there is no process to run.
    MissingProcessName,
}

/// The words an invocation line splits into under shell quoting rules,
/// or nothing when a quote is unclosed.
pub uninterp spec fn shell_split_of(s: Seq<char>) -> Option<Seq<Seq<char>>>;

/// Relies on `shell_words::split`: the words of the line under POSIX
/// shell quoting, a function of the line alone; an unmatched quote, and
/// nothing else, is an error.
#[verifier::external_body]
fn shell_split(input: &str) -> (r: Option<Vec<String>>)
    ensures
        match r {
            Some(v) => shell_split_of(input@) == Some(v.deep_view()),
            None => shell_split_of(input@) is None,
        },
{
    match shell_words::split(input) {
        Ok(v) => Some(v),
        Err(_) => None,
    }
}

/// The invocation line after escape normalisation: the leading `!`
/// stripped, every backslash doubled, then `\\"` reduced to `\"` and
/// `\\\\` reduced to `\\`.
pub open spec fn spec_normalized(s: Seq<char>) -> Seq<char> {
    let stripped = if s.len() > 0 && s[0] == '!' {
        s.skip(1)
    } else {
        s
    };
    spec_replace(
        spec_replace(spec_replace(stripped, "\\"@, "\\\\"@), "\\\\\""@, "\\\""@),
        "\\\\\\\\"@,
        "\\\\"@,
    )
}

/// Build the invocation from the words the shell split produced: the
/// first word names the process, the rest are its arguments.  An empty
/// split has no process name and is refused.
pub fn build_invocation(words: Vec<String>) -> (r: Result<Call, ShellError>)
    ensures
        words@.len() == 0 ==> r == Err::<Call, ShellError>(ShellError::MissingProcessName),
        words@.len() > 0 ==> (r matches Ok(c) && c@.name == words.deep_view()[0]
            && c@.args == words.deep_view().skip(1)),
{
    let mut words = words;
    if words.len() == 0 {
        return Err(ShellError::MissingProcessName);
    }
    let ghost all = words.deep_view();
    let name = words.remove(0);
    proof {
        assert(name@ == all[0]);
        assert(words.deep_view() =~~= all.skip(1));
    }
    Ok(Call { name, args: words })
}

/// Prepare a process invocation: normalise escapes, split into words by
/// shell quoting rules, and name the process and its arguments.
pub fn prepare_invocation(input: &str) -> (r: Result<Call, ShellError>)
    ensures
        match shell_split_of(spec_normalized(input@)) {
            None => r == Err::<Call, ShellError>(ShellError::UnclosedQuotes),
            Some(ws) => {
                if ws.len() == 0 {
                    r == Err::<Call, ShellError>(ShellError::MissingProcessName)
                } else {
                    r matches Ok(c) && c@.name == ws[0] && c@.args == ws.skip(1)
                }
            },
        },
{
    let n = input.unicode_len();
    let stripped = if n > 0 && input.get_char(0) == '!' {
        let t = input.substring_char(1, n);
        proof {
            assert(t@ =~= input@.skip(1));
        }
        t
    } else {
        input
    };
    let step1 = replace_all(stripped, "\\", "\\\\");
    let step2 = replace_all(step1.as_str(), "\\\\\"", "\\\"");
    let step3 = replace_all(step2.as_str(), "\\\\\\\\", "\\\\");
    proof {
        assert(step3@ == spec_normalized(input@));
    }
    match shell_split(step3.as_str()) {
        None => Err(ShellError::UnclosedQuotes),
        Some(words) => build_invocation(words),
    }
}

} // verus!
