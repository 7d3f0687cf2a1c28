//! Project-integration logic: recognising a Rust project and describing
//! it in the prompt.
//!
//! The host probes the filesystem and hands in plain values: whether a
//! manifest file exists at the directory and each of its ancestors, and
//! the text of those manifests.  The decisions over those values — is
//! this a Rust project, is it a workspace, which crate is it — are
//! verified; parsing the manifest text is the work of an outside crate
//! and is trusted.

use vstd::prelude::*;
use crate::diagnostics::char_string;
use crate::text::{spec_lines, split_trimmed_lines, match_at, check_match_at};

verus! {

/// Whether any directory along the walk holds a manifest.
///
/// The entries are ordered from the directory itself outward through its
/// ancestors; a project root anywhere along that walk makes the
/// directory part of a Rust project.
pub fn is_rust_project(manifest_present: &Vec<bool>) -> (r: bool)
    ensures
        r == exists|k: int| 0 <= k < manifest_present@.len() && manifest_present@[k],
{
    let n = manifest_present.len();
    let mut k: usize = 0;
    while k < n
        invariant
            0 <= k <= n,
            n == manifest_present@.len(),
            forall|m: int| 0 <= m < k ==> !manifest_present@[m],
        decreases n - k,
    {
        if manifest_present[k] {
            return true;
        }
        k = k + 1;
    }
    false
}

/// A manifest text declares a workspace: some line, trimmed, starts
/// with `[workspace]`.
pub open spec fn spec_is_workspace(s: Seq<char>) -> bool {
    exists|k: int| 0 <= k < spec_lines(s).len() && match_at(
        #[trigger] spec_lines(s)[k],
        "[workspace]"@,
        0,
    )
}

/// Whether the manifest text declares a Cargo workspace.
pub fn is_cargo_workspace(contents: &str) -> (r: bool)
    ensures
        r == spec_is_workspace(contents@),
{
    let lines = split_trimmed_lines(contents);
    let n = lines.len();
    let mut k: usize = 0;
    while k < n
        invariant
            0 <= k <= n,
            n == lines@.len(),
            lines.deep_view() == spec_lines(contents@),
            forall|m: int| 0 <= m < k ==> !match_at(#[trigger] spec_lines(contents@)[m], "[workspace]"@, 0),
        decreases n - k,
    {
        let hit = check_match_at(lines[k].as_str(), "[workspace]", 0);
        proof {
            assert(lines[k as int]@ == spec_lines(contents@)[k as int]);
        }
        if hit {
            return true;
        }
        k = k + 1;
    }
    false
}

/// What the listing and prompt logic read of a crate manifest.
#[derive(Debug, Clone, PartialEq, Eq)]
pub struct ManifestInfo {
    /// The declared package name, when the manifest declares a package.
    pub package: Option<String>,
}

/// Whether a text parses as a crate manifest, and the package name it
/// declares when it does.
pub uninterp spec fn manifest_package_of(s: Seq<char>) -> Option<Option<Seq<char>>>;

/// Relies on `cargo_toml::Manifest::from_str`: whether the text parses,
/// and the package name it declares, are functions of the text alone.
#[verifier::external_body]
fn parse_manifest_package(text: &str) -> (r: Option<Option<String>>)
    ensures
        r is Some <==> manifest_package_of(text@) is Some,
        r matches Some(p) ==> manifest_package_of(text@) == Some(
            match p {
                Some(ref n) => Some(n@),
                None => None::<Seq<char>>,
            },
        ),
{
    match cargo_toml::Manifest::from_str(text) {
        Ok(m) => Some(m.package.map(|p| p.name)),
        Err(_) => None,
    }
}

/// The manifest texts along the walk, in spec form.
pub open spec fn manifest_text_views(ts: Seq<Option<String>>) -> Seq<Option<Seq<char>>> {
    ts.map(
        |k: int, t: Option<String>| match t {
            Some(s) => Some(s@),
            None => None::<Seq<char>>,
        },
    )
}

/// The package field of the first manifest text, from position `i` on,
/// that exists and parses.
pub open spec fn first_manifest(ts: Seq<Option<Seq<char>>>, i: int) -> Option<Option<Seq<char>>>
    decreases ts.len() - i,
{
    if i < 0 || i >= ts.len() {
        None
    } else {
        match ts[i] {
            Some(t) => match manifest_package_of(t) {
                Some(p) => Some(p),
                None => first_manifest(ts, i + 1),
            },
            None => first_manifest(ts, i + 1),
        }
    }
}

/// Walk outward from the directory and parse the first manifest that
/// exists and is well formed, handing back what it declares.
///
/// The entries are the manifest texts of the directory and its
/// ancestors in order, with nothing for a directory without a manifest.
pub fn get_crate_manifest(texts: &Vec<Option<String>>) -> (r: Option<ManifestInfo>)
    ensures
        match first_manifest(manifest_text_views(texts@), 0) {
            Some(p) => r matches Some(m) && (match m.package {
                Some(n) => p == Some(n@),
                None => p is None,
            }),
            None => r is None,
        },
{
    let ghost ts = manifest_text_views(texts@);
    let n = texts.len();
    let mut k: usize = 0;
    while k < n
        invariant
            0 <= k <= n,
            n == texts@.len(),
            ts == manifest_text_views(texts@),
            first_manifest(ts, 0) == first_manifest(ts, k as int),
        decreases n - k,
    {
        match &texts[k] {
            Some(text) => {
                match parse_manifest_package(text.as_str()) {
                    Some(package) => {
                        return Some(ManifestInfo { package });
                    },
                    None => {},
                }
            },
            None => {},
        }
        k = k + 1;
    }
    None
}

/// The badge the prompt shows for a Rust project: the workspace marker,
/// the crate's name, or the bare project marker.
pub open spec fn spec_rust_badge(workspace: bool, manifest: Option<ManifestInfo>) -> Seq<char> {
    if workspace {
        "[cargo workspace]"@
    } else {
        match manifest {
            Some(m) => match m.package {
                Some(n) => "[crate \""@ + n@ + "\"]"@,
                None => "[rust project]"@,
            },
            None => "[rust project]"@,
        }
    }
}

/// The badge the prompt shows for the current git branch, with an
/// optional leading icon.
pub open spec fn spec_git_badge(icon: Option<char>, branch: Seq<char>) -> Seq<char> {
    "["@ + (match icon {
        Some(c) => seq![c] + seq![' '],
        None => Seq::<char>::empty(),
    }) + "branch \""@ + branch + "\"]"@
}

/// Render the prompt badge for a git branch.
pub fn git_branch_badge(icon: Option<char>, branch: &str) -> (r: String)
    ensures
        r@ == spec_git_badge(icon, branch@),
{
    let mut r = String::new();
    r.append("[");
    match icon {
        Some(c) => {
            let cs = char_string(c);
            r.append(cs.as_str());
            r.append(" ");
            proof {
                reveal_strlit(" ");
            }
        },
        None => {},
    }
    r.append("branch \"");
    r.append(branch);
    r.append("\"]");
    proof {
        assert(r@ =~= spec_git_badge(icon, branch@));
    }
    r
}

/// Render the prompt badge for a Rust project.
pub fn rust_integration_badge(workspace: bool, manifest: &Option<ManifestInfo>) -> (r: String)
    ensures
        r@ == spec_rust_badge(workspace, *manifest),
{
    if workspace {
        return String::from_str("[cargo workspace]");
    }
    match manifest {
        Some(m) => match &m.package {
            Some(n) => {
                let mut r = String::new();
                r.append("[crate \"");
                r.append(n.as_str());
                r.append("\"]");
                proof {
                    assert(r@ =~= spec_rust_badge(workspace, *manifest));
                }
                r
            },
            None => String::from_str("[rust project]"),
        },
        None => String::from_str("[rust project]"),
    }
}

} // verus!
