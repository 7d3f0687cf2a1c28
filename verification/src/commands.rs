//! Built-in command resolution and directory-listing rows.
//!
//! Resolving a line decides which built-in command, if any, its first
//! token names; running the command — changing directory, printing — is
//! the host's business.  A line beginning with `!` escapes resolution and
//! always runs an external process.
//!
//! A directory listing is rendered row by row from plain metadata values:
//! name, kind, two timestamps and a size.  The size text comes from an
//! outside crate through a trusted call; the timestamp texts depend on
//! the machine's time zone and are handed in by the caller or obtained
//! through a trusted call that promises nothing about their shape.

use vstd::prelude::*;
use crate::lexical::{spec_is_blank, ws_end, lemma_ws_end, scan_ws_end};
use crate::text::{
    spec_trim, trim, token_end, lemma_token_end, scan_token_end, spec_tokens, str_eq,
    lemma_tokens_blank,
};

verus! {

/// A command the shell runs itself.
#[derive(Debug, Clone, Copy, PartialEq, Eq, Structural)]
pub enum Builtin {
    /// `cd`: change the working directory.
    ChangeDir,
    /// `devconinfo`: print version information.
    DevconInfo,
    /// `help`: print the command table.
    Help,
    /// `ls`: list a directory.
    ListDir,
}

/// The built-in a first token names, if any.
pub open spec fn builtin_of(tok: Seq<char>) -> Option<Builtin> {
    if tok == "cd"@ {
        Some(Builtin::ChangeDir)
    } else if tok == "devconinfo"@ {
        Some(Builtin::DevconInfo)
    } else if tok == "help"@ {
        Some(Builtin::Help)
    } else if tok == "ls"@ {
        Some(Builtin::ListDir)
    } else {
        None
    }
}

/// Which built-in a non-blank line resolves to: none when the line is
/// escaped with `!`, otherwise whatever its first token names.
pub open spec fn spec_resolve(s: Seq<char>) -> Option<Builtin> {
    if spec_trim(s).len() > 0 && spec_trim(s)[0] == '!' {
        None
    } else {
        builtin_of(spec_tokens(s)[0])
    }
}

/// Resolve a non-blank input line to the built-in command it invokes,
/// or to none when an external process should run instead.
pub fn resolve_function(input: &str) -> (r: Option<Builtin>)
    requires
        !spec_is_blank(input@),
    ensures
        r == spec_resolve(input@),
{
    let trimmed = trim(input);
    proof {
        lemma_tokens_blank(input@);
    }
    if trimmed.unicode_len() > 0 && trimmed.get_char(0) == '!' {
        return None;
    }
    let j: usize = scan_ws_end(input, 0);
    proof {
        lemma_ws_end(input@, 0);
        assert(j < input@.len()) by {
            if ws_end(input@, 0) >= input@.len() {
                assert(spec_is_blank(input@));
            }
        }
    }
    let e: usize = scan_token_end(input, j);
    proof {
        lemma_token_end(input@, j as int);
        assert(spec_tokens(input@)[0] == input@.subrange(j as int, token_end(input@, j as int)));
    }
    let tok = input.substring_char(j, e);
    if str_eq(tok, "cd") {
        Some(Builtin::ChangeDir)
    } else if str_eq(tok, "devconinfo") {
        Some(Builtin::DevconInfo)
    } else if str_eq(tok, "help") {
        Some(Builtin::Help)
    } else if str_eq(tok, "ls") {
        Some(Builtin::ListDir)
    } else {
        None
    }
}

/// Metadata of one directory entry, as plain values: what the listing
/// logic reads of an entry the host found on disk.
#[derive(Debug, Clone, PartialEq, Eq)]
pub struct DirEntryInfo {
    /// The entry's file name.
    pub name: String,
    pub is_file: bool,
    pub is_dir: bool,
    pub is_symlink: bool,
    /// Size in bytes, when metadata was available.
    pub size: Option<u64>,
    /// Creation time as seconds and nanoseconds since the epoch.
    pub created: Option<(u64, u32)>,
    /// Modification time as seconds and nanoseconds since the epoch.
    pub modified: Option<(u64, u32)>,
}

/// The kind column of a listing row.
pub open spec fn spec_entry_kind(is_file: bool, is_dir: bool, is_symlink: bool) -> Seq<char> {
    if is_file {
        "File"@
    } else if is_dir {
        "Directory"@
    } else if is_symlink {
        "Symlink"@
    } else {
        "Unknown"@
    }
}

/// The human-readable rendering of a byte count, in decimal units.
pub uninterp spec fn size_display_of(bytes: u64) -> Seq<char>;

/// Relies on `byte_unit::Byte::get_appropriate_unit` with decimal units:
/// the rendering is a function of the byte count alone.
#[verifier::external_body]
fn format_size(bytes: u64) -> (r: String)
    ensures
        r@ == size_display_of(bytes),
{
    format!("{}", byte_unit::Byte::from_u64(bytes).get_appropriate_unit(byte_unit::UnitType::Decimal))
}

/// Relies on `chrono`: the moment `secs` and `nanos` after the epoch,
/// rendered as a date and time in the machine's local time zone.  The
/// result depends on that zone, so nothing is promised of it; out-of-range
/// moments yield nothing.
#[verifier::external_body]
fn format_local_timestamp(secs: u64, nanos: u32) -> Option<String>
    requires
        nanos < 1_000_000_000,
{
    let delta = chrono::TimeDelta::from_std(std::time::Duration::new(secs, nanos)).ok()?;
    let dt = chrono::NaiveDateTime::default().checked_add_signed(delta)?;
    let local = dt.and_local_timezone(chrono::Local).latest()?;
    Some(local.format("%d %B %Y %I:%M %p").to_string())
}

/// The size column: not applicable for anything but a file, unavailable
/// without metadata, otherwise the rendered byte count.
pub open spec fn spec_size_cell(is_file: bool, size: Option<u64>) -> Seq<char> {
    if !is_file {
        "N/A"@
    } else {
        match size {
            Some(b) => size_display_of(b),
            None => "Unavailable"@,
        }
    }
}

/// A timestamp column from an optional rendered text.
pub open spec fn spec_time_cell(text: Option<Seq<char>>) -> Seq<char> {
    match text {
        Some(t) => t,
        None => "Unavailable"@,
    }
}

/// Build the five cells of a listing row — name, kind, created,
/// modified, size — from an entry's metadata and the rendered timestamp
/// texts.
pub fn dir_entry_row(e: &DirEntryInfo, created_text: Option<String>, modified_text: Option<String>)
    -> (row: Vec<String>)
    ensures
        row@.len() == 5,
        row.deep_view()[0] == e.name@,
        row.deep_view()[1] == spec_entry_kind(e.is_file, e.is_dir, e.is_symlink),
        row.deep_view()[2] == spec_time_cell(
            match created_text {
                Some(ref t) => Some(t@),
                None => None,
            },
        ),
        row.deep_view()[3] == spec_time_cell(
            match modified_text {
                Some(ref t) => Some(t@),
                None => None,
            },
        ),
        row.deep_view()[4] == spec_size_cell(e.is_file, e.size),
{
    let mut row: Vec<String> = Vec::new();
    row.push(e.name.clone());
    let kind = if e.is_file {
        String::from_str("File")
    } else if e.is_dir {
        String::from_str("Directory")
    } else if e.is_symlink {
        String::from_str("Symlink")
    } else {
        String::from_str("Unknown")
    };
    row.push(kind);
    row.push(
        match created_text {
            Some(t) => t,
            None => String::from_str("Unavailable"),
        },
    );
    row.push(
        match modified_text {
            Some(t) => t,
            None => String::from_str("Unavailable"),
        },
    );
    let size_cell = if !e.is_file {
        String::from_str("N/A")
    } else {
        match e.size {
            Some(b) => format_size(b),
            None => String::from_str("Unavailable"),
        }
    };
    row.push(size_cell);
    row
}

/// Build a listing row straight from an entry, rendering its timestamps
/// in the machine's local time zone.  The timestamp cells depend on that
/// zone; everything else in the row is pinned.
pub fn list_dir_row(e: &DirEntryInfo) -> (row: Vec<String>)
    requires
        e.created matches Some(p) ==> p.1 < 1_000_000_000,
        e.modified matches Some(p) ==> p.1 < 1_000_000_000,
    ensures
        row@.len() == 5,
        row.deep_view()[0] == e.name@,
        row.deep_view()[1] == spec_entry_kind(e.is_file, e.is_dir, e.is_symlink),
        e.created is None ==> row.deep_view()[2] == "Unavailable"@,
        e.modified is None ==> row.deep_view()[3] == "Unavailable"@,
        row.deep_view()[4] == spec_size_cell(e.is_file, e.size),
{
    let created_text = match e.created {
        Some(p) => format_local_timestamp(p.0, p.1),
        None => None,
    };
    let modified_text = match e.modified {
        Some(p) => format_local_timestamp(p.0, p.1),
        None => None,
    };
    dir_entry_row(e, created_text, modified_text)
}

} // verus!
