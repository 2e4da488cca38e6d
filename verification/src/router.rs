//! Classifying and routing archive entries.
//!
//! Each decoded entry is classified by the extension of its final path
//! component: entries without a usable name or extension are ignored,
//! the one recognized database extension marks the embedded database
//! file, and every other extension marks a plain document routed to
//! `<root>/<extension>/<basename>`.  At most one database file may
//! appear per archive; a second is a fatal `DuplicateDatabaseFile`.

use vstd::prelude::*;

use crate::errors::RunError;
use crate::paths::{
    after_last, basename, basename_of, ext_of, extension, has_ext, has_file_name, join, joined,
    str_eq,
};

verus! {

/// The one recognized extension of an embedded database file.
pub open spec fn db_ext() -> Seq<char> {
    "accdb"@
}

/// A raw name that is skipped outright: no usable final component, or
/// no extension on it.
pub open spec fn is_ignored_name(s: Seq<char>) -> bool {
    !has_file_name(s) || !has_ext(basename_of(s))
}

/// A raw name whose final component carries the database extension.
pub open spec fn is_database_name(s: Seq<char>) -> bool {
    has_file_name(s) && has_ext(basename_of(s)) && ext_of(basename_of(s)) == db_ext()
}

/// A raw name routed as a plain document.
pub open spec fn is_plain_name(s: Seq<char>) -> bool {
    has_file_name(s) && has_ext(basename_of(s)) && ext_of(basename_of(s)) != db_ext()
}

/// The destination directory of a plain entry: `<root>/<extension>`.
pub open spec fn plain_dir(root: Seq<char>, ext: Seq<char>) -> Seq<char> {
    joined(root, ext)
}

/// The destination path of a plain entry: `<root>/<extension>/<basename>`.
pub open spec fn plain_dest(root: Seq<char>, ext: Seq<char>, base: Seq<char>) -> Seq<char> {
    joined(joined(root, ext), base)
}

/// What classifying a raw entry name found.
pub enum NameClass {
    /// No usable final component or no extension: never routed.
    Ignored,
    /// A plain document with the given extension and basename.
    Plain { ext: String, base: String },
    /// The embedded database file.
    Database { base: String },
}

/// Classifies a raw entry name by its final path component.
pub fn classify(raw_name: &str) -> (c: NameClass)
    ensures
        match c {
            NameClass::Ignored => is_ignored_name(raw_name@),
            NameClass::Plain { ext, base } => is_plain_name(raw_name@) && base@ == basename_of(
                raw_name@,
            ) && ext@ == ext_of(basename_of(raw_name@)),
            NameClass::Database { base } => is_database_name(raw_name@) && base@ == basename_of(
                raw_name@,
            ),
        },
{
    let base = basename(raw_name);
    proof {
        reveal_strlit("");
    }
    if str_eq(base.as_str(), "") || str_eq(base.as_str(), ".") || str_eq(base.as_str(), "..") {
        return NameClass::Ignored;
    }
    match extension(base.as_str()) {
        None => NameClass::Ignored,
        Some(ext) => {
            if str_eq(ext.as_str(), "accdb") {
                NameClass::Database { base }
            } else {
                NameClass::Plain { ext, base }
            }
        },
    }
}

/// What the decode loop must do with one entry.
pub enum RouteAction {
    /// Discard the entry without writing.
    Skip,
    /// Ensure `dir` exists, then write the entry's bytes to `path`,
    /// truncating any file already there.
    WritePlain { dir: String, path: String },
    /// Write the entry's bytes to the private staging path and spawn
    /// the conversion job on it.
    StageDatabase { path: String },
}

/// Per-archive routing state: whether the database file was already seen.
pub struct Router {
    pub seen_database: bool,
}

impl Router {
    /// A fresh router for one archive's decode run.
    pub fn new() -> (r: Router)
        ensures
            !r.seen_database,
    {
        Router { seen_database: false }
    }

    /// Decides the action for one decoded entry.  A second database
    /// file is refused; everything else leaves the archive healthy.
    pub fn route(&mut self, raw_name: &str, out_root: &str, staging_root: &str) -> (r: Result<
        RouteAction,
        RunError,
    >)
        ensures
            final(self).seen_database == (old(self).seen_database || is_database_name(raw_name@)),
            is_ignored_name(raw_name@) ==> r == Ok::<RouteAction, RunError>(RouteAction::Skip),
            is_plain_name(raw_name@) ==> (r matches Ok(RouteAction::WritePlain { dir, path })
                && dir@ == plain_dir(out_root@, ext_of(basename_of(raw_name@))) && path@
                == plain_dest(out_root@, ext_of(basename_of(raw_name@)), basename_of(raw_name@))),
            is_database_name(raw_name@) && !old(self).seen_database ==> (r matches Ok(
                RouteAction::StageDatabase { path },
            ) && path@ == joined(staging_root@, basename_of(raw_name@))),
            is_database_name(raw_name@) && old(self).seen_database ==> r == Err::<
                RouteAction,
                RunError,
            >(RunError::DuplicateDatabaseFile),
    {
        match classify(raw_name) {
            NameClass::Ignored => Ok(RouteAction::Skip),
            NameClass::Plain { ext, base } => {
                let dir = join(out_root, ext.as_str());
                let path = join(dir.as_str(), base.as_str());
                Ok(RouteAction::WritePlain { dir, path })
            },
            NameClass::Database { base } => {
                if self.seen_database {
                    Err(RunError::DuplicateDatabaseFile)
                } else {
                    self.seen_database = true;
                    let path = join(staging_root, base.as_str());
                    Ok(RouteAction::StageDatabase { path })
                }
            },
        }
    }
}

} // verus!
