//! Crash-safe write-replace: the description of an atomic file write — the
//! target, the overwrite policy, the durability policy and the scratch
//! directory. The I/O that carries it out lives outside the library; the
//! temporary file is always created next to the target so the final rename
//! stays on one file system.

use vstd::prelude::*;

verus! {

/// Whether the write may replace an existing target file.
#[derive(Debug, Clone, Copy)]
pub enum OverwriteBehavior {
    /// Replace an existing target silently.
    AllowOverwrite,
    /// Fail (after writing the data) when the target exists.
    DisallowOverwrite,
}

/// Whether the containing directory is forced to durable storage after
/// the rename. Either way the write is atomic; only crash durability of
/// the rename itself differs.
#[derive(Debug, Clone, Copy)]
pub enum Durability {
    /// Faster: old or new contents after a crash.
    DontSyncDir,
    /// Slower: the new contents survive a crash.
    SyncDir,
}

/// What went wrong during an atomic write.
#[derive(Debug, Clone)]
pub enum AtomicSaveError {
    /// The write machinery itself failed, with the underlying message.
    Internal(String),
    /// The caller's writer failed, with its message.
    User(String),
}

/// The parent of a path, as the standard path semantics give it.
pub uninterp spec fn parent_of(p: Seq<char>) -> Option<Seq<char>>;

/// Relies on std::path::Path::parent: the path without its final
/// component — `None` for a root, a prefix or the empty path. A pure
/// computation on the path text.
#[verifier::external_body]
fn path_parent(p: &str) -> (r: Option<String>)
    ensures
        match r {
            Some(q) => parent_of(p@) == Some(q@),
            None => parent_of(p@) is None,
        },
{
    std::path::Path::new(p).parent().and_then(|q| q.to_str()).map(|q| q.to_owned())
}

/// The parent directory to place the scratch files in: the path's parent,
/// with an empty parent read as the current directory.
pub fn safe_parent(p: &str) -> (r: Option<String>)
    ensures
        match parent_of(p@) {
            None => r is None,
            Some(q) => if q.len() == 0 {
                r matches Some(s) && s@ == "."@
            } else {
                r matches Some(s) && s@ == q
            },
        },
{
    match path_parent(p) {
        None => None,
        Some(q) => {
            if q.as_str().unicode_len() == 0 {
                Some(String::from_str("."))
            } else {
                Some(q)
            }
        },
    }
}

/// A pending atomic write: target path and policies.
#[derive(Debug)]
pub struct AtomicFile {
    path: String,
    overwrite: OverwriteBehavior,
    durability: Durability,
    tmpdir: String,
}

impl AtomicFile {
    /// An atomic write to `p`, with the scratch directory next to the
    /// target (same file system, so the final rename is atomic); a target
    /// without a usable parent scratches in the current directory.
    pub fn new(p: &str, overwrite: OverwriteBehavior, durability: Durability) -> (r: AtomicFile)
        ensures
            r.path_view() == p@,
            match parent_of(p@) {
                Some(q) => if q.len() == 0 {
                    r.tmpdir_view() == "."@
                } else {
                    r.tmpdir_view() == q
                },
                None => r.tmpdir_view() == "."@,
            },
    {
        match safe_parent(p) {
            Some(dir) => AtomicFile::new_with_tmpdir(p, overwrite, durability, dir.as_str()),
            None => AtomicFile::new_with_tmpdir(p, overwrite, durability, "."),
        }
    }

    /// An atomic write to `path` whose scratch directory is `tmpdir`.
    pub fn new_with_tmpdir(
        path: &str,
        overwrite: OverwriteBehavior,
        durability: Durability,
        tmpdir: &str,
    ) -> (r: AtomicFile)
        ensures
            r.path_view() == path@,
            r.tmpdir_view() == tmpdir@,
    {
        AtomicFile {
            path: path.to_owned(),
            overwrite,
            durability,
            tmpdir: tmpdir.to_owned(),
        }
    }

    /// The target path's text.
    pub closed spec fn path_view(&self) -> Seq<char> {
        self.path@
    }

    /// The scratch directory's text.
    pub closed spec fn tmpdir_view(&self) -> Seq<char> {
        self.tmpdir@
    }

    /// The target path.
    pub fn path(&self) -> (r: &String)
        ensures
            r@ == self.path_view(),
    {
        &self.path
    }

    /// The scratch directory.
    pub fn tmpdir(&self) -> (r: &String)
        ensures
            r@ == self.tmpdir_view(),
    {
        &self.tmpdir
    }

    /// The overwrite policy.
    pub fn overwrite(&self) -> OverwriteBehavior {
        self.overwrite
    }

    /// The durability policy.
    pub fn durability(&self) -> Durability {
        self.durability
    }
}

} // verus!
