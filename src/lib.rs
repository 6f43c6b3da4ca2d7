//! Packs the in-scope files of a directory into one zip archive.
//!
//! The library holds the decisions: which walked entries become archive
//! entries, under which names, and in which order they are handed to the
//! zip writer. Walking the tree and touching the disk is left to the caller.
pub mod archive;
pub mod entry_name;
pub mod laws;
pub mod plan;

use crate::archive::{zip_archive, Archive, Compression, ENTRY_MODE};
use crate::entry_name::{archive_file_name, components_of, spec_archive_name};
use crate::plan::{archive_plan, build_archive, contents_fit, ArchiveError, ScopeEntry};
use vstd::prelude::*;

verus! {

/// Why a directory cannot be packed.
#[derive(Debug, Clone, Copy, PartialEq, Eq)]
pub enum RootError {
    /// The path is missing or is not a directory.
    InvalidRoot,
}

/// One packing job: the directory to pack and, where its path ends in a
/// plain name, the name of its archive.
pub struct App {
    zip_dir: Vec<String>,
    archive_name: Option<String>,
}

impl App {
    /// The components of the directory to pack.
    pub closed spec fn dir(&self) -> Seq<Seq<char>> {
        components_of(self.zip_dir@)
    }

    /// The file name of the archive: the directory's base name and `.zip`.
    pub closed spec fn spec_archive_name(&self) -> Option<Seq<char>> {
        match self.archive_name {
            Some(n) => Some(n@),
            None => None,
        }
    }

    /// A job for the directory whose path has the components `zip_dir`;
    /// `is_dir` says whether that path is an existing directory. Only that
    /// is checked here: a path with no base name is refused by `run`.
    pub fn new(zip_dir: Vec<String>, is_dir: bool) -> (r: Result<App, RootError>)
        ensures
            !is_dir ==> r == Err::<App, RootError>(RootError::InvalidRoot),
            is_dir ==> (r matches Ok(app) && app.dir() == components_of(zip_dir@)
                && app.spec_archive_name() == spec_archive_name(components_of(zip_dir@))),
    {
        if !is_dir {
            return Err(RootError::InvalidRoot);
        }
        let archive_name = archive_file_name(&zip_dir);
        Ok(App { zip_dir, archive_name })
    }

    pub fn zip_dir(&self) -> (r: &Vec<String>)
        ensures
            components_of(r@) == self.dir(),
    {
        &self.zip_dir
    }

    /// The file name of the archive, where the directory has a base name.
    pub fn archive_name(&self) -> (r: Option<&String>)
        ensures
            r matches Some(n) ==> self.spec_archive_name() == Some(n@),
            r is None ==> self.spec_archive_name() is None,
    {
        match &self.archive_name {
            Some(n) => Some(n),
            None => None,
        }
    }

    /// Packs the walked `entries` of the directory, each file deflated and
    /// stamped with mode `ENTRY_MODE`; `contents[i]` is what reading the file
    /// of `entries[i]` gave. It succeeds exactly when the directory has a base
    /// name, every file has a name below it and was read in full (and no file
    /// is longer than `MAX_ENTRY_BYTES`); otherwise the first error comes back.
    pub fn run(&self, entries: &Vec<ScopeEntry>, contents: &Vec<Option<Vec<u8>>>) -> (r: Result<
        Archive,
        ArchiveError,
    >)
        requires
            contents.len() == entries.len(),
        ensures
            self.spec_archive_name() is None ==> r == Err::<Archive, ArchiveError>(
                ArchiveError::NoBaseName,
            ),
            r matches Ok(a) ==> {
                &&& self.spec_archive_name() is Some
                &&& archive_plan(entries@, self.dir(), contents@) == Ok::<
                    Seq<(Seq<char>, Seq<u8>)>,
                    ArchiveError,
                >(a.entries())
                &&& a.method() == Compression::Deflated
                &&& a.mode() == ENTRY_MODE
                &&& a.spec_bytes() == zip_archive(a.entries(), Compression::Deflated, ENTRY_MODE)
            },
            r matches Err(e) ==> e == ArchiveError::Write || e == ArchiveError::NoBaseName
                || archive_plan(entries@, self.dir(), contents@) == Err::<
                Seq<(Seq<char>, Seq<u8>)>,
                ArchiveError,
            >(e),
            self.spec_archive_name() is Some ==> (archive_plan(entries@, self.dir(), contents@) matches Err(
                e,
            ) ==> r == Err::<Archive, ArchiveError>(e)),
            self.spec_archive_name() is Some && archive_plan(entries@, self.dir(), contents@) is Ok
                && contents_fit(contents@) ==> r is Ok,
    {
        if self.archive_name.is_none() {
            return Err(ArchiveError::NoBaseName);
        }
        build_archive(entries, &self.zip_dir, contents, Compression::Deflated)
    }
}

} // verus!
