//! Which walked entries become archive entries, under which names, with
//! which content.
use crate::archive::{
    entries_fit, write_archive, zip_archive, Archive, Compression, ENTRY_MODE, MAX_ENTRY_BYTES,
};
use crate::entry_name::{components_of, entry_name, spec_entry_name, NameError};
use vstd::prelude::*;

verus! {

/// One path met while walking the source directory, given as its
/// components, and whether it is a file. Only files are archived.
#[derive(Debug)]
pub struct ScopeEntry {
    pub path: Vec<String>,
    pub is_file: bool,
}

/// Why no archive was built. Each index points into the walked entries.
#[derive(Debug, Clone, Copy, PartialEq, Eq)]
pub enum ArchiveError {
    /// The entry does not lie below the source directory.
    PrefixMismatch { index: usize },
    /// The entry is the source directory itself.
    EmptyEntryName { index: usize },
    /// The file could not be read in full.
    EntryRead { index: usize },
    /// The zip writer refused an entry or could not finish.
    Write,
    /// The source directory's path does not end in a plain name to call
    /// the archive by.
    NoBaseName,
}

pub open spec fn from_name_error(e: NameError, index: int) -> ArchiveError {
    match e {
        NameError::PrefixMismatch => ArchiveError::PrefixMismatch { index: index as usize },
        NameError::EmptyEntryName => ArchiveError::EmptyEntryName { index: index as usize },
    }
}

/// The entries of the archive made of the first `n` walked entries: one per
/// file, in walking order, named below `prefix`; or the error at the first
/// file that has no name or no content.
pub open spec fn plan_upto(
    entries: Seq<ScopeEntry>,
    prefix: Seq<Seq<char>>,
    contents: Seq<Option<Vec<u8>>>,
    n: nat,
) -> Result<Seq<(Seq<char>, Seq<u8>)>, ArchiveError>
    decreases n,
{
    if n == 0 {
        Ok(Seq::empty())
    } else {
        match plan_upto(entries, prefix, contents, (n - 1) as nat) {
            Err(e) => Err(e),
            Ok(done) => {
                let i = n - 1;
                if !entries[i].is_file {
                    Ok(done)
                } else {
                    match spec_entry_name(components_of(entries[i].path@), prefix) {
                        Err(e) => Err(from_name_error(e, i)),
                        Ok(name) => match contents[i] {
                            None => Err(ArchiveError::EntryRead { index: i as usize }),
                            Some(bytes) => Ok(done.push((name, bytes@))),
                        },
                    }
                }
            },
        }
    }
}

/// The archive's entries for all walked `entries`, where `contents[i]` is
/// what reading the file of `entries[i]` gave.
pub open spec fn archive_plan(
    entries: Seq<ScopeEntry>,
    prefix: Seq<Seq<char>>,
    contents: Seq<Option<Vec<u8>>>,
) -> Result<Seq<(Seq<char>, Seq<u8>)>, ArchiveError> {
    plan_upto(entries, prefix, contents, entries.len())
}

/// Once the plan has failed, it fails with the same error on any longer
/// prefix of the entries.
pub proof fn lemma_plan_error_stays(
    entries: Seq<ScopeEntry>,
    prefix: Seq<Seq<char>>,
    contents: Seq<Option<Vec<u8>>>,
    n: nat,
    m: nat,
)
    requires
        n <= m,
        plan_upto(entries, prefix, contents, n) is Err,
    ensures
        plan_upto(entries, prefix, contents, m) == plan_upto(entries, prefix, contents, n),
    decreases m - n,
{
    if n < m {
        lemma_plan_error_stays(entries, prefix, contents, n, (m - 1) as nat);
    }
}

/// Every file content that was read is at most `MAX_ENTRY_BYTES` long.
pub open spec fn contents_fit(contents: Seq<Option<Vec<u8>>>) -> bool {
    forall|i: int|
        0 <= i < contents.len() && (#[trigger] contents[i]) is Some ==> contents[i]->Some_0@.len()
            <= MAX_ENTRY_BYTES
}

pub open spec fn files_view(files: Seq<(String, Vec<u8>)>) -> Seq<(Seq<char>, Seq<u8>)> {
    files.map_values(|f: (String, Vec<u8>)| (f.0@, f.1@))
}

fn copy_bytes(b: &Vec<u8>) -> (r: Vec<u8>)
    ensures
        r@ == b@,
{
    let mut r: Vec<u8> = Vec::new();
    let mut i: usize = 0;
    while i < b.len()
        invariant
            i <= b.len(),
            r@ == b@.subrange(0, i as int),
        decreases b.len() - i,
    {
        r.push(b[i]);
        i = i + 1;
        assert(r@ =~= b@.subrange(0, i as int));
    }
    assert(b@.subrange(0, b.len() as int) =~= b@);
    r
}

/// The name and content of each file among `entries`, in walking order.
pub fn plan_archive(
    entries: &Vec<ScopeEntry>,
    prefix: &Vec<String>,
    contents: &Vec<Option<Vec<u8>>>,
) -> (r: Result<Vec<(String, Vec<u8>)>, ArchiveError>)
    requires
        contents.len() == entries.len(),
    ensures
        r matches Ok(files) ==> archive_plan(entries@, components_of(prefix@), contents@) == Ok::<
            Seq<(Seq<char>, Seq<u8>)>,
            ArchiveError,
        >(files_view(files@)),
        r matches Err(e) ==> archive_plan(entries@, components_of(prefix@), contents@) == Err::<
            Seq<(Seq<char>, Seq<u8>)>,
            ArchiveError,
        >(e),
        r matches Ok(files) ==> (contents_fit(contents@) ==> entries_fit(files_view(files@))),
{
    let ghost q = components_of(prefix@);
    let mut files: Vec<(String, Vec<u8>)> = Vec::new();
    let mut i: usize = 0;
    assert(files_view(files@) =~= Seq::<(Seq<char>, Seq<u8>)>::empty());
    while i < entries.len()
        invariant
            contents.len() == entries.len(),
            i <= entries.len(),
            q == components_of(prefix@),
            plan_upto(entries@, q, contents@, i as nat) == Ok::<
                Seq<(Seq<char>, Seq<u8>)>,
                ArchiveError,
            >(files_view(files@)),
            contents_fit(contents@) ==> entries_fit(files_view(files@)),
        decreases entries.len() - i,
    {
        let entry = &entries[i];
        if entry.is_file {
            match entry_name(&entry.path, prefix) {
                Err(NameError::PrefixMismatch) => {
                    proof {
                        lemma_plan_error_stays(entries@, q, contents@, (i + 1) as nat, entries@.len());
                    }
                    return Err(ArchiveError::PrefixMismatch { index: i });
                },
                Err(NameError::EmptyEntryName) => {
                    proof {
                        lemma_plan_error_stays(entries@, q, contents@, (i + 1) as nat, entries@.len());
                    }
                    return Err(ArchiveError::EmptyEntryName { index: i });
                },
                Ok(name) => match &contents[i] {
                    None => {
                        proof {
                            lemma_plan_error_stays(entries@, q, contents@, (i + 1) as nat, entries@.len());
                        }
                        return Err(ArchiveError::EntryRead { index: i });
                    },
                    Some(bytes) => {
                        let ghost before = files@;
                        files.push((name, copy_bytes(bytes)));
                        assert(files_view(files@) =~= files_view(before).push(
                            (name@, bytes@),
                        ));
                        assert(contents@[i as int] is Some);
                    },
                },
            }
        }
        i = i + 1;
    }
    Ok(files)
}

/// Builds the archive of the files among `entries`, named below `prefix`,
/// each stored with `method` and mode `ENTRY_MODE`. The archive is made
/// exactly when every file has a name below `prefix` and was read in full
/// (and no file is longer than `MAX_ENTRY_BYTES`); it then holds exactly
/// those files, in walking order. Otherwise the error of the first file
/// that failed comes back.
pub fn build_archive(
    entries: &Vec<ScopeEntry>,
    prefix: &Vec<String>,
    contents: &Vec<Option<Vec<u8>>>,
    method: Compression,
) -> (r: Result<Archive, ArchiveError>)
    requires
        contents.len() == entries.len(),
    ensures
        r matches Ok(a) ==> {
            &&& archive_plan(entries@, components_of(prefix@), contents@) == Ok::<
                Seq<(Seq<char>, Seq<u8>)>,
                ArchiveError,
            >(a.entries())
            &&& a.method() == method
            &&& a.mode() == ENTRY_MODE
            &&& a.spec_bytes() == zip_archive(a.entries(), method, ENTRY_MODE)
        },
        r matches Err(e) ==> e == ArchiveError::Write || archive_plan(
            entries@,
            components_of(prefix@),
            contents@,
        ) == Err::<Seq<(Seq<char>, Seq<u8>)>, ArchiveError>(e),
        archive_plan(entries@, components_of(prefix@), contents@) matches Err(e) ==> r == Err::<
            Archive,
            ArchiveError,
        >(e),
        archive_plan(entries@, components_of(prefix@), contents@) is Ok && contents_fit(contents@)
            ==> r is Ok,
{
    let files = plan_archive(entries, prefix, contents)?;
    match write_archive(&files, method) {
        Ok(a) => Ok(a),
        Err(_) => Err(ArchiveError::Write),
    }
}

} // verus!
