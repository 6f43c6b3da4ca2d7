//! Archive entry names: a path with the source directory stripped from its
//! front, its components joined by `/`.
use vstd::prelude::*;
use vstd::string::StrSliceExecFns;
use vstd::string::StringExecFns;

verus! {

/// The components of a path, as character sequences.
pub open spec fn components_of(path: Seq<String>) -> Seq<Seq<char>> {
    path.map_values(|c: String| c@)
}

/// A component that may stand in an archive entry name: not empty, not a
/// reference to the current or the parent directory, and free of separators.
pub open spec fn is_name_component(c: Seq<char>) -> bool {
    &&& c.len() > 0
    &&& c != seq!['.']
    &&& c != seq!['.', '.']
    &&& !c.contains('/')
    &&& !c.contains('\\')
}

pub open spec fn all_name_components(cs: Seq<Seq<char>>) -> bool {
    forall|i: int| 0 <= i < cs.len() ==> is_name_component(#[trigger] cs[i])
}

/// `prefix` is made of the first components of `path`.
pub open spec fn has_prefix(path: Seq<Seq<char>>, prefix: Seq<Seq<char>>) -> bool {
    prefix.len() <= path.len() && path.subrange(0, prefix.len() as int) == prefix
}

/// What stays of `path` once `prefix` is taken from its front.
pub open spec fn strip(path: Seq<Seq<char>>, prefix: Seq<Seq<char>>) -> Seq<Seq<char>> {
    path.subrange(prefix.len() as int, path.len() as int)
}

/// The components joined with `/` between each two of them.
pub open spec fn join_slash(cs: Seq<Seq<char>>) -> Seq<char>
    decreases cs.len(),
{
    if cs.len() == 0 {
        Seq::empty()
    } else if cs.len() == 1 {
        cs[0]
    } else {
        join_slash(cs.drop_last()) + seq!['/'] + cs.last()
    }
}

/// Why a path cannot be named inside the archive.
#[derive(Debug, Clone, Copy, PartialEq, Eq)]
pub enum NameError {
    /// The path does not lie below the prefix, or a component below it
    /// cannot stand in a name: it is empty, `.` or `..`, or holds `/` or `\`.
    /// So a file whose own name holds a backslash is refused too.
    PrefixMismatch,
    /// The path is the prefix itself.
    EmptyEntryName,
}

/// The archive name of `path` below `prefix`, or why there is none.
pub open spec fn spec_entry_name(path: Seq<Seq<char>>, prefix: Seq<Seq<char>>) -> Result<
    Seq<char>,
    NameError,
> {
    if !has_prefix(path, prefix) {
        Err(NameError::PrefixMismatch)
    } else if strip(path, prefix).len() == 0 {
        Err(NameError::EmptyEntryName)
    } else if !all_name_components(strip(path, prefix)) {
        Err(NameError::PrefixMismatch)
    } else {
        Ok(join_slash(strip(path, prefix)))
    }
}

/// Whether `c` may stand in an archive entry name.
pub fn is_plain_component(c: &String) -> (r: bool)
    ensures
        r == is_name_component(c@),
{
    let s = c.as_str();
    let n = s.unicode_len();
    if n == 0 {
        return false;
    }
    let mut i: usize = 0;
    let mut dots: usize = 0;
    while i < n
        invariant
            n == c@.len(),
            s@ == c@,
            i <= n,
            dots <= i,
            forall|j: int| 0 <= j < i ==> c@[j] != '/' && c@[j] != '\\',
            dots == i <==> forall|j: int| 0 <= j < i ==> c@[j] == '.',
        decreases n - i,
    {
        let ch = s.get_char(i);
        if ch == '/' || ch == '\\' {
            assert(c@.contains(ch));
            return false;
        }
        if ch == '.' && dots == i {
            dots = dots + 1;
        }
        i = i + 1;
    }
    proof {
        assert(!c@.contains('/'));
        assert(!c@.contains('\\'));
        if n == 1 && dots == 1 {
            assert(c@ =~= seq!['.']);
        }
        if n == 2 && dots == 2 {
            assert(c@ =~= seq!['.', '.']);
        }
        if n == 1 && dots < 1 {
            assert(c@[0] != '.');
        }
        if n == 2 && dots < 2 {
            assert(c@[0] != '.' || c@[1] != '.');
        }
    }
    !(n <= 2 && dots == n)
}

/// The name under which the file at `path` is stored in an archive of the
/// directory `prefix`: the components of `path` below `prefix`, joined by `/`.
/// Every component below `prefix` must be a plain name: one that is empty,
/// `.` or `..`, or that holds `/` or `\` (on Unix a file may be called
/// `a\b`), gives `PrefixMismatch`, as does a path outside `prefix`.
pub fn entry_name(path: &Vec<String>, prefix: &Vec<String>) -> (r: Result<String, NameError>)
    ensures
        r matches Ok(n) ==> spec_entry_name(components_of(path@), components_of(prefix@)) == Ok::<
            Seq<char>,
            NameError,
        >(n@),
        r matches Err(e) ==> spec_entry_name(components_of(path@), components_of(prefix@)) == Err::<
            Seq<char>,
            NameError,
        >(e),
{
    let ghost p = components_of(path@);
    let ghost q = components_of(prefix@);
    if prefix.len() > path.len() {
        return Err(NameError::PrefixMismatch);
    }
    let mut i: usize = 0;
    while i < prefix.len()
        invariant
            prefix.len() <= path.len(),
            i <= prefix.len(),
            p == components_of(path@),
            q == components_of(prefix@),
            forall|j: int| 0 <= j < i ==> p[j] == q[j],
        decreases prefix.len() - i,
    {
        if path[i] != prefix[i] {
            assert(p.subrange(0, q.len() as int)[i as int] != q[i as int]);
            return Err(NameError::PrefixMismatch);
        }
        i = i + 1;
    }
    assert(p.subrange(0, q.len() as int) =~= q);
    let ghost rest = strip(p, q);
    if prefix.len() == path.len() {
        return Err(NameError::EmptyEntryName);
    }
    let mut name = String::new();
    let mut k: usize = prefix.len();
    while k < path.len()
        invariant
            prefix.len() < path.len(),
            prefix.len() <= k <= path.len(),
            p == components_of(path@),
            q == components_of(prefix@),
            rest == strip(p, q),
            has_prefix(p, q),
            forall|j: int| 0 <= j < k - prefix.len() ==> is_name_component(#[trigger] rest[j]),
            name@ == join_slash(rest.subrange(0, k - prefix.len())),
        decreases path.len() - k,
    {
        if !is_plain_component(&path[k]) {
            assert(!is_name_component(rest[k - prefix.len()]));
            return Err(NameError::PrefixMismatch);
        }
        let ghost before = rest.subrange(0, k - prefix.len());
        let ghost after = rest.subrange(0, k + 1 - prefix.len());
        assert(after.drop_last() =~= before);
        if k > prefix.len() {
            proof {
                reveal_strlit("/");
            }
            name.append("/");
        }
        name.append(path[k].as_str());
        k = k + 1;
    }
    assert(rest.subrange(0, rest.len() as int) =~= rest);
    Ok(name)
}

} // verus!

verus! {

/// The name of the archive made of directory `dir`: its last component
/// with `.zip` added, where that component is a plain name.
pub open spec fn spec_archive_name(dir: Seq<Seq<char>>) -> Option<Seq<char>> {
    if dir.len() > 0 && is_name_component(dir.last()) {
        Some(dir.last() + seq!['.', 'z', 'i', 'p'])
    } else {
        None
    }
}

/// The file name of the archive of directory `dir`, if its path ends in a
/// plain name.
pub fn archive_file_name(dir: &Vec<String>) -> (r: Option<String>)
    ensures
        r matches Some(n) ==> spec_archive_name(components_of(dir@)) == Some(n@),
        r is None ==> spec_archive_name(components_of(dir@)) is None,
{
    if dir.len() == 0 {
        return None;
    }
    let last = &dir[dir.len() - 1];
    if !is_plain_component(last) {
        return None;
    }
    let mut name = last.clone();
    proof {
        reveal_strlit(".zip");
    }
    name.append(".zip");
    assert(name@ =~= last@ + seq!['.', 'z', 'i', 'p']);
    Some(name)
}

} // verus!
