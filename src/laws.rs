//! What holds of every archive plan.
use crate::entry_name::{
    all_name_components, components_of, is_name_component, join_slash, spec_entry_name, strip,
};
use crate::plan::{archive_plan, plan_upto, ScopeEntry};
use vstd::prelude::*;

verus! {

/// Entry `i` is a file whose name below `prefix` is `name` and whose content
/// was read as `bytes`.
pub open spec fn archives_as(
    entries: Seq<ScopeEntry>,
    prefix: Seq<Seq<char>>,
    contents: Seq<Option<Vec<u8>>>,
    i: int,
    name: Seq<char>,
    bytes: Seq<u8>,
) -> bool {
    &&& 0 <= i < entries.len()
    &&& entries[i].is_file
    &&& spec_entry_name(components_of(entries[i].path@), prefix) == Ok::<
        Seq<char>,
        crate::entry_name::NameError,
    >(name)
    &&& contents[i] matches Some(b) && b@ == bytes
}

/// Some walked entry is a file archived as `name` with content `bytes`.
pub open spec fn is_walked_file(
    entries: Seq<ScopeEntry>,
    prefix: Seq<Seq<char>>,
    contents: Seq<Option<Vec<u8>>>,
    name: Seq<char>,
    bytes: Seq<u8>,
) -> bool {
    exists|i: int| archives_as(entries, prefix, contents, i, name, bytes)
}

/// The archive entry of the walked file `entries[i]`.
pub open spec fn file_entry(
    entries: Seq<ScopeEntry>,
    prefix: Seq<Seq<char>>,
    contents: Seq<Option<Vec<u8>>>,
    i: int,
) -> (Seq<char>, Seq<u8>) {
    (
        spec_entry_name(components_of(entries[i].path@), prefix)->Ok_0,
        contents[i]->Some_0@,
    )
}

proof fn lemma_plan_entries_are_files(
    entries: Seq<ScopeEntry>,
    prefix: Seq<Seq<char>>,
    contents: Seq<Option<Vec<u8>>>,
    n: nat,
)
    requires
        n <= entries.len(),
        plan_upto(entries, prefix, contents, n) is Ok,
    ensures
        forall|k: int|
            0 <= k < plan_upto(entries, prefix, contents, n)->Ok_0.len() ==> is_walked_file(
                entries,
                prefix,
                contents,
                #[trigger] plan_upto(entries, prefix, contents, n)->Ok_0[k].0,
                plan_upto(entries, prefix, contents, n)->Ok_0[k].1,
            ),
    decreases n,
{
    if n > 0 {
        let m = (n - 1) as nat;
        lemma_plan_entries_are_files(entries, prefix, contents, m);
        let done = plan_upto(entries, prefix, contents, m)->Ok_0;
        let now = plan_upto(entries, prefix, contents, n)->Ok_0;
        assert(now.subrange(0, done.len() as int) == done);
        assert forall|k: int| 0 <= k < now.len() implies is_walked_file(
            entries,
            prefix,
            contents,
            #[trigger] now[k].0,
            now[k].1,
        ) by {
            if k < done.len() {
                assert(now[k] == now.subrange(0, done.len() as int)[k]);
                assert(is_walked_file(entries, prefix, contents, done[k].0, done[k].1));
            } else {
                assert(archives_as(entries, prefix, contents, m as int, now[k].0, now[k].1));
            }
        }
    }
}

proof fn lemma_files_are_plan_entries(
    entries: Seq<ScopeEntry>,
    prefix: Seq<Seq<char>>,
    contents: Seq<Option<Vec<u8>>>,
    n: nat,
)
    requires
        n <= entries.len(),
        plan_upto(entries, prefix, contents, n) is Ok,
    ensures
        forall|i: int|
            0 <= i < n && #[trigger] entries[i].is_file ==> plan_upto(
                entries,
                prefix,
                contents,
                n,
            )->Ok_0.contains(file_entry(entries, prefix, contents, i)) && archives_as(
                entries,
                prefix,
                contents,
                i,
                file_entry(entries, prefix, contents, i).0,
                file_entry(entries, prefix, contents, i).1,
            ),
    decreases n,
{
    if n > 0 {
        let m = (n - 1) as nat;
        lemma_files_are_plan_entries(entries, prefix, contents, m);
        let done = plan_upto(entries, prefix, contents, m)->Ok_0;
        let now = plan_upto(entries, prefix, contents, n)->Ok_0;
        assert(now.subrange(0, done.len() as int) == done);
        assert forall|i: int| 0 <= i < n && #[trigger] entries[i].is_file implies now.contains(
            file_entry(entries, prefix, contents, i),
        ) && archives_as(
            entries,
            prefix,
            contents,
            i,
            file_entry(entries, prefix, contents, i).0,
            file_entry(entries, prefix, contents, i).1,
        ) by {
            if i < m {
                let k = choose|k: int|
                    0 <= k < done.len() && done[k] == file_entry(entries, prefix, contents, i);
                assert(now[k] == now.subrange(0, done.len() as int)[k]);
            } else {
                assert(now[now.len() - 1] == file_entry(entries, prefix, contents, i));
            }
        }
    }
}

/// An archive holds exactly the walked files: each entry is one of them,
/// under its name below the prefix and with its content, and each of them
/// is an entry. Nothing else is archived and nothing is left out.
pub proof fn lemma_archive_holds_exactly_the_files(
    entries: Seq<ScopeEntry>,
    prefix: Seq<Seq<char>>,
    contents: Seq<Option<Vec<u8>>>,
)
    requires
        archive_plan(entries, prefix, contents) is Ok,
    ensures
        forall|k: int|
            0 <= k < archive_plan(entries, prefix, contents)->Ok_0.len() ==> is_walked_file(
                entries,
                prefix,
                contents,
                #[trigger] archive_plan(entries, prefix, contents)->Ok_0[k].0,
                archive_plan(entries, prefix, contents)->Ok_0[k].1,
            ),
        forall|i: int|
            0 <= i < entries.len() && #[trigger] entries[i].is_file ==> archive_plan(
                entries,
                prefix,
                contents,
            )->Ok_0.contains(file_entry(entries, prefix, contents, i)) && archives_as(
                entries,
                prefix,
                contents,
                i,
                file_entry(entries, prefix, contents, i).0,
                file_entry(entries, prefix, contents, i).1,
            ),
{
    lemma_plan_entries_are_files(entries, prefix, contents, entries.len());
    lemma_files_are_plan_entries(entries, prefix, contents, entries.len());
}

/// `name` is plain components joined by `/`: not empty, not rooted, and
/// with no component that refers to the current or the parent directory.
pub open spec fn is_relative_name(name: Seq<char>) -> bool {
    exists|cs: Seq<Seq<char>>|
        cs.len() > 0 && all_name_components(cs) && #[trigger] join_slash(cs) == name
}

proof fn lemma_join_starts_with_first(cs: Seq<Seq<char>>)
    requires
        cs.len() > 0,
        all_name_components(cs),
    ensures
        join_slash(cs).len() > 0,
        join_slash(cs)[0] == cs[0][0],
    decreases cs.len(),
{
    assert(is_name_component(cs[0]));
    if cs.len() > 1 {
        let d = cs.drop_last();
        assert forall|i: int| 0 <= i < d.len() implies is_name_component(#[trigger] d[i]) by {
            assert(d[i] == cs[i]);
        }
        lemma_join_starts_with_first(d);
    }
}

/// Every archive entry is named relative to the source directory: the name
/// is not empty, does not start with `/`, and holds no `..` or `.` step.
pub proof fn lemma_entry_names_are_relative(
    entries: Seq<ScopeEntry>,
    prefix: Seq<Seq<char>>,
    contents: Seq<Option<Vec<u8>>>,
)
    requires
        archive_plan(entries, prefix, contents) is Ok,
    ensures
        forall|k: int|
            0 <= k < archive_plan(entries, prefix, contents)->Ok_0.len() ==> {
                let name = #[trigger] archive_plan(entries, prefix, contents)->Ok_0[k].0;
                &&& is_relative_name(name)
                &&& name.len() > 0
                &&& name[0] != '/'
            },
{
    lemma_archive_holds_exactly_the_files(entries, prefix, contents);
    let s = archive_plan(entries, prefix, contents)->Ok_0;
    assert forall|k: int| 0 <= k < s.len() implies {
        let name = #[trigger] s[k].0;
        &&& is_relative_name(name)
        &&& name.len() > 0
        &&& name[0] != '/'
    } by {
        assert(is_walked_file(entries, prefix, contents, s[k].0, s[k].1));
        let i = choose|i: int| archives_as(entries, prefix, contents, i, s[k].0, s[k].1);
        let cs = strip(components_of(entries[i].path@), prefix);
        assert(join_slash(cs) == s[k].0);
        lemma_join_starts_with_first(cs);
        assert(is_name_component(cs[0]));
        assert(cs[0].contains(cs[0][0]));
    }
}

/// Walks that agree on every entry's path, kind and content give the same
/// archive entries: packing an unchanged tree twice gives equal archives.
pub proof fn lemma_same_walk_same_entries(
    first: Seq<ScopeEntry>,
    second: Seq<ScopeEntry>,
    prefix: Seq<Seq<char>>,
    first_contents: Seq<Option<Vec<u8>>>,
    second_contents: Seq<Option<Vec<u8>>>,
)
    requires
        first.len() == second.len(),
        first_contents.len() == first.len(),
        second_contents.len() == second.len(),
        forall|i: int|
            0 <= i < first.len() ==> components_of(#[trigger] first[i].path@) == components_of(
                second[i].path@,
            ) && first[i].is_file == second[i].is_file,
        forall|i: int|
            0 <= i < first.len() ==> (#[trigger] first_contents[i] is Some) == (
            second_contents[i] is Some) && (first_contents[i] is Some ==> first_contents[i]->Some_0@
                == second_contents[i]->Some_0@),
    ensures
        archive_plan(first, prefix, first_contents) == archive_plan(
            second,
            prefix,
            second_contents,
        ),
{
    lemma_same_walk_same_plan_upto(first, second, prefix, first_contents, second_contents, first.len());
}

proof fn lemma_same_walk_same_plan_upto(
    first: Seq<ScopeEntry>,
    second: Seq<ScopeEntry>,
    prefix: Seq<Seq<char>>,
    first_contents: Seq<Option<Vec<u8>>>,
    second_contents: Seq<Option<Vec<u8>>>,
    n: nat,
)
    requires
        n <= first.len(),
        first.len() == second.len(),
        first_contents.len() == first.len(),
        second_contents.len() == second.len(),
        forall|i: int|
            0 <= i < first.len() ==> components_of(#[trigger] first[i].path@) == components_of(
                second[i].path@,
            ) && first[i].is_file == second[i].is_file,
        forall|i: int|
            0 <= i < first.len() ==> (#[trigger] first_contents[i] is Some) == (
            second_contents[i] is Some) && (first_contents[i] is Some ==> first_contents[i]->Some_0@
                == second_contents[i]->Some_0@),
    ensures
        plan_upto(first, prefix, first_contents, n) == plan_upto(
            second,
            prefix,
            second_contents,
            n,
        ),
    decreases n,
{
    if n > 0 {
        lemma_same_walk_same_plan_upto(
            first,
            second,
            prefix,
            first_contents,
            second_contents,
            (n - 1) as nat,
        );
        let i = n - 1;
        assert(components_of(first[i].path@) == components_of(second[i].path@));
        assert(first_contents[i] is Some == second_contents[i] is Some);
    }
}

/// The last component of a join is what follows its last `/`: two joins of
/// plain components are equal only when the components are.
proof fn lemma_join_injective(a: Seq<Seq<char>>, b: Seq<Seq<char>>)
    requires
        a.len() > 0,
        b.len() > 0,
        all_name_components(a),
        all_name_components(b),
        join_slash(a) == join_slash(b),
    ensures
        a == b,
    decreases a.len() + b.len(),
{
    let x = join_slash(a);
    assert(is_name_component(a.last()));
    assert(is_name_component(b.last()));
    if a.len() == 1 && b.len() == 1 {
        assert(a =~= b);
    } else if a.len() == 1 {
        let jb = join_slash(b.drop_last());
        assert(x[jb.len() as int] == '/');
        assert(a[0].contains(x[jb.len() as int]));
    } else if b.len() == 1 {
        let ja = join_slash(a.drop_last());
        assert(x[ja.len() as int] == '/');
        assert(b[0].contains(x[ja.len() as int]));
    } else {
        let ja = join_slash(a.drop_last());
        let jb = join_slash(b.drop_last());
        let la = a.last();
        let lb = b.last();
        if la.len() < lb.len() {
            let p = x.len() - la.len() - 1;
            assert(x[p] == '/');
            assert(lb[p - jb.len() - 1] == x[p]);
            assert(lb.contains(x[p]));
        } else if lb.len() < la.len() {
            let p = x.len() - lb.len() - 1;
            assert(x[p] == '/');
            assert(la[p - ja.len() - 1] == x[p]);
            assert(la.contains(x[p]));
        } else {
            assert(la =~= x.subrange(x.len() - la.len(), x.len() as int));
            assert(lb =~= x.subrange(x.len() - lb.len(), x.len() as int));
            assert(ja =~= x.subrange(0, ja.len() as int));
            assert(jb =~= x.subrange(0, jb.len() as int));
            let da = a.drop_last();
            let db = b.drop_last();
            assert forall|i: int| 0 <= i < da.len() implies is_name_component(#[trigger] da[i]) by {
                assert(da[i] == a[i]);
            }
            assert forall|i: int| 0 <= i < db.len() implies is_name_component(#[trigger] db[i]) by {
                assert(db[i] == b[i]);
            }
            lemma_join_injective(da, db);
            assert(a =~= da.push(la));
            assert(b =~= db.push(lb));
        }
    }
}

/// Some walked entry before the `n`-th is a file archived as `name` with
/// content `bytes`.
pub open spec fn is_walked_file_before(
    entries: Seq<ScopeEntry>,
    prefix: Seq<Seq<char>>,
    contents: Seq<Option<Vec<u8>>>,
    name: Seq<char>,
    bytes: Seq<u8>,
    n: int,
) -> bool {
    exists|i: int| 0 <= i < n && archives_as(entries, prefix, contents, i, name, bytes)
}

/// The walked files have pairwise different paths.
pub open spec fn distinct_file_paths(entries: Seq<ScopeEntry>) -> bool {
    forall|i: int, j: int|
        0 <= i < j < entries.len() && #[trigger] entries[i].is_file && #[trigger] entries[j].is_file
            ==> components_of(entries[i].path@) != components_of(entries[j].path@)
}

/// Archive names are pairwise different.
pub open spec fn distinct_names(s: Seq<(Seq<char>, Seq<u8>)>) -> bool {
    forall|k1: int, k2: int| 0 <= k1 < k2 < s.len() ==> #[trigger] s[k1].0 != #[trigger] s[k2].0
}

proof fn lemma_plan_names_distinct_upto(
    entries: Seq<ScopeEntry>,
    prefix: Seq<Seq<char>>,
    contents: Seq<Option<Vec<u8>>>,
    n: nat,
)
    requires
        n <= entries.len(),
        plan_upto(entries, prefix, contents, n) is Ok,
        distinct_file_paths(entries),
    ensures
        distinct_names(plan_upto(entries, prefix, contents, n)->Ok_0),
        forall|k: int|
            0 <= k < plan_upto(entries, prefix, contents, n)->Ok_0.len() ==> is_walked_file_before(
                entries,
                prefix,
                contents,
                #[trigger] plan_upto(entries, prefix, contents, n)->Ok_0[k].0,
                plan_upto(entries, prefix, contents, n)->Ok_0[k].1,
                n as int,
            ),
    decreases n,
{
    if n > 0 {
        let m = (n - 1) as nat;
        lemma_plan_names_distinct_upto(entries, prefix, contents, m);
        let done = plan_upto(entries, prefix, contents, m)->Ok_0;
        let now = plan_upto(entries, prefix, contents, n)->Ok_0;
        assert(now.subrange(0, done.len() as int) == done);
        assert forall|k: int| 0 <= k < now.len() implies is_walked_file_before(
            entries,
            prefix,
            contents,
            #[trigger] now[k].0,
            now[k].1,
            n as int,
        ) by {
            if k < done.len() {
                assert(now[k] == now.subrange(0, done.len() as int)[k]);
                assert(is_walked_file_before(entries, prefix, contents, done[k].0, done[k].1, m as int));
            } else {
                assert(archives_as(entries, prefix, contents, m as int, now[k].0, now[k].1));
            }
        }
        assert forall|k1: int, k2: int| 0 <= k1 < k2 < now.len() implies #[trigger] now[k1].0
            != #[trigger] now[k2].0 by {
            assert(now[k1] == now.subrange(0, done.len() as int)[k1]);
            if k2 < done.len() {
                assert(now[k2] == now.subrange(0, done.len() as int)[k2]);
                assert(done[k1].0 != done[k2].0);
            } else {
                assert(is_walked_file_before(entries, prefix, contents, done[k1].0, done[k1].1, m as int));
                let i = choose|i: int|
                    0 <= i < m && archives_as(entries, prefix, contents, i, done[k1].0, done[k1].1);
                let pi = components_of(entries[i].path@);
                let pm = components_of(entries[m as int].path@);
                assert(archives_as(entries, prefix, contents, m as int, now[k2].0, now[k2].1));
                if now[k1].0 == now[k2].0 {
                    lemma_join_injective(strip(pi, prefix), strip(pm, prefix));
                    assert(pi =~= pi.subrange(0, prefix.len() as int) + strip(pi, prefix));
                    assert(pm =~= pm.subrange(0, prefix.len() as int) + strip(pm, prefix));
                    assert(entries[i].is_file && entries[m as int].is_file);
                    assert(pi != pm);
                }
            }
        }
    }
}

/// Walked files with different paths get different archive names: no two
/// entries of an archive share a name.
pub proof fn lemma_entry_names_are_distinct(
    entries: Seq<ScopeEntry>,
    prefix: Seq<Seq<char>>,
    contents: Seq<Option<Vec<u8>>>,
)
    requires
        archive_plan(entries, prefix, contents) is Ok,
        distinct_file_paths(entries),
    ensures
        distinct_names(archive_plan(entries, prefix, contents)->Ok_0),
{
    lemma_plan_names_distinct_upto(entries, prefix, contents, entries.len());
}

} // verus!
