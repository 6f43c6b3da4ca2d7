use packdir::archive::Compression;
use packdir::entry_name::{archive_file_name, entry_name, is_plain_component, NameError};
use packdir::plan::{build_archive, plan_archive, ArchiveError, ScopeEntry};
use packdir::{App, RootError};
use std::io::Read;

fn path(parts: &[&str]) -> Vec<String> {
    parts.iter().map(|p| p.to_string()).collect()
}

fn dir(parts: &[&str]) -> ScopeEntry {
    ScopeEntry { path: path(parts), is_file: false }
}

fn file(parts: &[&str]) -> ScopeEntry {
    ScopeEntry { path: path(parts), is_file: true }
}

fn read_back(bytes: &[u8]) -> Vec<(String, String)> {
    let mut zip = zip::ZipArchive::new(std::io::Cursor::new(bytes.to_vec())).unwrap();
    let mut out = Vec::new();
    for i in 0..zip.len() {
        let mut f = zip.by_index(i).unwrap();
        let mut s = String::new();
        f.read_to_string(&mut s).unwrap();
        out.push((f.name().to_string(), s));
    }
    out
}

#[test]
fn test() {
    let app = App::new(path(&[".", "assignment1"]), true).unwrap();
    assert_eq!(app.archive_name().map(|n| n.as_str()), Some("assignment1.zip"));
    let entries = vec![dir(&[".", "assignment1"]), file(&[".", "assignment1", "hello.c"])];
    let contents = vec![None, Some(b"hello world".to_vec())];
    let archive = app.run(&entries, &contents).unwrap();
    let files = read_back(archive.bytes());
    assert_eq!(files, vec![("hello.c".to_string(), "hello world".to_string())]);
}

#[test]
fn ignored_build_dir_leaves_one_entry() {
    // The walk has already pruned `build/` and skipped the hidden `.gitignore`.
    let app = App::new(path(&["proj"]), true).unwrap();
    assert_eq!(app.archive_name().map(|n| n.as_str()), Some("proj.zip"));
    let entries = vec![dir(&["proj"]), file(&["proj", "a.txt"])];
    let contents = vec![None, Some(b"hi".to_vec())];
    let archive = app.run(&entries, &contents).unwrap();
    assert_eq!(read_back(archive.bytes()), vec![("a.txt".to_string(), "hi".to_string())]);
}

#[test]
fn missing_source_dir_is_refused() {
    assert!(matches!(App::new(path(&["nope"]), false), Err(RootError::InvalidRoot)));
}

#[test]
fn dir_without_base_name_is_refused_by_run() {
    for parts in [vec!["."], vec!["a", ".."], vec!["/"], Vec::new()] {
        let app = App::new(path(&parts), true).unwrap();
        assert_eq!(app.archive_name(), None);
        let entries = vec![file(&[".", "a.txt"])];
        let contents = vec![Some(b"a".to_vec())];
        assert!(matches!(app.run(&entries, &contents), Err(ArchiveError::NoBaseName)));
    }
}

#[test]
fn existing_dir_is_always_accepted() {
    let app = App::new(path(&["."]), true).unwrap();
    assert_eq!(app.zip_dir(), &path(&["."]));
}

#[test]
fn unreadable_file_aborts_the_run() {
    let app = App::new(path(&["proj"]), true).unwrap();
    let entries = vec![file(&["proj", "a.txt"]), file(&["proj", "b.txt"])];
    let contents = vec![Some(b"a".to_vec()), None];
    assert!(matches!(app.run(&entries, &contents), Err(ArchiveError::EntryRead { index: 1 })));
    let contents = vec![None, None];
    assert!(matches!(app.run(&entries, &contents), Err(ArchiveError::EntryRead { index: 0 })));
}

#[test]
fn nested_files_keep_their_relative_paths() {
    let app = App::new(path(&["root"]), true).unwrap();
    let entries = vec![
        dir(&["root"]),
        file(&["root", "top.txt"]),
        dir(&["root", "src"]),
        file(&["root", "src", "main.c"]),
        dir(&["root", "src", "deep"]),
        file(&["root", "src", "deep", "x.h"]),
    ];
    let contents = vec![
        None,
        Some(b"t".to_vec()),
        None,
        Some(b"int main;".to_vec()),
        None,
        Some(Vec::new()),
    ];
    let archive = app.run(&entries, &contents).unwrap();
    assert_eq!(
        read_back(archive.bytes()),
        vec![
            ("top.txt".to_string(), "t".to_string()),
            ("src/main.c".to_string(), "int main;".to_string()),
            ("src/deep/x.h".to_string(), String::new()),
        ]
    );
}

#[test]
fn packing_twice_gives_the_same_entries() {
    let app = App::new(path(&["p"]), true).unwrap();
    let entries = vec![file(&["p", "one"]), dir(&["p", "d"]), file(&["p", "d", "two"])];
    let contents = vec![Some(b"1".to_vec()), None, Some(b"22".to_vec())];
    let a = app.run(&entries, &contents).unwrap();
    let b = app.run(&entries, &contents).unwrap();
    assert_eq!(read_back(a.bytes()), read_back(b.bytes()));
    assert_eq!(a.bytes(), b.bytes());
}

#[test]
fn entries_are_deflated_with_mode_755() {
    let app = App::new(path(&["p"]), true).unwrap();
    let data = vec![b'z'; 4096];
    let archive = app.run(&vec![file(&["p", "z.txt"])], &vec![Some(data.clone())]).unwrap();
    let mut zip = zip::ZipArchive::new(std::io::Cursor::new(archive.into_bytes())).unwrap();
    let mut f = zip.by_index(0).unwrap();
    assert_eq!(f.compression(), zip::CompressionMethod::Deflated);
    assert_eq!(f.unix_mode().unwrap() & 0o777, 0o755);
    assert!(f.compressed_size() < 4096);
    let mut back = Vec::new();
    f.read_to_end(&mut back).unwrap();
    assert_eq!(back, data);
}

#[test]
fn stored_method_keeps_bytes_as_they_are() {
    let entries = vec![file(&["p", "s.bin"])];
    let contents = vec![Some(vec![0u8, 1, 2, 255])];
    let archive = build_archive(&entries, &path(&["p"]), &contents, Compression::Stored).unwrap();
    let mut zip = zip::ZipArchive::new(std::io::Cursor::new(archive.into_bytes())).unwrap();
    let mut f = zip.by_index(0).unwrap();
    assert_eq!(f.compression(), zip::CompressionMethod::Stored);
    let mut back = Vec::new();
    f.read_to_end(&mut back).unwrap();
    assert_eq!(back, vec![0u8, 1, 2, 255]);
}

#[test]
fn empty_walk_gives_an_empty_archive() {
    let app = App::new(path(&["p"]), true).unwrap();
    let archive = app.run(&Vec::new(), &Vec::new()).unwrap();
    assert!(read_back(archive.bytes()).is_empty());
}

#[test]
fn prefix_as_file_entry_is_an_empty_name() {
    let app = App::new(path(&["p"]), true).unwrap();
    let entries = vec![file(&["p"])];
    let contents = vec![Some(Vec::new())];
    assert!(matches!(app.run(&entries, &contents), Err(ArchiveError::EmptyEntryName { index: 0 })));
}

#[test]
fn entry_outside_prefix_is_a_mismatch() {
    let app = App::new(path(&["p"]), true).unwrap();
    let entries = vec![dir(&["elsewhere"]), file(&["q", "a.txt"])];
    let contents = vec![None, Some(Vec::new())];
    assert!(matches!(app.run(&entries, &contents), Err(ArchiveError::PrefixMismatch { index: 1 })));
}

#[test]
fn first_failing_entry_decides_the_error() {
    let entries = vec![file(&["p", "..", "x"]), file(&["p", "y"])];
    let contents = vec![Some(Vec::new()), None];
    assert!(matches!(
        plan_archive(&entries, &path(&["p"]), &contents),
        Err(ArchiveError::PrefixMismatch { index: 0 })
    ));
}

#[test]
fn directories_need_no_content() {
    let entries = vec![dir(&["p", "d"]), file(&["p", "d", "f"])];
    let contents = vec![None, Some(b"f".to_vec())];
    let files = plan_archive(&entries, &path(&["p"]), &contents).unwrap();
    assert_eq!(files, vec![("d/f".to_string(), b"f".to_vec())]);
}

#[test]
fn entry_names_strip_the_prefix() {
    assert_eq!(
        entry_name(&path(&[".", "assignment1", "hello.c"]), &path(&[".", "assignment1"])),
        Ok("hello.c".to_string())
    );
    assert_eq!(entry_name(&path(&["a", "b", "c"]), &path(&["a"])), Ok("b/c".to_string()));
    assert_eq!(entry_name(&path(&["a", "b"]), &Vec::new()), Ok("a/b".to_string()));
}

#[test]
fn entry_names_refuse_unsafe_paths() {
    assert_eq!(entry_name(&path(&["a"]), &path(&["a"])), Err(NameError::EmptyEntryName));
    assert_eq!(entry_name(&path(&["a"]), &path(&["a", "b"])), Err(NameError::PrefixMismatch));
    assert_eq!(entry_name(&path(&["b", "c"]), &path(&["a"])), Err(NameError::PrefixMismatch));
    assert_eq!(entry_name(&path(&["a", "..", "c"]), &path(&["a"])), Err(NameError::PrefixMismatch));
    assert_eq!(entry_name(&path(&["a", ".", "c"]), &path(&["a"])), Err(NameError::PrefixMismatch));
    assert_eq!(entry_name(&path(&["a", "b/c"]), &path(&["a"])), Err(NameError::PrefixMismatch));
    assert_eq!(entry_name(&path(&["a", ""]), &path(&["a"])), Err(NameError::PrefixMismatch));
}

#[test]
fn plain_components() {
    assert!(is_plain_component(&"a.txt".to_string()));
    assert!(is_plain_component(&"...".to_string()));
    assert!(is_plain_component(&".hidden".to_string()));
    assert!(!is_plain_component(&".".to_string()));
    assert!(!is_plain_component(&"..".to_string()));
    assert!(!is_plain_component(&"".to_string()));
    assert!(!is_plain_component(&"a\\b".to_string()));
}

#[test]
fn archive_file_names() {
    assert_eq!(archive_file_name(&path(&[".", "assignment1"])), Some("assignment1.zip".to_string()));
    assert_eq!(archive_file_name(&path(&["proj"])), Some("proj.zip".to_string()));
    assert_eq!(archive_file_name(&path(&[".."])), None);
    assert_eq!(archive_file_name(&Vec::new()), None);
}

#[test]
fn app_keeps_its_directory() {
    let app = App::new(path(&["x", "y"]), true).unwrap();
    assert_eq!(app.zip_dir(), &path(&["x", "y"]));
    assert_eq!(app.archive_name().map(|n| n.as_str()), Some("y.zip"));
}
