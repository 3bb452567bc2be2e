use hcmd::fuzzy::{FileKind, Fuzz, Fuzzy, ScanEntry, Scanner};
use hcmd::paths::{path_ends_with, same_path};

fn scan_entry(path: &str, name: &str, is_dir: bool) -> ScanEntry {
    ScanEntry {
        path: path.to_string(),
        name: name.to_string(),
        is_dir,
        is_file: !is_dir,
    }
}

fn looks_like_cuid(id: &str) -> bool {
    let bytes = id.as_bytes();
    !bytes.is_empty()
        && bytes.len() <= 24
        && bytes[0].is_ascii_lowercase()
        && bytes.iter().all(|b| b.is_ascii_lowercase() || b.is_ascii_digit())
}

fn base() -> Fuzzy {
    Fuzzy::new(
        "/work/proj".to_string(),
        vec![
            scan_entry("/work/proj/src", "src", true),
            scan_entry("/work/proj/Cargo.toml", "Cargo.toml", false),
        ],
    )
}

fn paths(f: &Fuzzy) -> Vec<String> {
    f.fuzzies().iter().map(|z| z.path()).collect()
}

#[test]
fn new_fuzz_is_blank_with_an_id() {
    let f = Fuzz::new();
    assert!(looks_like_cuid(&f.id()));
    assert_eq!(f.path(), "");
    assert_eq!(f.name(), "");
    assert_eq!(f.spacer(), "");
    assert!(f.parents().is_empty());
    assert!(!f.is_dir() && !f.is_file() && !f.is_expanded());
    assert_eq!(f.children(), 0);
    assert_eq!(f.direct_parent, "");
    assert_ne!(Fuzz::new().id(), f.id());
}

#[test]
fn new_scans_the_base_directory() {
    let f = base();
    assert_eq!(f.base_path(), "/work/proj");
    assert_eq!(f.base_name(), "proj");
    assert_eq!(f.base_name_checked(), Some("proj".to_string()));
    assert_eq!(paths(&f), vec!["/work/proj/src", "/work/proj/Cargo.toml"]);
    let src = &f.fuzzies()[0];
    assert_eq!(src.name(), "src");
    assert_eq!(src.spacer(), " ");
    assert_eq!(src.parents(), vec!["/work/proj".to_string()]);
    assert_eq!(src.direct_parent, "/work/proj");
    assert!(src.is_dir() && !src.is_file());
    assert!(looks_like_cuid(&src.id()));
}

#[test]
fn root_has_no_base_name() {
    let f = Fuzzy::new("/".to_string(), vec![]);
    assert_eq!(f.base_name_checked(), None);
    assert!(f.fuzzies().is_empty());
}

#[test]
fn scanner_gives_one_entry_per_directory_entry() {
    let mut s = Scanner::new();
    let out = s.scan(vec![scan_entry("a/b", "b", false), scan_entry("c", "c", true)]);
    assert_eq!(out.len(), 2);
    assert_eq!(out[0].path(), "a/b");
    assert_eq!(out[0].direct_parent, "a");
    assert_eq!(out[1].direct_parent, "");
    assert_eq!(out[1].spacer(), "");
}

#[test]
fn toggle_twice_restores() {
    let mut f = base();
    let before: Vec<(String, String)> = f.fuzzies().iter().map(|z| (z.id(), z.path())).collect();
    assert_eq!(f.toggle_target(0), Some("/work/proj/src".to_string()));
    f.toggle_fuzzy(
        0,
        vec![scan_entry("/work/proj/src/main.rs", "main.rs", false), scan_entry("/work/proj/src/bin", "bin", true)],
    );
    assert_eq!(
        paths(&f),
        vec!["/work/proj/src", "/work/proj/src/main.rs", "/work/proj/src/bin", "/work/proj/Cargo.toml"]
    );
    let src = &f.fuzzies()[0];
    assert!(src.is_expanded());
    assert_eq!(src.children(), 2);
    let child = &f.fuzzies()[1];
    assert_eq!(child.spacer(), " |-");
    assert_eq!(child.parents(), vec!["/work/proj".to_string(), "/work/proj/src".to_string()]);
    assert_eq!(child.direct_parent, "/work/proj/src");
    assert_eq!(f.toggle_target(0), None);
    f.toggle_fuzzy(0, vec![]);
    let after: Vec<(String, String)> = f.fuzzies().iter().map(|z| (z.id(), z.path())).collect();
    assert_eq!(after, before);
    assert!(!f.fuzzies()[0].is_expanded());
    assert_eq!(f.fuzzies()[0].children(), 0);
}

#[test]
fn collapse_matches_parents_as_paths() {
    let mut f = Fuzzy::new("/w".to_string(), vec![scan_entry("/w/d/", "d", true)]);
    f.expand_fuzzy(0, vec![scan_entry("/w/d/x", "x", false)]);
    assert_eq!(paths(&f), vec!["/w/d/", "/w/d/x"]);
    // an entry created beside a child lies under the same directory
    f.create_fuzzy(1, "y".to_string(), Some(FileKind { is_dir: false, is_file: true }));
    assert_eq!(paths(&f), vec!["/w/d/", "/w/d/x", "/w/d/y"]);
    f.collaspe_fuzzy(0);
    assert_eq!(paths(&f), vec!["/w/d/"]);
}

#[test]
fn files_are_not_expanded_or_collapsed() {
    let mut f = base();
    assert_eq!(f.expand_target(1), None);
    f.expand_fuzzy(1, vec![scan_entry("/x", "x", false)]);
    f.collaspe_fuzzy(1);
    f.toggle_fuzzy(7, vec![]);
    assert_eq!(paths(&f), vec!["/work/proj/src", "/work/proj/Cargo.toml"]);
}

#[test]
fn create_inside_a_directory() {
    let mut f = base();
    let t = f.creation_target(0, &"new.txt".to_string()).unwrap();
    assert_eq!(t.path, "/work/proj/src/new.txt");
    assert!(!t.as_dir);
    f.create_fuzzy(0, "new.txt".to_string(), Some(FileKind { is_dir: false, is_file: true }));
    assert_eq!(paths(&f), vec!["/work/proj/src", "/work/proj/src/new.txt", "/work/proj/Cargo.toml"]);
    let c = &f.fuzzies()[1];
    assert_eq!(c.name(), "new.txt");
    assert_eq!(c.spacer(), " |-");
    assert_eq!(c.parents(), vec!["/work/proj".to_string(), "/work/proj/src".to_string()]);
    assert_eq!(c.direct_parent, "/work/proj/src");
    assert!(c.is_file() && !c.is_dir());
    assert!(looks_like_cuid(&c.id()));
}

#[test]
fn create_beside_a_file() {
    let mut f = base();
    let t = f.creation_target(1, &"notes".to_string()).unwrap();
    assert_eq!(t.path, "/work/proj/notes");
    f.create_fuzzy(1, "notes".to_string(), Some(FileKind { is_dir: true, is_file: false }));
    assert_eq!(paths(&f), vec!["/work/proj/src", "/work/proj/Cargo.toml", "/work/proj/notes"]);
    let c = &f.fuzzies()[2];
    assert_eq!(c.spacer(), " ");
    assert_eq!(c.parents(), vec!["/work/proj".to_string()]);
    assert!(c.is_dir());
}

#[test]
fn create_that_could_not_be_opened_keeps_a_blank_entry() {
    let mut f = base();
    f.create_fuzzy(1, "gone".to_string(), None);
    assert_eq!(f.fuzzies().len(), 3);
    let c = &f.fuzzies()[2];
    assert_eq!(c.path(), "");
    assert_eq!(c.name(), "");
    assert_eq!(c.spacer(), " ");
    f.create_fuzzy(9, "x".to_string(), None);
    assert_eq!(f.fuzzies().len(), 3);
    assert!(f.creation_target(9, &"x".to_string()).is_none());
}

#[test]
fn a_root_name_is_created_as_a_directory() {
    let f = base();
    let t = f.creation_target(0, &"/".to_string()).unwrap();
    assert_eq!(t.path, "/");
    assert!(t.as_dir);
}

#[test]
fn paths_compare_by_components() {
    assert!(same_path(&"a//b/".to_string(), &"a/b".to_string()));
    assert!(same_path(&"/x/./y".to_string(), &"/x/y".to_string()));
    assert!(!same_path(&"a/b".to_string(), &"a/c".to_string()));
    assert!(!same_path(&"a/../b".to_string(), &"b".to_string()));
    assert!(path_ends_with(&"/a/b/c".to_string(), &"b/c".to_string()));
    assert!(!path_ends_with(&"/a/b/c".to_string(), &"/".to_string()));
    assert!(!path_ends_with(&"/a/bc".to_string(), &"c".to_string()));
}

#[test]
fn from_parts_keeps_every_field() {
    let f = Fuzz::from_parts(
        "abc".to_string(),
        "/p".to_string(),
        "p".to_string(),
        true,
        false,
        true,
        "/".to_string(),
        vec!["/".to_string()],
        "|-".to_string(),
        3,
    );
    assert_eq!(f.id(), "abc");
    assert_eq!(f.path(), "/p");
    assert!(f.is_expanded());
    assert_eq!(f.children(), 3);
    assert_eq!(f.parents(), vec!["/".to_string()]);
}

#[test]
fn nested_toggles_keep_descendants_together_and_laid_out() {
    let mut f = base();
    f.toggle_fuzzy(0, vec![scan_entry("/work/proj/src/bin", "bin", true), scan_entry("/work/proj/src/lib.rs", "lib.rs", false)]);
    f.toggle_fuzzy(1, vec![scan_entry("/work/proj/src/bin/main.rs", "main.rs", false)]);
    assert_eq!(
        paths(&f),
        vec![
            "/work/proj/src",
            "/work/proj/src/bin",
            "/work/proj/src/bin/main.rs",
            "/work/proj/src/lib.rs",
            "/work/proj/Cargo.toml"
        ]
    );
    for z in f.fuzzies() {
        let parents = z.parents();
        assert_eq!(parents[0], "/work/proj");
        assert_eq!(z.spacer(), format!(" {}", "|-".repeat(parents.len() - 1)));
        assert_eq!(&z.direct_parent, parents.last().unwrap());
    }
    f.toggle_fuzzy(0, vec![]);
    assert_eq!(paths(&f), vec!["/work/proj/src", "/work/proj/Cargo.toml"]);
}
