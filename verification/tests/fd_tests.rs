use hcmd::fd::{DirEntryInfo, Fd, FdAction, Key, KeyOutcome};

fn entry(path: &str, name: Option<&str>, is_dir: Option<bool>) -> DirEntryInfo {
    DirEntryInfo {
        path: path.to_string(),
        name: name.map(|n| n.to_string()),
        is_dir,
    }
}

fn base() -> Fd {
    Fd::new(
        "./".to_string(),
        vec![
            entry("./src", Some("src"), Some(true)),
            entry("./broken", Some("broken"), None),
            entry("./README.md", None, Some(false)),
        ],
    )
}

fn paths(fd: &Fd) -> Vec<String> {
    fd.list().iter().map(|p| p.path().clone()).collect()
}

#[test]
fn new_lists_readable_entries() {
    let fd = base();
    assert_eq!(paths(&fd), vec!["./src", "./README.md"]);
    let src = &fd.list()[0];
    assert_eq!(src.name(), "src");
    assert!(src.is_dir());
    assert!(!src.is_expended());
    assert_eq!(src.spacer(), "");
    assert_eq!(src.direct_parent(), "./");
    assert_eq!(src.parents(), &vec!["./".to_string()]);
    assert_eq!(src.total_paths(), 0);
    assert_eq!(fd.list()[1].name(), "unknown");
    assert_eq!(fd.action(), FdAction::Normal);
    assert_eq!(fd.selected(), None);
    assert_eq!(fd.input(), "");
    assert_eq!(fd.input_index(), 0);
    assert!(!fd.should_exit());
    assert_eq!(fd.base_path(), "./");
    assert_eq!(fd.bottom_height(), 1);
}

#[test]
fn q_quits() {
    let mut fd = base();
    assert!(matches!(fd.handle_key_event(Key::Char('q')), KeyOutcome::Done));
    assert!(fd.should_exit());
}

#[test]
fn j_and_k_move_the_selection() {
    let mut fd = base();
    fd.handle_key_event(Key::Char('j'));
    assert_eq!(fd.selected(), Some(0));
    fd.handle_key_event(Key::Char('j'));
    assert_eq!(fd.selected(), Some(1));
    fd.handle_key_event(Key::Char('k'));
    fd.handle_key_event(Key::Char('k'));
    assert_eq!(fd.selected(), Some(0));
    let mut other = base();
    other.handle_key_event(Key::Char('k'));
    assert_eq!(other.selected(), Some(usize::MAX));
    other.select_first();
    assert_eq!(other.selected(), Some(0));
    other.select(Some(usize::MAX));
    other.handle_key_event(Key::Char('j'));
    assert_eq!(other.selected(), Some(usize::MAX));
}

#[test]
fn enter_expands_then_collapses() {
    let mut fd = base();
    fd.select_first();
    let before = paths(&fd);
    let out = fd.handle_key_event(Key::Enter);
    match out {
        KeyOutcome::Expand { index, path } => {
            assert_eq!(index, 0);
            assert_eq!(path, "./src");
        }
        other => panic!("unexpected {:?}", other),
    }
    assert_eq!(paths(&fd), before);
    fd.expand(
        0,
        vec![
            entry("./src/main.rs", Some("main.rs"), Some(false)),
            entry("./src/lib", Some("lib"), Some(true)),
        ],
    );
    assert_eq!(paths(&fd), vec!["./src", "./src/main.rs", "./src/lib", "./README.md"]);
    let src = &fd.list()[0];
    assert!(src.is_expended());
    assert_eq!(src.total_paths(), 2);
    let child = &fd.list()[1];
    assert_eq!(child.spacer(), "|-");
    assert_eq!(child.direct_parent(), "./src");
    assert_eq!(child.parents(), &vec!["./".to_string(), "./src".to_string()]);
    assert_eq!(fd.bottom_height(), 1);
    assert!(matches!(fd.handle_key_event(Key::Enter), KeyOutcome::Done));
    assert_eq!(paths(&fd), before);
    assert!(!fd.list()[0].is_expended());
    assert_eq!(fd.list()[0].total_paths(), 0);
}

#[test]
fn nested_expansion_and_collapse_of_the_outer_directory() {
    let mut fd = base();
    fd.expand(0, vec![entry("./src/lib", Some("lib"), Some(true))]);
    fd.expand(1, vec![entry("./src/lib/a.rs", Some("a.rs"), Some(false))]);
    assert_eq!(paths(&fd), vec!["./src", "./src/lib", "./src/lib/a.rs", "./README.md"]);
    assert_eq!(fd.list()[2].spacer(), "|-|-");
    fd.select(Some(0));
    fd.handle_key_event(Key::Enter);
    assert_eq!(paths(&fd), vec!["./src", "./README.md"]);
}

#[test]
fn enter_on_a_file_does_nothing() {
    let mut fd = base();
    fd.select(Some(1));
    assert!(matches!(fd.handle_key_event(Key::Enter), KeyOutcome::Done));
    assert_eq!(paths(&fd), vec!["./src", "./README.md"]);
    fd.select(Some(7));
    assert!(matches!(fd.handle_key_event(Key::Enter), KeyOutcome::Done));
}

#[test]
fn expand_out_of_range_changes_nothing() {
    let mut fd = base();
    fd.expand(9, vec![entry("./x", Some("x"), Some(false))]);
    assert_eq!(paths(&fd), vec!["./src", "./README.md"]);
}

#[test]
fn rename_edits_the_path_and_asks_to_rename() {
    let mut fd = base();
    fd.select(Some(1));
    fd.handle_key_event(Key::Char('r'));
    assert_eq!(fd.action(), FdAction::Rename);
    assert_eq!(fd.input(), "./README.md");
    assert_eq!(fd.input_index(), 0);
    assert_eq!(fd.bottom_height(), 3);
    fd.handle_key_event(Key::Right);
    fd.handle_key_event(Key::Right);
    assert_eq!(fd.input_index(), 2);
    fd.handle_key_event(Key::Char('x'));
    assert_eq!(fd.input(), "./xREADME.md");
    assert_eq!(fd.input_index(), 3);
    fd.handle_key_event(Key::Backspace);
    assert_eq!(fd.input(), "./README.md");
    assert_eq!(fd.input_index(), 2);
    fd.handle_key_event(Key::Left);
    fd.handle_key_event(Key::Left);
    fd.handle_key_event(Key::Left);
    assert_eq!(fd.input_index(), 0);
    fd.handle_key_event(Key::Backspace);
    assert_eq!(fd.input(), "./README.md");
    match fd.handle_key_event(Key::Enter) {
        KeyOutcome::Rename { from, to } => {
            assert_eq!(from, "./README.md");
            assert_eq!(to, "./README.md");
        }
        other => panic!("unexpected {:?}", other),
    }
    fd.reload(vec![entry("./NOTES.md", Some("NOTES.md"), Some(false))]);
    assert_eq!(paths(&fd), vec!["./NOTES.md"]);
    assert_eq!(fd.action(), FdAction::Normal);
    assert_eq!(fd.input(), "");
    assert_eq!(fd.input_index(), 0);
}

#[test]
fn typing_multibyte_characters_uses_character_positions() {
    let mut fd = base();
    fd.select(Some(0));
    fd.handle_key_event(Key::Char('r'));
    for _ in 0..20 {
        fd.handle_key_event(Key::Right);
    }
    assert_eq!(fd.input_index(), 5);
    fd.handle_key_event(Key::Char('é'));
    fd.handle_key_event(Key::Char('中'));
    assert_eq!(fd.input(), "./srcé中");
    fd.handle_key_event(Key::Left);
    fd.handle_key_event(Key::Char('😀'));
    assert_eq!(fd.input(), "./srcé😀中");
    assert_eq!(fd.input_index(), 7);
    fd.handle_key_event(Key::Backspace);
    assert_eq!(fd.input(), "./srcé中");
    assert_eq!(fd.input_index(), 6);
}

#[test]
fn type_then_backspace_restores() {
    let mut fd = base();
    fd.select(Some(1));
    fd.handle_key_event(Key::Char('r'));
    fd.handle_key_event(Key::Right);
    fd.handle_key_event(Key::Right);
    fd.handle_key_event(Key::Right);
    let text = fd.input().clone();
    let index = fd.input_index();
    fd.handle_key_event(Key::Char('ß'));
    fd.handle_key_event(Key::Backspace);
    assert_eq!(fd.input(), &text);
    assert_eq!(fd.input_index(), index);
}

#[test]
fn escape_leaves_each_mode() {
    for (key, mode) in [('a', FdAction::Create), ('r', FdAction::Rename), ('d', FdAction::Delete)] {
        let mut fd = base();
        fd.select(Some(0));
        fd.handle_key_event(Key::Char(key));
        assert_eq!(fd.action(), mode);
        let mut fd2 = base();
        fd2.select(Some(0));
        fd2.handle_key_event(Key::Char(key));
        fd2.handle_key_event(Key::Esc);
        assert_eq!(fd2.action(), FdAction::Normal);
        assert_eq!(fd2.input(), "");
        assert_eq!(fd2.input_index(), 0);
    }
}

#[test]
fn delete_asks_to_remove_the_selection() {
    let mut fd = base();
    fd.select(Some(0));
    fd.handle_key_event(Key::Char('d'));
    assert_eq!(fd.input(), "./src");
    match fd.handle_key_event(Key::Enter) {
        KeyOutcome::Remove { path, is_dir } => {
            assert_eq!(path, "./src");
            assert!(is_dir);
        }
        other => panic!("unexpected {:?}", other),
    }
    let mut none = base();
    none.handle_key_event(Key::Char('d'));
    assert_eq!(none.input(), "");
    assert!(matches!(none.handle_key_event(Key::Enter), KeyOutcome::Reload));
    let mut rename_none = base();
    rename_none.handle_key_event(Key::Char('r'));
    assert!(matches!(rename_none.handle_key_event(Key::Enter), KeyOutcome::Reload));
}

#[test]
fn other_keys_do_nothing() {
    let mut fd = base();
    fd.select(Some(0));
    assert!(matches!(fd.handle_key_event(Key::Char('z')), KeyOutcome::Done));
    assert!(matches!(fd.handle_key_event(Key::Other), KeyOutcome::Done));
    assert!(matches!(fd.handle_key_event(Key::Backspace), KeyOutcome::Done));
    assert_eq!(fd.action(), FdAction::Normal);
    fd.handle_key_event(Key::Char('d'));
    fd.handle_key_event(Key::Char('x'));
    assert_eq!(fd.input(), "./src");
}

#[test]
fn create_inside_a_selected_directory() {
    let mut fd = base();
    fd.select(Some(0));
    fd.handle_key_event(Key::Char('a'));
    assert_eq!(fd.action(), FdAction::Create);
    assert_eq!(fd.input(), "");
    assert_eq!(fd.bottom_height(), 3);
    for c in "new.rs".chars() {
        fd.handle_key_event(Key::Char(c));
    }
    assert_eq!(fd.input(), "new.rs");
    assert_eq!(fd.input_index(), 6);
    fd.handle_key_event(Key::Left);
    fd.handle_key_event(Key::Backspace);
    assert_eq!(fd.input(), "new.s");
    fd.handle_key_event(Key::Right);
    match fd.handle_key_event(Key::Enter) {
        KeyOutcome::Create { path, as_dir } => {
            assert_eq!(path, "./src/new.s");
            assert!(!as_dir);
        }
        other => panic!("unexpected {:?}", other),
    }
    assert_eq!(fd.action(), FdAction::Create);
    fd.reload(vec![entry("./src", Some("src"), Some(true))]);
    assert_eq!(fd.action(), FdAction::Normal);
    assert_eq!(fd.input(), "");
}

#[test]
fn create_beside_a_selected_file_and_as_a_directory() {
    let mut fd = base();
    fd.select(Some(1));
    fd.handle_key_event(Key::Char('a'));
    for c in "docs/".chars() {
        fd.handle_key_event(Key::Char(c));
    }
    match fd.handle_key_event(Key::Enter) {
        KeyOutcome::Create { path, as_dir } => {
            assert_eq!(path, "./docs/");
            assert!(as_dir);
        }
        other => panic!("unexpected {:?}", other),
    }
}

#[test]
fn create_with_nothing_selected_or_nothing_typed() {
    let mut fd = base();
    fd.handle_key_event(Key::Char('a'));
    assert!(matches!(fd.handle_key_event(Key::Enter), KeyOutcome::Reload));
    fd.handle_key_event(Key::Char('x'));
    match fd.handle_key_event(Key::Enter) {
        KeyOutcome::Create { path, as_dir } => {
            assert_eq!(path, "./x");
            assert!(!as_dir);
        }
        other => panic!("unexpected {:?}", other),
    }
}
