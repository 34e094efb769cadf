use nmt_platform::review::{
    adjacent_file, join_path, jump_target, selected_reference, ChangeDirection, ChangedFile,
    DiffLine, ReviewState, TreeRow, VisibilityChange,
};

fn file(path: &str, status: &str) -> ChangedFile {
    ChangedFile {
        path: String::from(path),
        status: String::from(status),
    }
}

fn row(path: &str, is_file: bool) -> TreeRow {
    TreeRow {
        path: String::from(path),
        is_file,
    }
}

#[test]
fn a_new_sidebar_selects_nothing() {
    let state = ReviewState::new(String::from("/work/repo"));
    assert_eq!(state.cwd(), "/work/repo");
    assert!(!state.filter_open && !state.wrap);
    assert!(state.rows.is_empty() && state.collapsed.is_empty());
    assert!(state.selected.is_none());
    assert!(state.selected_line.is_none());
    assert_eq!(state.diff_seq, 0);
    assert!(!state.visible && !state.loading && !state.can_quote);
    assert!(state.files_open);
}

#[test]
fn a_snapshot_selects_its_first_file_and_keeps_a_listed_selection() {
    let mut state = ReviewState::new(String::from("/repo"));
    let files = vec![file("src/a.rs", " M"), file("src/b.rs", "??")];
    assert!(state.on_snapshot_changed(Some(&files)));
    assert_eq!(state.selected.as_deref(), Some("src/a.rs"));
    assert_eq!(state.diff_seq, 1);

    assert!(state.select(String::from("src/b.rs")));
    state.selected_line = Some(3);
    assert!(!state.on_snapshot_changed(Some(&files)));
    assert_eq!(state.selected.as_deref(), Some("src/b.rs"));
    assert_eq!(state.selected_line, Some(3));

    let fewer = vec![file("src/a.rs", " M")];
    assert!(state.on_snapshot_changed(Some(&fewer)));
    assert_eq!(state.selected.as_deref(), Some("src/a.rs"));
    assert_eq!(state.selected_line, None);

    assert!(state.on_snapshot_changed(Some(&Vec::new())));
    assert!(state.selected.is_none());
    assert!(!state.on_snapshot_changed(None));
}

#[test]
fn selecting_the_same_file_again_does_nothing() {
    let mut state = ReviewState::new(String::from("/repo"));
    state.files_open = false;
    assert!(state.select(String::from("x")));
    assert!(state.files_open);
    state.selected_line = Some(1);
    assert!(!state.select(String::from("x")));
    assert_eq!(state.selected_line, Some(1));
}

#[test]
fn only_the_newest_diff_is_applied() {
    let mut state = ReviewState::new(String::from("/repo"));
    let files = vec![file("new.txt", "??"), file("old.txt", " M")];
    assert!(state.begin_fetch(Some(&files), true).is_none());
    assert!(!state.loading);

    state.select(String::from("new.txt"));
    let first = state.begin_fetch(Some(&files), true).expect("a selection is fetched");
    assert!(first.untracked);
    assert_eq!(first.path, "new.txt");
    assert!(state.loading);

    state.selected_line = Some(40);
    let second = state.begin_fetch(Some(&files), false).expect("a selection is fetched");
    assert!(second.seq > first.seq);
    assert!(!state.accepts(first.seq));
    state.diff_loaded(first.seq, 10);
    assert_eq!(state.selected_line, Some(40));

    assert!(state.accepts(second.seq));
    state.diff_loaded(second.seq, 10);
    assert_eq!(state.selected_line, None);
    assert!(!state.loading);

    state.select(String::from("old.txt"));
    let third = state.begin_fetch(Some(&files), false).unwrap();
    assert!(!third.untracked);
    assert!(state.begin_fetch(None, false).is_none());
}

#[test]
fn visibility_changes_are_reported_once() {
    let mut state = ReviewState::new(String::from("/repo"));
    assert_eq!(state.set_visible(false), VisibilityChange::Unchanged);
    assert_eq!(state.set_visible(true), VisibilityChange::Shown);
    assert_eq!(state.set_visible(true), VisibilityChange::Unchanged);
    assert_eq!(state.set_visible(false), VisibilityChange::Hidden);
    state.set_quote_available(true);
    assert!(state.can_quote);
    assert!(state.observe_snapshot(5));
    assert!(!state.observe_snapshot(5));
    assert_eq!(state.seen_snapshot_seq, 5);
}

#[test]
fn file_navigation_moves_over_files_and_stops_at_the_ends() {
    let rows = vec![
        row("src", false),
        row("src/a.rs", true),
        row("src/b.rs", true),
        row("tests", false),
        row("tests/t.rs", true),
    ];
    let a = String::from("src/a.rs");
    let t = String::from("tests/t.rs");
    assert_eq!(
        adjacent_file(&rows, Some(&a), ChangeDirection::Next),
        Some((2, String::from("src/b.rs")))
    );
    assert_eq!(
        adjacent_file(&rows, Some(&a), ChangeDirection::Previous),
        Some((1, String::from("src/a.rs")))
    );
    assert_eq!(
        adjacent_file(&rows, Some(&t), ChangeDirection::Next),
        Some((4, String::from("tests/t.rs")))
    );
    assert_eq!(
        adjacent_file(&rows, None, ChangeDirection::Previous),
        Some((1, String::from("src/a.rs")))
    );
    let gone = String::from("gone.rs");
    assert_eq!(
        adjacent_file(&rows, Some(&gone), ChangeDirection::Next),
        Some((1, String::from("src/a.rs")))
    );
    assert_eq!(adjacent_file(&vec![row("src", false)], None, ChangeDirection::Next), None);
}

#[test]
fn change_jumps_stop_at_the_ends() {
    assert_eq!(jump_target(0, 5, ChangeDirection::Next), 1);
    assert_eq!(jump_target(4, 5, ChangeDirection::Next), 4);
    assert_eq!(jump_target(0, 5, ChangeDirection::Previous), 0);
    assert_eq!(jump_target(3, 5, ChangeDirection::Previous), 2);
    assert_eq!(jump_target(0, 0, ChangeDirection::Next), 0);
}

#[test]
fn paths_join_like_std() {
    for (root, path) in [
        ("/repo", "src/a.rs"),
        ("/repo/", "src/a.rs"),
        ("", "a.rs"),
        ("/repo", "/abs/b.rs"),
        ("/repo", ""),
    ] {
        let expected = std::path::Path::new(root).join(path).display().to_string();
        assert_eq!(join_path(root, path), expected);
    }
}

#[test]
fn a_selected_line_is_quoted_with_its_location() {
    let added = DiffLine {
        old_line: None,
        new_line: Some(12),
        text: String::from("let x = 1;"),
    };
    assert_eq!(
        selected_reference(Some("/repo"), Some("src/a.rs"), Some(&added)).as_deref(),
        Some("/repo/src/a.rs:12 (new)\n    let x = 1;")
    );
    let removed = DiffLine {
        old_line: Some(7),
        new_line: None,
        text: String::from("gone"),
    };
    assert_eq!(
        selected_reference(Some("/repo"), Some("b.rs"), Some(&removed)).as_deref(),
        Some("/repo/b.rs:7 (old)\n    gone")
    );
    let header = DiffLine {
        old_line: None,
        new_line: None,
        text: String::from("@@"),
    };
    assert_eq!(selected_reference(Some("/repo"), Some("b.rs"), Some(&header)), None);
    assert_eq!(selected_reference(None, Some("b.rs"), Some(&added)), None);
    assert_eq!(selected_reference(Some("/repo"), None, Some(&added)), None);
    assert_eq!(selected_reference(Some("/repo"), Some("b.rs"), None), None);
}
