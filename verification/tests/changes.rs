use git_github::changes::{
    all_changes, classify, is_sentinel, render_changes, select_changes, sentinel_text,
    staged_changes, wants_diff, ChangeEntry, ChangeScope, StatusEntry, StatusFlags, StatusKind,
};

const NONE: StatusFlags = StatusFlags {
    index_new: false,
    index_modified: false,
    index_deleted: false,
    wt_new: false,
    wt_modified: false,
    wt_deleted: false,
};

fn entry(flags: StatusFlags, path: &str, diff: Option<&str>) -> StatusEntry {
    StatusEntry { flags, path: path.to_string(), diff: diff.map(|d| d.to_string()) }
}

#[test]
fn nothing_staged_gives_the_sentinel() {
    assert_eq!(staged_changes(&vec![]), "No staged changes found.");
    let only_working = vec![
        entry(StatusFlags { wt_modified: true, ..NONE }, "a.rs", Some("@@ a")),
        entry(StatusFlags { wt_new: true, ..NONE }, "b.rs", None),
        entry(NONE, "c.rs", None),
    ];
    assert_eq!(staged_changes(&only_working), "No staged changes found.");
    assert_eq!(render_changes(&vec![], ChangeScope::Staged), "No staged changes found.");
}

#[test]
fn nothing_uncommitted_gives_the_other_sentinel() {
    assert_eq!(all_changes(&vec![]), "No uncommitted changes found.");
    assert_eq!(all_changes(&vec![entry(NONE, "c.rs", Some("x"))]), "No uncommitted changes found.");
    assert_eq!(sentinel_text(ChangeScope::Staged), "No staged changes found.");
    assert_eq!(sentinel_text(ChangeScope::All), "No uncommitted changes found.");
}

#[test]
fn sentinels_are_recognised() {
    assert!(is_sentinel("No staged changes found.", ChangeScope::Staged));
    assert!(!is_sentinel("No staged changes found.", ChangeScope::All));
    assert!(is_sentinel("No uncommitted changes found.", ChangeScope::All));
    assert!(!is_sentinel("No staged changes found.\n", ChangeScope::Staged));
    assert!(!is_sentinel("", ChangeScope::Staged));
    assert!(!is_sentinel("Staged (new): a\n", ChangeScope::Staged));
}

#[test]
fn staged_flags_win_in_order() {
    let all = StatusFlags {
        index_new: true,
        index_modified: true,
        index_deleted: true,
        wt_new: true,
        wt_modified: true,
        wt_deleted: true,
    };
    for scope in [ChangeScope::Staged, ChangeScope::All] {
        assert_eq!(classify(all, scope), Some(StatusKind::StagedNew));
        assert_eq!(
            classify(StatusFlags { index_new: false, ..all }, scope),
            Some(StatusKind::StagedModified)
        );
        assert_eq!(
            classify(StatusFlags { index_new: false, index_modified: false, ..all }, scope),
            Some(StatusKind::StagedDeleted)
        );
        assert_eq!(classify(NONE, scope), None);
    }
    let working = StatusFlags { wt_new: true, wt_modified: true, wt_deleted: true, ..NONE };
    assert_eq!(classify(working, ChangeScope::Staged), None);
    assert_eq!(classify(working, ChangeScope::All), Some(StatusKind::UntrackedNew));
    assert_eq!(
        classify(StatusFlags { wt_new: false, ..working }, ChangeScope::All),
        Some(StatusKind::WorkingModified)
    );
    assert_eq!(
        classify(StatusFlags { wt_deleted: true, ..NONE }, ChangeScope::All),
        Some(StatusKind::WorkingDeleted)
    );
}

#[test]
fn diffs_are_for_what_was_written() {
    assert!(StatusKind::StagedNew.takes_diff());
    assert!(StatusKind::StagedModified.takes_diff());
    assert!(StatusKind::WorkingModified.takes_diff());
    assert!(!StatusKind::StagedDeleted.takes_diff());
    assert!(!StatusKind::WorkingDeleted.takes_diff());
    assert!(!StatusKind::UntrackedNew.takes_diff());
    assert!(wants_diff(StatusFlags { index_modified: true, ..NONE }, ChangeScope::Staged));
    assert!(!wants_diff(StatusFlags { index_deleted: true, ..NONE }, ChangeScope::Staged));
    assert!(!wants_diff(StatusFlags { wt_modified: true, ..NONE }, ChangeScope::Staged));
    assert!(wants_diff(StatusFlags { wt_modified: true, ..NONE }, ChangeScope::All));
    assert!(!wants_diff(StatusFlags { wt_new: true, ..NONE }, ChangeScope::All));
    assert!(!wants_diff(NONE, ChangeScope::All));
}

#[test]
fn kinds_have_their_words() {
    assert_eq!(StatusKind::StagedNew.description(), "Staged (new)");
    assert_eq!(StatusKind::StagedModified.description(), "Staged (modified)");
    assert_eq!(StatusKind::StagedDeleted.description(), "Staged (deleted)");
    assert_eq!(StatusKind::UntrackedNew.description(), "Untracked (new)");
    assert_eq!(StatusKind::WorkingModified.description(), "Unstaged (modified)");
    assert_eq!(StatusKind::WorkingDeleted.description(), "Unstaged (deleted)");
}

#[test]
fn summary_is_the_blocks_in_order() {
    let raw = vec![
        entry(StatusFlags { index_modified: true, ..NONE }, "src/a.rs", Some("@@ -1 +1 @@\n-x\n+y")),
        entry(StatusFlags { wt_modified: true, ..NONE }, "skipped.rs", Some("zzz")),
        entry(StatusFlags { index_new: true, ..NONE }, "b.txt", None),
        entry(StatusFlags { index_deleted: true, ..NONE }, "c.txt", Some("gone")),
        entry(StatusFlags { index_new: true, wt_modified: true, ..NONE }, "d.txt", Some("")),
    ];
    assert_eq!(
        staged_changes(&raw),
        "Staged (modified): src/a.rs\n\n@@ -1 +1 @@\n-x\n+y\n\
         Staged (new): b.txt\n\
         Staged (deleted): c.txt\n\
         Staged (new): d.txt\n"
    );
    assert_eq!(
        all_changes(&raw),
        "Staged (modified): src/a.rs\n\n@@ -1 +1 @@\n-x\n+y\n\
         Unstaged (modified): skipped.rs\n\nzzz\n\
         Staged (new): b.txt\n\
         Staged (deleted): c.txt\n\
         Staged (new): d.txt\n"
    );
}

#[test]
fn untracked_and_deleted_files_show_no_diff() {
    let raw = vec![
        entry(StatusFlags { wt_new: true, ..NONE }, "new.rs", Some("+all of it")),
        entry(StatusFlags { wt_deleted: true, ..NONE }, "old.rs", Some("-all of it")),
    ];
    assert_eq!(all_changes(&raw), "Untracked (new): new.rs\nUnstaged (deleted): old.rs\n");
}

#[test]
fn selection_keeps_order_and_content() {
    let raw = vec![
        entry(StatusFlags { wt_modified: true, ..NONE }, "w", Some("dw")),
        entry(StatusFlags { index_new: true, ..NONE }, "n", None),
        entry(NONE, "x", None),
        entry(StatusFlags { index_deleted: true, ..NONE }, "d", Some("dd")),
    ];
    assert_eq!(
        select_changes(&raw, ChangeScope::Staged),
        vec![
            ChangeEntry { status_kind: StatusKind::StagedNew, path: "n".to_string(), diff_text: None },
            ChangeEntry {
                status_kind: StatusKind::StagedDeleted,
                path: "d".to_string(),
                diff_text: Some("dd".to_string())
            },
        ]
    );
    assert_eq!(select_changes(&raw, ChangeScope::All).len(), 3);
    assert_eq!(select_changes(&raw, ChangeScope::All)[0].status_kind, StatusKind::WorkingModified);
    assert!(select_changes(&vec![], ChangeScope::All).is_empty());
}

#[test]
fn rendering_one_entry() {
    let with_diff = ChangeEntry {
        status_kind: StatusKind::StagedNew,
        path: "p".to_string(),
        diff_text: Some("D".to_string()),
    };
    assert_eq!(render_changes(&vec![with_diff], ChangeScope::Staged), "Staged (new): p\n\nD\n");
    let empty_path = ChangeEntry {
        status_kind: StatusKind::StagedModified,
        path: String::new(),
        diff_text: None,
    };
    assert_eq!(render_changes(&vec![empty_path], ChangeScope::All), "Staged (modified): \n");
}
