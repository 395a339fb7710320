use o11n::apply_changes::{collect_outcomes, error_messages, resolve_file_path};
use o11n::apply_file_change::{
    aggregate_changes, apply_modification_changes, plan_file_change, reverse_modification_changes,
    ApplyError, FsOp,
};
use o11n::change_types::{Action, Change, FileChange};

fn edit(search: Option<&str>, content: &str) -> Change {
    Change {
        description: String::new(),
        search: search.map(|s| s.to_string()),
        content: content.to_string(),
    }
}

fn instruction(path: &str, action: Action, changes: Vec<Change>) -> FileChange {
    FileChange { path: path.to_string(), action, changes }
}

#[test]
fn modify_then_reverse_restores_original() {
    let original = "alpha\nbeta\ngamma\n";
    let changes = vec![edit(Some("beta"), "BETA"), edit(Some("gamma"), "GAMMA!")];
    let forward = apply_modification_changes(original, &changes).unwrap();
    assert_eq!(forward, "alpha\nBETA\nGAMMA!\n");
    let back = reverse_modification_changes(&forward, &changes).unwrap();
    assert_eq!(back, original);
}

#[test]
fn fragments_apply_to_progressively_changed_text() {
    let original = "one";
    let changes = vec![edit(Some("one"), "two"), edit(Some("two"), "three")];
    assert_eq!(apply_modification_changes(original, &changes).unwrap(), "three");
    // The second fragment alone does not apply to the original.
    assert_eq!(
        apply_modification_changes(original, &changes[1..]),
        Err(ApplyError::NotFound { needle: "two".to_string() })
    );
}

#[test]
fn modify_without_search_is_an_error() {
    let changes = vec![edit(None, "x")];
    assert_eq!(apply_modification_changes("abc", &changes), Err(ApplyError::MissingSearch));
    assert_eq!(reverse_modification_changes("abc", &changes), Err(ApplyError::MissingSearch));
}

#[test]
fn aggregate_concatenates_contents() {
    let changes = vec![edit(None, "ab"), edit(Some("zz"), "cd"), edit(None, "")];
    assert_eq!(aggregate_changes(&changes), "abcd");
    assert_eq!(aggregate_changes(&[]), "");
}

#[test]
fn create_on_existing_path_fails() {
    let fc = instruction("a.txt", Action::Create, vec![edit(None, "body")]);
    assert_eq!(
        plan_file_change(&fc, "/p/a.txt", false, true, None),
        Err(ApplyError::AlreadyExists { path: "/p/a.txt".to_string() })
    );
    assert_eq!(
        plan_file_change(&fc, "/p/a.txt", false, false, None),
        Ok(FsOp::Write { path: "/p/a.txt".to_string(), contents: "body".to_string(), create_parents: true })
    );
}

#[test]
fn delete_on_missing_path_fails() {
    let fc = instruction("a.txt", Action::Delete, vec![]);
    assert_eq!(
        plan_file_change(&fc, "/p/a.txt", false, false, None),
        Err(ApplyError::MissingFile { path: "/p/a.txt".to_string() })
    );
    assert_eq!(
        plan_file_change(&fc, "/p/a.txt", false, true, None),
        Ok(FsOp::Remove { path: "/p/a.txt".to_string() })
    );
}

#[test]
fn empty_rewrite_fails() {
    let fc = instruction("a.txt", Action::Rewrite, vec![edit(None, ""), edit(None, "")]);
    assert_eq!(plan_file_change(&fc, "/p/a.txt", false, true, None), Err(ApplyError::EmptyRewrite));
    let blank = instruction("a.txt", Action::Rewrite, vec![edit(None, "  \n\t")]);
    assert_eq!(plan_file_change(&blank, "/p/a.txt", false, true, None), Err(ApplyError::EmptyRewrite));
    let full = instruction("a.txt", Action::Rewrite, vec![edit(None, "new"), edit(None, " text")]);
    assert_eq!(
        plan_file_change(&full, "/p/a.txt", false, true, None),
        Ok(FsOp::Write { path: "/p/a.txt".to_string(), contents: "new text".to_string(), create_parents: false })
    );
}

#[test]
fn modify_needs_a_readable_file() {
    let fc = instruction("a.txt", Action::Modify, vec![edit(Some("a"), "b")]);
    assert_eq!(
        plan_file_change(&fc, "/p/a.txt", false, false, None),
        Err(ApplyError::MissingFile { path: "/p/a.txt".to_string() })
    );
    assert_eq!(
        plan_file_change(&fc, "/p/a.txt", false, true, None),
        Err(ApplyError::ReadFailed { path: "/p/a.txt".to_string() })
    );
    assert_eq!(
        plan_file_change(&fc, "/p/a.txt", false, true, Some("xax".to_string())),
        Ok(FsOp::Write { path: "/p/a.txt".to_string(), contents: "xbx".to_string(), create_parents: false })
    );
    assert_eq!(
        plan_file_change(&fc, "/p/a.txt", true, true, Some("xbx".to_string())),
        Ok(FsOp::Write { path: "/p/a.txt".to_string(), contents: "xax".to_string(), create_parents: false })
    );
}

#[test]
fn reverse_mode_inverts_each_action() {
    let create = instruction("a", Action::Create, vec![edit(None, "body")]);
    assert_eq!(plan_file_change(&create, "/a", true, true, None), Ok(FsOp::Remove { path: "/a".to_string() }));
    assert_eq!(plan_file_change(&create, "/a", true, false, None), Ok(FsOp::Keep));
    let delete = instruction("a", Action::Delete, vec![edit(None, "old body")]);
    assert_eq!(
        plan_file_change(&delete, "/a", true, false, None),
        Ok(FsOp::Write { path: "/a".to_string(), contents: "old body".to_string(), create_parents: true })
    );
    let rewrite = instruction("a", Action::Rewrite, vec![edit(Some("before"), "after"), edit(Some(""), "!")]);
    assert_eq!(
        plan_file_change(&rewrite, "/a", true, true, None),
        Ok(FsOp::Write { path: "/a".to_string(), contents: "before!".to_string(), create_parents: false })
    );
}

#[test]
fn batch_isolates_a_failing_instruction() {
    let changes = vec![
        instruction("one.txt", Action::Modify, vec![edit(Some("a"), "A")]),
        instruction("two.txt", Action::Modify, vec![edit(Some("missing"), "M")]),
        instruction("three.txt", Action::Create, vec![edit(None, "new")]),
    ];
    let files = [Some("abc".to_string()), Some("xyz".to_string()), None];
    let exists = [true, true, false];
    let mut results = Vec::new();
    let mut written = Vec::new();
    for i in 0..3 {
        match plan_file_change(&changes[i], &changes[i].path, false, exists[i], files[i].clone()) {
            Ok(op) => {
                written.push(op);
                results.push(Ok(()));
            }
            Err(e) => results.push(Err(error_messages(&e))),
        }
    }
    assert_eq!(
        written,
        vec![
            FsOp::Write { path: "one.txt".to_string(), contents: "Abc".to_string(), create_parents: false },
            FsOp::Write { path: "three.txt".to_string(), contents: "new".to_string(), create_parents: true },
        ]
    );
    let resolved: Vec<String> = changes.iter().map(|c| format!("/p/{}", c.path)).collect();
    let (ok, err) = collect_outcomes(&changes, &resolved, results);
    assert_eq!(ok.len(), 2);
    assert_eq!(ok[0].path, "one.txt");
    assert_eq!(ok[1].path, "three.txt");
    assert_eq!(ok[0].messages, vec!["Success".to_string()]);
    assert_eq!(err.len(), 1);
    assert_eq!(err[0].path, "two.txt");
    assert_eq!(
        err[0].messages,
        vec![
            "While applying change to 'two.txt' (/p/two.txt)".to_string(),
            "Search block not found: missing".to_string()
        ]
    );
}

#[test]
fn relative_paths_resolve_under_the_project_root() {
    assert_eq!(resolve_file_path("src/a.rs", true, Some("/home/p")), "/home/p/src/a.rs");
    assert_eq!(resolve_file_path("src/a.rs", true, Some("/home/p/")), "/home/p/src/a.rs");
    assert_eq!(resolve_file_path("/etc/x", false, Some("/home/p")), "/etc/x");
    assert_eq!(resolve_file_path("C:\\x", false, Some("/home/p")), "C:\\x");
    assert_eq!(resolve_file_path("src/a.rs", true, None), "src/a.rs");
}

#[test]
fn error_messages_name_the_cause() {
    assert_eq!(
        error_messages(&ApplyError::AlreadyExists { path: "/x".to_string() }),
        vec!["File already exists: /x".to_string()]
    );
    assert_eq!(
        error_messages(&ApplyError::EmptyRewrite),
        vec!["Malformed plan protocol: rewritten file is empty. Change reverted.".to_string()]
    );
}

#[test]
fn crlf_file_round_trips_byte_for_byte() {
    let original = "a\r\nb\r\nc\r\n";
    let changes = vec![edit(Some("b"), "X"), edit(Some("c"), "Y\nZ")];
    let forward = apply_modification_changes(original, &changes).unwrap();
    assert_eq!(forward, "a\r\nX\r\nY\nZ\r\n");
    assert_eq!(reverse_modification_changes(&forward, &changes).unwrap(), original);
    let fc = instruction("f", Action::Modify, changes);
    let planned = plan_file_change(&fc, "/f", false, true, Some(original.to_string())).unwrap();
    let written = match planned {
        FsOp::Write { contents, .. } => contents,
        other => panic!("unexpected {:?}", other),
    };
    assert_eq!(
        plan_file_change(&fc, "/f", true, true, Some(written)),
        Ok(FsOp::Write { path: "/f".to_string(), contents: original.to_string(), create_parents: false })
    );
}
