use obsidian_watch::executor::{
    basename, classify_event, find_command, substitute, Event, EventContext, EventKind,
    ModifyKind, RenameMode,
};

fn ctx() -> EventContext<'static> {
    EventContext {
        file: "note.md",
        path: "/notes/note.md",
        old_file: "",
        old_path: "",
        event: "modify",
        timestamp: "2026-05-15T10:00:00Z",
    }
}

fn make_event(kind: EventKind, paths: Vec<&str>) -> Event {
    Event {
        kind,
        paths: paths.into_iter().map(String::from).collect(),
    }
}

#[test]
fn substitutes_all_tokens() {
    let out = substitute("{EVENT} {FILE} at {PATH} ({TIMESTAMP})", &ctx());
    assert_eq!(
        out,
        "modify note.md at /notes/note.md (2026-05-15T10:00:00Z)"
    );
}

#[test]
fn substitutes_old_tokens_for_rename() {
    let c = EventContext {
        file: "bar.md",
        path: "/notes/bar.md",
        old_file: "foo.md",
        old_path: "/notes/foo.md",
        event: "rename",
        timestamp: "2026-05-15T10:00:00Z",
    };
    let out = substitute("{EVENT}: {OLD_FILE} -> {FILE}", &c);
    assert_eq!(out, "rename: foo.md -> bar.md");
}

#[test]
fn substitutes_old_path_empty_for_non_rename() {
    let out = substitute("{EVENT} {FILE} (was: {OLD_FILE})", &ctx());
    assert_eq!(out, "modify note.md (was: )");
}

#[test]
fn leaves_unknown_braces_alone() {
    let out = substitute("{UNKNOWN} {FILE}", &ctx());
    assert_eq!(out, "{UNKNOWN} note.md");
}

#[test]
fn handles_paths_with_spaces() {
    let c = EventContext {
        file: "my note.md",
        path: "/notes/my note.md",
        old_file: "",
        old_path: "",
        event: "create",
        timestamp: "2026-05-15T10:00:00Z",
    };
    let out = substitute("echo '{FILE}' '{PATH}'", &c);
    assert_eq!(out, "echo 'my note.md' '/notes/my note.md'");
}

#[test]
fn classifies_create() {
    let e = make_event(EventKind::Create, vec!["/a/x.md"]);
    let out = classify_event(&e);
    assert_eq!(out.len(), 1);
    assert_eq!(out[0].path, "/a/x.md");
    assert_eq!(out[0].event, "create");
    assert!(out[0].old_path.is_none());
}

#[test]
fn classifies_remove_as_delete() {
    let e = make_event(EventKind::Remove, vec!["/a/x.md"]);
    let out = classify_event(&e);
    assert_eq!(out.len(), 1);
    assert_eq!(out[0].event, "delete");
}

#[test]
fn classifies_data_modify_as_modify() {
    let e = make_event(EventKind::Modify(ModifyKind::Data), vec!["/a/x.md"]);
    let out = classify_event(&e);
    assert_eq!(out.len(), 1);
    assert_eq!(out[0].event, "modify");
    assert!(out[0].old_path.is_none());
}

#[test]
fn classifies_rename_from_as_delete() {
    let e = make_event(
        EventKind::Modify(ModifyKind::Name(RenameMode::From)),
        vec!["/a/x.md"],
    );
    let out = classify_event(&e);
    assert_eq!(out.len(), 1);
    assert_eq!(out[0].path, "/a/x.md");
    assert_eq!(out[0].event, "delete");
    assert!(out[0].old_path.is_none());
}

#[test]
fn classifies_rename_to_as_create() {
    let e = make_event(
        EventKind::Modify(ModifyKind::Name(RenameMode::To)),
        vec!["/a/y.md"],
    );
    let out = classify_event(&e);
    assert_eq!(out.len(), 1);
    assert_eq!(out[0].path, "/a/y.md");
    assert_eq!(out[0].event, "create");
    assert!(out[0].old_path.is_none());
}

#[test]
fn classifies_rename_both_as_single_rename_event() {
    let e = make_event(
        EventKind::Modify(ModifyKind::Name(RenameMode::Both)),
        vec!["/a/x.md", "/a/y.md"],
    );
    let out = classify_event(&e);
    assert_eq!(out.len(), 1);
    assert_eq!(out[0].path, "/a/y.md");
    assert_eq!(out[0].old_path, Some("/a/x.md"));
    assert_eq!(out[0].event, "rename");
}

#[test]
fn classifies_rename_both_with_malformed_paths_falls_back_to_modify() {
    // A rename seen from both ends should come as [from, to]; any other shape
    // fires 'modify' instead of dropping the event.
    let e = make_event(
        EventKind::Modify(ModifyKind::Name(RenameMode::Both)),
        vec!["/a/x.md"],
    );
    let out = classify_event(&e);
    assert_eq!(out.len(), 1);
    assert_eq!(out[0].event, "modify");
}

#[test]
fn ignores_metadata_modify() {
    let e = make_event(EventKind::Modify(ModifyKind::Metadata), vec!["/a/x.md"]);
    assert!(classify_event(&e).is_empty());
}

#[test]
fn basename_extracts_filename() {
    assert_eq!(basename("/foo/bar/baz.md"), "baz.md");
}

#[test]
fn basename_handles_no_directory() {
    assert_eq!(basename("file.md"), "file.md");
}

#[test]
fn find_command_matches_by_path_prefix() {
    let dirs = vec![
        ("/a".to_string(), "cmd-a".to_string()),
        ("/b/c".to_string(), "cmd-bc".to_string()),
    ];
    assert_eq!(find_command("/a/file.md", &dirs), Some("cmd-a"));
    assert_eq!(find_command("/b/c/sub/file.md", &dirs), Some("cmd-bc"));
    assert_eq!(find_command("/z/file.md", &dirs), None);
}

#[test]
fn find_command_respects_component_boundaries() {
    // /ab does NOT start with /a as a path (component-wise).
    let dirs = vec![("/a".to_string(), "cmd-a".to_string())];
    assert_eq!(find_command("/ab/file.md", &dirs), None);
}
