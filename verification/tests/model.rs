use std::path::Path;

use obsidian_watch::executor::{
    basename, classify_event, find_command, handle_event, now_rfc3339, render_commands,
    substitute, Event, EventContext, EventKind, ModifyKind, RenameMode,
};
use obsidian_watch::clock::rfc3339_from_epoch;
use obsidian_watch::text::{chars_of, matches_at};

fn std_basename(p: &str) -> &str {
    Path::new(p).file_name().and_then(|n| n.to_str()).unwrap_or("")
}

const PATHS: [&str; 26] = [
    "", "/", "//", ".", "..", "./", "../", "a", "a/", "a//", "/a", "/a/", "//a//b//",
    "./a", "./a/./b", "a/./b/.", "a/..", "/a/b/..", "/./a", "..a", ".a/b", "/a/.b",
    "a/b/c.md", "/notes/my note.md", "/x/ü.md", "./.",
];

#[test]
fn basename_agrees_with_std_path_file_name() {
    for p in PATHS.iter() {
        assert_eq!(basename(p), std_basename(p), "path {:?}", p);
    }
}

#[test]
fn directory_match_agrees_with_std_path_starts_with() {
    for p in PATHS.iter() {
        for d in PATHS.iter() {
            let dirs = vec![(d.to_string(), "cmd".to_string())];
            let expected = if Path::new(p).starts_with(Path::new(d)) { Some("cmd") } else { None };
            assert_eq!(find_command(p, &dirs), expected, "path {:?} dir {:?}", p, d);
        }
    }
}

#[test]
fn chars_of_and_matches_at() {
    let s = chars_of("ab{c}");
    assert_eq!(s, vec!['a', 'b', '{', 'c', '}']);
    let pat = chars_of("{c");
    assert!(matches_at(&s, 2, &pat));
    assert!(!matches_at(&s, 1, &pat));
}

#[test]
fn values_are_not_read_for_tokens() {
    // Expansion is one pass over the template: a value is written as it is.
    let c = EventContext {
        file: "{PATH}",
        path: "/n/p.md",
        old_file: "",
        old_path: "",
        event: "create",
        timestamp: "t",
    };
    assert_eq!(substitute("{FILE}", &c), "{PATH}");
    let c = EventContext {
        file: "a{EVENT}.md",
        path: "/n/a{EVENT}.md",
        old_file: "",
        old_path: "",
        event: "modify",
        timestamp: "2026-05-15T10:00:00Z",
    };
    assert_eq!(substitute("{FILE}", &c), "a{EVENT}.md");
    assert_eq!(substitute("[{FILE}] {EVENT}", &c), "[a{EVENT}.md] modify");
}

#[test]
fn stray_braces_around_tokens() {
    let c = EventContext {
        file: "f",
        path: "p",
        old_file: "",
        old_path: "",
        event: "e",
        timestamp: "t",
    };
    assert_eq!(substitute("{{FILE}}", &c), "{f}");
    assert_eq!(substitute("{FI{PATH}LE}", &c), "{FIpLE}");
    assert_eq!(substitute("{OLD_{FILE}}", &c), "{OLD_f}");
    assert_eq!(substitute("{", &c), "{");
}

#[test]
fn expanding_twice_changes_nothing() {
    let c = EventContext {
        file: "note.md",
        path: "/notes/note.md",
        old_file: "old.md",
        old_path: "/notes/old.md",
        event: "rename",
        timestamp: "2026-05-15T10:00:00Z",
    };
    for t in [
        "{EVENT} {FILE} at {PATH} ({TIMESTAMP})",
        "{OLD_FILE}->{FILE} {UNKNOWN} }{ {",
        "{FILE}}{PATH}",
        "",
    ] {
        let once = substitute(t, &c);
        assert_eq!(substitute(&once, &c), once, "{:?}", t);
    }
}

#[test]
fn substitute_replaces_every_occurrence() {
    let c = EventContext {
        file: "f",
        path: "p",
        old_file: "of",
        old_path: "op",
        event: "e",
        timestamp: "t",
    };
    assert_eq!(
        substitute("{FILE}{FILE} {PATH} {OLD_PATH} {OLD_FILE} {EVENT} {TIMESTAMP}{TIMESTAMP}", &c),
        "ff p op of e tt"
    );
    assert_eq!(substitute("{file} {FILE", &c), "{file} {FILE");
}

fn ev(kind: EventKind, paths: &[&str]) -> Event {
    Event { kind, paths: paths.iter().map(|p| p.to_string()).collect() }
}

#[test]
fn ignored_kinds_classify_to_nothing() {
    for kind in [EventKind::Any, EventKind::Access, EventKind::Other] {
        assert!(classify_event(&ev(kind, &["/a/x.md"])).is_empty());
    }
}

#[test]
fn every_path_gets_its_own_classification() {
    let e = ev(EventKind::Create, &["/a/x.md", "/a/y.md", "/a/z.md"]);
    let out = classify_event(&e);
    let paths: Vec<&str> = out.iter().map(|c| c.path).collect();
    assert_eq!(paths, vec!["/a/x.md", "/a/y.md", "/a/z.md"]);
    assert!(out.iter().all(|c| c.event == "create" && c.old_path.is_none()));

    let e = ev(EventKind::Modify(ModifyKind::Name(RenameMode::Both)), &["/1", "/2", "/3"]);
    let out = classify_event(&e);
    assert_eq!(out.len(), 3);
    assert!(out.iter().all(|c| c.event == "modify" && c.old_path.is_none()));

    for kind in [
        EventKind::Modify(ModifyKind::Any),
        EventKind::Modify(ModifyKind::Other),
        EventKind::Modify(ModifyKind::Name(RenameMode::Any)),
        EventKind::Modify(ModifyKind::Name(RenameMode::Other)),
    ] {
        let e = ev(kind, &["/a", "/b"]);
        let out = classify_event(&e);
        assert_eq!(out.len(), 2);
        assert!(out.iter().all(|c| c.event == "modify"));
    }
    assert!(classify_event(&ev(EventKind::Create, &[])).is_empty());
}

#[test]
fn old_path_only_on_rename() {
    let kinds = [
        EventKind::Create,
        EventKind::Remove,
        EventKind::Modify(ModifyKind::Data),
        EventKind::Modify(ModifyKind::Name(RenameMode::From)),
        EventKind::Modify(ModifyKind::Name(RenameMode::To)),
        EventKind::Modify(ModifyKind::Name(RenameMode::Both)),
    ];
    for kind in kinds {
        for paths in [&["/a"][..], &["/a", "/b"][..]] {
            let e = ev(kind, paths);
            for c in classify_event(&e) {
                assert_eq!(c.old_path.is_some(), c.event == "rename");
            }
        }
    }
}

fn dirs() -> Vec<(String, String)> {
    vec![
        ("/notes/inbox".to_string(), "inbox {EVENT} {FILE}".to_string()),
        ("/notes".to_string(), "run {EVENT} {FILE} {PATH} [{OLD_FILE}|{OLD_PATH}] {TIMESTAMP}".to_string()),
    ]
}

#[test]
fn render_commands_expands_templates_per_classification() {
    let e = ev(EventKind::Create, &["/notes/a.md", "/elsewhere/b.md", "/notes/inbox/c.md"]);
    let cmds = render_commands(&e, &dirs(), "2026-05-15T13:42:07Z");
    assert_eq!(
        cmds,
        vec![
            "run create a.md /notes/a.md [|] 2026-05-15T13:42:07Z".to_string(),
            "inbox create c.md".to_string(),
        ]
    );
}

#[test]
fn render_commands_for_a_rename() {
    let e = ev(
        EventKind::Modify(ModifyKind::Name(RenameMode::Both)),
        &["/notes/old.md", "/notes/new.md"],
    );
    let cmds = render_commands(&e, &dirs(), "T");
    assert_eq!(cmds, vec!["run rename new.md /notes/new.md [old.md|/notes/old.md] T".to_string()]);
}

#[test]
fn outside_dirs_runs_nothing() {
    let e = ev(EventKind::Remove, &["/tmp/a.md", "/notesx/b.md"]);
    assert!(render_commands(&e, &dirs(), "T").is_empty());
    assert_eq!(handle_event(&e, &dirs()), Some(Vec::new()));
}

#[test]
fn at_most_one_command_per_classification() {
    let e = ev(EventKind::Modify(ModifyKind::Data), &["/notes/a", "/notes/inbox/b", "/c"]);
    let n = classify_event(&e).len();
    assert!(render_commands(&e, &dirs(), "T").len() <= n);
}

#[test]
fn handle_event_of_ignored_event_runs_nothing() {
    let e = ev(EventKind::Modify(ModifyKind::Metadata), &["/notes/a.md"]);
    assert_eq!(handle_event(&e, &dirs()), Some(Vec::new()));
}

#[test]
fn handle_event_stamps_with_the_clock() {
    let e = ev(EventKind::Create, &["/notes/inbox/x.md"]);
    let dirs = vec![("/notes".to_string(), "{TIMESTAMP}".to_string())];
    let cmds = handle_event(&e, &dirs).expect("the clock reads after 1970");
    assert_eq!(cmds.len(), 1);
    let stamp = &cmds[0];
    assert_eq!(stamp.len(), 20);
    assert!(stamp.ends_with('Z'));
    assert_eq!(&stamp[10..11], "T");
}

#[test]
fn now_rfc3339_is_whole_seconds_utc() {
    let s = now_rfc3339().expect("the clock reads after 1970");
    assert_eq!(s.len(), 20);
    assert!(s.ends_with('Z'));
    assert!(s.chars().all(|c| c.is_ascii_digit() || "-+:TZ".contains(c)));
}

#[test]
fn token_free_template_runs_as_written() {
    let c = EventContext {
        file: "f",
        path: "p",
        old_file: "",
        old_path: "",
        event: "e",
        timestamp: "t",
    };
    for t in ["", "echo hi", "{UNKNOWN}", "{ FILE}", "{Path}", "}{"] {
        assert_eq!(substitute(t, &c), t);
    }
}

#[test]
fn lone_token_runs_as_its_value() {
    let c = EventContext {
        file: "f.md",
        path: "/n/f.md",
        old_file: "g.md",
        old_path: "/n/g.md",
        event: "rename",
        timestamp: "2026-01-01T00:00:00Z",
    };
    assert_eq!(substitute("{FILE}", &c), "f.md");
    assert_eq!(substitute("{PATH}", &c), "/n/f.md");
    assert_eq!(substitute("{OLD_FILE}", &c), "g.md");
    assert_eq!(substitute("{OLD_PATH}", &c), "/n/g.md");
    assert_eq!(substitute("{EVENT}", &c), "rename");
    assert_eq!(substitute("{TIMESTAMP}", &c), "2026-01-01T00:00:00Z");
}

#[test]
fn directory_holds_its_entries() {
    for d in ["/a", "/a/", "a", ".", "", "/", "./x", "../y"] {
        for rest in ["f.md", "sub/f.md", "..", "."] {
            let p = format!("{}/{}", d, rest);
            let dirs = vec![(d.to_string(), "cmd".to_string())];
            assert_eq!(find_command(&p, &dirs), Some("cmd"), "{:?}", p);
        }
    }
}

#[test]
fn basename_of_entry_is_the_name() {
    for d in ["", "/", "/a", "a/b", ".", ".."] {
        for name in ["f.md", "my note", ".hidden", "...", "ü"] {
            assert_eq!(basename(&format!("{}/{}", d, name)), name);
        }
    }
}

#[test]
fn first_holding_directory_wins() {
    let nested = vec![
        ("/a".to_string(), "outer".to_string()),
        ("/a/b".to_string(), "inner".to_string()),
    ];
    assert_eq!(find_command("/a/b/c.md", &nested), Some("outer"));
    let nested_rev = vec![
        ("/a/b".to_string(), "inner".to_string()),
        ("/a".to_string(), "outer".to_string()),
    ];
    assert_eq!(find_command("/a/b/c.md", &nested_rev), Some("inner"));
    assert_eq!(find_command("/a/c.md", &nested_rev), Some("outer"));
    assert_eq!(find_command("/a/b/c.md", &[]), None);
}

#[test]
fn basename_edge_cases() {
    assert_eq!(basename("/"), "");
    assert_eq!(basename(""), "");
    assert_eq!(basename("/a/.."), "");
    assert_eq!(basename("/a/b/"), "b");
    assert_eq!(basename("/a/b/."), "b");
}

#[test]
fn rfc3339_from_epoch_formats_and_refuses() {
    assert_eq!(rfc3339_from_epoch(0, 0), Some("1970-01-01T00:00:00Z".to_string()));
    assert_eq!(rfc3339_from_epoch(86_399, 999_999_999), Some("1970-01-01T23:59:59Z".to_string()));
    assert_eq!(rfc3339_from_epoch(1_778_852_527, 0), Some("2026-05-15T13:42:07Z".to_string()));
    assert_eq!(rfc3339_from_epoch(253_402_300_799, 0), Some("9999-12-31T23:59:59Z".to_string()));
    assert_eq!(rfc3339_from_epoch(253_402_300_800, 0), Some("+10000-01-01T00:00:00Z".to_string()));
    assert_eq!(rfc3339_from_epoch(i64::MAX as u64 + 1, 0), None);
    assert_eq!(rfc3339_from_epoch(1_000_000_000_000_000, 0), None);
    assert_eq!(rfc3339_from_epoch(0, 2_000_000_000), None);
}
