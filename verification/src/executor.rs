use vstd::prelude::*;
pub use crate::path::{basename, find_command};
use crate::path::{basename_spec, dirs_view, find_command_spec};
pub use crate::clock::now_rfc3339;
use crate::clock::is_timestamp;
pub use crate::template::{substitute, EventContext};
use crate::template::{substitute_spec, ContextView};

verus! {

/// How a rename was reported.
#[derive(Clone, Copy, Debug, PartialEq, Eq, Structural)]
pub enum RenameMode {
    Any,
    To,
    From,
    Both,
    Other,
}

/// What changed in a modified file.
#[derive(Clone, Copy, Debug, PartialEq, Eq, Structural)]
pub enum ModifyKind {
    Any,
    Data,
    Metadata,
    Name(RenameMode),
    Other,
}

/// The kind of a file-system event.
#[derive(Clone, Copy, Debug, PartialEq, Eq, Structural)]
pub enum EventKind {
    Any,
    Access,
    Create,
    Modify(ModifyKind),
    Remove,
    Other,
}

/// A file-system event: its kind and the paths it concerns, in the order the
/// watcher reported them (for a rename reported as one event, the old path
/// first and the new one second).
#[derive(Debug)]
pub struct Event {
    pub kind: EventKind,
    pub paths: Vec<String>,
}

/// An event as text.
pub struct EventView {
    pub kind: EventKind,
    pub paths: Seq<Seq<char>>,
}

impl View for Event {
    type V = EventView;

    open spec fn view(&self) -> EventView {
        EventView { kind: self.kind, paths: self.paths@.map_values(|p: String| p@) }
    }
}

/// What one path of an event means for the command to run: the path, the
/// path it was renamed from (for a rename), and the logical event name
/// (`create`, `modify`, `delete` or `rename`).
#[derive(Debug)]
pub struct Classification<'a> {
    pub path: &'a str,
    pub old_path: Option<&'a str>,
    pub event: &'static str,
}

/// A classification as text.
pub struct ClassificationView {
    pub path: Seq<char>,
    pub old_path: Option<Seq<char>>,
    pub event: Seq<char>,
}

impl<'a> View for Classification<'a> {
    type V = ClassificationView;

    open spec fn view(&self) -> ClassificationView {
        ClassificationView {
            path: self.path@,
            old_path: match self.old_path {
                Some(p) => Some(p@),
                None => None,
            },
            event: self.event@,
        }
    }
}

/// Each path under the same logical event name, with no old path.
pub open spec fn label_each(paths: Seq<Seq<char>>, label: Seq<char>) -> Seq<ClassificationView> {
    paths.map_values(|p: Seq<char>| ClassificationView { path: p, old_path: None, event: label })
}

/// The classifications of an event: created files are `create`, removed ones
/// `delete`, a rename seen only from its source `delete` and only from its
/// target `create`, a rename seen from both ends (old path, new path) one
/// `rename`, any other change of content or name `modify`; metadata changes,
/// accesses and unknown events give nothing. A rename seen from both ends
/// that does not come with exactly two paths gives `modify` for each path.
pub open spec fn classify_spec(event: EventView) -> Seq<ClassificationView> {
    let paths = event.paths;
    match event.kind {
        EventKind::Create => label_each(paths, "create"@),
        EventKind::Remove => label_each(paths, "delete"@),
        EventKind::Modify(ModifyKind::Metadata) => seq![],
        EventKind::Modify(ModifyKind::Name(RenameMode::From)) => label_each(paths, "delete"@),
        EventKind::Modify(ModifyKind::Name(RenameMode::To)) => label_each(paths, "create"@),
        EventKind::Modify(ModifyKind::Name(RenameMode::Both)) => if paths.len() == 2 {
            seq![ClassificationView { path: paths[1], old_path: Some(paths[0]), event: "rename"@ }]
        } else {
            label_each(paths, "modify"@)
        },
        EventKind::Modify(_) => label_each(paths, "modify"@),
        _ => seq![],
    }
}

/// The classifications as text.
pub open spec fn classifications_view(cs: Seq<Classification>) -> Seq<ClassificationView> {
    cs.map_values(|c: Classification| c@)
}

/// Every path of `paths` under the name `label`.
fn classify_each<'a>(paths: &'a Vec<String>, label: &'static str) -> (out: Vec<Classification<'a>>)
    ensures
        classifications_view(out@) == label_each(paths@.map_values(|p: String| p@), label@),
{
    let ghost want = label_each(paths@.map_values(|p: String| p@), label@);
    let mut out: Vec<Classification<'a>> = Vec::new();
    let mut i: usize = 0;
    while i < paths.len()
        invariant
            i <= paths@.len(),
            want == label_each(paths@.map_values(|p: String| p@), label@),
            classifications_view(out@) == want.take(i as int),
        decreases paths@.len() - i,
    {
        let ghost prev = out@;
        let c = Classification { path: paths[i].as_str(), old_path: None, event: label };
        let ghost cg = c;
        assert(cg@ == want[i as int]);
        out.push(c);
        assert(out@ == prev.push(cg));
        assert(classifications_view(out@) =~= classifications_view(prev).push(cg@));
        i = i + 1;
        assert(classifications_view(out@) =~= want.take(i as int));
    }
    assert(want.take(i as int) =~= want);
    out
}

/// Classifies a file-system event into the events that the configured command
/// is run for; see `classify_spec`.
pub fn classify_event<'a>(event: &'a Event) -> (out: Vec<Classification<'a>>)
    ensures
        classifications_view(out@) == classify_spec(event@),
{
    proof {
        reveal_strlit("create");
        reveal_strlit("delete");
        reveal_strlit("modify");
        reveal_strlit("rename");
    }
    match event.kind {
        EventKind::Create => classify_each(&event.paths, "create"),
        EventKind::Remove => classify_each(&event.paths, "delete"),
        EventKind::Modify(ModifyKind::Metadata) => {
            let out: Vec<Classification<'a>> = Vec::new();
            assert(classifications_view(out@) =~= classify_spec(event@));
            out
        },
        EventKind::Modify(ModifyKind::Name(RenameMode::From)) => classify_each(&event.paths, "delete"),
        EventKind::Modify(ModifyKind::Name(RenameMode::To)) => classify_each(&event.paths, "create"),
        EventKind::Modify(ModifyKind::Name(RenameMode::Both)) => {
            if event.paths.len() == 2 {
                let mut out: Vec<Classification<'a>> = Vec::new();
                out.push(
                    Classification {
                        path: event.paths[1].as_str(),
                        old_path: Some(event.paths[0].as_str()),
                        event: "rename",
                    },
                );
                assert(classifications_view(out@) =~= classify_spec(event@));
                out
            } else {
                classify_each(&event.paths, "modify")
            }
        },
        EventKind::Modify(_) => classify_each(&event.paths, "modify"),
        _ => {
            let out: Vec<Classification<'a>> = Vec::new();
            assert(classifications_view(out@) =~= classify_spec(event@));
            out
        },
    }
}

/// The token values for one classified path, stamped with `timestamp`: the
/// file's base name and path, and for a rename the old base name and old
/// path (empty text otherwise).
pub open spec fn context_for(c: ClassificationView, timestamp: Seq<char>) -> ContextView {
    ContextView {
        file: basename_spec(c.path),
        path: c.path,
        old_file: match c.old_path {
            Some(p) => basename_spec(p),
            None => seq![],
        },
        old_path: match c.old_path {
            Some(p) => p,
            None => seq![],
        },
        event: c.event,
        timestamp: timestamp,
    }
}

/// The commands to run, in order: for each classification whose path lies in
/// a configured directory, that directory's template expanded for it;
/// classifications outside every directory are skipped.
pub open spec fn render_spec(
    cs: Seq<ClassificationView>,
    dirs: Seq<(Seq<char>, Seq<char>)>,
    timestamp: Seq<char>,
) -> Seq<Seq<char>>
    decreases cs.len(),
{
    if cs.len() == 0 {
        seq![]
    } else {
        let before = render_spec(cs.drop_last(), dirs, timestamp);
        match find_command_spec(cs.last().path, dirs) {
            Some(template) => before.push(substitute_spec(template, context_for(cs.last(), timestamp))),
            None => before,
        }
    }
}

/// The texts of a list of strings.
pub open spec fn strings_view(v: Seq<String>) -> Seq<Seq<char>> {
    v.map_values(|s: String| s@)
}

/// The shell commands that an event calls for, with `timestamp` as the event
/// time; see `render_spec`.
pub fn render_commands(event: &Event, dirs: &[(String, String)], timestamp: &str) -> (cmds: Vec<
    String,
>)
    ensures
        strings_view(cmds@) == render_spec(classify_spec(event@), dirs_view(dirs@), timestamp@),
{
    let cs = classify_event(event);
    let ghost csv = classifications_view(cs@);
    let ghost dv = dirs_view(dirs@);
    let mut cmds: Vec<String> = Vec::new();
    let mut i: usize = 0;
    assert(csv.take(0) =~= Seq::<ClassificationView>::empty());
    while i < cs.len()
        invariant
            i <= cs@.len(),
            csv == classifications_view(cs@),
            csv == classify_spec(event@),
            dv == dirs_view(dirs@),
            strings_view(cmds@) == render_spec(csv.take(i as int), dv, timestamp@),
        decreases cs@.len() - i,
    {
        let c = &cs[i];
        let ghost cv = csv[i as int];
        assert(c@ == cv);
        assert(csv.take(i + 1).drop_last() =~= csv.take(i as int));
        assert(csv.take(i + 1).last() == cv);
        match find_command(c.path, dirs) {
            Some(template) => {
                let (old_file, old_path) = match c.old_path {
                    Some(p) => (basename(p), p),
                    None => {
                        proof {
                            reveal_strlit("");
                        }
                        ("", "")
                    },
                };
                let ctx = EventContext {
                    file: basename(c.path),
                    path: c.path,
                    old_file: old_file,
                    old_path: old_path,
                    event: c.event,
                    timestamp: timestamp,
                };
                assert(ctx@.old_file == context_for(cv, timestamp@).old_file);
                assert(ctx@.old_path == context_for(cv, timestamp@).old_path);
                assert(ctx@ =~= context_for(cv, timestamp@));
                let ghost prev = cmds@;
                let cmd = substitute(template, &ctx);
                let ghost cmd_view = cmd@;
                cmds.push(cmd);
                assert(strings_view(cmds@) =~= strings_view(prev).push(cmd_view));
            },
            None => {},
        }
        i = i + 1;
    }
    assert(csv.take(i as int) =~= csv);
    cmds
}

/// The shell commands to run for an event, stamped with the current time.
/// An event that classifies to nothing gives no command, and the clock is
/// then not read. `None` when the clock cannot be read as a time stamp (it
/// reads before 1970, or past what the time types hold): no command is run
/// for the event then.
pub fn handle_event(event: &Event, dirs: &[(String, String)]) -> (cmds: Option<Vec<String>>)
    ensures
        classify_spec(event@).len() == 0 ==> (cmds matches Some(c) && c@.len() == 0),
        classify_spec(event@).len() != 0 ==> (cmds matches Some(c) ==> exists|stamp: Seq<char>|
            is_timestamp(stamp) && strings_view(c@) == #[trigger] render_spec(
                classify_spec(event@),
                dirs_view(dirs@),
                stamp,
            )),
{
    let cs = classify_event(event);
    if cs.len() == 0 {
        return Some(Vec::new());
    }
    match now_rfc3339() {
        Some(stamp) => {
            let cmds = render_commands(event, dirs, stamp.as_str());
            assert(is_timestamp(stamp@));
            Some(cmds)
        },
        None => None,
    }
}

/// Only a rename carries an old path: a classification has one exactly when
/// its event is `rename`.
pub proof fn lemma_old_path_only_on_rename(event: EventView)
    ensures
        forall|i: int|
            0 <= i < classify_spec(event).len() ==> ((#[trigger] classify_spec(event)[i]).old_path
                is Some <==> classify_spec(event)[i].event == "rename"@),
{
    reveal_strlit("create");
    reveal_strlit("delete");
    reveal_strlit("modify");
    reveal_strlit("rename");
    assert("create"@ != "rename"@) by {
        assert("create"@[0] != "rename"@[0]);
    }
    assert("delete"@ != "rename"@) by {
        assert("delete"@[0] != "rename"@[0]);
    }
    assert("modify"@ != "rename"@) by {
        assert("modify"@[0] != "rename"@[0]);
    }
}

/// For a rename, `{PATH}` and `{FILE}` are the new name and `{OLD_PATH}` and
/// `{OLD_FILE}` the old one; for every other event the old tokens expand to
/// empty text.
pub proof fn lemma_old_tokens_only_for_rename(event: EventView, timestamp: Seq<char>)
    ensures
        forall|i: int|
            0 <= i < classify_spec(event).len() && (#[trigger] classify_spec(event)[i]).event
                != "rename"@ ==> context_for(classify_spec(event)[i], timestamp).old_path
                == Seq::<char>::empty() && context_for(classify_spec(event)[i], timestamp).old_file
                == Seq::<char>::empty(),
        (event.kind == EventKind::Modify(ModifyKind::Name(RenameMode::Both)) && event.paths.len()
            == 2) ==> ({
            let ctx = context_for(classify_spec(event)[0], timestamp);
            &&& ctx.event == "rename"@
            &&& ctx.path == event.paths[1]
            &&& ctx.file == basename_spec(event.paths[1])
            &&& ctx.old_path == event.paths[0]
            &&& ctx.old_file == basename_spec(event.paths[0])
        }),
{
    lemma_old_path_only_on_rename(event);
}

/// Every classified path, and every old path, is one of the event's own paths.
pub proof fn lemma_classified_paths_from_event(event: EventView)
    ensures
        forall|i: int|
            0 <= i < classify_spec(event).len() ==> exists|j: int|
                0 <= j < event.paths.len() && event.paths[j] == (#[trigger] classify_spec(
                    event,
                )[i]).path,
        forall|i: int|
            0 <= i < classify_spec(event).len() && (#[trigger] classify_spec(event)[i]).old_path
                is Some ==> exists|j: int|
                0 <= j < event.paths.len() && Some(event.paths[j]) == classify_spec(
                    event,
                )[i].old_path,
{
    let cs = classify_spec(event);
    assert forall|i: int| 0 <= i < cs.len() implies exists|j: int|
        0 <= j < event.paths.len() && event.paths[j] == (#[trigger] cs[i]).path by {
        if cs.len() == 1 && event.kind == EventKind::Modify(ModifyKind::Name(RenameMode::Both))
            && event.paths.len() == 2 {
            assert(event.paths[1] == cs[i].path);
        } else {
            assert(event.paths[i] == cs[i].path);
        }
    }
    assert forall|i: int| 0 <= i < cs.len() && (#[trigger] cs[i]).old_path is Some implies exists|
        j: int,
    | 0 <= j < event.paths.len() && Some(event.paths[j]) == cs[i].old_path by {
        assert(Some(event.paths[0]) == cs[i].old_path);
    }
}

/// Metadata changes, accesses and events of unknown kind run nothing; every
/// other event gives one classification per path, except a rename seen from
/// both ends with its two paths, which gives one.
pub proof fn lemma_classification_count(event: EventView)
    ensures
        (match event.kind {
            EventKind::Any | EventKind::Access | EventKind::Other | EventKind::Modify(
                ModifyKind::Metadata,
            ) => true,
            _ => false,
        }) ==> classify_spec(event).len() == 0,
        (event.kind == EventKind::Modify(ModifyKind::Name(RenameMode::Both)) && event.paths.len()
            == 2) ==> classify_spec(event).len() == 1,
        (match event.kind {
            EventKind::Create | EventKind::Remove => true,
            EventKind::Modify(ModifyKind::Metadata) => false,
            EventKind::Modify(ModifyKind::Name(RenameMode::Both)) => event.paths.len() != 2,
            EventKind::Modify(_) => true,
            _ => false,
        }) ==> classify_spec(event).len() == event.paths.len(),
{
}

/// An event none of whose paths lies in a configured directory runs no
/// command.
pub proof fn lemma_outside_dirs_runs_nothing(
    cs: Seq<ClassificationView>,
    dirs: Seq<(Seq<char>, Seq<char>)>,
    timestamp: Seq<char>,
)
    requires
        forall|i: int| 0 <= i < cs.len() ==> find_command_spec(#[trigger] cs[i].path, dirs) is None,
    ensures
        render_spec(cs, dirs, timestamp).len() == 0,
    decreases cs.len(),
{
    if cs.len() > 0 {
        let before = cs.drop_last();
        assert forall|i: int| 0 <= i < before.len() implies find_command_spec(
            #[trigger] before[i].path,
            dirs,
        ) is None by {
            assert(before[i] == cs[i]);
        }
        lemma_outside_dirs_runs_nothing(before, dirs, timestamp);
        assert(find_command_spec(cs[cs.len() - 1].path, dirs) is None);
    }
}

/// At most one command per classification: an event never runs more commands
/// than it has classifications.
pub proof fn lemma_at_most_one_command_each(
    cs: Seq<ClassificationView>,
    dirs: Seq<(Seq<char>, Seq<char>)>,
    timestamp: Seq<char>,
)
    ensures
        render_spec(cs, dirs, timestamp).len() <= cs.len(),
    decreases cs.len(),
{
    if cs.len() > 0 {
        lemma_at_most_one_command_each(cs.drop_last(), dirs, timestamp);
    }
}

/// Every classification carries `label` for the path at the same place in
/// `paths`, one per path, with no old path.
pub open spec fn one_per_path(cs: Seq<ClassificationView>, paths: Seq<Seq<char>>, label: Seq<char>) -> bool {
    &&& cs.len() == paths.len()
    &&& forall|i: int|
        0 <= i < cs.len() ==> (#[trigger] cs[i]).path == paths[i] && cs[i].old_path is None
            && cs[i].event == label
}

/// The event name of each classification is fixed by the kind of event alone,
/// for any number of paths: created files and renames seen only from their
/// target are `create`; removed files and renames seen only from their source
/// are `delete`; data, unknown and other changes, and renames of unknown or
/// other shape (also one seen from both ends without exactly two paths), are
/// `modify`; a rename seen from both ends with its two paths is one `rename`
/// from the first path to the second.
pub proof fn lemma_event_names_by_kind(event: EventView)
    ensures
        event.kind == EventKind::Create ==> one_per_path(classify_spec(event), event.paths, "create"@),
        event.kind == EventKind::Remove ==> one_per_path(classify_spec(event), event.paths, "delete"@),
        event.kind == EventKind::Modify(ModifyKind::Name(RenameMode::From)) ==> one_per_path(
            classify_spec(event),
            event.paths,
            "delete"@,
        ),
        event.kind == EventKind::Modify(ModifyKind::Name(RenameMode::To)) ==> one_per_path(
            classify_spec(event),
            event.paths,
            "create"@,
        ),
        (event.kind == EventKind::Modify(ModifyKind::Any) || event.kind == EventKind::Modify(
            ModifyKind::Data,
        ) || event.kind == EventKind::Modify(ModifyKind::Other) || event.kind == EventKind::Modify(
            ModifyKind::Name(RenameMode::Any),
        ) || event.kind == EventKind::Modify(ModifyKind::Name(RenameMode::Other)) || (event.kind
            == EventKind::Modify(ModifyKind::Name(RenameMode::Both)) && event.paths.len() != 2))
            ==> one_per_path(classify_spec(event), event.paths, "modify"@),
        (event.kind == EventKind::Modify(ModifyKind::Name(RenameMode::Both)) && event.paths.len()
            == 2) ==> classify_spec(event).len() == 1 && classify_spec(event)[0].path
            == event.paths[1] && classify_spec(event)[0].old_path == Some(event.paths[0])
            && classify_spec(event)[0].event == "rename"@,
        (event.kind == EventKind::Any || event.kind == EventKind::Access || event.kind
            == EventKind::Other || event.kind == EventKind::Modify(ModifyKind::Metadata))
            ==> classify_spec(event).len() == 0,
{
}

/// Rendering a run of classifications gives the commands of its first part
/// followed by those of its second: each classification's commands depend on
/// it alone, and the order is kept.
pub proof fn lemma_render_concat(
    a: Seq<ClassificationView>,
    b: Seq<ClassificationView>,
    dirs: Seq<(Seq<char>, Seq<char>)>,
    timestamp: Seq<char>,
)
    ensures
        render_spec(a + b, dirs, timestamp) == render_spec(a, dirs, timestamp) + render_spec(
            b,
            dirs,
            timestamp,
        ),
    decreases b.len(),
{
    if b.len() == 0 {
        assert(a + b =~= a);
        assert(render_spec(a, dirs, timestamp) + render_spec(b, dirs, timestamp) =~= render_spec(
            a,
            dirs,
            timestamp,
        ));
    } else {
        let ab = a + b;
        assert(ab.drop_last() =~= a + b.drop_last());
        assert(ab.last() == b.last());
        lemma_render_concat(a, b.drop_last(), dirs, timestamp);
        match find_command_spec(b.last().path, dirs) {
            Some(template) => {
                let cmd = substitute_spec(template, context_for(b.last(), timestamp));
                assert(render_spec(a, dirs, timestamp) + render_spec(b.drop_last(), dirs, timestamp).push(
                    cmd,
                ) =~= (render_spec(a, dirs, timestamp) + render_spec(b.drop_last(), dirs, timestamp)).push(
                    cmd,
                ));
            },
            None => {},
        }
    }
}

/// One classification runs exactly one command when its path lies in a
/// configured directory, and none otherwise, whatever its event name: the
/// first holding directory's template, with `{FILE}` the base name of the
/// path, `{PATH}` the path, `{OLD_FILE}` and `{OLD_PATH}` the old base name
/// and old path of a rename (empty text otherwise), `{EVENT}` the event name
/// and `{TIMESTAMP}` the time stamp.
pub proof fn lemma_render_one(
    c: ClassificationView,
    dirs: Seq<(Seq<char>, Seq<char>)>,
    timestamp: Seq<char>,
)
    ensures
        render_spec(seq![c], dirs, timestamp) == match find_command_spec(c.path, dirs) {
            Some(template) => seq![
                substitute_spec(
                    template,
                    ContextView {
                        file: basename_spec(c.path),
                        path: c.path,
                        old_file: match c.old_path {
                            Some(p) => basename_spec(p),
                            None => Seq::<char>::empty(),
                        },
                        old_path: match c.old_path {
                            Some(p) => p,
                            None => Seq::<char>::empty(),
                        },
                        event: c.event,
                        timestamp: timestamp,
                    },
                ),
            ],
            None => Seq::<Seq<char>>::empty(),
        },
{
    let one = seq![c];
    assert(one.drop_last() =~= Seq::<ClassificationView>::empty());
    assert(one.last() == c);
    assert(render_spec(one.drop_last(), dirs, timestamp) =~= Seq::<Seq<char>>::empty());
    match find_command_spec(c.path, dirs) {
        Some(template) => {
            let ctx = ContextView {
                file: basename_spec(c.path),
                path: c.path,
                old_file: match c.old_path {
                    Some(p) => basename_spec(p),
                    None => Seq::<char>::empty(),
                },
                old_path: match c.old_path {
                    Some(p) => p,
                    None => Seq::<char>::empty(),
                },
                event: c.event,
                timestamp: timestamp,
            };
            assert(context_for(c, timestamp) =~= ctx);
            assert(Seq::<Seq<char>>::empty().push(substitute_spec(template, ctx)) =~= seq![
                substitute_spec(template, ctx),
            ]);
        },
        None => {},
    }
}

/// The number of commands is the number of classifications whose path lies
/// in a configured directory.
pub proof fn lemma_render_count(
    cs: Seq<ClassificationView>,
    dirs: Seq<(Seq<char>, Seq<char>)>,
    timestamp: Seq<char>,
)
    ensures
        render_spec(cs, dirs, timestamp).len() == cs.filter(
            |c: ClassificationView| find_command_spec(c.path, dirs) is Some,
        ).len(),
    decreases cs.len(),
{
    reveal(Seq::filter);
    if cs.len() > 0 {
        lemma_render_count(cs.drop_last(), dirs, timestamp);
    }
}

} // verus!
