//! Paths as text, read the way Unix reads them: `/` separates components,
//! a leading `/` is the root, empty segments and `.` (past the start) drop
//! out, and `..` is the parent. Directory matching compares whole components.
use vstd::prelude::*;
use crate::text::chars_of;

verus! {

/// One component of a path, as a Unix path splits into them: `/` separates
/// components, and a leading `/` is the root.
pub enum Component {
    RootDir,
    CurDir,
    ParentDir,
    Normal(Seq<char>),
}

/// What the text between two separators contributes: nothing for an empty
/// segment or `.`, the parent for `..`, and a named component otherwise.
pub open spec fn segment_component(seg: Seq<char>) -> Seq<Component> {
    if seg.len() == 0 || seg == seq!['.'] {
        seq![]
    } else if seg == seq!['.', '.'] {
        seq![Component::ParentDir]
    } else {
        seq![Component::Normal(seg)]
    }
}

/// The components of `s`, read after the segment text `cur` that precedes it.
pub open spec fn body_components(s: Seq<char>, cur: Seq<char>) -> Seq<Component>
    decreases s.len(),
{
    if s.len() == 0 {
        segment_component(cur)
    } else if s[0] == '/' {
        segment_component(cur) + body_components(s.drop_first(), seq![])
    } else {
        body_components(s.drop_first(), cur.push(s[0]))
    }
}

/// The path starts at the root.
pub open spec fn has_root(s: Seq<char>) -> bool {
    s.len() > 0 && s[0] == '/'
}

/// A relative path that starts with the current directory: `.` alone or `./...`.
pub open spec fn has_cur_dir(s: Seq<char>) -> bool {
    s.len() > 0 && s[0] == '.' && (s.len() == 1 || s[1] == '/')
}

/// All components of the path `s`, first to last.
pub open spec fn components(s: Seq<char>) -> Seq<Component> {
    if has_root(s) {
        seq![Component::RootDir] + body_components(s.drop_first(), seq![])
    } else if has_cur_dir(s) {
        seq![Component::CurDir] + body_components(s.drop_first(), seq![])
    } else {
        body_components(s, seq![])
    }
}

/// `base` is a leading part of `path`, compared whole component by whole component.
pub open spec fn path_starts_with(path: Seq<char>, base: Seq<char>) -> bool {
    let pc = components(path);
    let bc = components(base);
    bc.len() <= pc.len() && pc.take(bc.len() as int) == bc
}

/// The last component of `path`, when it is a name.
pub open spec fn file_name(path: Seq<char>) -> Option<Seq<char>> {
    let c = components(path);
    if c.len() > 0 && c.last() is Normal {
        Some(c.last()->Normal_0)
    } else {
        None
    }
}

/// The file name of `path`, or the empty text when it has none.
pub open spec fn basename_spec(path: Seq<char>) -> Seq<char> {
    match file_name(path) {
        Some(name) => name,
        None => seq![],
    }
}

/// The command of the first directory in `dirs` that `path` lies in.
pub open spec fn find_command_spec(path: Seq<char>, dirs: Seq<(Seq<char>, Seq<char>)>) -> Option<
    Seq<char>,
>
    decreases dirs.len(),
{
    if dirs.len() == 0 {
        None
    } else if path_starts_with(path, dirs[0].0) {
        Some(dirs[0].1)
    } else {
        find_command_spec(path, dirs.drop_first())
    }
}

/// The directory table as text: each directory with its command.
pub open spec fn dirs_view(dirs: Seq<(String, String)>) -> Seq<(Seq<char>, Seq<char>)> {
    dirs.map_values(|d: (String, String)| (d.0@, d.1@))
}

/// Splitting at a separator: the components after `x/` are those of `x`
/// followed by those of what comes after the separator.
proof fn lemma_body_split(x: Seq<char>, y: Seq<char>, cur: Seq<char>)
    ensures
        body_components(x + seq!['/'] + y, cur) == body_components(x, cur) + body_components(
            y,
            seq![],
        ),
    decreases x.len(),
{
    let j = x + seq!['/'] + y;
    if x.len() == 0 {
        assert(j[0] == '/');
        assert(j.drop_first() =~= y);
    } else {
        assert(j[0] == x[0]);
        assert(j.drop_first() =~= x.drop_first() + seq!['/'] + y);
        if x[0] == '/' {
            lemma_body_split(x.drop_first(), y, seq![]);
            assert(body_components(j, cur) =~= body_components(x, cur) + body_components(
                y,
                seq![],
            ));
        } else {
            lemma_body_split(x.drop_first(), y, cur.push(x[0]));
        }
    }
}

/// Text without a separator is read as one segment.
proof fn lemma_body_single_segment(y: Seq<char>, cur: Seq<char>)
    requires
        forall|i: int| 0 <= i < y.len() ==> y[i] != '/',
    ensures
        body_components(y, cur) == segment_component(cur + y),
    decreases y.len(),
{
    if y.len() == 0 {
        assert(cur + y =~= cur);
    } else {
        assert(y[0] != '/');
        lemma_body_single_segment(y.drop_first(), cur.push(y[0]));
        assert(cur.push(y[0]) + y.drop_first() =~= cur + y);
    }
}

/// The components of `dir/rest`: those of `dir` (the root alone when `dir`
/// is empty), then those of `rest`.
proof fn lemma_components_join(dir: Seq<char>, rest: Seq<char>)
    ensures
        components(dir + seq!['/'] + rest) == (if dir.len() == 0 {
            seq![Component::RootDir]
        } else {
            components(dir)
        }) + body_components(rest, seq![]),
{
    let j = dir + seq!['/'] + rest;
    if dir.len() == 0 {
        assert(has_root(j));
        assert(j.drop_first() =~= rest);
    } else {
        assert(j[0] == dir[0]);
        assert(j.drop_first() =~= dir.drop_first() + seq!['/'] + rest);
        if dir.len() == 1 {
            assert(j[1] == '/');
        } else {
            assert(j[1] == dir[1]);
        }
        if has_root(dir) || has_cur_dir(dir) {
            lemma_body_split(dir.drop_first(), rest, seq![]);
            assert(components(j) =~= components(dir) + body_components(rest, seq![]));
        } else {
            lemma_body_split(dir, rest, seq![]);
        }
    }
}

/// Every entry under a directory lies in that directory: `dir/rest` starts
/// with `dir`, component by component, whatever `rest` is.
pub proof fn lemma_dir_holds_entries(dir: Seq<char>, rest: Seq<char>)
    ensures
        path_starts_with(dir + seq!['/'] + rest, dir),
{
    let j = dir + seq!['/'] + rest;
    lemma_components_join(dir, rest);
    if dir.len() == 0 {
        assert(components(dir) =~= Seq::<Component>::empty());
        assert(components(j).take(0) =~= components(dir));
    } else {
        assert(components(j).take(components(dir).len() as int) =~= components(dir));
    }
}

/// A path starts with itself.
pub proof fn lemma_starts_with_self(path: Seq<char>)
    ensures
        path_starts_with(path, path),
{
    assert(components(path).take(components(path).len() as int) =~= components(path));
}

/// The base name of `dir/name` is `name`, for a name that is not empty,
/// holds no `/`, and is neither `.` nor `..`.
pub proof fn lemma_basename_of_entry(dir: Seq<char>, name: Seq<char>)
    requires
        name.len() > 0,
        forall|i: int| 0 <= i < name.len() ==> name[i] != '/',
        name != seq!['.'],
        name != seq!['.', '.'],
    ensures
        basename_spec(dir + seq!['/'] + name) == name,
{
    lemma_components_join(dir, name);
    lemma_body_single_segment(name, seq![]);
    assert(seq![] + name =~= name);
}

/// The command found for a path is that of the first directory holding it,
/// and there is none exactly when no directory holds the path.
pub proof fn lemma_find_command_first_holder(path: Seq<char>, dirs: Seq<(Seq<char>, Seq<char>)>)
    ensures
        find_command_spec(path, dirs) is None <==> (forall|k: int|
            0 <= k < dirs.len() ==> !path_starts_with(path, #[trigger] dirs[k].0)),
        find_command_spec(path, dirs) is Some ==> exists|k: int|
            0 <= k < dirs.len() && path_starts_with(path, #[trigger] dirs[k].0)
                && find_command_spec(path, dirs) == Some(dirs[k].1) && (forall|j: int|
                0 <= j < k ==> !path_starts_with(path, #[trigger] dirs[j].0)),
    decreases dirs.len(),
{
    if dirs.len() > 0 {
        let tail = dirs.drop_first();
        lemma_find_command_first_holder(path, tail);
        if path_starts_with(path, dirs[0].0) {
            assert(path_starts_with(path, dirs[0].0) && find_command_spec(path, dirs) == Some(
                dirs[0].1,
            ));
        } else {
            assert forall|k: int| 1 <= k < dirs.len() implies dirs[k] == #[trigger] tail[k - 1] by {}
            if find_command_spec(path, dirs) is Some {
                let k = choose|k: int|
                    0 <= k < tail.len() && path_starts_with(path, #[trigger] tail[k].0)
                        && find_command_spec(path, tail) == Some(tail[k].1) && (forall|j: int|
                        0 <= j < k ==> !path_starts_with(path, #[trigger] tail[j].0));
                assert(dirs[k + 1] == tail[k]);
                assert forall|j: int| 0 <= j < k + 1 implies !path_starts_with(
                    path,
                    #[trigger] dirs[j].0,
                ) by {
                    if j > 0 {
                        assert(dirs[j] == tail[j - 1]);
                    }
                }
            } else {
                assert forall|k: int| 0 <= k < dirs.len() implies !path_starts_with(
                    path,
                    #[trigger] dirs[k].0,
                ) by {
                    if k > 0 {
                        assert(dirs[k] == tail[k - 1]);
                    }
                }
            }
        }
    }
}

/// A path under the first directory of the table gets that directory's command.
pub proof fn lemma_first_dir_claims_entries(dirs: Seq<(Seq<char>, Seq<char>)>, rest: Seq<char>)
    requires
        dirs.len() > 0,
    ensures
        find_command_spec(dirs[0].0 + seq!['/'] + rest, dirs) == Some(dirs[0].1),
{
    lemma_dir_holds_entries(dirs[0].0, rest);
}

/// A component found in a path's text; a name is held as the span of the
/// characters it covers.
enum Part {
    RootDir,
    CurDir,
    ParentDir,
    Normal(usize, usize),
}

spec fn part_view(p: Part, s: Seq<char>) -> Component {
    match p {
        Part::RootDir => Component::RootDir,
        Part::CurDir => Component::CurDir,
        Part::ParentDir => Component::ParentDir,
        Part::Normal(a, b) => Component::Normal(s.subrange(a as int, b as int)),
    }
}

spec fn parts_view(ps: Seq<Part>, s: Seq<char>) -> Seq<Component> {
    ps.map_values(|p: Part| part_view(p, s))
}

spec fn spans_ok(ps: Seq<Part>, n: nat) -> bool {
    forall|k: int|
        0 <= k < ps.len() ==> match #[trigger] ps[k] {
            Part::Normal(a, b) => a <= b <= n,
            _ => true,
        }
}

/// Adds the component of the segment `s[start..end]`, if it has one.
fn push_segment(parts: &mut Vec<Part>, s: &Vec<char>, start: usize, end: usize)
    requires
        start <= end <= s@.len(),
        spans_ok(old(parts)@, s@.len()),
    ensures
        parts_view(final(parts)@, s@) == parts_view(old(parts)@, s@) + segment_component(
            s@.subrange(start as int, end as int),
        ),
        spans_ok(final(parts)@, s@.len()),
{
    let ghost seg = s@.subrange(start as int, end as int);
    let ghost before = parts@;
    if end == start {
        assert(parts_view(parts@, s@) + segment_component(seg) =~= parts_view(parts@, s@));
    } else if end - start == 1 && s[start] == '.' {
        assert(seg =~= seq!['.']);
        assert(parts_view(parts@, s@) + segment_component(seg) =~= parts_view(parts@, s@));
    } else if end - start == 2 && s[start] == '.' && s[start + 1] == '.' {
        assert(seg =~= seq!['.', '.']);
        parts.push(Part::ParentDir);
        assert(parts_view(parts@, s@) =~= parts_view(before, s@) + segment_component(seg));
    } else {
        assert(seg != seq!['.']) by {
            if seg.len() == 1 {
                assert(seg[0] == s@[start as int]);
            }
        }
        assert(seg != seq!['.', '.']) by {
            if seg.len() == 2 {
                assert(seg[0] == s@[start as int]);
                assert(seg[1] == s@[start + 1]);
            }
        }
        parts.push(Part::Normal(start, end));
        assert(parts_view(parts@, s@) =~= parts_view(before, s@) + segment_component(seg));
    }
}

/// The components of the path whose characters are `s`.
fn path_parts(s: &Vec<char>) -> (parts: Vec<Part>)
    ensures
        parts_view(parts@, s@) == components(s@),
        spans_ok(parts@, s@.len()),
{
    let n = s.len();
    let mut parts: Vec<Part> = Vec::new();
    let mut i: usize = 0;
    if n > 0 && s[0] == '/' {
        parts.push(Part::RootDir);
        i = 1;
    } else if n > 0 && s[0] == '.' && (n == 1 || s[1] == '/') {
        parts.push(Part::CurDir);
        i = 1;
    }
    let mut seg: usize = i;
    assert(s@.subrange(i as int, n as int) =~= if i == 1 { s@.drop_first() } else { s@ });
    assert(s@.subrange(seg as int, i as int) =~= Seq::<char>::empty());
    assert(parts_view(parts@, s@) + body_components(
        s@.subrange(i as int, n as int),
        s@.subrange(seg as int, i as int),
    ) =~= components(s@));
    while i < n
        invariant
            n == s@.len(),
            seg <= i <= n,
            spans_ok(parts@, s@.len()),
            parts_view(parts@, s@) + body_components(
                s@.subrange(i as int, n as int),
                s@.subrange(seg as int, i as int),
            ) == components(s@),
        decreases n - i,
    {
        let ghost t = s@.subrange(i as int, n as int);
        let ghost cur = s@.subrange(seg as int, i as int);
        let ghost before = parts_view(parts@, s@);
        assert(t.drop_first() =~= s@.subrange(i + 1, n as int));
        if s[i] == '/' {
            push_segment(&mut parts, s, seg, i);
            i = i + 1;
            seg = i;
            assert(s@.subrange(seg as int, i as int) =~= Seq::<char>::empty());
            assert(parts_view(parts@, s@) + body_components(
                s@.subrange(i as int, n as int),
                s@.subrange(seg as int, i as int),
            ) =~= before + (segment_component(cur) + body_components(t.drop_first(), seq![])));
        } else {
            assert(cur.push(t[0]) =~= s@.subrange(seg as int, i + 1));
            i = i + 1;
        }
    }
    push_segment(&mut parts, s, seg, n);
    assert(s@.subrange(n as int, n as int) =~= Seq::<char>::empty());
    parts
}

/// Whether `a[a0..a1]` and `b[b0..b1]` hold the same characters.
fn span_eq(a: &Vec<char>, a0: usize, a1: usize, b: &Vec<char>, b0: usize, b1: usize) -> (r: bool)
    requires
        a0 <= a1 <= a@.len(),
        b0 <= b1 <= b@.len(),
    ensures
        r == (a@.subrange(a0 as int, a1 as int) == b@.subrange(b0 as int, b1 as int)),
{
    if a1 - a0 != b1 - b0 {
        assert(a@.subrange(a0 as int, a1 as int).len() != b@.subrange(b0 as int, b1 as int).len());
        return false;
    }
    let len = a1 - a0;
    let ghost sa = a@.subrange(a0 as int, a1 as int);
    let ghost sb = b@.subrange(b0 as int, b1 as int);
    let mut k: usize = 0;
    while k < len
        invariant
            len == a1 - a0,
            len == b1 - b0,
            a0 <= a1 <= a@.len(),
            b0 <= b1 <= b@.len(),
            k <= len,
            sa == a@.subrange(a0 as int, a1 as int),
            sb == b@.subrange(b0 as int, b1 as int),
            forall|j: int| 0 <= j < k ==> sa[j] == sb[j],
        decreases len - k,
    {
        if a[a0 + k] != b[b0 + k] {
            assert(sa[k as int] != sb[k as int]);
            return false;
        }
        assert(sa[k as int] == sb[k as int]);
        k = k + 1;
    }
    assert(sa =~= sb);
    true
}

/// Whether the `k`-th parts of two paths are the same component.
fn part_eq(a: &Vec<char>, ap: &Vec<Part>, b: &Vec<char>, bp: &Vec<Part>, k: usize) -> (r: bool)
    requires
        k < ap@.len(),
        k < bp@.len(),
        spans_ok(ap@, a@.len()),
        spans_ok(bp@, b@.len()),
    ensures
        r == (part_view(ap@[k as int], a@) == part_view(bp@[k as int], b@)),
{
    assert(match ap@[k as int] { Part::Normal(x, y) => x <= y <= a@.len(), _ => true });
    assert(match bp@[k as int] { Part::Normal(x, y) => x <= y <= b@.len(), _ => true });
    match (&ap[k], &bp[k]) {
        (Part::RootDir, Part::RootDir) => true,
        (Part::CurDir, Part::CurDir) => true,
        (Part::ParentDir, Part::ParentDir) => true,
        (Part::Normal(a0, a1), Part::Normal(b0, b1)) => span_eq(a, *a0, *a1, b, *b0, *b1),
        _ => false,
    }
}

/// Whether the components of `b` lead the components of `a`.
fn parts_start_with(a: &Vec<char>, ap: &Vec<Part>, b: &Vec<char>, bp: &Vec<Part>) -> (r: bool)
    requires
        spans_ok(ap@, a@.len()),
        spans_ok(bp@, b@.len()),
    ensures
        r == ({
            let ac = parts_view(ap@, a@);
            let bc = parts_view(bp@, b@);
            bc.len() <= ac.len() && ac.take(bc.len() as int) == bc
        }),
{
    let ghost ac = parts_view(ap@, a@);
    let ghost bc = parts_view(bp@, b@);
    if bp.len() > ap.len() {
        return false;
    }
    let mut k: usize = 0;
    while k < bp.len()
        invariant
            bp@.len() <= ap@.len(),
            spans_ok(ap@, a@.len()),
            spans_ok(bp@, b@.len()),
            ac == parts_view(ap@, a@),
            bc == parts_view(bp@, b@),
            k <= bp@.len(),
            forall|j: int| 0 <= j < k ==> ac[j] == bc[j],
        decreases bp@.len() - k,
    {
        if !part_eq(a, ap, b, bp, k) {
            assert(ac.take(bc.len() as int)[k as int] != bc[k as int]);
            return false;
        }
        k = k + 1;
    }
    assert(ac.take(bc.len() as int) =~= bc);
    true
}

/// The file name of `path`: its last component when that is a name, and the
/// empty text otherwise (for `/`, `..`, `.` or the empty path).
pub fn basename(path: &str) -> (name: &str)
    ensures
        name@ == basename_spec(path@),
{
    let chars = chars_of(path);
    let parts = path_parts(&chars);
    if parts.len() > 0 {
        let last = parts.len() - 1;
        assert(match parts@[last as int] { Part::Normal(x, y) => x <= y <= chars@.len(), _ => true });
        if let Part::Normal(a, b) = parts[last] {
            return path.substring_char(a, b);
        }
    }
    proof {
        reveal_strlit("");
    }
    ""
}

/// The command of the first directory in `dirs` that `path` lies in, where a
/// directory holds a path when its components lead the path's components.
pub fn find_command<'a>(path: &str, dirs: &'a [(String, String)]) -> (cmd: Option<&'a str>)
    ensures
        match cmd {
            Some(c) => find_command_spec(path@, dirs_view(dirs@)) == Some(c@),
            None => find_command_spec(path@, dirs_view(dirs@)) is None,
        },
{
    let ghost all = dirs_view(dirs@);
    let chars = chars_of(path);
    let parts = path_parts(&chars);
    let mut i: usize = 0;
    assert(all.skip(0) =~= all);
    while i < dirs.len()
        invariant
            i <= dirs@.len(),
            all == dirs_view(dirs@),
            chars@ == path@,
            parts_view(parts@, chars@) == components(path@),
            spans_ok(parts@, chars@.len()),
            find_command_spec(path@, all) == find_command_spec(path@, all.skip(i as int)),
        decreases dirs@.len() - i,
    {
        let dir_chars = chars_of(dirs[i].0.as_str());
        let dir_parts = path_parts(&dir_chars);
        let ghost rest = all.skip(i as int);
        assert(rest[0] == (dirs@[i as int].0@, dirs@[i as int].1@));
        if parts_start_with(&chars, &parts, &dir_chars, &dir_parts) {
            return Some(dirs[i].1.as_str());
        }
        assert(rest.drop_first() =~= all.skip(i + 1));
        i = i + 1;
    }
    assert(all.skip(i as int) =~= Seq::<(Seq<char>, Seq<char>)>::empty());
    None
}

} // verus!
