//! Command templates: the six `{TOKEN}` placeholders and their expansion.
use vstd::prelude::*;
use crate::text::{chars_of, matches_at, occurs_in};

verus! {

/// The values that a command template's tokens expand to.
#[derive(Debug)]
pub struct EventContext<'a> {
    pub file: &'a str,
    pub path: &'a str,
    pub old_file: &'a str,
    pub old_path: &'a str,
    pub event: &'a str,
    pub timestamp: &'a str,
}

/// An event context as text.
#[verifier::ext_equal]
pub struct ContextView {
    pub file: Seq<char>,
    pub path: Seq<char>,
    pub old_file: Seq<char>,
    pub old_path: Seq<char>,
    pub event: Seq<char>,
    pub timestamp: Seq<char>,
}

impl<'a> View for EventContext<'a> {
    type V = ContextView;

    open spec fn view(&self) -> ContextView {
        ContextView {
            file: self.file@,
            path: self.path@,
            old_file: self.old_file@,
            old_path: self.old_path@,
            event: self.event@,
            timestamp: self.timestamp@,
        }
    }
}

/// The tokens, numbered `0..6`: `{FILE}`, `{PATH}`, `{OLD_FILE}`,
/// `{OLD_PATH}`, `{EVENT}`, `{TIMESTAMP}`.
pub open spec fn token(k: int) -> Seq<char> {
    if k == 0 {
        seq!['{', 'F', 'I', 'L', 'E', '}']
    } else if k == 1 {
        seq!['{', 'P', 'A', 'T', 'H', '}']
    } else if k == 2 {
        seq!['{', 'O', 'L', 'D', '_', 'F', 'I', 'L', 'E', '}']
    } else if k == 3 {
        seq!['{', 'O', 'L', 'D', '_', 'P', 'A', 'T', 'H', '}']
    } else if k == 4 {
        seq!['{', 'E', 'V', 'E', 'N', 'T', '}']
    } else {
        seq!['{', 'T', 'I', 'M', 'E', 'S', 'T', 'A', 'M', 'P', '}']
    }
}

/// The value that token `k` expands to.
pub open spec fn token_value(k: int, ctx: ContextView) -> Seq<char> {
    if k == 0 {
        ctx.file
    } else if k == 1 {
        ctx.path
    } else if k == 2 {
        ctx.old_file
    } else if k == 3 {
        ctx.old_path
    } else if k == 4 {
        ctx.event
    } else {
        ctx.timestamp
    }
}

/// `s` begins with `pat`.
pub open spec fn opens_with(s: Seq<char>, pat: Seq<char>) -> bool {
    pat.len() <= s.len() && s.take(pat.len() as int) == pat
}

/// The first of the tokens `k`, `k + 1`, ... that `s` begins with.
pub open spec fn first_token_from(s: Seq<char>, k: int) -> Option<int>
    decreases 6 - k,
{
    if k < 0 || k >= 6 {
        None
    } else if opens_with(s, token(k)) {
        Some(k)
    } else {
        first_token_from(s, k + 1)
    }
}

/// The token that `s` begins with, if any.
pub open spec fn leading_token(s: Seq<char>) -> Option<int> {
    first_token_from(s, 0)
}

/// The template expanded in one pass from left to right: where a token
/// begins, its value is written and reading goes on after the token; every
/// other character is copied. Values are written as they are, never read for
/// tokens themselves.
pub open spec fn substitute_spec(template: Seq<char>, ctx: ContextView) -> Seq<char>
    decreases template.len(),
{
    if template.len() == 0 {
        seq![]
    } else {
        match leading_token(template) {
            Some(k) => {
                proof {
                    lemma_token_facts(k);
                    lemma_first_token_some(template, 0);
                }
                token_value(k, ctx) + substitute_spec(template.skip(token(k).len() as int), ctx)
            },
            None => seq![template[0]] + substitute_spec(template.drop_first(), ctx),
        }
    }
}

/// A character of a token's name: an upper-case letter or `_`.
pub open spec fn is_name_char(c: char) -> bool {
    ('A' <= c && c <= 'Z') || c == '_'
}

/// Each token is `{`, a name of upper-case letters and `_`, then `}`.
pub proof fn lemma_token_facts(k: int)
    ensures
        token(k).len() >= 3,
        token(k)[0] == '{',
        token(k)[token(k).len() - 1] == '}',
        forall|i: int| 0 < i < token(k).len() - 1 ==> is_name_char(#[trigger] token(k)[i]),
{
}

/// What `first_token_from` finds is a token that `s` begins with, at or after `j`.
pub proof fn lemma_first_token_some(s: Seq<char>, j: int)
    ensures
        first_token_from(s, j) matches Some(k) ==> 0 <= j <= k < 6 && opens_with(s, token(k)),
    decreases 6 - j,
{
    if 0 <= j < 6 && !opens_with(s, token(j)) {
        lemma_first_token_some(s, j + 1);
    }
}

/// `first_token_from` finds nothing exactly when `s` begins with none of the
/// tokens from `j` on.
pub proof fn lemma_first_token_none(s: Seq<char>, j: int)
    requires
        0 <= j,
    ensures
        first_token_from(s, j) is None <==> (forall|k: int|
            j <= k < 6 ==> !opens_with(s, #[trigger] token(k))),
    decreases 6 - j,
{
    if j < 6 {
        lemma_first_token_none(s, j + 1);
        if first_token_from(s, j) is None {
            assert forall|k: int| j <= k < 6 implies !opens_with(s, #[trigger] token(k)) by {
                if k > j {
                    assert(!opens_with(s, token(k)));
                }
            }
        }
    }
}

/// A text whose first character is not `{` begins with no token.
proof fn lemma_no_token_without_brace(s: Seq<char>)
    requires
        s.len() > 0,
        s[0] != '{',
    ensures
        leading_token(s) is None,
{
    assert forall|k: int| 0 <= k < 6 implies !opens_with(s, #[trigger] token(k)) by {
        lemma_token_facts(k);
        if opens_with(s, token(k)) {
            assert(s.take(token(k).len() as int)[0] == s[0]);
        }
    }
    lemma_first_token_none(s, 0);
}

/// Literal token text agrees with `token`.
proof fn lemma_token_literals()
    ensures
        "{FILE}"@ == token(0),
        "{PATH}"@ == token(1),
        "{OLD_FILE}"@ == token(2),
        "{OLD_PATH}"@ == token(3),
        "{EVENT}"@ == token(4),
        "{TIMESTAMP}"@ == token(5),
{
    reveal_strlit("{FILE}");
    reveal_strlit("{PATH}");
    reveal_strlit("{OLD_FILE}");
    reveal_strlit("{OLD_PATH}");
    reveal_strlit("{EVENT}");
    reveal_strlit("{TIMESTAMP}");
    assert("{FILE}"@ =~= token(0));
    assert("{PATH}"@ =~= token(1));
    assert("{OLD_FILE}"@ =~= token(2));
    assert("{OLD_PATH}"@ =~= token(3));
    assert("{EVENT}"@ =~= token(4));
    assert("{TIMESTAMP}"@ =~= token(5));
}

/// The six tokens as characters, in their order.
fn token_table() -> (toks: Vec<Vec<char>>)
    ensures
        toks@.len() == 6,
        forall|k: int| 0 <= k < 6 ==> (#[trigger] toks@[k])@ == token(k),
{
    proof {
        lemma_token_literals();
    }
    let mut toks: Vec<Vec<char>> = Vec::new();
    toks.push(chars_of("{FILE}"));
    toks.push(chars_of("{PATH}"));
    toks.push(chars_of("{OLD_FILE}"));
    toks.push(chars_of("{OLD_PATH}"));
    toks.push(chars_of("{EVENT}"));
    toks.push(chars_of("{TIMESTAMP}"));
    toks
}

/// Whether `s[start..]` begins with `pat`.
fn opens_at(s: &Vec<char>, start: usize, pat: &Vec<char>) -> (b: bool)
    requires
        start <= s@.len(),
    ensures
        b == opens_with(s@.subrange(start as int, s@.len() as int), pat@),
{
    let ghost t = s@.subrange(start as int, s@.len() as int);
    if pat.len() > s.len() - start {
        return false;
    }
    let b = matches_at(s, start, pat);
    assert(t.take(pat@.len() as int) =~= s@.subrange(start as int, start + pat@.len()));
    b
}

/// The token that `s[start..]` begins with, if any.
fn token_at(s: &Vec<char>, start: usize, toks: &Vec<Vec<char>>) -> (k: Option<usize>)
    requires
        start <= s@.len(),
        toks@.len() == 6,
        forall|j: int| 0 <= j < 6 ==> (#[trigger] toks@[j])@ == token(j),
    ensures
        match k {
            Some(k) => k < 6 && leading_token(s@.subrange(start as int, s@.len() as int)) == Some(
                k as int,
            ),
            None => leading_token(s@.subrange(start as int, s@.len() as int)) is None,
        },
{
    let ghost t = s@.subrange(start as int, s@.len() as int);
    let mut k: usize = 0;
    while k < 6
        invariant
            k <= 6,
            start <= s@.len(),
            t == s@.subrange(start as int, s@.len() as int),
            toks@.len() == 6,
            forall|j: int| 0 <= j < 6 ==> (#[trigger] toks@[j])@ == token(j),
            leading_token(t) == first_token_from(t, k as int),
        decreases 6 - k,
    {
        if opens_at(s, start, &toks[k]) {
            return Some(k);
        }
        k = k + 1;
    }
    None
}

/// The value of token `k` in `ctx`.
fn token_value_of<'a>(ctx: &EventContext<'a>, k: usize) -> (v: &'a str)
    requires
        k < 6,
    ensures
        v@ == token_value(k as int, ctx@),
{
    if k == 0 {
        ctx.file
    } else if k == 1 {
        ctx.path
    } else if k == 2 {
        ctx.old_file
    } else if k == 3 {
        ctx.old_path
    } else if k == 4 {
        ctx.event
    } else {
        ctx.timestamp
    }
}

/// Expands the tokens of a command template with the values of `ctx`, in one
/// pass from left to right (see `substitute_spec`). Text in braces that is
/// not one of the six tokens is left as it is.
pub fn substitute(template: &str, ctx: &EventContext) -> (out: String)
    ensures
        out@ == substitute_spec(template@, ctx@),
{
    let chars = chars_of(template);
    let toks = token_table();
    let n = chars.len();
    let mut out = String::new();
    let mut seg: usize = 0;
    let mut i: usize = 0;
    assert(template@.subrange(0, n as int) =~= template@);
    while i < n
        invariant
            n == template@.len(),
            chars@ == template@,
            toks@.len() == 6,
            forall|j: int| 0 <= j < 6 ==> (#[trigger] toks@[j])@ == token(j),
            seg <= i <= n,
            substitute_spec(template@, ctx@) == out@ + template@.subrange(seg as int, i as int)
                + substitute_spec(template@.subrange(i as int, n as int), ctx@),
        decreases n - i,
    {
        let ghost t = template@.subrange(i as int, n as int);
        let ghost old_out = out@;
        let ghost old_seg = seg;
        match token_at(&chars, i, &toks) {
            Some(k) => {
                proof {
                    lemma_token_facts(k as int);
                    lemma_first_token_some(t, 0);
                }
                let len = toks[k].len();
                assert(t.skip(len as int) =~= template@.subrange(i + len, n as int));
                out.append(template.substring_char(seg, i));
                out.append(token_value_of(ctx, k));
                i = i + len;
                seg = i;
                assert(template@.subrange(seg as int, i as int) =~= Seq::<char>::empty());
                assert(out@ + template@.subrange(seg as int, i as int) + substitute_spec(
                    template@.subrange(i as int, n as int),
                    ctx@,
                ) =~= old_out + template@.subrange(old_seg as int, i - len) + (token_value(
                    k as int,
                    ctx@,
                ) + substitute_spec(t.skip(len as int), ctx@)));
            },
            None => {
                assert(t.drop_first() =~= template@.subrange(i + 1, n as int));
                assert(template@.subrange(seg as int, i + 1) =~= template@.subrange(
                    seg as int,
                    i as int,
                ).push(template@[i as int]));
                i = i + 1;
                assert(out@ + template@.subrange(seg as int, i as int) + substitute_spec(
                    template@.subrange(i as int, n as int),
                    ctx@,
                ) =~= out@ + template@.subrange(seg as int, i - 1) + (seq![t[0]]
                    + substitute_spec(t.drop_first(), ctx@)));
            },
        }
    }
    out.append(template.substring_char(seg, n));
    assert(template@.subrange(n as int, n as int) =~= Seq::<char>::empty());
    assert(out@ =~= substitute_spec(template@, ctx@));
    out
}

/// None of the six tokens occurs in the template.
pub open spec fn token_free(template: Seq<char>) -> bool {
    forall|k: int| 0 <= k < 6 ==> !occurs_in(#[trigger] token(k), template)
}

/// A template without any of the six tokens is run as written: text in
/// braces that is not a token, such as `{UNKNOWN}`, is left alone.
pub proof fn lemma_substitute_keeps_token_free_text(template: Seq<char>, ctx: ContextView)
    requires
        token_free(template),
    ensures
        substitute_spec(template, ctx) == template,
    decreases template.len(),
{
    if template.len() > 0 {
        assert forall|k: int| 0 <= k < 6 implies !opens_with(template, #[trigger] token(k)) by {
            let z: int = 0;
            if opens_with(template, token(k)) {
                assert(template.subrange(z, z + token(k).len()) =~= template.take(
                    token(k).len() as int,
                ));
            }
        }
        lemma_first_token_none(template, 0);
        let rest = template.drop_first();
        assert forall|k: int| 0 <= k < 6 implies !occurs_in(#[trigger] token(k), rest) by {
            if occurs_in(token(k), rest) {
                let j = choose|j: int|
                    0 <= j && j + token(k).len() <= rest.len() && #[trigger] rest.subrange(
                        j,
                        j + token(k).len(),
                    ) == token(k);
                assert(template.subrange(j + 1, j + 1 + token(k).len()) =~= rest.subrange(
                    j,
                    j + token(k).len(),
                ));
            }
        }
        lemma_substitute_keeps_token_free_text(rest, ctx);
        assert(seq![template[0]] + rest =~= template);
    }
}

/// A template that is one token alone runs as that token's value.
pub proof fn lemma_substitute_lone_token(k: int, ctx: ContextView)
    requires
        0 <= k < 6,
    ensures
        substitute_spec(token(k), ctx) == token_value(k, ctx),
{
    let t = token(k);
    lemma_token_facts(k);
    assert(t.take(t.len() as int) =~= t);
    assert forall|j: int| 0 <= j < k implies !opens_with(t, #[trigger] token(j)) by {
        lemma_token_facts(j);
        if token(j).len() <= t.len() {
            if j == 0 {
                assert(t.take(token(j).len() as int)[1] != token(j)[1]);
            } else if j == 1 {
                assert(t.take(token(j).len() as int)[1] != token(j)[1]);
            } else if j == 2 && k == 3 {
                assert(t.take(token(j).len() as int)[5] != token(j)[5]);
            } else {
                assert(t.take(token(j).len() as int)[1] != token(j)[1]);
            }
        }
    }
    lemma_leading_is_first(t, k);
    assert(t.skip(t.len() as int) =~= Seq::<char>::empty());
    assert(substitute_spec(t.skip(t.len() as int), ctx) =~= Seq::<char>::empty());
    assert(substitute_spec(t, ctx) == token_value(k, ctx) + substitute_spec(
        t.skip(t.len() as int),
        ctx,
    ));
    assert(token_value(k, ctx) + Seq::<char>::empty() =~= token_value(k, ctx));
}

/// A template that begins with token `k` expands to that token's value and
/// then to the expansion of what follows the token.
proof fn lemma_token_then_rest(k: int, rest: Seq<char>, ctx: ContextView)
    requires
        0 <= k < 6,
    ensures
        substitute_spec(token(k) + rest, ctx) == token_value(k, ctx) + substitute_spec(rest, ctx),
{
    let tk = token(k);
    let s = tk + rest;
    lemma_token_facts(k);
    assert(s.take(tk.len() as int) =~= tk);
    assert forall|j: int| 0 <= j < k implies !opens_with(s, #[trigger] token(j)) by {
        lemma_token_facts(j);
        if token(j).len() <= s.len() {
            let d: int = if j == 2 && k == 3 { 5 } else { 1 };
            assert(s.take(token(j).len() as int)[d] == tk[d]);
            assert(tk[d] != token(j)[d]);
        }
    }
    lemma_leading_is_first(s, k);
    assert(s.skip(tk.len() as int) =~= rest);
}

/// Each token expands to its own field of the context, wherever it stands:
/// a template that begins with `{FILE}` gives the file's base name and then
/// the expansion of the rest, `{PATH}` the path, `{OLD_FILE}` the old base
/// name, `{OLD_PATH}` the old path, `{EVENT}` the event name and
/// `{TIMESTAMP}` the time stamp, whatever the values are.
pub proof fn lemma_each_token_gives_its_field(rest: Seq<char>, ctx: ContextView)
    ensures
        substitute_spec(seq!['{', 'F', 'I', 'L', 'E', '}'] + rest, ctx) == ctx.file
            + substitute_spec(rest, ctx),
        substitute_spec(seq!['{', 'P', 'A', 'T', 'H', '}'] + rest, ctx) == ctx.path
            + substitute_spec(rest, ctx),
        substitute_spec(seq!['{', 'O', 'L', 'D', '_', 'F', 'I', 'L', 'E', '}'] + rest, ctx)
            == ctx.old_file + substitute_spec(rest, ctx),
        substitute_spec(seq!['{', 'O', 'L', 'D', '_', 'P', 'A', 'T', 'H', '}'] + rest, ctx)
            == ctx.old_path + substitute_spec(rest, ctx),
        substitute_spec(seq!['{', 'E', 'V', 'E', 'N', 'T', '}'] + rest, ctx) == ctx.event
            + substitute_spec(rest, ctx),
        substitute_spec(seq!['{', 'T', 'I', 'M', 'E', 'S', 'T', 'A', 'M', 'P', '}'] + rest, ctx)
            == ctx.timestamp + substitute_spec(rest, ctx),
{
    lemma_token_then_rest(0, rest, ctx);
    lemma_token_then_rest(1, rest, ctx);
    lemma_token_then_rest(2, rest, ctx);
    lemma_token_then_rest(3, rest, ctx);
    lemma_token_then_rest(4, rest, ctx);
    lemma_token_then_rest(5, rest, ctx);
}

/// Each token alone expands to exactly its own field of the context.
pub proof fn lemma_lone_tokens_give_their_fields(ctx: ContextView)
    ensures
        substitute_spec(seq!['{', 'F', 'I', 'L', 'E', '}'], ctx) == ctx.file,
        substitute_spec(seq!['{', 'P', 'A', 'T', 'H', '}'], ctx) == ctx.path,
        substitute_spec(seq!['{', 'O', 'L', 'D', '_', 'F', 'I', 'L', 'E', '}'], ctx) == ctx.old_file,
        substitute_spec(seq!['{', 'O', 'L', 'D', '_', 'P', 'A', 'T', 'H', '}'], ctx) == ctx.old_path,
        substitute_spec(seq!['{', 'E', 'V', 'E', 'N', 'T', '}'], ctx) == ctx.event,
        substitute_spec(seq!['{', 'T', 'I', 'M', 'E', 'S', 'T', 'A', 'M', 'P', '}'], ctx)
            == ctx.timestamp,
{
    let e = Seq::<char>::empty();
    lemma_each_token_gives_its_field(e, ctx);
    assert(substitute_spec(e, ctx) =~= e);
    assert(seq!['{', 'F', 'I', 'L', 'E', '}'] + e =~= seq!['{', 'F', 'I', 'L', 'E', '}']);
    assert(seq!['{', 'P', 'A', 'T', 'H', '}'] + e =~= seq!['{', 'P', 'A', 'T', 'H', '}']);
    assert(seq!['{', 'O', 'L', 'D', '_', 'F', 'I', 'L', 'E', '}'] + e =~= seq![
        '{',
        'O',
        'L',
        'D',
        '_',
        'F',
        'I',
        'L',
        'E',
        '}',
    ]);
    assert(seq!['{', 'O', 'L', 'D', '_', 'P', 'A', 'T', 'H', '}'] + e =~= seq![
        '{',
        'O',
        'L',
        'D',
        '_',
        'P',
        'A',
        'T',
        'H',
        '}',
    ]);
    assert(seq!['{', 'E', 'V', 'E', 'N', 'T', '}'] + e =~= seq!['{', 'E', 'V', 'E', 'N', 'T', '}']);
    assert(seq!['{', 'T', 'I', 'M', 'E', 'S', 'T', 'A', 'M', 'P', '}'] + e =~= seq![
        '{',
        'T',
        'I',
        'M',
        'E',
        'S',
        'T',
        'A',
        'M',
        'P',
        '}',
    ]);
    assert(ctx.file + e =~= ctx.file);
    assert(ctx.path + e =~= ctx.path);
    assert(ctx.old_file + e =~= ctx.old_file);
    assert(ctx.old_path + e =~= ctx.old_path);
    assert(ctx.event + e =~= ctx.event);
    assert(ctx.timestamp + e =~= ctx.timestamp);
}

/// A character other than `{` is copied as it is, and expansion goes on
/// after it.
pub proof fn lemma_plain_char_is_copied(c: char, rest: Seq<char>, ctx: ContextView)
    requires
        c != '{',
    ensures
        substitute_spec(seq![c] + rest, ctx) == seq![c] + substitute_spec(rest, ctx),
{
    let s = seq![c] + rest;
    lemma_no_token_without_brace(s);
    assert(s.drop_first() =~= rest);
}

/// When `s` begins with token `k` and with no earlier one, that is its leading token.
proof fn lemma_leading_is_first(s: Seq<char>, k: int)
    requires
        0 <= k < 6,
        opens_with(s, token(k)),
        forall|j: int| 0 <= j < k ==> !opens_with(s, #[trigger] token(j)),
    ensures
        leading_token(s) == Some(k),
{
    lemma_first_from_skips(s, 0, k);
}

proof fn lemma_first_from_skips(s: Seq<char>, j: int, k: int)
    requires
        0 <= j <= k < 6,
        opens_with(s, token(k)),
        forall|i: int| j <= i < k ==> !opens_with(s, #[trigger] token(i)),
    ensures
        first_token_from(s, j) == Some(k),
    decreases k - j,
{
    if j < k {
        lemma_first_from_skips(s, j + 1, k);
    }
}

/// The text holds no `{`.
pub open spec fn brace_free(s: Seq<char>) -> bool {
    forall|i: int| 0 <= i < s.len() ==> s[i] != '{'
}

/// No value of the context holds a `{`.
pub open spec fn context_brace_free(ctx: ContextView) -> bool {
    forall|k: int| 0 <= k < 6 ==> brace_free(#[trigger] token_value(k, ctx))
}

/// Braces do not nest: between any two `{` there is a `}`.
pub open spec fn braces_unnested(s: Seq<char>) -> bool {
    forall|i: int, j: int|
        0 <= i < j < s.len() && s[i] == '{' && s[j] == '{' ==> exists|m: int|
            i < m < j && #[trigger] s[m] == '}'
}

/// Where no `{` stands in the first `k` characters, they are copied as they are.
proof fn lemma_copy_prefix(s: Seq<char>, k: int, ctx: ContextView)
    requires
        0 <= k <= s.len(),
        forall|i: int| 0 <= i < k ==> s[i] != '{',
    ensures
        substitute_spec(s, ctx) == s.take(k) + substitute_spec(s.skip(k), ctx),
    decreases k,
{
    if k == 0 {
        assert(s.skip(0) =~= s);
        assert(s.take(0) + s =~= s);
    } else {
        lemma_no_token_without_brace(s);
        let rest = s.drop_first();
        lemma_copy_prefix(rest, k - 1, ctx);
        assert(seq![s[0]] + rest.take(k - 1) =~= s.take(k));
        assert(rest.skip(k - 1) =~= s.skip(k));
        assert(substitute_spec(s, ctx) =~= seq![s[0]] + (rest.take(k - 1) + substitute_spec(
            rest.skip(k - 1),
            ctx,
        )));
    }
}

/// The index of the first brace (`{` or `}`) in `s`, or its length.
spec fn first_brace(s: Seq<char>) -> int
    decreases s.len(),
{
    if s.len() == 0 {
        0
    } else if s[0] == '{' || s[0] == '}' {
        0
    } else {
        1 + first_brace(s.drop_first())
    }
}

proof fn lemma_first_brace(s: Seq<char>)
    ensures
        0 <= first_brace(s) <= s.len(),
        forall|i: int| 0 <= i < first_brace(s) ==> s[i] != '{' && s[i] != '}',
        first_brace(s) < s.len() ==> (s[first_brace(s)] == '{' || s[first_brace(s)] == '}'),
    decreases s.len(),
{
    if s.len() > 0 && s[0] != '{' && s[0] != '}' {
        let rest = s.drop_first();
        lemma_first_brace(rest);
        assert forall|i: int| 0 <= i < first_brace(s) implies s[i] != '{' && s[i] != '}' by {
            if i > 0 {
                assert(s[i] == rest[i - 1]);
            }
        }
    }
}

/// A `{` that opens no token, in text whose braces do not nest, still opens
/// no token once the text after it is expanded with values free of `{`.
proof fn lemma_stray_brace_stays_stray(t: Seq<char>, ctx: ContextView)
    requires
        t.len() > 0,
        t[0] == '{',
        leading_token(t) is None,
        braces_unnested(t),
    ensures
        leading_token(seq!['{'] + substitute_spec(t.drop_first(), ctx)) is None,
{
    let u = t.drop_first();
    let w = seq!['{'] + substitute_spec(u, ctx);
    lemma_first_token_none(t, 0);
    lemma_first_brace(u);
    let p = first_brace(u);
    // No `{` comes before the first `}` of u.
    if p < u.len() && u[p] == '{' {
        assert(t[0] == '{' && t[p + 1] == '{');
        let m = choose|m: int| 0 < m < p + 1 && #[trigger] t[m] == '}';
        assert(u[m - 1] == '}');
        assert(false);
    }
    if p == u.len() {
        lemma_copy_prefix(u, p, ctx);
        assert(u.take(p) =~= u);
        assert(u.skip(p) =~= Seq::<char>::empty());
        assert(substitute_spec(u.skip(p), ctx) =~= Seq::<char>::empty());
        assert(w =~= t);
    } else {
        lemma_copy_prefix(u, p + 1, ctx);
        let e = substitute_spec(u, ctx);
        assert(e.take(p + 1) =~= u.take(p + 1));
        assert forall|k: int| 0 <= k < 6 implies !opens_with(w, #[trigger] token(k)) by {
            lemma_token_facts(k);
            let len = token(k).len() as int;
            if opens_with(w, token(k)) {
                if len <= p + 2 {
                    assert(w.take(len) =~= t.take(len)) by {
                        assert forall|i: int| 0 <= i < len implies w.take(len)[i] == t.take(
                            len,
                        )[i] by {
                            if i > 0 {
                                assert(w[i] == e[i - 1]);
                                assert(e[i - 1] == e.take(p + 1)[i - 1]);
                            }
                        }
                    }
                    assert(opens_with(t, token(k)));
                } else {
                    assert(w[p + 1] == e[p]);
                    assert(e[p] == e.take(p + 1)[p]);
                    assert(w.take(len)[p + 1] == token(k)[p + 1]);
                    assert(is_name_char(token(k)[p + 1]));
                }
            }
        }
    }
    lemma_first_token_none(w, 0);
}

/// A value free of `{` passes through expansion unchanged, whatever follows it.
proof fn lemma_value_passes(v: Seq<char>, x: Seq<char>, ctx: ContextView)
    requires
        brace_free(v),
    ensures
        substitute_spec(v + x, ctx) == v + substitute_spec(x, ctx),
{
    let s = v + x;
    lemma_copy_prefix(s, v.len() as int, ctx);
    assert(s.take(v.len() as int) =~= v);
    assert(s.skip(v.len() as int) =~= x);
}

/// Expanding a second time changes nothing, when no value holds a `{` and
/// the template's braces do not nest: the expanded text holds no token.
pub proof fn lemma_substitute_idempotent(template: Seq<char>, ctx: ContextView)
    requires
        context_brace_free(ctx),
        braces_unnested(template),
    ensures
        substitute_spec(substitute_spec(template, ctx), ctx) == substitute_spec(template, ctx),
    decreases template.len(),
{
    let t = template;
    if t.len() > 0 {
        match leading_token(t) {
            Some(k) => {
                lemma_token_facts(k);
                lemma_first_token_some(t, 0);
                let rest = t.skip(token(k).len() as int);
                assert(braces_unnested(rest)) by {
                    let d = token(k).len() as int;
                    assert forall|i: int, j: int|
                        0 <= i < j < rest.len() && rest[i] == '{' && rest[j] == '{' implies exists|
                            m: int,
                        | i < m < j && #[trigger] rest[m] == '}' by {
                        assert(t[i + d] == '{' && t[j + d] == '{');
                        let m = choose|m: int| i + d < m < j + d && #[trigger] t[m] == '}';
                        assert(rest[m - d] == '}');
                    }
                }
                lemma_substitute_idempotent(rest, ctx);
                assert(brace_free(token_value(k, ctx)));
                lemma_value_passes(token_value(k, ctx), substitute_spec(rest, ctx), ctx);
            },
            None => {
                let rest = t.drop_first();
                assert(braces_unnested(rest)) by {
                    assert forall|i: int, j: int|
                        0 <= i < j < rest.len() && rest[i] == '{' && rest[j] == '{' implies exists|
                            m: int,
                        | i < m < j && #[trigger] rest[m] == '}' by {
                        assert(t[i + 1] == '{' && t[j + 1] == '{');
                        let m = choose|m: int| i + 1 < m < j + 1 && #[trigger] t[m] == '}';
                        assert(rest[m - 1] == '}');
                    }
                }
                lemma_substitute_idempotent(rest, ctx);
                let e = substitute_spec(rest, ctx);
                let w = seq![t[0]] + e;
                assert(w.drop_first() =~= e);
                if t[0] == '{' {
                    lemma_stray_brace_stays_stray(t, ctx);
                } else {
                    lemma_no_token_without_brace(w);
                }
            },
        }
    }
}

} // verus!
