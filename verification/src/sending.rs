//! What submitting, queueing and pasting promise, in terms of the text that
//! goes in and of what comes out.

use vstd::prelude::*;
use vstd::utf8::*;

use crate::clock::Instant;
use crate::encode;
use crate::gate::{ComposerMode, RawReason};
use crate::model;
use crate::model::{Composer, Hold, Search, SubmitWindow, WindowMove};
use crate::term::TermBackend;
use crate::text;

verus! {

// White space.

/// White space is the tab, the line ends and the blanks that Unicode counts as
/// such, by their numbers: these and no other characters.
pub proof fn white_space_by_number(c: char)
    ensures
        text::white(c) <==> {
            let n = c as u32;
            ||| n == 9 || n == 10 || n == 11 || n == 12 || n == 13 || n == 32
            ||| n == 133 || n == 160 || n == 5760
            ||| 8192 <= n <= 8202
            ||| n == 8232 || n == 8233 || n == 8239 || n == 8287 || n == 12288
        },
{
}

/// Every character from `a` on is white.
pub open spec fn white_from(s: Seq<char>, a: int) -> bool {
    forall|k: int| a <= k < s.len() ==> text::white(#[trigger] s[k])
}

/// Every character before `a` is white.
pub open spec fn white_before(s: Seq<char>, a: int) -> bool {
    forall|k: int| 0 <= k < a ==> text::white(#[trigger] s[k])
}

/// Trailing white space comes off, up to the last character that is not white.
pub proof fn trailing_white_comes_off(s: Seq<char>, e: int)
    requires
        0 <= e <= s.len(),
        white_from(s, e),
        e > 0 ==> !text::white(s[e - 1]),
    ensures
        text::trimmed_end(s) == s.take(e),
{
    text::lemma_trimmed_end(s);
    let n = text::trimmed_end(s).len() as int;
    if n < e {
        assert(s.skip(n)[e - 1 - n] == s[e - 1]);
    }
    if e < n {
        assert(text::trimmed_end(s).last() == s[n - 1]);
    }
}

proof fn lemma_trim_start_at(s: Seq<char>, a: int)
    requires
        0 <= a <= s.len(),
        white_before(s, a),
        a < s.len() ==> !text::white(s[a]),
    ensures
        text::trimmed_start(s) == s.skip(a),
    decreases a,
{
    if a > 0 {
        assert(text::white(s[0]));
        let r = s.drop_first();
        assert forall|k: int| 0 <= k < a - 1 implies text::white(#[trigger] r[k]) by {
            assert(r[k] == s[k + 1]);
        }
        lemma_trim_start_at(r, a - 1);
        assert(r.skip(a - 1) =~= s.skip(a));
    } else {
        assert(s.skip(0) =~= s);
    }
}

/// Trimming takes the white space at the ends and nothing else.
pub proof fn trimming_takes_the_ends(s: Seq<char>, a: int, e: int)
    requires
        0 <= a <= e <= s.len(),
        white_before(s, a),
        white_from(s, e),
        a < e ==> !text::white(s[a]) && !text::white(s[e - 1]),
    ensures
        text::trimmed(s) == s.subrange(a, e),
        a < e ==> text::trimmed_end(s) == s.take(e),
        a < e ==> text::trimmed_start(s) == s.skip(a),
        a == e ==> text::trimmed(s).len() == 0,
{
    if a < e {
        trailing_white_comes_off(s, e);
        let t = s.take(e);
        assert forall|k: int| 0 <= k < a implies text::white(#[trigger] t[k]) by {
            assert(t[k] == s[k]);
        }
        assert(t[a] == s[a]);
        lemma_trim_start_at(t, a);
        lemma_trim_start_at(s, a);
        assert(t.skip(a) =~= s.subrange(a, e));
    } else {
        assert(white_from(s, 0)) by {
            assert forall|k: int| 0 <= k < s.len() implies text::white(#[trigger] s[k]) by {}
        }
        trailing_white_comes_off(s, 0);
        assert(s.take(0) =~= Seq::<char>::empty());
        lemma_trim_start_at(s.take(0), 0);
        assert(s.subrange(a, e) =~= Seq::<char>::empty());
        assert(s.take(0).skip(0) =~= Seq::<char>::empty());
    }
}

// Pasted and submitted text.

/// A character that stands in a text as it is typed: no control character but
/// the tab, the line feed and the carriage return.
pub open spec fn plain(c: char) -> bool {
    let n = c as u32;
    n == 9 || n == 10 || n == 13 || 32 <= n <= 126 || n >= 160
}

proof fn lemma_plain(c: char)
    ensures
        plain(c) == !encode::stripped(c),
{
}

/// Control characters strip, and every other character stays, in order.
pub proof fn control_characters_strip(s: Seq<char>)
    ensures
        encode::sanitized(s) == s.filter(|c: char| plain(c)),
    decreases s.len(),
{
    reveal(Seq::filter);
    let keep = |c: char| plain(c);
    if s.len() > 0 {
        let first = seq![s[0]];
        let rest = s.drop_first();
        control_characters_strip(rest);
        assert(first + rest =~= s);
        Seq::filter_distributes_over_add(first, rest, keep);
        assert(first.drop_last() =~= Seq::<char>::empty());
        assert(first.drop_last().filter(keep) =~= Seq::<char>::empty());
        lemma_plain(s[0]);
        if plain(s[0]) {
            assert(first.filter(keep) =~= first);
        } else {
            assert(first.filter(keep) =~= Seq::<char>::empty());
            assert(Seq::<char>::empty() + rest.filter(keep) =~= rest.filter(keep));
        }
    }
}

proof fn lemma_cr_plain(s: Seq<char>)
    requires
        forall|k: int| 0 <= k < s.len() ==> #[trigger] s[k] != '\n',
    ensures
        encode::with_cr(s) == s,
    decreases s.len(),
{
    if s.len() > 0 {
        let r = s.drop_first();
        assert forall|k: int| 0 <= k < r.len() implies #[trigger] r[k] != '\n' by {
            assert(r[k] == s[k + 1]);
        }
        assert(s[0] != '\n');
        if s.len() > 1 {
            assert(s[1] != '\n');
        }
        lemma_cr_plain(r);
        assert(seq![s[0]] + r =~= s);
    }
}

proof fn lemma_cr_split(s: Seq<char>, t: Seq<char>)
    requires
        !(s.len() > 0 && s.last() == '\r' && t.len() > 0 && t[0] == '\n'),
    ensures
        encode::with_cr(s + t) == encode::with_cr(s) + encode::with_cr(t),
    decreases s.len(),
{
    if s.len() == 0 {
        assert(s + t =~= t);
        assert(encode::with_cr(s) + encode::with_cr(t) =~= encode::with_cr(t));
    } else if s.len() > 1 && s[0] == '\r' && s[1] == '\n' {
        assert((s + t).skip(2) =~= s.skip(2) + t);
        if s.len() > 2 {
            assert(s.skip(2).last() == s.last());
        }
        lemma_cr_split(s.skip(2), t);
        assert(encode::with_cr(s + t) =~= encode::with_cr(s) + encode::with_cr(t));
    } else {
        assert((s + t).drop_first() =~= s.drop_first() + t);
        if s.len() > 1 {
            assert(s.drop_first().last() == s.last());
        }
        lemma_cr_split(s.drop_first(), t);
        assert(encode::with_cr(s + t) =~= encode::with_cr(s) + encode::with_cr(t));
    }
}

/// In a submission every line end is one carriage return: a line without its
/// end is as it was, and a line feed, with or without a carriage return before
/// it, comes out as one carriage return between what its two sides come out
/// as.
pub proof fn line_ends_go_out_as_returns(s: Seq<char>, t: Seq<char>)
    ensures
        (forall|k: int| 0 <= k < s.len() ==> #[trigger] s[k] != '\n') ==> encode::with_cr(s) == s,
        s.len() == 0 || s.last() != '\r' ==> encode::with_cr(s + seq!['\n'] + t)
            == encode::with_cr(s) + seq!['\r'] + encode::with_cr(t),
        encode::with_cr(s + seq!['\r', '\n'] + t) == encode::with_cr(s) + seq!['\r']
            + encode::with_cr(t),
{
    if forall|k: int| 0 <= k < s.len() ==> #[trigger] s[k] != '\n' {
        lemma_cr_plain(s);
    }
    let lf = seq!['\n'];
    assert(lf.drop_first() =~= Seq::<char>::empty());
    assert(encode::with_cr(Seq::<char>::empty()) =~= Seq::<char>::empty());
    assert(encode::with_cr(lf) =~= seq!['\r']);
    if s.len() == 0 || s.last() != '\r' {
        assert(s + lf + t =~= s + (lf + t));
        lemma_cr_split(s, lf + t);
        lemma_cr_split(lf, t);
        assert(encode::with_cr(s) + (seq!['\r'] + encode::with_cr(t)) =~= encode::with_cr(s)
            + seq!['\r'] + encode::with_cr(t));
    }
    let crlf = seq!['\r', '\n'];
    assert(crlf.skip(2) =~= Seq::<char>::empty());
    assert(encode::with_cr(crlf) =~= seq!['\r']);
    assert(s + crlf + t =~= s + (crlf + t));
    lemma_cr_split(s, crlf + t);
    lemma_cr_split(crlf, t);
    assert(encode::with_cr(s) + (seq!['\r'] + encode::with_cr(t)) =~= encode::with_cr(s)
        + seq!['\r'] + encode::with_cr(t));
}

proof fn lemma_lf_plain(s: Seq<char>)
    requires
        forall|k: int| 0 <= k < s.len() ==> #[trigger] s[k] != '\r',
    ensures
        encode::with_lf(s) == s,
    decreases s.len(),
{
    if s.len() > 0 {
        let r = s.drop_first();
        assert forall|k: int| 0 <= k < r.len() implies #[trigger] r[k] != '\r' by {
            assert(r[k] == s[k + 1]);
        }
        assert(s[0] != '\r');
        lemma_lf_plain(r);
        assert(seq![s[0]] + r =~= s);
    }
}

proof fn lemma_lf_split(s: Seq<char>, t: Seq<char>)
    requires
        !(s.len() > 0 && s.last() == '\r' && t.len() > 0 && t[0] == '\n'),
    ensures
        encode::with_lf(s + t) == encode::with_lf(s) + encode::with_lf(t),
    decreases s.len(),
{
    if s.len() == 0 {
        assert(s + t =~= t);
        assert(encode::with_lf(s) + encode::with_lf(t) =~= encode::with_lf(t));
    } else if s.len() > 1 && s[0] == '\r' && s[1] == '\n' {
        assert((s + t).skip(2) =~= s.skip(2) + t);
        if s.len() > 2 {
            assert(s.skip(2).last() == s.last());
        }
        lemma_lf_split(s.skip(2), t);
        assert(encode::with_lf(s + t) =~= encode::with_lf(s) + encode::with_lf(t));
    } else {
        assert((s + t).drop_first() =~= s.drop_first() + t);
        if s.len() > 1 {
            assert(s.drop_first().last() == s.last());
        }
        lemma_lf_split(s.drop_first(), t);
        assert(encode::with_lf(s + t) =~= encode::with_lf(s) + encode::with_lf(t));
    }
}

/// In the draft every line end is one line feed: a line without its end is as
/// it was, and a carriage return, with or without a line feed behind it, comes
/// out as one line feed between what its two sides come out as.
pub proof fn line_ends_come_in_as_feeds(s: Seq<char>, t: Seq<char>)
    ensures
        (forall|k: int| 0 <= k < s.len() ==> #[trigger] s[k] != '\r') ==> encode::with_lf(s) == s,
        t.len() == 0 || t[0] != '\n' ==> encode::with_lf(s + seq!['\r'] + t) == encode::with_lf(s)
            + seq!['\n'] + encode::with_lf(t),
        encode::with_lf(s + seq!['\r', '\n'] + t) == encode::with_lf(s) + seq!['\n']
            + encode::with_lf(t),
{
    if forall|k: int| 0 <= k < s.len() ==> #[trigger] s[k] != '\r' {
        lemma_lf_plain(s);
    }
    assert(encode::with_lf(Seq::<char>::empty()) =~= Seq::<char>::empty());
    if t.len() == 0 || t[0] != '\n' {
        let cr = seq!['\r'];
        assert(cr.drop_first() =~= Seq::<char>::empty());
        assert(encode::with_lf(cr) =~= seq!['\n']);
        assert(s + cr + t =~= s + (cr + t));
        lemma_lf_split(s, cr + t);
        lemma_lf_split(cr, t);
        assert(encode::with_lf(s) + (seq!['\n'] + encode::with_lf(t)) =~= encode::with_lf(s)
            + seq!['\n'] + encode::with_lf(t));
    }
    let crlf = seq!['\r', '\n'];
    assert(crlf.skip(2) =~= Seq::<char>::empty());
    assert(encode::with_lf(crlf) =~= seq!['\n']);
    assert(s + crlf + t =~= s + (crlf + t));
    lemma_lf_split(s, crlf + t);
    lemma_lf_split(crlf, t);
    assert(encode::with_lf(s) + (seq!['\n'] + encode::with_lf(t)) =~= encode::with_lf(s)
        + seq!['\n'] + encode::with_lf(t));
}

proof fn lemma_final_lf(s: Seq<char>, n: int)
    requires
        0 <= n <= s.len(),
        forall|k: int| n <= k < s.len() ==> #[trigger] s[k] == '\n',
        n > 0 ==> s[n - 1] != '\n',
    ensures
        encode::without_final_lf(s) == s.take(n),
    decreases s.len(),
{
    if n < s.len() {
        assert(s[s.len() - 1] == '\n');
        let r = s.drop_last();
        assert forall|k: int| n <= k < r.len() implies #[trigger] r[k] == '\n' by {
            assert(r[k] == s[k]);
        }
        lemma_final_lf(r, n);
        assert(r.take(n) =~= s.take(n));
    } else {
        assert(s.take(n) =~= s);
    }
}

/// Pasted text comes into the draft without its control characters and without
/// the line ends at its end; its other line ends are line feeds.
pub proof fn pasted_text_loses_only_its_last_line_ends(s: Seq<char>, n: int)
    requires
        ({
            let t = encode::with_lf(s.filter(|c: char| plain(c)));
            &&& 0 <= n <= t.len()
            &&& forall|k: int| n <= k < t.len() ==> #[trigger] t[k] == '\n'
            &&& n > 0 ==> t[n - 1] != '\n'
        }),
    ensures
        encode::normalized(s) == encode::with_lf(s.filter(|c: char| plain(c))).take(n),
{
    control_characters_strip(s);
    lemma_final_lf(encode::with_lf(s.filter(|c: char| plain(c))), n);
}

/// The bytes of a submission are those of the draft without its trailing white
/// space and its control characters, each line end a carriage return, and one
/// Enter. Where the terminal asked for paste brackets, and there is any text,
/// the text alone stands between `ESC [ 200 ~` and `ESC [ 201 ~`.
pub proof fn a_submission_is_its_text_and_an_enter(bracketed: bool, draft: Seq<char>, e: int)
    requires
        0 <= e <= draft.len(),
        white_from(draft, e),
        e > 0 ==> !text::white(draft[e - 1]),
    ensures
        ({
            let t = encode::with_cr(draft.take(e).filter(|c: char| plain(c)));
            encode::submission(bracketed, draft) == if bracketed && t.len() > 0 {
                seq![27u8, 91u8, 50u8, 48u8, 48u8, 126u8] + encode_utf8(t) + seq![
                    27u8,
                    91u8,
                    50u8,
                    48u8,
                    49u8,
                    126u8,
                    13u8,
                ]
            } else {
                encode_utf8(t).push(13u8)
            }
        }),
{
    trailing_white_comes_off(draft, e);
    control_characters_strip(draft.take(e));
    let t = encode::with_cr(draft.take(e).filter(|c: char| plain(c)));
    assert(encode::submission_text(draft) == t);
    if bracketed && t.len() > 0 {
        assert(encode::submission(bracketed, draft) =~= seq![27u8, 91u8, 50u8, 48u8, 48u8, 126u8]
            + encode_utf8(t) + seq![27u8, 91u8, 50u8, 48u8, 49u8, 126u8, 13u8]);
    } else {
        assert(encode::submission(bracketed, draft) =~= encode_utf8(t).push(13u8));
    }
}

// Submitting.

/// The shell takes its commands by record: cmd, and a nested shell without
/// hooks.
pub open spec fn by_record(c: Composer) -> bool {
    c.is_cmd || c.heur_episode
}

/// A line submitted to a shell that takes its commands by record goes out
/// whole: what is recorded is the text from its first to its last character
/// that is not white, and no bytes go out beside it.
pub proof fn a_recorded_command_is_the_submitted_line(
    c: Composer,
    b: TermBackend,
    cover: Option<i32>,
    cwd: Option<Seq<char>>,
    t: Seq<char>,
    now: Instant,
    from: int,
    to: int,
)
    requires
        by_record(c),
        0 <= from < to <= t.len(),
        white_before(t, from),
        white_from(t, to),
        !text::white(t[from]) && !text::white(t[to - 1]),
        forall|k: int| 0 <= k < t.len() ==> #[trigger] t[k] != '\n',
    ensures
        c.dispatched(b, cover, cwd, t, now).pending_submit_cmd == Some(t.subrange(from, to)),
        c.dispatch_bytes(b, t).len() == 0,
        t == t.take(from) + t.subrange(from, to) + t.skip(to),
{
    trimming_takes_the_ends(t, from, to);
    assert(t =~= t.take(from) + t.subrange(from, to) + t.skip(to));
}

/// `u` is the part of `t` from `from` on, and nothing of `t` outside it is more
/// than white.
pub open spec fn carries(t: Seq<char>, u: Seq<char>, from: int) -> bool {
    let to = from + u.len();
    &&& 0 <= from <= to <= t.len()
    &&& u == t.subrange(from, to)
    &&& forall|j: int| 0 <= j < t.len() && !text::white(#[trigger] t[j]) ==> from <= j < to
}

/// So every character of the line that is not white is in the recorded
/// command, and in the same order: the one at `j` of the line stands at
/// `j - from` of the command.
pub proof fn a_recorded_command_keeps_every_character(
    c: Composer,
    b: TermBackend,
    cover: Option<i32>,
    cwd: Option<Seq<char>>,
    t: Seq<char>,
    now: Instant,
)
    requires
        by_record(c),
        exists|k: int| 0 <= k < t.len() && !text::white(#[trigger] t[k]),
        forall|k: int| 0 <= k < t.len() ==> #[trigger] t[k] != '\n',
    ensures
        c.dispatched(b, cover, cwd, t, now).pending_submit_cmd is Some,
        exists|from: int|
            carries(t, c.dispatched(b, cover, cwd, t, now).pending_submit_cmd->0, from),
{
    text::lemma_trimmed_end(t);
    let e = text::trimmed_end(t);
    text::lemma_trimmed_start(e);
    let u = text::trimmed(t);
    let from = e.len() - u.len();
    assert(u =~= t.subrange(from, from + u.len()));
    assert forall|j: int| 0 <= j < t.len() && !text::white(#[trigger] t[j]) implies from <= j < from
        + u.len() by {
        if j >= e.len() {
            assert(t.skip(e.len() as int)[j - e.len()] == t[j]);
        } else if j < from {
            lemma_start_is_white(e, j);
            assert(e[j] == t[j]);
        }
    }
    assert(carries(t, u, from));
    let k = choose|k: int| 0 <= k < t.len() && !text::white(#[trigger] t[k]);
    assert(!text::blank(t)) by {
        assert(!text::white(t[k]));
    }
    assert(!t.contains('\n'));
    assert(c.dispatched(b, cover, cwd, t, now).pending_submit_cmd == Some(u));
    assert(carries(t, c.dispatched(b, cover, cwd, t, now).pending_submit_cmd->0, from));
}

proof fn lemma_start_is_white(s: Seq<char>, j: int)
    requires
        0 <= j < s.len() - text::trimmed_start(s).len(),
    ensures
        text::white(s[j]),
    decreases s.len(),
{
    if s.len() > 0 && text::white(s[0]) && j > 0 {
        lemma_start_is_white(s.drop_first(), j - 1);
    }
}

/// A shell that takes its commands by record takes one line at a time: a text
/// of several lines is the draft again, what was typed since stands below it,
/// and so it is in the draft that an open search set aside. Nothing but the
/// editor's own state changes, and nothing goes out.
pub proof fn several_lines_come_back(
    c: Composer,
    b: TermBackend,
    cover: Option<i32>,
    cwd: Option<Seq<char>>,
    t: Seq<char>,
    now: Instant,
    j: int,
    k: int,
)
    requires
        by_record(c),
        0 <= j < t.len() && !text::white(t[j]),
        0 <= k < t.len() && t[k] == '\n',
    ensures
        ({
            let d = c.dispatched(b, cover, cwd, t, now);
            &&& d.draft == if white_from(c.draft, 0) {
                t
            } else {
                t + seq!['\n'] + c.draft
            }
            &&& d.mode == ComposerMode::Compose
            &&& d.caret_to_end
            &&& match c.search {
                None => d.search is None,
                Some(s) => d.search == Some(
                    Search {
                        sel: s.sel,
                        saved: if white_from(s.saved, 0) {
                            t
                        } else {
                            t + seq!['\n'] + s.saved
                        },
                    },
                ),
            }
            &&& d == (Composer {
                draft: d.draft,
                mode: d.mode,
                caret_to_end: d.caret_to_end,
                search: d.search,
                ..c
            })
            &&& c.dispatch_bytes(b, t).len() == 0
        }),
{
    assert(t.contains('\n'));
}

/// A text is told as an empty Enter exactly where it holds nothing but white
/// space.
pub proof fn white_texts_are_empty_enters(c: Composer, t: Seq<char>)
    ensures
        c.dispatched_spacer(t) <==> white_from(t, 0),
{
}

/// A text goes out as bytes, and as nothing else, to a shell that does not
/// take commands by record, and to every shell where it is blank.
pub proof fn other_texts_go_out_as_bytes(
    c: Composer,
    b: TermBackend,
    cover: Option<i32>,
    cwd: Option<Seq<char>>,
    t: Seq<char>,
    now: Instant,
)
    requires
        !by_record(c) || white_from(t, 0),
    ensures
        c.dispatched(b, cover, cwd, t, now).pending_submit_cmd == c.pending_submit_cmd,
        c.dispatch_bytes(b, t) == encode::submission(b.bracketed(), t),
        c.dispatched(b, cover, cwd, t, now).draft == c.draft,
{
}

/// A text that goes out spends the episode and opens a window: it counts from
/// the prompt hooks seen so far, starts now, and is that of an inferred prompt
/// exactly where the shell is not cmd and the prompt was inferred. The editor
/// stays, and besides the outbox and the hold nothing else changes.
pub proof fn going_out_opens_a_window(
    c: Composer,
    b: TermBackend,
    cover: Option<i32>,
    cwd: Option<Seq<char>>,
    t: Seq<char>,
    now: Instant,
)
    requires
        !by_record(c) || white_from(t, 0) || forall|k: int|
            0 <= k < t.len() ==> #[trigger] t[k] != '\n',
    ensures
        ({
            let d = c.dispatched(b, cover, cwd, t, now);
            &&& d.post_submit matches Some(w) && w.pre0 == b.pre() && w.since == now && (w.heur
                <==> !c.is_cmd && c.heur_episode)
            &&& d.episode_used
            &&& d.mode == ComposerMode::Compose
            &&& d.last_activity == Some(now)
            &&& d == (Composer {
                pending_submit_cmd: d.pending_submit_cmd,
                submit_hold: d.submit_hold,
                episode_used: d.episode_used,
                mode: d.mode,
                last_activity: d.last_activity,
                post_submit: d.post_submit,
                ..c
            })
        }),
{
}

/// The text that went out is held over the row that was covered, from the end
/// of the prompt on, without its trailing white space; where nothing was
/// covered, or the text is blank, what was held before stays.
pub proof fn a_covered_row_holds_the_text(
    c: Composer,
    b: TermBackend,
    cover: Option<i32>,
    cwd: Option<Seq<char>>,
    t: Seq<char>,
    now: Instant,
    e: int,
)
    requires
        !c.refuses(t),
        0 <= e <= t.len(),
        white_from(t, e),
        e > 0 ==> !text::white(t[e - 1]),
    ensures
        ({
            let d = c.dispatched(b, cover, cwd, t, now);
            match cover {
                Some(line) if e > 0 => d.submit_hold matches Some(h) && {
                    &&& h.shown == t.take(e)
                    &&& h.line == line
                    &&& h.cwd == cwd
                    &&& h.since == now
                    &&& h.history == b.history_size
                    &&& h.grid == b.size
                    &&& c.is_cmd || !c.heur_episode ==> h.col == (match b.block_feed {
                        Some(f) => match f.prompt_end {
                            Some(end) => end.1,
                            None => 0,
                        },
                        None => 0,
                    })
                    &&& !c.is_cmd && c.heur_episode ==> h.col == (match c.heur {
                        Some(p) => p.col,
                        None => 0,
                    })
                },
                _ => d.submit_hold == c.submit_hold,
            }
        }),
{
    trailing_white_comes_off(t, e);
    if e > 0 {
        assert(!text::white(t[e - 1]));
    } else {
        assert(text::blank(t));
    }
}

/// A draft submitted at a prompt that is still being rendered waits at the
/// end of the queue, without its trailing white space; every other submission
/// leaves the queue alone. The draft is out of the editor, and no bytes go out
/// for one that waits.
pub proof fn early_submissions_wait(
    c: Composer,
    b: TermBackend,
    cover: Option<i32>,
    cwd: Option<Seq<char>>,
    now: Instant,
    e: int,
)
    requires
        0 <= e <= c.draft.len(),
        white_from(c.draft, e),
        e > 0 ==> !text::white(c.draft[e - 1]),
    ensures
        ({
            let early = {
                &&& b.block_feed matches Some(f) && f.live && (f.prompt_end is None
                    || f.prompt_end_pending)
                &&& e > 0
                &&& c.at_prompt_since is Some
                &&& c.pending.len() < 16
            };
            let d = c.submitted(b, cover, cwd, now);
            &&& early ==> {
                &&& d.pending == c.pending.push(c.draft.take(e))
                &&& d.draft.len() == 0
                &&& d.recall is None
                &&& d.want_focus
                &&& d.mode == ComposerMode::Compose
                &&& c.submit_bytes(b).len() == 0
                &&& d == (Composer {
                    pending: d.pending,
                    draft: d.draft,
                    recall: None,
                    want_focus: true,
                    mode: d.mode,
                    ..c
                })
            }
            &&& !early ==> {
                &&& d.pending == c.pending
                &&& d.want_focus
                &&& d.recall is None
                &&& c.submit_bytes(b) == c.dispatch_bytes(b, c.draft)
                &&& d == (Composer {
                    draft: Seq::empty(),
                    recall: None,
                    want_focus: true,
                    ..c
                }).dispatched(b, cover, cwd, c.draft, now)
            }
        }),
{
    trailing_white_comes_off(c.draft, e);
    if e > 0 {
        assert(!text::white(c.draft[e - 1]));
    } else {
        assert(text::blank(c.draft));
    }
}

// The queue.

/// An empty Enter queues behind what is queued, unless the queue holds sixteen
/// texts or its last three are empty Enters already.
pub proof fn three_empty_enters_are_enough(c: Composer)
    ensures
        ({
            let n = c.pending.len() as int;
            let full = n >= 16 || (n >= 3 && c.pending[n - 1].len() == 0 && c.pending[n - 2].len()
                == 0 && c.pending[n - 3].len() == 0);
            &&& full ==> c.spaced() == c
            &&& !full ==> c.spaced() == (Composer {
                pending: c.pending.push(Seq::empty()),
                ..c
            })
        }),
{
    let q = c.pending;
    lemma_tail(q);
    if q.len() > 0 {
        lemma_tail(q.drop_last());
        if q.len() > 1 {
            lemma_tail(q.drop_last().drop_last());
            if q.len() > 2 {
                lemma_tail(q.drop_last().drop_last().drop_last());
            }
        }
    }
}

proof fn lemma_tail(q: Seq<Seq<char>>)
    ensures
        model::tail_spacers(q) <= q.len(),
        q.len() > 0 ==> (model::tail_spacers(q) > 0 <==> q.last().len() == 0),
        q.len() > 0 && q.last().len() == 0 ==> model::tail_spacers(q) == model::tail_spacers(
            q.drop_last(),
        ) + 1,
    decreases q.len(),
{
    if q.len() > 0 {
        lemma_tail(q.drop_last());
    }
}

/// A queued draft goes to the end of the queue, without its trailing white
/// space, and out of the editor.
pub proof fn a_draft_queues_behind_the_others(c: Composer, e: int)
    requires
        0 <= e <= c.draft.len(),
        white_from(c.draft, e),
        e > 0 ==> !text::white(c.draft[e - 1]),
    ensures
        c.queued() == (Composer {
            pending: c.pending.push(c.draft.take(e)),
            draft: Seq::empty(),
            recall: None,
            ..c
        }),
{
    trailing_white_comes_off(c.draft, e);
}

/// The queue is served in order: what is queued first is taken first, and the
/// rest stays as it is.
pub proof fn the_queue_is_served_in_order(c: Composer, t: Seq<char>, rest: Seq<Seq<char>>)
    requires
        c.pending == seq![t] + rest,
    ensures
        c.popped() == (Composer { pending: rest, ..c }),
        c.pending[0] == t,
{
    assert(c.pending.skip(1) =~= rest);
}

/// The queue is served exactly where the editor is open, nothing is in flight
/// and nothing held, something is queued, and the prompt is there: hooked,
/// captured for good and under the cursor, or inferred and still standing.
pub proof fn the_queue_is_served_at_a_prompt(c: Composer, b: TermBackend)
    ensures
        c.may_pump(b) <==> {
            &&& c.mode == ComposerMode::Compose
            &&& c.post_submit is None
            &&& c.submit_hold is None
            &&& c.pending.len() >= 1
            &&& {
                ||| c.at_prompt_since is Some && (b.block_feed matches Some(f)
                    && !f.prompt_end_pending && f.prompt_end == Some(
                    (b.cursor_line, b.cursor_col),
                ))
                ||| c.heur_stands(b)
            }
        },
{
}

proof fn lemma_typed(q: Seq<Seq<char>>)
    ensures
        model::typed(q) == q.filter(|t: Seq<char>| t.len() > 0),
    decreases q.len(),
{
    reveal(Seq::filter);
    if q.len() > 0 {
        lemma_typed(q.drop_last());
    }
}

/// The lines, one below the other.
pub open spec fn stacked(lines: Seq<Seq<char>>) -> Seq<char>
    decreases lines.len(),
{
    if lines.len() == 0 {
        Seq::empty()
    } else if lines.len() == 1 {
        lines[0]
    } else {
        lines[0] + seq!['\n'] + stacked(lines.skip(1))
    }
}

proof fn lemma_stacked(lines: Seq<Seq<char>>)
    ensures
        model::joined(lines) == stacked(lines),
    decreases lines.len(),
{
    if lines.len() == 2 {
        let a = lines.drop_last();
        let z = lines.skip(1);
        assert(a.len() == 1 && a[0] == lines[0]);
        assert(z.len() == 1 && z[0] == lines[1]);
        assert(model::joined(a) == a[0]);
        assert(stacked(z) == z[0]);
    } else if lines.len() > 2 {
        let a = lines.drop_last();
        let z = lines.skip(1);
        lemma_stacked(a);
        lemma_stacked(z);
        lemma_stacked(z.drop_last());
        assert(a.skip(1) =~= z.drop_last());
        assert(z.last() == lines.last());
        assert(model::joined(lines) =~= stacked(lines));
    }
}

/// Folding puts the queue back into the draft: the queued texts but for the
/// empty ones, first to last, each on a line of its own, and below them the
/// draft unless it is blank. The draft that a search set aside gets the same.
/// The window closes, and an empty queue changes nothing else.
pub proof fn folding_stacks_the_queue(c: Composer)
    ensures
        ({
            let f = c.folded();
            let lines = c.pending.filter(|t: Seq<char>| t.len() > 0);
            &&& f.post_submit is None
            &&& f.pending.len() == 0
            &&& c.pending.len() == 0 ==> f == (Composer { post_submit: None, ..c })
            &&& c.pending.len() > 0 ==> {
                &&& f.draft == stacked(
                    if white_from(c.draft, 0) {
                        lines
                    } else {
                        lines.push(c.draft)
                    },
                )
                &&& match c.search {
                    None => f.search is None,
                    Some(s) => f.search matches Some(r) && r.sel == s.sel && r.saved == stacked(
                        if white_from(s.saved, 0) {
                            lines
                        } else {
                            lines.push(s.saved)
                        },
                    ),
                }
                &&& f.caret_to_end
                &&& f == (Composer {
                    post_submit: None,
                    pending: Seq::empty(),
                    draft: f.draft,
                    search: f.search,
                    caret_to_end: true,
                    ..c
                })
            }
        }),
{
    lemma_typed(c.pending);
    let lines = model::typed(c.pending);
    lemma_stacked(lines);
    lemma_stacked(lines.push(c.draft));
    if let Some(s) = c.search {
        lemma_stacked(lines.push(s.saved));
    }
}

/// One queued text as keystrokes: its bytes, each line end a carriage return,
/// and the Enter.
pub proof fn a_queued_text_is_typed_with_its_enter(q: Seq<Seq<char>>, t: Seq<char>)
    ensures
        model::keystrokes(q.push(t)) == model::keystrokes(q) + encode_utf8(
            encode::with_cr(t),
        ).push(13u8),
        model::keystrokes(Seq::<Seq<char>>::empty()).len() == 0,
{
    assert(q.push(t).drop_last() =~= q);
    assert(model::keystrokes(q.push(t)) =~= model::keystrokes(q) + encode_utf8(
        encode::with_cr(t),
    ).push(13u8));
}

/// The outbox's bytes, none where it is empty.
pub open spec fn bytes_in(outbox: Option<Seq<u8>>) -> Seq<u8> {
    match outbox {
        Some(v) => v,
        None => Seq::empty(),
    }
}

/// Flushing types everything: behind what the outbox holds go the queued texts
/// with their Enters and then the draft without one. The queue, the window and
/// the draft are empty after it, and the keys are given up.
pub proof fn flushing_types_everything(c: Composer, reason: RawReason, now: Instant)
    ensures
        ({
            let f = c.flushed(reason, now);
            &&& bytes_in(f.pending_clear) == bytes_in(c.pending_clear) + model::keystrokes(
                c.pending,
            ) + encode_utf8(encode::with_cr(c.draft))
            &&& c.pending_clear is None && bytes_in(f.pending_clear).len() == 0
                ==> f.pending_clear is None
            &&& f.pending.len() == 0 && f.draft.len() == 0
            &&& f.post_submit is None && f.recall is None
            &&& f.mode == ComposerMode::Raw(reason)
            &&& !f.want_focus && !f.has_focus
            &&& f.last_activity == Some(now)
            &&& f == (Composer {
                pending: f.pending,
                draft: f.draft,
                pending_clear: f.pending_clear,
                post_submit: None,
                recall: None,
                mode: f.mode,
                want_focus: false,
                has_focus: false,
                last_activity: f.last_activity,
                ..c
            })
        }),
{
    let more = model::keystrokes(c.pending) + encode_utf8(encode::with_cr(c.draft));
    assert(bytes_in(c.pending_clear) + model::keystrokes(c.pending) + encode_utf8(
        encode::with_cr(c.draft),
    ) =~= bytes_in(c.pending_clear) + more);
    if more.len() == 0 {
        assert(bytes_in(c.pending_clear) + more =~= bytes_in(c.pending_clear));
    } else if c.pending_clear is None {
        assert(bytes_in(c.pending_clear) + more =~= more);
    }
}

/// Giving the editor up for want of certainty types the queued texts but for
/// the empty ones, and keeps the draft.
pub proof fn demotion_types_the_queue(c: Composer, now: Instant)
    ensures
        ({
            let d = c.demoted(now);
            &&& bytes_in(d.pending_clear) == bytes_in(c.pending_clear) + model::keystrokes(
                c.pending.filter(|t: Seq<char>| t.len() > 0),
            )
            &&& d.pending.len() == 0
            &&& d.mode == ComposerMode::Raw(RawReason::NoPrompt)
            &&& d == (Composer {
                pending: d.pending,
                pending_clear: d.pending_clear,
                post_submit: None,
                mode: d.mode,
                want_focus: false,
                has_focus: false,
                compose_broken_since: None,
                last_activity: Some(now),
                ..c
            })
        }),
{
    lemma_typed(c.pending);
    let more = model::keystrokes(model::typed(c.pending));
    if more.len() == 0 {
        assert(bytes_in(c.pending_clear) + more =~= bytes_in(c.pending_clear));
    } else if c.pending_clear is None {
        assert(bytes_in(c.pending_clear) + more =~= more);
    }
}

// The window that a submission opens.

/// What becomes of the window, by its age: from two seconds on its buffer
/// folds, whatever else holds; before, a later prompt closes it; else a
/// program that takes the screen or the mouse gets the buffer; else it ends
/// after 0.3 seconds, or one second at an inferred prompt; else it stays.
pub proof fn windows_go_by_their_age(c: Composer, b: TermBackend, now: Instant, w: SubmitWindow)
    requires
        c.post_submit == Some(w),
    ensures
        ({
            let age = if now.nanos >= w.since.nanos {
                now.nanos - w.since.nanos
            } else {
                0
            };
            let prompted = b.pre() > w.pre0 || (w.heur && (c.heur matches Some(h) && h.since.nanos
                > w.since.nanos));
            let m = c.window_move(b, now);
            &&& m == WindowMove::Fold <==> age >= 2_000_000_000
            &&& m == WindowMove::Close <==> age < 2_000_000_000 && prompted
            &&& m == WindowMove::Flush(RawReason::AltScreen) <==> age < 2_000_000_000 && !prompted
                && b.alt()
            &&& m == WindowMove::Flush(RawReason::Busy) <==> age < 2_000_000_000 && !prompted
                && !b.alt() && b.mouse()
            &&& m == WindowMove::End <==> age < 2_000_000_000 && !prompted && !b.alt() && !b.mouse()
                && age >= if w.heur {
                1_000_000_000int
            } else {
                300_000_000int
            }
        }),
{
}

/// Without a window nothing happens.
pub proof fn no_window_no_move(c: Composer, b: TermBackend, now: Instant)
    requires
        c.post_submit is None,
    ensures
        c.resolved(b, now) == c,
{
}

/// A window that ends takes a queue of nothing but empty Enters with it where
/// the draft is blank; it leaves every other queue, and all else.
pub proof fn a_window_ends_with_its_spacers(c: Composer)
    ensures
        c.window_ended() == (Composer {
            post_submit: None,
            pending: if white_from(c.draft, 0) && (forall|k: int|
                0 <= k < c.pending.len() ==> (#[trigger] c.pending[k]).len() == 0) {
                Seq::empty()
            } else {
                c.pending
            },
            ..c
        }),
{
}

/// What is done with the window is what becomes of it: kept, folded, closed
/// with nothing else changed, flushed, or ended.
pub proof fn windows_are_resolved(c: Composer, b: TermBackend, now: Instant)
    ensures
        c.window_move(b, now) == WindowMove::Keep ==> c.resolved(b, now) == c,
        c.window_move(b, now) == WindowMove::Fold ==> c.resolved(b, now) == c.folded(),
        c.window_move(b, now) == WindowMove::Close ==> c.resolved(b, now) == (Composer {
            post_submit: None,
            ..c
        }),
        c.window_move(b, now) matches WindowMove::Flush(reason) ==> c.resolved(b, now)
            == c.flushed(reason, now),
        c.window_move(b, now) == WindowMove::End ==> c.resolved(b, now) == c.window_ended(),
{
}

// Rows and holds.

/// A row noted earlier stands higher by what the scrollback has grown since.
/// It is given up exactly where the grid has another size, the scrollback
/// shrank, or the row is gone from it.
pub proof fn rows_are_followed_exactly(
    line: i32,
    history: u32,
    grid: crate::term::GridSize,
    b: TermBackend,
)
    ensures
        model::pinned(line, history, grid, b) is Some <==> {
            &&& b.size == grid
            &&& b.history_size >= history
            &&& line - (b.history_size - history) >= -b.history_size
            &&& line - (b.history_size - history) >= i32::MIN
        },
        model::pinned(line, history, grid, b) matches Some(row) ==> row + b.history_size == line
            + history,
{
}

/// A text's first line is what stands before its first line feed, without a
/// carriage return at the end of it.
pub proof fn the_first_line_ends_at_the_first_feed(s: Seq<char>, n: int)
    requires
        0 <= n <= s.len(),
        forall|k: int| 0 <= k < n ==> #[trigger] s[k] != '\n',
        n < s.len() ==> s[n] == '\n',
    ensures
        model::first_line(s) == if 0 < n < s.len() && s[n - 1] == '\r' {
            s.take(n - 1)
        } else {
            s.take(n)
        },
        model::one_line(s) <==> s.len() > 0 && (n == s.len() || n == s.len() - 1),
{
    text::lemma_first_index(s, '\n');
    let m = text::first_index(s, '\n');
    if m < n {
        assert(s[m] != '\n');
    }
}

/// The hold lasts 1.5 seconds at most. Before, it is over as soon as a
/// full-screen program took the screen, its row can no longer be followed, the
/// cursor left that row, or the row shows the text's first line where it was
/// typed.
pub proof fn a_hold_waits_for_its_echo(c: Composer, b: TermBackend, now: Instant, h: Hold)
    requires
        c.submit_hold == Some(h),
    ensures
        c.hold_over(b, now) <==> {
            ||| b.alt()
            ||| now.nanos >= h.since.nanos + 1_500_000_000
            ||| match model::pinned(h.line, h.history, h.grid, b) {
                None => true,
                Some(row) => b.cursor_line != row || b.shows(
                    row,
                    h.col,
                    model::first_line(h.shown),
                ),
            }
        },
        !c.hold_over(b, now) ==> c.hold_checked(b, now) == c,
        c.hold_over(b, now) ==> c.hold_checked(b, now) == (Composer {
            submit_hold: None,
            last_activity: Some(now),
            pending_history_cover: c.hold_checked(b, now).pending_history_cover,
            ..c
        }),
{
}

/// A hold that is over leaves its row covered for good exactly where the text
/// is one line and its row shows it; otherwise the cover that waits is as it
/// was.
pub proof fn an_echo_stays_covered(c: Composer, b: TermBackend, now: Instant, h: Hold)
    requires
        c.submit_hold == Some(h),
        c.hold_over(b, now),
    ensures
        ({
            let line = model::first_line(h.shown);
            let d = c.hold_checked(b, now).pending_history_cover;
            match model::pinned(h.line, h.history, h.grid, b) {
                Some(row) if !b.alt() && model::one_line(h.shown) && line.len() > 0 && b.shows(
                    row,
                    h.col,
                    line,
                ) => d == Some((row, h.col, h.cwd, line)),
                _ => d == c.pending_history_cover,
            }
        }),
{
}

} // verus!
