//! What holds of the composer as a whole, across its operations.

use vstd::prelude::*;
use vstd::utf8::*;

use crate::clock::Instant;
use crate::encode;
use crate::frame::Frame;
use crate::gate;
use crate::gate::ComposerMode;
use crate::model;
use crate::model::{Composer, PENDING_CAP, SPACER_QUEUE_CAP, SUBMIT_HOLD_MAX, WINDOW_STALE};
use crate::prompt;
use crate::term;
use crate::term::{BlockRec, TermBackend};
use crate::text;

verus! {

// Edges.

/// A session that was reset or that ended starts its counters anew: a stream
/// that has shown no hook since is no edge.
pub proof fn a_new_session_starts_without_an_edge(c: Composer, now: Instant)
    ensures
        c.reset().streamed(0, 0, now) == c.reset(),
        c.exited().streamed(0, 0, now) == c.exited(),
{
}

/// Hooks never take the editor from the user, nor anything that was typed
/// into it.
pub proof fn hooks_leave_the_editor(c: Composer, pre: u64, exec: u64, now: Instant)
    ensures
        c.mode == ComposerMode::Compose ==> c.streamed(pre, exec, now).mode
            == ComposerMode::Compose,
        c.streamed(pre, exec, now).draft == c.draft,
        c.streamed(pre, exec, now).pending == c.pending,
        c.streamed(pre, exec, now).search == c.search,
{
}

/// The counters of one frame are an edge once: read again they change
/// nothing.
pub proof fn an_edge_is_seen_once(c: Composer, pre: u64, exec: u64, now: Instant, then: Instant)
    ensures
        c.streamed(pre, exec, now).streamed(pre, exec, then) == c.streamed(pre, exec, now),
{
}

/// A fresh prompt gives back the chance to open the editor by itself.
pub proof fn a_fresh_prompt_is_unspent(c: Composer, pre: u64, exec: u64, now: Instant)
    requires
        pre != c.last_pre,
    ensures
        !c.streamed(pre, exec, now).episode_used,
        c.streamed(pre, exec, now).at_prompt_since == Some(now),
{
}

// Submitting.

/// Submitting leaves the editor open for what is typed next. The draft is
/// gone from it, unless the shell does not take it: then it is the draft
/// again, and nothing went out.
pub proof fn submitting_keeps_the_editor(
    c: Composer,
    b: TermBackend,
    cover: Option<i32>,
    cwd: Option<Seq<char>>,
    now: Instant,
)
    ensures
        c.submitted(b, cover, cwd, now).mode == ComposerMode::Compose,
        c.submits_late(b) || !c.refuses(c.draft) ==> c.submitted(b, cover, cwd, now).draft.len() == 0,
        !c.submits_late(b) && c.refuses(c.draft) ==> {
            &&& c.submitted(b, cover, cwd, now).draft == c.draft
            &&& c.submit_bytes(b).len() == 0
            &&& c.submitted(b, cover, cwd, now).pending_submit_cmd == c.pending_submit_cmd
        },
{
}

/// A text that the shell does not take is not lost, and neither is what was
/// typed since: both stand in the draft, and in the one that an open search
/// set aside. Nothing goes out for it.
pub proof fn a_refused_text_joins_the_draft(
    c: Composer,
    b: TermBackend,
    cover: Option<i32>,
    cwd: Option<Seq<char>>,
    t: Seq<char>,
    now: Instant,
)
    requires
        c.refuses(t),
    ensures
        ({
            let d = c.dispatched(b, cover, cwd, t, now);
            &&& stands_in(d.draft, t)
            &&& !text::blank(c.draft) ==> stands_in(d.draft, c.draft)
            &&& c.search matches Some(s) ==> stands_in((d.search->0).saved, t) && (!text::blank(
                s.saved,
            ) ==> stands_in((d.search->0).saved, s.saved))
            &&& c.dispatch_bytes(b, t).len() == 0
            &&& d.pending == c.pending
            &&& d.pending_clear == c.pending_clear
            &&& d.pending_submit_cmd == c.pending_submit_cmd
            &&& d.post_submit == c.post_submit
        }),
{
    lemma_back_above(t, c.draft);
    if let Some(s) = c.search {
        lemma_back_above(t, s.saved);
    }
}

proof fn lemma_back_above(t: Seq<char>, draft: Seq<char>)
    ensures
        stands_in(model::back_above(t, draft), t),
        !text::blank(draft) ==> stands_in(model::back_above(t, draft), draft),
{
    let r = model::back_above(t, draft);
    assert(r.subrange(0, 0int + t.len()) =~= t);
    if !text::blank(draft) {
        let i: int = t.len() as int + 1;
        assert(r.subrange(i, i + draft.len()) =~= draft);
    }
}

/// A submission goes out one way: as bytes, as a recorded command, or into
/// the queue.
pub proof fn a_submission_goes_one_way(
    c: Composer,
    b: TermBackend,
    cover: Option<i32>,
    cwd: Option<Seq<char>>,
    now: Instant,
)
    requires
        c.pending_submit_cmd is None,
    ensures
        c.submit_bytes(b).len() > 0 ==> c.submitted(b, cover, cwd, now).pending_submit_cmd is None
            && c.submitted(b, cover, cwd, now).pending == c.pending,
        c.submitted(b, cover, cwd, now).pending_submit_cmd is Some ==> c.submitted(
            b,
            cover,
            cwd,
            now,
        ).pending == c.pending,
{
}

/// The queue goes out one text at a time: after one was handed over the next
/// waits, whatever the terminal shows.
pub proof fn the_queue_goes_one_at_a_time(
    c: Composer,
    b: TermBackend,
    cover: Option<i32>,
    cwd: Option<Seq<char>>,
    t: Seq<char>,
    now: Instant,
    later: TermBackend,
)
    requires
        !c.refuses(t),
    ensures
        !c.dispatched(b, cover, cwd, t, now).may_pump(later),
{
}

/// The queue goes out only at a prompt that is certain.
pub proof fn the_queue_waits_for_a_prompt(c: Composer, b: TermBackend)
    requires
        c.may_pump(b),
    ensures
        c.mode == ComposerMode::Compose,
        (c.at_prompt_since is Some && b.clean() && !b.end_pending()) || c.heur_stands(b),
{
}

/// A blank draft submits a bare Enter, in paste brackets or not.
pub proof fn a_blank_submission_is_an_enter(c: Composer, b: TermBackend)
    requires
        text::blank(c.draft),
    ensures
        c.submit_bytes(b) == seq![0x0du8],
{
    text::lemma_trimmed_end(c.draft);
    assert(text::trimmed_end(c.draft) =~= Seq::<char>::empty());
    assert(encode::sanitized(Seq::<char>::empty()) =~= Seq::<char>::empty());
    assert(encode::with_cr(Seq::<char>::empty()) =~= Seq::<char>::empty());
    assert(encode_utf8(Seq::<char>::empty()) =~= Seq::<u8>::empty());
    assert(Seq::<u8>::empty() + seq![0x0du8] =~= seq![0x0du8]);
}

// The queue.

impl Composer {
    /// The queue holds no more than it may, and no more spacers in a row at
    /// its end than it may.
    pub open spec fn bounded(self) -> bool {
        self.pending.len() <= PENDING_CAP && model::tail_spacers(self.pending) <= SPACER_QUEUE_CAP
    }
}

proof fn lemma_tail(q: Seq<Seq<char>>)
    ensures
        model::tail_spacers(q) <= q.len(),
        q.len() > 0 ==> model::tail_spacers(q.skip(1)) <= model::tail_spacers(q),
    decreases q.len(),
{
    if q.len() > 0 {
        lemma_tail(q.drop_last());
        if q.len() > 1 {
            assert(q.skip(1).drop_last() =~= q.drop_last().skip(1));
            assert(q.skip(1).last() == q.last());
        }
    }
}

proof fn lemma_push_tail(q: Seq<Seq<char>>, t: Seq<char>)
    ensures
        model::tail_spacers(q.push(t)) == if t.len() == 0 {
            model::tail_spacers(q) + 1
        } else {
            0
        },
{
    assert(q.push(t).drop_last() =~= q);
}

/// The queue never grows beyond its bound: no spacer, no queued draft, no
/// submission and no text that goes out breaks it.
pub proof fn the_queue_is_bounded(
    c: Composer,
    b: TermBackend,
    cover: Option<i32>,
    cwd: Option<Seq<char>>,
    t: Seq<char>,
    now: Instant,
)
    requires
        c.bounded(),
    ensures
        c.spaced().bounded(),
        c.pending.len() < PENDING_CAP && !text::blank(c.draft) ==> c.queued().bounded(),
        c.submitted(b, cover, cwd, now).bounded(),
        c.pending.len() > 0 ==> c.popped().dispatched(b, cover, cwd, t, now).bounded(),
        c.folded().bounded(),
{
    lemma_tail(c.pending);
    lemma_push_tail(c.pending, Seq::empty());
    lemma_push_tail(c.pending, text::trimmed_end(c.draft));
    text::lemma_trimmed_end(c.draft);
}

/// Nor does any number of presses of Enter.
pub proof fn enter_keeps_the_bound(c: Composer, f: Frame, n: nat)
    requires
        c.bounded(),
        f.has_draft == !text::blank(c.draft),
    ensures
        c.entered(f, n).bounded(),
{
    if n > 0 {
        lemma_spaced_by(c, n);
        if f.has_draft && c.pending.len() < PENDING_CAP {
            lemma_push_tail(c.pending, text::trimmed_end(c.draft));
            text::lemma_trimmed_end(c.draft);
            lemma_spaced_by(c.queued(), (n - 1) as nat);
        }
    }
}

proof fn lemma_spaced_by(c: Composer, n: nat)
    requires
        c.bounded(),
    ensures
        c.spaced_by(n).bounded(),
    decreases n,
{
    if n > 0 {
        lemma_spaced_by(c, (n - 1) as nat);
        lemma_push_tail(c.spaced_by((n - 1) as nat).pending, Seq::empty());
    }
}

/// Nor does a frame.
pub proof fn a_frame_keeps_the_bound(
    c: Composer,
    b: TermBackend,
    recs: Seq<BlockRec>,
    running: bool,
    grid_focused: bool,
    now: Instant,
)
    requires
        c.bounded(),
    ensures
        c.ticked(b, recs, running, grid_focused, now).bounded(),
{
    let empty = Seq::<Seq<char>>::empty();
    assert(model::tail_spacers(empty) == 0);
    let s = c.observed(b, recs, running, grid_focused, now);
    assert(s.pending == c.pending);
    let i = s.inputs(b, recs, running, now);
    let t = s.alt_clocked(i.alt, now).hold_checked(b, now);
    assert(t.pending == c.pending);
    let r = t.resolved(b, now);
    assert(r.pending == c.pending || r.pending == empty);
}

/// Where `line` stands in `s`.
pub open spec fn stands_in(s: Seq<char>, line: Seq<char>) -> bool {
    exists|i: int| 0 <= i && i + line.len() <= s.len() && #[trigger] s.subrange(i, i + line.len())
        == line
}

proof fn lemma_joined_holds(lines: Seq<Seq<char>>, k: int)
    requires
        0 <= k < lines.len(),
    ensures
        stands_in(model::joined(lines), lines[k]),
    decreases lines.len(),
{
    let s = model::joined(lines);
    if lines.len() == 1 {
        assert(s.subrange(0, 0int + lines[k].len()) =~= lines[k]);
    } else if k == lines.len() - 1 {
        let head = model::joined(lines.drop_last()) + seq!['\n'];
        assert(s.subrange(head.len() as int, head.len() as int + lines[k].len()) =~= lines[k]);
    } else {
        lemma_joined_holds(lines.drop_last(), k);
        let before = model::joined(lines.drop_last());
        let i = choose|i: int|
            0 <= i && i + lines[k].len() <= before.len() && #[trigger] before.subrange(
                i,
                i + lines[k].len(),
            ) == lines[k];
        assert(s.subrange(i, i + lines[k].len()) =~= before.subrange(i, i + lines[k].len()));
    }
}

proof fn lemma_typed_has(q: Seq<Seq<char>>, k: int)
    requires
        0 <= k < q.len(),
        q[k].len() > 0,
    ensures
        model::typed(q).contains(q[k]),
    decreases q.len(),
{
    let rest = model::typed(q.drop_last());
    if k == q.len() - 1 {
        assert(model::typed(q).last() == q[k]);
    } else {
        lemma_typed_has(q.drop_last(), k);
        let j = choose|j: int| 0 <= j < rest.len() && rest[j] == q[k];
        assert(model::typed(q)[j] == q[k]);
    }
}

proof fn lemma_above(q: Seq<Seq<char>>, draft: Seq<char>, k: int)
    requires
        0 <= k < q.len(),
    ensures
        stands_in(model::above(model::typed(q), draft), q[k]),
        !text::blank(draft) ==> stands_in(model::above(model::typed(q), draft), draft),
{
    let lines = if text::blank(draft) {
        model::typed(q)
    } else {
        model::typed(q).push(draft)
    };
    let s = model::joined(lines);
    if q[k].len() > 0 {
        lemma_typed_has(q, k);
        let j = choose|j: int| 0 <= j < model::typed(q).len() && model::typed(q)[j] == q[k];
        assert(lines[j] == q[k]);
        lemma_joined_holds(lines, j);
    } else {
        assert(s.subrange(0, 0int + q[k].len()) =~= q[k]);
    }
    if !text::blank(draft) {
        assert(lines.last() == draft);
        lemma_joined_holds(lines, lines.len() - 1);
    }
}

/// Folding the queue back loses nothing that was typed and ships nothing:
/// every queued text, and the draft unless it was blank, stands in the new
/// draft, and the outboxes are as they were. So it does in the draft that an
/// open search set aside, which is the draft again once the search closes.
pub proof fn folding_loses_nothing(c: Composer, k: int)
    requires
        0 <= k < c.pending.len(),
    ensures
        stands_in(c.folded().draft, c.pending[k]),
        !text::blank(c.draft) ==> stands_in(c.folded().draft, c.draft),
        c.search matches Some(s) ==> stands_in(c.folded().search_closed().draft, c.pending[k]) && (
        !text::blank(s.saved) ==> stands_in(c.folded().search_closed().draft, s.saved)),
        c.folded().pending_clear == c.pending_clear,
        c.folded().pending_submit_cmd == c.pending_submit_cmd,
        !c.folded().buffers(),
{
    lemma_above(c.pending, c.draft, k);
    if let Some(s) = c.search {
        lemma_above(c.pending, s.saved, k);
    }
}

/// Buffered keystrokes go out in the order in which they were typed.
pub proof fn keystrokes_keep_their_order(p: Seq<Seq<char>>, q: Seq<Seq<char>>)
    ensures
        model::keystrokes(p + q) == model::keystrokes(p) + model::keystrokes(q),
    decreases q.len(),
{
    if q.len() == 0 {
        assert(p + q =~= p);
        assert(model::keystrokes(p) + model::keystrokes(q) =~= model::keystrokes(p));
    } else {
        assert((p + q).drop_last() =~= p + q.drop_last());
        keystrokes_keep_their_order(p, q.drop_last());
        assert(model::keystrokes(p + q) =~= model::keystrokes(p) + model::keystrokes(q));
    }
}

/// A buffer that has grown stale is never fired: it goes back into the draft.
pub proof fn a_stale_buffer_is_never_fired(c: Composer, b: TermBackend, now: Instant)
    requires
        c.post_submit matches Some(w) && now.since(w.since) >= WINDOW_STALE,
    ensures
        c.resolved(b, now) == c.folded(),
        c.resolved(b, now).pending_clear == c.pending_clear,
        c.resolved(b, now).mode == c.mode,
{
}

/// After an interrupt nothing that was queued can fire, and the draft stays.
pub proof fn an_interrupt_cancels_the_queue(c: Composer, b: TermBackend, now: Instant)
    ensures
        !c.interrupted(now).buffers(),
        !c.interrupted(now).may_pump(b),
        c.interrupted(now).draft == c.draft,
        c.interrupted(now).mode == c.mode,
{
}

// Taking and giving up the keys.

/// A clean prompt that nobody has typed at opens the editor at once: in the
/// very frame in which it is there, and with the focus where the grid had it.
pub proof fn a_clean_prompt_arms_at_once(
    c: Composer,
    b: TermBackend,
    recs: Seq<BlockRec>,
    grid_focused: bool,
    now: Instant,
)
    requires
        c.at_prompt_since is Some,
        !c.episode_used,
        b.clean(),
        !c.asleep,
        !b.alt() && !b.mouse(),
        c.mode != ComposerMode::Compose,
    ensures
        c.ticked(b, recs, true, grid_focused, now).mode == ComposerMode::Compose,
        grid_focused ==> c.ticked(b, recs, true, grid_focused, now).want_focus,
{
    let s = c.observed(b, recs, true, grid_focused, now);
    assert(s.at_prompt_since == c.at_prompt_since);
    assert(s.episode_used == c.episode_used);
    assert(s.mode == c.mode);
}

/// Before the shell has spoken nothing opens the editor by itself: whatever is
/// asked for there, a password among it, is typed into the terminal.
pub proof fn nothing_arms_before_the_shell(
    c: Composer,
    b: TermBackend,
    recs: Seq<BlockRec>,
    running: bool,
    grid_focused: bool,
    now: Instant,
)
    requires
        gate::before_shell(running, b.alt(), b.pre(), b.exec(), c.at_prompt_since is Some),
        c.heur is None,
        c.mode != ComposerMode::Compose,
    ensures
        c.ticked(b, recs, running, grid_focused, now).mode != ComposerMode::Compose,
        c.ticked(b, recs, running, grid_focused, now).heur is None,
{
    let s = c.observed(b, recs, running, grid_focused, now);
    assert(s.mode == c.mode && s.heur is None);
    assert(s.at_prompt_since == c.at_prompt_since);
}

/// The editor stays while a command runs, however long: unless the command
/// takes the screen or the mouse, or asks for something, nothing closes it and
/// nothing that was typed is sent.
pub proof fn the_editor_stays_while_a_command_runs(
    c: Composer,
    b: TermBackend,
    recs: Seq<BlockRec>,
    grid_focused: bool,
    now: Instant,
)
    requires
        c.mode == ComposerMode::Compose,
        c.busy_since is Some,
        !c.asleep,
        !b.alt() && !b.mouse(),
        !prompt::asks(b.cursor_text()),
    ensures
        c.ticked(b, recs, true, grid_focused, now).mode == ComposerMode::Compose,
        c.ticked(b, recs, true, grid_focused, now).pending_clear == c.pending_clear,
        c.post_submit is None ==> c.ticked(b, recs, true, grid_focused, now).draft == c.draft
            && c.ticked(b, recs, true, grid_focused, now).pending == c.pending,
{
    let s = c.observed(b, recs, true, grid_focused, now);
    let i = s.inputs(b, recs, true, now);
    let t = s.alt_clocked(i.alt, now).hold_checked(b, now);
    assert(s.mode == c.mode && s.busy_since == c.busy_since && s.post_submit == c.post_submit);
    assert(t.mode == c.mode && t.busy_since == c.busy_since && t.draft == c.draft);
    let r = t.resolved(b, now);
    assert(r.mode == c.mode && r.busy_since == c.busy_since);
    assert(r.healthy(i));
}

/// What is typed into the editor goes nowhere else: an edit, a dropped text,
/// a command from the history and a search leave every outbox and the queue
/// as they were.
pub proof fn editing_ships_nothing(c: Composer, t: Seq<char>)
    ensures
        same_outboxes(c, c.edited()),
        same_outboxes(c, c.dropped(t)),
        same_outboxes(c, c.inserted(t)),
        same_outboxes(c, c.search_begun()),
        same_outboxes(c, c.search_accepted(t)),
        same_outboxes(c, c.search_cancelled()),
{
}

/// The same bytes and commands wait to go out, in the same mode.
pub open spec fn same_outboxes(c: Composer, d: Composer) -> bool {
    &&& d.pending == c.pending
    &&& d.pending_clear == c.pending_clear
    &&& d.pending_submit_cmd == c.pending_submit_cmd
    &&& d.post_submit == c.post_submit
    &&& d.mode == c.mode
}

/// A search that is cancelled gives the draft back, whatever was typed into
/// it and however far it was walked.
pub proof fn a_cancelled_search_restores_the_draft(
    c: Composer,
    query: Seq<char>,
    to: spec_fn(int) -> int,
)
    requires
        c.search is None,
    ensures
        (Composer { draft: query, ..c.search_begun() }).search_at(to).search_cancelled().draft
            == c.draft,
        (Composer { draft: query, ..c.search_begun() }).search_at(to).search_cancelled().search
            is None,
{
}

/// Activation clears a prompt line at most once between two prompt hooks.
pub proof fn one_clear_per_prompt(c: Composer, b: TermBackend, later: TermBackend)
    requires
        c.clears_line(b),
        later.pre() == b.pre(),
    ensures
        c.activated(b).activation_bytes(later).len() == 0,
{
}

/// Activation sends nothing to a prompt that is clean or inferred, and
/// changes nothing that was typed.
pub proof fn clean_prompts_are_left_alone(c: Composer, b: TermBackend)
    requires
        b.clean() || c.heur_stands(b),
    ensures
        c.activation_bytes(b).len() == 0,
        c.activated(b).draft == c.draft,
        c.activated(b).episode_used == c.episode_used,
{
}

/// Text that activation recovers from the prompt stands behind the draft: the
/// draft is never lost to it.
pub proof fn activation_keeps_the_draft(c: Composer, b: TermBackend)
    ensures
        c.draft.len() <= c.activated(b).draft.len(),
        c.activated(b).draft.take(c.draft.len() as int) == c.draft,
        c.activated(b).mode == ComposerMode::Compose,
{
    let d = c.activated(b).draft;
    assert(d.take(c.draft.len() as int) =~= c.draft);
}

/// Leaving the editor is respected: the arming gate does not open it again at the
/// prompt that was left.
pub proof fn leaving_is_respected(
    c: Composer,
    b: TermBackend,
    recs: Seq<BlockRec>,
    running: bool,
    grid_focused: bool,
    now: Instant,
)
    requires
        c.mode == ComposerMode::Compose,
        c.at_prompt_since is Some || c.heur_stands(b),
    ensures
        c.blurred().ticked(b, recs, running, grid_focused, now).mode != ComposerMode::Compose,
{
    let s = c.blurred();
    assert(s.episode_used);
    let o = s.observed(b, recs, running, grid_focused, now);
    let i = o.inputs(b, recs, running, now);
    let h = Composer { term_focused: grid_focused, ..s }.shown_draft().heur_checked(b, recs);
    assert(o.mode == s.mode);
    if h.at_prompt_since is None && !(s.heur_episode && !term::open_in(recs)) {
        assert(h.heur is Some);
    }
}

/// So is typing into the grid.
pub proof fn typing_in_the_grid_is_respected(
    c: Composer,
    b: TermBackend,
    recs: Seq<BlockRec>,
    running: bool,
    grid_focused: bool,
    now: Instant,
)
    requires
        c.at_prompt_since is Some,
    ensures
        c.raw_typed().ticked(b, recs, running, grid_focused, now).mode != ComposerMode::Compose,
{
    let s = c.raw_typed();
    assert(s.episode_used);
    let o = s.observed(b, recs, running, grid_focused, now);
    assert(o.mode == s.mode);
    assert(o.episode_used);
}

/// A program that takes the screen takes the keys, and so does the end of the
/// session: no frame leaves the editor open over either.
pub proof fn the_screen_takes_the_keys(
    c: Composer,
    b: TermBackend,
    recs: Seq<BlockRec>,
    running: bool,
    grid_focused: bool,
    now: Instant,
)
    requires
        b.alt() || c.asleep || !running,
    ensures
        c.ticked(b, recs, running, grid_focused, now).mode != ComposerMode::Compose,
{
    let s = c.observed(b, recs, running, grid_focused, now);
    let i = s.inputs(b, recs, running, now);
    let t = s.alt_clocked(i.alt, now).hold_checked(b, now);
    assert(s.asleep == c.asleep);
    assert(t.mode == s.mode);
}

/// A search never outlives the editor by more than a frame, and what it set
/// aside is the draft again.
pub proof fn a_search_closes_with_the_editor(
    c: Composer,
    b: TermBackend,
    recs: Seq<BlockRec>,
    running: bool,
    grid_focused: bool,
    now: Instant,
)
    requires
        c.mode != ComposerMode::Compose,
    ensures
        c.ticked(b, recs, running, grid_focused, now).search is None,
        c.search matches Some(s) ==> c.ticked(b, recs, running, grid_focused, now).draft == s.saved,
        c.search is None ==> c.ticked(b, recs, running, grid_focused, now).draft == c.draft,
{
    let s = c.observed(b, recs, running, grid_focused, now);
    assert(s.mode == c.mode);
    assert(s.search is None);
}

/// A submitted text is never held over its row for longer than its time, nor
/// over a program's screen.
pub proof fn a_hold_ends(
    c: Composer,
    b: TermBackend,
    recs: Seq<BlockRec>,
    running: bool,
    grid_focused: bool,
    now: Instant,
)
    ensures
        c.ticked(b, recs, running, grid_focused, now).submit_hold matches Some(h) ==> now.since(
            h.since,
        ) < SUBMIT_HOLD_MAX && !b.alt() && !h.landed(b),
{
    let s = c.observed(b, recs, running, grid_focused, now);
    let i = s.inputs(b, recs, running, now);
    let t = s.alt_clocked(i.alt, now).hold_checked(b, now);
    assert(t.submit_hold matches Some(h) ==> !t.hold_over(b, now));
}

/// A frame never asks to be followed by one in the past.
pub proof fn wakeups_lie_ahead(
    c: Composer,
    b: TermBackend,
    recs: Seq<BlockRec>,
    running: bool,
    grid_focused: bool,
    now: Instant,
)
    ensures
        c.tick_wake(b, recs, running, grid_focused, now) matches Some(t) ==> t.nanos > now.nanos,
{
}

/// An editor that is given up for want of certainty keeps the draft. The
/// commands that were queued go out as they were typed, in order; spacers do
/// not.
pub proof fn demotion_keeps_the_draft(c: Composer, now: Instant)
    ensures
        c.demoted(now).draft == c.draft,
        c.demoted(now).pending_clear == model::appended(
            c.pending_clear,
            model::keystrokes(model::typed(c.pending)),
        ),
        model::all_spacers(c.pending) ==> c.demoted(now).pending_clear == c.pending_clear,
{
    if model::all_spacers(c.pending) {
        lemma_spacers_untyped(c.pending);
    }
}

proof fn lemma_spacers_untyped(q: Seq<Seq<char>>)
    requires
        model::all_spacers(q),
    ensures
        model::typed(q).len() == 0,
    decreases q.len(),
{
    if q.len() > 0 {
        assert(q[q.len() - 1].len() == 0);
        assert forall|i: int| 0 <= i < q.drop_last().len() implies (
        #[trigger] q.drop_last()[i]).len() == 0 by {
            assert(q.drop_last()[i] == q[i]);
        }
        lemma_spacers_untyped(q.drop_last());
    }
}

// Bytes.

/// A character that a submission keeps: no control character but a tab, a
/// line feed or a carriage return.
pub open spec fn kept(s: Seq<char>) -> bool {
    forall|k: int| 0 <= k < s.len() ==> !encode::stripped(#[trigger] s[k])
}

proof fn lemma_sanitized(s: Seq<char>)
    ensures
        kept(encode::sanitized(s)),
        kept(s) ==> encode::sanitized(s) == s,
    decreases s.len(),
{
    if s.len() > 0 {
        lemma_sanitized(s.drop_first());
        let rest = encode::sanitized(s.drop_first());
        if kept(s) {
            assert forall|k: int| 0 <= k < s.drop_first().len() implies !encode::stripped(
                #[trigger] s.drop_first()[k],
            ) by {
                assert(s.drop_first()[k] == s[k + 1]);
            }
            assert(!encode::stripped(s[0]));
            assert(seq![s[0]] + s.drop_first() =~= s);
        }
        assert forall|k: int| 0 <= k < encode::sanitized(s).len() implies !encode::stripped(
            #[trigger] encode::sanitized(s)[k],
        ) by {
            if !encode::stripped(s[0]) && k > 0 {
                assert(encode::sanitized(s)[k] == rest[k - 1]);
            }
        }
    }
}

/// What `s` becomes, one character at a time from its start, with its line
/// ends as LF.
proof fn lemma_with_lf(s: Seq<char>)
    ensures
        kept(s) ==> kept(encode::with_lf(s)),
        !encode::with_lf(s).contains('\r'),
        !s.contains('\r') ==> encode::with_lf(s) == s,
    decreases s.len(),
{
    if s.len() > 0 {
        let n: int = if s.len() > 1 && s[0] == '\r' && s[1] == '\n' {
            2
        } else {
            1
        };
        assert(s.skip(1) =~= s.drop_first());
        let rest = encode::with_lf(s.skip(n));
        let r = encode::with_lf(s);
        assert(r == seq![r[0]] + rest);
        lemma_with_lf(s.skip(n));
        if kept(s) {
            assert forall|k: int| 0 <= k < s.skip(n).len() implies !encode::stripped(
                #[trigger] s.skip(n)[k],
            ) by {
                assert(s.skip(n)[k] == s[k + n]);
            }
            assert(!encode::stripped(s[0]));
            assert forall|k: int| 0 <= k < r.len() implies !encode::stripped(#[trigger] r[k]) by {
                if k > 0 {
                    assert(r[k] == rest[k - 1]);
                }
            }
        }
        if r.contains('\r') {
            let k = choose|k: int| 0 <= k < r.len() && r[k] == '\r';
            assert(rest[k - 1] == '\r');
        }
        if !s.contains('\r') {
            assert(s[0] != '\r');
            if s.skip(n).contains('\r') {
                let k = choose|k: int| 0 <= k < s.skip(n).len() && s.skip(n)[k] == '\r';
                assert(s[k + n] == '\r');
            }
            assert(seq![s[0]] + s.drop_first() =~= s);
        }
    }
}

proof fn lemma_with_cr(s: Seq<char>)
    ensures
        kept(s) ==> kept(encode::with_cr(s)),
        !encode::with_cr(s).contains('\n'),
    decreases s.len(),
{
    if s.len() > 0 {
        let n: int = if s.len() > 1 && s[0] == '\r' && s[1] == '\n' {
            2
        } else {
            1
        };
        assert(s.skip(1) =~= s.drop_first());
        let rest = encode::with_cr(s.skip(n));
        let r = encode::with_cr(s);
        assert(r == seq![r[0]] + rest);
        lemma_with_cr(s.skip(n));
        if kept(s) {
            assert forall|k: int| 0 <= k < s.skip(n).len() implies !encode::stripped(
                #[trigger] s.skip(n)[k],
            ) by {
                assert(s.skip(n)[k] == s[k + n]);
            }
            assert(!encode::stripped(s[0]));
            assert forall|k: int| 0 <= k < r.len() implies !encode::stripped(#[trigger] r[k]) by {
                if k > 0 {
                    assert(r[k] == rest[k - 1]);
                }
            }
        }
        if r.contains('\n') {
            let k = choose|k: int| 0 <= k < r.len() && r[k] == '\n';
            assert(rest[k - 1] == '\n');
        }
    }
}

proof fn lemma_without_final_lf(s: Seq<char>)
    ensures
        encode::without_final_lf(s).len() <= s.len(),
        encode::without_final_lf(s) == s.take(encode::without_final_lf(s).len() as int),
        encode::without_final_lf(encode::without_final_lf(s)) == encode::without_final_lf(s),
    decreases s.len(),
{
    if s.len() > 0 && s.last() == '\n' {
        lemma_without_final_lf(s.drop_last());
        let n = encode::without_final_lf(s).len() as int;
        assert(s.drop_last().take(n) =~= s.take(n));
    } else {
        assert(s.take(s.len() as int) =~= s);
    }
}

/// Pasted text that was made fit for the draft is fit: doing it again changes
/// nothing.
pub proof fn pasted_text_is_made_fit_once(s: Seq<char>)
    ensures
        encode::normalized(encode::normalized(s)) == encode::normalized(s),
        !encode::normalized(s).contains('\r'),
        kept(encode::normalized(s)),
{
    let clean = encode::sanitized(s);
    let lf = encode::with_lf(clean);
    let r = encode::normalized(s);
    lemma_sanitized(s);
    lemma_with_lf(clean);
    lemma_without_final_lf(lf);
    assert forall|k: int| 0 <= k < r.len() implies !encode::stripped(#[trigger] r[k]) && r[k]
        != '\r' by {
        assert(r[k] == lf[k]);
        assert(!encode::stripped(lf[k]));
    }
    lemma_sanitized(r);
    lemma_with_lf(r);
}

proof fn lemma_low_byte(c: u32, k: int)
    requires
        c < 0x110000,
        0 <= k < encode_scalar(c).len(),
        encode_scalar(c)[k] < 0x80,
    ensures
        encode_scalar(c)[k] == c,
{
    assert(c <= 0x7f ==> (c & 0x7f) as u8 == c) by (bit_vector);
    assert(0xC0u8 | ((c >> 6) & 0x1F) as u8 >= 0x80) by (bit_vector);
    assert(0xE0u8 | ((c >> 12) & 0x0F) as u8 >= 0x80) by (bit_vector);
    assert(0xF0u8 | ((c >> 18) & 0x7) as u8 >= 0x80) by (bit_vector);
    assert(0x80u8 | (c & 0x3F) as u8 >= 0x80) by (bit_vector);
    assert(0x80u8 | ((c >> 6) & 0x3F) as u8 >= 0x80) by (bit_vector);
    assert(0x80u8 | ((c >> 12) & 0x3F) as u8 >= 0x80) by (bit_vector);
}

proof fn lemma_low_bytes(s: Seq<char>, k: int)
    requires
        0 <= k < encode_utf8(s).len(),
        encode_utf8(s)[k] < 0x80,
    ensures
        exists|j: int| 0 <= j < s.len() && #[trigger] s[j] as u32 == encode_utf8(s)[k],
    decreases s.len(),
{
    let first = encode_scalar(s[0] as u32);
    if k < first.len() {
        char_is_scalar(s[0]);
        lemma_low_byte(s[0] as u32, k);
        assert(s[0] as u32 == encode_utf8(s)[k]);
    } else {
        let rest = s.drop_first();
        lemma_low_bytes(rest, k - first.len());
        let j = choose|j: int|
            0 <= j < rest.len() && #[trigger] rest[j] as u32 == encode_utf8(rest)[k - first.len()];
        assert(s[j + 1] as u32 == encode_utf8(s)[k]);
    }
}

proof fn lemma_kept_byte(c: char, byte: u8)
    requires
        c as u32 == byte,
        !encode::stripped(c),
        c != '\n',
        byte < 0x80,
    ensures
        byte >= 0x20 && byte != 0x7f || byte == 0x09 || byte == 0x0d,
{
}

/// A submission carries no control sequence into the terminal: between
/// the paste brackets, or before the Enter where there are none, no byte is a
/// control character but a tab and the Enters that end lines. What is pasted
/// can neither end its bracket nor start an escape.
pub proof fn submissions_carry_no_control(draft: Seq<char>, k: int)
    requires
        0 <= k < encode_utf8(encode::submission_text(draft)).len(),
    ensures
        ({
            let byte = encode_utf8(encode::submission_text(draft))[k];
            byte >= 0x20 && byte != 0x7f || byte == 0x09 || byte == 0x0d
        }),
{
    let clean = encode::sanitized(text::trimmed_end(draft));
    let t = encode::submission_text(draft);
    let byte = encode_utf8(t)[k];
    lemma_sanitized(text::trimmed_end(draft));
    lemma_with_cr(clean);
    if byte < 0x80 {
        lemma_low_bytes(t, k);
        let j = choose|j: int| 0 <= j < t.len() && #[trigger] t[j] as u32 == byte;
        assert(t[j] != '\n');
        lemma_kept_byte(t[j], byte);
    }
}

/// The queue's keystrokes end each text with the Enter that runs it.
pub proof fn queued_texts_end_with_enter(q: Seq<Seq<char>>)
    requires
        q.len() > 0,
    ensures
        model::keystrokes(q).len() > 0,
        model::keystrokes(q).last() == 0x0du8,
{
}

// Inferred prompts.

/// An inferred prompt falls with the first output after it.
pub proof fn output_ends_an_inferred_prompt(c: Composer, b: TermBackend, later: TermBackend)
    requires
        c.heur_stands(b),
        later.feed_gen != b.feed_gen,
    ensures
        !c.heur_stands(later),
{
}

/// A prompt is inferred only in a nested shell without hooks: never at a
/// hooked prompt, under an ordinary command, before the shell has spoken or
/// over a full-screen program, and never before output has been quiet.
pub proof fn prompts_are_inferred_only_in_nested_shells(
    c: Composer,
    b: TermBackend,
    recs: Seq<BlockRec>,
    running: bool,
    now: Instant,
)
    requires
        c.minted(b, recs, running, now).heur != c.heur,
    ensures
        c.at_prompt_since is None,
        term::open_in(recs),
        c.heur_episode || term::nested_open_in(recs),
        !gate::before_shell(running, false, b.pre(), b.exec(), false),
        !b.alt() && !b.mouse(),
        model::was_quiet(b, now),
        c.minted(b, recs, running, now).heur_stands(b),
{
}

/// The cover ahead of an inferred prompt hides output that streams for one
/// frame at most: when something is output the cover is taken back, and it
/// stays so for as long as the row reads as a prompt.
pub proof fn streams_are_covered_for_one_frame(
    c: Composer,
    first: TermBackend,
    second: TermBackend,
    third: TermBackend,
    running: bool,
)
    requires
        c.cover_kept(first, running).heur_cover_row is Some,
        second.feed_gen != first.feed_gen,
    ensures
        c.cover_kept(first, running).cover_kept(second, running).heur_cover_row is None,
        c.cover_kept(first, running).cover_kept(second, running).coverable(second, running) is Some
            && c.cover_kept(first, running).cover_kept(second, running).coverable(third, running)
            is Some ==> c.cover_kept(first, running).cover_kept(second, running).cover_kept(
            third,
            running,
        ).heur_cover_row is None,
{
}

/// A row that is followed moves with the scrollback, by exactly what it has
/// grown, or is given up.
pub proof fn rows_shift_with_the_scrollback(
    line: i32,
    history: u32,
    grid: term::GridSize,
    b: TermBackend,
)
    ensures
        model::pinned(line, history, grid, b) matches Some(row) ==> row == line - (b.history_size
            - history) && b.size == grid,
        b.size != grid ==> model::pinned(line, history, grid, b) is None,
        b.size == grid && b.history_size == history && line >= -b.history_size
            ==> model::pinned(line, history, grid, b) == Some(line),
{
}

// Drafts.

/// A session that is reset or that ends leaves the draft, and ships nothing.
pub proof fn the_draft_outlives_the_session(c: Composer)
    ensures
        c.pending.len() == 0 ==> c.reset().draft == c.draft && c.exited().draft == c.draft,
        c.reset().draft == c.folded().draft,
        c.exited().draft == c.folded().draft,
        !c.reset().buffers() && !c.exited().buffers(),
        c.reset().pending_clear == c.pending_clear,
        c.exited().pending_clear == c.pending_clear,
{
}

/// A search that is open is not opened again: the draft that it set aside is
/// kept.
pub proof fn a_search_opens_once(c: Composer)
    ensures
        c.search_begun().search_begun() == c.search_begun(),
{
}

/// A command taken from a search gives way to the draft again, as any command
/// from the history does.
pub proof fn a_taken_command_gives_way_to_the_draft(
    c: Composer,
    query: Seq<char>,
    cmd: Seq<char>,
    recs: Seq<BlockRec>,
)
    requires
        c.search is None,
        c.draft.len() > 0,
        c.draft != cmd,
    ensures
        ({
            let taken = (Composer { draft: query, ..c.search_begun() }).search_accepted(cmd);
            taken.draft == cmd && taken.recalled_next(recs).draft == c.draft
        }),
{
}

proof fn lemma_sanitized_add(s: Seq<char>, t: Seq<char>)
    ensures
        encode::sanitized(s + t) == encode::sanitized(s) + encode::sanitized(t),
    decreases s.len(),
{
    if s.len() == 0 {
        assert(s + t =~= t);
        assert(encode::sanitized(s) + encode::sanitized(t) =~= encode::sanitized(t));
    } else {
        lemma_sanitized_add(s.drop_first(), t);
        assert((s + t).drop_first() =~= s.drop_first() + t);
        assert(encode::sanitized(s + t) =~= encode::sanitized(s) + encode::sanitized(t));
    }
}

proof fn lemma_with_cr_line(s: Seq<char>, t: Seq<char>)
    requires
        !s.contains('\r'),
    ensures
        encode::with_cr(s + seq!['\n'] + t) == encode::with_cr(s) + seq!['\r']
            + encode::with_cr(t),
    decreases s.len(),
{
    let whole = s + seq!['\n'] + t;
    if s.len() == 0 {
        assert(whole.drop_first() =~= t);
        assert(encode::with_cr(whole) =~= encode::with_cr(s) + seq!['\r'] + encode::with_cr(t));
    } else {
        assert(s[0] != '\r');
        if s.drop_first().contains('\r') {
            let k = choose|k: int| 0 <= k < s.drop_first().len() && s.drop_first()[k] == '\r';
            assert(s[k + 1] == '\r');
        }
        lemma_with_cr_line(s.drop_first(), t);
        assert(whole.drop_first() =~= s.drop_first() + seq!['\n'] + t);
        assert(encode::with_cr(whole) =~= encode::with_cr(s) + seq!['\r'] + encode::with_cr(t));
    }
}

proof fn lemma_sanitized_keeps_out(s: Seq<char>)
    requires
        !s.contains('\r'),
    ensures
        !encode::sanitized(s).contains('\r'),
    decreases s.len(),
{
    if s.len() > 0 {
        assert(s[0] != '\r');
        if s.drop_first().contains('\r') {
            let k = choose|k: int| 0 <= k < s.drop_first().len() && s.drop_first()[k] == '\r';
            assert(s[k + 1] == '\r');
        }
        lemma_sanitized_keeps_out(s.drop_first());
        let rest = encode::sanitized(s.drop_first());
        if encode::sanitized(s).contains('\r') {
            let k = choose|k: int|
                0 <= k < encode::sanitized(s).len() && encode::sanitized(s)[k] == '\r';
            if encode::stripped(s[0]) {
                assert(rest[k] == '\r');
            } else {
                assert(rest[k - 1] == '\r');
            }
        }
    }
}

/// Lines of a draft are submitted apart, each with its own Enter: two commands
/// never run into each other.
pub proof fn lines_are_submitted_apart(s: Seq<char>, t: Seq<char>)
    requires
        !s.contains('\r'),
    ensures
        encode::with_cr(encode::sanitized(s + seq!['\n'] + t)) == encode::with_cr(
            encode::sanitized(s),
        ) + seq!['\r'] + encode::with_cr(encode::sanitized(t)),
{
    let end = seq!['\n'];
    lemma_sanitized_add(s + end, t);
    lemma_sanitized_add(s, end);
    assert(end.drop_first() =~= Seq::<char>::empty());
    assert(encode::sanitized(end.drop_first()) =~= Seq::<char>::empty());
    assert(encode::sanitized(end) =~= end);
    lemma_sanitized_keeps_out(s);
    lemma_with_cr_line(encode::sanitized(s), encode::sanitized(t));
}

} // verus!
