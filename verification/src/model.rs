//! The composer as a state machine: what every operation does to the state,
//! as functions from states to states.

use vstd::prelude::*;
use vstd::utf8::*;

use crate::clock;
use crate::clock::Instant;
use crate::complete::{Family, TabCycle};
use crate::encode;
use crate::gate;
use crate::gate::{ComposerMode, GateInputs, GateVerdict, RawReason};
use crate::prompt;
use crate::term;
use crate::term::{BlockRec, GridSize, TermBackend};
use crate::text;

verus! {

// Spans of time, in nanoseconds.

/// Settle time after a prompt latch before arming. Zero: a user who types
/// the instant a prompt returns lands in the composer.
pub const SETTLE: u64 = 0;

/// The longest that a submitted text is held over its grid row while its
/// echo cannot be seen there.
pub const SUBMIT_HOLD_MAX: u64 = 1_500_000_000;

/// How long after the prompt latch a prompt still being rendered is covered.
pub const INCOMING_COVER_CAP: u64 = 500_000_000;

/// How long the lane stays quiet after an edge before it shows new content.
pub const REVEAL: u64 = 180_000_000;

/// How long the alternate screen is held before the strip collapses.
pub const HIDE_AFTER: u64 = 400_000_000;

/// How long an active editor may stand over a prompt it is not certain of.
pub const DEMOTE: u64 = 750_000_000;

/// Spacers that may stand in a row at the end of the queue.
pub const SPACER_QUEUE_CAP: usize = 3;

/// When the window that a submission opens closes without a fresh prompt.
pub const POST_SUBMIT_FLUSH: u64 = 300_000_000;

/// From this age on a window's buffer is never fired.
pub const WINDOW_STALE: u64 = 2_000_000_000;

/// Submissions that the queue holds.
pub const PENDING_CAP: usize = 16;

/// How long output must have been quiet before a prompt is inferred.
pub const HEUR_QUIET: u64 = 300_000_000;

/// When the window of a submission at an inferred prompt closes.
pub const HEUR_FLUSH: u64 = 1_000_000_000;

/// The window after a submission, in which keys stay in the editor.
#[derive(Clone, Copy, PartialEq, Eq, Structural, Debug)]
pub struct SubmitWindow {
    /// Prompt hooks seen at dispatch: only a later one closes the window.
    pub pre0: u64,
    pub since: Instant,
    /// The submission went to an inferred prompt.
    pub heur: bool,
}

/// What becomes of that window in a frame.
#[derive(Clone, Copy, PartialEq, Eq, Structural, Debug)]
pub enum WindowMove {
    Keep,
    /// The buffer goes back into the draft.
    Fold,
    /// The shell is back at a prompt.
    Close,
    /// The buffer goes to the program that took the terminal.
    Flush(RawReason),
    /// The command runs long.
    End,
}

/// An inferred prompt inside a nested shell that sends no hooks.
#[derive(Clone, Copy, PartialEq, Eq, Structural, Debug)]
pub struct HeurPrompt {
    pub line: i32,
    pub col: usize,
    pub since: Instant,
    /// Scrollback rows when it was inferred: what its line shifts by.
    pub history: u32,
    pub grid: GridSize,
    pub feed_gen: u64,
}

/// Where a recall walk stands: at a record, or at a command inserted from the
/// history of other sessions.
#[derive(Clone, Copy, PartialEq, Eq, Structural, Debug)]
pub enum RecallSrc {
    Recs(usize),
    History,
}

/// The submitted text as it is held over its row until its echo is there.
pub struct Hold {
    pub shown: Seq<char>,
    pub line: i32,
    pub col: usize,
    pub cwd: Option<Seq<char>>,
    pub since: Instant,
    pub history: u32,
    pub grid: GridSize,
}

/// The open history search: the selected result and the draft set aside.
pub struct Search {
    pub sel: usize,
    pub saved: Seq<char>,
}

/// The state of one terminal's composer.
pub struct Composer {
    pub mode: ComposerMode,
    pub draft: Seq<char>,
    pub is_cmd: bool,
    pub fam: Family,
    pub tab: Option<TabCycle>,
    pub asleep: bool,
    pub is_ssh: bool,
    pub reconnecting: bool,
    pub retry_attempt: u32,
    pub retry_next_s: u32,
    pub relaunch_cmd: Option<String>,
    pub term_focused: bool,
    pub at_prompt_since: Option<Instant>,
    pub episode_used: bool,
    pub last_pre: u64,
    pub last_exec: u64,
    pub chord_pre: Option<u64>,
    pub recall: Option<(RecallSrc, Seq<char>)>,
    pub search: Option<Search>,
    pub caret_to_end: bool,
    pub want_focus: bool,
    pub has_focus: bool,
    pub submit_hold: Option<Hold>,
    pub post_submit: Option<SubmitWindow>,
    pub pending: Seq<Seq<char>>,
    pub pending_history_cover: Option<(i32, usize, Option<Seq<char>>, Seq<char>)>,
    pub pending_clear: Option<Seq<u8>>,
    pub pending_submit_cmd: Option<Seq<char>>,
    pub busy_since: Option<Instant>,
    pub last_activity: Option<Instant>,
    pub compose_broken_since: Option<Instant>,
    pub alt_since: Option<Instant>,
    pub heur: Option<HeurPrompt>,
    pub heur_episode: bool,
    pub heur_cover_gen: Option<u64>,
    pub heur_cover_revoked: bool,
    pub heur_cover_row: Option<i32>,
}

/// The queued texts that are not spacers, in order.
pub open spec fn typed(q: Seq<Seq<char>>) -> Seq<Seq<char>>
    decreases q.len(),
{
    if q.len() == 0 {
        q
    } else if q.last().len() == 0 {
        typed(q.drop_last())
    } else {
        typed(q.drop_last()).push(q.last())
    }
}

/// The texts as lines.
pub open spec fn joined(lines: Seq<Seq<char>>) -> Seq<char>
    decreases lines.len(),
{
    if lines.len() == 0 {
        Seq::empty()
    } else if lines.len() == 1 {
        lines[0]
    } else {
        joined(lines.drop_last()) + seq!['\n'] + lines.last()
    }
}

/// The lines, and the draft below them unless it is blank.
pub open spec fn above(lines: Seq<Seq<char>>, draft: Seq<char>) -> Seq<char> {
    joined(
        if text::blank(draft) {
            lines
        } else {
            lines.push(draft)
        },
    )
}

/// A text that comes back, and the draft below it unless it is blank.
pub open spec fn back_above(t: Seq<char>, draft: Seq<char>) -> Seq<char> {
    if text::blank(draft) {
        t
    } else {
        t + seq!['\n'] + draft
    }
}

/// The queued texts as keystrokes, each with its Enter.
pub open spec fn keystrokes(q: Seq<Seq<char>>) -> Seq<u8>
    decreases q.len(),
{
    if q.len() == 0 {
        Seq::empty()
    } else {
        keystrokes(q.drop_last()) + encode_utf8(encode::with_cr(q.last())) + seq![0x0du8]
    }
}

/// How many spacers stand at the end of the queue.
pub open spec fn tail_spacers(q: Seq<Seq<char>>) -> nat
    decreases q.len(),
{
    if q.len() > 0 && q.last().len() == 0 {
        tail_spacers(q.drop_last()) + 1
    } else {
        0
    }
}

pub open spec fn all_spacers(q: Seq<Seq<char>>) -> bool {
    forall|i: int| 0 <= i < q.len() ==> (#[trigger] q[i]).len() == 0
}

/// An outbox with more bytes behind what it holds.
pub open spec fn appended(outbox: Option<Seq<u8>>, bytes: Seq<u8>) -> Option<Seq<u8>> {
    if bytes.len() == 0 {
        outbox
    } else {
        match outbox {
            Some(b) => Some(b + bytes),
            None => Some(bytes),
        }
    }
}

/// Where a row noted at `line`, with `history` rows of scrollback and a grid
/// of size `grid`, stands now: it shifts with what the scrollback has grown.
/// `None` where that cannot be said: the grid was resized, the scrollback
/// shrank, or the row fell off it.
pub open spec fn pinned(line: i32, history: u32, grid: GridSize, b: TermBackend) -> Option<i32> {
    let row = line - (b.history_size - history);
    if b.size == grid && b.history_size >= history && row >= -b.history_size && row >= i32::MIN {
        Some(row as i32)
    } else {
        None
    }
}

/// A text's first line, without its line end.
pub open spec fn first_line(s: Seq<char>) -> Seq<char> {
    let n = text::first_index(s, '\n');
    if 0 < n < s.len() && s[n - 1] == '\r' {
        s.take(n - 1)
    } else {
        s.take(n)
    }
}

/// A text of exactly one line.
pub open spec fn one_line(s: Seq<char>) -> bool {
    s.len() > 0 && text::first_index(s, '\n') >= s.len() - 1
}

/// Output came, and has been quiet for long enough.
pub open spec fn was_quiet(b: TermBackend, now: Instant) -> bool {
    b.last_output_at matches Some(last) && now.nanos >= last.later(HEUR_QUIET).nanos
}

impl Hold {
    pub open spec fn row(self, b: TermBackend) -> Option<i32> {
        pinned(self.line, self.history, self.grid, b)
    }

    pub open spec fn active(self, now: Instant) -> bool {
        now.since(self.since) < SUBMIT_HOLD_MAX
    }

    /// The echo is in the grid: the row can no longer be followed, the cursor
    /// left it, or it shows the text.
    pub open spec fn landed(self, b: TermBackend) -> bool {
        match self.row(b) {
            None => true,
            Some(r) => b.cursor_line != r || b.shows(r, self.col, first_line(self.shown)),
        }
    }
}

impl Composer {
    pub open spec fn buffers(self) -> bool {
        self.post_submit is Some || self.pending.len() > 0
    }

    // The inferred prompt.

    /// The inferred prompt still stands: nothing was output since, the grid
    /// is the one it was seen in, and the cursor is where it was.
    pub open spec fn heur_stands(self, b: TermBackend) -> bool {
        self.heur matches Some(h) && b.feed_gen == h.feed_gen && !b.alt() && !b.mouse() && pinned(
            h.line,
            h.history,
            h.grid,
            b,
        ) == Some(b.cursor_line) && b.cursor_col == h.col
    }

    /// A prompt was inferred later than `t`.
    pub open spec fn inferred_since(self, t: Instant) -> bool {
        self.heur matches Some(h) && h.since.nanos > t.nanos
    }

    /// Whether a prompt may be inferred this frame: in a running terminal on
    /// its primary screen, away from a hooked prompt, with a nested shell
    /// open or an episode of inferred prompts under way.
    pub open spec fn may_infer(self, b: TermBackend, recs: Seq<BlockRec>, running: bool) -> bool {
        &&& running && !self.asleep && !self.reconnecting && self.at_prompt_since is None
        &&& b.live() && !b.alt() && !b.mouse()
        &&& !gate::before_shell(running, false, b.pre(), b.exec(), false)
        &&& term::open_in(recs)
        &&& self.heur_episode || term::nested_open_in(recs)
    }

    /// When the quiet that a prompt needs before it is inferred will be over,
    /// while it is not.
    pub open spec fn quiet_until(
        self,
        b: TermBackend,
        recs: Seq<BlockRec>,
        running: bool,
        now: Instant,
    ) -> Option<Instant> {
        match b.last_output_at {
            Some(last) if self.heur is None && self.may_infer(b, recs, running) => clock::pending(
                last.later(HEUR_QUIET),
                now,
            ),
            _ => None,
        }
    }

    /// The cursor's row, on the screen, where it reads as a prompt.
    pub open spec fn prompt_row(self, b: TermBackend) -> Option<i32> {
        if prompt::prompt_shaped(b.cursor_prefix(), b.cursor_gap()) && 0 <= b.cursor_line
            < b.size.rows {
            Some(b.cursor_line)
        } else {
            None
        }
    }

    /// After a try to infer a prompt.
    pub open spec fn minted(
        self,
        b: TermBackend,
        recs: Seq<BlockRec>,
        running: bool,
        now: Instant,
    ) -> Composer {
        if self.heur is None && self.may_infer(b, recs, running) && was_quiet(b, now)
            && self.prompt_row(b) is Some {
            Composer {
                heur: Some(
                    HeurPrompt {
                        line: b.cursor_line,
                        col: b.cursor_col,
                        since: now,
                        history: b.history_size,
                        grid: b.size,
                        feed_gen: b.feed_gen,
                    },
                ),
                heur_episode: true,
                episode_used: false,
                ..self
            }
        } else {
            self
        }
    }

    /// The row that may be covered ahead of an inferred prompt.
    pub open spec fn coverable(self, b: TermBackend, running: bool) -> Option<i32> {
        if self.heur_episode && self.mode == ComposerMode::Compose && running && b.live()
            && !b.alt() && !b.mouse() && !self.heur_stands(b) {
            self.prompt_row(b)
        } else {
            None
        }
    }

    /// The cover ahead of an inferred prompt: since which output it is laid,
    /// whether it was taken back, and the row it covers. It is laid in the
    /// frame in which the row first reads as a prompt, kept while nothing is
    /// output, and taken back, until the row stops reading as one, when
    /// something is.
    pub open spec fn next_cover(self, b: TermBackend, running: bool) -> (
        Option<u64>,
        bool,
        Option<i32>,
    ) {
        match self.coverable(b, running) {
            None => (None, false, None),
            Some(row) => if self.heur_cover_revoked {
                (self.heur_cover_gen, true, None)
            } else if self.heur_cover_gen is None || self.heur_cover_gen == Some(b.feed_gen) {
                (Some(b.feed_gen), false, Some(row))
            } else {
                (None, true, None)
            },
        }
    }

    pub open spec fn cover_kept(self, b: TermBackend, running: bool) -> Composer {
        Composer {
            heur_cover_gen: self.next_cover(b, running).0,
            heur_cover_revoked: self.next_cover(b, running).1,
            heur_cover_row: self.next_cover(b, running).2,
            ..self
        }
    }

    // Edges of the stream and of the session.

    /// After an exec hook: a command runs. An active editor stays.
    pub open spec fn exec_seen(self, exec: u64, now: Instant) -> Composer {
        Composer {
            last_exec: exec,
            at_prompt_since: None,
            heur: None,
            heur_episode: false,
            busy_since: Some(now),
            last_activity: Some(now),
            mode: if self.mode == ComposerMode::Compose {
                ComposerMode::Compose
            } else {
                ComposerMode::Raw(RawReason::Busy)
            },
            ..self
        }
    }

    /// After a prompt hook: the shell is at a prompt.
    pub open spec fn prompt_seen(self, pre: u64, now: Instant) -> Composer {
        Composer {
            last_pre: pre,
            at_prompt_since: Some(now),
            episode_used: false,
            heur: None,
            heur_episode: false,
            busy_since: None,
            last_activity: Some(now),
            mode: if self.mode == ComposerMode::Compose {
                ComposerMode::Compose
            } else {
                ComposerMode::Raw(RawReason::NoPrompt)
            },
            ..self
        }
    }

    /// After the hook counters read `pre` and `exec`. An exec comes first:
    /// that is their order in the stream.
    pub open spec fn streamed(self, pre: u64, exec: u64, now: Instant) -> Composer {
        let s = if exec != self.last_exec {
            self.exec_seen(exec, now)
        } else {
            self
        };
        if pre != s.last_pre {
            s.prompt_seen(pre, now)
        } else {
            s
        }
    }

    /// After the session was found at a prompt on attaching to it.
    pub open spec fn attached(self, now: Instant) -> Composer {
        if self.mode == ComposerMode::Compose {
            self
        } else {
            Composer {
                at_prompt_since: Some(now),
                episode_used: false,
                mode: ComposerMode::Raw(RawReason::NoPrompt),
                ..self
            }
        }
    }

    pub open spec fn reset(self) -> Composer {
        Composer {
            mode: ComposerMode::Raw(RawReason::NoPrompt),
            at_prompt_since: None,
            episode_used: false,
            last_pre: 0,
            last_exec: 0,
            chord_pre: None,
            want_focus: false,
            has_focus: false,
            submit_hold: None,
            pending_history_cover: None,
            heur: None,
            heur_episode: false,
            ..self.folded()
        }
    }

    pub open spec fn exited(self) -> Composer {
        Composer {
            mode: ComposerMode::Raw(
                if self.asleep {
                    RawReason::Asleep
                } else {
                    RawReason::Dead
                },
            ),
            at_prompt_since: None,
            last_pre: 0,
            last_exec: 0,
            chord_pre: None,
            want_focus: false,
            has_focus: false,
            submit_hold: None,
            heur: None,
            heur_episode: false,
            ..self.folded()
        }
    }

    // The queue.

    /// With one more empty Enter queued, unless the queue is full or enough of
    /// them stand at its end.
    pub open spec fn spaced(self) -> Composer {
        if tail_spacers(self.pending) < SPACER_QUEUE_CAP && self.pending.len() < PENDING_CAP {
            Composer { pending: self.pending.push(Seq::empty()), ..self }
        } else {
            self
        }
    }

    /// With the draft queued as a submission.
    pub open spec fn queued(self) -> Composer {
        Composer {
            draft: Seq::empty(),
            recall: None,
            pending: self.pending.push(text::trimmed_end(self.draft)),
            ..self
        }
    }

    /// The open search, with `to` of the draft that it set aside in its place.
    pub open spec fn aside_with(self, to: spec_fn(Seq<char>) -> Seq<char>) -> Option<Search> {
        match self.search {
            Some(s) => Some(Search { saved: to(s.saved), ..s }),
            None => None,
        }
    }

    /// With the queue back in the draft: each text a line, the oldest first,
    /// the draft last. Spacers drop. A draft that a search set aside gets the
    /// queue too, so that closing the search does not lose it.
    pub open spec fn folded(self) -> Composer {
        if self.pending.len() == 0 {
            Composer { post_submit: None, ..self }
        } else {
            Composer {
                post_submit: None,
                pending: Seq::empty(),
                draft: above(typed(self.pending), self.draft),
                search: self.aside_with(|d: Seq<char>| above(typed(self.pending), d)),
                caret_to_end: true,
                ..self
            }
        }
    }

    /// With the queue and the draft in the outbox as keystrokes, in order, and
    /// the keys given up for `reason`.
    pub open spec fn flushed(self, reason: RawReason, now: Instant) -> Composer {
        Composer {
            pending: Seq::empty(),
            draft: Seq::empty(),
            pending_clear: appended(
                self.pending_clear,
                keystrokes(self.pending) + encode_utf8(encode::with_cr(self.draft)),
            ),
            post_submit: None,
            recall: None,
            mode: ComposerMode::Raw(reason),
            want_focus: false,
            has_focus: false,
            last_activity: Some(now),
            ..self
        }
    }

    /// When the window that is open closes by itself.
    pub open spec fn window_closes(w: SubmitWindow) -> u64 {
        if w.heur {
            HEUR_FLUSH
        } else {
            POST_SUBMIT_FLUSH
        }
    }

    /// What becomes of the window that a submission opened. A stale window
    /// folds its buffer. A fresh prompt closes it. A program that takes the
    /// screen or the mouse gets the buffer. At its end the window closes and
    /// the editor stays.
    pub open spec fn window_move(self, b: TermBackend, now: Instant) -> WindowMove {
        match self.post_submit {
            None => WindowMove::Keep,
            Some(w) => {
                let age = now.since(w.since);
                if age >= WINDOW_STALE {
                    WindowMove::Fold
                } else if b.pre() > w.pre0 || (w.heur && self.inferred_since(w.since)) {
                    WindowMove::Close
                } else if b.alt() {
                    WindowMove::Flush(RawReason::AltScreen)
                } else if b.mouse() {
                    WindowMove::Flush(RawReason::Busy)
                } else if age >= Self::window_closes(w) {
                    WindowMove::End
                } else {
                    WindowMove::Keep
                }
            },
        }
    }

    /// With the window at its end: a queue of nothing but spacers goes with it.
    pub open spec fn window_ended(self) -> Composer {
        Composer {
            post_submit: None,
            pending: if all_spacers(self.pending) && text::blank(self.draft) {
                Seq::empty()
            } else {
                self.pending
            },
            ..self
        }
    }

    /// After a look at the window that a submission opened.
    pub open spec fn resolved(self, b: TermBackend, now: Instant) -> Composer {
        match self.window_move(b, now) {
            WindowMove::Keep => self,
            WindowMove::Fold => self.folded(),
            WindowMove::Close => Composer { post_submit: None, ..self },
            WindowMove::Flush(reason) => self.flushed(reason, now),
            WindowMove::End => self.window_ended(),
        }
    }

    // Submitting.

    /// Whether a text is refused: cmd and nested shells take one line at a
    /// time.
    pub open spec fn refuses(self, t: Seq<char>) -> bool {
        (self.is_cmd || self.heur_episode) && !text::blank(t) && t.contains('\n')
    }

    /// Whether a text goes out as a recorded command instead of as bytes.
    pub open spec fn ledgered(self, t: Seq<char>) -> bool {
        (self.is_cmd || self.heur_episode) && !text::blank(t)
    }

    /// The column at which the echo of a submission will start.
    pub open spec fn echo_col(self, b: TermBackend) -> usize {
        if !self.is_cmd && self.heur_episode {
            match self.heur {
                Some(h) => h.col,
                None => 0,
            }
        } else {
            match b.prompt_end() {
                Some(end) => end.1,
                None => 0,
            }
        }
    }

    /// The handoff that a submission of `t` from the row at `line` leaves.
    pub open spec fn hold_of(
        self,
        b: TermBackend,
        line: i32,
        cwd: Option<Seq<char>>,
        t: Seq<char>,
        now: Instant,
    ) -> Hold {
        Hold {
            shown: text::trimmed_end(t),
            line,
            col: self.echo_col(b),
            cwd,
            since: now,
            history: b.history_size,
            grid: b.size,
        }
    }

    /// After `t` went to the terminal: the episode is spent, the window opens,
    /// and the text, if its row was covered, is held over it.
    pub open spec fn sent(
        self,
        b: TermBackend,
        cover: Option<i32>,
        cwd: Option<Seq<char>>,
        t: Seq<char>,
        now: Instant,
    ) -> Composer {
        Composer {
            pending_submit_cmd: if self.ledgered(t) {
                Some(text::trimmed(t))
            } else {
                self.pending_submit_cmd
            },
            submit_hold: match cover {
                Some(line) if !text::blank(t) => Some(self.hold_of(b, line, cwd, t, now)),
                _ => self.submit_hold,
            },
            episode_used: true,
            mode: ComposerMode::Compose,
            last_activity: Some(now),
            post_submit: Some(
                SubmitWindow {
                    pre0: b.pre(),
                    since: now,
                    heur: !self.is_cmd && self.heur_episode,
                },
            ),
            ..self
        }
    }

    /// With a refused text back above what was typed since, where it can be
    /// seen: the editor is open. A draft that a search set aside gets it too.
    pub open spec fn given_back(self, t: Seq<char>) -> Composer {
        Composer {
            draft: back_above(t, self.draft),
            search: self.aside_with(|d: Seq<char>| back_above(t, d)),
            caret_to_end: true,
            mode: ComposerMode::Compose,
            ..self
        }
    }

    /// After `t` was handed over: it was sent, or is back in the draft.
    pub open spec fn dispatched(
        self,
        b: TermBackend,
        cover: Option<i32>,
        cwd: Option<Seq<char>>,
        t: Seq<char>,
        now: Instant,
    ) -> Composer {
        if self.refuses(t) {
            self.given_back(t)
        } else {
            self.sent(b, cover, cwd, t, now)
        }
    }

    /// The bytes that handing `t` to the terminal ships.
    pub open spec fn dispatch_bytes(self, b: TermBackend, t: Seq<char>) -> Seq<u8> {
        if self.refuses(t) || self.ledgered(t) {
            Seq::empty()
        } else {
            encode::submission(b.bracketed(), t)
        }
    }

    /// Handing `t` over was the empty-Enter gesture.
    pub open spec fn dispatched_spacer(self, t: Seq<char>) -> bool {
        text::blank(t)
    }

    /// The next queued text may go: nothing is in flight, and the prompt is
    /// certain, its end captured for good under the cursor or inferred.
    pub open spec fn may_pump(self, b: TermBackend) -> bool {
        &&& self.mode == ComposerMode::Compose
        &&& self.post_submit is None
        &&& self.submit_hold is None
        &&& self.pending.len() > 0
        &&& (self.at_prompt_since is Some && b.clean() && !b.end_pending()) || self.heur_stands(b)
    }

    /// With the queue's first text taken.
    pub open spec fn popped(self) -> Composer {
        Composer { pending: self.pending.skip(1), ..self }
    }

    /// A submission comes while the prompt is still being rendered: it waits
    /// in the queue for the prompt's end.
    pub open spec fn submits_late(self, b: TermBackend) -> bool {
        b.live() && !text::blank(self.draft) && self.at_prompt_since is Some && (b.prompt_end()
            is None || b.end_pending()) && self.pending.len() < PENDING_CAP
    }

    /// With the draft queued and the editor open.
    pub open spec fn queued_open(self) -> Composer {
        Composer { want_focus: true, mode: ComposerMode::Compose, ..self.queued() }
    }

    /// With the draft taken out of the editor.
    pub open spec fn draft_taken(self) -> Composer {
        Composer { draft: Seq::empty(), recall: None, want_focus: true, ..self }
    }

    pub open spec fn submitted(
        self,
        b: TermBackend,
        cover: Option<i32>,
        cwd: Option<Seq<char>>,
        now: Instant,
    ) -> Composer {
        if self.submits_late(b) {
            self.queued_open()
        } else {
            self.draft_taken().dispatched(b, cover, cwd, self.draft, now)
        }
    }

    pub open spec fn submit_bytes(self, b: TermBackend) -> Seq<u8> {
        if self.submits_late(b) {
            Seq::empty()
        } else {
            self.dispatch_bytes(b, self.draft)
        }
    }

    // Giving up and taking the keys.

    pub open spec fn search_closed(self) -> Composer {
        match self.search {
            Some(s) => Composer { draft: s.saved, search: None, ..self },
            None => self,
        }
    }

    /// With the prompt episode spent by bytes from the grid.
    pub open spec fn grid_chosen(self) -> Composer {
        Composer {
            episode_used: self.episode_used || self.at_prompt_since is Some,
            heur: None,
            ..self
        }
    }

    /// With the editor dismissed for the grid, the queue back in the draft.
    pub open spec fn dismissed(self) -> Composer {
        Composer {
            mode: ComposerMode::Raw(RawReason::UserRaw),
            want_focus: false,
            ..self.folded()
        }
    }

    /// After raw bytes were sent from the grid.
    pub open spec fn raw_typed(self) -> Composer {
        if self.mode == ComposerMode::Compose {
            self.grid_chosen().dismissed()
        } else {
            self.grid_chosen()
        }
    }

    /// After the user left the editor for the grid.
    pub open spec fn blurred(self) -> Composer {
        let s = self.search_closed();
        let t = if s.mode == ComposerMode::Compose {
            Composer {
                mode: ComposerMode::Raw(RawReason::UserRaw),
                episode_used: s.episode_used || s.at_prompt_since is Some || s.heur is Some,
                ..s.folded()
            }
        } else {
            s
        };
        Composer { want_focus: false, has_focus: false, ..t }
    }

    /// Activation meets text at the prompt that it cannot vouch for.
    pub open spec fn meets_dirt(self, b: TermBackend) -> bool {
        !b.clean() && !self.heur_stands(b)
    }

    /// Activation clears the prompt line: the captured end is not at the start
    /// of a row, and none was cleared since the last prompt hook.
    pub open spec fn clears_line(self, b: TermBackend) -> bool {
        self.meets_dirt(b) && !(b.prompt_end() matches Some(end) && end.1 == 0) && self.chord_pre
            != Some(b.pre())
    }

    /// With text recovered from the prompt in the draft, on a line of its own.
    pub open spec fn reclaimed(self, t: Seq<char>) -> Composer {
        Composer {
            draft: if self.draft.len() == 0 {
                t
            } else {
                self.draft.push('\n') + t
            },
            caret_to_end: true,
            recall: None,
            ..self
        }
    }

    /// With the prompt line cleared, and what can be recovered of its text in
    /// the draft.
    pub open spec fn line_cleared(self, b: TermBackend) -> Composer {
        let r = match b.reclaim {
            term::Reclaim::Text(t) if t@.len() > 0 => self.reclaimed(t@),
            _ => self,
        };
        Composer { chord_pre: Some(b.pre()), ..r }
    }

    pub open spec fn activated(self, b: TermBackend) -> Composer {
        let s = if self.clears_line(b) {
            self.line_cleared(b)
        } else {
            self
        };
        s.opened(self.meets_dirt(b))
    }

    /// With the editor open. Where it met text at the prompt, the episode is
    /// spent.
    pub open spec fn opened(self, dirt: bool) -> Composer {
        Composer {
            episode_used: self.episode_used || dirt && self.at_prompt_since is Some,
            mode: ComposerMode::Compose,
            want_focus: true,
            ..self
        }
    }

    pub open spec fn activation_bytes(self, b: TermBackend) -> Seq<u8> {
        if self.clears_line(b) {
            encode::line_clear(b, self.is_cmd)
        } else {
            Seq::empty()
        }
    }

    /// With dropped or pasted text behind the draft.
    pub open spec fn dropped(self, t: Seq<char>) -> Composer {
        let d = if self.draft.len() > 0 && !text::white(self.draft.last()) {
            self.draft.push(' ')
        } else {
            self.draft
        };
        Composer {
            draft: d + encode::normalized(t),
            caret_to_end: true,
            recall: None,
            ..self
        }
    }

    /// With a command from the history in the draft's place; another draft is
    /// set aside for the recall.
    pub open spec fn inserted(self, cmd: Seq<char>) -> Composer {
        let s = self.search_closed();
        Composer {
            recall: if s.draft.len() > 0 && s.draft != cmd {
                Some((RecallSrc::History, s.draft))
            } else {
                s.recall
            },
            draft: cmd,
            caret_to_end: true,
            want_focus: true,
            ..s
        }
    }

    /// The row that the handoff covers.
    pub open spec fn held_row(self, b: TermBackend, now: Instant) -> Option<i32> {
        match self.submit_hold {
            Some(h) if h.active(now) => h.row(b),
            _ => None,
        }
    }

    // The history search.

    pub open spec fn search_begun(self) -> Composer {
        if self.search is None {
            Composer {
                draft: Seq::empty(),
                search: Some(Search { sel: 0, saved: self.draft }),
                caret_to_end: true,
                ..self
            }
        } else {
            self
        }
    }

    /// With the selection of an open search moved.
    pub open spec fn search_at(self, to: spec_fn(int) -> int) -> Composer {
        match self.search {
            Some(s) => Composer {
                search: Some(Search { sel: to(s.sel as int) as usize, ..s }),
                ..self
            },
            None => self,
        }
    }

    pub open spec fn search_accepted(self, cmd: Seq<char>) -> Composer {
        if self.search is Some {
            self.inserted(cmd)
        } else {
            self
        }
    }

    pub open spec fn search_cancelled(self) -> Composer {
        if self.search is Some {
            Composer { caret_to_end: true, want_focus: true, ..self.search_closed() }
        } else {
            self
        }
    }

    // The arming gate.

    pub open spec fn inputs(
        self,
        b: TermBackend,
        recs: Seq<BlockRec>,
        running: bool,
        now: Instant,
    ) -> GateInputs {
        let heur = self.heur_stands(b);
        GateInputs {
            hooked: true,
            running,
            alt: b.alt(),
            mouse: b.mouse(),
            open_block: term::open_in(recs) && self.at_prompt_since is None && !heur,
            at_prompt: self.at_prompt_since is Some || heur,
            settled: self.settled(now) || heur,
            cursor_clean: b.clean() || heur,
            episode_used: self.episode_used,
            asleep: self.asleep,
        }
    }

    pub open spec fn settled(self, now: Instant) -> bool {
        self.at_prompt_since matches Some(t) && now.since(t) >= SETTLE
    }

    /// A command from the history may be run: the editor stands at a prompt
    /// that takes a submission, or would be armed this frame.
    pub open spec fn may_run(
        self,
        b: TermBackend,
        recs: Seq<BlockRec>,
        running: bool,
        now: Instant,
    ) -> bool {
        let i = self.inputs(b, recs, running, now);
        (self.mode == ComposerMode::Compose && i.running && !i.alt && !i.open_block && i.at_prompt
            && !self.buffers()) || gate::verdict(i) == GateVerdict::AutoArm
    }

    // One frame.

    /// With an inferred prompt that no longer stands dropped, and an episode
    /// over once no command runs.
    pub open spec fn heur_checked(self, b: TermBackend, recs: Seq<BlockRec>) -> Composer {
        let over = self.heur_episode && !term::open_in(recs);
        Composer {
            heur: if over || !self.heur_stands(b) {
                None
            } else {
                self.heur
            },
            heur_episode: self.heur_episode && !over,
            ..self
        }
    }

    /// With the clock of the alternate screen kept.
    pub open spec fn alt_clocked(self, alt: bool, now: Instant) -> Composer {
        Composer {
            alt_since: if !alt {
                None
            } else if self.alt_since is None {
                Some(now)
            } else {
                self.alt_since
            },
            ..self
        }
    }

    /// The permanent cover that a released hold leaves: one line of text that
    /// its row still shows.
    pub open spec fn converts(h: Hold, b: TermBackend) -> Option<
        (i32, usize, Option<Seq<char>>, Seq<char>),
    > {
        match h.row(b) {
            Some(r) if one_line(h.shown) && first_line(h.shown).len() > 0 && b.shows(
                r,
                h.col,
                first_line(h.shown),
            ) => Some((r, h.col, h.cwd, first_line(h.shown))),
            _ => None,
        }
    }

    /// The hold is over: its echo is in the grid, its time is up, or a program
    /// took the screen.
    pub open spec fn hold_over(self, b: TermBackend, now: Instant) -> bool {
        self.submit_hold matches Some(h) && (b.alt() || !h.active(now) || h.landed(b))
    }

    /// The permanent cover that the hold leaves.
    pub open spec fn hold_cover(self, b: TermBackend) -> Option<
        (i32, usize, Option<Seq<char>>, Seq<char>),
    > {
        match self.submit_hold {
            Some(h) if !b.alt() => Self::converts(h, b),
            _ => None,
        }
    }

    /// With a hold that is over released.
    pub open spec fn hold_checked(self, b: TermBackend, now: Instant) -> Composer {
        if self.hold_over(b, now) {
            match self.hold_cover(b) {
                Some(cover) => Composer {
                    pending_history_cover: Some(cover),
                    submit_hold: None,
                    last_activity: Some(now),
                    ..self
                },
                None => Composer { submit_hold: None, last_activity: Some(now), ..self },
            }
        } else {
            self
        }
    }

    /// With the editor given up for `reason` and the queue back in the draft.
    pub open spec fn yielded(self, reason: RawReason) -> Composer {
        Composer {
            mode: ComposerMode::Raw(reason),
            want_focus: false,
            has_focus: false,
            ..self.folded()
        }
    }

    /// The editor has cause to stand where it does.
    pub open spec fn healthy(self, i: GateInputs) -> bool {
        self.submit_hold is Some || self.post_submit is Some || (i.at_prompt && i.cursor_clean)
            || i.open_block || self.busy_since is Some
    }

    /// With the editor given up for want of certainty: the queued commands go
    /// out raw, spacers drop, the draft is kept.
    pub open spec fn demoted(self, now: Instant) -> Composer {
        Composer {
            pending: Seq::empty(),
            pending_clear: appended(self.pending_clear, keystrokes(typed(self.pending))),
            post_submit: None,
            mode: ComposerMode::Raw(RawReason::NoPrompt),
            want_focus: false,
            has_focus: false,
            compose_broken_since: None,
            last_activity: Some(now),
            ..self
        }
    }

    /// With the clock of lost certainty kept.
    pub open spec fn certainty_checked(self, i: GateInputs, now: Instant) -> Composer {
        if self.healthy(i) {
            Composer { compose_broken_since: None, ..self }
        } else {
            let since = match self.compose_broken_since {
                Some(t) => t,
                None => now,
            };
            if now.since(since) >= DEMOTE {
                self.demoted(now)
            } else {
                Composer { compose_broken_since: Some(since), ..self }
            }
        }
    }

    /// A running command asks for something on the primary screen.
    pub open spec fn asked(self, b: TermBackend, i: GateInputs) -> bool {
        !i.at_prompt && (i.open_block || self.busy_since is Some) && prompt::asks(b.cursor_text())
    }

    /// A frame of the active editor.
    pub open spec fn composed(
        self,
        b: TermBackend,
        i: GateInputs,
        running: bool,
        now: Instant,
    ) -> Composer {
        let s = self.resolved(b, now);
        if s.mode != ComposerMode::Compose {
            s
        } else if i.alt {
            s.yielded(RawReason::AltScreen)
        } else if i.asleep {
            s.yielded(RawReason::Asleep)
        } else if !running {
            s.yielded(RawReason::Dead)
        } else if s.asked(b, i) {
            Composer { last_activity: Some(now), ..s.yielded(RawReason::Busy) }
        } else {
            s.certainty_checked(i, now)
        }
    }

    /// A frame without the editor: the arming gate decides.
    pub open spec fn gated(self, i: GateInputs, grid_focused: bool) -> Composer {
        match gate::verdict(i) {
            GateVerdict::AutoArm => Composer {
                mode: ComposerMode::Compose,
                want_focus: self.want_focus || grid_focused,
                ..self
            },
            GateVerdict::ManualOnly => self,
            GateVerdict::Blocked(r) => Composer { mode: ComposerMode::Raw(r), ..self },
        }
    }

    /// With a search that outlived the editor closed.
    pub open spec fn shown_draft(self) -> Composer {
        if self.mode != ComposerMode::Compose {
            self.search_closed()
        } else {
            self
        }
    }

    /// The state that a frame's gate is read from.
    pub open spec fn observed(
        self,
        b: TermBackend,
        recs: Seq<BlockRec>,
        running: bool,
        grid_focused: bool,
        now: Instant,
    ) -> Composer {
        Composer { term_focused: grid_focused, ..self }.shown_draft().heur_checked(b, recs).minted(
            b,
            recs,
            running,
            now,
        ).cover_kept(b, running)
    }

    /// One frame of the terminal that is shown.
    pub open spec fn ticked(
        self,
        b: TermBackend,
        recs: Seq<BlockRec>,
        running: bool,
        grid_focused: bool,
        now: Instant,
    ) -> Composer {
        let s = self.observed(b, recs, running, grid_focused, now);
        let i = s.inputs(b, recs, running, now);
        let t = s.alt_clocked(i.alt, now).hold_checked(b, now);
        if t.mode == ComposerMode::Compose {
            t.composed(b, i, running, now)
        } else {
            Composer { compose_broken_since: None, ..t }.gated(i, grid_focused)
        }
    }

    /// When the state itself asks to be looked at again.
    pub open spec fn wakeup(self, now: Instant) -> Option<Instant> {
        let settle = match self.at_prompt_since {
            Some(t) => clock::pending(t.later(SETTLE), now),
            None => None,
        };
        let hold = match self.submit_hold {
            Some(h) => clock::pending(h.since.later(SUBMIT_HOLD_MAX), now),
            None => None,
        };
        let window = match self.post_submit {
            Some(w) => clock::pending(w.since.later(Self::window_closes(w)), now),
            None => None,
        };
        let broken = match self.compose_broken_since {
            Some(t) if self.mode == ComposerMode::Compose => clock::pending(t.later(DEMOTE), now),
            _ => None,
        };
        clock::earliest(clock::earliest(settle, hold), clock::earliest(window, broken))
    }

    /// When a frame asks to be followed by another.
    pub open spec fn tick_wake(
        self,
        b: TermBackend,
        recs: Seq<BlockRec>,
        running: bool,
        grid_focused: bool,
        now: Instant,
    ) -> Option<Instant> {
        clock::earliest(
            self.ticked(b, recs, running, grid_focused, now).wakeup(now),
            self.shown_draft().heur_checked(b, recs).quiet_until(b, recs, running, now),
        )
    }
}

} // verus!
