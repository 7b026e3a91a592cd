//! The composer of one terminal.

use std::collections::VecDeque;

use vstd::prelude::*;
use vstd::string::*;

use crate::clock::Instant;
use crate::complete;
use crate::complete::{Family, TabCycle};
use crate::encode;
use crate::encode::{keystroke_bytes, line_clear_chord, normalize_paste_text, submission_bytes};
use crate::gate::{gate, pre_shell, ComposerMode, GateInputs, GateVerdict, RawReason};
use crate::model;
use crate::model::{
    Composer, HeurPrompt, Hold, RecallSrc, Search, SubmitWindow, WindowMove, HEUR_FLUSH, HEUR_QUIET,
    PENDING_CAP, POST_SUBMIT_FLUSH, SETTLE, SPACER_QUEUE_CAP, SUBMIT_HOLD_MAX, WINDOW_STALE,
};
use crate::prompt::looks_like_shell_prompt;
use crate::term::{any_nested_open, any_open, BlockRec, GridSize, Reclaim, TermBackend};
use crate::text;

verus! {

/// The handoff after a submission: the text is painted over its row until the
/// grid catches up, so that Enter changes nothing on the screen.
#[derive(Debug)]
pub struct SubmitHold {
    /// The text as the user last saw it.
    pub shown: String,
    /// The row that was covered at submission.
    pub line: i32,
    /// The column at which the echo will start.
    pub col: usize,
    pub cwd: Option<String>,
    pub since: Instant,
    pub history: u32,
    pub grid: GridSize,
}

impl View for SubmitHold {
    type V = Hold;

    open spec fn view(&self) -> Hold {
        Hold {
            shown: self.shown@,
            line: self.line,
            col: self.col,
            cwd: complete::opt_text(self.cwd),
            since: self.since,
            history: self.history,
            grid: self.grid,
        }
    }
}

/// The open history search. The editor holds the query meanwhile.
#[derive(Debug)]
pub struct HistSearch {
    /// The selected result, the best being zero.
    pub sel: usize,
    /// The draft as it stood when the search was opened.
    pub saved: String,
}

impl View for HistSearch {
    type V = Search;

    open spec fn view(&self) -> Search {
        Search { sel: self.sel, saved: self.saved@ }
    }
}

#[derive(Debug)]
pub struct ComposerState {
    pub mode: ComposerMode,
    pub draft: String,
    /// The shell is cmd: it records commands by submission, and takes one
    /// line at a time.
    pub is_cmd: bool,
    pub fam: Family,
    /// The completion cycle, which holds only while the draft is what it last
    /// produced.
    pub tab: Option<TabCycle>,
    pub asleep: bool,
    pub is_ssh: bool,
    /// A lost connection is being re-established.
    pub reconnecting: bool,
    /// Attempts so far, and the seconds to the next; zero in flight.
    pub retry_attempt: u32,
    pub retry_next_s: u32,
    /// What a relaunch would run, for a terminal that runs a program.
    pub relaunch_cmd: Option<String>,
    /// The terminal had the keyboard in the last frame.
    pub term_focused: bool,
    /// The prompt latch, since when it holds.
    pub at_prompt_since: Option<Instant>,
    /// Bytes were sent at this prompt.
    pub episode_used: bool,
    pub last_pre: u64,
    pub last_exec: u64,
    /// Prompt hooks seen when a prompt line was last cleared.
    pub chord_pre: Option<u64>,
    /// Where a recall walk stands, and the draft set aside for it.
    pub recall: Option<(RecallSrc, String)>,
    pub search: Option<HistSearch>,
    /// The caret goes to the end of the draft in the next frame.
    pub caret_to_end: bool,
    /// The editor takes focus in the next frame.
    pub want_focus: bool,
    pub has_focus: bool,
    pub submit_hold: Option<SubmitHold>,
    pub post_submit: Option<SubmitWindow>,
    /// Submissions that wait for their prompt. An empty one is a spacer.
    pub pending: VecDeque<String>,
    /// A command whose row keeps its cover: line, column, directory, command.
    pub pending_history_cover: Option<(i32, usize, Option<String>, String)>,
    /// Bytes to send.
    pub pending_clear: Option<Vec<u8>>,
    /// A command to submit by record.
    pub pending_submit_cmd: Option<String>,
    pub busy_since: Option<Instant>,
    pub last_activity: Option<Instant>,
    pub compose_broken_since: Option<Instant>,
    pub alt_since: Option<Instant>,
    pub heur: Option<HeurPrompt>,
    pub heur_episode: bool,
    pub heur_cover_gen: Option<u64>,
    pub heur_cover_revoked: bool,
    pub heur_cover_row: Option<i32>,
}

pub open spec fn texts(q: Seq<String>) -> Seq<Seq<char>> {
    Seq::new(q.len(), |i: int| q[i]@)
}

pub open spec fn opt_str(o: Option<&str>) -> Option<Seq<char>> {
    match o {
        Some(s) => Some(s@),
        None => None,
    }
}

pub open spec fn recall_view(r: Option<(RecallSrc, String)>) -> Option<(RecallSrc, Seq<char>)> {
    match r {
        Some((src, saved)) => Some((src, saved@)),
        None => None,
    }
}

pub open spec fn cover_view(c: Option<(i32, usize, Option<String>, String)>) -> Option<
    (i32, usize, Option<Seq<char>>, Seq<char>),
> {
    match c {
        Some((line, col, cwd, cmd)) => Some((line, col, complete::opt_text(cwd), cmd@)),
        None => None,
    }
}

pub open spec fn bytes_view(b: Option<Vec<u8>>) -> Option<Seq<u8>> {
    match b {
        Some(v) => Some(v@),
        None => None,
    }
}

pub open spec fn hold_view(h: Option<SubmitHold>) -> Option<Hold> {
    match h {
        Some(x) => Some(x@),
        None => None,
    }
}

pub open spec fn search_view(s: Option<HistSearch>) -> Option<Search> {
    match s {
        Some(x) => Some(x@),
        None => None,
    }
}

impl View for ComposerState {
    type V = Composer;

    open spec fn view(&self) -> Composer {
        Composer {
            mode: self.mode,
            draft: self.draft@,
            is_cmd: self.is_cmd,
            fam: self.fam,
            tab: self.tab,
            asleep: self.asleep,
            is_ssh: self.is_ssh,
            reconnecting: self.reconnecting,
            retry_attempt: self.retry_attempt,
            retry_next_s: self.retry_next_s,
            relaunch_cmd: self.relaunch_cmd,
            term_focused: self.term_focused,
            at_prompt_since: self.at_prompt_since,
            episode_used: self.episode_used,
            last_pre: self.last_pre,
            last_exec: self.last_exec,
            chord_pre: self.chord_pre,
            recall: recall_view(self.recall),
            search: search_view(self.search),
            caret_to_end: self.caret_to_end,
            want_focus: self.want_focus,
            has_focus: self.has_focus,
            submit_hold: hold_view(self.submit_hold),
            post_submit: self.post_submit,
            pending: texts(self.pending@),
            pending_history_cover: cover_view(self.pending_history_cover),
            pending_clear: bytes_view(self.pending_clear),
            pending_submit_cmd: complete::opt_text(self.pending_submit_cmd),
            busy_since: self.busy_since,
            last_activity: self.last_activity,
            compose_broken_since: self.compose_broken_since,
            alt_since: self.alt_since,
            heur: self.heur,
            heur_episode: self.heur_episode,
            heur_cover_gen: self.heur_cover_gen,
            heur_cover_revoked: self.heur_cover_revoked,
            heur_cover_row: self.heur_cover_row,
        }
    }
}

impl Default for ComposerState {
    fn default() -> (s: ComposerState)
        ensures
            s.mode == ComposerMode::Raw(RawReason::NoPrompt),
            s.draft@.len() == 0,
            s.fam is Pwsh,
            s.tab is None,
            !s.is_cmd && !s.asleep && !s.is_ssh && !s.reconnecting && !s.term_focused,
            s.retry_attempt == 0 && s.retry_next_s == 0 && s.relaunch_cmd is None,
            s.at_prompt_since is None && !s.episode_used && s.last_pre == 0 && s.last_exec == 0,
            s.chord_pre is None && s.recall is None && s.search is None,
            !s.caret_to_end && !s.want_focus && !s.has_focus,
            s.submit_hold is None && s.post_submit is None && s.pending@.len() == 0,
            s.pending_history_cover is None && s.pending_clear is None,
            s.pending_submit_cmd is None && s.busy_since is None && s.last_activity is None,
            s.compose_broken_since is None && s.alt_since is None && s.heur is None,
            !s.heur_episode && s.heur_cover_gen is None && !s.heur_cover_revoked,
            s.heur_cover_row is None,
    {
        ComposerState {
            mode: ComposerMode::Raw(RawReason::NoPrompt),
            draft: String::new(),
            is_cmd: false,
            fam: Family::Pwsh,
            tab: None,
            asleep: false,
            is_ssh: false,
            reconnecting: false,
            retry_attempt: 0,
            retry_next_s: 0,
            relaunch_cmd: None,
            term_focused: false,
            at_prompt_since: None,
            episode_used: false,
            last_pre: 0,
            last_exec: 0,
            chord_pre: None,
            recall: None,
            search: None,
            caret_to_end: false,
            want_focus: false,
            has_focus: false,
            submit_hold: None,
            post_submit: None,
            pending: VecDeque::new(),
            pending_history_cover: None,
            pending_clear: None,
            pending_submit_cmd: None,
            busy_since: None,
            last_activity: None,
            compose_broken_since: None,
            alt_since: None,
            heur: None,
            heur_episode: false,
            heur_cover_gen: None,
            heur_cover_revoked: false,
            heur_cover_row: None,
        }
    }
}

/// Where a noted row stands now.
pub fn pin(line: i32, history: u32, grid: GridSize, b: &TermBackend) -> (r: Option<i32>)
    ensures
        r == model::pinned(line, history, grid, *b),
{
    if b.size != grid || b.history_size < history {
        return None;
    }
    let row: i64 = line as i64 - (b.history_size - history) as i64;
    if row >= -(b.history_size as i64) && row >= i32::MIN as i64 {
        Some(row as i32)
    } else {
        None
    }
}

/// A text's first line, without its line end.
pub fn first_line(s: &str) -> (r: String)
    ensures
        r@ == model::first_line(s@),
{
    let v = text::chars_of(s);
    assert(v@.subrange(0, v@.len() as int) =~= v@);
    let n: usize = text::first_at(&v, 0, v.len(), '\n');
    let to: usize = if 0 < n && n < v.len() && v[n - 1] == '\r' {
        n - 1
    } else {
        n
    };
    assert(v@.subrange(0, to as int) =~= v@.take(to as int));
    text::string_of(&v, 0, to)
}

/// Whether a text is exactly one line.
pub fn is_one_line(s: &str) -> (r: bool)
    ensures
        r == model::one_line(s@),
{
    let v = text::chars_of(s);
    assert(v@.subrange(0, v@.len() as int) =~= v@);
    let n: usize = text::first_at(&v, 0, v.len(), '\n');
    v.len() > 0 && n >= v.len() - 1
}

impl SubmitHold {
    /// The row of the hold in the grid as it is now.
    pub fn hold_row(&self, backend: &TermBackend) -> (r: Option<i32>)
        ensures
            r == self@.row(*backend),
    {
        pin(self.line, self.history, self.grid, backend)
    }

    pub fn hold_active(&self, now: Instant) -> (r: bool)
        ensures
            r == self@.active(now),
    {
        now.nanos_since(self.since) < SUBMIT_HOLD_MAX
    }

    pub fn echo_landed(&self, backend: &TermBackend) -> (r: bool)
        ensures
            r == self@.landed(*backend),
    {
        match self.hold_row(backend) {
            None => true,
            Some(row) => backend.cursor_line != row || backend.row_has_text_at(
                row,
                self.col,
                first_line(self.shown.as_str()).as_str(),
            ),
        }
    }
}

impl ComposerState {
    /// The prompt latch is live.
    pub fn at_prompt_latched(&self) -> (r: bool)
        ensures
            r == self@.at_prompt_since is Some,
    {
        self.at_prompt_since.is_some()
    }

    /// The inferred prompt, if any, still stands.
    pub fn heur_live(&self, backend: &TermBackend) -> (r: bool)
        ensures
            r == self@.heur_stands(*backend),
    {
        match &self.heur {
            None => false,
            Some(h) => {
                if backend.feed_gen != h.feed_gen || backend.is_alt() || backend.is_mouse() {
                    return false;
                }
                match pin(h.line, h.history, h.grid, backend) {
                    Some(row) => backend.cursor_line == row && backend.cursor_col == h.col,
                    None => false,
                }
            },
        }
    }

    /// The row that the inferred prompt covers this frame.
    pub fn heur_cover_line(&self, backend: &TermBackend) -> (r: Option<i32>)
        ensures
            r == if self@.heur_stands(*backend) {
                Some(backend.cursor_line)
            } else {
                None
            },
    {
        if self.heur_live(backend) {
            Some(backend.cursor_line)
        } else {
            None
        }
    }

    /// The cursor's row where it reads as a prompt.
    pub fn cursor_row_is_prompt(&self, backend: &TermBackend) -> (r: Option<i32>)
        ensures
            r == self@.prompt_row(*backend),
    {
        let (prefix, gap) = backend.cursor_prefix_gap();
        if !looks_like_shell_prompt(prefix.as_str(), gap) {
            return None;
        }
        let line: i32 = backend.cursor_line;
        if 0 <= line && line < backend.size.rows as i32 {
            Some(line)
        } else {
            None
        }
    }

    /// The row covered this frame ahead of an inferred prompt.
    pub fn heur_cover_optimistic(&self) -> (r: Option<i32>)
        ensures
            r == self@.heur_cover_row,
    {
        self.heur_cover_row
    }

    fn next_heur_cover(&self, backend: &TermBackend, running: bool) -> (r: (
        Option<u64>,
        bool,
        Option<i32>,
    ))
        ensures
            r == self@.next_cover(*backend, running),
    {
        let eligible: bool = self.heur_episode && self.mode == ComposerMode::Compose && running
            && backend.feed_live() && !backend.is_alt() && !backend.is_mouse() && !self.heur_live(
            backend,
        );
        if !eligible {
            return (None, false, None);
        }
        match self.cursor_row_is_prompt(backend) {
            None => (None, false, None),
            Some(row) => {
                if self.heur_cover_revoked {
                    return (self.heur_cover_gen, true, None);
                }
                match self.heur_cover_gen {
                    None => (Some(backend.feed_gen), false, Some(row)),
                    Some(g) => if g == backend.feed_gen {
                        (Some(backend.feed_gen), false, Some(row))
                    } else {
                        (None, true, None)
                    },
                }
            },
        }
    }

    /// Keep the cover ahead of an inferred prompt.
    pub fn maintain_heur_cover(&mut self, backend: &TermBackend, running: bool)
        ensures
            final(self)@ == old(self)@.cover_kept(*backend, running),
    {
        let (since, revoked, row) = self.next_heur_cover(backend, running);
        self.heur_cover_gen = since;
        self.heur_cover_revoked = revoked;
        self.heur_cover_row = row;
    }

    /// Whether a prompt may be inferred this frame.
    pub fn heur_gate(&self, backend: &TermBackend, recs: &[BlockRec], running: bool) -> (r: bool)
        ensures
            r == self@.may_infer(*backend, recs@, running),
    {
        if !running || self.asleep || self.reconnecting || self.at_prompt_since.is_some() {
            return false;
        }
        if !backend.feed_live() || backend.is_alt() || backend.is_mouse() {
            return false;
        }
        if pre_shell(running, false, backend.pre_seen(), backend.exec_seen(), false) {
            return false;
        }
        any_open(recs) && (self.heur_episode || any_nested_open(recs))
    }

    /// Infer a prompt where output has been quiet for long enough and the
    /// cursor's row reads as one. Returns when that quiet will be over.
    pub fn maybe_mint_heur(
        &mut self,
        backend: &TermBackend,
        recs: &[BlockRec],
        running: bool,
        now: Instant,
    ) -> (r: Option<Instant>)
        ensures
            final(self)@ == old(self)@.minted(*backend, recs@, running, now),
            r == old(self)@.quiet_until(*backend, recs@, running, now),
    {
        if self.heur.is_some() || !self.heur_gate(backend, recs, running) {
            return None;
        }
        let last = match backend.last_output_at {
            Some(t) => t,
            None => {
                return None;
            },
        };
        let deadline = last.after(HEUR_QUIET);
        if now.nanos < deadline.nanos {
            return Some(deadline);
        }
        if self.cursor_row_is_prompt(backend).is_some() {
            self.heur = Some(
                HeurPrompt {
                    line: backend.cursor_line,
                    col: backend.cursor_col,
                    since: now,
                    history: backend.history_size,
                    grid: backend.size,
                    feed_gen: backend.feed_gen,
                },
            );
            self.heur_episode = true;
            self.episode_used = false;
        }
        None
    }

    /// The hook counters as the stream has them. Called for every terminal on
    /// live output.
    pub fn on_stream_events(&mut self, pre_seen: u64, exec_seen: u64, now: Instant)
        ensures
            final(self)@ == old(self)@.streamed(pre_seen, exec_seen, now),
    {
        if exec_seen != self.last_exec {
            self.exec_edge(exec_seen, now);
        }
        if pre_seen != self.last_pre {
            self.prompt_edge(pre_seen, now);
        }
    }

    fn exec_edge(&mut self, exec_seen: u64, now: Instant)
        ensures
            final(self)@ == old(self)@.exec_seen(exec_seen, now),
    {
        self.last_exec = exec_seen;
        self.at_prompt_since = None;
        self.heur = None;
        self.heur_episode = false;
        self.busy_since = Some(now);
        self.last_activity = Some(now);
        if self.mode != ComposerMode::Compose {
            self.mode = ComposerMode::Raw(RawReason::Busy);
        }
    }

    fn prompt_edge(&mut self, pre_seen: u64, now: Instant)
        ensures
            final(self)@ == old(self)@.prompt_seen(pre_seen, now),
    {
        self.last_pre = pre_seen;
        self.at_prompt_since = Some(now);
        self.episode_used = false;
        self.heur = None;
        self.heur_episode = false;
        self.busy_since = None;
        self.last_activity = Some(now);
        if self.mode != ComposerMode::Compose {
            self.mode = ComposerMode::Raw(RawReason::NoPrompt);
        }
    }

    /// The session was at a prompt when it was attached to. An active editor
    /// is left alone.
    pub fn on_attach_prompt(&mut self, now: Instant)
        ensures
            final(self)@ == old(self)@.attached(now),
    {
        if self.mode == ComposerMode::Compose {
            return;
        }
        self.at_prompt_since = Some(now);
        self.episode_used = false;
        self.mode = ComposerMode::Raw(RawReason::NoPrompt);
    }
}

/// A text, then the draft if there is any to speak of, as lines.
fn put_above(t: &str, draft: &str) -> (r: String)
    ensures
        r@ == model::back_above(t@, draft@),
{
    let mut out = t.to_owned();
    if !text::is_blank(draft) {
        out.push('\n');
        out.append(draft);
        assert(out@ =~= t@ + seq!['\n'] + draft@);
    }
    out
}

/// The queued texts that are not spacers, then the draft if there is any to
/// speak of, as lines.
fn fold_lines(q: &VecDeque<String>, draft: &str) -> (r: String)
    ensures
        r@ == model::above(model::typed(texts(q@)), draft@),
{
    let mut out = String::new();
    let mut any = false;
    let mut i: usize = 0;
    let ghost all = texts(q@);
    assert(model::typed(all.take(0)) =~= Seq::<Seq<char>>::empty());
    while i < q.len()
        invariant
            i <= q@.len(),
            all == texts(q@),
            any == (model::typed(all.take(i as int)).len() > 0),
            out@ == model::joined(model::typed(all.take(i as int))),
        decreases q@.len() - i,
    {
        let ghost lines = model::typed(all.take(i as int));
        proof {
            assert(all.take(i + 1).drop_last() =~= all.take(i as int));
            assert(all.take(i + 1).last() == q@[i as int]@);
            lemma_joined(lines, q@[i as int]@);
        }
        let item = q[i].as_str();
        if !item.is_empty() {
            if any {
                out.push('\n');
            }
            out.append(item);
            any = true;
            assert(any ==> out@ =~= model::joined(lines.push(item@)));
        }
        i = i + 1;
    }
    assert(all.take(all.len() as int) =~= all);
    if !text::is_blank(draft) {
        proof {
            lemma_joined(model::typed(all), draft@);
        }
        if any {
            out.push('\n');
        }
        out.append(draft);
        assert(out@ =~= model::joined(model::typed(all).push(draft@)));
    }
    out
}

proof fn lemma_joined(lines: Seq<Seq<char>>, line: Seq<char>)
    ensures
        model::joined(lines.push(line)) == if lines.len() == 0 {
            line
        } else {
            model::joined(lines) + seq!['\n'] + line
        },
        lines.len() == 0 ==> model::joined(lines).len() == 0,
{
    assert(lines.push(line).drop_last() =~= lines);
}

/// The queued texts as keystrokes, with or without the spacers.
pub(crate) fn queue_keystrokes(q: &VecDeque<String>, spacers: bool) -> (r: Vec<u8>)
    ensures
        spacers ==> r@ == model::keystrokes(texts(q@)),
        !spacers ==> r@ == model::keystrokes(model::typed(texts(q@))),
{
    let mut out: Vec<u8> = Vec::new();
    let mut i: usize = 0;
    let ghost all = texts(q@);
    assert(all.take(0) =~= Seq::<Seq<char>>::empty());
    while i < q.len()
        invariant
            i <= q@.len(),
            all == texts(q@),
            spacers ==> out@ == model::keystrokes(all.take(i as int)),
            !spacers ==> out@ == model::keystrokes(model::typed(all.take(i as int))),
        decreases q@.len() - i,
    {
        let ghost lines = model::typed(all.take(i as int));
        proof {
            assert(all.take(i + 1).drop_last() =~= all.take(i as int));
            assert(all.take(i + 1).last() == q@[i as int]@);
            assert(lines.push(q@[i as int]@).drop_last() =~= lines);
        }
        let item = q[i].as_str();
        if spacers || !item.is_empty() {
            let mut bytes = keystroke_bytes(item).as_str().as_bytes_vec();
            out.append(&mut bytes);
            out.push(0x0d);
            assert(spacers ==> out@ =~= model::keystrokes(all.take(i + 1)));
            assert(!spacers ==> out@ =~= model::keystrokes(lines.push(item@)));
        }
        i = i + 1;
    }
    assert(all.take(all.len() as int) =~= all);
    out
}

/// The outbox with more bytes behind what it holds.
pub(crate) fn append_bytes(outbox: &Option<Vec<u8>>, bytes: Vec<u8>) -> (r: Option<Vec<u8>>)
    ensures
        bytes_view(r) == model::appended(bytes_view(*outbox), bytes@),
{
    match outbox {
        Some(held) => {
            let mut out = encode::bytes_of(held);
            let mut more = bytes;
            out.append(&mut more);
            assert(bytes@.len() == 0 ==> out@ =~= held@);
            Some(out)
        },
        None => if bytes.len() == 0 {
            None
        } else {
            Some(bytes)
        },
    }
}

impl ComposerState {
    /// The terminal was reset: the draft is kept, with what was queued back in
    /// it, and the hook counters start over with the new lifetime's.
    pub fn on_reset(&mut self)
        ensures
            final(self)@ == old(self)@.reset(),
    {
        self.fold_pending_into_draft();
        self.mode = ComposerMode::Raw(RawReason::NoPrompt);
        self.at_prompt_since = None;
        self.episode_used = false;
        self.last_pre = 0;
        self.last_exec = 0;
        self.chord_pre = None;
        self.want_focus = false;
        self.has_focus = false;
        self.submit_hold = None;
        self.pending_history_cover = None;
        self.heur = None;
        self.heur_episode = false;
    }

    /// The session exited: the draft is kept, with what was queued back in it.
    pub fn on_exited(&mut self)
        ensures
            final(self)@ == old(self)@.exited(),
    {
        self.fold_pending_into_draft();
        let reason = if self.asleep {
            RawReason::Asleep
        } else {
            RawReason::Dead
        };
        self.mode = ComposerMode::Raw(reason);
        self.at_prompt_since = None;
        self.last_pre = 0;
        self.last_exec = 0;
        self.chord_pre = None;
        self.want_focus = false;
        self.has_focus = false;
        self.submit_hold = None;
        self.heur = None;
        self.heur_episode = false;
    }

    /// The typeahead buffer is engaged: a window is open or something is
    /// queued.
    pub fn buffering(&self) -> (r: bool)
        ensures
            r == self@.buffers(),
    {
        self.post_submit.is_some() || self.pending.len() > 0
    }

    /// The queue can take another submission.
    pub fn pending_has_room(&self) -> (r: bool)
        ensures
            r == (self@.pending.len() < PENDING_CAP),
    {
        self.pending.len() < PENDING_CAP
    }

    /// Queue one empty Enter.
    pub fn push_spacer(&mut self)
        ensures
            final(self)@ == old(self)@.spaced(),
    {
        let mut n: usize = self.pending.len();
        let ghost all = texts(self.pending@);
        assert(all.take(all.len() as int) =~= all);
        let mut tail: usize = 0;
        while n > 0 && self.pending[n - 1].as_str().is_empty()
            invariant
                *self == *old(self),
                n + tail == self.pending@.len(),
                n + tail <= usize::MAX,
                all == texts(self.pending@),
                model::tail_spacers(all.take(n as int)) + tail == model::tail_spacers(all),
            decreases n,
        {
            proof {
                assert(all.take(n as int).drop_last() =~= all.take(n - 1));
                assert(all.take(n as int).last() == self.pending@[n - 1]@);
            }
            n = n - 1;
            tail = tail + 1;
        }
        proof {
            if n > 0 {
                assert(all.take(n as int).last() == self.pending@[n - 1]@);
            }
        }
        if tail < SPACER_QUEUE_CAP && self.pending_has_room() {
            self.pending.push_back(String::new());
            assert(texts(self.pending@) =~= all.push(Seq::empty()));
        }
    }

    /// The draft becomes a queued submission.
    pub fn queue_draft(&mut self)
        ensures
            final(self)@ == old(self)@.queued(),
    {
        let ghost before = texts(self.pending@);
        let item = text::trim_end(self.draft.as_str());
        let ghost queued = item@;
        self.draft = String::new();
        self.recall = None;
        self.pending.push_back(item);
        assert(texts(self.pending@) =~= before.push(queued));
        assert(self.draft@ =~= Seq::<char>::empty());
    }

    /// What is queued goes back into the draft. Nothing fires.
    pub fn fold_pending_into_draft(&mut self)
        ensures
            final(self)@ == old(self)@.folded(),
    {
        if self.pending.len() == 0 {
            self.post_submit = None;
            return;
        }
        let draft = fold_lines(&self.pending, self.draft.as_str());
        let search = match &self.search {
            Some(s) => Some(
                HistSearch { sel: s.sel, saved: fold_lines(&self.pending, s.saved.as_str()) },
            ),
            None => None,
        };
        self.post_submit = None;
        self.pending = VecDeque::new();
        self.draft = draft;
        self.search = search;
        self.caret_to_end = true;
        assert(texts(self.pending@) =~= Seq::<Seq<char>>::empty());
    }

    /// The queue and the draft go to the terminal as keystrokes, and the
    /// editor yields.
    pub fn flush_to_pty(&mut self, reason: RawReason, now: Instant)
        ensures
            final(self)@ == old(self)@.flushed(reason, now),
    {
        let mut bytes = queue_keystrokes(&self.pending, true);
        let mut rest = keystroke_bytes(self.draft.as_str()).as_str().as_bytes_vec();
        bytes.append(&mut rest);
        self.pending_clear = append_bytes(&self.pending_clear, bytes);
        self.pending = VecDeque::new();
        self.draft = String::new();
        self.post_submit = None;
        self.recall = None;
        self.mode = ComposerMode::Raw(reason);
        self.want_focus = false;
        self.has_focus = false;
        self.last_activity = Some(now);
        assert(texts(self.pending@) =~= Seq::<Seq<char>>::empty());
        assert(self.draft@ =~= Seq::<char>::empty());
    }

    /// Whether nothing but spacers is queued.
    fn only_spacers(&self) -> (r: bool)
        ensures
            r == model::all_spacers(self@.pending),
    {
        let mut i: usize = 0;
        while i < self.pending.len()
            invariant
                i <= self.pending@.len(),
                forall|k: int| 0 <= k < i ==> (#[trigger] texts(self.pending@)[k]).len() == 0,
            decreases self.pending@.len() - i,
        {
            if !self.pending[i].as_str().is_empty() {
                assert(texts(self.pending@)[i as int].len() > 0);
                return false;
            }
            i = i + 1;
        }
        true
    }

    /// The window closes, and a queue of nothing but spacers goes with it.
    fn end_window(&mut self)
        ensures
            final(self)@ == old(self)@.window_ended(),
    {
        self.post_submit = None;
        if self.only_spacers() && text::is_blank(self.draft.as_str()) {
            self.pending = VecDeque::new();
            assert(texts(self.pending@) =~= Seq::<Seq<char>>::empty());
        }
    }

    /// What becomes of the window this frame.
    fn window_next(&self, backend: &TermBackend, now: Instant) -> (r: WindowMove)
        ensures
            r == self@.window_move(*backend, now),
    {
        let w = match self.post_submit {
            Some(w) => w,
            None => {
                return WindowMove::Keep;
            },
        };
        let age: u64 = now.nanos_since(w.since);
        let heur_fresh: bool = w.heur && match &self.heur {
            Some(h) => h.since.nanos > w.since.nanos,
            None => false,
        };
        let flush_after: u64 = if w.heur {
            HEUR_FLUSH
        } else {
            POST_SUBMIT_FLUSH
        };
        if age >= WINDOW_STALE {
            WindowMove::Fold
        } else if backend.pre_seen() > w.pre0 || heur_fresh {
            WindowMove::Close
        } else if backend.is_alt() {
            WindowMove::Flush(RawReason::AltScreen)
        } else if backend.is_mouse() {
            WindowMove::Flush(RawReason::Busy)
        } else if age >= flush_after {
            WindowMove::End
        } else {
            WindowMove::Keep
        }
    }

    /// Look at the window that a submission opened.
    pub fn resolve_post_submit(&mut self, backend: &TermBackend, now: Instant)
        ensures
            final(self)@ == old(self)@.resolved(*backend, now),
    {
        match self.window_next(backend, now) {
            WindowMove::Keep => {},
            WindowMove::Fold => self.fold_pending_into_draft(),
            WindowMove::Close => {
                self.post_submit = None;
            },
            WindowMove::Flush(reason) => self.flush_to_pty(reason, now),
            WindowMove::End => self.end_window(),
        }
    }
}

impl ComposerState {
    /// Dispatch the next queued submission, at most one, and only at a prompt
    /// that is certain. Returns the bytes to ship and whether it was a spacer.
    pub fn pump_pending(
        &mut self,
        backend: &TermBackend,
        cover_line: Option<i32>,
        cwd: Option<&str>,
        now: Instant,
    ) -> (r: Option<(Vec<u8>, bool)>)
        ensures
            r is Some == old(self)@.may_pump(*backend),
            r is None ==> final(self)@ == old(self)@,
            r matches Some((bytes, spacer)) ==> {
                let first = old(self)@.pending[0];
                &&& final(self)@ == old(self)@.popped().dispatched(
                    *backend,
                    cover_line,
                    opt_str(cwd),
                    first,
                    now,
                )
                &&& bytes@ == old(self)@.dispatch_bytes(*backend, first)
                &&& spacer == old(self)@.dispatched_spacer(first)
            },
    {
        if self.mode != ComposerMode::Compose || self.post_submit.is_some()
            || self.submit_hold.is_some() {
            return None;
        }
        let ready: bool = (self.at_prompt_since.is_some() && backend.cursor_at_prompt_end()
            && !backend.prompt_end_pending()) || self.heur_live(backend);
        if !ready {
            return None;
        }
        if self.pending.len() == 0 {
            return None;
        }
        let item = self.pop_pending();
        Some(self.dispatch_submission(backend, cover_line, cwd, item.as_str(), now))
    }

    fn pop_pending(&mut self) -> (item: String)
        requires
            old(self)@.pending.len() > 0,
        ensures
            item@ == old(self)@.pending[0],
            final(self)@ == old(self)@.popped(),
    {
        let ghost before = texts(self.pending@);
        let item = self.pending.pop_front();
        assert(texts(self.pending@) =~= before.skip(1));
        item.unwrap()
    }

    /// The row that the handoff covers this frame.
    pub fn hold_line(&self, backend: &TermBackend, now: Instant) -> (r: Option<i32>)
        ensures
            r == self@.held_row(*backend, now),
    {
        match &self.submit_hold {
            Some(h) => if h.hold_active(now) {
                h.hold_row(backend)
            } else {
                None
            },
            None => None,
        }
    }

    /// Raw bytes are about to be sent from the grid: the user chose it.
    pub fn on_raw_input(&mut self, _now: Instant)
        ensures
            final(self)@ == old(self)@.raw_typed(),
    {
        self.spend_at_grid();
        if self.mode == ComposerMode::Compose {
            self.dismiss();
        }
    }

    fn spend_at_grid(&mut self)
        ensures
            final(self)@ == old(self)@.grid_chosen(),
    {
        let used: bool = self.episode_used || self.at_prompt_since.is_some();
        self.episode_used = used;
        self.heur = None;
    }

    fn dismiss(&mut self)
        ensures
            final(self)@ == old(self)@.dismissed(),
    {
        self.fold_pending_into_draft();
        self.mode = ComposerMode::Raw(RawReason::UserRaw);
        self.want_focus = false;
    }

    pub fn take_pending_history_cover(&mut self) -> (r: Option<
        (i32, usize, Option<String>, String),
    >)
        ensures
            cover_view(r) == old(self)@.pending_history_cover,
            final(self)@ == (Composer { pending_history_cover: None, ..old(self)@ }),
    {
        self.pending_history_cover.take()
    }

    pub fn take_pending_clear(&mut self) -> (r: Option<Vec<u8>>)
        ensures
            bytes_view(r) == old(self)@.pending_clear,
            final(self)@ == (Composer { pending_clear: None, ..old(self)@ }),
    {
        self.pending_clear.take()
    }

    pub fn take_submit_cmd(&mut self) -> (r: Option<String>)
        ensures
            complete::opt_text(r) == old(self)@.pending_submit_cmd,
            final(self)@ == (Composer { pending_submit_cmd: None, ..old(self)@ }),
    {
        self.pending_submit_cmd.take()
    }

    /// The user left the editor for the grid. The episode is spent, or the
    /// gate would arm again in the next frame.
    pub fn blur_to_grid(&mut self)
        ensures
            final(self)@ == old(self)@.blurred(),
    {
        self.search_close_quiet();
        if self.mode == ComposerMode::Compose {
            self.fold_pending_into_draft();
            self.mode = ComposerMode::Raw(RawReason::UserRaw);
            self.episode_used = self.episode_used || self.at_prompt_since.is_some()
                || self.heur.is_some();
        }
        self.want_focus = false;
        self.has_focus = false;
    }

    /// Whether activation clears the prompt line.
    fn chord_due(&self, backend: &TermBackend) -> (r: bool)
        ensures
            r == self@.clears_line(*backend),
    {
        if backend.cursor_at_prompt_end() || self.heur_live(backend) {
            return false;
        }
        let col0_capture: bool = match backend.captured_end() {
            Some((_, col)) => col == 0,
            None => false,
        };
        let chord_fresh: bool = match self.chord_pre {
            Some(p) => p != backend.pre_seen(),
            None => true,
        };
        !col0_capture && chord_fresh
    }

    /// Clear the prompt line. Returns the chord that does it.
    fn clear_line(&mut self, backend: &TermBackend) -> (out: Vec<u8>)
        ensures
            final(self)@ == old(self)@.line_cleared(*backend),
            out@ == encode::line_clear(*backend, old(self)@.is_cmd),
    {
        if let Reclaim::Text(t) = &backend.reclaim {
            if !t.as_str().is_empty() {
                self.push_reclaimed(t.as_str());
            }
        }
        self.chord_pre = Some(backend.pre_seen());
        line_clear_chord(backend, self.is_cmd)
    }

    /// The user activated the editor. Returns the bytes to send first: the
    /// clear chord where the prompt holds stray text. What can be recovered of
    /// that text goes into the draft.
    pub fn activate(&mut self, backend: &TermBackend) -> (out: Vec<u8>)
        ensures
            final(self)@ == old(self)@.activated(*backend),
            out@ == old(self)@.activation_bytes(*backend),
    {
        let dirty: bool = !backend.cursor_at_prompt_end() && !self.heur_live(backend);
        let out: Vec<u8> = if self.chord_due(backend) {
            self.clear_line(backend)
        } else {
            Vec::new()
        };
        assert(out@ =~= old(self)@.activation_bytes(*backend));
        self.open_editor(dirty);
        out
    }

    fn open_editor(&mut self, dirty: bool)
        ensures
            final(self)@ == old(self)@.opened(dirty),
    {
        let used: bool = self.episode_used || (dirty && self.at_prompt_since.is_some());
        self.episode_used = used;
        self.mode = ComposerMode::Compose;
        self.want_focus = true;
    }

    /// Text recovered from the prompt joins the draft on a line of its own.
    pub fn push_reclaimed(&mut self, t: &str)
        ensures
            final(self)@ == old(self)@.reclaimed(t@),
    {
        if self.draft.as_str().is_empty() {
            self.draft = t.to_owned();
        } else {
            self.draft.push('\n');
            self.draft.append(t);
        }
        self.caret_to_end = true;
        self.recall = None;
    }

    /// Text dropped or pasted into the command being typed.
    pub fn insert_dropped_text(&mut self, s: &str)
        ensures
            final(self)@ == old(self)@.dropped(s@),
    {
        let t = normalize_paste_text(s);
        let n: usize = self.draft.as_str().unicode_len();
        if n > 0 && !text::is_white(self.draft.as_str().get_char(n - 1)) {
            self.draft.push(' ');
        }
        self.draft.append(t.as_str());
        self.caret_to_end = true;
        self.recall = None;
    }

    /// A command from the history takes the draft's place.
    pub fn insert_history(&mut self, cmd: &str)
        ensures
            final(self)@ == old(self)@.inserted(cmd@),
    {
        self.search_close_quiet();
        if !self.draft.as_str().is_empty() && !text::same(self.draft.as_str(), cmd) {
            self.recall = Some((RecallSrc::History, self.draft.clone()));
        }
        self.draft = cmd.to_owned();
        self.caret_to_end = true;
        self.want_focus = true;
    }

    /// Whether a command from the history may be run this frame.
    pub fn history_run_allowed(
        &self,
        backend: &TermBackend,
        recs: &[BlockRec],
        running: bool,
        now: Instant,
    ) -> (r: bool)
        ensures
            r == self@.may_run(*backend, recs@, running, now),
    {
        let i = self.gate_inputs(backend, recs, running, now);
        let submit_ready: bool = i.running && !i.alt && !i.open_block && i.at_prompt
            && !self.buffering();
        (self.mode == ComposerMode::Compose && submit_ready) || gate(&i) == GateVerdict::AutoArm
    }

    /// Submit the draft. Returns the bytes to ship and whether it was the
    /// empty-Enter gesture. While the prompt is still being rendered the draft
    /// waits in the queue instead.
    pub fn submit(
        &mut self,
        backend: &TermBackend,
        cover_line: Option<i32>,
        cwd: Option<&str>,
        now: Instant,
    ) -> (r: (Vec<u8>, bool))
        ensures
            final(self)@ == old(self)@.submitted(*backend, cover_line, opt_str(cwd), now),
            r.0@ == old(self)@.submit_bytes(*backend),
            r.1 == (!old(self)@.submits_late(*backend) && old(self)@.dispatched_spacer(
                old(self)@.draft,
            )),
    {
        if backend.feed_live() && !text::is_blank(self.draft.as_str())
            && self.at_prompt_since.is_some() && (!backend.has_prompt_end()
            || backend.prompt_end_pending()) && self.pending_has_room() {
            self.queue_open();
            let none: Vec<u8> = Vec::new();
            assert(none@ =~= Seq::<u8>::empty());
            return (none, false);
        }
        let draft = self.take_draft();
        self.dispatch_submission(backend, cover_line, cwd, draft.as_str(), now)
    }

    fn queue_open(&mut self)
        ensures
            final(self)@ == old(self)@.queued_open(),
    {
        self.queue_draft();
        self.want_focus = true;
        self.mode = ComposerMode::Compose;
    }

    fn take_draft(&mut self) -> (draft: String)
        ensures
            draft@ == old(self)@.draft,
            final(self)@ == old(self)@.draft_taken(),
    {
        let draft = self.draft.clone();
        self.draft = String::new();
        self.recall = None;
        self.want_focus = true;
        assert(self.draft@ =~= Seq::<char>::empty());
        draft
    }

    /// The handoff that a submission of `t` leaves.
    fn new_hold(
        &self,
        backend: &TermBackend,
        line: i32,
        cwd: Option<&str>,
        t: &str,
        now: Instant,
    ) -> (h: SubmitHold)
        ensures
            h@ == self@.hold_of(*backend, line, opt_str(cwd), t@, now),
    {
        let col: usize = if !self.is_cmd && self.heur_episode {
            match &self.heur {
                Some(h) => h.col,
                None => 0,
            }
        } else {
            match backend.captured_end() {
                Some((_, col)) => col,
                None => 0,
            }
        };
        SubmitHold {
            shown: text::trim_end(t),
            line,
            col,
            cwd: match cwd {
                Some(c) => Some(c.to_owned()),
                None => None,
            },
            since: now,
            history: backend.history_size,
            grid: backend.size,
        }
    }

    /// A refused text comes back into the editor.
    fn give_back(&mut self, t: &str)
        ensures
            final(self)@ == old(self)@.given_back(t@),
    {
        let draft = put_above(t, self.draft.as_str());
        let search = match &self.search {
            Some(s) => Some(HistSearch { sel: s.sel, saved: put_above(t, s.saved.as_str()) }),
            None => None,
        };
        self.draft = draft;
        self.search = search;
        self.caret_to_end = true;
        self.mode = ComposerMode::Compose;
    }

    /// The way that every submission takes to the terminal. Returns the bytes
    /// to ship and whether it was a spacer.
    pub fn dispatch_submission(
        &mut self,
        backend: &TermBackend,
        cover_line: Option<i32>,
        cwd: Option<&str>,
        t: &str,
        now: Instant,
    ) -> (r: (Vec<u8>, bool))
        ensures
            final(self)@ == old(self)@.dispatched(*backend, cover_line, opt_str(cwd), t@, now),
            r.0@ == old(self)@.dispatch_bytes(*backend, t@),
            r.1 == old(self)@.dispatched_spacer(t@),
    {
        let spacer: bool = text::is_blank(t);
        let recorded: bool = (self.is_cmd || self.heur_episode) && !spacer;
        if recorded && text::has_char(t, '\n') {
            self.give_back(t);
            let none: Vec<u8> = Vec::new();
            assert(none@ =~= Seq::<u8>::empty());
            return (none, false);
        }
        let bytes: Vec<u8> = if recorded {
            Vec::new()
        } else {
            submission_bytes(backend, t)
        };
        assert(bytes@ =~= old(self)@.dispatch_bytes(*backend, t@));
        self.send(backend, cover_line, cwd, t, now);
        (bytes, spacer)
    }

    fn send(
        &mut self,
        backend: &TermBackend,
        cover_line: Option<i32>,
        cwd: Option<&str>,
        t: &str,
        now: Instant,
    )
        ensures
            final(self)@ == old(self)@.sent(*backend, cover_line, opt_str(cwd), t@, now),
    {
        let spacer: bool = text::is_blank(t);
        let recorded: bool = (self.is_cmd || self.heur_episode) && !spacer;
        let heur: bool = !self.is_cmd && self.heur_episode;
        if let Some(line) = cover_line {
            if !spacer {
                let hold = self.new_hold(backend, line, cwd, t, now);
                self.put_hold(hold);
            }
        }
        if recorded {
            self.put_command(text::trim(t));
        }
        self.open_window(SubmitWindow { pre0: backend.pre_seen(), since: now, heur });
    }

    fn put_hold(&mut self, hold: SubmitHold)
        ensures
            final(self)@ == (Composer { submit_hold: Some(hold@), ..old(self)@ }),
    {
        self.submit_hold = Some(hold);
    }

    fn put_command(&mut self, cmd: String)
        ensures
            final(self)@ == (Composer { pending_submit_cmd: Some(cmd@), ..old(self)@ }),
    {
        self.pending_submit_cmd = Some(cmd);
    }

    fn open_window(&mut self, w: SubmitWindow)
        ensures
            final(self)@ == (Composer {
                episode_used: true,
                mode: ComposerMode::Compose,
                last_activity: Some(w.since),
                post_submit: Some(w),
                ..old(self)@
            }),
    {
        self.episode_used = true;
        self.mode = ComposerMode::Compose;
        self.last_activity = Some(w.since);
        self.post_submit = Some(w);
    }

    /// What the arming gate looks at this frame.
    pub fn gate_inputs(
        &self,
        backend: &TermBackend,
        recs: &[BlockRec],
        running: bool,
        now: Instant,
    ) -> (i: GateInputs)
        ensures
            i == self@.inputs(*backend, recs@, running, now),
    {
        let heur_live: bool = self.heur_live(backend);
        let latched: bool = self.at_prompt_since.is_some();
        let settled: bool = match self.at_prompt_since {
            Some(t) => now.nanos_since(t) >= SETTLE,
            None => false,
        };
        GateInputs {
            hooked: true,
            running,
            alt: backend.is_alt(),
            mouse: backend.is_mouse(),
            open_block: any_open(recs) && !latched && !heur_live,
            at_prompt: latched || heur_live,
            settled: settled || heur_live,
            cursor_clean: backend.cursor_at_prompt_end() || heur_live,
            episode_used: self.episode_used,
            asleep: self.asleep,
        }
    }

    /// Make the strip visible now: the clock of the alternate screen restarts.
    pub fn restart_hide_clock(&mut self)
        ensures
            final(self)@ == (Composer { alt_since: None, ..old(self)@ }),
    {
        self.alt_since = None;
    }

    pub fn search_active(&self) -> (r: bool)
        ensures
            r == self@.search is Some,
    {
        self.search.is_some()
    }

    /// Open the history search. The draft is set aside, and the editor becomes
    /// the empty query. Nothing happens while it is open.
    pub fn search_begin(&mut self)
        ensures
            final(self)@ == old(self)@.search_begun(),
    {
        if self.search.is_none() {
            let saved = self.draft.clone();
            self.draft = String::new();
            self.search = Some(HistSearch { sel: 0, saved });
            self.caret_to_end = true;
            assert(self.draft@ =~= Seq::<char>::empty());
        }
    }

    /// To the next of `n` results, around at the end.
    pub fn search_cycle(&mut self, n: usize)
        ensures
            final(self)@ == old(self)@.search_at(|sel: int| if n > 0 {
                (sel + 1) % (n as int)
            } else {
                sel
            }),
    {
        if let Some(s) = &self.search {
            if n > 0 {
                let sel: u128 = (s.sel as u128 + 1) % (n as u128);
                self.search = Some(HistSearch { sel: sel as usize, saved: s.saved.clone() });
            }
        }
    }

    /// The selection moves by `delta` among `n` results, and stops at the ends.
    pub fn search_nav(&mut self, delta: i64, n: usize)
        ensures
            final(self)@ == old(self)@.search_at(|sel: int| if n == 0 {
                sel
            } else if sel + delta < 0 {
                0
            } else if sel + delta > n - 1 {
                n - 1
            } else {
                sel + delta
            }),
    {
        if let Some(s) = &self.search {
            if n > 0 {
                let want: i128 = s.sel as i128 + delta as i128;
                let top: i128 = n as i128 - 1;
                let sel: i128 = if want < 0 {
                    0
                } else if want > top {
                    top
                } else {
                    want
                };
                self.search = Some(HistSearch { sel: sel as usize, saved: s.saved.clone() });
            }
        }
    }

    /// The query changed: the selection returns to the best result.
    pub fn search_edited(&mut self)
        ensures
            final(self)@ == old(self)@.search_at(|sel: int| 0),
    {
        if let Some(s) = &self.search {
            self.search = Some(HistSearch { sel: 0, saved: s.saved.clone() });
        }
    }

    /// The results are `n` now: the selection stays among them.
    pub fn search_clamp(&mut self, n: usize)
        ensures
            final(self)@ == old(self)@.search_at(|sel: int| if n == 0 {
                0
            } else if sel > n - 1 {
                n - 1
            } else {
                sel
            }),
    {
        if let Some(s) = &self.search {
            let top: usize = if n == 0 {
                0
            } else {
                n - 1
            };
            let sel: usize = if s.sel > top {
                top
            } else {
                s.sel
            };
            self.search = Some(HistSearch { sel, saved: s.saved.clone() });
        }
    }

    /// The selected command becomes the draft. It is never submitted.
    pub fn search_accept(&mut self, cmd: &str)
        ensures
            final(self)@ == old(self)@.search_accepted(cmd@),
    {
        if self.search.is_some() {
            self.insert_history(cmd);
        }
    }

    /// Close the search: the draft is what it was, and the editor keeps focus.
    pub fn search_cancel(&mut self)
        ensures
            final(self)@ == old(self)@.search_cancelled(),
    {
        if self.search.is_some() {
            self.search_close_quiet();
            self.caret_to_end = true;
            self.want_focus = true;
        }
    }

    /// Close the search without taking focus.
    pub fn search_close_quiet(&mut self)
        ensures
            final(self)@ == old(self)@.search_closed(),
    {
        if let Some(s) = self.search.take() {
            self.draft = s.saved;
        }
    }

    /// Append what the ghost suggests. Returns the caret at the end.
    pub fn ghost_accept(&mut self, rest: &str) -> (caret: usize)
        ensures
            final(self)@ == (Composer { draft: old(self)@.draft + rest@, ..old(self)@ }),
            caret == old(self)@.draft.len() + rest@.len(),
    {
        self.draft.append(rest);
        self.draft.as_str().unicode_len()
    }
}

} // verus!
