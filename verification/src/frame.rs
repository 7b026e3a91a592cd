//! What one frame of the strip decides: what may be done in it, what its keys
//! and clicks do, and what it says.

use std::collections::VecDeque;

use vstd::prelude::*;
use vstd::string::*;

use crate::clock::Instant;
use crate::encode;
use crate::encode::{clear_chord, enter_action, EnterAction};
use crate::gate;
use crate::gate::{pre_shell, ComposerMode, RawReason};
use crate::history::SEARCH_MAX;
use crate::lexer;
use crate::model;
use crate::model::Composer;
use crate::search;
use crate::search::search_results;
use crate::state;
use crate::state::{ComposerState, HistSearch};
use crate::term;
use crate::term::{any_open, BlockRec, TermBackend};
use crate::text;

verus! {

/// What may be done in a frame.
#[derive(Clone, Copy, PartialEq, Eq, Structural, Debug)]
pub struct Frame {
    /// The lane presents a sleeping terminal.
    pub asleep_lane: bool,
    /// The lane presents a connection being re-established.
    pub recon_lane: bool,
    /// The lane presents an ended session.
    pub dead_lane: bool,
    /// The draft is not blank.
    pub has_draft: bool,
    /// Keys and Enter go into the buffer.
    pub buffering: bool,
    /// The draft has more lines than the shell takes.
    pub cmd_multiline: bool,
    /// Enter submits.
    pub can_submit: bool,
    /// A command runs under the editor; Enter queues.
    pub busy_hold: bool,
    /// No shell has spoken yet.
    pub pre_shell: bool,
    /// The editor may be opened by hand.
    pub arm_available: bool,
    /// A prompt is inferred and stands.
    pub heur_armed: bool,
}

/// The records prove that this lifetime has reached a prompt: all are closed,
/// and the newest is of this lifetime.
pub open spec fn reached_prompt(recs: Seq<BlockRec>, epoch: u32) -> bool {
    recs.len() > 0 && !term::open_in(recs) && recs.last().epoch == epoch
}

impl Composer {
    pub open spec fn sleeps(self, running: bool) -> bool {
        self.mode == ComposerMode::Raw(RawReason::Asleep) || (self.asleep && !running)
    }

    pub open spec fn facts(
        self,
        b: TermBackend,
        recs: Seq<BlockRec>,
        epoch: u32,
        running: bool,
        now: Instant,
    ) -> Frame {
        let i = self.inputs(b, recs, running, now);
        let asleep_lane = self.sleeps(running);
        let recon_lane = self.reconnecting && !asleep_lane && self.mode is Raw;
        let cmd_multiline = (self.is_cmd || self.heur_episode) && self.draft.contains('\n');
        let pre_shell = gate::before_shell(
            running,
            i.alt,
            b.pre(),
            b.exec(),
            self.at_prompt_since is Some,
        );
        Frame {
            asleep_lane,
            recon_lane,
            dead_lane: !running && !asleep_lane && !recon_lane && self.mode is Raw,
            has_draft: !text::blank(self.draft),
            buffering: self.buffers(),
            cmd_multiline,
            can_submit: running && !i.alt && !i.open_block && i.at_prompt && !self.buffers()
                && !cmd_multiline,
            busy_hold: running && !i.alt && !i.at_prompt && (i.open_block || self.busy_since
                is Some),
            pre_shell,
            arm_available: running && !i.alt && !i.mouse && !i.open_block && !pre_shell && (
            i.at_prompt || reached_prompt(recs, epoch)),
            heur_armed: self.heur_episode && self.heur_stands(b),
        }
    }
}

/// What may be done this frame.
pub fn frame_facts(
    state: &ComposerState,
    backend: &TermBackend,
    recs: &[BlockRec],
    epoch: u32,
    running: bool,
    now: Instant,
) -> (f: Frame)
    ensures
        f == state@.facts(*backend, recs@, epoch, running, now),
{
    let i = state.gate_inputs(backend, recs, running, now);
    let raw: bool = state.mode != ComposerMode::Compose;
    let asleep_lane: bool = state.mode == ComposerMode::Raw(RawReason::Asleep) || (state.asleep
        && !running);
    let recon_lane: bool = state.reconnecting && !asleep_lane && raw;
    let buffering: bool = state.buffering();
    let cmd_multiline: bool = (state.is_cmd || state.heur_episode) && text::has_char(
        state.draft.as_str(),
        '\n',
    );
    let pre: bool = pre_shell(
        running,
        i.alt,
        backend.pre_seen(),
        backend.exec_seen(),
        state.at_prompt_latched(),
    );
    let n: usize = recs.len();
    let cold_ok: bool = n > 0 && !any_open(recs) && recs[n - 1].epoch == epoch;
    Frame {
        asleep_lane,
        recon_lane,
        dead_lane: !running && !asleep_lane && !recon_lane && raw,
        has_draft: !text::is_blank(state.draft.as_str()),
        buffering,
        cmd_multiline,
        can_submit: running && !i.alt && !i.open_block && i.at_prompt && !buffering
            && !cmd_multiline,
        busy_hold: running && !i.alt && !i.at_prompt && (i.open_block || state.busy_since.is_some()),
        pre_shell: pre,
        arm_available: running && !i.alt && !i.mouse && !i.open_block && !pre && (i.at_prompt
            || cold_ok),
        heur_armed: state.heur_episode && state.heur_live(backend),
    }
}

/// The keys of an open history search in a frame: how often each was pressed.
#[derive(Clone, Copy, Debug)]
pub struct SearchKeys {
    /// Ctrl+R.
    pub cycles: u32,
    pub up: u32,
    pub down: u32,
    pub enters: u32,
    pub escape: bool,
}

/// The selection after `c` steps around `n` results.
pub open spec fn cycled(sel: int, n: int, c: nat) -> int
    decreases c,
{
    if c == 0 || n <= 0 {
        sel
    } else {
        (cycled(sel, n, (c - 1) as nat) + 1) % n
    }
}

/// The selection moved by `delta` and stopped at the ends.
pub open spec fn moved(sel: int, n: int, delta: int) -> int {
    if n == 0 || delta == 0 {
        sel
    } else if sel + delta < 0 {
        0
    } else if sel + delta > n - 1 {
        n - 1
    } else {
        sel + delta
    }
}

impl Composer {
    /// The selection of an open search after its keys.
    pub open spec fn search_moved(self, n: int, k: SearchKeys) -> Composer {
        self.search_at(
            |sel: int| moved(cycled(sel, n, k.cycles as nat), n, k.up as int - k.down as int),
        )
    }

    /// An open search after a frame's keys. Enter takes the selected command
    /// into the draft, or closes where there is none; Escape closes.
    pub open spec fn search_keyed(self, recs: Seq<BlockRec>, k: SearchKeys) -> Composer {
        let hits = search::capped(search::results(recs, self.draft), SEARCH_MAX as int);
        let s = self.search_moved(hits.len() as int, k);
        if k.enters > 0 {
            if s.search->0.sel < hits.len() {
                s.search_accepted(hits[s.search->0.sel as int].cmd)
            } else {
                s.search_cancelled()
            }
        } else if k.escape {
            s.search_cancelled()
        } else {
            s
        }
    }
}

fn next_selection(sel: usize, n: usize, k: &SearchKeys) -> (r: usize)
    ensures
        r == moved(cycled(sel as int, n as int, k.cycles as nat), n as int, k.up - k.down),
{
    let mut at: u128 = sel as u128;
    let mut i: u32 = 0;
    while i < k.cycles
        invariant
            i <= k.cycles,
            at <= usize::MAX,
            at == cycled(sel as int, n as int, i as nat),
        decreases k.cycles - i,
    {
        if n > 0 {
            at = (at + 1) % (n as u128);
        }
        i = i + 1;
    }
    if n == 0 || k.up == k.down {
        return at as usize;
    }
    let want: i128 = at as i128 + k.up as i128 - k.down as i128;
    let top: i128 = n as i128 - 1;
    if want < 0 {
        0
    } else if want > top {
        n - 1
    } else {
        want as usize
    }
}

impl ComposerState {
    fn move_selection(&mut self, n: usize, k: &SearchKeys)
        requires
            old(self)@.search is Some,
        ensures
            final(self)@ == old(self)@.search_moved(n as int, *k),
            final(self)@.search is Some,
    {
        if let Some(s) = &self.search {
            let sel: usize = next_selection(s.sel, n, k);
            self.search = Some(HistSearch { sel, saved: s.saved.clone() });
        }
    }

    /// The keys of an open search.
    pub fn search_keys(&mut self, recs: &[BlockRec], k: &SearchKeys)
        requires
            old(self)@.search is Some,
        ensures
            final(self)@ == old(self)@.search_keyed(recs@, *k),
    {
        let hits = search_results(recs, self.draft.as_str(), SEARCH_MAX);
        let ghost shown = search::hits_view(hits@);
        self.move_selection(hits.len(), k);
        if k.enters > 0 {
            let sel: usize = match &self.search {
                Some(s) => s.sel,
                None => 0,
            };
            if sel < hits.len() {
                assert(shown[sel as int] == hits@[sel as int]@);
                self.search_accept(hits[sel].cmd.as_str());
            } else {
                self.search_cancel();
            }
        } else if k.escape {
            self.search_cancel();
        }
    }

    /// The caret position that was asked for, in characters: the end of the
    /// draft.
    pub fn take_caret_to_end(&mut self) -> (r: Option<usize>)
        ensures
            r == if old(self)@.caret_to_end {
                Some(old(self)@.draft.len() as usize)
            } else {
                None
            },
            final(self)@ == (Composer { caret_to_end: false, ..old(self)@ }),
            old(self)@.draft.len() <= usize::MAX,
    {
        let end: usize = self.draft.as_str().unicode_len();
        let asked: bool = self.caret_to_end;
        self.caret_to_end = false;
        if asked {
            Some(end)
        } else {
            None
        }
    }
}

/// What Ctrl+C does while the editor is open.
#[derive(Clone, Copy, PartialEq, Eq, Structural, Debug)]
pub enum CopyAction {
    /// The selection in the grid is copied.
    Grid,
    /// The running command is interrupted.
    Interrupt,
    /// The editor copies what it has selected.
    Editor,
}

impl Composer {
    /// A selection in the grid comes first, then one in the editor. Without
    /// either it interrupts, but never at a prompt or in a search.
    pub open spec fn copies(
        self,
        grid_selection: bool,
        editor_selection: bool,
        heur_armed: bool,
        running: bool,
    ) -> CopyAction {
        if grid_selection {
            CopyAction::Grid
        } else if !editor_selection && self.at_prompt_since is None && !heur_armed && running
            && self.search is None {
            CopyAction::Interrupt
        } else {
            CopyAction::Editor
        }
    }

    /// After an interrupt: nothing that was queued may fire.
    pub open spec fn interrupted(self, now: Instant) -> Composer {
        Composer {
            pending: Seq::empty(),
            post_submit: None,
            last_activity: Some(now),
            ..self
        }
    }
}

impl ComposerState {
    pub fn copy_action(
        &self,
        grid_selection: bool,
        editor_selection: bool,
        heur_armed: bool,
        running: bool,
    ) -> (r: CopyAction)
        ensures
            r == self@.copies(grid_selection, editor_selection, heur_armed, running),
    {
        if grid_selection {
            CopyAction::Grid
        } else if !editor_selection && self.at_prompt_since.is_none() && !heur_armed && running
            && self.search.is_none() {
            CopyAction::Interrupt
        } else {
            CopyAction::Editor
        }
    }

    /// Interrupt the running command. Returns the chord to send.
    pub fn interrupt(&mut self, backend: &TermBackend, now: Instant) -> (out: Vec<u8>)
        ensures
            final(self)@ == old(self)@.interrupted(now),
            out@ == encode::interrupt_chord(*backend),
    {
        self.pending = VecDeque::new();
        self.post_submit = None;
        self.last_activity = Some(now);
        assert(state::texts(self.pending@) =~= Seq::<Seq<char>>::empty());
        clear_chord(backend)
    }
}

/// What Enter is to do, from the facts of the frame.
pub open spec fn enter_of(f: Frame) -> EnterAction {
    if f.can_submit {
        EnterAction::Submit
    } else if (f.buffering || f.busy_hold) && !f.cmd_multiline {
        EnterAction::Queue
    } else if f.has_draft {
        EnterAction::InsertNewline
    } else {
        EnterAction::Swallow
    }
}

impl Composer {
    /// Enter is taken from the editor: but for a draft that it breaks a line
    /// in, because it can neither be submitted nor queued.
    pub open spec fn takes_enter(self, f: Frame) -> bool {
        match enter_of(f) {
            EnterAction::Submit => true,
            EnterAction::Queue => self.pending.len() < model::PENDING_CAP || !f.has_draft,
            EnterAction::Swallow => true,
            EnterAction::InsertNewline => false,
        }
    }

    /// With `n` spacers queued.
    pub open spec fn spaced_by(self, n: nat) -> Composer
        decreases n,
    {
        if n == 0 {
            self
        } else {
            self.spaced_by((n - 1) as nat).spaced()
        }
    }

    /// After `n` presses of Enter that were taken. A draft is queued once, and
    /// every press beyond it is a spacer.
    pub open spec fn entered(self, f: Frame, n: nat) -> Composer {
        if n == 0 {
            self
        } else {
            match enter_of(f) {
                EnterAction::Submit => if f.has_draft {
                    self
                } else {
                    self.spaced_by(n)
                },
                EnterAction::Queue => if self.pending.len() >= model::PENDING_CAP {
                    self
                } else if f.has_draft {
                    self.queued().spaced_by((n - 1) as nat)
                } else {
                    self.spaced_by(n)
                },
                _ => self,
            }
        }
    }

    /// The draft is submitted: Enter was pressed, and submits.
    pub open spec fn enter_submits(f: Frame, n: nat) -> bool {
        n > 0 && f.can_submit && f.has_draft
    }
}

fn enter_for(f: &Frame) -> (a: EnterAction)
    ensures
        a == enter_of(*f),
{
    enter_action(f.can_submit, f.has_draft, (f.buffering || f.busy_hold) && !f.cmd_multiline)
}

impl ComposerState {
    /// Whether presses of Enter are to be taken from the editor.
    pub fn enter_is_taken(&self, f: &Frame) -> (r: bool)
        ensures
            r == self@.takes_enter(*f),
    {
        match enter_for(f) {
            EnterAction::Submit => true,
            EnterAction::Queue => self.pending_has_room() || !f.has_draft,
            EnterAction::Swallow => true,
            EnterAction::InsertNewline => false,
        }
    }

    fn push_spacers(&mut self, n: u32)
        ensures
            final(self)@ == old(self)@.spaced_by(n as nat),
    {
        let mut i: u32 = 0;
        while i < n
            invariant
                i <= n,
                self@ == old(self)@.spaced_by(i as nat),
            decreases n - i,
        {
            self.push_spacer();
            i = i + 1;
        }
    }

    /// Take `n` presses of Enter. Returns whether the draft is to be submitted
    /// now.
    pub fn take_enters(&mut self, f: &Frame, n: u32) -> (submit: bool)
        ensures
            final(self)@ == old(self)@.entered(*f, n as nat),
            submit == Composer::enter_submits(*f, n as nat),
    {
        if n == 0 {
            return false;
        }
        match enter_for(f) {
            EnterAction::Submit => {
                if f.has_draft {
                    return true;
                }
                self.push_spacers(n);
            },
            EnterAction::Queue => {
                if self.pending_has_room() {
                    if f.has_draft {
                        self.queue_draft();
                        self.push_spacers(n - 1);
                    } else {
                        self.push_spacers(n);
                    }
                }
            },
            _ => {},
        }
        false
    }
}

/// Where a caret is in the draft, by characters: a caret past the end is at
/// the end.
pub open spec fn lane_caret(s: Seq<char>, caret: int) -> int {
    if caret < s.len() {
        caret
    } else {
        s.len() as int
    }
}

/// The part of the draft before the caret, and none of it where the editor
/// has yet to place one.
pub open spec fn before_caret(s: Seq<char>, caret: Option<usize>) -> Seq<char> {
    match caret {
        Some(c) => s.take(lane_caret(s, c as int)),
        None => Seq::empty(),
    }
}

/// The line of the draft that the caret is on, and its last line, both counted
/// from zero.
pub fn caret_line(draft: &str, caret: Option<usize>) -> (r: (usize, usize))
    ensures
        r.0 == encode::count(before_caret(draft@, caret), '\n'),
        r.1 == encode::count(draft@, '\n'),
        r.0 <= r.1,
{
    let v = text::chars_of(draft);
    let n: usize = v.len();
    let at: usize = match caret {
        Some(c) => if c < n {
            c
        } else {
            n
        },
        None => 0,
    };
    let mut line: usize = 0;
    let mut last: usize = 0;
    let mut i: usize = 0;
    assert(v@.take(0) =~= Seq::<char>::empty());
    while i < n
        invariant
            i <= n == v.len(),
            at <= n,
            line <= last <= i,
            last == encode::count(v@.take(i as int), '\n'),
            line == encode::count(
                v@.take(
                    if i < at {
                        i as int
                    } else {
                        at as int
                    },
                ),
                '\n',
            ),
        decreases n - i,
    {
        proof {
            assert(v@.take(i + 1).drop_last() =~= v@.take(i as int));
            assert(v@.take(i + 1).last() == v@[i as int]);
        }
        if v[i] == '\n' {
            last = last + 1;
            if i < at {
                line = line + 1;
            }
        }
        i = i + 1;
    }
    assert(v@.take(n as int) =~= v@);
    assert(before_caret(draft@, caret) =~= v@.take(at as int));
    (line, last)
}

/// The byte of the draft that the caret is at: its end where the editor has
/// yet to place one.
pub fn caret_byte_of(draft: &str, caret: Option<usize>) -> (r: usize)
    ensures
        r == match caret {
            Some(c) => lexer::byte_at(draft@, lane_caret(draft@, c as int)),
            None => lexer::byte_len(draft@),
        },
{
    let bytes = draft.as_bytes_vec();
    let v = text::chars_of(draft);
    let n: usize = v.len();
    let at: usize = match caret {
        Some(c) => if c < n {
            c
        } else {
            n
        },
        None => n,
    };
    let mut r: usize = 0;
    let mut i: usize = 0;
    proof {
        lexer::byte_len_is_encoded_len(draft@);
        assert(v@.take(0) =~= Seq::<char>::empty());
        assert(v@.take(n as int) =~= v@);
    }
    while i < at
        invariant
            i <= at <= n == v.len(),
            v@ == draft@,
            bytes@.len() == lexer::byte_len(draft@),
            bytes.len() == bytes@.len(),
            r == lexer::byte_at(v@, i as int),
        decreases at - i,
    {
        proof {
            lexer::lemma_byte_at(v@, i as int, i + 1);
        }
        r = r + lexer::char_width(v[i]);
        i = i + 1;
    }
    r
}

} // verus!
