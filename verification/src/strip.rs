//! The strip's words and clicks, with the editor open and without.

use vstd::prelude::*;
use vstd::string::*;

use crate::clock::Instant;
use crate::complete;
use crate::frame::Frame;
use crate::history;
use crate::history::history_ghost;
use crate::lane;
use crate::lane::{
    activation_preview, dead_enter_restores, lane_content, relaunch_label, retry_lane_label,
    ActPreview, LaneContent,
};
use crate::model;
use crate::model::{Composer, HIDE_AFTER, PENDING_CAP, REVEAL};
use crate::prompt;
use crate::prompt::{
    detect_auth_prompt, heur_prompt_cwd, nested_shell_line, AuthPrompt, NestedShellLine,
};
use crate::search;
use crate::state;
use crate::state::{first_line, opt_str, ComposerState};
use crate::term;
use crate::term::{BlockRec, Reclaim, TermBackend};
use crate::text;

verus! {

/// What the editor showed in a frame: the hint slot stands beside it.
#[derive(Clone, Copy, PartialEq, Eq, Structural, Debug)]
pub struct EditorShown {
    /// The submitted text, frozen.
    pub frozen: bool,
    /// The query of a search.
    pub searching: bool,
}

impl Composer {
    /// The submitted text that the lane keeps showing: the first line of the
    /// handoff, while nothing new is typed.
    pub open spec fn frozen_text(self) -> Option<Seq<char>> {
        match self.submit_hold {
            Some(h) if self.draft.len() == 0 && self.search is None => Some(
                model::first_line(h.shown),
            ),
            _ => None,
        }
    }

    /// The suggestion behind the draft, where nothing else owns the draft.
    pub open spec fn visible_ghost(self, recs: Seq<BlockRec>, cwd: Option<Seq<char>>) -> Option<
        Seq<char>,
    > {
        if self.cycling() || self.recall is Some || self.search is Some {
            None
        } else {
            history::ghost_of(recs, self.draft, self.fam, cwd)
        }
    }

    /// An edge is too young for the strip to show something new.
    pub open spec fn quiet(self, now: Instant) -> bool {
        lane::younger(self.last_activity, REVEAL, now)
    }

    /// The running command has its place in the hint slot.
    pub open spec fn chip_due(self, f: Frame, e: EditorShown, now: Instant) -> bool {
        f.busy_hold && !self.quiet(now) && !e.frozen && !f.cmd_multiline && !e.searching
    }

    /// The words in the hint slot.
    pub open spec fn hint(self, f: Frame, e: EditorShown, now: Instant) -> Option<Seq<char>> {
        if e.searching {
            Some("Enter inserts \u{b7} Esc restores \u{b7} Ctrl+R next"@)
        } else if e.frozen || self.chip_due(f, e, now) {
            None
        } else if f.cmd_multiline {
            Some(
                if self.is_cmd {
                    "cmd runs one line at a time"@
                } else {
                    "one line at a time in this shell"@
                },
            )
        } else if !f.can_submit {
            if self.quiet(now) {
                None
            } else {
                Some("waiting for prompt\u{2026}"@)
            }
        } else if self.has_focus && self.draft.len() == 0 {
            Some("Shift+Enter \u{2014} new line"@)
        } else {
            None
        }
    }

    /// The words in the empty editor.
    pub open spec fn placeholder(self) -> Seq<char> {
        if self.search is Some {
            "search history\u{2026}"@
        } else if self.frozen_text() is Some {
            ""@
        } else {
            "Type a command\u{2026}"@
        }
    }

    /// After an edit in the editor: in a search the best result is selected,
    /// else a recall walk is over.
    pub open spec fn edited(self) -> Composer {
        if self.search is Some {
            self.search_at(|sel: int| 0)
        } else {
            Composer { recall: None, ..self }
        }
    }
}

impl ComposerState {
    /// The submitted text that the lane keeps showing.
    pub fn lane_ghost(&self) -> (r: Option<String>)
        ensures
            complete::opt_text(r) == self@.frozen_text(),
    {
        if !self.draft.as_str().is_empty() || self.search.is_some() {
            return None;
        }
        match &self.submit_hold {
            Some(h) => Some(first_line(h.shown.as_str())),
            None => None,
        }
    }

    /// The suggestion behind the draft.
    pub fn ghost_shown(&self, recs: &[BlockRec], cwd: Option<&str>) -> (r: Option<String>)
        ensures
            complete::opt_text(r) == self@.visible_ghost(recs@, opt_str(cwd)),
    {
        if self.tab_active() || self.recall.is_some() || self.search.is_some() {
            return None;
        }
        history_ghost(recs, self.draft.as_str(), &self.fam, cwd)
    }

    fn is_quiet(&self, now: Instant) -> (r: bool)
        ensures
            r == self@.quiet(now),
    {
        match self.last_activity {
            Some(t) => now.nanos_since(t) < REVEAL,
            None => false,
        }
    }

    /// What the editor shows of the state as it is.
    pub fn editor_shown(&self) -> (e: EditorShown)
        ensures
            e == (EditorShown {
                frozen: self@.frozen_text() is Some,
                searching: self@.search is Some,
            }),
    {
        EditorShown { frozen: self.lane_ghost().is_some(), searching: self.search.is_some() }
    }

    /// Whether the running command has its place in the hint slot.
    pub fn busy_chip_due(&self, f: &Frame, e: &EditorShown, now: Instant) -> (r: bool)
        ensures
            r == self@.chip_due(*f, *e, now),
    {
        f.busy_hold && !self.is_quiet(now) && !e.frozen && !f.cmd_multiline && !e.searching
    }

    /// The words in the hint slot, once the frame has shipped what it ships.
    pub fn hint_text(&self, f: &Frame, e: &EditorShown, now: Instant) -> (r: Option<String>)
        ensures
            complete::opt_text(r) == self@.hint(*f, *e, now),
    {
        if e.searching {
            return Some("Enter inserts \u{b7} Esc restores \u{b7} Ctrl+R next".to_owned());
        }
        if e.frozen || self.busy_chip_due(f, e, now) {
            return None;
        }
        if f.cmd_multiline {
            return Some(
                if self.is_cmd {
                    "cmd runs one line at a time".to_owned()
                } else {
                    "one line at a time in this shell".to_owned()
                },
            );
        }
        if !f.can_submit {
            return if self.is_quiet(now) {
                None
            } else {
                Some("waiting for prompt\u{2026}".to_owned())
            };
        }
        if self.has_focus && self.draft.as_str().is_empty() {
            return Some("Shift+Enter \u{2014} new line".to_owned());
        }
        None
    }

    /// The words in the empty editor.
    pub fn placeholder_text(&self) -> (r: String)
        ensures
            r@ == self@.placeholder(),
    {
        if self.search.is_some() {
            "search history\u{2026}".to_owned()
        } else if self.lane_ghost().is_some() {
            "".to_owned()
        } else {
            "Type a command\u{2026}".to_owned()
        }
    }

    /// The user edited the text in the editor.
    pub fn on_edit(&mut self)
        ensures
            final(self)@ == old(self)@.edited(),
    {
        if self.search.is_some() {
            self.search_edited();
        } else {
            self.end_recall();
        }
    }

    fn end_recall(&mut self)
        ensures
            final(self)@ == (Composer { recall: None, ..old(self)@ }),
    {
        self.recall = None;
    }
}

/// The words for a command that runs under the editor: the command and how
/// long it has run, where its record is there.
pub open spec fn chip_words(running: Option<(Seq<char>, Seq<char>)>) -> Seq<char> {
    match running {
        Some((cmd, elapsed)) => cmd + " \u{b7} "@ + elapsed + " \u{2014} Enter queues"@,
        None => "running \u{2014} Enter queues"@,
    }
}

pub fn busy_chip_text(running: Option<(&str, &str)>) -> (r: String)
    ensures
        running matches Some((cmd, elapsed)) ==> r@ == chip_words(Some((cmd@, elapsed@))),
        running is None ==> r@ == chip_words(None),
{
    match running {
        Some((cmd, elapsed)) => complete::concat3(cmd, " \u{b7} ", elapsed).concat(
            " \u{2014} Enter queues",
        ),
        None => "running \u{2014} Enter queues".to_owned(),
    }
}

/// What becomes of the keyboard focus after the editor was shown.
#[derive(Clone, Copy, PartialEq, Eq, Structural, Debug)]
pub enum FocusMove {
    /// Escape left the editor: the grid has it.
    Blurred,
    /// The editor asks for it.
    Request,
    Keep,
}

impl Composer {
    pub open spec fn focus_move(
        self,
        lost: bool,
        escape: bool,
        overlay_open: bool,
        holding: bool,
    ) -> FocusMove {
        if lost && escape {
            FocusMove::Blurred
        } else if !overlay_open && (self.want_focus || !holding) {
            FocusMove::Request
        } else {
            FocusMove::Keep
        }
    }

    /// After the focus was moved: an editor that was left is given up.
    pub open spec fn focus_moved(self, m: FocusMove) -> Composer {
        if m == FocusMove::Blurred {
            self.blurred()
        } else {
            self
        }
    }

    /// Once the editor has the focus it no longer asks for it.
    pub open spec fn focus_confirmed(self, holding: bool) -> Composer {
        Composer { want_focus: self.want_focus && !holding, ..self }
    }
}

impl ComposerState {
    /// Move the focus after the editor was shown. `holding`: the editor had it
    /// then.
    pub fn move_focus(&mut self, lost: bool, escape: bool, overlay_open: bool, holding: bool) -> (m:
        FocusMove)
        ensures
            m == old(self)@.focus_move(lost, escape, overlay_open, holding),
            final(self)@ == old(self)@.focus_moved(m),
    {
        if lost && escape {
            self.blur_to_grid();
            FocusMove::Blurred
        } else if !overlay_open && (self.want_focus || !holding) {
            FocusMove::Request
        } else {
            FocusMove::Keep
        }
    }

    /// Take note of where the focus is once it was moved. `holding`: the editor
    /// has it.
    pub fn confirm_focus(&mut self, holding: bool)
        ensures
            final(self)@ == old(self)@.focus_confirmed(holding),
    {
        let want: bool = self.want_focus && !holding;
        self.want_focus = want;
    }

    /// What the frame ships: the draft where it is submitted, else the next of
    /// the queue where nothing was shipped yet.
    pub fn ship(
        &mut self,
        submit_now: bool,
        shipped: bool,
        backend: &TermBackend,
        cover_line: Option<i32>,
        cwd: Option<&str>,
        now: Instant,
    ) -> (r: Option<(Vec<u8>, bool)>)
        ensures
            submit_now ==> final(self)@ == old(self)@.submitted(
                *backend,
                cover_line,
                opt_str(cwd),
                now,
            ) && (r matches Some((bytes, spacer)) && bytes@ == old(self)@.submit_bytes(*backend)
                && spacer == (!old(self)@.submits_late(*backend) && text::blank(
                old(self)@.draft,
            ))),
            !submit_now && (shipped || !old(self)@.may_pump(*backend)) ==> r is None && final(self)@ == old(self)@,
            !submit_now && !shipped && old(self)@.may_pump(*backend) ==> {
                let first = old(self)@.pending[0];
                &&& r matches Some((bytes, spacer)) && bytes@ == old(self)@.dispatch_bytes(
                    *backend,
                    first,
                ) && spacer == text::blank(first)
                &&& final(self)@ == old(self)@.popped().dispatched(
                    *backend,
                    cover_line,
                    opt_str(cwd),
                    first,
                    now,
                )
            },
    {
        if submit_now {
            Some(self.submit(backend, cover_line, cwd, now))
        } else if shipped {
            None
        } else {
            self.pump_pending(backend, cover_line, cwd, now)
        }
    }
}

/// Where the strip was clicked.
#[derive(Clone, Copy, PartialEq, Eq, Structural, Debug)]
pub enum Spot {
    Keyboard,
    History,
    Run,
    /// The second verb of an ended ssh session.
    Retry,
    Elsewhere,
}

/// What a click on the strip of an open editor does.
#[derive(Clone, Copy, PartialEq, Eq, Structural, Debug)]
pub enum ComposeClick {
    /// To the grid.
    Blur,
    /// The history panel opens; a search closes first.
    History,
    /// The search closes.
    CloseSearch,
    Submit,
    Queue,
    /// The editor takes focus.
    Focus,
    Nothing,
}

impl Composer {
    pub open spec fn compose_click(self, spot: Spot, f: Frame, editor_focused: bool) -> ComposeClick {
        match spot {
            Spot::Keyboard => ComposeClick::Blur,
            Spot::History => ComposeClick::History,
            Spot::Run => if self.search is Some {
                ComposeClick::CloseSearch
            } else if f.can_submit && f.has_draft {
                ComposeClick::Submit
            } else if (f.buffering || f.busy_hold) && f.has_draft && !f.cmd_multiline
                && self.pending.len() < PENDING_CAP {
                ComposeClick::Queue
            } else {
                ComposeClick::Nothing
            },
            _ => if editor_focused {
                ComposeClick::Nothing
            } else {
                ComposeClick::Focus
            },
        }
    }

    pub open spec fn compose_clicked(
        self,
        c: ComposeClick,
        b: TermBackend,
        cover: Option<i32>,
        cwd: Option<Seq<char>>,
        now: Instant,
    ) -> Composer {
        match c {
            ComposeClick::Blur => self.blurred(),
            ComposeClick::History => self.search_cancelled(),
            ComposeClick::CloseSearch => self.search_cancelled(),
            ComposeClick::Submit => self.submitted(b, cover, cwd, now),
            ComposeClick::Queue => self.queued(),
            ComposeClick::Focus => Composer { want_focus: true, ..self },
            ComposeClick::Nothing => self,
        }
    }
}

impl ComposerState {
    fn click_for(&self, spot: Spot, f: &Frame, editor_focused: bool) -> (c: ComposeClick)
        ensures
            c == self@.compose_click(spot, *f, editor_focused),
    {
        match spot {
            Spot::Keyboard => ComposeClick::Blur,
            Spot::History => ComposeClick::History,
            Spot::Run => if self.search.is_some() {
                ComposeClick::CloseSearch
            } else if f.can_submit && f.has_draft {
                ComposeClick::Submit
            } else if (f.buffering || f.busy_hold) && f.has_draft && !f.cmd_multiline
                && self.pending_has_room() {
                ComposeClick::Queue
            } else {
                ComposeClick::Nothing
            },
            _ => if editor_focused {
                ComposeClick::Nothing
            } else {
                ComposeClick::Focus
            },
        }
    }

    fn want(&mut self)
        ensures
            final(self)@ == (Composer { want_focus: true, ..old(self)@ }),
    {
        self.want_focus = true;
    }

    /// A click on the strip of an open editor. Returns what it was, and the
    /// bytes to ship.
    pub fn click_compose(
        &mut self,
        spot: Spot,
        f: &Frame,
        editor_focused: bool,
        backend: &TermBackend,
        cover_line: Option<i32>,
        cwd: Option<&str>,
        now: Instant,
    ) -> (r: (ComposeClick, Vec<u8>))
        ensures
            r.0 == old(self)@.compose_click(spot, *f, editor_focused),
            final(self)@ == old(self)@.compose_clicked(
                r.0,
                *backend,
                cover_line,
                opt_str(cwd),
                now,
            ),
            r.1@ == if r.0 == ComposeClick::Submit {
                old(self)@.submit_bytes(*backend)
            } else {
                Seq::empty()
            },
    {
        let c = self.click_for(spot, f, editor_focused);
        let mut out: Vec<u8> = Vec::new();
        match c {
            ComposeClick::Blur => self.blur_to_grid(),
            ComposeClick::History => self.search_cancel(),
            ComposeClick::CloseSearch => self.search_cancel(),
            ComposeClick::Submit => {
                let (bytes, _) = self.submit(backend, cover_line, cwd, now);
                out = bytes;
            },
            ComposeClick::Queue => self.queue_draft(),
            ComposeClick::Focus => self.want(),
            ComposeClick::Nothing => {},
        }
        assert(c != ComposeClick::Submit ==> out@ =~= Seq::<u8>::empty());
        (c, out)
    }
}

/// What a click on the strip does while the terminal has the keys.
#[derive(Clone, Copy, PartialEq, Eq, Structural, Debug)]
pub enum RawClick {
    ToggleHistory,
    Wake,
    CancelReconnect,
    RetryReconnect,
    Restore,
    /// The editor opens.
    Activate,
    Nothing,
}

/// History first, and not under a full-screen program; then the verb of the
/// lane; an ended session takes a click anywhere; else the editor opens where
/// it may.
pub open spec fn raw_click(spot: Spot, f: Frame, is_ssh: bool, alt: bool) -> RawClick {
    if spot == Spot::History {
        if alt {
            RawClick::Nothing
        } else {
            RawClick::ToggleHistory
        }
    } else if f.asleep_lane && spot == Spot::Run {
        RawClick::Wake
    } else if f.recon_lane && spot == Spot::Run {
        RawClick::CancelReconnect
    } else if f.dead_lane && is_ssh && spot == Spot::Retry {
        RawClick::RetryReconnect
    } else if f.dead_lane {
        RawClick::Restore
    } else if f.arm_available {
        RawClick::Activate
    } else {
        RawClick::Nothing
    }
}

fn raw_click_for(spot: Spot, f: &Frame, is_ssh: bool, alt: bool) -> (c: RawClick)
    ensures
        c == raw_click(spot, *f, is_ssh, alt),
{
    if spot == Spot::History {
        if alt {
            RawClick::Nothing
        } else {
            RawClick::ToggleHistory
        }
    } else if f.asleep_lane && spot == Spot::Run {
        RawClick::Wake
    } else if f.recon_lane && spot == Spot::Run {
        RawClick::CancelReconnect
    } else if f.dead_lane && is_ssh && spot == Spot::Retry {
        RawClick::RetryReconnect
    } else if f.dead_lane {
        RawClick::Restore
    } else if f.arm_available {
        RawClick::Activate
    } else {
        RawClick::Nothing
    }
}

impl ComposerState {
    /// A click on the strip while the terminal has the keys. Returns what it
    /// was, and the bytes to send.
    pub fn click_raw(&mut self, spot: Spot, f: &Frame, backend: &TermBackend) -> (r: (
        RawClick,
        Vec<u8>,
    ))
        ensures
            r.0 == raw_click(spot, *f, old(self)@.is_ssh, backend.alt()),
            r.0 == RawClick::Activate ==> final(self)@ == old(self)@.activated(*backend) && r.1@
                == old(self)@.activation_bytes(*backend),
            r.0 != RawClick::Activate ==> final(self)@ == old(self)@ && r.1@.len() == 0,
    {
        let c = raw_click_for(spot, f, self.is_ssh, backend.is_alt());
        if c == RawClick::Activate {
            let bytes = self.activate(backend);
            (c, bytes)
        } else {
            (c, Vec::new())
        }
    }
}

/// What a strip shows of itself, and what it takes.
#[derive(Clone, Copy, PartialEq, Eq, Structural, Debug)]
pub struct Band {
    /// Clicks and the pointer are the strip's.
    pub interactive: bool,
    /// The History button is there.
    pub history_button: bool,
    /// The strip floats over the grid while the pointer is on it.
    pub peek: bool,
    /// The strip is to be seen.
    pub revealed: bool,
}

/// Whether a collapsed strip floats over the grid: exactly while the pointer is
/// over it.
pub fn peeks(collapsed: bool, over: bool) -> (r: bool)
    ensures
        r == (collapsed && over),
{
    collapsed && over
}

/// What the strip is in a frame. A collapsed one can be looked at and no more:
/// its place is the grid's.
pub fn strip_band(collapsed: bool, over: bool) -> (r: Band)
    ensures
        r == (Band {
            interactive: !collapsed,
            history_button: !collapsed,
            peek: collapsed && over,
            revealed: !collapsed || over,
        }),
{
    Band {
        interactive: !collapsed,
        history_button: !collapsed,
        peek: peeks(collapsed, over),
        revealed: !collapsed || over,
    }
}

impl ComposerState {
    /// A click on the strip while the terminal has the keys, where the strip
    /// may be collapsed: then the click is the grid's.
    pub fn click_strip(
        &mut self,
        collapsed: bool,
        spot: Spot,
        f: &Frame,
        backend: &TermBackend,
    ) -> (r: (RawClick, Vec<u8>))
        ensures
            collapsed ==> r.0 == RawClick::Nothing && r.1@.len() == 0 && final(self)@ == old(
                self,
            )@,
            !collapsed ==> {
                &&& r.0 == raw_click(spot, *f, old(self)@.is_ssh, backend.alt())
                &&& r.0 == RawClick::Activate ==> final(self)@ == old(self)@.activated(*backend)
                    && r.1@ == old(self)@.activation_bytes(*backend)
                &&& r.0 != RawClick::Activate ==> final(self)@ == old(self)@ && r.1@.len() == 0
            },
    {
        if collapsed {
            (RawClick::Nothing, Vec::new())
        } else {
            self.click_raw(spot, f, backend)
        }
    }

    /// Whether `enters` presses of Enter, with the strip as it is, relaunch the
    /// terminal. However many there are, it is relaunched once.
    pub fn enter_relaunches(
        &self,
        collapsed: bool,
        f: &Frame,
        overlay_open: bool,
        enters: u32,
    ) -> (r: bool)
        ensures
            r == (!collapsed && f.dead_lane && self@.term_focused && !f.has_draft && !overlay_open
                && enters > 0),
    {
        !collapsed && dead_enter_restores(
            f.dead_lane,
            self.term_focused,
            f.has_draft,
            overlay_open,
        ) && enters > 0
    }
}

/// Whether the strip shows itself to be clicked on.
pub fn strip_points(f: &Frame, over_run: bool, over_history: bool) -> (r: bool)
    ensures
        r == (f.arm_available || (f.asleep_lane || f.recon_lane) && over_run || f.dead_lane
            && !over_history),
{
    f.arm_available || ((f.asleep_lane || f.recon_lane) && over_run) || (f.dead_lane
        && !over_history)
}

/// The verb in the strip's first slot.
#[derive(Clone, Copy, PartialEq, Eq, Structural, Debug)]
pub enum RunSlot {
    Wake,
    Cancel,
    Restore,
    /// Run, live or dim.
    Run(bool),
}

pub fn run_slot(composing: bool, f: &Frame) -> (r: RunSlot)
    ensures
        r == if f.asleep_lane {
            RunSlot::Wake
        } else if f.recon_lane {
            RunSlot::Cancel
        } else if f.dead_lane {
            RunSlot::Restore
        } else {
            RunSlot::Run(composing && f.has_draft && (f.can_submit || f.buffering) && !f.cmd_multiline)
        },
{
    if f.asleep_lane {
        RunSlot::Wake
    } else if f.recon_lane {
        RunSlot::Cancel
    } else if f.dead_lane {
        RunSlot::Restore
    } else {
        RunSlot::Run(composing && f.has_draft && (f.can_submit || f.buffering) && !f.cmd_multiline)
    }
}

/// The newest record that is open, or -1.
pub open spec fn newest_open(recs: Seq<BlockRec>, n: int) -> int
    decreases n,
{
    if n <= 0 {
        -1
    } else if recs[n - 1].end_off is None {
        n - 1
    } else {
        newest_open(recs, n - 1)
    }
}

pub fn newest_open_rec(recs: &[BlockRec]) -> (r: Option<usize>)
    ensures
        r is None <==> newest_open(recs@, recs@.len() as int) < 0,
        r matches Some(i) ==> i == newest_open(recs@, recs@.len() as int) && i < recs@.len(),
        r is Some == term::open_in(recs@),
{
    let mut n: usize = recs.len();
    while n > 0
        invariant
            n <= recs@.len(),
            newest_open(recs@, n as int) == newest_open(recs@, recs@.len() as int),
            forall|k: int| n <= k < recs@.len() ==> (#[trigger] recs@[k]).end_off is Some,
        decreases n,
    {
        if recs[n - 1].end_off.is_none() {
            assert(recs@[n - 1].end_off is None);
            return Some(n - 1);
        }
        n = n - 1;
    }
    None
}

/// What the lane shows while the terminal has the keys.
#[derive(Debug)]
pub enum RawLane {
    SessionEnded(String),
    Reconnecting(String),
    Asleep,
    AltScreen,
    Frozen(String),
    /// Nothing new; look again in so many nanoseconds.
    Quiet(Option<u64>),
    /// A nested shell asks for a password.
    NestedPassword,
    /// A nested shell, by the record of its command.
    Nested(usize),
    /// A running command, by its record.
    Busy(usize),
    /// The conversation before the shell.
    PreShell(AuthPrompt),
    /// Typing goes to the terminal; what activation would do to typed text.
    Label(Option<ActPreview>),
}

/// How long until an edge is no longer young, where it still is.
pub open spec fn reveal_in(t: Option<Instant>, now: Instant) -> Option<u64> {
    match t {
        Some(x) if now.since(x) < REVEAL => Some((REVEAL - now.since(x)) as u64),
        _ => None,
    }
}

pub open spec fn sooner(a: Option<u64>, b: Option<u64>) -> Option<u64> {
    match (a, b) {
        (Some(x), Some(y)) => Some(
            if x <= y {
                x
            } else {
                y
            },
        ),
        (Some(x), None) => Some(x),
        (None, y) => y,
    }
}

impl Composer {
    /// The prompt that can be opened by hand holds typed text, and its end is
    /// known.
    pub open spec fn dirty_prompt(self, f: Frame, b: TermBackend) -> bool {
        f.arm_available && !(b.clean() || self.heur_stands(b)) && b.prompt_end() is Some
    }

    /// What the lane shows while the terminal has the keys.
    pub open spec fn raw_lane_is(
        self,
        r: RawLane,
        f: Frame,
        b: TermBackend,
        recs: Seq<BlockRec>,
        running: bool,
        now: Instant,
    ) -> bool {
        let open = newest_open(recs, recs.len() as int);
        match self.lane(running, b.alt(), open >= 0, now) {
            LaneContent::Editor => true,
            LaneContent::SessionEnded => r matches RawLane::SessionEnded(s) && match self.relaunch_cmd {
                Some(c) => s@ == "Press Enter to relaunch \u{2014} "@ + c@,
                None => s@ == "Press Enter to relaunch"@,
            },
            LaneContent::Reconnecting => r matches RawLane::Reconnecting(s) && s@
                == lane::retry_label(self.retry_attempt, self.retry_next_s),
            LaneContent::Asleep => r is Asleep,
            LaneContent::AltScreen => r is AltScreen,
            LaneContent::Frozen => r matches RawLane::Frozen(s) && s@ == self.submit_hold->0.shown,
            LaneContent::Quiet => r matches RawLane::Quiet(d) && d == sooner(
                reveal_in(self.busy_since, now),
                reveal_in(self.last_activity, now),
            ),
            LaneContent::Busy => if self.heur_episode || recs[open].nested_shell {
                if prompt::nested_line(b.cursor_text()) == NestedShellLine::Password {
                    r is NestedPassword
                } else {
                    r matches RawLane::Nested(i) && i == open
                }
            } else {
                r matches RawLane::Busy(i) && i == open
            },
            LaneContent::Label => if f.pre_shell && self.is_ssh {
                r matches RawLane::PreShell(a) && a == prompt::auth_prompt(b.cursor_text())
            } else {
                r matches RawLane::Label(p) && p == if self.dirty_prompt(f, b) {
                    Some(
                        if b.reclaim matches Reclaim::Text(t) && t@.len() > 0 {
                            ActPreview::Keeps
                        } else {
                            ActPreview::Clears
                        },
                    )
                } else {
                    None
                }
            },
        }
    }
}

fn reveal_after(t: Option<Instant>, now: Instant) -> (r: Option<u64>)
    ensures
        r == reveal_in(t, now),
{
    match t {
        Some(x) => {
            let age: u64 = now.nanos_since(x);
            if age < REVEAL {
                Some(REVEAL - age)
            } else {
                None
            }
        },
        None => None,
    }
}

fn sooner_of(a: Option<u64>, b: Option<u64>) -> (r: Option<u64>)
    ensures
        r == sooner(a, b),
{
    match (a, b) {
        (Some(x), Some(y)) => Some(
            if x <= y {
                x
            } else {
                y
            },
        ),
        (Some(x), None) => Some(x),
        (None, y) => y,
    }
}

/// What the lane shows while the terminal has the keys.
pub fn raw_lane(
    state: &ComposerState,
    f: &Frame,
    backend: &TermBackend,
    recs: &[BlockRec],
    running: bool,
    now: Instant,
) -> (r: RawLane)
    requires
        state.mode is Raw,
    ensures
        state@.raw_lane_is(r, *f, *backend, recs@, running, now),
{
    let open = newest_open_rec(recs);
    match lane_content(state, running, backend.is_alt(), open.is_some(), now) {
        LaneContent::Editor | LaneContent::Asleep => RawLane::Asleep,
        LaneContent::SessionEnded => RawLane::SessionEnded(
            match &state.relaunch_cmd {
                Some(c) => relaunch_label(Some(c.as_str())),
                None => relaunch_label(None),
            },
        ),
        LaneContent::Reconnecting => RawLane::Reconnecting(
            retry_lane_label(state.retry_attempt, state.retry_next_s),
        ),
        LaneContent::AltScreen => RawLane::AltScreen,
        LaneContent::Frozen => RawLane::Frozen(
            match &state.submit_hold {
                Some(h) => h.shown.clone(),
                None => String::new(),
            },
        ),
        LaneContent::Quiet => RawLane::Quiet(
            sooner_of(reveal_after(state.busy_since, now), reveal_after(state.last_activity, now)),
        ),
        LaneContent::Busy => {
            match open {
                None => RawLane::Asleep,
                Some(i) => if state.heur_episode || recs[i].nested_shell {
                    match nested_shell_line(backend.cursor_row_text().as_str()) {
                        NestedShellLine::Password => RawLane::NestedPassword,
                        NestedShellLine::Generic => RawLane::Nested(i),
                    }
                } else {
                    RawLane::Busy(i)
                },
            }
        },
        LaneContent::Label => {
            if f.pre_shell && state.is_ssh {
                return RawLane::PreShell(
                    detect_auth_prompt(backend.cursor_row_text().as_str()),
                );
            }
            let dirty: bool = f.arm_available && !(backend.cursor_at_prompt_end()
                || state.heur_live(backend)) && backend.has_prompt_end();
            RawLane::Label(
                if dirty {
                    Some(activation_preview(backend))
                } else {
                    None
                },
            )
        },
    }
}

/// The words of the conversation before the shell.
pub fn pre_shell_words(a: AuthPrompt) -> (r: String)
    ensures
        r@ == match a {
            AuthPrompt::Password =>
            "password \u{2014} keys go straight to ssh, never shown or stored"@,
            AuthPrompt::HostKey => "host key check \u{2014} answer yes or no"@,
            AuthPrompt::Neither => "ssh is asking \u{2014} type your answer in the terminal"@,
        },
{
    match a {
        AuthPrompt::Password =>
        "password \u{2014} keys go straight to ssh, never shown or stored".to_owned(),
        AuthPrompt::HostKey => "host key check \u{2014} answer yes or no".to_owned(),
        AuthPrompt::Neither =>
        "ssh is asking \u{2014} type your answer in the terminal".to_owned(),
    }
}

/// The words of the raw label.
pub fn raw_label_words(p: Option<ActPreview>) -> (r: String)
    ensures
        r@ == match p {
            Some(ActPreview::Keeps) => "Typed text at the prompt \u{2014} Compose keeps it"@,
            Some(ActPreview::Clears) => "Typed text at the prompt \u{2014} Compose clears it"@,
            None => "Typing goes to the terminal"@,
        },
{
    match p {
        Some(ActPreview::Keeps) => "Typed text at the prompt \u{2014} Compose keeps it".to_owned(),
        Some(ActPreview::Clears) => "Typed text at the prompt \u{2014} Compose clears it".to_owned(),
        None => "Typing goes to the terminal".to_owned(),
    }
}

/// The directory that the editor's chip and a submission's cover name: that of
/// the inferred prompt while one stands, none in between, else the shell's.
pub open spec fn chip_dir(
    episode: bool,
    armed: bool,
    row: Seq<char>,
    prompt_cwd: Option<Seq<char>>,
) -> Option<Seq<char>> {
    if episode {
        if armed {
            prompt::prompt_dir(row)
        } else {
            None
        }
    } else {
        prompt_cwd
    }
}

pub fn chip_cwd(state: &ComposerState, f: &Frame, backend: &TermBackend, prompt_cwd: Option<&str>) -> (r:
    Option<String>)
    ensures
        complete::opt_text(r) == chip_dir(
            state@.heur_episode,
            f.heur_armed,
            backend.cursor_text(),
            opt_str(prompt_cwd),
        ),
{
    if state.heur_episode {
        if f.heur_armed {
            heur_prompt_cwd(backend.cursor_row_text().as_str())
        } else {
            None
        }
    } else {
        match prompt_cwd {
            Some(c) => Some(c.to_owned()),
            None => None,
        }
    }
}

/// How long until the strip collapses, where the alternate screen is shown in
/// it and it has yet to.
pub fn hide_wake(state: &ComposerState, lane_is_alt: bool, collapsed: bool, now: Instant) -> (r:
    Option<u64>)
    ensures
        r == match state@.alt_since {
            Some(t) if lane_is_alt && !collapsed && now.nanos < t.later(HIDE_AFTER).nanos => Some(
                (t.later(HIDE_AFTER).nanos - now.nanos) as u64,
            ),
            _ => None,
        },
{
    if !lane_is_alt || collapsed {
        return None;
    }
    match state.alt_since {
        Some(t) => {
            let d: u64 = t.after(HIDE_AFTER).nanos;
            if now.nanos < d {
                Some(d - now.nanos)
            } else {
                None
            }
        },
        None => None,
    }
}

/// Once the editor has the focus that it asked for, it has stopped asking: the
/// frame in which it was granted is the last in which it asks.
pub proof fn a_granted_focus_is_asked_for_once(s: Composer, overlay_open: bool)
    ensures
        !s.focus_confirmed(true).want_focus,
        s.focus_confirmed(true).focus_move(false, false, overlay_open, true) == FocusMove::Keep,
        s.focus_confirmed(false) == s,
{
}

/// A click can run nothing that Enter could not: the draft is submitted only
/// where it may be, and a query never.
pub proof fn clicks_submit_as_enter_does(
    s: Composer,
    spot: Spot,
    f: Frame,
    editor_focused: bool,
)
    ensures
        s.compose_click(spot, f, editor_focused) == ComposeClick::Submit ==> f.can_submit
            && f.has_draft && s.search is None,
{
}

/// Before the shell has spoken nothing offers the editor: neither the label
/// nor a click.
pub proof fn editor_is_not_offered_before_the_shell(
    s: Composer,
    b: TermBackend,
    recs: Seq<BlockRec>,
    epoch: u32,
    running: bool,
    now: Instant,
    spot: Spot,
)
    ensures
        ({
            let f = s.facts(b, recs, epoch, running, now);
            f.pre_shell ==> !f.arm_available && raw_click(spot, f, s.is_ssh, b.alt())
                != RawClick::Activate && !s.dirty_prompt(f, b)
        }),
{
}

} // verus!
