//! The terminal card: when its grid is resized, who has the keys, and what a
//! frame of it hands to the terminal.

use vstd::prelude::*;
use vstd::string::*;

use crate::clock::Instant;
use crate::complete;
use crate::gate::ComposerMode;
use crate::keyrecord;
use crate::keyrecord::bytes_contain_enter;
use crate::model::Composer;
use crate::state;
use crate::state::ComposerState;
use crate::term::{BlockRec, Reclaim, TermBackend};
use crate::text;

verus! {

/// How long a new cell size must stand before the grid follows it.
pub const CELL_SETTLE: u64 = 500_000_000;

/// The shortest time between two resizes while the window is dragged.
pub const RESIZE_EVERY: u64 = 120_000_000;

/// How soon a cell size that has yet to settle is looked at again.
pub const CELL_LOOK: u64 = 80_000_000;

/// How long a step of the font size explains a change of the cells.
pub const FONT_STEP: u64 = 5_000_000_000;

/// The first protocol version in which observed commands can be recorded.
pub const OBSERVED_PROTO: u32 = 6;

/// A width and a height. Only their equality counts, so any faithful encoding
/// of a measure serves.
#[derive(Clone, Copy, PartialEq, Eq, Structural, Debug)]
pub struct Extent {
    pub w: u32,
    pub h: u32,
}

/// What a grid is to fill, and the size of its cells.
#[derive(Clone, Copy, PartialEq, Eq, Structural, Debug)]
pub struct Target {
    pub layout: Extent,
    pub cell: Extent,
}

/// What becomes of the grid in a frame.
#[derive(Clone, Copy, PartialEq, Eq, Structural, Debug)]
pub enum Resize {
    /// It stays as it is.
    Keep,
    /// It is resized now.
    Commit,
    /// It is looked at again in so many nanoseconds.
    Later(u64),
}

/// The sizes that a window has given its grids.
#[derive(Clone, Copy, Debug)]
pub struct Sizing {
    /// The target last resized to.
    pub last: Option<Target>,
    /// The target that waits, and since when it has stood.
    pub pending: Option<(Target, Instant)>,
    /// When the grid was last resized.
    pub committed: Instant,
}

impl Sizing {
    /// The cells changed, and no step of the font size explains it: the window
    /// went to another screen.
    pub open spec fn hops(self, t: Target, step: Option<Instant>, now: Instant) -> bool {
        &&& self.last matches Some(l) && l.cell != t.cell
        &&& !(step matches Some(s) && now.since(s) < FONT_STEP)
    }

    /// The target has stood for long enough.
    pub open spec fn stood(self, t: Target, now: Instant) -> bool {
        self.pending matches Some(p) && p.0 == t && now.since(p.1) >= CELL_SETTLE
    }

    /// The grid follows the target in this frame: the first target at once,
    /// one on another screen when it has stood, and any other as often as a
    /// drag allows.
    pub open spec fn due(self, t: Target, step: Option<Instant>, now: Instant) -> bool {
        if self.last is None {
            true
        } else if self.hops(t, step, now) {
            self.stood(t, now)
        } else {
            now.since(self.committed) >= RESIZE_EVERY
        }
    }

    /// The sizes, and what becomes of the grid, after a frame in which the
    /// grid ought to fill `t`. A window without the focus resizes nothing and
    /// forgets what waits.
    pub open spec fn after_frame(
        self,
        t: Target,
        focused: bool,
        step: Option<Instant>,
        now: Instant,
    ) -> (Sizing, Resize) {
        if !focused {
            (Sizing { pending: None, ..self }, Resize::Keep)
        } else if self.last == Some(t) {
            (self, Resize::Keep)
        } else if self.due(t, step, now) {
            (Sizing { last: Some(t), pending: None, committed: now }, Resize::Commit)
        } else {
            let pending = match self.pending {
                Some(p) if p.0 == t => self.pending,
                _ => Some((t, now)),
            };
            let delay = if self.hops(t, step, now) {
                CELL_LOOK
            } else {
                RESIZE_EVERY
            };
            (Sizing { pending, ..self }, Resize::Later(delay))
        }
    }

    fn hops_now(&self, t: Target, step: Option<Instant>, now: Instant) -> (r: bool)
        ensures
            r == self.hops(t, step, now),
    {
        let changed = match self.last {
            Some(l) => l.cell != t.cell,
            None => false,
        };
        let stepped = match step {
            Some(s) => now.nanos_since(s) < FONT_STEP,
            None => false,
        };
        changed && !stepped
    }

    fn is_due(&self, t: Target, step: Option<Instant>, now: Instant) -> (r: bool)
        ensures
            r == self.due(t, step, now),
    {
        if self.last.is_none() {
            return true;
        }
        if self.hops_now(t, step, now) {
            match self.pending {
                Some(p) => p.0 == t && now.nanos_since(p.1) >= CELL_SETTLE,
                None => false,
            }
        } else {
            now.nanos_since(self.committed) >= RESIZE_EVERY
        }
    }

    /// One frame in which the grid ought to fill `t`. `step` is the last step
    /// of the font size.
    pub fn frame(&mut self, t: Target, focused: bool, step: Option<Instant>, now: Instant) -> (r:
        Resize)
        ensures
            (*final(self), r) == old(self).after_frame(t, focused, step, now),
    {
        if !focused {
            self.pending = None;
            return Resize::Keep;
        }
        let same = match self.last {
            Some(l) => l == t,
            None => false,
        };
        if same {
            return Resize::Keep;
        }
        if self.is_due(t, step, now) {
            self.last = Some(t);
            self.pending = None;
            self.committed = now;
            return Resize::Commit;
        }
        let delay: u64 = if self.hops_now(t, step, now) {
            CELL_LOOK
        } else {
            RESIZE_EVERY
        };
        let stands = match self.pending {
            Some(p) => p.0 == t,
            None => false,
        };
        if !stands {
            self.pending = Some((t, now));
        }
        Resize::Later(delay)
    }
}

/// A window without the focus never resizes a grid, and nothing that waited
/// before it lost the focus is resized to on its return without standing
/// anew.
pub proof fn unfocused_windows_resize_nothing(
    s: Sizing,
    t: Target,
    step: Option<Instant>,
    now: Instant,
)
    ensures
        s.after_frame(t, false, step, now).1 == Resize::Keep,
        s.after_frame(t, false, step, now).0.last == s.last,
        s.after_frame(t, false, step, now).0.pending is None,
{
}

/// While a window is on its way to another screen, each frame in which its
/// target differs from the one before starts the wait again: the grid follows
/// only a target that stood still.
pub proof fn a_moving_target_waits(
    s: Sizing,
    t: Target,
    u: Target,
    step: Option<Instant>,
    now: Instant,
    then: Instant,
)
    requires
        t != u,
        s.last != Some(t),
        !s.due(t, step, now),
        s.after_frame(t, true, step, now).0.hops(u, step, then),
    ensures
        s.after_frame(t, true, step, now).0.after_frame(u, true, step, then).1 != Resize::Commit,
{
}

/// A target that the grid was resized to asks for nothing more.
pub proof fn a_resized_grid_rests(
    s: Sizing,
    t: Target,
    step: Option<Instant>,
    now: Instant,
    then: Instant,
)
    requires
        s.after_frame(t, true, step, now).1 == Resize::Commit,
    ensures
        s.after_frame(t, true, step, now).0.after_frame(t, true, step, then).1 == Resize::Keep,
{
}

/// The surfaces that float over the card and take the keys.
#[derive(Clone, Copy, PartialEq, Eq, Structural, Debug)]
pub struct Surfaces {
    pub modal: bool,
    pub search: bool,
    pub blocks_panel: bool,
    pub history: bool,
    pub launcher: bool,
    pub renaming: bool,
}

impl Surfaces {
    pub open spec fn any(self) -> bool {
        self.modal || self.search || self.blocks_panel || self.history || self.launcher
            || self.renaming
    }

    /// Whether any of them is open.
    pub fn overlay_open(&self) -> (r: bool)
        ensures
            r == self.any(),
    {
        self.modal || self.search || self.blocks_panel || self.history || self.launcher
            || self.renaming
    }

    /// The grid may take the keys: nothing floats over it and the editor does
    /// not own the prompt.
    pub fn grid_takes_keys(&self, composing: bool) -> (r: bool)
        ensures
            r == (!self.any() && !composing),
    {
        !self.overlay_open() && !composing
    }

    /// The history popup is closed, or opened in the place of every other
    /// surface that floats. Whether it is open now.
    pub fn toggle_history(&mut self) -> (r: bool)
        ensures
            r == !old(self).history,
            *final(self) == (if old(self).history {
                Surfaces { history: false, ..*old(self) }
            } else {
                Surfaces {
                    search: false,
                    blocks_panel: false,
                    launcher: false,
                    history: true,
                    ..*old(self)
                }
            }),
    {
        if self.history {
            self.history = false;
            false
        } else {
            self.search = false;
            self.blocks_panel = false;
            self.launcher = false;
            self.history = true;
            true
        }
    }
}

/// What a frame of the card asks for.
#[derive(Debug)]
pub struct CardTick {
    /// The editor is open.
    pub composing: bool,
    /// When to look again.
    pub wake: Option<Instant>,
    /// The editor takes the focus before the grid reads a key.
    pub hold_focus: bool,
    /// A row to cover for good.
    pub cover: Option<(i32, usize, Option<String>, String)>,
    /// Bytes for the terminal.
    pub bytes: Option<Vec<u8>>,
}

impl Composer {
    /// The grid has the focus: the window has it, nothing floats over the
    /// card, and the editor did not have it.
    pub open spec fn grid_has_focus(self, win_focused: bool, overlay_open: bool) -> bool {
        win_focused && !overlay_open && !self.has_focus
    }

    /// After a frame of the card.
    pub open spec fn carded(
        self,
        b: TermBackend,
        recs: Seq<BlockRec>,
        running: bool,
        win_focused: bool,
        overlay_open: bool,
        now: Instant,
    ) -> Composer {
        self.ticked(b, recs, running, self.grid_has_focus(win_focused, overlay_open), now)
    }
}

impl ComposerState {
    /// One frame of the card: the editor's frame, then its outboxes.
    pub fn card_tick(
        &mut self,
        backend: &TermBackend,
        recs: &[BlockRec],
        running: bool,
        win_focused: bool,
        overlay_open: bool,
        now: Instant,
    ) -> (r: CardTick)
        ensures
            ({
                let t = old(self)@.carded(*backend, recs@, running, win_focused, overlay_open, now);
                &&& final(self)@ == (Composer {
                    pending_history_cover: None,
                    pending_clear: None,
                    ..t
                })
                &&& r.composing == (t.mode == ComposerMode::Compose)
                &&& r.wake == old(self)@.tick_wake(
                    *backend,
                    recs@,
                    running,
                    old(self)@.grid_has_focus(win_focused, overlay_open),
                    now,
                )
                &&& r.hold_focus == (t.mode == ComposerMode::Compose && win_focused
                    && !overlay_open && (t.want_focus || t.has_focus))
                &&& state::cover_view(r.cover) == t.pending_history_cover
                &&& state::bytes_view(r.bytes) == t.pending_clear
            }),
    {
        let grid_focused = win_focused && !overlay_open && !self.has_focus;
        let wake = self.tick(backend, recs, running, grid_focused, now);
        let composing = self.mode == ComposerMode::Compose;
        let hold_focus = composing && win_focused && !overlay_open && (self.want_focus
            || self.has_focus);
        let cover = self.take_pending_history_cover();
        let bytes = self.take_pending_clear();
        CardTick { composing, wake, hold_focus, cover, bytes }
    }
}

/// The command that raw bytes on their way to the terminal are about to run,
/// where only its prompt row can tell: an Enter is among them, the end of the
/// prompt is known, and the row's text is not blank.
pub open spec fn observed(b: TermBackend, bytes: Seq<u8>, is_cmd: bool, proto: Option<u32>) -> Option<
    Seq<char>,
> {
    match b.reclaim {
        Reclaim::Text(t) if is_cmd && (proto matches Some(p) && p >= OBSERVED_PROTO)
            && b.prompt_end() is Some && keyrecord::carries_enter(bytes, b.win32_input)
            && !text::blank(t@) => Some(text::trimmed(t@)),
        _ => None,
    }
}

/// The command to record before `bytes` are sent. `proto` is the version of
/// the recorder's protocol, where one is connected.
pub fn observed_command(backend: &TermBackend, bytes: &[u8], is_cmd: bool, proto: Option<u32>) -> (r:
    Option<String>)
    ensures
        complete::opt_text(r) == observed(*backend, bytes@, is_cmd, proto),
{
    let recorded = match proto {
        Some(p) => p >= OBSERVED_PROTO,
        None => false,
    };
    if !is_cmd || !recorded || backend.captured_end().is_none() || !bytes_contain_enter(
        bytes,
        backend.win32_input,
    ) {
        return None;
    }
    match &backend.reclaim {
        Reclaim::Text(t) => if text::is_blank(t.as_str()) {
            None
        } else {
            Some(text::trim(t.as_str()))
        },
        _ => None,
    }
}

/// The search in a terminal's scrollback, as far as it ages.
#[derive(Clone, Copy, PartialEq, Eq, Structural, Debug)]
pub struct SearchAge {
    pub query_empty: bool,
    /// Rows of scrollback when the matches were found.
    pub matches_history: u32,
    /// When the user last drove the search.
    pub last_user: Instant,
    /// When the matches were found.
    pub last_build: Instant,
}

/// How long after the user last drove it a search is kept fresh.
pub const DRIVEN: u64 = 2_000_000_000;

/// How often the matches of a search that is driven are found anew.
pub const REBUILD_DRIVEN: u64 = 250_000_000;

/// How often those of any other search are.
pub const REBUILD_IDLE: u64 = 1_000_000_000;

impl SearchAge {
    pub open spec fn rebuilds_after(self, now: Instant) -> u64 {
        if now.since(self.last_user) < DRIVEN {
            REBUILD_DRIVEN
        } else {
            REBUILD_IDLE
        }
    }

    /// The matches are to be found anew: rows went into the scrollback since,
    /// and long enough ago.
    pub fn rebuild_due(&self, history: u32, now: Instant) -> (r: bool)
        ensures
            r == (!self.query_empty && self.matches_history != history && now.since(self.last_build)
                >= self.rebuilds_after(now)),
    {
        let wait: u64 = if now.nanos_since(self.last_user) < DRIVEN {
            REBUILD_DRIVEN
        } else {
            REBUILD_IDLE
        };
        !self.query_empty && self.matches_history != history && now.nanos_since(self.last_build)
            >= wait
    }

    /// The match to point out, of `n`: none while the matches are stale.
    pub fn shown_match(&self, history: u32, current: usize, n: usize) -> (r: Option<usize>)
        ensures
            r == (if self.matches_history == history && current < n {
                Some(current)
            } else {
                None
            }),
    {
        if self.matches_history == history && current < n {
            Some(current)
        } else {
            None
        }
    }
}

/// The newest record that is closed, or -1.
pub open spec fn newest_closed(recs: Seq<BlockRec>, n: int) -> int
    decreases n,
{
    if n <= 0 {
        -1
    } else if recs[n - 1].end_off is Some {
        n - 1
    } else {
        newest_closed(recs, n - 1)
    }
}

/// The last command that finished.
pub fn last_closed(recs: &[BlockRec]) -> (r: Option<usize>)
    ensures
        r is None <==> newest_closed(recs@, recs@.len() as int) < 0,
        r matches Some(i) ==> i == newest_closed(recs@, recs@.len() as int) && i < recs@.len(),
{
    let mut n: usize = recs.len();
    while n > 0
        invariant
            n <= recs@.len(),
            newest_closed(recs@, n as int) == newest_closed(recs@, recs@.len() as int),
        decreases n,
    {
        if recs[n - 1].end_off.is_some() {
            return Some(n - 1);
        }
        n = n - 1;
    }
    None
}

/// The words that offer to run the last command that finished again. `cmd` is
/// that command, cut to fit.
pub fn rerun_label(cmd: Option<&str>) -> (r: String)
    ensures
        r@ == match cmd {
            Some(c) => "Rerun last: "@ + c@,
            None => "Rerun last"@,
        },
{
    match cmd {
        Some(c) => "Rerun last: ".to_owned().concat(c),
        None => "Rerun last".to_owned(),
    }
}

/// Why a terminal's directory cannot be opened: it is gone, or opening it
/// failed with `error`.
pub fn open_failure(exists: bool, dir: &str, error: Option<&str>) -> (r: Option<String>)
    ensures
        complete::opt_text(r) == (if !exists {
            Some("Folder no longer exists: "@ + dir@)
        } else {
            match error {
                Some(e) => Some("Could not open "@ + dir@ + ": "@ + e@),
                None => None,
            }
        }),
{
    if !exists {
        return Some("Folder no longer exists: ".to_owned().concat(dir));
    }
    match error {
        Some(e) => {
            let head = complete::concat3("Could not open ", dir, ": ");
            Some(head.concat(e))
        },
        None => None,
    }
}

} // verus!
