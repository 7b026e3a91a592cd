//! What the strip shows: the row it covers in the grid, the content of its
//! lane, and the words in it.

use vstd::prelude::*;
use vstd::string::*;

use crate::clock::Instant;
use crate::complete;
use crate::complete::ShellFamily;
use crate::gate::{ComposerMode, RawReason};
use crate::history;
use crate::model::{Composer, HIDE_AFTER, INCOMING_COVER_CAP, REVEAL};
use crate::paths;
use crate::state;
use crate::state::ComposerState;
use crate::term::{Reclaim, TermBackend};
use crate::text;

verus! {

/// The first of two rows that there is.
pub open spec fn or_row(a: Option<i32>, b: Option<i32>) -> Option<i32> {
    if a is Some {
        a
    } else {
        b
    }
}

impl Composer {
    /// The row of a certain prompt: latched, with the cursor at its end.
    pub open spec fn armed_row(self, b: TermBackend) -> Option<i32> {
        match b.prompt_end() {
            Some(end) if self.at_prompt_since is Some && b.clean() => Some(end.0),
            _ => None,
        }
    }

    /// The row of a prompt whose end is still provisional, while the cursor is
    /// on it.
    pub open spec fn settling_row(self, b: TermBackend) -> Option<i32> {
        match b.prompt_end() {
            Some(end) if self.mode == ComposerMode::Compose && self.at_prompt_since is Some
                && b.end_pending() && b.cursor_line == end.0 => Some(end.0),
            _ => None,
        }
    }

    /// The row of the inferred prompt.
    pub open spec fn inferred_row(self, b: TermBackend) -> Option<i32> {
        if self.heur_stands(b) {
            Some(b.cursor_line)
        } else {
            None
        }
    }

    /// The row on which a prompt is being rendered, for a short while.
    pub open spec fn rendering_row(self, b: TermBackend, now: Instant) -> Option<i32> {
        match self.at_prompt_since {
            Some(t) if self.mode == ComposerMode::Compose && now.since(t) < INCOMING_COVER_CAP =>
            b.incoming_prompt_row,
            _ => None,
        }
    }

    /// The grid row that is blanked this frame, because the strip shows its
    /// prompt. A handoff comes first, whoever has the keys; all else needs the
    /// composer to be active.
    pub open spec fn cover(self, b: TermBackend, active: bool, now: Instant) -> Option<i32> {
        let own = or_row(
            self.armed_row(b),
            or_row(
                self.settling_row(b),
                or_row(
                    self.inferred_row(b),
                    or_row(self.heur_cover_row, self.rendering_row(b, now)),
                ),
            ),
        );
        or_row(
            self.held_row(b, now),
            if active {
                own
            } else {
                None
            },
        )
    }
}

/// The grid row that the strip's prompt stands for this frame.
pub fn cover_line_for(
    state: &ComposerState,
    backend: &TermBackend,
    comp_active: bool,
    now: Instant,
) -> (r: Option<i32>)
    ensures
        r == state@.cover(*backend, comp_active, now),
{
    let held = state.hold_line(backend, now);
    if held.is_some() {
        return held;
    }
    if !comp_active {
        return None;
    }
    let end = backend.captured_end();
    let latched: bool = state.at_prompt_latched();
    let composing: bool = state.mode == ComposerMode::Compose;
    if let Some((line, _)) = end {
        if latched && backend.cursor_at_prompt_end() {
            return Some(line);
        }
        if composing && latched && backend.prompt_end_pending() && backend.cursor_line == line {
            return Some(line);
        }
    }
    let inferred = state.heur_cover_line(backend);
    if inferred.is_some() {
        return inferred;
    }
    let ahead = state.heur_cover_optimistic();
    if ahead.is_some() {
        return ahead;
    }
    match state.at_prompt_since {
        Some(t) => if composing && now.nanos_since(t) < INCOMING_COVER_CAP {
            backend.incoming_prompt_row
        } else {
            None
        },
        None => None,
    }
}

/// What the lane holds.
#[derive(Clone, Copy, PartialEq, Eq, Structural, Debug)]
pub enum LaneContent {
    /// The editor.
    Editor,
    SessionEnded,
    /// A lost connection is being re-established.
    Reconnecting,
    Asleep,
    AltScreen,
    /// The submitted text, frozen.
    Frozen,
    /// Nothing new: an edge is too young.
    Quiet,
    /// The running command.
    Busy,
    /// The raw label.
    Label,
}

/// `t` is there and less than `d` old.
pub open spec fn younger(t: Option<Instant>, d: u64, now: Instant) -> bool {
    t matches Some(x) && now.since(x) < d
}

/// `t` is there and at least `d` old.
pub open spec fn older(t: Option<Instant>, d: u64, now: Instant) -> bool {
    t matches Some(x) && now.since(x) >= d
}

impl Composer {
    /// The lane's content, the first of these that applies.
    pub open spec fn lane(self, running: bool, alt: bool, open_rec: bool, now: Instant) -> LaneContent {
        match self.mode {
            ComposerMode::Compose => LaneContent::Editor,
            ComposerMode::Raw(reason) => {
                if reason == RawReason::Asleep || (self.asleep && !running) {
                    LaneContent::Asleep
                } else if self.reconnecting {
                    LaneContent::Reconnecting
                } else if !running || reason == RawReason::Dead {
                    LaneContent::SessionEnded
                } else if alt {
                    LaneContent::AltScreen
                } else if self.submit_hold is Some {
                    LaneContent::Frozen
                } else if open_rec && self.at_prompt_since is None {
                    if older(self.busy_since, REVEAL, now) {
                        LaneContent::Busy
                    } else {
                        LaneContent::Quiet
                    }
                } else if younger(self.last_activity, REVEAL, now) {
                    LaneContent::Quiet
                } else {
                    LaneContent::Label
                }
            },
        }
    }

    /// The strip gives its place to the grid: the lane is that of the
    /// alternate screen, and has been for long enough.
    pub open spec fn collapsed(self, running: bool, alt: bool, open_rec: bool, now: Instant) -> bool {
        self.lane(running, alt, open_rec, now) == LaneContent::AltScreen && older(
            self.alt_since,
            HIDE_AFTER,
            now,
        )
    }
}

pub fn lane_content(
    state: &ComposerState,
    running: bool,
    alt: bool,
    open_rec: bool,
    now: Instant,
) -> (r: LaneContent)
    ensures
        r == state@.lane(running, alt, open_rec, now),
{
    let reason = match state.mode {
        ComposerMode::Compose => {
            return LaneContent::Editor;
        },
        ComposerMode::Raw(r) => r,
    };
    if reason == RawReason::Asleep || (state.asleep && !running) {
        return LaneContent::Asleep;
    }
    if state.reconnecting {
        return LaneContent::Reconnecting;
    }
    if !running || reason == RawReason::Dead {
        return LaneContent::SessionEnded;
    }
    if alt {
        return LaneContent::AltScreen;
    }
    if state.submit_hold.is_some() {
        return LaneContent::Frozen;
    }
    if open_rec && !state.at_prompt_latched() {
        let revealed: bool = match state.busy_since {
            Some(t) => now.nanos_since(t) >= REVEAL,
            None => false,
        };
        return if revealed {
            LaneContent::Busy
        } else {
            LaneContent::Quiet
        };
    }
    let quiet: bool = match state.last_activity {
        Some(t) => now.nanos_since(t) < REVEAL,
        None => false,
    };
    if quiet {
        LaneContent::Quiet
    } else {
        LaneContent::Label
    }
}

/// Whether the strip gives its place to the grid.
pub fn strip_hidden(
    state: &ComposerState,
    running: bool,
    alt: bool,
    open_rec: bool,
    now: Instant,
) -> (r: bool)
    ensures
        r == state@.collapsed(running, alt, open_rec, now),
{
    let held: bool = match state.alt_since {
        Some(t) => now.nanos_since(t) >= HIDE_AFTER,
        None => false,
    };
    lane_content(state, running, alt, open_rec, now) == LaneContent::AltScreen && held
}

/// A terminal has a strip when it is hooked, dead, or being reconnected.
pub fn strip_eligible(hooked: bool, dead: bool, reconnecting: bool) -> (r: bool)
    ensures
        r == (hooked || dead || reconnecting),
{
    hooked || dead || reconnecting
}

/// Enter relaunches a dead terminal that has the keyboard, an empty draft, and
/// nothing open over it.
pub fn dead_enter_restores(
    dead_lane: bool,
    term_focused: bool,
    has_draft: bool,
    overlay_open: bool,
) -> (r: bool)
    ensures
        r == (dead_lane && term_focused && !has_draft && !overlay_open),
{
    dead_lane && term_focused && !has_draft && !overlay_open
}

/// What the lane of an ended session says.
pub fn relaunch_label(cmd: Option<&str>) -> (r: String)
    ensures
        cmd matches Some(c) ==> r@ == "Press Enter to relaunch \u{2014} "@ + c@,
        cmd is None ==> r@ == "Press Enter to relaunch"@,
{
    match cmd {
        Some(c) => "Press Enter to relaunch \u{2014} ".to_owned().concat(c),
        None => "Press Enter to relaunch".to_owned(),
    }
}

/// The decimal digits of a number.
pub open spec fn decimal(n: nat) -> Seq<char>
    decreases n,
{
    if n < 10 {
        seq![(48 + n) as u8 as char]
    } else {
        decimal(n / 10).push((48 + n % 10) as u8 as char)
    }
}

pub fn decimal_of(n: u64) -> (r: String)
    ensures
        r@ == decimal(n as nat),
    decreases n,
{
    let d: char = (48 + (n % 10) as u8) as char;
    if n < 10 {
        let mut r = String::new();
        r.push(d);
        assert(r@ =~= seq![d]);
        r
    } else {
        let mut r = decimal_of(n / 10);
        r.push(d);
        r
    }
}

/// What the lane of a lost connection says: `attempt` counts the attempts, of
/// which the next is in `next_s` seconds, or under way.
pub open spec fn retry_label(attempt: u32, next_s: u32) -> Seq<char> {
    if attempt == 0 && next_s == 0 {
        "reconnecting\u{2026}"@
    } else if attempt == 0 {
        "retrying \u{2014} first attempt in "@ + decimal(next_s as nat) + "s"@
    } else if next_s == 0 {
        "retrying \u{2014} attempt "@ + decimal(attempt as nat) + "\u{2026}"@
    } else {
        "retrying \u{2014} attempt "@ + decimal(attempt as nat) + " \u{b7} next in "@ + decimal(
            next_s as nat,
        ) + "s"@
    }
}

pub fn retry_lane_label(attempt: u32, next_s: u32) -> (r: String)
    ensures
        r@ == retry_label(attempt, next_s),
{
    if attempt == 0 && next_s == 0 {
        return "reconnecting\u{2026}".to_owned();
    }
    if attempt == 0 {
        let mut r = "retrying \u{2014} first attempt in ".to_owned();
        r.append(decimal_of(next_s as u64).as_str());
        r.append("s");
        return r;
    }
    let mut r = "retrying \u{2014} attempt ".to_owned();
    r.append(decimal_of(attempt as u64).as_str());
    if next_s == 0 {
        r.append("\u{2026}");
    } else {
        r.append(" \u{b7} next in ");
        r.append(decimal_of(next_s as u64).as_str());
        r.append("s");
    }
    r
}

/// How a terminal was made.
#[derive(Clone, Copy, PartialEq, Eq, Structural, Debug)]
pub enum TermKind {
    Shell,
    Custom,
    Assistant,
}

/// Where the last component of a Windows path starts: behind the last
/// separator, or behind the drive.
pub open spec fn file_start(p: Seq<char>) -> int {
    let k = paths::name_start(p);
    if k == 0 && paths::on_drive(p) {
        2
    } else {
        k
    }
}

/// The last component of a Windows path without its extension, unless it is
/// all extension; nothing where that names no file. Separators at the end do
/// not count.
pub open spec fn file_stem(p: Seq<char>) -> Seq<char> {
    let q = history::without_separators(p);
    let name = q.skip(file_start(q));
    let dot = text::last_index(name, '.');
    if name == "."@ || name == ".."@ {
        Seq::empty()
    } else if dot > 0 {
        name.take(dot)
    } else {
        name
    }
}

fn stem_of(p: &str) -> (r: Vec<char>)
    ensures
        r@ == file_stem(p@),
{
    let v = text::chars_of(history::separators_off(p).as_str());
    let n: usize = v.len();
    assert(v@.subrange(0, n as int) =~= v@);
    let a: usize = text::after_last(&v, 0, n, '/');
    let b: usize = text::after_last(&v, 0, n, '\\');
    let k: usize = if a > b {
        a
    } else {
        b
    };
    let from: usize = if k == 0 && paths::win_shaped(&v) {
        2
    } else {
        k
    };
    let ghost name = v@.skip(from as int);
    assert(v@.subrange(from as int, n as int) =~= name);
    let whole = text::string_of(&v, from, n);
    if text::same(whole.as_str(), ".") || text::same(whole.as_str(), "..") {
        let none: Vec<char> = Vec::new();
        assert(none@ =~= Seq::<char>::empty());
        return none;
    }
    let end: usize = text::after_last(&v, from, n, '.');
    let to: usize = if end - from > 1 {
        end - 1
    } else {
        n
    };
    assert(v@.subrange(from as int, to as int) =~= name.take(to - from));
    assert(name.take(n - from) =~= name);
    text::chars_of(text::string_of(&v, from, to).as_str())
}

/// What a relaunch would run, in words: an ssh terminal names its host, a
/// custom program its name or, where it is ssh, its destination; a shell
/// names nothing.
pub open spec fn relaunch_words(
    kind: TermKind,
    family: ShellFamily,
    program: Seq<char>,
    destination: Option<Seq<char>>,
) -> Option<Seq<char>> {
    let stem = text::ascii_lowered(file_stem(program));
    match family {
        ShellFamily::Ssh { host } => Some("ssh "@ + host@),
        _ => if kind != TermKind::Custom || stem.len() == 0 {
            None
        } else {
            match destination {
                Some(host) if stem == "ssh"@ => Some("ssh "@ + host),
                _ => Some(stem),
            }
        },
    }
}

/// What a relaunch would run, in words. `family` and `destination` are the
/// shell family and the ssh destination of the terminal's program and
/// arguments.
pub fn relaunch_desc(
    kind: TermKind,
    family: &ShellFamily,
    program: &str,
    destination: Option<&str>,
) -> (r: Option<String>)
    ensures
        complete::opt_text(r) == relaunch_words(
            kind,
            *family,
            program@,
            state::opt_str(destination),
        ),
{
    if let ShellFamily::Ssh { host } = family {
        return Some("ssh ".to_owned().concat(host.as_str()));
    }
    if kind != TermKind::Custom {
        return None;
    }
    let low = text::lower_chars(&stem_of(program));
    let stem = text::string_of(&low, 0, low.len());
    assert(low@.subrange(0, low@.len() as int) =~= low@);
    if stem.as_str().is_empty() {
        return None;
    }
    match destination {
        Some(host) => if text::same(stem.as_str(), "ssh") {
            Some("ssh ".to_owned().concat(host))
        } else {
            Some(stem)
        },
        None => Some(stem),
    }
}

/// What activating the editor does to text at the prompt.
#[derive(Clone, Copy, PartialEq, Eq, Structural, Debug)]
pub enum ActPreview {
    Keeps,
    Clears,
}

pub fn activation_preview(backend: &TermBackend) -> (r: ActPreview)
    ensures
        r == ActPreview::Keeps <==> (backend.reclaim matches Reclaim::Text(t) && t@.len() > 0),
{
    match &backend.reclaim {
        Reclaim::Text(t) => if !t.as_str().is_empty() {
            ActPreview::Keeps
        } else {
            ActPreview::Clears
        },
        _ => ActPreview::Clears,
    }
}

/// A collapsed strip shows nothing else: no lane with something to click on is
/// ever hidden.
pub proof fn only_the_alternate_screen_collapses(
    s: Composer,
    running: bool,
    alt: bool,
    open_rec: bool,
    now: Instant,
)
    ensures
        s.collapsed(running, alt, open_rec, now) ==> alt && running && !s.reconnecting && s.mode
            is Raw,
{
}

/// Without an active composer nothing in the grid is covered but the row of a
/// handoff, and that for no longer than its bound.
pub proof fn covers_need_the_composer(s: Composer, b: TermBackend, now: Instant)
    ensures
        s.cover(b, false, now) is Some ==> (s.submit_hold matches Some(h)
            && h.active(now)),
{
}

} // verus!
