//! What the strip, the card, the dashboard and the trackers promise, in terms
//! of what is known and of what was clicked.

use vstd::prelude::*;

use crate::card;
use crate::card::{Resize, SearchAge, Sizing, Target};
use crate::clock::Instant;
use crate::complete::ShellFamily;
use crate::consent;
use crate::consent::{
    CodexLane, CodexVerdicts, Concern, Consents, Installed, Known, Scan, Seen, TermInfo, Toast,
    ToastKind, Verdicts,
};
use crate::dashboard;
use crate::dashboard::{Folder, Row};
use crate::frame::{CopyAction, Frame};
use crate::gate::{ComposerMode, RawReason};
use crate::keyrecord;
use crate::lane;
use crate::lane::{ActPreview, LaneContent, TermKind};
use crate::model;
use crate::model::Composer;
use crate::paths;
use crate::play::{EditorDid, Press};
use crate::prompt;
use crate::prompt::AuthPrompt;
use crate::sending::white_from;
use crate::strip;
use crate::strip::{ComposeClick, EditorShown, FocusMove, RawClick, RawLane, Spot};
use crate::term;
use crate::term::{BlockRec, GridRow, TermBackend};
use crate::text;

verus! {

// The grid.

/// The modes by their bits: the alternate screen, any of the three mouse
/// reports, and paste brackets.
pub proof fn modes_by_their_bits(b: TermBackend)
    ensures
        b.alt() <==> b.mode & 4096 != 0,
        b.mouse() <==> b.mode & 8 != 0 || b.mode & 64 != 0 || b.mode & 8192 != 0,
        b.bracketed() <==> b.mode & 16 != 0,
{
    let m = b.mode;
    assert(m & 0x1000 == 0x1000 <==> m & 4096 != 0) by (bit_vector);
    assert(m & 0x2048 != 0 <==> m & 8 != 0 || m & 64 != 0 || m & 8192 != 0) by (bit_vector);
    assert(m & 0x10 == 0x10 <==> m & 16 != 0) by (bit_vector);
}

/// What the shell's feed tells: its hooks, the prompt's end, and whether that
/// is provisional; without a feed nothing is told.
pub proof fn feeds_tell_of_the_prompt(b: TermBackend)
    ensures
        b.block_feed is None ==> b.pre() == 0 && b.exec() == 0 && b.prompt_end() is None
            && !b.end_pending() && !b.live() && !b.clean(),
        b.block_feed matches Some(f) ==> b.pre() == f.pre_seen && b.exec() == f.exec_seen
            && b.prompt_end() == f.prompt_end && b.end_pending() == f.prompt_end_pending && b.live()
            == f.live,
        b.clean() <==> (b.prompt_end() matches Some(end) && end.0 == b.cursor_line && end.1
            == b.cursor_col),
{
}

/// A row's cells are those of the first row of that line, and none where there
/// is no such row.
pub proof fn rows_by_their_line(rows: Seq<GridRow>, line: i32, i: int)
    requires
        0 <= i <= rows.len(),
        forall|k: int| 0 <= k < i ==> (#[trigger] rows[k]).line != line,
        i < rows.len() ==> rows[i].line == line,
    ensures
        i < rows.len() ==> term::row_cells(rows, line) == rows[i].cells@,
        i == rows.len() ==> term::row_cells(rows, line).len() == 0,
{
    lemma_row_index(rows, line, i);
}

proof fn lemma_row_index(rows: Seq<GridRow>, line: i32, i: int)
    requires
        0 <= i <= rows.len(),
        forall|k: int| 0 <= k < i ==> (#[trigger] rows[k]).line != line,
        i < rows.len() ==> rows[i].line == line,
    ensures
        term::row_index(rows, line) == i,
    decreases i,
{
    if i > 0 {
        assert(rows[0].line != line);
        let r = rows.drop_first();
        assert forall|k: int| 0 <= k < i - 1 implies (#[trigger] r[k]).line != line by {
            assert(r[k] == rows[k + 1]);
        }
        lemma_row_index(r, line, i - 1);
    }
}

/// A row shows a text from a column on exactly where every character of it
/// stands in the cells from there on.
pub proof fn a_row_shows_a_text(b: TermBackend, line: i32, col: usize, t: Seq<char>)
    ensures
        b.shows(line, col, t) <==> {
            let cells = term::row_cells(b.rows@, line);
            &&& col + t.len() <= cells.len()
            &&& forall|k: int| 0 <= k < t.len() ==> cells[col + k] == #[trigger] t[k]
        },
{
    let cells = term::row_cells(b.rows@, line);
    if col + t.len() <= cells.len() {
        let p = cells.subrange(col as int, col + t.len());
        if p == t {
            assert forall|k: int| 0 <= k < t.len() implies cells[col + k] == #[trigger] t[k] by {
                assert(p[k] == t[k]);
            }
        }
        if forall|k: int| 0 <= k < t.len() ==> cells[col + k] == #[trigger] t[k] {
            assert(p =~= t);
        }
    }
}

/// The cursor's prefix is what stands in its row left of it, without trailing
/// white space, and the gap is how far behind that the cursor stands.
pub proof fn the_prefix_is_left_of_the_cursor(b: TermBackend, e: int)
    requires
        ({
            let cells = term::row_cells(b.rows@, b.cursor_line);
            &&& 0 <= e <= cells.len() && e <= b.cursor_col
            &&& forall|k: int|
                e <= k < cells.len() && k < b.cursor_col ==> text::white(#[trigger] cells[k])
            &&& e > 0 ==> !text::white(cells[e - 1])
        }),
    ensures
        b.cursor_prefix() == term::row_cells(b.rows@, b.cursor_line).take(e),
        b.cursor_gap() == b.cursor_col - e,
{
    let cells = term::row_cells(b.rows@, b.cursor_line);
    let n = term::text_end(cells, b.cursor_col as int);
    let left = cells.take(n);
    assert forall|k: int| e <= k < left.len() implies text::white(#[trigger] left[k]) by {
        assert(left[k] == cells[k]);
    }
    crate::sending::trailing_white_comes_off(left, e);
    assert(left.take(e) =~= cells.take(e));
}

/// A command is open exactly where some record has no end, and nested where
/// some such record is that of a shell.
pub proof fn open_records(recs: Seq<BlockRec>, i: int)
    requires
        0 <= i < recs.len(),
    ensures
        recs[i].end_off is None ==> term::open_in(recs),
        recs[i].end_off is None && recs[i].nested_shell ==> term::nested_open_in(recs),
        (forall|k: int| 0 <= k < recs.len() ==> (#[trigger] recs[k]).end_off is Some)
            ==> !term::open_in(recs) && !term::nested_open_in(recs),
        (forall|k: int| 0 <= k < recs.len() ==> !(#[trigger] recs[k]).nested_shell)
            ==> !term::nested_open_in(recs),
{
}

proof fn lemma_newest_open(recs: Seq<BlockRec>, n: int)
    requires
        0 <= n <= recs.len(),
    ensures
        -1 <= strip::newest_open(recs, n) < n,
        strip::newest_open(recs, n) >= 0 ==> recs[strip::newest_open(recs, n)].end_off is None,
        forall|k: int|
            strip::newest_open(recs, n) < k < n ==> (#[trigger] recs[k]).end_off is Some,
    decreases n,
{
    if n > 0 {
        lemma_newest_open(recs, n - 1);
    }
}

proof fn lemma_newest_closed(recs: Seq<BlockRec>, n: int)
    requires
        0 <= n <= recs.len(),
    ensures
        -1 <= card::newest_closed(recs, n) < n,
        card::newest_closed(recs, n) >= 0 ==> recs[card::newest_closed(recs, n)].end_off is Some,
        forall|k: int|
            card::newest_closed(recs, n) < k < n ==> (#[trigger] recs[k]).end_off is None,
    decreases n,
{
    if n > 0 {
        lemma_newest_closed(recs, n - 1);
    }
}

/// The newest open record has none behind it that is open, and the newest
/// closed one none that is closed; there is none exactly where no record is.
pub proof fn the_newest_records(recs: Seq<BlockRec>)
    ensures
        ({
            let n = recs.len() as int;
            let o = strip::newest_open(recs, n);
            let c = card::newest_closed(recs, n);
            &&& -1 <= o < n && (o >= 0 ==> recs[o].end_off is None)
            &&& forall|k: int| o < k < n ==> (#[trigger] recs[k]).end_off is Some
            &&& -1 <= c < n && (c >= 0 ==> recs[c].end_off is Some)
            &&& forall|k: int| c < k < n ==> (#[trigger] recs[k]).end_off is None
        }),
{
    lemma_newest_open(recs, recs.len() as int);
    lemma_newest_closed(recs, recs.len() as int);
}

// Covers.

/// The row that is blanked: that of a hold not yet 1.5 seconds old, whoever has
/// the keys; else, with the composer active, that of a certain prompt, of one
/// whose end is provisional, of an inferred one, of one about to be inferred,
/// and of one that began to be rendered less than half a second ago.
pub proof fn covered_rows_by_rank(c: Composer, b: TermBackend, active: bool, now: Instant)
    ensures
        ({
            let r = c.cover(b, active, now);
            let held = c.held_row(b, now);
            let end = b.prompt_end();
            let open = c.mode == ComposerMode::Compose;
            let latched = c.at_prompt_since is Some;
            let at_end = end == Some((b.cursor_line, b.cursor_col));
            let settling = open && latched && b.end_pending() && (end matches Some(e) && e.0
                == b.cursor_line);
            let inferred = c.heur_stands(b);
            &&& held is Some ==> r == held
            &&& held is None && !active ==> r is None
            &&& held is None && active ==> {
                &&& latched && at_end ==> r == Some(b.cursor_line)
                &&& !(latched && at_end) && settling ==> r == Some(b.cursor_line)
                &&& !(latched && at_end) && !settling && inferred ==> r == Some(b.cursor_line)
                &&& !(latched && at_end) && !settling && !inferred ==> {
                    &&& c.heur_cover_row is Some ==> r == c.heur_cover_row
                    &&& c.heur_cover_row is None ==> (if open && (c.at_prompt_since matches Some(t)
                        && now.nanos < t.nanos + 500_000_000) {
                        r == b.incoming_prompt_row
                    } else {
                        r is None
                    })
                }
            }
        }),
{
}

/// The hold's own row: followed with the scrollback, while it is younger than
/// 1.5 seconds.
pub proof fn held_rows(c: Composer, b: TermBackend, now: Instant)
    ensures
        c.submit_hold is None ==> c.held_row(b, now) is None,
        c.submit_hold matches Some(h) ==> c.held_row(b, now) == (if now.nanos < h.since.nanos
            + 1_500_000_000 {
            model::pinned(h.line, h.history, h.grid, b)
        } else {
            None
        }),
{
}

// The lane.

/// What the lane shows: the editor while it is open; else, by rank, sleep, a
/// reconnection, an ended session, the alternate screen, the held text, a
/// running command, and the label. A command shows once it ran 0.18 seconds,
/// the label once that long passed since the last activity; before, the lane
/// is quiet.
pub proof fn lanes_by_rank(c: Composer, running: bool, alt: bool, open_rec: bool, now: Instant)
    ensures
        ({
            let l = c.lane(running, alt, open_rec, now);
            let open = c.mode == ComposerMode::Compose;
            let sleeps = c.mode == ComposerMode::Raw(RawReason::Asleep) || (c.asleep && !running);
            let ended = !running || c.mode == ComposerMode::Raw(RawReason::Dead);
            let busy = open_rec && c.at_prompt_since is None;
            let raw = !open && !sleeps && !c.reconnecting && !ended && !alt && c.submit_hold is None;
            &&& open ==> l == LaneContent::Editor
            &&& !open && sleeps ==> l == LaneContent::Asleep
            &&& !open && !sleeps && c.reconnecting ==> l == LaneContent::Reconnecting
            &&& !open && !sleeps && !c.reconnecting && ended ==> l == LaneContent::SessionEnded
            &&& !open && !sleeps && !c.reconnecting && !ended && alt ==> l == LaneContent::AltScreen
            &&& !open && !sleeps && !c.reconnecting && !ended && !alt && c.submit_hold is Some ==> l
                == LaneContent::Frozen
            &&& raw && busy ==> l == (if c.busy_since matches Some(t) && now.nanos >= t.nanos
                + 180_000_000 {
                LaneContent::Busy
            } else {
                LaneContent::Quiet
            })
            &&& raw && !busy ==> l == (if c.last_activity matches Some(t) && now.nanos < t.nanos
                + 180_000_000 {
                LaneContent::Quiet
            } else {
                LaneContent::Label
            })
        }),
{
}

/// The strip gives way to the grid once the lane has been that of the
/// alternate screen for 0.4 seconds.
pub proof fn strips_collapse_after_a_while(
    c: Composer,
    running: bool,
    alt: bool,
    open_rec: bool,
    now: Instant,
)
    ensures
        c.collapsed(running, alt, open_rec, now) <==> c.lane(running, alt, open_rec, now)
            == LaneContent::AltScreen && (c.alt_since matches Some(t) && now.nanos >= t.nanos
            + 400_000_000),
{
}

/// A number in decimal reads back: its digits are its own, the last that of
/// the remainder by ten, and no zero stands in front of more.
pub proof fn decimals_read_back(n: nat)
    ensures
        lane::decimal(n).len() >= 1,
        n < 10 ==> lane::decimal(n) == seq![(48 + n) as u8 as char],
        n >= 10 ==> lane::decimal(n) == lane::decimal(n / 10) + lane::decimal(n % 10),
        n > 0 ==> lane::decimal(n)[0] != '0',
    decreases n,
{
    if n >= 10 {
        decimals_read_back(n / 10);
        assert(lane::decimal(n) =~= lane::decimal(n / 10) + lane::decimal(n % 10));
        assert(lane::decimal(n)[0] == lane::decimal(n / 10)[0]);
    } else if n > 0 {
        assert((48 + n) as u8 as char != '0');
    }
}

/// What a path's file is called: what stands behind its last separator, up to
/// the last dot in it, but for a dot in front.
pub proof fn files_by_their_stem(dir: Seq<char>, stem: Seq<char>, ext: Seq<char>)
    requires
        dir.len() > 0 ==> dir.last() == '/' || dir.last() == '\\',
        stem.len() > 0,
        forall|k: int| 0 <= k < stem.len() ==> #[trigger] stem[k] != '/' && stem[k] != '\\',
        forall|k: int|
            0 <= k < ext.len() ==> #[trigger] ext[k] != '/' && ext[k] != '\\' && ext[k] != '.',
        ext.len() > 0,
        !paths::on_drive(stem),
    ensures
        lane::file_stem(dir + stem + seq!['.'] + ext) == stem,
{
    let name = stem + seq!['.'] + ext;
    let p = dir + stem + seq!['.'] + ext;
    assert(p =~= dir + name);
    let n = p.len() as int;
    assert(p.last() == ext.last());
    assert(p.last() != '/' && p.last() != '\\');
    assert(crate::history::without_separators(p) == p);
    assert forall|k: int| 0 <= k < name.len() implies #[trigger] name[k] != '/' && name[k]
        != '\\' by {
        if k < stem.len() {
            assert(name[k] == stem[k]);
        } else if k > stem.len() {
            assert(name[k] == ext[k - stem.len() - 1]);
        }
    }
    text::lemma_last_index(p, '/');
    text::lemma_last_index(p, '\\');
    let a = text::last_index(p, '/');
    let b = text::last_index(p, '\\');
    if a >= dir.len() {
        assert(p[a] == name[a - dir.len()]);
    }
    if b >= dir.len() {
        assert(p[b] == name[b - dir.len()]);
    }
    if dir.len() > 0 {
        assert(p[dir.len() - 1] == dir.last());
    }
    assert(paths::name_start(p) == dir.len());
    if dir.len() == 0 {
        assert(p =~= name);
        if paths::on_drive(p) {
            if stem.len() >= 2 {
                assert(p[0] == stem[0] && p[1] == stem[1]);
            } else {
                assert(p[1] == '.');
            }
        }
    }
    assert(lane::file_start(p) == dir.len());
    assert(p.skip(dir.len() as int) =~= name);
    text::lemma_last_index(name, '.');
    let d = text::last_index(name, '.');
    assert(name[stem.len() as int] == '.');
    if d > stem.len() {
        assert(name[d] == ext[d - stem.len() - 1]);
    }
    assert(name.take(stem.len() as int) =~= stem);
    reveal_strlit(".");
    reveal_strlit("..");
    assert(name != "."@);
    if name == ".."@ {
        assert(ext[0] == name[stem.len() as int + 1]);
    }
}

// Clicks.

/// A click on the strip of an open editor: the keyboard leaves it, the history
/// opens, elsewhere the editor takes the focus it has not. Run closes a search,
/// submits a draft that can be, else queues one where Enter would and the queue
/// has room.
pub proof fn clicks_on_an_open_editor(c: Composer, spot: Spot, f: Frame, focused: bool)
    ensures
        ({
            let k = c.compose_click(spot, f, focused);
            let queues = (f.buffering || f.busy_hold) && f.has_draft && !f.cmd_multiline
                && c.pending.len() < 16;
            &&& spot == Spot::Keyboard ==> k == ComposeClick::Blur
            &&& spot == Spot::History ==> k == ComposeClick::History
            &&& spot == Spot::Run && c.search is Some ==> k == ComposeClick::CloseSearch
            &&& spot == Spot::Run && c.search is None && f.can_submit && f.has_draft ==> k
                == ComposeClick::Submit
            &&& spot == Spot::Run && c.search is None && !(f.can_submit && f.has_draft) && queues
                ==> k == ComposeClick::Queue
            &&& spot == Spot::Run && c.search is None && !(f.can_submit && f.has_draft) && !queues
                ==> k == ComposeClick::Nothing
            &&& (spot == Spot::Retry || spot == Spot::Elsewhere) && focused ==> k
                == ComposeClick::Nothing
            &&& (spot == Spot::Retry || spot == Spot::Elsewhere) && !focused ==> k
                == ComposeClick::Focus
        }),
{
}

/// What such a click does.
pub proof fn what_clicks_do(
    c: Composer,
    b: TermBackend,
    cover: Option<i32>,
    cwd: Option<Seq<char>>,
    now: Instant,
)
    ensures
        c.compose_clicked(ComposeClick::Blur, b, cover, cwd, now) == c.blurred(),
        c.compose_clicked(ComposeClick::History, b, cover, cwd, now) == c.search_cancelled(),
        c.compose_clicked(ComposeClick::CloseSearch, b, cover, cwd, now) == c.search_cancelled(),
        c.compose_clicked(ComposeClick::Submit, b, cover, cwd, now) == c.submitted(
            b,
            cover,
            cwd,
            now,
        ),
        c.compose_clicked(ComposeClick::Queue, b, cover, cwd, now) == c.queued(),
        c.compose_clicked(ComposeClick::Focus, b, cover, cwd, now) == (Composer {
            want_focus: true,
            ..c
        }),
        c.compose_clicked(ComposeClick::Nothing, b, cover, cwd, now) == c,
{
}

/// A click on the strip while the terminal has the keys: the history, but not
/// on the alternate screen; the verb of a sleeping, a reconnecting and an ended
/// session; and everywhere else the editor, where it may be opened.
pub proof fn clicks_on_a_closed_editor(spot: Spot, f: Frame, is_ssh: bool, alt: bool)
    ensures
        ({
            let k = strip::raw_click(spot, f, is_ssh, alt);
            &&& spot == Spot::History && alt ==> k == RawClick::Nothing
            &&& spot == Spot::History && !alt ==> k == RawClick::ToggleHistory
            &&& spot == Spot::Run && f.asleep_lane ==> k == RawClick::Wake
            &&& spot == Spot::Run && !f.asleep_lane && f.recon_lane ==> k
                == RawClick::CancelReconnect
            &&& spot == Spot::Retry && f.dead_lane && is_ssh ==> k == RawClick::RetryReconnect
            &&& spot != Spot::History && f.dead_lane && !(spot == Spot::Retry && is_ssh) && !(spot
                == Spot::Run && (f.asleep_lane || f.recon_lane)) ==> k == RawClick::Restore
            &&& spot != Spot::History && !f.dead_lane && !(spot == Spot::Run && (f.asleep_lane
                || f.recon_lane)) ==> k == (if f.arm_available {
                RawClick::Activate
            } else {
                RawClick::Nothing
            })
        }),
{
}

/// The focus: Escape that took it leaves it to the grid; else the editor asks
/// for it where nothing floats above and it is wanted or was lost.
pub proof fn the_focus_goes(c: Composer, lost: bool, escape: bool, overlay: bool, holding: bool)
    ensures
        ({
            let m = c.focus_move(lost, escape, overlay, holding);
            &&& m == FocusMove::Blurred <==> lost && escape
            &&& m == FocusMove::Request <==> !(lost && escape) && !overlay && (c.want_focus
                || !holding)
            &&& c.focus_moved(FocusMove::Blurred) == c.blurred()
            &&& c.focus_moved(FocusMove::Request) == c && c.focus_moved(FocusMove::Keep) == c
            &&& c.focus_confirmed(true) == (Composer { want_focus: false, ..c })
            &&& c.focus_confirmed(false) == c
        }),
{
}

/// The text that stays shown after a submission: its first line, until
/// something is typed or searched for.
pub proof fn a_held_text_stays_shown(c: Composer)
    ensures
        c.submit_hold is None || c.draft.len() > 0 || c.search is Some ==> c.frozen_text() is None,
        c.draft.len() == 0 && c.search is None ==> (c.submit_hold matches Some(h)
            ==> c.frozen_text() == Some(model::first_line(h.shown))),
{
}

/// A suggestion shows only where nothing else owns the draft: no completion,
/// no walk, no search.
pub proof fn suggestions_show_alone(c: Composer, recs: Seq<BlockRec>, cwd: Option<Seq<char>>)
    ensures
        c.recall is Some || c.search is Some ==> c.visible_ghost(recs, cwd) is None,
        (c.tab matches Some(t) && t.expect@ == c.draft) ==> c.visible_ghost(recs, cwd) is None,
        c.recall is None && c.search is None && (c.tab matches Some(t) ==> t.expect@ != c.draft)
            ==> c.visible_ghost(recs, cwd) == crate::history::ghost_of(recs, c.draft, c.fam, cwd),
{
}

/// How long until an edge is old enough to show: what is left of 0.18 seconds.
pub proof fn reveals_take_a_while(t: Instant, now: Instant)
    requires
        now.nanos >= t.nanos,
    ensures
        now.nanos - t.nanos < 180_000_000 ==> (strip::reveal_in(Some(t), now) matches Some(d) && d
            + (now.nanos - t.nanos) == 180_000_000),
        now.nanos - t.nanos >= 180_000_000 ==> strip::reveal_in(Some(t), now) is None,
        strip::reveal_in(None, now) is None,
{
}

/// The directory that the editor names: during an episode of inferred prompts
/// the one that the prompt's own text names while it stands, and none between;
/// else the shell's.
pub proof fn directories_of_prompts(
    armed: bool,
    row: Seq<char>,
    cwd: Option<Seq<char>>,
)
    ensures
        strip::chip_dir(false, armed, row, cwd) == cwd,
        strip::chip_dir(true, true, row, cwd) == crate::prompt::prompt_dir(row),
        strip::chip_dir(true, false, row, cwd) is None,
{
}

// The keys of a frame.

/// With nothing floating above, an open search reads Ctrl+R, the arrows up and
/// down and Enter, and leaves none of them to what follows; else Ctrl+R opens
/// one in an editor with the focus. What floats above keeps the search's keys.
pub proof fn the_search_reads_first(c: Composer, recs: Seq<BlockRec>, k: Press)
    ensures
        k.overlay_open ==> c.press_search(recs, k) == c && c.press_left(k) == k,
        !k.overlay_open && c.search is Some ==> {
            &&& c.press_search(recs, k) == c.search_keyed(recs, k.of_search())
            &&& c.press_left(k) == (Press { ctrl_r: 0, up: 0, down: 0, enters: 0, ..k })
            &&& k.of_search().cycles == k.ctrl_r && k.of_search().up == k.up
            &&& k.of_search().down == k.down && k.of_search().enters == k.enters
            &&& k.of_search().escape == k.escape
        },
        !k.overlay_open && c.search is None ==> {
            &&& c.press_left(k) == k
            &&& c.press_search(recs, k) == (if c.has_focus && k.ctrl_r > 0 {
                c.search_begun()
            } else {
                c
            })
        },
{
}

/// Ctrl+C is read whatever floats above, and changes the state only where it
/// interrupts.
pub proof fn the_copy_chord_is_read(c: Composer, f: Frame, running: bool, k: Press, now: Instant)
    ensures
        !k.copy ==> c.press_copies(f, running, k) is None && c.press_copied(f, running, k, now) == c,
        k.copy ==> c.press_copies(f, running, k) == Some(
            c.copies(k.grid_selection, k.editor_selection, f.heur_armed, running),
        ),
        c.press_copies(f, running, k) == Some(CopyAction::Interrupt) ==> c.press_copied(
            f,
            running,
            k,
            now,
        ) == c.interrupted(now),
        c.press_copies(f, running, k) != Some(CopyAction::Interrupt) ==> c.press_copied(
            f,
            running,
            k,
            now,
        ) == c,
{
}

/// Enter and the arrows are the editor's only with the focus, nothing floating
/// above and no search open; then Enter comes first, the arrows up and down
/// next, the arrow to the right last.
pub proof fn lines_are_read_in_order(
    c: Composer,
    recs: Seq<BlockRec>,
    f: Frame,
    k: Press,
    caret: Option<usize>,
    cwd: Option<Seq<char>>,
)
    ensures
        !c.has_focus || k.overlay_open || c.search is Some ==> c.press_lines(recs, f, k, caret, cwd)
            == c,
        c.has_focus && !k.overlay_open && c.search is None ==> {
            let e = if c.takes_enter(f) {
                c.entered(f, k.enters as nat)
            } else {
                c
            };
            c.press_lines(recs, f, k, caret, cwd) == e.press_arrows(
                recs,
                k.up,
                k.down,
                caret,
            ).press_ghost(recs, k.right, caret, cwd)
        },
{
}

/// A caret that was asked for at the end is there before the lines are read.
pub proof fn an_asked_caret_is_at_the_end(c: Composer, k: Press)
    ensures
        c.caret_to_end ==> c.press_caret(k) == Some(c.draft.len() as usize),
        !c.caret_to_end ==> c.press_caret(k) == k.caret,
{
}

/// The editor's own edit comes before its focus.
pub proof fn edits_come_before_the_focus(c: Composer, d: EditorDid, overlay: bool)
    ensures
        d.changed ==> c.shown(d, overlay) == c.edited().focus_moved(
            c.edited().focus_move(d.lost, d.escape, overlay, d.holding),
        ),
        !d.changed ==> c.shown(d, overlay) == c.focus_moved(
            c.focus_move(d.lost, d.escape, overlay, d.holding),
        ),
{
}

/// What a frame ships last: the draft where it is submitted; else, if nothing
/// was shipped already, the first of the queue where it may go; else nothing.
/// What is blank and goes at once is told as an empty Enter.
pub proof fn a_frame_ships_the_draft_or_the_queue(
    c: Composer,
    already: bool,
    b: TermBackend,
    cover: Option<i32>,
    cwd: Option<Seq<char>>,
    now: Instant,
)
    ensures
        c.shipped(true, already, b, cover, cwd, now) == c.submitted(b, cover, cwd, now),
        c.ships(true, already, b) matches Some((bytes, spacer)) && bytes == c.submit_bytes(b)
            && spacer == (white_from(c.draft, 0) && !c.submits_late(b)),
        already || !c.may_pump(b) ==> c.shipped(false, already, b, cover, cwd, now) == c && c.ships(
            false,
            already,
            b,
        ) is None,
        !already && c.may_pump(b) ==> {
            let rest = Composer { pending: c.pending.skip(1), ..c };
            &&& c.shipped(false, already, b, cover, cwd, now) == rest.dispatched(
                b,
                cover,
                cwd,
                c.pending[0],
                now,
            )
            &&& c.ships(false, already, b) matches Some((bytes, spacer)) && bytes
                == c.dispatch_bytes(b, c.pending[0]) && spacer == white_from(c.pending[0], 0)
        },
{
}

// The card.

/// When the grid follows its target: the first at once; one with the cells it
/// has, or with cells that a font step of the last five seconds explains, at
/// most every 0.12 seconds; one with other cells once it stood for half a
/// second. A target that waits is remembered with the frame that it was first
/// seen in, and looked at again.
pub proof fn grids_follow_their_target(
    s: Sizing,
    t: Target,
    step: Option<Instant>,
    now: Instant,
    old: Target,
)
    requires
        s.last == Some(old),
        old != t,
    ensures
        ({
            let (r, what) = s.after_frame(t, true, step, now);
            let stepped = step matches Some(x) && now.nanos < x.nanos + 5_000_000_000;
            let hops = old.cell != t.cell && !stepped;
            let stood = s.pending matches Some(p) && p.0 == t && now.nanos >= p.1.nanos
                + 500_000_000;
            let follows = (hops && stood) || (!hops && now.nanos >= s.committed.nanos
                + 120_000_000);
            &&& follows ==> what == Resize::Commit && r.last == Some(t) && r.pending is None
                && r.committed == now
            &&& !follows ==> {
                &&& what == Resize::Later(
                    if hops {
                        80_000_000
                    } else {
                        120_000_000
                    },
                )
                &&& r.last == s.last && r.committed == s.committed
                &&& (s.pending matches Some(p) && p.0 == t) ==> r.pending == s.pending
                &&& !(s.pending matches Some(p) && p.0 == t) ==> r.pending == Some((t, now))
            }
        }),
{
}

/// The first target is followed at once, and one that the grid has changes
/// nothing.
pub proof fn first_targets_are_followed(s: Sizing, t: Target, step: Option<Instant>, now: Instant)
    ensures
        s.last is None ==> s.after_frame(t, true, step, now) == (
            Sizing { last: Some(t), pending: None, committed: now },
            Resize::Commit,
        ),
        s.last == Some(t) ==> s.after_frame(t, true, step, now) == (s, Resize::Keep),
        s.after_frame(t, false, step, now) == (Sizing { pending: None, ..s }, Resize::Keep),
{
}

/// The grid has the focus in a focused window with nothing above, unless the
/// editor has it; and the card's frame is read with that.
pub proof fn the_grids_focus(
    c: Composer,
    b: TermBackend,
    recs: Seq<BlockRec>,
    running: bool,
    win: bool,
    overlay: bool,
    now: Instant,
)
    ensures
        c.grid_has_focus(win, overlay) <==> !(!win || overlay || c.has_focus),
        c.carded(b, recs, running, win, overlay, now) == c.ticked(
            b,
            recs,
            running,
            win && !overlay && !c.has_focus,
            now,
        ),
{
}

/// A command typed into the grid is told by its row exactly for a cmd terminal
/// whose server knows of such commands, where the bytes carry an Enter, the
/// prompt's end is known and the row's text is not blank: the text without the
/// white space at its ends.
pub proof fn observed_commands(
    b: TermBackend,
    bytes: Seq<u8>,
    is_cmd: bool,
    proto: Option<u32>,
    a: int,
    e: int,
)
    requires
        b.reclaim matches term::Reclaim::Text(t) ==> 0 <= a <= e <= t@.len()
            && crate::sending::white_before(t@, a) && white_from(t@, e) && (a < e ==> !text::white(
            t@[a],
        ) && !text::white(t@[e - 1])),
    ensures
        ({
            let o = card::observed(b, bytes, is_cmd, proto);
            match b.reclaim {
                term::Reclaim::Text(t) => if is_cmd && (proto matches Some(p) && p >= 6)
                    && b.prompt_end() is Some && keyrecord::carries_enter(bytes, b.win32_input) && a
                    < e {
                    o == Some(t@.subrange(a, e))
                } else {
                    o is None
                },
                _ => o is None,
            }
        }),
{
    if let term::Reclaim::Text(t) = b.reclaim {
        crate::sending::trimming_takes_the_ends(t@, a, e);
        if a < e {
            assert(!text::white(t@[a]));
        } else {
            assert(text::blank(t@)) by {
                assert forall|i: int| 0 <= i < t@.len() implies text::white(#[trigger] t@[i]) by {}
            }
        }
    }
}

// The dashboard.

/// A dashboard shows the terminals of its folder, all of them in their order,
/// or every terminal where it has none.
pub proof fn a_dashboard_shows_its_folder(rows: Seq<Row>, folder: Option<u128>)
    ensures
        dashboard::scoped(rows, folder) == rows.filter(
            |r: Row| folder is None || r.folder == folder,
        ).map_values(|r: Row| r.id),
    decreases rows.len(),
{
    reveal(Seq::filter);
    let p = |r: Row| folder is None || r.folder == folder;
    let m = |r: Row| r.id;
    if rows.len() == 0 {
        assert(dashboard::scoped(rows, folder) =~= rows.filter(p).map_values(m));
    } else {
        a_dashboard_shows_its_folder(rows.drop_last(), folder);
        assert(dashboard::scoped(rows, folder) =~= rows.filter(p).map_values(m));
    }
}

/// A line is cut to its first characters, and only where it has more.
pub proof fn lines_are_cut(s: Seq<char>, n: usize)
    ensures
        s.len() <= n ==> dashboard::cut(s, n) == s,
        s.len() > n ==> dashboard::cut(s, n).len() == n && s == dashboard::cut(s, n) + s.skip(
            n as int,
        ),
{
    if s.len() > n {
        assert(s =~= s.take(n as int) + s.skip(n as int));
    }
}

// Trackers.

/// The answer for a name is its own where there is one, the first; else the
/// one for all.
pub proof fn answers_by_name(named: Seq<(String, bool)>, all: Option<bool>, name: Seq<char>, i: int)
    requires
        0 <= i <= named.len(),
        forall|k: int| 0 <= k < i ==> (#[trigger] named[k]).0@ != name,
        i < named.len() ==> named[i].0@ == name,
    ensures
        i < named.len() ==> consent::verdict_from(named, all, name) == Some(named[i].1),
        i == named.len() ==> consent::verdict_from(named, all, name) == all,
    decreases i,
{
    if i > 0 {
        assert(named[0].0@ != name);
        let r = named.drop_first();
        assert forall|k: int| 0 <= k < i - 1 implies (#[trigger] r[k]).0@ != name by {
            assert(r[k] == named[k + 1]);
        }
        answers_by_name(r, all, name, i - 1);
    }
}

/// One terminal in a scan. One that is settled, or runs nothing of concern,
/// changes nothing. What was dismissed or done settles it, and a no dismisses
/// it too; a yes installs, and no answer asks, both with nothing recorded yet.
pub proof fn one_terminal_in_a_scan(k: Known, settled: Set<u128>, id: u128, c: Concern)
    ensures
        ({
            let t = Seen { id, concern: Some(c) };
            let old = k.dismissed.contains(c.key) || k.done.contains(c.key);
            &&& consent::look(k, settled, Seen { id, concern: None }) == (None::<bool>, k)
            &&& settled.contains(id) ==> consent::look(k, settled, t) == (None::<bool>, k)
            &&& !settled.contains(id) && old ==> consent::look(k, settled, t) == (
                None::<bool>,
                Known { settled: k.settled.insert(id), ..k },
            )
            &&& !settled.contains(id) && !old && c.verdict == Some(true) ==> consent::look(
                k,
                settled,
                t,
            ) == (Some(true), k)
            &&& !settled.contains(id) && !old && c.verdict is None ==> consent::look(k, settled, t)
                == (Some(false), k)
            &&& !settled.contains(id) && !old && c.verdict == Some(false) ==> consent::look(
                k,
                settled,
                t,
            ) == (
                None::<bool>,
                Known {
                    dismissed: k.dismissed.insert(c.key),
                    settled: k.settled.insert(id),
                    ..k
                },
            )
        }),
{
}

/// The terminal can stop a scan: it runs something of concern, is not settled,
/// and what it runs was neither dismissed nor done and is not refused.
pub open spec fn stops_a_scan(k: Known, settled: Set<u128>, t: Seen) -> bool {
    &&& !settled.contains(t.id)
    &&& t.concern matches Some(c) && !k.dismissed.contains(c.key) && !k.done.contains(c.key)
        && c.verdict != Some(false)
}

/// A scan stops at the first terminal that can stop one: none before it could.
/// Where it comes to nothing, none can, by what was known when it began.
pub proof fn a_scan_stops_at_the_first(k: Known, settled: Set<u128>, ts: Seq<Seen>, i: int)
    requires
        0 <= i <= ts.len() <= usize::MAX,
    ensures
        match consent::scan_from(k, settled, ts, i).0 {
            Scan::Nothing => forall|j: int|
                i <= j < ts.len() ==> !stops_a_scan(
                    consent::scan_from(k, settled, ts, i).1,
                    settled,
                    #[trigger] ts[j],
                ),
            Scan::Install(n) => i <= n < ts.len() && (ts[n as int].concern matches Some(c)
                && c.verdict == Some(true)) && forall|j: int|
                i <= j < n ==> !stops_a_scan(
                    consent::scan_from(k, settled, ts, i).1,
                    settled,
                    #[trigger] ts[j],
                ),
            Scan::Ask(n) => i <= n < ts.len() && (ts[n as int].concern matches Some(c) && c.verdict
                is None) && forall|j: int|
                i <= j < n ==> !stops_a_scan(
                    consent::scan_from(k, settled, ts, i).1,
                    settled,
                    #[trigger] ts[j],
                ),
        },
    decreases ts.len() - i,
{
    if i < ts.len() {
        let (stop, next) = consent::look(k, settled, ts[i]);
        if stop is None {
            a_scan_stops_at_the_first(next, settled, ts, i + 1);
            consent::scan_respects_answers(next, settled, ts, i + 1);
            let after = consent::scan_from(k, settled, ts, i).1;
            assert(after == consent::scan_from(next, settled, ts, i + 1).1);
            if let Some(c) = ts[i].concern {
                if !settled.contains(ts[i].id) && next.dismissed.contains(c.key) {
                    assert(after.dismissed.contains(c.key));
                }
            }
            assert(!stops_a_scan(after, settled, ts[i]));
        }
    }
}

/// A failed install takes the key from what is done, dismisses it, and lets
/// every terminal be looked at again; any other result changes nothing.
pub proof fn after_an_install(k: Known, key: Seq<char>, result: Installed)
    ensures
        result is Failed ==> Consents::after_install(k, key, result) == (Known {
            done: k.done.remove(key),
            dismissed: k.dismissed.insert(key),
            settled: Set::empty(),
        }),
        !(result is Failed) ==> Consents::after_install(k, key, result) == k,
{
}

/// A terminal that runs the assistant on a host is of concern by the host, with
/// the host's answer; no other terminal is.
pub proof fn hosts_are_of_concern(t: TermInfo, adapter: Seq<char>, hosts: Verdicts)
    ensures
        ({
            let c = consent::host_concern(t, adapter, hosts);
            match t.family {
                ShellFamily::Ssh { host } => if t.adapter matches Some(a) && a@ == adapter {
                    c == Some(
                        Concern {
                            key: host@,
                            verdict: consent::verdict_from(hosts.named@, hosts.all, host@),
                        },
                    )
                } else {
                    c is None
                },
                _ => c is None,
            }
        }),
{
}

/// A terminal that runs codex is of concern by its lane: its host, its
/// distribution, which must be known, or this machine; with the answer of that
/// lane.
pub proof fn codex_lanes_are_of_concern(t: TermInfo, v: CodexVerdicts)
    ensures
        ({
            let c = consent::codex_concern(t, v);
            let codex = t.adapter matches Some(a) && a@ == "codex"@;
            &&& !codex ==> c is None
            &&& codex ==> match t.family {
                ShellFamily::Ssh { host } => c == Some(
                    Concern {
                        key: "ssh:"@ + host@,
                        verdict: consent::verdict_from(v.hosts.named@, v.hosts.all, host@),
                    },
                ),
                ShellFamily::WslShell { .. } => match t.wsl_distro {
                    Some(d) => c == Some(
                        Concern {
                            key: "local:wsl:"@ + d@,
                            verdict: consent::verdict_from(v.wsl.named@, v.wsl.all, d@),
                        },
                    ),
                    None => c is None,
                },
                _ => c == Some(Concern { key: "local:windows"@, verdict: v.local }),
            }
        }),
{
}

/// A lane is called by what it is: this machine, its distribution, its host.
pub proof fn lanes_are_called(lane: CodexLane)
    ensures
        consent::key_label(lane.key_text()) == match lane {
            CodexLane::LocalWindows => "this PC"@,
            CodexLane::LocalWsl { distro } => "WSL "@ + distro@,
            CodexLane::Ssh { host } => host@,
        },
{
    reveal_strlit("local:windows");
    reveal_strlit("local:wsl:");
    reveal_strlit("ssh:");
    let k = lane.key_text();
    match lane {
        CodexLane::LocalWindows => {},
        CodexLane::LocalWsl { distro } => {
            let p = "local:wsl:"@;
            assert(k.subrange(0, 0int + p.len()) =~= p);
            assert(k.skip(p.len() as int) =~= distro@);
            assert(k[7] == 's' && "local:windows"@[7] == 'i');
        },
        CodexLane::Ssh { host } => {
            let p = "ssh:"@;
            assert(k.subrange(0, 0int + p.len()) =~= p);
            assert(k.skip(p.len() as int) =~= host@);
            assert(k[0] == 's' && "local:windows"@[0] == 'l' && "local:wsl:"@[0] == 'l');
            if text::has_prefix(k, "local:wsl:"@) {
                assert(k.subrange(0, 0int + "local:wsl:"@.len())[0] == 'l');
            }
        },
    }
}

/// The hint slot: a search has its keys in it; a held text and a command that
/// is named there have nothing; else too many lines are told of, then a prompt
/// that is waited for, once 0.18 seconds passed since the last activity, then
/// how to break a line in an empty editor with the focus.
pub proof fn hints_by_rank(c: Composer, f: Frame, e: EditorShown, now: Instant)
    ensures
        ({
            let h = c.hint(f, e, now);
            let quiet = c.last_activity matches Some(t) && now.nanos < t.nanos + 180_000_000;
            let named = f.busy_hold && !quiet && !e.frozen && !f.cmd_multiline && !e.searching;
            &&& c.chip_due(f, e, now) <==> named
            &&& e.searching ==> h is Some
            &&& !e.searching && (e.frozen || named) ==> h is None
            &&& !e.searching && !e.frozen && !named && f.cmd_multiline ==> h == Some(
                if c.is_cmd {
                    "cmd runs one line at a time"@
                } else {
                    "one line at a time in this shell"@
                },
            )
            &&& !e.searching && !e.frozen && !named && !f.cmd_multiline && !f.can_submit ==> (h
                is None <==> quiet)
            &&& !e.searching && !e.frozen && !named && !f.cmd_multiline && f.can_submit ==> (h
                is Some <==> c.has_focus && c.draft.len() == 0)
        }),
{
}

/// Typed text is told of before the editor is opened by hand exactly where it
/// may be opened, the prompt's end is known, the cursor does not stand at it
/// and no inferred prompt stands.
pub proof fn dirty_prompts_are_told_of(c: Composer, f: Frame, b: TermBackend)
    ensures
        c.dirty_prompt(f, b) <==> f.arm_available && !c.heur_stands(b) && (b.prompt_end() matches Some(
            end,
        ) && end != (b.cursor_line, b.cursor_col)),
{
}

/// Where the keys of a frame put the caret: behind a suggestion that an arrow
/// took, else at the end where the search asked for it, else nowhere.
pub proof fn keys_put_the_caret(
    c: Composer,
    recs: Seq<BlockRec>,
    f: Frame,
    running: bool,
    k: Press,
    cwd: Option<Seq<char>>,
    now: Instant,
)
    ensures
        ({
            let s = c.press_search(recs, k);
            let m = (Composer { caret_to_end: false, ..s }).press_copied(f, running, k, now);
            let left = c.press_left(k);
            let caret = s.press_caret(k);
            let e = m.press_enters(f, left.enters as nat).press_arrows(
                recs,
                left.up,
                left.down,
                caret,
            );
            let reads = m.has_focus && !left.overlay_open && m.search is None;
            let taken = e.press_takes(recs, left.right, caret, cwd);
            let p = c.press_puts(recs, f, running, k, cwd, now);
            &&& reads ==> (taken matches Some(rest) ==> p == Some(
                (e.draft.len() + rest.len()) as int,
            ))
            &&& (!reads || taken is None) && s.caret_to_end ==> p == Some(s.draft.len() as int)
            &&& (!reads || taken is None) && !s.caret_to_end ==> p is None
        }),
{
}

/// A frame's keys are read in order: the search, the caret that it asked for,
/// the copy chord, then the lines.
pub proof fn keys_are_read_in_order(
    c: Composer,
    recs: Seq<BlockRec>,
    f: Frame,
    running: bool,
    k: Press,
    cwd: Option<Seq<char>>,
    now: Instant,
)
    ensures
        ({
            let s = c.press_search(recs, k);
            let m = (Composer { caret_to_end: false, ..s }).press_copied(f, running, k, now);
            c.pressed(recs, f, running, k, cwd, now) == m.press_lines(
                recs,
                f,
                c.press_left(k),
                s.press_caret(k),
                cwd,
            )
        }),
{
}

/// The notice of an install names the assistant first and the host behind it;
/// a failed one is an error and tells what was said. Where the tracker was
/// there already there is none.
pub proof fn installs_are_told_of(
    t: Option<Toast>,
    name: Seq<char>,
    host: Seq<char>,
    result: Installed,
)
    requires
        consent::host_notice(t, name, host, result),
    ensures
        t is None <==> result is Already,
        result is New ==> {
            let n = t->0;
            &&& n.kind == ToastKind::Info && n.ttl_s == 6
            &&& n.title@.len() >= name.len() + host.len()
            &&& n.title@.take(name.len() as int) == name
            &&& n.title@.skip(n.title@.len() - host.len()) == host
        },
        result matches Installed::Failed(e) ==> {
            let n = t->0;
            &&& n.kind == ToastKind::Error && n.ttl_s == 8
            &&& n.title@.take(name.len() as int) == name
            &&& n.detail@ == e@
        },
{
    if let Some(n) = t {
        let title = n.title@;
        assert(title.take(name.len() as int) =~= name);
        if result is New {
            assert(title.skip(title.len() - host.len()) =~= host);
        }
    }
}

/// So does that of a codex tracker, by the name of its lane.
pub proof fn codex_installs_are_told_of(t: Option<Toast>, key: Seq<char>, result: Installed)
    requires
        consent::codex_notice(t, key, result),
    ensures
        t is None <==> result is Already,
        result is New ==> (t->0).kind == ToastKind::Info && (t->0).ttl_s == 6,
        result matches Installed::Failed(e) ==> (t->0).kind == ToastKind::Error && (t->0).ttl_s == 8
            && (t->0).detail@ == e@,
        t matches Some(n) ==> ({
            let label = consent::key_label(key);
            let title = n.title@;
            &&& title.len() >= label.len() + 2
            &&& title.subrange(title.len() - 1 - label.len(), title.len() - 1) == label
        }),
{
    if let Some(n) = t {
        let label = consent::key_label(key);
        let title = n.title@;
        reveal_strlit(")");
        reveal_strlit("Codex session tracker added (");
        reveal_strlit("Codex session tracker install failed (");
        assert(title.subrange(title.len() - 1 - label.len(), title.len() - 1) =~= label);
    }
}

/// What a lost connection's lane says counts the attempts and the seconds to
/// the next, each only where there is one.
pub proof fn retries_are_counted(attempt: u32, next_s: u32)
    ensures
        ({
            let l = lane::retry_label(attempt, next_s);
            let n = lane::decimal(attempt as nat);
            let s = lane::decimal(next_s as nat);
            &&& attempt == 0 && next_s == 0 ==> l == "reconnecting\u{2026}"@
            &&& attempt == 0 && next_s > 0 ==> l == "retrying \u{2014} first attempt in "@ + s
                + "s"@
            &&& attempt > 0 && next_s == 0 ==> l == "retrying \u{2014} attempt "@ + n
                + "\u{2026}"@
            &&& attempt > 0 && next_s > 0 ==> l == "retrying \u{2014} attempt "@ + n
                + " \u{b7} next in "@ + s + "s"@
        }),
{
}

/// What a relaunch would run: an ssh terminal's host, whatever its program; a
/// custom program by its name in small letters, or where that is ssh by its
/// destination, if it has one; a shell or an assistant has none.
pub proof fn relaunches_are_named(
    kind: TermKind,
    family: ShellFamily,
    program: Seq<char>,
    destination: Option<Seq<char>>,
)
    ensures
        ({
            let w = lane::relaunch_words(kind, family, program, destination);
            let stem = text::ascii_lowered(lane::file_stem(program));
            &&& family matches ShellFamily::Ssh { host } ==> w == Some("ssh "@ + host@)
            &&& !(family is Ssh) ==> {
                &&& kind != TermKind::Custom || stem.len() == 0 ==> w is None
                &&& kind == TermKind::Custom && stem.len() > 0 && (stem != "ssh"@ || destination
                    is None) ==> w == Some(stem)
                &&& kind == TermKind::Custom && stem == "ssh"@ ==> (destination matches Some(h) ==> (
                stem.len() > 0 ==> w == Some("ssh "@ + h)))
            }
        }),
{
}

/// The words for a running command name it and how long it has run.
pub proof fn running_commands_are_named(cmd: Seq<char>, elapsed: Seq<char>)
    ensures
        ({
            let w = strip::chip_words(Some((cmd, elapsed)));
            &&& w.take(cmd.len() as int) == cmd
            &&& w == cmd + " \u{b7} "@ + elapsed + " \u{2014} Enter queues"@
            &&& strip::chip_words(None) == "running \u{2014} Enter queues"@
        }),
{
    assert(strip::chip_words(Some((cmd, elapsed))).take(cmd.len() as int) =~= cmd);
}

/// A search's matches are found anew every quarter of a second while the user
/// drove it within the last two seconds, else every second.
pub proof fn driven_searches_are_kept_fresh(a: SearchAge, now: Instant)
    ensures
        now.nanos < a.last_user.nanos + 2_000_000_000 ==> a.rebuilds_after(now) == 250_000_000,
        now.nanos >= a.last_user.nanos + 2_000_000_000 ==> a.rebuilds_after(now) == 1_000_000_000,
{
}

/// A folder is called by its name, that of the first folder with its id, and
/// otherwise plainly a folder.
pub proof fn folders_by_their_name(folders: Seq<Folder>, id: u128, i: int)
    requires
        0 <= i <= folders.len(),
        forall|k: int| 0 <= k < i ==> (#[trigger] folders[k]).id != id,
        i < folders.len() ==> folders[i].id == id,
    ensures
        i < folders.len() ==> dashboard::folder_name(folders, id) == folders[i].name@,
        i == folders.len() ==> dashboard::folder_name(folders, id) == "Folder"@,
    decreases i,
{
    if i > 0 {
        assert(folders[0].id != id);
        let r = folders.skip(1);
        assert forall|k: int| 0 <= k < i - 1 implies (#[trigger] r[k]).id != id by {
            assert(r[k] == folders[k + 1]);
        }
        folders_by_their_name(r, id, i - 1);
    }
}

/// The last command that finished is that of the newest closed record.
pub proof fn the_last_command_finished(recs: Seq<BlockRec>, i: int)
    requires
        0 <= i < recs.len(),
        recs[i].end_off is Some,
        forall|k: int| i < k < recs.len() ==> (#[trigger] recs[k]).end_off is None,
    ensures
        dashboard::last_command(recs) == Some(recs[i].cmd@),
{
    lemma_newest_closed(recs, recs.len() as int);
    let c = card::newest_closed(recs, recs.len() as int);
    if c < i {
        assert(recs[i].end_off is None);
    }
    if c > i {
        assert(recs[c].end_off is None);
    }
}

/// Without a closed record there is none.
pub proof fn no_command_finished(recs: Seq<BlockRec>)
    requires
        forall|k: int| 0 <= k < recs.len() ==> (#[trigger] recs[k]).end_off is None,
    ensures
        dashboard::last_command(recs) is None,
{
    lemma_newest_closed(recs, recs.len() as int);
    let c = card::newest_closed(recs, recs.len() as int);
    if c >= 0 {
        assert(recs[c].end_off is None);
    }
}

/// A posix path of a distribution is its share's, with backslashes.
pub proof fn shares_of_distributions(distro: Seq<char>, posix: Seq<char>, k: int)
    requires
        0 <= k < posix.len(),
    ensures
        ({
            let p = consent::share_path(distro, posix);
            let n = p.len() - posix.len();
            &&& p.take(n) == "\\\\wsl$\\"@ + distro
            &&& p[n + k] == if posix[k] == '/' {
                '\\'
            } else {
                posix[k]
            }
        }),
{
    let p = consent::share_path(distro, posix);
    assert(p.take(p.len() - posix.len()) =~= "\\\\wsl$\\"@ + distro);
}

/// What an empty editor says: that it searches, in a search; nothing while a
/// submitted text stays shown; else that a command can be typed.
pub proof fn empty_editors_say(c: Composer)
    ensures
        c.search is Some ==> c.placeholder() == "search history\u{2026}"@,
        c.search is None && c.frozen_text() is Some ==> c.placeholder() == ""@,
        c.search is None && c.frozen_text() is None ==> c.placeholder() == "Type a command\u{2026}"@,
{
}

/// The sooner of two waits is one of them and no longer than either.
pub proof fn the_sooner_wait(a: Option<u64>, b: Option<u64>)
    ensures
        ({
            let r = strip::sooner(a, b);
            &&& r == a || r == b
            &&& r is None <==> a is None && b is None
            &&& r matches Some(t) ==> (a matches Some(x) ==> t <= x) && (b matches Some(y) ==> t
                <= y)
        }),
{
}

/// What the lane shows of a command that runs: its newest open record. A
/// nested shell that asks for a password, by the row of the cursor, shows that
/// alone.
pub proof fn running_lanes(
    c: Composer,
    r: RawLane,
    f: Frame,
    b: TermBackend,
    recs: Seq<BlockRec>,
    running: bool,
    now: Instant,
    open: int,
)
    requires
        c.raw_lane_is(r, f, b, recs, running, now),
        0 <= open < recs.len(),
        recs[open].end_off is None,
        forall|k: int| open < k < recs.len() ==> (#[trigger] recs[k]).end_off is Some,
        c.lane(running, b.alt(), true, now) == LaneContent::Busy,
    ensures
        ({
            let nested = c.heur_episode || recs[open].nested_shell;
            let asked = prompt::auth_prompt(b.cursor_text()) == AuthPrompt::Password;
            &&& !nested ==> (r matches RawLane::Busy(i) && i == open)
            &&& nested && asked ==> r is NestedPassword
            &&& nested && !asked ==> (r matches RawLane::Nested(i) && i == open)
        }),
{
    lemma_newest_open(recs, recs.len() as int);
    let o = strip::newest_open(recs, recs.len() as int);
    if o < open {
        assert(recs[open].end_off is Some);
    }
    if o > open {
        assert(recs[o].end_off is Some);
    }
}

/// What the other lanes show: the command that a relaunch would run, the
/// retries, the held text, how long the lane stays quiet; and for the label
/// what the conversation before an ssh shell asks, or what opening the editor
/// would do to typed text.
pub proof fn other_lanes(
    c: Composer,
    r: RawLane,
    f: Frame,
    b: TermBackend,
    recs: Seq<BlockRec>,
    running: bool,
    now: Instant,
)
    requires
        c.raw_lane_is(r, f, b, recs, running, now),
    ensures
        ({
            let l = c.lane(running, b.alt(), term::open_in(recs), now);
            &&& l == LaneContent::SessionEnded ==> (r matches RawLane::SessionEnded(s) && (
            c.relaunch_cmd matches Some(cmd) ==> s@ == "Press Enter to relaunch \u{2014} "@ + cmd@)
                && (c.relaunch_cmd is None ==> s@ == "Press Enter to relaunch"@))
            &&& l == LaneContent::Reconnecting ==> (r matches RawLane::Reconnecting(s) && s@
                == lane::retry_label(c.retry_attempt, c.retry_next_s))
            &&& l == LaneContent::Asleep <==> r is Asleep && l != LaneContent::Editor
            &&& l == LaneContent::AltScreen ==> r is AltScreen
            &&& l == LaneContent::Frozen ==> (r matches RawLane::Frozen(s) && (
            c.submit_hold matches Some(h) ==> s@ == h.shown))
            &&& l == LaneContent::Quiet ==> r is Quiet
            &&& l == LaneContent::Label && f.pre_shell && c.is_ssh ==> (r matches RawLane::PreShell(
                a,
            ) && a == prompt::auth_prompt(b.cursor_text()))
            &&& l == LaneContent::Label && !(f.pre_shell && c.is_ssh) ==> (r matches RawLane::Label(
                p,
            ) && (p is Some <==> c.dirty_prompt(f, b)) && (p == Some(ActPreview::Keeps)
                <==> c.dirty_prompt(f, b) && (b.reclaim matches term::Reclaim::Text(t) && t@.len()
                > 0)))
        }),
{
    lemma_newest_open(recs, recs.len() as int);
    let o = strip::newest_open(recs, recs.len() as int);
    if o >= 0 {
        assert(term::open_in(recs));
    } else if term::open_in(recs) {
        let k = choose|k: int| 0 <= k < recs.len() && (#[trigger] recs[k]).end_off is None;
        assert(recs[k].end_off is Some);
    }
}

} // verus!
