//! What the editor's coming and going promises: hooks, inferred prompts,
//! opening, leaving, and the frames in between.

use vstd::prelude::*;

use crate::clock;
use crate::clock::Instant;
use crate::encode;
use crate::encode::EnterAction;
use crate::frame;
use crate::frame::{CopyAction, Frame, SearchKeys};
use crate::gate;
use crate::gate::{ComposerMode, GateInputs, GateVerdict, RawReason};
use crate::model::{Composer, HeurPrompt, RecallSrc, Search};
use crate::prompt;
use crate::search;
use crate::sending::white_from;
use crate::term;
use crate::term::{BlockRec, TermBackend};
use crate::text;

verus! {

// Hooks.

/// The mode in which keys go to the terminal, unless the editor is open.
pub open spec fn unless_open(c: Composer, reason: RawReason) -> ComposerMode {
    if c.mode == ComposerMode::Compose {
        ComposerMode::Compose
    } else {
        ComposerMode::Raw(reason)
    }
}

/// Counters that did not move change nothing. A new prompt hook is a prompt
/// from now on, unspent, whatever else came with it; a new exec hook alone is
/// a command from now on, away from the prompt. Either ends an inferred
/// prompt. Everything else stays.
pub proof fn hooks_move_the_prompt(c: Composer, pre: u64, exec: u64, now: Instant)
    ensures
        ({
            let d = c.streamed(pre, exec, now);
            &&& pre == c.last_pre && exec == c.last_exec ==> d == c
            &&& pre != c.last_pre ==> {
                &&& d.at_prompt_since == Some(now)
                &&& !d.episode_used
                &&& d.busy_since is None
                &&& d.mode == unless_open(c, RawReason::NoPrompt)
            }
            &&& pre == c.last_pre && exec != c.last_exec ==> {
                &&& d.at_prompt_since is None
                &&& d.episode_used == c.episode_used
                &&& d.busy_since == Some(now)
                &&& d.mode == unless_open(c, RawReason::Busy)
            }
            &&& pre != c.last_pre || exec != c.last_exec ==> {
                &&& d.heur is None && !d.heur_episode
                &&& d.last_activity == Some(now)
            }
            &&& d.last_pre == pre && d.last_exec == exec
            &&& d == (Composer {
                at_prompt_since: d.at_prompt_since,
                episode_used: d.episode_used,
                busy_since: d.busy_since,
                mode: d.mode,
                heur: d.heur,
                heur_episode: d.heur_episode,
                last_activity: d.last_activity,
                last_pre: pre,
                last_exec: exec,
                ..c
            })
        }),
{
}

/// Attaching at a prompt makes it a prompt from now on, unspent; an open
/// editor is left as it is.
pub proof fn attaching_finds_a_prompt(c: Composer, now: Instant)
    ensures
        c.mode == ComposerMode::Compose ==> c.attached(now) == c,
        c.mode != ComposerMode::Compose ==> c.attached(now) == (Composer {
            at_prompt_since: Some(now),
            episode_used: false,
            mode: ComposerMode::Raw(RawReason::NoPrompt),
            ..c
        }),
{
}

/// A session that starts over forgets its prompt, its hooks and its holds; one
/// that exits does too, and says whether it sleeps. Both put the queue back
/// into the draft, and both keep all else.
pub proof fn sessions_end_without_a_prompt(c: Composer)
    ensures
        ({
            let f = c.folded();
            let r = c.reset();
            let x = c.exited();
            &&& r.mode == ComposerMode::Raw(RawReason::NoPrompt)
            &&& x.mode == ComposerMode::Raw(
                if c.asleep {
                    RawReason::Asleep
                } else {
                    RawReason::Dead
                },
            )
            &&& r.at_prompt_since is None && x.at_prompt_since is None
            &&& r.last_pre == 0 && r.last_exec == 0 && x.last_pre == 0 && x.last_exec == 0
            &&& r.chord_pre is None && x.chord_pre is None
            &&& !r.want_focus && !r.has_focus && !x.want_focus && !x.has_focus
            &&& r.submit_hold is None && x.submit_hold is None
            &&& r.heur is None && !r.heur_episode && x.heur is None && !x.heur_episode
            &&& !r.episode_used && r.pending_history_cover is None
            &&& x.episode_used == c.episode_used
            &&& x.pending_history_cover == c.pending_history_cover
            &&& r.draft == f.draft && x.draft == f.draft
            &&& r.pending.len() == 0 && x.pending.len() == 0
            &&& r.post_submit is None && x.post_submit is None
            &&& r == (Composer {
                mode: r.mode,
                at_prompt_since: None,
                episode_used: false,
                last_pre: 0,
                last_exec: 0,
                chord_pre: None,
                want_focus: false,
                has_focus: false,
                submit_hold: None,
                pending_history_cover: None,
                heur: None,
                heur_episode: false,
                ..f
            })
            &&& x == (Composer {
                mode: x.mode,
                at_prompt_since: None,
                last_pre: 0,
                last_exec: 0,
                chord_pre: None,
                want_focus: false,
                has_focus: false,
                submit_hold: None,
                heur: None,
                heur_episode: false,
                ..f
            })
        }),
{
}

// Inferred prompts.

/// An inferred prompt stands exactly while nothing was output since, no
/// full-screen or mouse-driven program took over, the grid has its size, and
/// the cursor stands where it stood, shifted by what the scrollback grew.
pub proof fn an_inferred_prompt_stands_still(c: Composer, b: TermBackend, h: HeurPrompt)
    requires
        c.heur == Some(h),
    ensures
        c.heur_stands(b) <==> {
            &&& b.feed_gen == h.feed_gen
            &&& !b.alt() && !b.mouse()
            &&& b.size == h.grid
            &&& b.history_size >= h.history
            &&& b.cursor_line + b.history_size == h.line + h.history
            &&& h.line + h.history >= 0
            &&& b.cursor_col == h.col
        },
{
}

/// Without one none stands.
pub proof fn no_inferred_prompt_stands(c: Composer, b: TermBackend)
    requires
        c.heur is None,
    ensures
        !c.heur_stands(b),
{
}

/// Output came, and the last of it is at least 0.3 seconds old.
pub open spec fn long_quiet(b: TermBackend, now: Instant) -> bool {
    b.last_output_at matches Some(last) && now.nanos >= last.nanos + 300_000_000
}

/// A prompt is inferred exactly where none is, in a running terminal that does
/// not sleep, is not being reconnected and has spoken, on its primary screen
/// with no mouse program, away from a hooked prompt, with a command open that
/// is a nested shell or follows an inferred prompt, once output has been quiet
/// for 0.3 seconds and the cursor's row, on the screen, reads as a prompt. It
/// is where the cursor is; its episode is unspent.
pub proof fn prompts_are_inferred_at_the_cursor(
    c: Composer,
    b: TermBackend,
    recs: Seq<BlockRec>,
    running: bool,
    now: Instant,
)
    requires
        b.last_output_at matches Some(last) ==> last.nanos + 300_000_000 <= u64::MAX,
    ensures
        ({
            let due = {
                &&& c.heur is None
                &&& running && !c.asleep && !c.reconnecting && c.at_prompt_since is None
                &&& b.live() && !b.alt() && !b.mouse()
                &&& b.pre() > 0 || b.exec() > 0
                &&& exists|i: int| 0 <= i < recs.len() && (#[trigger] recs[i]).end_off is None
                &&& c.heur_episode || exists|i: int|
                    0 <= i < recs.len() && (#[trigger] recs[i]).end_off is None
                        && recs[i].nested_shell
                &&& long_quiet(b, now)
                &&& prompt::prompt_shaped(b.cursor_prefix(), b.cursor_gap())
                &&& 0 <= b.cursor_line < b.size.rows
            };
            let d = c.minted(b, recs, running, now);
            &&& !due ==> d == c
            &&& due ==> {
                &&& d.heur matches Some(h) && h.line == b.cursor_line && h.col == b.cursor_col
                    && h.since == now && h.history == b.history_size && h.grid == b.size
                    && h.feed_gen == b.feed_gen
                &&& d.heur_episode && !d.episode_used
                &&& d == (Composer {
                    heur: d.heur,
                    heur_episode: true,
                    episode_used: false,
                    ..c
                })
            }
        }),
{
}

/// A row is covered ahead of an inferred prompt only during such an episode,
/// with the editor open in a running terminal on its primary screen, where the
/// cursor's row reads as a prompt and none stands there yet; and only while no
/// output followed since the cover was laid, which takes it back until the row
/// stops reading as a prompt.
pub proof fn covers_ahead_are_laid_once(c: Composer, b: TermBackend, running: bool)
    ensures
        ({
            let may = {
                &&& c.heur_episode && c.mode == ComposerMode::Compose && running
                &&& b.live() && !b.alt() && !b.mouse()
                &&& !c.heur_stands(b)
                &&& prompt::prompt_shaped(b.cursor_prefix(), b.cursor_gap())
                &&& 0 <= b.cursor_line < b.size.rows
            };
            let d = c.cover_kept(b, running);
            &&& !may ==> d.heur_cover_row is None && d.heur_cover_gen is None
                && !d.heur_cover_revoked
            &&& may && c.heur_cover_revoked ==> d.heur_cover_row is None && d.heur_cover_revoked
            &&& may && !c.heur_cover_revoked && (c.heur_cover_gen matches Some(g) ==> g
                == b.feed_gen) ==> d.heur_cover_row == Some(b.cursor_line) && d.heur_cover_gen
                == Some(b.feed_gen) && !d.heur_cover_revoked
            &&& may && !c.heur_cover_revoked && (c.heur_cover_gen matches Some(g) && g
                != b.feed_gen) ==> d.heur_cover_row is None && d.heur_cover_revoked
            &&& d == (Composer {
                heur_cover_row: d.heur_cover_row,
                heur_cover_gen: d.heur_cover_gen,
                heur_cover_revoked: d.heur_cover_revoked,
                ..c
            })
        }),
{
}

/// An inferred prompt that no longer stands is dropped; once no command runs
/// the whole episode is over.
pub proof fn episodes_end_with_their_command(c: Composer, b: TermBackend, recs: Seq<BlockRec>)
    ensures
        ({
            let open = exists|i: int| 0 <= i < recs.len() && (#[trigger] recs[i]).end_off is None;
            let d = c.heur_checked(b, recs);
            &&& c.heur_episode && !open ==> d.heur is None && !d.heur_episode
            &&& !(c.heur_episode && !open) ==> d.heur_episode == c.heur_episode && (
            c.heur_stands(b) ==> d.heur == c.heur) && (!c.heur_stands(b) ==> d.heur is None)
            &&& d == (Composer { heur: d.heur, heur_episode: d.heur_episode, ..c })
        }),
{
}

// Drafts.

/// Dropped text goes behind the draft, one space between where the draft ends
/// in more than white space, the caret at its end; a walk is over.
pub proof fn dropped_text_goes_behind_the_draft(c: Composer, t: Seq<char>)
    ensures
        ({
            let n = c.draft.len() as int;
            let gap: Seq<char> = if n > 0 && !text::white(c.draft[n - 1]) {
                seq![' ']
            } else {
                seq![]
            };
            c.dropped(t) == (Composer {
                draft: c.draft + gap + encode::normalized(t),
                caret_to_end: true,
                recall: None,
                ..c
            })
        }),
{
    let n = c.draft.len() as int;
    if n > 0 && !text::white(c.draft[n - 1]) {
        assert(c.draft.push(' ') =~= c.draft + seq![' ']);
    } else {
        let none: Seq<char> = seq![];
        assert(c.draft + none =~= c.draft);
    }
}

/// A command from the history is the draft, whole. Another draft that is not
/// empty is set aside, and that of an open search with it; else what was set
/// aside before stays.
pub proof fn an_inserted_command_is_the_draft(c: Composer, cmd: Seq<char>)
    ensures
        ({
            let shown = match c.search {
                Some(s) => s.saved,
                None => c.draft,
            };
            let d = c.inserted(cmd);
            &&& d.draft == cmd
            &&& d.search is None
            &&& d.caret_to_end && d.want_focus
            &&& shown.len() > 0 && shown != cmd ==> d.recall == Some((RecallSrc::History, shown))
            &&& shown.len() == 0 || shown == cmd ==> d.recall == c.recall
            &&& d == (Composer {
                draft: d.draft,
                search: None,
                caret_to_end: true,
                want_focus: true,
                recall: d.recall,
                ..c
            })
        }),
{
}

/// A search starts with an empty draft and its first result, and sets the
/// draft aside; cancelled, it gives the draft back; Enter makes the command
/// the draft. None of them changes anything else, and without a search there
/// is nothing to cancel or to take.
pub proof fn a_search_borrows_the_editor(c: Composer, cmd: Seq<char>)
    ensures
        c.search is None ==> c.search_begun() == (Composer {
            draft: Seq::empty(),
            search: Some(Search { sel: 0, saved: c.draft }),
            caret_to_end: true,
            ..c
        }),
        c.search is None ==> c.search_cancelled() == c && c.search_accepted(cmd) == c
            && c.search_closed() == c,
        c.search matches Some(s) ==> c.search_closed() == (Composer {
            draft: s.saved,
            search: None,
            ..c
        }),
        c.search matches Some(s) ==> c.search_cancelled() == (Composer {
            draft: s.saved,
            search: None,
            caret_to_end: true,
            want_focus: true,
            ..c
        }),
        c.search is Some ==> c.search_accepted(cmd) == c.inserted(cmd),
{
}

/// The keys of an open search: Enter takes the command that is selected once
/// the other keys moved the selection, or closes where there is no such
/// result; Escape closes; and every other key moves the selection alone, first
/// around by Ctrl+R, then by the arrows, stopping at the ends.
pub proof fn a_search_reads_its_keys(c: Composer, recs: Seq<BlockRec>, k: SearchKeys, s: Search)
    requires
        c.search == Some(s),
    ensures
        ({
            let hits = search::capped(search::results(recs, c.draft), 8);
            let n = hits.len() as int;
            let sel = frame::moved(
                frame::cycled(s.sel as int, n, k.cycles as nat),
                n,
                k.up as int - k.down as int,
            ) as usize;
            let moved = Composer { search: Some(Search { sel, saved: s.saved }), ..c };
            let d = c.search_keyed(recs, k);
            &&& k.enters > 0 && sel < n ==> d == moved.inserted(hits[sel as int].cmd)
            &&& k.enters > 0 && sel >= n ==> d == moved.search_cancelled()
            &&& k.enters == 0 && k.escape ==> d == moved.search_cancelled()
            &&& k.enters == 0 && !k.escape ==> d == moved
        }),
{
}

/// An edit in a search selects the first result again; any other ends a walk.
pub proof fn edits_start_over(c: Composer)
    ensures
        c.search matches Some(s) ==> c.edited() == (Composer {
            search: Some(Search { sel: 0, saved: s.saved }),
            ..c
        }),
        c.search is None ==> c.edited() == (Composer { recall: None, ..c }),
{
}

// Opening and leaving.

/// Opening the editor by hand clears the prompt's line exactly where the
/// cursor does not stand at the captured end and no inferred prompt stands,
/// unless that end is at the start of its row or the line was cleared since
/// the last prompt hook. Only then do bytes go out.
pub proof fn opening_clears_a_dirty_line(c: Composer, b: TermBackend)
    ensures
        ({
            let dirty = b.prompt_end() != Some((b.cursor_line, b.cursor_col)) && !c.heur_stands(b);
            let clears = {
                &&& dirty
                &&& b.prompt_end() matches Some(end) ==> end.1 != 0
                &&& c.chord_pre matches Some(n) ==> n != b.pre()
            };
            let d = c.activated(b);
            &&& clears ==> d.chord_pre == Some(b.pre()) && c.activation_bytes(b)
                == encode::line_clear(b, c.is_cmd)
            &&& !clears ==> d.chord_pre == c.chord_pre && c.activation_bytes(b).len() == 0
                && d.draft == c.draft && d.recall == c.recall && d.caret_to_end == c.caret_to_end
            &&& d.mode == ComposerMode::Compose && d.want_focus
            &&& d.episode_used == (c.episode_used || dirty && c.at_prompt_since is Some)
            &&& d == (Composer {
                chord_pre: d.chord_pre,
                draft: d.draft,
                recall: d.recall,
                caret_to_end: d.caret_to_end,
                mode: d.mode,
                want_focus: true,
                episode_used: d.episode_used,
                ..c
            })
        }),
{
}

/// What was typed at a line that is cleared is the draft's last line, where it
/// can be recovered; the draft is otherwise as it was.
pub proof fn cleared_text_comes_into_the_draft(c: Composer, b: TermBackend)
    requires
        c.clears_line(b),
    ensures
        ({
            let d = c.activated(b);
            match b.reclaim {
                term::Reclaim::Text(t) if t@.len() > 0 => {
                    &&& c.draft.len() == 0 ==> d.draft == t@
                    &&& c.draft.len() > 0 ==> d.draft == c.draft + seq!['\n'] + t@
                    &&& d.caret_to_end
                    &&& d.recall is None
                },
                _ => d.draft == c.draft && d.caret_to_end == c.caret_to_end && d.recall == c.recall,
            }
        }),
{
    assert(c.draft.push('\n') =~= c.draft + seq!['\n']);
}

/// The chords: Ctrl+C interrupts, and clears a line for every shell but cmd,
/// where Escape does. A terminal that takes key records gets the record that
/// it was given for the key.
pub proof fn chords_by_shell(b: TermBackend)
    ensures
        !b.win32_input ==> encode::interrupt_chord(b) == seq![3u8] && encode::line_clear(b, false)
            == seq![3u8] && encode::line_clear(b, true) == seq![27u8],
        b.win32_ctrl_c is None ==> encode::interrupt_chord(b) == seq![3u8],
        b.win32_escape is None ==> encode::line_clear(b, true) == seq![27u8],
        b.win32_input ==> (b.win32_ctrl_c matches Some(r) ==> encode::interrupt_chord(b) == r@
            && encode::line_clear(b, false) == r@),
        b.win32_input ==> (b.win32_escape matches Some(r) ==> encode::line_clear(b, true) == r@),
{
}

/// Bytes from the grid spend the prompt's episode and end an inferred prompt.
/// They close an open editor, its queue back in the draft; another one they
/// leave alone.
pub proof fn typing_in_the_grid_spends_the_prompt(c: Composer)
    ensures
        ({
            let d = c.raw_typed();
            let g = Composer {
                episode_used: c.episode_used || c.at_prompt_since is Some,
                heur: None,
                ..c
            };
            &&& c.mode != ComposerMode::Compose ==> d == g
            &&& c.mode == ComposerMode::Compose ==> d == (Composer {
                mode: ComposerMode::Raw(RawReason::UserRaw),
                want_focus: false,
                ..g.folded()
            })
        }),
{
}

/// Leaving the editor closes its search, spends the episode of the prompt that
/// it stood at, hooked or inferred, and puts the queue back into the draft. An
/// editor that was not open only gives the focus up.
pub proof fn leaving_spends_the_prompt(c: Composer)
    ensures
        ({
            let s = match c.search {
                Some(r) => Composer { draft: r.saved, search: None, ..c },
                None => c,
            };
            let d = c.blurred();
            &&& !d.want_focus && !d.has_focus && d.search is None
            &&& c.mode != ComposerMode::Compose ==> d == (Composer {
                want_focus: false,
                has_focus: false,
                ..s
            })
            &&& c.mode == ComposerMode::Compose ==> d == (Composer {
                mode: ComposerMode::Raw(RawReason::UserRaw),
                episode_used: c.episode_used || c.at_prompt_since is Some || c.heur is Some,
                want_focus: false,
                has_focus: false,
                ..s.folded()
            })
        }),
{
    if c.mode == ComposerMode::Compose {
        let s = c.search_closed();
        assert(s.folded().search == s.search || s.search is None);
    }
}

// The arming gate.

/// What the arming gate looks at, by what is known: a prompt is hooked or
/// inferred; a command is open where one runs and no prompt is known; the
/// cursor is clean at the captured end or at an inferred prompt.
pub proof fn the_arming_gate_sees(
    c: Composer,
    b: TermBackend,
    recs: Seq<BlockRec>,
    running: bool,
    now: Instant,
)
    ensures
        ({
            let i = c.inputs(b, recs, running, now);
            let h = c.heur_stands(b);
            let open = exists|k: int| 0 <= k < recs.len() && (#[trigger] recs[k]).end_off is None;
            &&& i.hooked && i.running == running && i.alt == b.alt() && i.mouse == b.mouse()
            &&& i.asleep == c.asleep && i.episode_used == c.episode_used
            &&& i.at_prompt <==> c.at_prompt_since is Some || h
            &&& i.settled <==> c.at_prompt_since is Some || h
            &&& i.open_block <==> open && c.at_prompt_since is None && !h
            &&& i.cursor_clean <==> b.prompt_end() == Some((b.cursor_line, b.cursor_col)) || h
        }),
{
}

/// The reasons by their rank: no hooks, sleep, an exited session, the
/// alternate screen, a running or mouse-driven program, no settled prompt.
pub proof fn reasons_by_rank(i: GateInputs)
    ensures
        ({
            let v = gate::verdict(i);
            &&& !i.hooked ==> v == GateVerdict::Blocked(RawReason::NoPrompt)
            &&& i.hooked && i.asleep ==> v == GateVerdict::Blocked(RawReason::Asleep)
            &&& i.hooked && !i.asleep && !i.running ==> v == GateVerdict::Blocked(RawReason::Dead)
            &&& i.hooked && !i.asleep && i.running && i.alt ==> v == GateVerdict::Blocked(
                RawReason::AltScreen,
            )
            &&& i.hooked && !i.asleep && i.running && !i.alt && (i.open_block || i.mouse) ==> v
                == GateVerdict::Blocked(RawReason::Busy)
            &&& i.hooked && !i.asleep && i.running && !i.alt && !i.open_block && !i.mouse && (
            !i.at_prompt || !i.settled) ==> v == GateVerdict::Blocked(RawReason::NoPrompt)
            &&& i.hooked && !i.asleep && i.running && !i.alt && !i.open_block && !i.mouse
                && i.at_prompt && i.settled ==> v == (if i.cursor_clean && !i.episode_used {
                GateVerdict::AutoArm
            } else {
                GateVerdict::ManualOnly
            })
        }),
{
}

/// The shell has yet to speak exactly in a running terminal on its primary
/// screen that has seen neither hook and holds no prompt.
pub proof fn silent_shells(running: bool, alt: bool, pre: u64, exec: u64, latched: bool)
    ensures
        gate::before_shell(running, alt, pre, exec, latched) <==> !(!running || alt || pre > 0
            || exec > 0 || latched),
{
}

/// A command from the history may be run exactly at a prompt that an open
/// editor stands at, on the primary screen of a running terminal, with nothing
/// queued or in flight, or where the editor would open by itself.
pub proof fn commands_run_at_prompts(
    c: Composer,
    b: TermBackend,
    recs: Seq<BlockRec>,
    running: bool,
    now: Instant,
)
    ensures
        ({
            let h = c.heur_stands(b);
            let prompted = c.at_prompt_since is Some || h;
            let clean = b.prompt_end() == Some((b.cursor_line, b.cursor_col)) || h;
            c.may_run(b, recs, running, now) <==> running && !b.alt() && prompted && ((c.mode
                == ComposerMode::Compose && c.post_submit is None && c.pending.len() == 0) || (
            !b.mouse() && !c.asleep && clean && !c.episode_used))
        }),
{
}

/// A frame without the editor opens it where the arming gate arms, with the
/// focus if the grid had it, and otherwise says why the keys are the
/// terminal's; where it could only be opened by hand, nothing changes.
pub proof fn a_gated_frame(c: Composer, i: GateInputs, grid_focused: bool)
    ensures
        gate::verdict(i) == GateVerdict::AutoArm ==> c.gated(i, grid_focused) == (Composer {
            mode: ComposerMode::Compose,
            want_focus: c.want_focus || grid_focused,
            ..c
        }),
        gate::verdict(i) == GateVerdict::ManualOnly ==> c.gated(i, grid_focused) == c,
        gate::verdict(i) matches GateVerdict::Blocked(r) ==> c.gated(i, grid_focused) == (Composer {
            mode: ComposerMode::Raw(r),
            ..c
        }),
{
}

// Frames of the open editor.

/// The editor has cause to stand where it does.
pub open spec fn has_cause(c: Composer, i: GateInputs) -> bool {
    c.submit_hold is Some || c.post_submit is Some || i.open_block || c.busy_since is Some || (
    i.at_prompt && i.cursor_clean)
}

/// An open editor without cause is given up 0.75 seconds after the cause was
/// first missed; with cause that clock is off.
pub proof fn lost_causes_are_given_up(c: Composer, i: GateInputs, now: Instant)
    ensures
        ({
            let d = c.certainty_checked(i, now);
            &&& has_cause(c, i) ==> d == (Composer { compose_broken_since: None, ..c })
            &&& !has_cause(c, i) && c.compose_broken_since is None ==> d == (Composer {
                compose_broken_since: Some(now),
                ..c
            })
            &&& !has_cause(c, i) ==> (c.compose_broken_since matches Some(t) ==> {
                &&& now.nanos >= t.nanos + 750_000_000 ==> d == c.demoted(now)
                &&& now.nanos < t.nanos + 750_000_000 ==> d == c
            })
        }),
{
}

/// A frame of the open editor looks at the window first. An editor that is
/// still open then is given up for the alternate screen, for sleep, for an
/// exited session, or for a running command that asks for something, in this
/// order; the queue is back in the draft. Otherwise it needs cause to stay.
pub proof fn an_editor_gives_way(
    c: Composer,
    b: TermBackend,
    i: GateInputs,
    running: bool,
    now: Instant,
)
    ensures
        ({
            let s = c.resolved(b, now);
            let d = c.composed(b, i, running, now);
            let open = s.mode == ComposerMode::Compose;
            let asks = !i.at_prompt && (i.open_block || s.busy_since is Some) && prompt::asks(
                b.cursor_text(),
            );
            &&& !open ==> d == s
            &&& open && i.alt ==> d == s.yielded(RawReason::AltScreen)
            &&& open && !i.alt && i.asleep ==> d == s.yielded(RawReason::Asleep)
            &&& open && !i.alt && !i.asleep && !running ==> d == s.yielded(RawReason::Dead)
            &&& open && !i.alt && !i.asleep && running && asks ==> d == (Composer {
                last_activity: Some(now),
                ..s.yielded(RawReason::Busy)
            })
            &&& open && !i.alt && !i.asleep && running && !asks ==> d == s.certainty_checked(
                i,
                now,
            )
        }),
{
}

/// An editor that gives way puts the queue back into the draft and gives the
/// focus up.
pub proof fn giving_way_keeps_the_queue(c: Composer, reason: RawReason)
    ensures
        c.yielded(reason) == (Composer {
            mode: ComposerMode::Raw(reason),
            want_focus: false,
            has_focus: false,
            ..c.folded()
        }),
{
}

/// The alternate screen's clock runs from the frame in which the screen is
/// first seen, and stops with it.
pub proof fn the_screens_clock(c: Composer, alt: bool, now: Instant)
    ensures
        !alt ==> c.alt_clocked(alt, now) == (Composer { alt_since: None, ..c }),
        alt && c.alt_since is None ==> c.alt_clocked(alt, now) == (Composer {
            alt_since: Some(now),
            ..c
        }),
        alt && c.alt_since is Some ==> c.alt_clocked(alt, now) == c,
{
}

/// A frame is read in order: the grid's focus is noted, a search that outlived
/// the editor closes, the inferred prompt is checked and may be made, and its
/// cover kept; then the screen's clock and the hold; then the editor, if it is
/// open, or the arming gate.
pub proof fn a_frame_in_order(
    c: Composer,
    b: TermBackend,
    recs: Seq<BlockRec>,
    running: bool,
    grid_focused: bool,
    now: Instant,
)
    ensures
        ({
            let n = Composer { term_focused: grid_focused, ..c };
            let q = if n.mode == ComposerMode::Compose {
                n
            } else {
                n.search_closed()
            };
            let s = q.heur_checked(b, recs).minted(b, recs, running, now).cover_kept(b, running);
            let i = s.inputs(b, recs, running, now);
            let t = s.alt_clocked(b.alt(), now).hold_checked(b, now);
            let d = c.ticked(b, recs, running, grid_focused, now);
            &&& t.mode == ComposerMode::Compose ==> d == t.composed(b, i, running, now)
            &&& t.mode != ComposerMode::Compose ==> d == (Composer {
                compose_broken_since: None,
                ..t
            }).gated(i, grid_focused)
        }),
{
}

// Enter.

/// What Enter does: it submits where that can be; else it queues while
/// something is in flight or a command runs and the draft has lines enough for
/// the shell; else it breaks a line of a draft; else nothing.
pub proof fn enter_by_the_frame(f: Frame)
    ensures
        ({
            let queues = (f.buffering || f.busy_hold) && !f.cmd_multiline;
            &&& frame::enter_of(f) == EnterAction::Submit <==> f.can_submit
            &&& frame::enter_of(f) == EnterAction::Queue <==> !f.can_submit && queues
            &&& frame::enter_of(f) == EnterAction::InsertNewline <==> !f.can_submit && !queues
                && f.has_draft
            &&& frame::enter_of(f) == EnterAction::Swallow <==> !f.can_submit && !queues
                && !f.has_draft
        }),
{
}

/// Enter is the editor's own only where it breaks a line: neither submitting
/// nor queueing can be, or the queue is full.
pub proof fn enter_is_the_editors_to_break_a_line(c: Composer, f: Frame)
    ensures
        !c.takes_enter(f) <==> f.has_draft && !f.can_submit && (((f.buffering || f.busy_hold)
            && !f.cmd_multiline) ==> c.pending.len() >= 16),
{
}

/// Presses of Enter: a draft that can be submitted is submitted and the state
/// stays; without one each press queues an empty Enter. Where Enter queues, a
/// draft is queued by the first press and the others are empty Enters; a full
/// queue takes nothing.
pub proof fn presses_of_enter(c: Composer, f: Frame, n: nat)
    ensures
        ({
            let d = c.entered(f, n);
            let queues = !f.can_submit && (f.buffering || f.busy_hold) && !f.cmd_multiline;
            &&& n == 0 ==> d == c
            &&& f.can_submit && f.has_draft ==> d == c
            &&& f.can_submit && !f.has_draft ==> d == c.spaced_by(n)
            &&& queues && c.pending.len() >= 16 ==> d == c
            &&& queues && c.pending.len() < 16 && f.has_draft && n > 0 ==> d
                == c.queued().spaced_by((n - 1) as nat)
            &&& queues && c.pending.len() < 16 && !f.has_draft ==> d == c.spaced_by(n)
            &&& !f.can_submit && !queues ==> d == c
            &&& Composer::enter_submits(f, n) <==> n >= 1 && f.can_submit && f.has_draft
        }),
{
}

/// Empty Enters queue one by one.
pub proof fn empty_enters_one_by_one(c: Composer, n: nat)
    ensures
        c.spaced_by(0) == c,
        c.spaced_by(1) == c.spaced(),
        c.spaced_by(n + 1) == c.spaced_by(n).spaced(),
{
    assert(c.spaced_by(1) == c.spaced_by(0).spaced());
}

/// Ctrl+C copies a selection of the grid, else one of the editor; with neither
/// it interrupts a running terminal away from every prompt and outside a
/// search, and is the editor's everywhere else.
pub proof fn ctrl_c_by_what_is_selected(
    c: Composer,
    grid_selection: bool,
    editor_selection: bool,
    heur_armed: bool,
    running: bool,
)
    ensures
        ({
            let a = c.copies(grid_selection, editor_selection, heur_armed, running);
            let interrupts = running && c.at_prompt_since is None && !heur_armed && c.search
                is None;
            &&& grid_selection ==> a == CopyAction::Grid
            &&& !grid_selection && editor_selection ==> a == CopyAction::Editor
            &&& !grid_selection && !editor_selection && interrupts ==> a == CopyAction::Interrupt
            &&& !grid_selection && !editor_selection && !interrupts ==> a == CopyAction::Editor
        }),
{
}

/// An interrupt empties the queue and closes the window, and nothing else but
/// the time of the last activity changes.
pub proof fn an_interrupt_empties_the_queue(c: Composer, now: Instant)
    ensures
        c.interrupted(now) == (Composer {
            pending: Seq::empty(),
            post_submit: None,
            last_activity: Some(now),
            ..c
        }),
{
}

/// What may be done in a frame, from the state and the terminal.
pub proof fn the_facts_of_a_frame(
    c: Composer,
    b: TermBackend,
    recs: Seq<BlockRec>,
    epoch: u32,
    running: bool,
    now: Instant,
)
    ensures
        ({
            let f = c.facts(b, recs, epoch, running, now);
            let h = c.heur_stands(b);
            let prompted = c.at_prompt_since is Some || h;
            let some_open = exists|k: int|
                0 <= k < recs.len() && (#[trigger] recs[k]).end_off is None;
            let busy = some_open && !prompted;
            let silent = running && !b.alt() && b.pre() == 0 && b.exec() == 0 && c.at_prompt_since
                is None;
            let lines = (c.is_cmd || c.heur_episode) && c.draft.contains('\n');
            let open = c.mode == ComposerMode::Compose;
            &&& f.asleep_lane <==> c.mode == ComposerMode::Raw(RawReason::Asleep) || (c.asleep
                && !running)
            &&& f.recon_lane <==> c.reconnecting && !f.asleep_lane && !open
            &&& f.dead_lane <==> !running && !f.asleep_lane && !f.recon_lane && !open
            &&& f.has_draft <==> !white_from(c.draft, 0)
            &&& f.buffering <==> c.post_submit is Some || c.pending.len() > 0
            &&& f.cmd_multiline <==> lines
            &&& f.can_submit <==> running && !b.alt() && prompted && c.post_submit is None
                && c.pending.len() == 0 && !lines
            &&& f.busy_hold <==> running && !b.alt() && !prompted && (some_open || c.busy_since
                is Some)
            &&& f.pre_shell <==> silent
            &&& f.arm_available <==> running && !b.alt() && !b.mouse() && !busy && !silent && (
            prompted || (recs.len() > 0 && !some_open && recs[recs.len() - 1].epoch == epoch))
            &&& f.heur_armed <==> c.heur_episode && h
        }),
{
}

// Waking.

/// The earlier of two wakeups is one of them, and no later than either.
pub proof fn the_earlier_wakeup(a: Option<Instant>, b: Option<Instant>)
    ensures
        ({
            let r = clock::earliest(a, b);
            &&& r == a || r == b
            &&& r is None <==> a is None && b is None
            &&& r matches Some(t) ==> (a matches Some(x) ==> t.nanos <= x.nanos) && (b matches Some(
                y,
            ) ==> t.nanos <= y.nanos)
        }),
{
}

/// The state asks to be looked at again by the first of these that lies ahead:
/// the hold's end, 1.5 seconds after it began; the window's, 0.3 seconds after
/// it opened, or one second at an inferred prompt; and, while the editor is
/// open, that of its doubt, after 0.75 seconds. It asks for nothing else.
pub proof fn the_state_wakes_for_its_clocks(c: Composer, now: Instant)
    requires
        c.submit_hold matches Some(h) ==> h.since.nanos + 1_500_000_000 <= u64::MAX,
        c.post_submit matches Some(w) ==> w.since.nanos + 1_000_000_000 <= u64::MAX,
        c.compose_broken_since matches Some(t) ==> t.nanos + 750_000_000 <= u64::MAX,
        c.at_prompt_since matches Some(t) ==> t.nanos <= now.nanos,
    ensures
        ({
            let w = c.wakeup(now);
            &&& c.submit_hold matches Some(h) ==> (now.nanos < h.since.nanos + 1_500_000_000 ==> (
            w matches Some(t) && t.nanos <= h.since.nanos + 1_500_000_000))
            &&& c.post_submit matches Some(s) ==> {
                let end = s.since.nanos + if s.heur {
                    1_000_000_000int
                } else {
                    300_000_000int
                };
                now.nanos < end ==> (w matches Some(t) && t.nanos <= end)
            }
            &&& c.mode == ComposerMode::Compose ==> (c.compose_broken_since matches Some(s) ==> (
            now.nanos < s.nanos + 750_000_000 ==> (w matches Some(t) && t.nanos <= s.nanos
                + 750_000_000)))
            &&& w matches Some(t) ==> now.nanos < t.nanos && {
                ||| c.submit_hold matches Some(h) && t.nanos == h.since.nanos + 1_500_000_000
                ||| c.post_submit matches Some(s) && t.nanos == s.since.nanos + if s.heur {
                    1_000_000_000int
                } else {
                    300_000_000int
                }
                ||| c.mode == ComposerMode::Compose && (c.compose_broken_since matches Some(s)
                    && t.nanos == s.nanos + 750_000_000)
            }
        }),
{
}

/// A frame also asks to be followed by the one in which output will have been
/// quiet for long enough to infer a prompt.
pub proof fn a_frame_wakes_for_the_quiet(
    c: Composer,
    b: TermBackend,
    recs: Seq<BlockRec>,
    running: bool,
    grid_focused: bool,
    now: Instant,
)
    ensures
        ({
            let q = (if c.mode == ComposerMode::Compose {
                c
            } else {
                c.search_closed()
            }).heur_checked(b, recs);
            let w = c.tick_wake(b, recs, running, grid_focused, now);
            &&& q.heur is None && q.may_infer(b, recs, running) ==> (b.last_output_at matches Some(
                last,
            ) ==> (last.nanos + 300_000_000 <= u64::MAX && now.nanos < last.nanos + 300_000_000
                ==> (w matches Some(t) && t.nanos <= last.nanos + 300_000_000)))
            &&& c.ticked(b, recs, running, grid_focused, now).wakeup(now) matches Some(x) ==> (
            w matches Some(t) && t.nanos <= x.nanos)
            &&& w == c.ticked(b, recs, running, grid_focused, now).wakeup(now) || w
                == q.quiet_until(b, recs, running, now)
        }),
{
}

} // verus!
