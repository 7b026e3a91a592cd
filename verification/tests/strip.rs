//! The strip of one frame: what may be done in it, what it says, and what its
//! keys and clicks do.

use std::collections::VecDeque;

use composer::clock::Instant;
use composer::encode::{clear_chord, line_clear_chord};
use composer::frame::{
    caret_byte_of, caret_line, frame_facts, CopyAction, Frame, SearchKeys,
};
use composer::gate::{ComposerMode, RawReason};
use composer::model::{SubmitWindow, HIDE_AFTER, PENDING_CAP, REVEAL};
use composer::play::{EditorDid, Press};
use composer::prompt::AuthPrompt;
use composer::state::ComposerState;
use composer::strip::{
    busy_chip_text, chip_cwd, hide_wake, newest_open_rec, peeks, pre_shell_words,
    raw_label_words, raw_lane, run_slot, strip_band, strip_points, Band, ComposeClick, FocusMove,
    RawClick, RawLane, RunSlot, Spot,
};
use composer::lane::{activation_preview, ActPreview};
use composer::term::{BlockFeed, BlockRec, GridRow, GridSize, Reclaim, TermBackend, ALT_SCREEN};

const T0: Instant = Instant { nanos: 1_000_000_000_000 };
const MS: u64 = 1_000_000;

fn rec(cmd: &str, closed: bool) -> BlockRec {
    BlockRec {
        epoch: 1,
        n: 0,
        cmd: cmd.into(),
        cwd: None,
        exit: None,
        started_ms: 0,
        ended_ms: None,
        start_off: 0,
        end_off: if closed { Some(1) } else { None },
        truncated: false,
        nested_shell: cmd == "bash",
    }
}

/// A terminal whose row shows `row`, with the prompt's end at column 3.
fn shows(row: &str) -> TermBackend {
    TermBackend {
        size: GridSize { cols: 40, rows: 6 },
        mode: 0,
        feed_gen: 1,
        history_size: 0,
        cursor_line: 0,
        cursor_col: row.chars().count(),
        block_feed: Some(BlockFeed {
            pre_seen: 1,
            exec_seen: 0,
            prompt_end: Some((0, 3)),
            prompt_end_pending: false,
            live: true,
        }),
        last_output_at: Some(T0),
        incoming_prompt_row: None,
        reclaim: Reclaim::Text(row.chars().skip(3).collect()),
        rows: vec![GridRow { line: 0, cells: row.chars().collect() }],
        win32_input: false,
        win32_ctrl_c: None,
        win32_escape: None,
    }
}

fn composing() -> ComposerState {
    let mut st = ComposerState::default();
    st.on_stream_events(1, 0, T0);
    st.mode = ComposerMode::Compose;
    st.last_activity = None;
    st
}

fn facts(st: &ComposerState, b: &TermBackend, recs: &[BlockRec]) -> Frame {
    frame_facts(st, b, recs, 1, true, T0)
}

#[test]
fn a_frame_knows_what_may_be_done() {
    let b = shows("C:>");
    let mut st = composing();
    let f = facts(&st, &b, &[]);
    assert!(f.can_submit && f.arm_available && !f.has_draft && !f.busy_hold && !f.pre_shell);
    // A command runs: Enter queues.
    st.on_stream_events(1, 1, T0);
    let f = facts(&st, &b, &[]);
    assert!(!f.can_submit && f.busy_hold);
    // cmd takes one line.
    let mut st = composing();
    st.is_cmd = true;
    st.draft = "a\nb".into();
    let f = facts(&st, &b, &[]);
    assert!(f.cmd_multiline && !f.can_submit);
    // A dead session.
    let mut st = ComposerState::default();
    st.on_exited();
    let f = frame_facts(&st, &b, &[], 1, false, T0);
    assert!(f.dead_lane && !f.asleep_lane && !f.arm_available);
}

#[test]
fn the_editor_is_offered_once_the_shell_has_spoken() {
    let mut b = shows("login:");
    b.block_feed = None;
    let st = ComposerState::default();
    let f = frame_facts(&st, &b, &[rec("ls", true)], 1, true, T0);
    assert!(f.pre_shell && !f.arm_available);
    // A record of this lifetime proves a prompt; an older one does not.
    let mut b = shows("C:>");
    b.block_feed.as_mut().unwrap().pre_seen = 1;
    assert!(frame_facts(&st, &b, &[rec("ls", true)], 1, true, T0).arm_available);
    assert!(!frame_facts(&st, &b, &[rec("ls", true)], 2, true, T0).arm_available);
    assert!(!frame_facts(&st, &b, &[], 1, true, T0).arm_available);
}

#[test]
fn carets_have_lines_and_bytes() {
    assert_eq!(caret_line("a\nb\nc", Some(0)), (0, 2));
    assert_eq!(caret_line("a\nb\nc", Some(2)), (1, 2));
    assert_eq!(caret_line("a\nb\nc", Some(99)), (2, 2));
    assert_eq!(caret_line("a\nb\nc", None), (0, 2));
    assert_eq!(caret_line("", Some(0)), (0, 0));
    assert_eq!(caret_byte_of("\u{e9}a", Some(0)), 0);
    assert_eq!(caret_byte_of("\u{e9}a", Some(1)), 2);
    assert_eq!(caret_byte_of("\u{e9}a", Some(9)), 3);
    assert_eq!(caret_byte_of("\u{e9}a", None), 3);
}

#[test]
fn enters_submit_queue_or_break_the_line() {
    let b = shows("C:>");
    // At a prompt a draft is submitted, once.
    let mut st = composing();
    st.draft = "ls".into();
    let f = facts(&st, &b, &[]);
    assert!(st.enter_is_taken(&f));
    assert!(st.take_enters(&f, 3));
    assert!(st.pending.is_empty());
    // Without one they space.
    let mut st = composing();
    let f = facts(&st, &b, &[]);
    assert!(!st.take_enters(&f, 2));
    assert_eq!(st.pending.len(), 2);
    // In a window the draft is queued, and the rest space.
    let mut st = composing();
    st.post_submit = Some(SubmitWindow { pre0: 1, since: T0, heur: false });
    st.draft = "next".into();
    let f = facts(&st, &b, &[]);
    assert!(!st.take_enters(&f, 2));
    assert_eq!(st.pending, ["next", ""]);
    assert!(st.draft.is_empty());
    // A full queue leaves Enter to a draft, and takes it from none.
    let mut st = composing();
    st.pending = (0..PENDING_CAP).map(|i| format!("c{i}")).collect::<VecDeque<_>>();
    st.draft = "more".into();
    let f = facts(&st, &b, &[]);
    assert!(!st.enter_is_taken(&f));
    st.draft.clear();
    let f = facts(&st, &b, &[]);
    assert!(st.enter_is_taken(&f));
    assert!(!st.take_enters(&f, 1));
    assert_eq!(st.pending.len(), PENDING_CAP);
    // No prompt and nothing runs: a draft breaks its line, none is swallowed.
    let mut st = ComposerState { mode: ComposerMode::Compose, ..Default::default() };
    st.draft = "x".into();
    let f = facts(&st, &b, &[]);
    assert!(!st.enter_is_taken(&f));
    st.draft.clear();
    let f = facts(&st, &b, &[]);
    assert!(st.enter_is_taken(&f));
}

#[test]
fn the_queue_keeps_its_bounds() {
    let b = shows("C:>");
    let mut st = composing();
    st.post_submit = Some(SubmitWindow { pre0: 1, since: T0, heur: false });
    for i in 0..40 {
        st.draft = format!("c{i}");
        let f = facts(&st, &b, &[]);
        if st.enter_is_taken(&f) {
            st.take_enters(&f, 5);
        }
        assert!(st.pending.len() <= PENDING_CAP);
        let tail = st.pending.iter().rev().take_while(|t| t.is_empty()).count();
        assert!(tail <= 3);
    }
    assert_eq!(st.pending.len(), PENDING_CAP);
    // Folding it back loses no text.
    let texts: Vec<String> = st.pending.iter().filter(|t| !t.is_empty()).cloned().collect();
    st.draft = "last".into();
    st.fold_pending_into_draft();
    assert_eq!(st.draft, format!("{}\nlast", texts.join("\n")));
    assert!(!st.buffering());
}

#[test]
fn ctrl_c_copies_or_interrupts() {
    let b = shows("building");
    let mut st = composing();
    st.on_stream_events(1, 1, T0);
    st.pending.push_back("next".into());
    st.draft = "typed".into();
    assert_eq!(st.copy_action(true, false, false, true), CopyAction::Grid);
    assert_eq!(st.copy_action(false, true, false, true), CopyAction::Editor);
    assert_eq!(st.copy_action(false, false, true, true), CopyAction::Editor);
    assert_eq!(st.copy_action(false, false, false, true), CopyAction::Interrupt);
    assert_eq!(st.interrupt(&b, T0), vec![0x03]);
    assert!(!st.buffering());
    assert_eq!(st.draft, "typed");
    // Never at a prompt, nor in a search.
    assert_eq!(composing().copy_action(false, false, false, true), CopyAction::Editor);
    st.search_begin();
    assert_eq!(st.copy_action(false, false, false, true), CopyAction::Editor);
}

#[test]
fn chords_follow_the_terminal() {
    let mut b = shows("C:>x");
    assert_eq!(clear_chord(&b), vec![0x03]);
    assert_eq!(line_clear_chord(&b, true), vec![0x1b]);
    assert_eq!(line_clear_chord(&b, false), vec![0x03]);
    b.win32_input = true;
    b.win32_ctrl_c = Some(vec![1]);
    b.win32_escape = Some(vec![2]);
    assert_eq!(clear_chord(&b), vec![1]);
    assert_eq!(line_clear_chord(&b, true), vec![2]);
    assert_eq!(line_clear_chord(&b, false), vec![1]);
    // Without a record it is the plain byte.
    b.win32_ctrl_c = None;
    assert_eq!(clear_chord(&b), vec![0x03]);
}

#[test]
fn the_hint_slot_says_one_thing() {
    let b = shows("C:>");
    let now = T0.after(REVEAL);
    let mut st = composing();
    st.has_focus = true;
    let hint = |st: &ComposerState| st.hint_text(&frame_facts(st, &b, &[], 1, true, now), &st.editor_shown(), now);
    assert_eq!(hint(&st).as_deref(), Some("Shift+Enter \u{2014} new line"));
    st.draft = "x".into();
    assert_eq!(hint(&st), None);
    st.is_cmd = true;
    st.draft = "x\ny".into();
    assert_eq!(hint(&st).as_deref(), Some("cmd runs one line at a time"));
    st.is_cmd = false;
    st.heur_episode = true;
    assert_eq!(hint(&st).as_deref(), Some("one line at a time in this shell"));
    st.heur_episode = false;
    st.search_begin();
    assert_eq!(
        hint(&st).as_deref(),
        Some("Enter inserts \u{b7} Esc restores \u{b7} Ctrl+R next")
    );
    assert_eq!(st.placeholder_text(), "search history\u{2026}");
    // A running command has the slot, once it is not young.
    let mut st = composing();
    st.on_stream_events(1, 1, T0);
    let f = frame_facts(&st, &b, &[], 1, true, now);
    assert!(st.busy_chip_due(&f, &st.editor_shown(), now));
    assert!(!st.busy_chip_due(&f, &st.editor_shown(), T0.after(REVEAL - 1)));
    assert_eq!(st.hint_text(&f, &st.editor_shown(), now), None);
    assert_eq!(st.placeholder_text(), "Type a command\u{2026}");
    assert_eq!(
        busy_chip_text(Some(("make", "3s"))),
        "make \u{b7} 3s \u{2014} Enter queues"
    );
    assert_eq!(busy_chip_text(None), "running \u{2014} Enter queues");
    // No prompt and nothing runs.
    let st = ComposerState { mode: ComposerMode::Compose, ..Default::default() };
    assert_eq!(hint(&st).as_deref(), Some("waiting for prompt\u{2026}"));
}

#[test]
fn a_submitted_text_stays_in_the_lane() {
    let b = shows("C:>");
    let mut st = composing();
    st.draft = "echo a\necho b".into();
    let _ = st.submit(&b, Some(0), None, T0);
    assert_eq!(st.lane_ghost().as_deref(), Some("echo a"));
    assert_eq!(st.placeholder_text(), "");
    st.draft = "x".into();
    assert_eq!(st.lane_ghost(), None);
}

#[test]
fn suggestions_stand_back() {
    let recs = [rec("git status", true)];
    let mut st = composing();
    st.draft = "git s".into();
    assert_eq!(st.ghost_shown(&recs, None).as_deref(), Some("tatus"));
    st.recall_prev(&recs);
    assert_eq!(st.ghost_shown(&recs, None), None);
    st.on_edit();
    st.draft = "git s".into();
    assert_eq!(st.ghost_shown(&recs, None).as_deref(), Some("tatus"));
    st.search_begin();
    st.draft = "git s".into();
    assert_eq!(st.ghost_shown(&recs, None), None);
}

#[test]
fn the_focus_is_settled() {
    let mut st = composing();
    st.want_focus = true;
    assert_eq!(st.move_focus(false, false, false, false), FocusMove::Request);
    // The grab did not land: it goes on asking.
    st.confirm_focus(false);
    assert!(st.want_focus);
    // It is asked for and granted in one frame.
    assert_eq!(st.move_focus(false, false, false, false), FocusMove::Request);
    st.confirm_focus(true);
    assert!(!st.want_focus);
    assert_eq!(st.move_focus(false, false, false, true), FocusMove::Keep);
    assert_eq!(st.move_focus(false, false, true, false), FocusMove::Keep);
    assert_eq!(st.move_focus(true, true, false, false), FocusMove::Blurred);
    assert_eq!(st.mode, ComposerMode::Raw(RawReason::UserRaw));
}

#[test]
fn clicks_on_an_open_editor() {
    let b = shows("C:>");
    let click = |st: &mut ComposerState, spot| {
        let f = facts(st, &b, &[]);
        st.click_compose(spot, &f, true, &b, Some(0), None, T0)
    };
    let mut st = composing();
    st.draft = "ls".into();
    let (c, bytes) = click(&mut st, Spot::Run);
    assert_eq!((c, bytes.as_slice()), (ComposeClick::Submit, b"ls\r".as_ref()));
    // In the window it queues.
    st.draft = "next".into();
    let (c, bytes) = click(&mut st, Spot::Run);
    assert_eq!((c, bytes.len()), (ComposeClick::Queue, 0));
    assert_eq!(st.pending, ["next"]);
    // Without a draft there is nothing to run.
    assert_eq!(click(&mut st, Spot::Run).0, ComposeClick::Nothing);
    // In a search it closes the search.
    let mut st = composing();
    st.draft = "kept".into();
    st.search_begin();
    st.draft = "query".into();
    assert_eq!(click(&mut st, Spot::Run).0, ComposeClick::CloseSearch);
    assert_eq!(st.draft, "kept");
    assert_eq!(click(&mut st, Spot::History).0, ComposeClick::History);
    assert_eq!(click(&mut st, Spot::Elsewhere).0, ComposeClick::Nothing);
    assert_eq!(click(&mut st, Spot::Keyboard).0, ComposeClick::Blur);
    assert_eq!(st.mode, ComposerMode::Raw(RawReason::UserRaw));
}

#[test]
fn clicks_while_the_terminal_has_the_keys() {
    let dirty = shows("C:>junk");
    let mut st = ComposerState::default();
    st.on_stream_events(1, 0, T0);
    let f = facts(&st, &dirty, &[]);
    let (c, bytes) = st.click_raw(Spot::Elsewhere, &f, &dirty);
    assert_eq!((c, bytes), (RawClick::Activate, vec![0x03]));
    assert_eq!(st.draft, "junk");
    assert_eq!(st.mode, ComposerMode::Compose);
    // Each lane has its verb.
    let b = shows("C:>");
    let lane = |asleep, recon, dead| Frame {
        asleep_lane: asleep,
        recon_lane: recon,
        dead_lane: dead,
        arm_available: false,
        ..facts(&ComposerState::default(), &b, &[])
    };
    let mut st = ComposerState::default();
    assert_eq!(st.click_raw(Spot::Run, &lane(true, false, false), &b).0, RawClick::Wake);
    assert_eq!(st.click_raw(Spot::Run, &lane(false, true, false), &b).0, RawClick::CancelReconnect);
    assert_eq!(st.click_raw(Spot::Elsewhere, &lane(false, false, true), &b).0, RawClick::Restore);
    assert_eq!(st.click_raw(Spot::Retry, &lane(false, false, true), &b).0, RawClick::Restore);
    st.is_ssh = true;
    let retry = st.click_raw(Spot::Retry, &lane(false, false, true), &b).0;
    assert_eq!(retry, RawClick::RetryReconnect);
    assert_eq!(st.click_raw(Spot::Elsewhere, &lane(true, false, false), &b).0, RawClick::Nothing);
    // History is always there, but under a full-screen program.
    let f = lane(false, false, false);
    assert_eq!(st.click_raw(Spot::History, &f, &b).0, RawClick::ToggleHistory);
    let mut full = shows("C:>");
    full.mode = ALT_SCREEN;
    assert_eq!(st.click_raw(Spot::History, &f, &full).0, RawClick::Nothing);
}

#[test]
fn a_collapsed_strip_takes_nothing() {
    assert!(peeks(true, true));
    assert!(!peeks(true, false) && !peeks(false, true));
    let open = Band { interactive: true, history_button: true, peek: false, revealed: true };
    assert_eq!(strip_band(false, false), open);
    assert_eq!(strip_band(false, true), open);
    let over = Band { interactive: false, history_button: false, peek: true, revealed: true };
    assert_eq!(strip_band(true, true), over);
    assert_eq!(strip_band(true, false), Band { peek: false, revealed: false, ..over });
    let b = shows("C:>");
    let mut st = ComposerState { term_focused: true, ..Default::default() };
    let dead = Frame { dead_lane: true, ..facts(&st, &b, &[]) };
    assert_eq!(st.click_strip(true, Spot::Run, &dead, &b), (RawClick::Nothing, Vec::new()));
    assert_eq!(st.click_strip(false, Spot::Run, &dead, &b), (RawClick::Restore, Vec::new()));
    assert!(st.enter_relaunches(false, &dead, false, 3));
    assert!(!st.enter_relaunches(true, &dead, false, 3));
    assert!(!st.enter_relaunches(false, &dead, false, 0));
    assert!(!st.enter_relaunches(false, &dead, true, 1));
}

#[test]
fn the_run_slot_has_one_verb() {
    let b = shows("C:>");
    let mut st = composing();
    assert_eq!(run_slot(true, &facts(&st, &b, &[])), RunSlot::Run(false));
    st.draft = "x".into();
    let f = facts(&st, &b, &[]);
    assert_eq!(run_slot(true, &f), RunSlot::Run(true));
    assert_eq!(run_slot(false, &f), RunSlot::Run(false));
    let dead = Frame { dead_lane: true, arm_available: false, ..f };
    assert_eq!(run_slot(false, &dead), RunSlot::Restore);
    assert!(strip_points(&dead, false, false));
    assert!(!strip_points(&dead, false, true));
    let asleep = Frame { asleep_lane: true, ..dead };
    assert_eq!(run_slot(false, &asleep), RunSlot::Wake);
    let recon = Frame { recon_lane: true, ..dead };
    assert_eq!(run_slot(false, &recon), RunSlot::Cancel);
}

#[test]
fn the_raw_lane_tells_what_has_the_keys() {
    let b = shows("C:>");
    let late = T0.after(10_000 * MS);
    let lane = |st: &ComposerState, b: &TermBackend, recs: &[BlockRec], running| {
        let f = frame_facts(st, b, recs, 1, running, late);
        raw_lane(st, &f, b, recs, running, late)
    };
    let mut st = ComposerState::default();
    st.on_exited();
    st.relaunch_cmd = Some("ssh box".into());
    assert!(matches!(
        lane(&st, &b, &[], false),
        RawLane::SessionEnded(s) if s == "Press Enter to relaunch \u{2014} ssh box"
    ));
    st.reconnecting = true;
    assert!(matches!(
        lane(&st, &b, &[], false),
        RawLane::Reconnecting(s) if s == "reconnecting\u{2026}"
    ));
    // A command, and a nested shell.
    let mut st = ComposerState::default();
    st.on_stream_events(1, 1, T0);
    st.mode = ComposerMode::Raw(RawReason::Busy);
    st.at_prompt_since = None;
    st.busy_since = Some(T0);
    let recs = [rec("ls", true), rec("make", false)];
    assert_eq!(newest_open_rec(&recs), Some(1));
    assert!(matches!(lane(&st, &b, &recs, true), RawLane::Busy(1)));
    assert!(matches!(lane(&st, &b, &[rec("bash", false)], true), RawLane::Nested(0)));
    let asks = shows("[sudo] password for z:");
    assert!(matches!(lane(&st, &asks, &[rec("bash", false)], true), RawLane::NestedPassword));
    // Before the shell of an ssh session.
    let mut pre = shows("z@box's password:");
    pre.block_feed = None;
    let st = ComposerState { is_ssh: true, ..Default::default() };
    assert!(matches!(
        lane(&st, &pre, &[], true),
        RawLane::PreShell(AuthPrompt::Password)
    ));
    // Text at the prompt.
    let mut st = ComposerState::default();
    st.on_stream_events(1, 0, T0);
    st.mode = ComposerMode::Raw(RawReason::UserRaw);
    assert!(matches!(lane(&st, &b, &[], true), RawLane::Label(None)));
    let dirty = shows("C:>junk");
    assert!(matches!(lane(&st, &dirty, &[], true), RawLane::Label(Some(ActPreview::Keeps))));
}

#[test]
fn labels_have_their_words() {
    assert_eq!(
        pre_shell_words(AuthPrompt::Password),
        "password \u{2014} keys go straight to ssh, never shown or stored"
    );
    assert_eq!(
        pre_shell_words(AuthPrompt::HostKey),
        "host key check \u{2014} answer yes or no"
    );
    assert_eq!(
        pre_shell_words(AuthPrompt::Neither),
        "ssh is asking \u{2014} type your answer in the terminal"
    );
    assert_eq!(raw_label_words(None), "Typing goes to the terminal");
    assert_eq!(
        raw_label_words(Some(ActPreview::Keeps)),
        "Typed text at the prompt \u{2014} Compose keeps it"
    );
    assert_eq!(
        raw_label_words(Some(ActPreview::Clears)),
        "Typed text at the prompt \u{2014} Compose clears it"
    );
    let mut b = shows("C:>junk");
    assert_eq!(activation_preview(&b), ActPreview::Keeps);
    b.reclaim = Reclaim::MultiLine;
    assert_eq!(activation_preview(&b), ActPreview::Clears);
}

#[test]
fn chips_name_the_shell_that_answers() {
    let b = shows("root@box:/etc#");
    let mut st = composing();
    let f = facts(&st, &b, &[]);
    assert_eq!(chip_cwd(&st, &f, &b, Some("C:\\p")).as_deref(), Some("C:\\p"));
    st.heur_episode = true;
    assert_eq!(chip_cwd(&st, &f, &b, Some("C:\\p")), None);
    let armed = Frame { heur_armed: true, ..f };
    assert_eq!(chip_cwd(&st, &armed, &b, Some("C:\\p")).as_deref(), Some("/etc"));
}

#[test]
fn the_collapse_is_waited_for() {
    let st = ComposerState { alt_since: Some(T0), ..Default::default() };
    assert_eq!(hide_wake(&st, true, false, T0), Some(HIDE_AFTER));
    assert_eq!(hide_wake(&st, true, false, T0.after(HIDE_AFTER)), None);
    assert_eq!(hide_wake(&st, true, true, T0), None);
    assert_eq!(hide_wake(&st, false, false, T0), None);
}

#[test]
fn search_keys_move_and_take() {
    let recs = [rec("git status", true), rec("git push", true), rec("ls", true)];
    let mut st = composing();
    st.search_begin();
    st.draft = "git".into();
    let keys = SearchKeys { cycles: 0, up: 0, down: 0, enters: 0, escape: false };
    st.search_keys(&recs, &SearchKeys { cycles: 3, ..keys });
    assert_eq!(st.search.as_ref().unwrap().sel, 1);
    st.search_keys(&recs, &SearchKeys { down: 5, ..keys });
    assert_eq!(st.search.as_ref().unwrap().sel, 0);
    st.search_keys(&recs, &SearchKeys { up: 9, enters: 1, ..keys });
    assert!(!st.search_active());
    assert_eq!(st.draft, "git status");
    // Without a match Enter closes.
    st.search_begin();
    st.draft = "zzz".into();
    st.search_keys(&recs, &SearchKeys { enters: 1, ..keys });
    assert!(!st.search_active());
    assert_eq!(st.draft, "git status");
}

fn no_keys() -> Press {
    Press {
        overlay_open: false,
        ctrl_r: 0,
        up: 0,
        down: 0,
        right: 0,
        enters: 0,
        escape: false,
        copy: false,
        grid_selection: false,
        editor_selection: false,
        caret: None,
    }
}

#[test]
fn arrows_walk_at_the_edges_of_the_draft() {
    let b = shows("C:>");
    let recs = [rec("one", true), rec("two", true)];
    let mut st = composing();
    st.has_focus = true;
    st.draft = "a\nb".into();
    let f = facts(&st, &b, &recs);
    // On the last line up is the editor's.
    st.press(&b, &recs, &f, true, &Press { up: 1, caret: Some(3), ..no_keys() }, None, T0);
    assert_eq!(st.draft, "a\nb");
    st.press(&b, &recs, &f, true, &Press { up: 1, caret: Some(0), ..no_keys() }, None, T0);
    assert_eq!(st.draft, "two");
    st.press(&b, &recs, &f, true, &Press { up: 1, caret: Some(0), ..no_keys() }, None, T0);
    assert_eq!(st.draft, "one");
    st.press(&b, &recs, &f, true, &Press { down: 1, caret: Some(3), ..no_keys() }, None, T0);
    st.press(&b, &recs, &f, true, &Press { down: 1, caret: Some(3), ..no_keys() }, None, T0);
    assert_eq!(st.draft, "a\nb");
    // While something floats over the card, no key is read.
    let over = Press { up: 1, enters: 1, ctrl_r: 1, overlay_open: true, ..no_keys() };
    let r = st.press(&b, &recs, &f, true, &over, None, T0);
    assert_eq!(st.draft, "a\nb");
    assert!(!r.submit && !r.took_enter && !st.search_active());
}

#[test]
fn a_walk_gives_the_draft_back() {
    let recs = [rec("a", true), rec("b", true), rec("c", true), rec("b", true)];
    for back in 0..6 {
        let mut st = composing();
        st.draft = "b".into();
        for _ in 0..back {
            st.recall_prev(&recs);
        }
        // A record like the draft is skipped on the way back alone.
        let shown = ["b", "c", "b", "a", "a", "a"];
        assert_eq!(st.draft, shown[back]);
        for _ in 0..recs.len() {
            st.recall_next(&recs);
        }
        assert_eq!(st.draft, "b", "{back} back");
        assert!(st.recall.is_none());
    }
}

#[test]
fn a_frame_ships_one_thing() {
    let b = shows("C:>");
    let mut st = composing();
    st.pending.push_back("queued".into());
    let did = EditorDid { changed: false, lost: false, holding: true, escape: false };
    // Something went out already: the queue waits.
    assert_eq!(st.after_editor(&did, false), FocusMove::Keep);
    let out = st.after_focus(true, false, true, &b, None, None, T0);
    assert!(out.is_none());
    assert_eq!(st.pending.len(), 1);
    let out = st.after_focus(true, false, false, &b, None, None, T0);
    assert_eq!(out, Some((b"queued\r".to_vec(), false)));
    assert!(st.pending.is_empty());
    // And the next waits for this one's prompt.
    st.pending.push_back("later".into());
    let out = st.after_focus(true, false, false, &b, None, None, T0);
    assert!(out.is_none());
}

#[test]
fn interrupts_ship_their_chord() {
    let b = shows("building");
    let mut st = composing();
    st.on_stream_events(1, 1, T0);
    st.has_focus = true;
    let f = facts(&st, &b, &[]);
    let r = st.press(&b, &[], &f, true, &Press { copy: true, ..no_keys() }, None, T0);
    assert_eq!(r.copy, Some(CopyAction::Interrupt));
    assert_eq!(r.write, vec![0x03]);
    let with = Press { copy: true, grid_selection: true, ..no_keys() };
    let r = st.press(&b, &[], &f, true, &with, None, T0);
    assert_eq!(r.copy, Some(CopyAction::Grid));
    assert!(r.write.is_empty());
}

#[test]
fn wakeups_are_ahead_and_holds_end() {
    let b = shows("C:>");
    let mut st = composing();
    st.draft = "slow".into();
    let _ = st.submit(&b, Some(0), None, T0);
    for ms in [0u64, 100, 299, 300, 1000, 1499, 1500, 5000] {
        let now = T0.after(ms * MS);
        let wake = st.tick(&b, &[], true, false, now);
        assert!(wake.map_or(true, |w| w > now), "+{ms}ms");
        assert_eq!(st.submit_hold.is_some(), ms < 1500, "+{ms}ms");
    }
}
