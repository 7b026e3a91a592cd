//! The terminal card, the dashboard and the consent of trackers.

use std::collections::HashSet;

use alacritty_terminal::term::TermMode;
use composer::card::{
    last_closed, observed_command, open_failure, rerun_label, Extent, Resize, SearchAge, Sizing, Surfaces,
    Target, CELL_LOOK, CELL_SETTLE, FONT_STEP, RESIZE_EVERY,
};
use composer::clock::Instant;
use composer::complete::ShellFamily;
use composer::consent::{
    codex_key_label, codex_lane_for, wsl_home_from, wsl_target, CodexLane, CodexVerdicts, Consents,
    Installed, Scan, TermInfo, ToastKind, Verdicts,
};
use composer::dashboard::{
    card_action, central, dashboard_ids, meta_line, preview_text, restore_words, scope_name,
    CardAction, Central, CentralView, Folder, MetaLine, Row,
};
use composer::gate::{ComposerMode, RawReason};
use composer::state::ComposerState;
use composer::term::{
    BlockFeed, BlockRec, GridRow, GridSize, Reclaim, TermBackend, ALT_SCREEN, BRACKETED_PASTE,
    MOUSE_MODE,
};

const T0: Instant = Instant { nanos: 1_000_000_000_000 };
const MS: u64 = 1_000_000;

fn target(w: u32, cell: u32) -> Target {
    Target { layout: Extent { w, h: 10 }, cell: Extent { w: cell, h: 2 * cell } }
}

fn sized(t: Target) -> Sizing {
    Sizing { last: Some(t), pending: None, committed: T0 }
}

#[test]
fn the_first_size_is_taken_at_once() {
    let mut s = Sizing { last: None, pending: None, committed: T0 };
    assert_eq!(s.frame(target(100, 8), true, None, T0), Resize::Commit);
    assert_eq!(s.last, Some(target(100, 8)));
    assert_eq!(s.frame(target(100, 8), true, None, T0), Resize::Keep);
}

#[test]
fn a_drag_resizes_at_its_pace() {
    let mut s = sized(target(100, 8));
    let soon = T0.after(RESIZE_EVERY - 1);
    assert_eq!(s.frame(target(101, 8), true, None, soon), Resize::Later(RESIZE_EVERY));
    assert_eq!(s.pending, Some((target(101, 8), soon)));
    let due = T0.after(RESIZE_EVERY);
    assert_eq!(s.frame(target(102, 8), true, None, due), Resize::Commit);
    assert_eq!(s.pending, None);
    assert_eq!(s.committed, due);
}

#[test]
fn another_screen_is_waited_for() {
    let mut s = sized(target(100, 8));
    let now = T0.after(2 * CELL_SETTLE);
    assert_eq!(s.frame(target(90, 9), true, None, now), Resize::Later(CELL_LOOK));
    // It moves on: the wait starts again.
    let then = now.after(CELL_SETTLE - 1);
    assert_eq!(s.frame(target(80, 9), true, None, then), Resize::Later(CELL_LOOK));
    let still = then.after(CELL_SETTLE - 1);
    assert_eq!(s.frame(target(80, 9), true, None, still), Resize::Later(CELL_LOOK));
    assert_eq!(s.frame(target(80, 9), true, None, then.after(CELL_SETTLE)), Resize::Commit);
}

#[test]
fn a_font_step_does_not_wait() {
    let mut s = sized(target(100, 8));
    let now = T0.after(CELL_SETTLE);
    assert_eq!(s.frame(target(100, 9), true, Some(now), now), Resize::Commit);
    // An old step explains nothing.
    let mut s = sized(target(100, 8));
    let late = now.after(FONT_STEP);
    assert_eq!(s.frame(target(100, 9), true, Some(now), late), Resize::Later(CELL_LOOK));
}

#[test]
fn only_the_focused_window_resizes() {
    let mut s = sized(target(100, 8));
    s.pending = Some((target(90, 9), T0));
    let late = T0.after(10 * CELL_SETTLE);
    assert_eq!(s.frame(target(90, 9), false, None, late), Resize::Keep);
    assert_eq!(s.pending, None);
    assert_eq!(s.last, Some(target(100, 8)));
    // Back in focus, the wait is a fresh one.
    assert_eq!(s.frame(target(90, 9), true, None, late), Resize::Later(CELL_LOOK));
}

fn closed_surfaces() -> Surfaces {
    Surfaces {
        modal: false,
        search: false,
        blocks_panel: false,
        history: false,
        launcher: false,
        renaming: false,
    }
}

#[test]
fn one_surface_floats_at_a_time() {
    let mut s = Surfaces { search: true, launcher: true, ..closed_surfaces() };
    assert!(s.overlay_open());
    assert!(!s.grid_takes_keys(false));
    assert!(s.toggle_history());
    assert_eq!(s, Surfaces { history: true, ..closed_surfaces() });
    assert!(!s.toggle_history());
    assert_eq!(s, closed_surfaces());
    assert!(!s.overlay_open());
    assert!(s.grid_takes_keys(false));
    assert!(!s.grid_takes_keys(true));
    // A modal stays whatever becomes of the history.
    let mut m = Surfaces { modal: true, ..closed_surfaces() };
    m.toggle_history();
    assert!(m.modal && m.history);
}

/// A terminal at a clean prompt.
fn at_prompt() -> TermBackend {
    TermBackend {
        size: GridSize { cols: 40, rows: 6 },
        mode: 0,
        feed_gen: 1,
        history_size: 0,
        cursor_line: 0,
        cursor_col: 3,
        block_feed: Some(BlockFeed {
            pre_seen: 1,
            exec_seen: 0,
            prompt_end: Some((0, 3)),
            prompt_end_pending: false,
            live: true,
        }),
        last_output_at: Some(T0),
        incoming_prompt_row: None,
        reclaim: Reclaim::Text(String::new()),
        rows: vec![GridRow { line: 0, cells: "C:>".chars().collect() }],
        win32_input: false,
        win32_ctrl_c: None,
        win32_escape: None,
    }
}

#[test]
fn a_card_frame_arms_and_takes_the_focus() {
    let b = at_prompt();
    let mut st = ComposerState::default();
    st.on_stream_events(1, 0, T0);
    let r = st.card_tick(&b, &[], true, true, false, T0);
    assert!(r.composing);
    assert!(r.hold_focus);
    assert!(r.cover.is_none() && r.bytes.is_none());
    assert_eq!(st.mode, ComposerMode::Compose);
    // Not while something floats over the card, nor in another window.
    let r = st.card_tick(&b, &[], true, true, true, T0);
    assert!(r.composing && !r.hold_focus);
    let r = st.card_tick(&b, &[], true, false, false, T0);
    assert!(r.composing && !r.hold_focus);
}

#[test]
fn a_card_frame_empties_the_outboxes() {
    let mut b = at_prompt();
    let mut st = ComposerState::default();
    st.on_stream_events(1, 0, T0);
    st.mode = ComposerMode::Compose;
    st.draft = "vim".into();
    let _ = st.submit(&b, Some(0), Some("C:\\"), T0);
    st.draft = "ihello".into();
    b.mode = ALT_SCREEN;
    let r = st.card_tick(&b, &[], true, true, false, T0.after(MS));
    assert_eq!(r.bytes.as_deref(), Some(b"ihello".as_ref()));
    assert!(!r.composing);
    assert_eq!(st.mode, ComposerMode::Raw(RawReason::AltScreen));
    assert!(st.pending_clear.is_none());
    // The echo on its row leaves a cover.
    let mut b = at_prompt();
    let mut st = ComposerState::default();
    st.on_stream_events(1, 0, T0);
    st.mode = ComposerMode::Compose;
    st.draft = "ls".into();
    let _ = st.submit(&b, Some(0), Some("C:\\"), T0);
    b.rows[0].cells = "C:>ls".chars().collect();
    b.cursor_col = 5;
    let r = st.card_tick(&b, &[], true, true, false, T0.after(MS));
    assert_eq!(r.cover, Some((0, 3, Some("C:\\".to_string()), "ls".to_string())));
    assert!(st.pending_history_cover.is_none());
}

#[test]
fn raw_enters_are_observed_at_a_cmd_prompt() {
    let mut b = at_prompt();
    b.reclaim = Reclaim::Text("  dir /w ".to_string());
    let seen = |b: &TermBackend, bytes: &[u8], is_cmd, proto| {
        observed_command(b, bytes, is_cmd, proto)
    };
    assert_eq!(seen(&b, b"\r", true, Some(6)).as_deref(), Some("dir /w"));
    assert_eq!(seen(&b, b"x", true, Some(6)), None);
    assert_eq!(seen(&b, b"\r", false, Some(6)), None);
    assert_eq!(seen(&b, b"\r", true, Some(5)), None);
    assert_eq!(seen(&b, b"\r", true, None), None);
    b.reclaim = Reclaim::Text("   ".to_string());
    assert_eq!(seen(&b, b"\r", true, Some(6)), None);
    b.reclaim = Reclaim::MultiLine;
    assert_eq!(seen(&b, b"\r", true, Some(6)), None);
    b.reclaim = Reclaim::Text("dir".to_string());
    b.block_feed = None;
    assert_eq!(seen(&b, b"\r", true, Some(6)), None);
}

#[test]
fn searches_age() {
    let s = SearchAge {
        query_empty: false,
        matches_history: 10,
        last_user: T0,
        last_build: T0,
    };
    // Driven: every quarter of a second.
    assert!(!s.rebuild_due(11, T0.after(249 * MS)));
    assert!(s.rebuild_due(11, T0.after(250 * MS)));
    assert!(!s.rebuild_due(10, T0.after(250 * MS)));
    // Left alone: every second.
    let idle = SearchAge { last_build: T0.after(2000 * MS), ..s };
    assert!(!idle.rebuild_due(11, T0.after(2999 * MS)));
    assert!(idle.rebuild_due(11, T0.after(3000 * MS)));
    assert!(!SearchAge { query_empty: true, ..s }.rebuild_due(11, T0.after(9000 * MS)));
    // A stale match is not pointed out.
    assert_eq!(s.shown_match(10, 2, 3), Some(2));
    assert_eq!(s.shown_match(11, 2, 3), None);
    assert_eq!(s.shown_match(10, 3, 3), None);
}

fn rec(cmd: &str, closed: bool) -> BlockRec {
    BlockRec {
        epoch: 1,
        n: 0,
        cmd: cmd.into(),
        cwd: None,
        exit: None,
        started_ms: 0,
        ended_ms: None,
        start_off: 0,
        end_off: if closed { Some(1) } else { None },
        truncated: false,
        nested_shell: false,
    }
}

#[test]
fn the_last_command_that_finished() {
    assert_eq!(last_closed(&[]), None);
    assert_eq!(last_closed(&[rec("a", false)]), None);
    assert_eq!(last_closed(&[rec("a", true), rec("b", true), rec("c", false)]), Some(1));
}

#[test]
fn a_directory_that_cannot_be_opened_is_named() {
    assert_eq!(rerun_label(Some("make")), "Rerun last: make");
    assert_eq!(rerun_label(None), "Rerun last");
    assert_eq!(open_failure(true, "C:\\x", None), None);
    assert_eq!(
        open_failure(false, "C:\\x", None).as_deref(),
        Some("Folder no longer exists: C:\\x")
    );
    assert_eq!(
        open_failure(true, "C:\\x", Some("denied")).as_deref(),
        Some("Could not open C:\\x: denied")
    );
}

#[test]
fn the_central_view_follows_the_selection() {
    let known = vec![1u128, 2];
    let t = CentralView::Terminal;
    assert_eq!(central(t, Some(2), &known), Central::Card(2));
    assert_eq!(central(t, Some(3), &known), Central::Gone);
    assert_eq!(central(t, None, &known), Central::NothingSelected);
    assert_eq!(central(t, None, &Vec::new()), Central::Launcher);
    assert_eq!(
        central(CentralView::Dashboard(Some(7)), Some(2), &known),
        Central::Dashboard(Some(7))
    );
}

#[test]
fn the_dashboard_shows_its_scope_in_order() {
    let rows = vec![
        Row { id: 3, folder: Some(1) },
        Row { id: 1, folder: None },
        Row { id: 2, folder: Some(1) },
    ];
    assert_eq!(dashboard_ids(&rows, None), [3, 1, 2]);
    assert_eq!(dashboard_ids(&rows, Some(1)), [3, 2]);
    assert!(dashboard_ids(&rows, Some(9)).is_empty());
    let folders = vec![
        Folder { id: 1, name: "work".into() },
        Folder { id: 1, name: "shadowed".into() },
    ];
    assert_eq!(scope_name(&folders, None), "All terminals");
    assert_eq!(scope_name(&folders, Some(1)), "work");
    assert_eq!(scope_name(&folders, Some(2)), "Folder");
}

#[test]
fn a_card_says_where_it_is_and_what_it_ran() {
    let recs = [rec("make", true), rec("top", false)];
    assert!(matches!(
        meta_line(Some("C:\\p"), &recs, 41),
        MetaLine::CwdAndCommand { cwd, width: 20, cmd } if cwd == "C:\\p" && cmd == "make"
    ));
    assert!(matches!(
        meta_line(Some("C:\\p"), &[], 41),
        MetaLine::Cwd { cwd, width: 41 } if cwd == "C:\\p"
    ));
    assert!(matches!(meta_line(Some(""), &recs, 41), MetaLine::Command { cmd } if cmd == "make"));
    assert!(matches!(meta_line(None, &[], 41), MetaLine::Empty));
}

#[test]
fn previews_are_cut_to_the_card() {
    let lines = vec!["abcdef".to_string(), "x".to_string(), "\u{e9}\u{e9}\u{e9}".to_string()];
    assert_eq!(preview_text(&lines, 2), "ab\nx\n\u{e9}\u{e9}");
    assert_eq!(preview_text(&Vec::new(), 2), "");
    assert_eq!(preview_text(&lines, 0), "\n\n");
}

#[test]
fn dead_cards_offer_to_restore() {
    assert_eq!(restore_words(true, false, true).as_deref(), Some("\u{21BB} Restore"));
    assert_eq!(restore_words(true, true, true).as_deref(), Some("\u{21BB} Wake"));
    assert_eq!(restore_words(true, true, false), None);
    assert_eq!(restore_words(false, false, true), None);
    assert_eq!(card_action(false, true), None);
    assert_eq!(card_action(true, true), Some(CardAction::Restore));
    assert_eq!(card_action(true, false), Some(CardAction::Select));
}

// Trackers.

fn term(id: u128, adapter: Option<&str>, family: ShellFamily) -> TermInfo {
    TermInfo { id, adapter: adapter.map(str::to_string), family, wsl_distro: None }
}

fn ssh(host: &str) -> ShellFamily {
    ShellFamily::Ssh { host: host.to_string() }
}

fn nothing_known() -> Consents {
    Consents { dismissed: Vec::new(), done: Vec::new(), settled: HashSet::new() }
}

fn no_answers() -> Verdicts {
    Verdicts { named: Vec::new(), all: None }
}

#[test]
fn lanes_have_names() {
    let wsl = CodexLane::LocalWsl { distro: "Ubuntu".into() };
    let far = CodexLane::Ssh { host: "box".into() };
    assert_eq!(CodexLane::LocalWindows.key(), "local:windows");
    assert_eq!(wsl.key(), "local:wsl:Ubuntu");
    assert_eq!(far.key(), "ssh:box");
    assert!(CodexLane::LocalWindows.is_local() && wsl.is_local() && !far.is_local());
    assert_eq!(codex_key_label("local:windows"), "this PC");
    assert_eq!(codex_key_label("local:wsl:Ubuntu"), "WSL Ubuntu");
    assert_eq!(codex_key_label("ssh:box"), "box");
    assert_eq!(codex_key_label("other"), "other");
}

#[test]
fn a_distribution_is_reached_over_its_share() {
    assert_eq!(wsl_home_from(" /home/z\n").as_deref(), Some("/home/z"));
    assert_eq!(wsl_home_from("C:\\Users"), None);
    assert_eq!(wsl_home_from(""), None);
    let t = wsl_target("Ubuntu", "/home/z");
    assert_eq!(t.access_home, r"\\wsl$\Ubuntu\home\z\.codex");
    assert_eq!(t.codex_hooks_path, "/home/z/.codex/hooks.json");
    assert_eq!(t.script, r"\\wsl$\Ubuntu\home\z\.tc\codex-hook.sh");
}

#[test]
fn the_lane_follows_the_terminal() {
    assert!(matches!(
        codex_lane_for(&term(1, Some("codex"), ShellFamily::Cmd)),
        Some(CodexLane::LocalWindows)
    ));
    assert!(codex_lane_for(&term(1, Some("other"), ShellFamily::Cmd)).is_none());
    assert!(codex_lane_for(&term(1, None, ShellFamily::Cmd)).is_none());
    let wsl = ShellFamily::WslShell { distro: None };
    assert!(codex_lane_for(&term(1, Some("codex"), wsl.clone())).is_none());
    let known = TermInfo { wsl_distro: Some("U".into()), ..term(1, Some("codex"), wsl) };
    assert!(matches!(
        codex_lane_for(&known),
        Some(CodexLane::LocalWsl { distro }) if distro == "U"
    ));
}

#[test]
fn a_host_without_an_answer_is_asked_about_once() {
    let ts = vec![
        term(1, Some("helper"), ShellFamily::Pwsh),
        term(2, Some("helper"), ssh("a")),
        term(3, Some("helper"), ssh("b")),
    ];
    let mut c = nothing_known();
    let hosts = no_answers();
    assert_eq!(c.scan_claude_hook_consent(true, &ts, "helper", &hosts), Scan::Nothing);
    assert_eq!(c.scan_claude_hook_consent(false, &ts, "helper", &hosts), Scan::Ask(1));
    // Dismissed, the next host is next.
    c.dismissed.push("a".into());
    assert_eq!(c.scan_claude_hook_consent(false, &ts, "helper", &hosts), Scan::Ask(2));
    assert_eq!(c.settled, HashSet::from([2]));
    // Another assistant is none of its business.
    assert_eq!(c.scan_claude_hook_consent(false, &ts, "other", &hosts), Scan::Nothing);
}

#[test]
fn answers_are_kept() {
    let ts = vec![term(1, Some("helper"), ssh("no")), term(2, Some("helper"), ssh("yes"))];
    let hosts = Verdicts {
        named: vec![("no".into(), false), ("yes".into(), true)],
        all: Some(true),
    };
    let mut c = nothing_known();
    assert_eq!(c.scan_claude_hook_consent(false, &ts, "helper", &hosts), Scan::Install(1));
    assert_eq!(c.dismissed, ["no"]);
    assert_eq!(c.settled, HashSet::from([1]));
    c.begin("yes");
    assert_eq!(c.scan_claude_hook_consent(false, &ts, "helper", &hosts), Scan::Nothing);
    // The answer for all stands in for a host's own.
    let more = vec![term(3, Some("helper"), ssh("new"))];
    assert_eq!(c.scan_claude_hook_consent(false, &more, "helper", &hosts), Scan::Install(0));
}

#[test]
fn each_class_of_lane_has_its_answer() {
    let v = CodexVerdicts {
        local: Some(false),
        wsl: Verdicts { named: vec![("U".into(), true)], all: None },
        hosts: no_answers(),
    };
    let pc = vec![term(1, Some("codex"), ShellFamily::Pwsh)];
    let mut c = nothing_known();
    assert_eq!(c.scan_codex_hook_consent(false, &pc, &v), Scan::Nothing);
    assert_eq!(c.dismissed, ["local:windows"]);
    let far = vec![term(2, Some("codex"), ssh("box"))];
    assert_eq!(c.scan_codex_hook_consent(false, &far, &v), Scan::Ask(0));
    let wsl = ShellFamily::WslShell { distro: Some("U".into()) };
    let near = vec![TermInfo { wsl_distro: Some("U".into()), ..term(3, Some("codex"), wsl) }];
    assert_eq!(c.scan_codex_hook_consent(false, &near, &v), Scan::Install(0));
}

#[test]
fn installs_are_announced() {
    let mut c = nothing_known();
    c.begin("box");
    c.settled.insert(4);
    let t = c.drain_claude_hooks("Helper", "box", &Installed::New).unwrap();
    assert_eq!(t.kind, ToastKind::Info);
    assert_eq!(t.title, "Helper session tracker added to box");
    assert_eq!(t.detail, "exact conversation restore is on for this host");
    assert_eq!(t.ttl_s, 6);
    assert!(c.drain_claude_hooks("Helper", "box", &Installed::Already).is_none());
    assert_eq!(c.done, ["box"]);
    // A failure is told, and the host is left alone for this run.
    let failed = Installed::Failed("no route".into());
    let t = c.drain_claude_hooks("Helper", "box", &failed).unwrap();
    assert_eq!(t.kind, ToastKind::Error);
    assert_eq!(t.title, "Helper session tracker install on box failed");
    assert_eq!(t.detail, "no route");
    assert_eq!(t.ttl_s, 8);
    assert!(c.done.is_empty() && c.settled.is_empty());
    assert_eq!(c.dismissed, ["box"]);
}

#[test]
fn codex_installs_are_announced() {
    let mut c = nothing_known();
    c.begin("local:wsl:U");
    let t = c.drain_codex_hooks("local:wsl:U", &Installed::New).unwrap();
    assert_eq!(t.title, "Codex session tracker added (WSL U)");
    assert_eq!(t.detail, "exact session restore is on for codex here");
    assert!(c.drain_codex_hooks("local:wsl:U", &Installed::Already).is_none());
    let failed = Installed::Failed("denied".into());
    let t = c.drain_codex_hooks("local:wsl:U", &failed).unwrap();
    assert_eq!(t.title, "Codex session tracker install failed (WSL U)");
    assert_eq!(t.detail, "denied");
    assert!(c.done.is_empty());
    assert_eq!(c.dismissed, ["local:wsl:U"]);
    // A recorded yes does not install for the lane again in this run.
    let terminals = vec![TermInfo {
        id: 1,
        adapter: Some("codex".into()),
        family: ShellFamily::WslShell { distro: Some("U".into()) },
        wsl_distro: Some("U".into()),
    }];
    let yes = CodexVerdicts {
        local: None,
        wsl: Verdicts { named: vec![("U".into(), true)], all: None },
        hosts: Verdicts { named: Vec::new(), all: None },
    };
    assert_eq!(c.scan_codex_hook_consent(false, &terminals, &yes), Scan::Nothing);
    assert_eq!(c.settled, HashSet::from([1]));
}

#[test]
fn mode_bits_are_the_terminals() {
    assert_eq!(ALT_SCREEN, TermMode::ALT_SCREEN.bits());
    assert_eq!(BRACKETED_PASTE, TermMode::BRACKETED_PASTE.bits());
    assert_eq!(MOUSE_MODE, TermMode::MOUSE_MODE.bits());
    let mut b = at_prompt();
    assert!(!b.is_alt() && !b.is_mouse() && !b.is_bracketed());
    b.mode = TermMode::ALT_SCREEN.bits();
    assert!(b.is_alt() && !b.is_mouse());
    // Any one of the mouse modes is one.
    b.mode = TermMode::MOUSE_DRAG.bits();
    assert!(b.is_mouse() && !b.is_alt());
    b.mode = TermMode::BRACKETED_PASTE.bits();
    assert!(b.is_bracketed());
}
