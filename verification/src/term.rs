//! What the composer reads of a terminal: a frame's snapshot of the grid, the
//! cursor, the terminal modes and the shell-integration feed, and the records
//! of the commands that ran in it.

use vstd::prelude::*;

use crate::clock::Instant;
use crate::text;

verus! {

/// Terminal mode bits, as `alacritty_terminal::term::TermMode` numbers them.
pub const APP_CURSOR: u32 = 0x2;

pub const BRACKETED_PASTE: u32 = 0x10;

pub const ALT_SCREEN: u32 = 0x1000;

/// Click reports, motion reports or drag reports.
pub const MOUSE_MODE: u32 = 0x2048;

/// `TermMode::contains`, on the bits of the two modes: every bit of `flags`
/// is set in `mode`.
#[verifier::external_body]
pub(crate) fn mode_contains(mode: u32, flags: u32) -> (r: bool)
    ensures
        r == (mode & flags == flags),
{
    alacritty_terminal::term::TermMode::from_bits_retain(mode).contains(
        alacritty_terminal::term::TermMode::from_bits_retain(flags),
    )
}

/// `TermMode::intersects`, on the bits of the two modes: some bit of `flags`
/// is set in `mode`.
#[verifier::external_body]
pub(crate) fn mode_intersects(mode: u32, flags: u32) -> (r: bool)
    ensures
        r == (mode & flags != 0),
{
    alacritty_terminal::term::TermMode::from_bits_retain(mode).intersects(
        alacritty_terminal::term::TermMode::from_bits_retain(flags),
    )
}

/// Grid dimensions.
#[derive(Clone, Copy, PartialEq, Eq, Structural, Debug)]
pub struct GridSize {
    pub cols: u16,
    pub rows: u16,
}

/// The shell-integration feed of the terminal's current lifetime.
#[derive(Clone, Copy, Debug)]
pub struct BlockFeed {
    /// Prompt hooks scanned so far.
    pub pre_seen: u64,
    /// Exec hooks scanned so far.
    pub exec_seen: u64,
    /// The captured prompt end: grid line and column.
    pub prompt_end: Option<(i32, usize)>,
    /// The capture is provisional; its column may still move.
    pub prompt_end_pending: bool,
    /// The feed is in step with the stream.
    pub live: bool,
}

/// What the typed text at the prompt can be recovered as.
#[derive(Clone, Debug)]
pub enum Reclaim {
    Text(String),
    MultiLine,
    MidLine,
    Unavailable,
}

/// One grid row: its line number (negative in the scrollback) and its cells.
#[derive(Clone, Debug)]
pub struct GridRow {
    pub line: i32,
    pub cells: Vec<char>,
}

/// One frame's view of a terminal.
#[derive(Clone, Debug)]
pub struct TermBackend {
    pub size: GridSize,
    /// Mode bits.
    pub mode: u32,
    /// Bumped by every parsed batch of output.
    pub feed_gen: u64,
    /// Rows in the scrollback.
    pub history_size: u32,
    pub cursor_line: i32,
    pub cursor_col: usize,
    pub block_feed: Option<BlockFeed>,
    pub last_output_at: Option<Instant>,
    /// The row on which a prompt is provably being rendered, if any.
    pub incoming_prompt_row: Option<i32>,
    pub reclaim: Reclaim,
    /// The rows that the frame looks at, among them the cursor's.
    pub rows: Vec<GridRow>,
    /// The terminal takes keys as win32 key-event records.
    pub win32_input: bool,
    /// Ctrl+C as such a record, where it has one.
    pub win32_ctrl_c: Option<Vec<u8>>,
    /// Escape as such a record, where it has one.
    pub win32_escape: Option<Vec<u8>>,
}

/// The position in `rows` of the row at `line`, or the length where none is.
pub open spec fn row_index(rows: Seq<GridRow>, line: i32) -> int
    decreases rows.len(),
{
    if rows.len() == 0 || rows[0].line == line {
        0
    } else {
        1 + row_index(rows.drop_first(), line)
    }
}

pub open spec fn row_cells(rows: Seq<GridRow>, line: i32) -> Seq<char> {
    let i = row_index(rows, line);
    if i < rows.len() {
        rows[i].cells@
    } else {
        Seq::empty()
    }
}

pub open spec fn text_end(s: Seq<char>, from: int) -> int {
    if from <= s.len() {
        from
    } else {
        s.len() as int
    }
}

impl TermBackend {
    pub open spec fn alt(self) -> bool {
        self.mode & ALT_SCREEN == ALT_SCREEN
    }

    pub open spec fn mouse(self) -> bool {
        self.mode & MOUSE_MODE != 0
    }

    pub open spec fn bracketed(self) -> bool {
        self.mode & BRACKETED_PASTE == BRACKETED_PASTE
    }

    pub open spec fn pre(self) -> u64 {
        match self.block_feed {
            Some(f) => f.pre_seen,
            None => 0,
        }
    }

    pub open spec fn exec(self) -> u64 {
        match self.block_feed {
            Some(f) => f.exec_seen,
            None => 0,
        }
    }

    pub open spec fn prompt_end(self) -> Option<(i32, usize)> {
        match self.block_feed {
            Some(f) => f.prompt_end,
            None => None,
        }
    }

    /// The cursor stands exactly at the captured prompt end.
    pub open spec fn clean(self) -> bool {
        self.prompt_end() == Some((self.cursor_line, self.cursor_col))
    }

    pub open spec fn end_pending(self) -> bool {
        self.block_feed matches Some(f) && f.prompt_end_pending
    }

    pub open spec fn live(self) -> bool {
        self.block_feed matches Some(f) && f.live
    }

    /// The cells of the cursor's row, without trailing white space.
    pub open spec fn cursor_text(self) -> Seq<char> {
        text::trimmed_end(row_cells(self.rows@, self.cursor_line))
    }

    /// The cells left of the cursor, without trailing white space.
    pub open spec fn cursor_prefix(self) -> Seq<char> {
        let cells = row_cells(self.rows@, self.cursor_line);
        text::trimmed_end(cells.take(text_end(cells, self.cursor_col as int)))
    }

    /// How far right of that prefix the cursor stands.
    pub open spec fn cursor_gap(self) -> int {
        self.cursor_col - self.cursor_prefix().len()
    }

    /// The row at `line` shows `t` from column `col` on.
    pub open spec fn shows(self, line: i32, col: usize, t: Seq<char>) -> bool {
        text::occurs_at(row_cells(self.rows@, line), t, col as int)
    }

    pub fn is_alt(&self) -> (r: bool)
        ensures
            r == self.alt(),
    {
        mode_contains(self.mode, ALT_SCREEN)
    }

    pub fn is_mouse(&self) -> (r: bool)
        ensures
            r == self.mouse(),
    {
        mode_intersects(self.mode, MOUSE_MODE)
    }

    pub fn is_bracketed(&self) -> (r: bool)
        ensures
            r == self.bracketed(),
    {
        mode_contains(self.mode, BRACKETED_PASTE)
    }

    pub fn pre_seen(&self) -> (r: u64)
        ensures
            r == self.pre(),
    {
        match &self.block_feed {
            Some(f) => f.pre_seen,
            None => 0,
        }
    }

    pub fn exec_seen(&self) -> (r: u64)
        ensures
            r == self.exec(),
    {
        match &self.block_feed {
            Some(f) => f.exec_seen,
            None => 0,
        }
    }

    pub fn captured_end(&self) -> (r: Option<(i32, usize)>)
        ensures
            r == self.prompt_end(),
    {
        match &self.block_feed {
            Some(f) => f.prompt_end,
            None => None,
        }
    }

    pub fn has_prompt_end(&self) -> (r: bool)
        ensures
            r == self.prompt_end() is Some,
    {
        self.captured_end().is_some()
    }

    pub fn cursor_at_prompt_end(&self) -> (r: bool)
        ensures
            r == self.clean(),
    {
        match self.captured_end() {
            Some((line, col)) => line == self.cursor_line && col == self.cursor_col,
            None => false,
        }
    }

    pub fn prompt_end_pending(&self) -> (r: bool)
        ensures
            r == self.end_pending(),
    {
        match &self.block_feed {
            Some(f) => f.prompt_end_pending,
            None => false,
        }
    }

    pub fn feed_live(&self) -> (r: bool)
        ensures
            r == self.live(),
    {
        match &self.block_feed {
            Some(f) => f.live,
            None => false,
        }
    }

    /// The position among `rows` of the row at `line`.
    fn find_row(&self, line: i32) -> (r: usize)
        ensures
            r == row_index(self.rows@, line),
            r <= self.rows@.len(),
    {
        assert(self.rows@.skip(0) =~= self.rows@);
        let mut i: usize = 0;
        while i < self.rows.len() && self.rows[i].line != line
            invariant
                i <= self.rows@.len(),
                i + row_index(self.rows@.skip(i as int), line) == row_index(self.rows@, line),
            decreases self.rows@.len() - i,
        {
            proof {
                assert(self.rows@.skip(i as int).drop_first() =~= self.rows@.skip(i + 1));
                assert(self.rows@.skip(i as int)[0] == self.rows@[i as int]);
            }
            i = i + 1;
        }
        proof {
            if i < self.rows@.len() {
                assert(self.rows@.skip(i as int)[0] == self.rows@[i as int]);
            }
        }
        i
    }

    pub fn cursor_row_text(&self) -> (r: String)
        ensures
            r@ == self.cursor_text(),
    {
        let i: usize = self.find_row(self.cursor_line);
        if i < self.rows.len() {
            let cells = &self.rows[i].cells;
            let n: usize = text::trim_end_at(cells, 0, cells.len());
            assert(cells@.subrange(0, cells@.len() as int) =~= cells@);
            text::string_of(cells, 0, n)
        } else {
            String::new()
        }
    }

    /// The text left of the cursor, and the gap between its end and the cursor.
    pub fn cursor_prefix_gap(&self) -> (r: (String, usize))
        ensures
            r.0@ == self.cursor_prefix(),
            r.1 == self.cursor_gap(),
    {
        proof {
            let cells = row_cells(self.rows@, self.cursor_line);
            text::lemma_trimmed_end(cells.take(text_end(cells, self.cursor_col as int)));
        }
        let i: usize = self.find_row(self.cursor_line);
        if i < self.rows.len() {
            let cells = &self.rows[i].cells;
            let to: usize = if self.cursor_col <= cells.len() {
                self.cursor_col
            } else {
                cells.len()
            };
            let n: usize = text::trim_end_at(cells, 0, to);
            assert(cells@.subrange(0, to as int) =~= cells@.take(to as int));
            (text::string_of(cells, 0, n), self.cursor_col - n)
        } else {
            assert(Seq::<char>::empty().take(0) =~= Seq::<char>::empty());
            (String::new(), self.cursor_col)
        }
    }

    pub fn row_has_text_at(&self, line: i32, col: usize, t: &str) -> (r: bool)
        ensures
            r == self.shows(line, col, t@),
    {
        let t = text::chars_of(t);
        let i: usize = self.find_row(line);
        if i < self.rows.len() {
            text::stands_at(&self.rows[i].cells, &t, col)
        } else {
            let none: Vec<char> = Vec::new();
            assert(none@ =~= Seq::<char>::empty());
            text::stands_at(&none, &t, col)
        }
    }
}

/// A recorded command.
#[derive(Clone, Debug)]
pub struct BlockRec {
    pub epoch: u32,
    pub n: u64,
    pub cmd: String,
    /// The directory that the command started in.
    pub cwd: Option<String>,
    pub exit: Option<i32>,
    pub started_ms: u64,
    pub ended_ms: Option<u64>,
    pub start_off: u64,
    /// Where its output ends; `None` while it runs.
    pub end_off: Option<u64>,
    pub truncated: bool,
    /// The recorder's verdict that the command opened a nested interactive
    /// shell.
    pub nested_shell: bool,
}

/// Some recorded command is still running.
pub open spec fn open_in(recs: Seq<BlockRec>) -> bool {
    exists|i: int| 0 <= i < recs.len() && (#[trigger] recs[i]).end_off is None
}

/// Some running command is a nested interactive shell.
pub open spec fn nested_open_in(recs: Seq<BlockRec>) -> bool {
    exists|i: int| 0 <= i < recs.len() && (#[trigger] recs[i]).end_off is None && recs[i].nested_shell
}

pub fn any_open(recs: &[BlockRec]) -> (r: bool)
    ensures
        r == open_in(recs@),
{
    let mut i: usize = 0;
    while i < recs.len()
        invariant
            i <= recs@.len(),
            forall|k: int| 0 <= k < i ==> (#[trigger] recs@[k]).end_off is Some,
        decreases recs@.len() - i,
    {
        if recs[i].end_off.is_none() {
            assert(recs@[i as int].end_off is None);
            return true;
        }
        i = i + 1;
    }
    false
}

pub fn any_nested_open(recs: &[BlockRec]) -> (r: bool)
    ensures
        r == nested_open_in(recs@),
{
    let mut i: usize = 0;
    while i < recs.len()
        invariant
            i <= recs@.len(),
            forall|k: int|
                0 <= k < i ==> (#[trigger] recs@[k]).end_off is Some || !recs@[k].nested_shell,
        decreases recs@.len() - i,
    {
        if recs[i].end_off.is_none() && recs[i].nested_shell {
            assert(recs@[i as int].end_off is None);
            return true;
        }
        i = i + 1;
    }
    false
}

} // verus!
