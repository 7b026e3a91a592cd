//! A frame of the open editor, in its order: the search, the copy chord,
//! Enter, the walk through the records, the suggestion and completion before
//! the text is edited; the edit, the focus and what is shipped after it.

use vstd::prelude::*;
use vstd::string::*;

use crate::clock::Instant;
use crate::encode;
use crate::frame;
use crate::frame::{caret_line, CopyAction, Frame, SearchKeys};
use crate::model::Composer;
use crate::state;
use crate::state::ComposerState;
use crate::strip::FocusMove;
use crate::tab;
use crate::tab::DirList;
use crate::candidates::ENUM_CAP;
use crate::term::{BlockRec, TermBackend};
use crate::text;

verus! {

/// What was pressed in a frame, and where the caret was.
#[derive(Clone, Copy, PartialEq, Eq, Structural, Debug)]
pub struct Press {
    /// Something floats over the card and has the keys.
    pub overlay_open: bool,
    pub ctrl_r: u32,
    pub up: u32,
    pub down: u32,
    pub right: u32,
    pub enters: u32,
    pub escape: bool,
    /// Ctrl+C.
    pub copy: bool,
    pub grid_selection: bool,
    pub editor_selection: bool,
    /// In characters; the editor may have yet to place it.
    pub caret: Option<usize>,
}

impl Press {
    pub open spec fn of_search(self) -> SearchKeys {
        SearchKeys {
            cycles: self.ctrl_r,
            up: self.up,
            down: self.down,
            enters: self.enters,
            escape: self.escape,
        }
    }

    /// The keys that an open search left: none of those it reads.
    pub open spec fn behind_search(self) -> Press {
        Press { ctrl_r: 0, up: 0, down: 0, enters: 0, ..self }
    }
}

/// What the keys of a frame came to.
#[derive(Debug)]
pub struct Pressed {
    /// What Ctrl+C did, where it was pressed.
    pub copy: Option<CopyAction>,
    /// Bytes for the terminal.
    pub write: Vec<u8>,
    /// The draft is submitted once the editor was shown.
    pub submit: bool,
    /// Enter was taken from the editor.
    pub took_enter: bool,
    /// An arrow up, down or to the right was.
    pub took_up: bool,
    pub took_down: bool,
    pub took_right: bool,
    /// Where the caret goes, in characters.
    pub caret: Option<usize>,
}

/// What Enter and the arrows came to.
struct LinesRead {
    enter: bool,
    submit: bool,
    up: bool,
    down: bool,
    /// The caret behind a suggestion that was taken.
    caret: Option<usize>,
}

impl Composer {
    /// The search has the keys.
    pub open spec fn search_reads(self, k: Press) -> bool {
        !k.overlay_open && self.search is Some
    }

    /// After the search read its keys, or was opened.
    pub open spec fn press_search(self, recs: Seq<BlockRec>, k: Press) -> Composer {
        if self.search_reads(k) {
            self.search_keyed(recs, k.of_search())
        } else if !k.overlay_open && self.has_focus && k.ctrl_r > 0 {
            self.search_begun()
        } else {
            self
        }
    }

    /// The keys that are left for what follows the search.
    pub open spec fn press_left(self, k: Press) -> Press {
        if self.search_reads(k) {
            k.behind_search()
        } else {
            k
        }
    }

    /// What Ctrl+C does, where it was pressed.
    pub open spec fn press_copies(self, f: Frame, running: bool, k: Press) -> Option<CopyAction> {
        if k.copy {
            Some(self.copies(k.grid_selection, k.editor_selection, f.heur_armed, running))
        } else {
            None
        }
    }

    pub open spec fn press_copied(self, f: Frame, running: bool, k: Press, now: Instant) -> Composer {
        if self.press_copies(f, running, k) == Some(CopyAction::Interrupt) {
            self.interrupted(now)
        } else {
            self
        }
    }

    /// The editor reads Enter and the arrows.
    pub open spec fn reads_lines(self, k: Press) -> bool {
        self.has_focus && !k.overlay_open && self.search is None
    }

    pub open spec fn press_enters(self, f: Frame, n: nat) -> Composer {
        if self.takes_enter(f) {
            self.entered(f, n)
        } else {
            self
        }
    }

    /// Up was pressed with the caret on the first line.
    pub open spec fn takes_up(self, up: u32, caret: Option<usize>) -> bool {
        up > 0 && encode::count(frame::before_caret(self.draft, caret), '\n') == 0
    }

    /// Down was pressed with the caret on the last line.
    pub open spec fn takes_down(self, down: u32, caret: Option<usize>) -> bool {
        down > 0 && encode::count(frame::before_caret(self.draft, caret), '\n') == encode::count(
            self.draft,
            '\n',
        )
    }

    /// After the arrows: up on the first line and down on the last walk the
    /// records.
    pub open spec fn press_arrows(
        self,
        recs: Seq<BlockRec>,
        up: u32,
        down: u32,
        caret: Option<usize>,
    ) -> Composer {
        let s = if self.takes_up(up, caret) {
            self.recalled_prev(recs)
        } else {
            self
        };
        if self.takes_down(down, caret) {
            s.recalled_next(recs)
        } else {
            s
        }
    }

    /// The suggestion that an arrow to the right takes: the caret is at the
    /// draft's end.
    pub open spec fn press_takes(
        self,
        recs: Seq<BlockRec>,
        right: u32,
        caret: Option<usize>,
        cwd: Option<Seq<char>>,
    ) -> Option<Seq<char>> {
        if right > 0 && (caret matches Some(c) ==> c >= self.draft.len()) {
            self.visible_ghost(recs, cwd)
        } else {
            None
        }
    }

    pub open spec fn press_ghost(
        self,
        recs: Seq<BlockRec>,
        right: u32,
        caret: Option<usize>,
        cwd: Option<Seq<char>>,
    ) -> Composer {
        match self.press_takes(recs, right, caret, cwd) {
            Some(rest) => Composer { draft: self.draft + rest, ..self },
            None => self,
        }
    }

    /// After Enter and the arrows, with the caret at `caret`.
    pub open spec fn press_lines(
        self,
        recs: Seq<BlockRec>,
        f: Frame,
        k: Press,
        caret: Option<usize>,
        cwd: Option<Seq<char>>,
    ) -> Composer {
        if self.reads_lines(k) {
            self.press_enters(f, k.enters as nat).press_arrows(
                recs,
                k.up,
                k.down,
                caret,
            ).press_ghost(recs, k.right, caret, cwd)
        } else {
            self
        }
    }

    /// Where the caret is once one that was asked for at the end is there.
    pub open spec fn press_caret(self, k: Press) -> Option<usize> {
        if self.caret_to_end {
            Some(self.draft.len() as usize)
        } else {
            k.caret
        }
    }

    /// The state between the search and Enter.
    pub open spec fn press_midway(
        self,
        recs: Seq<BlockRec>,
        f: Frame,
        running: bool,
        k: Press,
        now: Instant,
    ) -> Composer {
        let s = self.press_search(recs, k);
        Composer { caret_to_end: false, ..s }.press_copied(f, running, k, now)
    }

    /// After the keys of a frame, up to completion.
    pub open spec fn pressed(
        self,
        recs: Seq<BlockRec>,
        f: Frame,
        running: bool,
        k: Press,
        cwd: Option<Seq<char>>,
        now: Instant,
    ) -> Composer {
        self.press_midway(recs, f, running, k, now).press_lines(
            recs,
            f,
            self.press_left(k),
            self.press_search(recs, k).press_caret(k),
            cwd,
        )
    }

    /// The caret behind a suggestion that an arrow took.
    pub open spec fn press_lands(
        self,
        recs: Seq<BlockRec>,
        f: Frame,
        k: Press,
        caret: Option<usize>,
        cwd: Option<Seq<char>>,
    ) -> Option<int> {
        let e = self.press_enters(f, k.enters as nat).press_arrows(recs, k.up, k.down, caret);
        match e.press_takes(recs, k.right, caret, cwd) {
            Some(rest) if self.reads_lines(k) => Some((e.draft.len() + rest.len()) as int),
            _ => None,
        }
    }

    /// Where the keys of a frame put the caret.
    pub open spec fn press_puts(
        self,
        recs: Seq<BlockRec>,
        f: Frame,
        running: bool,
        k: Press,
        cwd: Option<Seq<char>>,
        now: Instant,
    ) -> Option<int> {
        let s = self.press_search(recs, k);
        let m = self.press_midway(recs, f, running, k, now);
        match m.press_lands(recs, f, self.press_left(k), s.press_caret(k), cwd) {
            Some(c) => Some(c),
            None => if s.caret_to_end {
                Some(s.draft.len() as int)
            } else {
                None
            },
        }
    }
}

pub open spec fn opt_int(o: Option<usize>) -> Option<int> {
    match o {
        Some(c) => Some(c as int),
        None => None,
    }
}

proof fn lemma_spacers_keep_the_walk(c: Composer, n: nat)
    ensures
        c.spaced_by(n).recall == c.recall,
    decreases n,
{
    if n > 0 {
        lemma_spacers_keep_the_walk(c, (n - 1) as nat);
    }
}

impl ComposerState {
    fn read_search(&mut self, recs: &[BlockRec], k: &Press)
        ensures
            final(self)@ == old(self)@.press_search(recs@, *k),
    {
        if k.overlay_open {
            return;
        }
        if self.search.is_some() {
            let keys = SearchKeys {
                cycles: k.ctrl_r,
                up: k.up,
                down: k.down,
                enters: k.enters,
                escape: k.escape,
            };
            self.search_keys(recs, &keys);
        } else if self.has_focus && k.ctrl_r > 0 {
            self.search_begin();
        }
    }

    fn keys_left(&self, k: &Press) -> (r: Press)
        ensures
            r == self@.press_left(*k),
    {
        if !k.overlay_open && self.search.is_some() {
            Press { ctrl_r: 0, up: 0, down: 0, enters: 0, ..*k }
        } else {
            *k
        }
    }

    fn read_copy(
        &mut self,
        backend: &TermBackend,
        f: &Frame,
        running: bool,
        k: &Press,
        now: Instant,
    ) -> (r: (Option<CopyAction>, Vec<u8>))
        ensures
            r.0 == old(self)@.press_copies(*f, running, *k),
            final(self)@ == old(self)@.press_copied(*f, running, *k, now),
            r.1@ == if r.0 == Some(CopyAction::Interrupt) {
                encode::interrupt_chord(*backend)
            } else {
                Seq::empty()
            },
    {
        if !k.copy {
            return (None, Vec::new());
        }
        let a = self.copy_action(k.grid_selection, k.editor_selection, f.heur_armed, running);
        if a == CopyAction::Interrupt {
            let bytes = self.interrupt(backend, now);
            (Some(a), bytes)
        } else {
            (Some(a), Vec::new())
        }
    }

    fn read_enters(&mut self, f: &Frame, n: u32) -> (r: (bool, bool))
        ensures
            final(self)@ == old(self)@.press_enters(*f, n as nat),
            r.0 == old(self)@.takes_enter(*f),
            r.1 == (old(self)@.takes_enter(*f) && Composer::enter_submits(*f, n as nat)),
            final(self)@.recall is None || final(self)@.recall == old(self)@.recall,
    {
        proof {
            lemma_spacers_keep_the_walk(self@, n as nat);
            if n > 0 {
                lemma_spacers_keep_the_walk(self@.queued(), (n - 1) as nat);
            }
        }
        if self.enter_is_taken(f) {
            (true, self.take_enters(f, n))
        } else {
            (false, false)
        }
    }

    fn read_arrows(&mut self, recs: &[BlockRec], up: u32, down: u32, caret: Option<usize>) -> (r: (
        bool,
        bool,
    ))
        requires
            old(self)@.walk_in(recs@),
        ensures
            r.0 == old(self)@.takes_up(up, caret),
            r.1 == old(self)@.takes_down(down, caret),
            final(self)@ == old(self)@.press_arrows(recs@, up, down, caret),
    {
        let (line, last) = caret_line(self.draft.as_str(), caret);
        let back: bool = up > 0 && line == 0;
        let on: bool = down > 0 && line == last;
        if back {
            self.recall_prev(recs);
        }
        if on {
            self.recall_next(recs);
        }
        (back, on)
    }

    fn read_ghost(
        &mut self,
        recs: &[BlockRec],
        right: u32,
        caret: Option<usize>,
        cwd: Option<&str>,
    ) -> (r: Option<usize>)
        ensures
            final(self)@ == old(self)@.press_ghost(
                recs@,
                right,
                caret,
                state::opt_str(cwd),
            ),
            opt_int(r) == match old(self)@.press_takes(
                recs@,
                right,
                caret,
                state::opt_str(cwd),
            ) {
                Some(rest) => Some((old(self)@.draft.len() + rest.len()) as int),
                None => None,
            },
    {
        let inside: bool = match caret {
            Some(c) => c < self.draft.as_str().unicode_len(),
            None => false,
        };
        if right == 0 || inside {
            return None;
        }
        match self.ghost_shown(recs, cwd) {
            Some(rest) => Some(self.ghost_accept(rest.as_str())),
            None => None,
        }
    }

    fn read_midway(
        &mut self,
        backend: &TermBackend,
        recs: &[BlockRec],
        f: &Frame,
        running: bool,
        k: &Press,
        now: Instant,
    ) -> (r: (Option<CopyAction>, Vec<u8>, Option<usize>))
        ensures
            final(self)@ == old(self)@.press_midway(recs@, *f, running, *k, now),
            old(self)@.walk_in(recs@) ==> final(self)@.walk_in(recs@),
            r.0 == (Composer {
                caret_to_end: false,
                ..old(self)@.press_search(recs@, *k)
            }).press_copies(*f, running, *k),
            r.1@ == if r.0 == Some(CopyAction::Interrupt) {
                encode::interrupt_chord(*backend)
            } else {
                Seq::empty()
            },
            r.2 == if old(self)@.press_search(recs@, *k).caret_to_end {
                Some(old(self)@.press_search(recs@, *k).draft.len() as usize)
            } else {
                None
            },
            old(self)@.press_search(recs@, *k).draft.len() <= usize::MAX,
    {
        self.read_search(recs, k);
        let asked = self.take_caret_to_end();
        let (copy, write) = self.read_copy(backend, f, running, k, now);
        (copy, write, asked)
    }

    /// Enter and the arrows.
    fn read_lines(
        &mut self,
        recs: &[BlockRec],
        f: &Frame,
        k: &Press,
        caret: Option<usize>,
        cwd: Option<&str>,
    ) -> (r: LinesRead)
        requires
            old(self)@.walk_in(recs@),
        ensures
            final(self)@ == old(self)@.press_lines(
                recs@,
                *f,
                *k,
                caret,
                state::opt_str(cwd),
            ),
            r.enter == (old(self)@.reads_lines(*k) && old(self)@.takes_enter(*f)),
            r.submit == (r.enter && Composer::enter_submits(*f, k.enters as nat)),
            r.up == (old(self)@.reads_lines(*k) && old(self)@.press_enters(
                *f,
                k.enters as nat,
            ).takes_up(k.up, caret)),
            r.down == (old(self)@.reads_lines(*k) && old(self)@.press_enters(
                *f,
                k.enters as nat,
            ).takes_down(k.down, caret)),
            opt_int(r.caret) == old(self)@.press_lands(
                recs@,
                *f,
                *k,
                caret,
                state::opt_str(cwd),
            ),
    {
        if !(self.has_focus && !k.overlay_open && self.search.is_none()) {
            return LinesRead { enter: false, submit: false, up: false, down: false, caret: None };
        }
        let (enter, submit) = self.read_enters(f, k.enters);
        let (up, down) = self.read_arrows(recs, k.up, k.down, caret);
        let taken = self.read_ghost(recs, k.right, caret, cwd);
        LinesRead { enter, submit, up, down, caret: taken }
    }

    /// The keys of a frame, up to completion.
    pub fn press(
        &mut self,
        backend: &TermBackend,
        recs: &[BlockRec],
        f: &Frame,
        running: bool,
        k: &Press,
        cwd: Option<&str>,
        now: Instant,
    ) -> (r: Pressed)
        requires
            old(self)@.walk_in(recs@),
        ensures
            final(self)@ == old(self)@.pressed(
                recs@,
                *f,
                running,
                *k,
                state::opt_str(cwd),
                now,
            ),
            ({
                let s = Composer {
                    caret_to_end: false,
                    ..old(self)@.press_search(recs@, *k)
                };
                let m = old(self)@.press_midway(recs@, *f, running, *k, now);
                let left = old(self)@.press_left(*k);
                let caret = old(self)@.press_search(recs@, *k).press_caret(*k);
                &&& r.copy == s.press_copies(*f, running, *k)
                &&& r.write@ == if r.copy == Some(CopyAction::Interrupt) {
                    encode::interrupt_chord(*backend)
                } else {
                    Seq::empty()
                }
                &&& r.took_enter == (m.reads_lines(left) && m.takes_enter(*f))
                &&& r.submit == (r.took_enter && Composer::enter_submits(*f, left.enters as nat))
                &&& r.took_up == (m.reads_lines(left) && m.press_enters(
                    *f,
                    left.enters as nat,
                ).takes_up(left.up, caret))
                &&& r.took_down == (m.reads_lines(left) && m.press_enters(
                    *f,
                    left.enters as nat,
                ).takes_down(left.down, caret))
                &&& r.took_right == m.press_lands(
                    recs@,
                    *f,
                    left,
                    caret,
                    state::opt_str(cwd),
                ) is Some
                &&& opt_int(r.caret) == old(self)@.press_puts(
                    recs@,
                    *f,
                    running,
                    *k,
                    state::opt_str(cwd),
                    now,
                )
            }),
    {
        let left = self.keys_left(k);
        let (copy, write, asked) = self.read_midway(backend, recs, f, running, k, now);
        let caret: Option<usize> = match asked {
            Some(end) => Some(end),
            None => k.caret,
        };
        let l = self.read_lines(recs, f, &left, caret, cwd);
        let took_right: bool = l.caret.is_some();
        let put: Option<usize> = match l.caret {
            Some(c) => Some(c),
            None => asked,
        };
        Pressed {
            copy,
            write,
            submit: l.submit,
            took_enter: l.enter,
            took_up: l.up,
            took_down: l.down,
            took_right,
            caret: put,
        }
    }

    /// Tab, pressed `on` times, and Shift+Tab, pressed `back` times. Escape
    /// gives the original word of a live cycle back, and is taken. Returns the
    /// caret, in characters, and whether Escape was taken.
    pub fn press_tab(
        &mut self,
        overlay_open: bool,
        on: u32,
        back: u32,
        escape: bool,
        cwd: Option<&str>,
        home: Option<&str>,
        caret_byte: usize,
        dir: Option<&DirList>,
    ) -> (r: (Option<usize>, bool))
        requires
            old(self).tab matches Some(c) ==> c.wf(),
        ensures
            final(self).tab matches Some(c) ==> c.wf(),
            r.1 == (!overlay_open && escape && old(self)@.cycling()),
            r.1 ==> final(self)@ == (Composer {
                draft: old(self).tab->0.restored(),
                tab: None,
                ..old(self)@
            }) && r.0 == Some(
                (old(self).tab->0.head@.len() + old(self).tab->0.original@.len()) as usize,
            ),
            !r.1 && (overlay_open || old(self)@.tab_idle(on - back)) ==> r.0 is None && final(self)@
                == old(self)@,
            !r.1 && !overlay_open && !old(self)@.tab_idle(on - back) && old(self)@.cycling()
                ==> tab::stepped(old(self)@, final(self)@, on - back, r.0),
            !r.1 && !overlay_open && !old(self)@.tab_idle(on - back) && !old(self)@.cycling()
                ==> tab::applied(
                old(self)@,
                final(self)@,
                tab::started(
                    old(self)@.fam,
                    state::opt_str(cwd),
                    state::opt_str(home),
                    old(self)@.draft,
                    tab::chars_to(old(self)@.draft, caret_byte as int),
                    ENUM_CAP as int,
                    tab::found(dir),
                ),
                on - back,
                r.0,
            ),
    {
        if overlay_open {
            return (None, false);
        }
        if escape && self.tab_active() {
            return (self.tab_escape(), true);
        }
        let delta: i64 = on as i64 - back as i64;
        (self.tab_press(cwd, home, caret_byte, delta, dir), false)
    }
}

/// What the editor did in a frame.
#[derive(Clone, Copy, PartialEq, Eq, Structural, Debug)]
pub struct EditorDid {
    /// Its text changed.
    pub changed: bool,
    /// It lost the focus.
    pub lost: bool,
    /// It had the focus when it was shown.
    pub holding: bool,
    /// Escape was pressed and not taken.
    pub escape: bool,
}

impl Composer {
    /// After what the editor did to its text.
    pub open spec fn retyped(self, d: EditorDid) -> Composer {
        if d.changed {
            self.edited()
        } else {
            self
        }
    }

    /// Where the focus goes once the editor was shown.
    pub open spec fn editor_moves(self, d: EditorDid, overlay_open: bool) -> FocusMove {
        self.retyped(d).focus_move(d.lost, d.escape, overlay_open, d.holding)
    }

    /// After the edit and the focus.
    pub open spec fn shown(self, d: EditorDid, overlay_open: bool) -> Composer {
        self.retyped(d).focus_moved(self.editor_moves(d, overlay_open))
    }

    /// After the frame shipped what it ships: the draft where it is submitted,
    /// else the next of the queue, unless something was shipped already.
    pub open spec fn shipped(
        self,
        submit: bool,
        already: bool,
        b: TermBackend,
        cover: Option<i32>,
        cwd: Option<Seq<char>>,
        now: Instant,
    ) -> Composer {
        if submit {
            self.submitted(b, cover, cwd, now)
        } else if !already && self.may_pump(b) {
            self.popped().dispatched(b, cover, cwd, self.pending[0], now)
        } else {
            self
        }
    }

    /// The bytes that it ships, and whether they are the empty-Enter gesture.
    pub open spec fn ships(self, submit: bool, already: bool, b: TermBackend) -> Option<
        (Seq<u8>, bool),
    > {
        if submit {
            Some(
                (
                    self.submit_bytes(b),
                    !self.submits_late(b) && text::blank(self.draft),
                ),
            )
        } else if !already && self.may_pump(b) {
            Some((self.dispatch_bytes(b, self.pending[0]), text::blank(self.pending[0])))
        } else {
            None
        }
    }
}

pub open spec fn shipment(r: Option<(Vec<u8>, bool)>) -> Option<(Seq<u8>, bool)> {
    match r {
        Some((bytes, spacer)) => Some((bytes@, spacer)),
        None => None,
    }
}

impl ComposerState {
    /// The frame after the editor was shown, up to the focus. Returns where the
    /// focus goes.
    pub fn after_editor(&mut self, d: &EditorDid, overlay_open: bool) -> (m: FocusMove)
        ensures
            m == old(self)@.editor_moves(*d, overlay_open),
            final(self)@ == old(self)@.shown(*d, overlay_open),
    {
        if d.changed {
            self.on_edit();
        }
        self.move_focus(d.lost, d.escape, overlay_open, d.holding)
    }

    /// The frame after the focus was moved. `holding`: the editor has it now.
    /// Returns what the frame ships.
    pub fn after_focus(
        &mut self,
        holding: bool,
        submit: bool,
        already: bool,
        backend: &TermBackend,
        cover_line: Option<i32>,
        cwd: Option<&str>,
        now: Instant,
    ) -> (r: Option<(Vec<u8>, bool)>)
        ensures
            ({
                let s = old(self)@.focus_confirmed(holding);
                &&& shipment(r) == s.ships(submit, already, *backend)
                &&& final(self)@ == s.shipped(
                    submit,
                    already,
                    *backend,
                    cover_line,
                    state::opt_str(cwd),
                    now,
                )
            }),
    {
        self.confirm_focus(holding);
        self.ship(submit, already, backend, cover_line, cwd, now)
    }
}

/// A frame in which something was shipped already ships nothing more: the
/// queue waits for the next one.
pub proof fn a_frame_ships_once(c: Composer, b: TermBackend)
    ensures
        c.ships(false, true, b) is None,
{
}

/// While something floats over the card no key reaches the editor, the search
/// or the queue: only the copy chord is read.
pub proof fn overlays_keep_the_keys(
    c: Composer,
    recs: Seq<BlockRec>,
    f: Frame,
    running: bool,
    k: Press,
    cwd: Option<Seq<char>>,
    now: Instant,
)
    requires
        k.overlay_open,
        !k.copy,
    ensures
        c.pressed(recs, f, running, k, cwd, now) == (Composer { caret_to_end: false, ..c }),
{
}

/// Enter in an open search never submits: the command that it takes is the
/// draft, and what waits to go out is as it was.
pub proof fn enter_in_a_search_never_submits(
    c: Composer,
    recs: Seq<BlockRec>,
    f: Frame,
    running: bool,
    k: Press,
    cwd: Option<Seq<char>>,
    now: Instant,
)
    requires
        c.search is Some,
        !k.overlay_open,
        !k.copy,
        k.enters > 0,
    ensures
        c.pressed(recs, f, running, k, cwd, now).search is None,
        c.pressed(recs, f, running, k, cwd, now).pending == c.pending,
        c.pressed(recs, f, running, k, cwd, now).pending_submit_cmd == c.pending_submit_cmd,
        c.pressed(recs, f, running, k, cwd, now).post_submit == c.post_submit,
        !Composer::enter_submits(f, c.press_left(k).enters as nat),
{
}

} // verus!
