//! Key and mouse bindings: what an input does, by its modifiers and the
//! terminal's mode.

use vstd::prelude::*;

use crate::keys;
use crate::keys::{matches_exact, Key, Modifiers};
use crate::term::{mode_contains, mode_intersects, APP_CURSOR};

verus! {

/// What an input does.
#[derive(Clone, PartialEq, Eq, Hash, Debug)]
pub enum BindingAction {
    Copy,
    Paste,
    Char(char),
    Esc(String),
    LinkOpen,
    Ignore,
}

/// What an input does.
pub enum Action {
    Copy,
    Paste,
    Char(char),
    Esc(Seq<char>),
    LinkOpen,
    Ignore,
}

impl View for BindingAction {
    type V = Action;

    open spec fn view(&self) -> Action {
        match *self {
            BindingAction::Copy => Action::Copy,
            BindingAction::Paste => Action::Paste,
            BindingAction::Char(c) => Action::Char(c),
            BindingAction::Esc(s) => Action::Esc(s@),
            BindingAction::LinkOpen => Action::LinkOpen,
            BindingAction::Ignore => Action::Ignore,
        }
    }
}

impl BindingAction {
    pub fn copy(&self) -> (r: BindingAction)
        ensures
            r@ == self@,
    {
        match self {
            BindingAction::Copy => BindingAction::Copy,
            BindingAction::Paste => BindingAction::Paste,
            BindingAction::Char(c) => BindingAction::Char(*c),
            BindingAction::Esc(s) => BindingAction::Esc(s.clone()),
            BindingAction::LinkOpen => BindingAction::LinkOpen,
            BindingAction::Ignore => BindingAction::Ignore,
        }
    }
}

#[derive(Clone, Copy, PartialEq, Eq, Structural, Debug)]
pub enum PointerButton {
    Primary,
    Secondary,
    Middle,
    Extra1,
    Extra2,
}

#[derive(Clone, Copy, PartialEq, Eq, Structural, Debug)]
pub enum InputKind {
    KeyCode(Key),
    Mouse(PointerButton),
}

/// An input with its modifiers, in terminals with all of the one mode and none
/// of the other.
#[derive(Clone, Copy, PartialEq, Eq, Structural, Debug)]
pub struct Binding {
    pub target: InputKind,
    pub modifiers: Modifiers,
    pub terminal_mode_include: u32,
    pub terminal_mode_exclude: u32,
}

/// The bindings, in the order in which they are tried.
#[derive(Debug)]
pub struct BindingsLayout {
    pub layout: Vec<(Binding, BindingAction)>,
}

pub open spec fn entries(v: Seq<(Binding, BindingAction)>) -> Seq<(Binding, Action)> {
    Seq::new(v.len(), |i: int| (v[i].0, v[i].1@))
}

impl View for BindingsLayout {
    type V = Seq<(Binding, Action)>;

    open spec fn view(&self) -> Seq<(Binding, Action)> {
        entries(self.layout@)
    }
}

/// The position of a binding among `s`, or the length where it is not there.
pub open spec fn position(s: Seq<(Binding, Action)>, b: Binding) -> int
    decreases s.len(),
{
    if s.len() == 0 || s[0].0 == b {
        0
    } else {
        1 + position(s.drop_first(), b)
    }
}

/// `s` with the binding's action: in its place where it is bound already, else
/// at the end.
pub open spec fn bound(s: Seq<(Binding, Action)>, b: Binding, a: Action) -> Seq<(Binding, Action)> {
    let p = position(s, b);
    if p < s.len() {
        s.update(p, (b, a))
    } else {
        s.push((b, a))
    }
}

/// `s` with all of `more` bound, in order.
pub open spec fn all_bound(s: Seq<(Binding, Action)>, more: Seq<(Binding, Action)>) -> Seq<
    (Binding, Action),
>
    decreases more.len(),
{
    if more.len() == 0 {
        s
    } else {
        bound(all_bound(s, more.drop_last()), more.last().0, more.last().1)
    }
}

/// The binding fires.
pub open spec fn fires(b: Binding, input: InputKind, held: Modifiers, mode: u32) -> bool {
    &&& b.target == input
    &&& keys::held_exactly(held, b.modifiers)
    &&& mode & b.terminal_mode_include == b.terminal_mode_include
    &&& mode & b.terminal_mode_exclude == 0
}

/// The action of the first binding that fires.
pub open spec fn action(
    s: Seq<(Binding, Action)>,
    input: InputKind,
    held: Modifiers,
    mode: u32,
) -> Action
    decreases s.len(),
{
    if s.len() == 0 {
        Action::Ignore
    } else if fires(s[0].0, input, held, mode) {
        s[0].1
    } else {
        action(s.drop_first(), input, held, mode)
    }
}

pub open spec fn none_held() -> Modifiers {
    Modifiers { alt: false, ctrl: false, shift: false, mac_cmd: false, command: false }
}

pub open spec fn shift_held() -> Modifiers {
    Modifiers { shift: true, ..none_held() }
}

pub open spec fn key_binding(key: Key, held: Modifiers, incl: u32, excl: u32) -> Binding {
    Binding {
        target: InputKind::KeyCode(key),
        modifiers: held,
        terminal_mode_include: incl,
        terminal_mode_exclude: excl,
    }
}

pub open spec fn plain_char(key: Key, c: char) -> (Binding, Action) {
    (key_binding(key, none_held(), 0, 0), Action::Char(c))
}

pub open spec fn plain_esc(key: Key, s: Seq<char>) -> (Binding, Action) {
    (key_binding(key, none_held(), 0, 0), Action::Esc(s))
}

pub open spec fn normal_esc(key: Key, s: Seq<char>) -> (Binding, Action) {
    (key_binding(key, none_held(), 0, APP_CURSOR), Action::Esc(s))
}

pub open spec fn app_esc(key: Key, s: Seq<char>) -> (Binding, Action) {
    (key_binding(key, none_held(), APP_CURSOR, 0), Action::Esc(s))
}

/// The keys whose encodings follow no formula.
pub open spec fn key_table() -> Seq<(Binding, Action)> {
    seq![
        plain_char(Key::Enter, '\r'),
        plain_char(Key::Backspace, '\u{7f}'),
        plain_char(Key::Escape, '\u{1b}'),
        plain_char(Key::Tab, '\t'),
        plain_esc(Key::Insert, "\u{1b}[2~"@),
        plain_esc(Key::Delete, "\u{1b}[3~"@),
        plain_esc(Key::PageUp, "\u{1b}[5~"@),
        plain_esc(Key::PageDown, "\u{1b}[6~"@),
        plain_esc(Key::F(1), "\u{1b}OP"@),
        plain_esc(Key::F(2), "\u{1b}OQ"@),
        plain_esc(Key::F(3), "\u{1b}OR"@),
        plain_esc(Key::F(4), "\u{1b}OS"@),
        plain_esc(Key::F(5), "\u{1b}[15~"@),
        plain_esc(Key::F(6), "\u{1b}[17~"@),
        plain_esc(Key::F(7), "\u{1b}[18~"@),
        plain_esc(Key::F(8), "\u{1b}[19~"@),
        plain_esc(Key::F(9), "\u{1b}[20~"@),
        plain_esc(Key::F(10), "\u{1b}[21~"@),
        plain_esc(Key::F(11), "\u{1b}[23~"@),
        plain_esc(Key::F(12), "\u{1b}[24~"@),
        normal_esc(Key::End, "\u{1b}[F"@),
        normal_esc(Key::Home, "\u{1b}[H"@),
        normal_esc(Key::ArrowUp, "\u{1b}[A"@),
        normal_esc(Key::ArrowDown, "\u{1b}[B"@),
        normal_esc(Key::ArrowLeft, "\u{1b}[D"@),
        normal_esc(Key::ArrowRight, "\u{1b}[C"@),
        app_esc(Key::End, "\u{1b}OF"@),
        app_esc(Key::Home, "\u{1b}OH"@),
        app_esc(Key::ArrowUp, "\u{1b}OA"@),
        app_esc(Key::ArrowDown, "\u{1b}OB"@),
        app_esc(Key::ArrowLeft, "\u{1b}OD"@),
        app_esc(Key::ArrowRight, "\u{1b}OC"@),
        (key_binding(Key::Enter, shift_held(), 0, 0), Action::Char('\r')),
        (key_binding(Key::Escape, shift_held(), 0, 0), Action::Char('\u{1b}')),
        (key_binding(Key::Backspace, shift_held(), 0, 0), Action::Char('\u{7f}')),
        (
            key_binding(Key::Backspace, Modifiers { ctrl: true, ..none_held() }, 0, 0),
            Action::Char('\u{8}'),
        ),
        (
            key_binding(Key::Backspace, Modifiers { alt: true, ..none_held() }, 0, 0),
            Action::Esc("\u{1b}\u{7f}"@),
        ),
        (key_binding(Key::Tab, shift_held(), 0, 0), Action::Esc("\u{1b}[Z"@)),
    ]
}

/// Copy and paste.
pub open spec fn clipboard_table() -> Seq<(Binding, Action)> {
    let held = Modifiers { shift: true, command: true, ..none_held() };
    seq![
        (key_binding(Key::Letter(2), held, 0, 0), Action::Copy),
        (key_binding(Key::Letter(21), held, 0, 0), Action::Paste),
    ]
}

/// A click with command opens a link.
pub open spec fn mouse_table() -> Seq<(Binding, Action)> {
    seq![
        (
            Binding {
                target: InputKind::Mouse(PointerButton::Primary),
                modifiers: Modifiers { command: true, ..none_held() },
                terminal_mode_include: 0,
                terminal_mode_exclude: 0,
            },
            Action::LinkOpen,
        ),
    ]
}

fn no_modifiers() -> (m: Modifiers)
    ensures
        m == none_held(),
{
    Modifiers { alt: false, ctrl: false, shift: false, mac_cmd: false, command: false }
}

fn put(v: &mut Vec<(Binding, BindingAction)>, b: Binding, a: BindingAction)
    ensures
        entries(final(v)@) == entries(old(v)@).push((b, a@)),
{
    let ghost before = entries(v@);
    let ghost n = (b, a@);
    v.push((b, a));
    assert(entries(v@) =~= before.push(n));
}

fn put_char(v: &mut Vec<(Binding, BindingAction)>, key: Key, held: Modifiers, c: char)
    ensures
        entries(final(v)@) == entries(old(v)@).push((key_binding(key, held, 0, 0), Action::Char(c))),
{
    let b = Binding {
        target: InputKind::KeyCode(key),
        modifiers: held,
        terminal_mode_include: 0,
        terminal_mode_exclude: 0,
    };
    put(v, b, BindingAction::Char(c));
}

fn put_esc(
    v: &mut Vec<(Binding, BindingAction)>,
    key: Key,
    held: Modifiers,
    incl: u32,
    excl: u32,
    s: &str,
)
    ensures
        entries(final(v)@) == entries(old(v)@).push(
            (key_binding(key, held, incl, excl), Action::Esc(s@)),
        ),
{
    let b = Binding {
        target: InputKind::KeyCode(key),
        modifiers: held,
        terminal_mode_include: incl,
        terminal_mode_exclude: excl,
    };
    put(v, b, BindingAction::Esc(s.to_owned()));
}

pub fn default_keyboard_bindings() -> (v: Vec<(Binding, BindingAction)>)
    ensures
        entries(v@) == key_table(),
{
    let n = no_modifiers();
    let shift = Modifiers { shift: true, ..n };
    let ctrl = Modifiers { ctrl: true, ..n };
    let alt = Modifiers { alt: true, ..n };
    let mut v: Vec<(Binding, BindingAction)> = Vec::new();
    put_char(&mut v, Key::Enter, n, '\r');
    put_char(&mut v, Key::Backspace, n, '\u{7f}');
    put_char(&mut v, Key::Escape, n, '\u{1b}');
    put_char(&mut v, Key::Tab, n, '\t');
    put_esc(&mut v, Key::Insert, n, 0, 0, "\u{1b}[2~");
    put_esc(&mut v, Key::Delete, n, 0, 0, "\u{1b}[3~");
    put_esc(&mut v, Key::PageUp, n, 0, 0, "\u{1b}[5~");
    put_esc(&mut v, Key::PageDown, n, 0, 0, "\u{1b}[6~");
    put_esc(&mut v, Key::F(1), n, 0, 0, "\u{1b}OP");
    put_esc(&mut v, Key::F(2), n, 0, 0, "\u{1b}OQ");
    put_esc(&mut v, Key::F(3), n, 0, 0, "\u{1b}OR");
    put_esc(&mut v, Key::F(4), n, 0, 0, "\u{1b}OS");
    put_esc(&mut v, Key::F(5), n, 0, 0, "\u{1b}[15~");
    put_esc(&mut v, Key::F(6), n, 0, 0, "\u{1b}[17~");
    put_esc(&mut v, Key::F(7), n, 0, 0, "\u{1b}[18~");
    put_esc(&mut v, Key::F(8), n, 0, 0, "\u{1b}[19~");
    put_esc(&mut v, Key::F(9), n, 0, 0, "\u{1b}[20~");
    put_esc(&mut v, Key::F(10), n, 0, 0, "\u{1b}[21~");
    put_esc(&mut v, Key::F(11), n, 0, 0, "\u{1b}[23~");
    put_esc(&mut v, Key::F(12), n, 0, 0, "\u{1b}[24~");
    put_esc(&mut v, Key::End, n, 0, APP_CURSOR, "\u{1b}[F");
    put_esc(&mut v, Key::Home, n, 0, APP_CURSOR, "\u{1b}[H");
    put_esc(&mut v, Key::ArrowUp, n, 0, APP_CURSOR, "\u{1b}[A");
    put_esc(&mut v, Key::ArrowDown, n, 0, APP_CURSOR, "\u{1b}[B");
    put_esc(&mut v, Key::ArrowLeft, n, 0, APP_CURSOR, "\u{1b}[D");
    put_esc(&mut v, Key::ArrowRight, n, 0, APP_CURSOR, "\u{1b}[C");
    put_esc(&mut v, Key::End, n, APP_CURSOR, 0, "\u{1b}OF");
    put_esc(&mut v, Key::Home, n, APP_CURSOR, 0, "\u{1b}OH");
    put_esc(&mut v, Key::ArrowUp, n, APP_CURSOR, 0, "\u{1b}OA");
    put_esc(&mut v, Key::ArrowDown, n, APP_CURSOR, 0, "\u{1b}OB");
    put_esc(&mut v, Key::ArrowLeft, n, APP_CURSOR, 0, "\u{1b}OD");
    put_esc(&mut v, Key::ArrowRight, n, APP_CURSOR, 0, "\u{1b}OC");
    put_char(&mut v, Key::Enter, shift, '\r');
    put_char(&mut v, Key::Escape, shift, '\u{1b}');
    put_char(&mut v, Key::Backspace, shift, '\u{7f}');
    put_char(&mut v, Key::Backspace, ctrl, '\u{8}');
    put_esc(&mut v, Key::Backspace, alt, 0, 0, "\u{1b}\u{7f}");
    put_esc(&mut v, Key::Tab, shift, 0, 0, "\u{1b}[Z");
    assert(entries(v@) =~= key_table());
    v
}

pub fn platform_keyboard_bindings() -> (v: Vec<(Binding, BindingAction)>)
    ensures
        entries(v@) == clipboard_table(),
{
    let held = Modifiers { shift: true, command: true, ..no_modifiers() };
    let mut v: Vec<(Binding, BindingAction)> = Vec::new();
    let copy = Binding {
        target: InputKind::KeyCode(Key::Letter(2)),
        modifiers: held,
        terminal_mode_include: 0,
        terminal_mode_exclude: 0,
    };
    put(&mut v, copy, BindingAction::Copy);
    put(&mut v, Binding { target: InputKind::KeyCode(Key::Letter(21)), ..copy }, BindingAction::Paste);
    assert(entries(v@) =~= clipboard_table());
    v
}

pub fn mouse_default_bindings() -> (v: Vec<(Binding, BindingAction)>)
    ensures
        entries(v@) == mouse_table(),
{
    let mut v: Vec<(Binding, BindingAction)> = Vec::new();
    let click = Binding {
        target: InputKind::Mouse(PointerButton::Primary),
        modifiers: Modifiers { command: true, ..no_modifiers() },
        terminal_mode_include: 0,
        terminal_mode_exclude: 0,
    };
    put(&mut v, click, BindingAction::LinkOpen);
    assert(entries(v@) =~= mouse_table());
    v
}

/// The bindings of a fresh layout.
pub open spec fn default_entries() -> Seq<(Binding, Action)> {
    all_bound(all_bound(key_table(), clipboard_table()), mouse_table())
}

impl Default for BindingsLayout {
    fn default() -> (r: BindingsLayout)
        ensures
            r@ == default_entries(),
    {
        BindingsLayout::new()
    }
}

impl BindingsLayout {
    pub fn new() -> (r: BindingsLayout)
        ensures
            r@ == default_entries(),
    {
        let mut layout = BindingsLayout { layout: default_keyboard_bindings() };
        layout.add_bindings(platform_keyboard_bindings());
        layout.add_bindings(mouse_default_bindings());
        layout
    }

    fn find(&self, b: &Binding) -> (p: usize)
        ensures
            p == position(self@, *b),
            p <= self.layout@.len(),
    {
        let mut i: usize = 0;
        assert(self@.skip(0) =~= self@);
        while i < self.layout.len() && self.layout[i].0 != *b
            invariant
                i <= self.layout@.len(),
                i + position(self@.skip(i as int), *b) == position(self@, *b),
            decreases self.layout@.len() - i,
        {
            proof {
                assert(self@.skip(i as int)[0] == self@[i as int]);
                assert(self@.skip(i as int).drop_first() =~= self@.skip(i + 1));
            }
            i = i + 1;
        }
        proof {
            if i < self.layout@.len() {
                assert(self@.skip(i as int)[0] == self@[i as int]);
            }
        }
        i
    }

    fn bind(&mut self, b: Binding, a: BindingAction)
        ensures
            final(self)@ == bound(old(self)@, b, a@),
    {
        let p: usize = self.find(&b);
        let ghost before = self@;
        let ghost n = (b, a@);
        if p < self.layout.len() {
            self.layout.set(p, (b, a));
            assert(self@ =~= before.update(p as int, n));
        } else {
            self.layout.push((b, a));
            assert(self@ =~= before.push(n));
        }
    }

    /// Bind more inputs. One that is bound already gets the new action.
    pub fn add_bindings(&mut self, bindings: Vec<(Binding, BindingAction)>)
        ensures
            final(self)@ == all_bound(old(self)@, entries(bindings@)),
    {
        let ghost all = entries(bindings@);
        let mut i: usize = 0;
        assert(all.take(0) =~= Seq::<(Binding, Action)>::empty());
        while i < bindings.len()
            invariant
                i <= bindings@.len(),
                all == entries(bindings@),
                self@ == all_bound(old(self)@, all.take(i as int)),
            decreases bindings@.len() - i,
        {
            proof {
                assert(all.take(i + 1).drop_last() =~= all.take(i as int));
                assert(all.take(i + 1).last() == all[i as int]);
            }
            let b = bindings[i].0;
            let a = bindings[i].1.copy();
            self.bind(b, a);
            i = i + 1;
        }
        assert(all.take(all.len() as int) =~= all);
    }

    /// The action of the first binding that fires, or to ignore the input.
    pub fn get_action(&self, input: InputKind, modifiers: Modifiers, terminal_mode: u32) -> (r:
        BindingAction)
        ensures
            r@ == action(self@, input, modifiers, terminal_mode),
    {
        let mut i: usize = 0;
        assert(self@.skip(0) =~= self@);
        while i < self.layout.len()
            invariant
                i <= self.layout@.len(),
                action(self@.skip(i as int), input, modifiers, terminal_mode) == action(
                    self@,
                    input,
                    modifiers,
                    terminal_mode,
                ),
            decreases self.layout@.len() - i,
        {
            proof {
                assert(self@.skip(i as int)[0] == self@[i as int]);
                assert(self@.skip(i as int).drop_first() =~= self@.skip(i + 1));
            }
            let b = self.layout[i].0;
            if b.target == input && matches_exact(modifiers, b.modifiers) && mode_contains(
                terminal_mode,
                b.terminal_mode_include,
            ) && !mode_intersects(terminal_mode, b.terminal_mode_exclude) {
                return self.layout[i].1.copy();
            }
            i = i + 1;
        }
        BindingAction::Ignore
    }
}

/// No two entries bind the same input.
pub open spec fn distinct(s: Seq<(Binding, Action)>) -> bool {
    forall|i: int, j: int| 0 <= i < j < s.len() ==> (#[trigger] s[i]).0 != (#[trigger] s[j]).0
}

proof fn lemma_position(s: Seq<(Binding, Action)>, b: Binding)
    ensures
        0 <= position(s, b) <= s.len(),
        position(s, b) < s.len() ==> s[position(s, b)].0 == b,
        forall|i: int| 0 <= i < position(s, b) ==> (#[trigger] s[i]).0 != b,
    decreases s.len(),
{
    if s.len() > 0 && s[0].0 != b {
        lemma_position(s.drop_first(), b);
        assert forall|i: int| 0 <= i < position(s, b) implies (#[trigger] s[i]).0 != b by {
            if i > 0 {
                assert(s.drop_first()[i - 1] == s[i]);
            }
        }
    }
}

/// Binding an input keeps the others' bindings apart, and leaves exactly one
/// entry for it, with the new action.
pub proof fn binding_replaces(s: Seq<(Binding, Action)>, b: Binding, a: Action)
    requires
        distinct(s),
    ensures
        distinct(bound(s, b, a)),
        bound(s, b, a).contains((b, a)),
        forall|i: int|
            0 <= i < bound(s, b, a).len() && (#[trigger] bound(s, b, a)[i]).0 == b ==> bound(
                s,
                b,
                a,
            )[i].1 == a,
        forall|i: int|
            0 <= i < s.len() && (#[trigger] s[i]).0 != b ==> bound(s, b, a)[i] == s[i],
{
    lemma_position(s, b);
    let r = bound(s, b, a);
    let p = position(s, b);
    if p < s.len() {
        assert(r[p] == (b, a));
        assert forall|i: int, j: int| 0 <= i < j < r.len() implies (#[trigger] r[i]).0 != (
        #[trigger] r[j]).0 by {
            assert(r[i].0 == s[i].0);
            assert(r[j].0 == s[j].0);
        }
        assert forall|i: int| 0 <= i < r.len() && (#[trigger] r[i]).0 == b implies r[i].1 == a by {
            if i != p {
                assert(s[i].0 == b);
                assert(s[p].0 == b);
            }
        }
    } else {
        assert(r[p] == (b, a));
        assert forall|i: int, j: int| 0 <= i < j < r.len() implies (#[trigger] r[i]).0 != (
        #[trigger] r[j]).0 by {
            assert(r[i] == s[i]);
            if j < s.len() {
                assert(r[j] == s[j]);
            }
        }
        assert forall|i: int| 0 <= i < r.len() && (#[trigger] r[i]).0 == b implies r[i].1 == a by {
            if i < s.len() {
                assert(r[i] == s[i]);
            }
        }
    }
}

} // verus!
