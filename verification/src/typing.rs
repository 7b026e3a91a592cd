//! What keys send, what bindings answer, and what a row at the cursor is taken
//! for, in terms of the keys, the bytes and the characters themselves.

use vstd::prelude::*;

use crate::bindings;
use crate::bindings::{Action, Binding, InputKind, PointerButton};
use crate::keyrecord;
use crate::keys;
use crate::keys::{Key, Modifiers};
use crate::prompt;
use crate::prompt::AuthPrompt;
use crate::sending;
use crate::sending::white_from;
use crate::text;

verus! {

// Keys.

/// One more than shift counts one, alt two and control four.
pub open spec fn weight(shift: bool, alt: bool, ctrl: bool) -> int {
    match (shift, alt, ctrl) {
        (false, false, false) => 1,
        (true, false, false) => 2,
        (false, true, false) => 3,
        (true, true, false) => 4,
        (false, false, true) => 5,
        (true, false, true) => 6,
        (false, true, true) => 7,
        (true, true, true) => 8,
    }
}

/// Control is held, or what stands in for it.
pub open spec fn controlled(m: Modifiers) -> bool {
    m.ctrl || m.command
}

/// The letter that ends a key's sequence, for the keys that have one.
pub open spec fn final_letter(key: Key) -> Option<u8> {
    match key {
        Key::ArrowUp => Some(65),
        Key::ArrowDown => Some(66),
        Key::ArrowRight => Some(67),
        Key::ArrowLeft => Some(68),
        Key::End => Some(70),
        Key::Home => Some(72),
        Key::F(1) => Some(80),
        Key::F(2) => Some(81),
        Key::F(3) => Some(82),
        Key::F(4) => Some(83),
        _ => None,
    }
}

/// Cursor keys, Home, End and the first four function keys send `ESC [` and
/// their letter; with modifiers held `ESC [ 1 ;`, the modifiers' number and
/// the letter.
pub proof fn letters_end_their_sequences(key: Key, m: Modifiers, c: u8)
    requires
        final_letter(key) == Some(c),
    ensures
        ({
            let w = weight(m.shift, m.alt, controlled(m));
            keys::fallback(key, m) == Some(
                if w == 1 {
                    seq![27u8, 91u8, c]
                } else {
                    seq![27u8, 91u8, 49u8, 59u8, (48 + w) as u8, c]
                },
            )
        }),
{
    let w = weight(m.shift, m.alt, controlled(m));
    if w != 1 {
        assert(seq![27u8, 91u8, 49u8, 59u8] + keys::digits(w) + seq![c] =~= seq![
            27u8,
            91u8,
            49u8,
            59u8,
            (48 + w) as u8,
            c,
        ]);
    }
}

/// The number in the sequence of a key that has one, by its two digits, the
/// first a zero that is not sent.
pub open spec fn sequence_number(key: Key) -> Option<(int, int)> {
    match key {
        Key::Insert => Some((0, 2)),
        Key::Delete => Some((0, 3)),
        Key::PageUp => Some((0, 5)),
        Key::PageDown => Some((0, 6)),
        Key::F(5) => Some((1, 5)),
        Key::F(6) => Some((1, 7)),
        Key::F(7) => Some((1, 8)),
        Key::F(8) => Some((1, 9)),
        Key::F(9) => Some((2, 0)),
        Key::F(10) => Some((2, 1)),
        Key::F(11) => Some((2, 3)),
        Key::F(12) => Some((2, 4)),
        Key::F(13) => Some((2, 5)),
        Key::F(14) => Some((2, 6)),
        Key::F(15) => Some((2, 8)),
        Key::F(16) => Some((2, 9)),
        Key::F(17) => Some((3, 1)),
        Key::F(18) => Some((3, 2)),
        Key::F(19) => Some((3, 3)),
        Key::F(20) => Some((3, 4)),
        _ => None,
    }
}

/// Insert, Delete, the page keys and the function keys from the fifth to the
/// twentieth send `ESC [`, their number and a tilde; with modifiers held a
/// semicolon and the modifiers' number stand before the tilde.
pub proof fn numbers_name_the_other_keys(key: Key, m: Modifiers, tens: int, ones: int)
    requires
        sequence_number(key) == Some((tens, ones)),
    ensures
        ({
            let w = weight(m.shift, m.alt, controlled(m));
            let n = if tens == 0 {
                seq![(48 + ones) as u8]
            } else {
                seq![(48 + tens) as u8, (48 + ones) as u8]
            };
            keys::fallback(key, m) == Some(
                if w == 1 {
                    seq![27u8, 91u8] + n + seq![126u8]
                } else {
                    seq![27u8, 91u8] + n + seq![59u8, (48 + w) as u8, 126u8]
                },
            )
        }),
{
    let w = weight(m.shift, m.alt, controlled(m));
    let n = if tens == 0 {
        seq![(48 + ones) as u8]
    } else {
        seq![(48 + tens) as u8, (48 + ones) as u8]
    };
    assert(keys::digits(10 * tens + ones) =~= n);
    if w != 1 {
        assert(seq![27u8, 91u8] + n + seq![59u8] + keys::digits(w) + seq![126u8] =~= seq![27u8, 91u8]
            + n + seq![59u8, (48 + w) as u8, 126u8]);
    }
}

/// Control makes a letter the byte of its place in the alphabet, whatever
/// shift is; alt makes a key send its character behind an escape, a capital
/// with shift; with neither, or with both, a letter sends nothing itself.
pub proof fn letters_with_modifiers(i: u8, m: Modifiers)
    requires
        i < 26,
    ensures
        ({
            let f = keys::fallback(Key::Letter(i), m);
            &&& controlled(m) && !m.alt ==> f == Some(seq![(i + 1) as u8])
            &&& !controlled(m) && m.alt ==> f == Some(
                seq![27u8, if m.shift {
                    (65 + i) as u8
                } else {
                    (97 + i) as u8
                }],
            )
            &&& controlled(m) == m.alt ==> f is None
        }),
{
    let c = if m.shift {
        (65 + i) as u8
    } else {
        (97 + i) as u8
    };
    lemma_one_byte(c as char);
    assert(seq![27u8] + seq![c] =~= seq![27u8, c]);
}

proof fn lemma_one_byte(c: char)
    requires
        c as u32 <= 127,
    ensures
        vstd::utf8::encode_scalar(c as u32) == seq![c as u8],
{
    let v = c as u32;
    assert((v & 0x7F) as u8 == v as u8) by (bit_vector)
        requires
            v <= 127,
    ;
    assert(vstd::utf8::encode_scalar(v) =~= seq![c as u8]);
}

/// Digits: control makes 2 to 8 the control bytes 0, 27 to 31 and 127, and
/// leaves the other digits, or with shift their marks, as they are.
pub proof fn digits_with_control(n: u8, m: Modifiers)
    requires
        n < 10,
        controlled(m),
        !m.alt,
    ensures
        keys::fallback(Key::Num(n), m) == Some(
            seq![
                if n == 2 {
                    0u8
                } else if 3 <= n <= 7 {
                    (24 + n) as u8
                } else if n == 8 {
                    127u8
                } else if !m.shift {
                    (48 + n) as u8
                } else if n == 0 {
                    41u8
                } else if n == 1 {
                    33u8
                } else {
                    40u8
                },
            ],
        ),
{
}

/// The other keys with control, and with alt: Enter is a line feed with
/// control and a return behind the escape with alt; Tab, Backspace, Escape and
/// Space likewise by their bytes.
pub proof fn editing_keys_with_modifiers(m: Modifiers)
    ensures
        controlled(m) && !m.alt ==> {
            &&& keys::fallback(Key::Enter, m) == Some(seq![10u8])
            &&& keys::fallback(Key::Tab, m) == Some(seq![9u8])
            &&& keys::fallback(Key::Backspace, m) == Some(seq![8u8])
            &&& keys::fallback(Key::Escape, m) == Some(seq![27u8])
            &&& keys::fallback(Key::Space, m) == Some(seq![0u8])
        },
        !controlled(m) && m.alt ==> {
            &&& keys::fallback(Key::Enter, m) == Some(seq![27u8, 13u8])
            &&& keys::fallback(Key::Tab, m) == Some(seq![27u8, 9u8])
            &&& keys::fallback(Key::Backspace, m) == Some(seq![27u8, 127u8])
            &&& keys::fallback(Key::Escape, m) == Some(seq![27u8, 27u8])
            &&& keys::fallback(Key::Space, m) == Some(seq![27u8, 32u8])
        },
        controlled(m) && m.alt ==> {
            &&& keys::fallback(Key::Enter, m) == Some(seq![27u8, 10u8])
            &&& keys::fallback(Key::Tab, m) == Some(seq![27u8, 9u8])
            &&& keys::fallback(Key::Backspace, m) == Some(seq![27u8, 8u8])
            &&& keys::fallback(Key::Escape, m) == Some(seq![27u8, 27u8])
            &&& keys::fallback(Key::Space, m) is None
        },
        !controlled(m) && !m.alt ==> {
            &&& keys::fallback(Key::Enter, m) is None
            &&& keys::fallback(Key::Tab, m) is None
            &&& keys::fallback(Key::Backspace, m) is None
            &&& keys::fallback(Key::Escape, m) is None
            &&& keys::fallback(Key::Space, m) is None
        },
{
    lemma_one_byte(' ');
    assert(seq![27u8] + seq![10u8] =~= seq![27u8, 10u8]);
    assert(seq![27u8] + seq![13u8] =~= seq![27u8, 13u8]);
    assert(seq![27u8] + seq![9u8] =~= seq![27u8, 9u8]);
    assert(seq![27u8] + seq![127u8] =~= seq![27u8, 127u8]);
    assert(seq![27u8] + seq![8u8] =~= seq![27u8, 8u8]);
    assert(seq![27u8] + seq![27u8] =~= seq![27u8, 27u8]);
    assert(seq![27u8] + seq![32u8] =~= seq![27u8, 32u8]);
}

/// What a key types: letters by their place, small ones without shift;
/// digits; the marks, and with shift what stands above them on the key; the
/// space; and nothing else.
pub proof fn keys_type_their_characters(i: u8, n: u8)
    ensures
        i < 26 ==> (keys::typed_char(Key::Letter(i), false) matches Some(c) && c as u32 == 97 + i)
            && (keys::typed_char(Key::Letter(i), true) matches Some(c) && c as u32 == 65 + i),
        n < 10 ==> (keys::typed_char(Key::Num(n), false) matches Some(c) && c as u32 == 48 + n)
            && keys::typed_char(Key::Num(n), true) == Some(")!@#$%^&*("@[n as int]),
        i >= 26 ==> keys::typed_char(Key::Letter(i), false) is None && keys::typed_char(
            Key::Letter(i),
            true,
        ) is None,
        keys::typed_char(Key::Space, true) == Some(' ') && keys::typed_char(Key::Space, false)
            == Some(' '),
        keys::typed_char(Key::Enter, false) is None && keys::typed_char(Key::Tab, false) is None
            && keys::typed_char(Key::Backspace, false) is None && keys::typed_char(
            Key::Escape,
            false,
        ) is None && keys::typed_char(Key::F(n), false) is None && keys::typed_char(
            Key::Delete,
            false,
        ) is None,
{
    reveal_strlit(")!@#$%^&*(");
}

/// Marks above marks: with shift each of these types the other at its place,
/// and any other mark stays.
pub proof fn shift_takes_the_upper_mark(k: int, c: char)
    requires
        0 <= k < 11,
    ensures
        keys::typed_char(Key::Mark("`-=[]\\;',./"@[k]), true) == Some("~_+{}|:\"<>?"@[k]),
        keys::typed_char(Key::Mark(c), false) == Some(c),
        !("`-=[]\\;',./"@.contains(c)) ==> keys::typed_char(Key::Mark(c), true) == Some(c),
{
    reveal_strlit("`-=[]\\;',./");
    reveal_strlit("~_+{}|:\"<>?");
    let low = "`-=[]\\;',./"@;
    assert(low.contains(low[0]) && low.contains(low[1]) && low.contains(low[2]) && low.contains(
        low[3],
    ) && low.contains(low[4]) && low.contains(low[5]) && low.contains(low[6]) && low.contains(
        low[7],
    ) && low.contains(low[8]) && low.contains(low[9]) && low.contains(low[10]));
}

/// The modifiers of a binding: alt and shift must be exactly as it has them. A
/// binding without control and command wants neither held, one with either
/// wants at least what it names, and one with the mac key wants that key and
/// control exactly as it has it.
pub proof fn modifiers_are_held_as_bound(h: Modifiers, p: Modifiers)
    ensures
        h.alt != p.alt || h.shift != p.shift ==> !keys::held_exactly(h, p),
        h.alt == p.alt && h.shift == p.shift ==> {
            &&& p.mac_cmd ==> (keys::held_exactly(h, p) <==> h.mac_cmd && h.ctrl == p.ctrl)
            &&& !p.mac_cmd && !p.ctrl && !p.command ==> (keys::held_exactly(h, p) <==> !h.ctrl
                && !h.command)
            &&& !p.mac_cmd && p.ctrl && !p.command ==> (keys::held_exactly(h, p) <==> h.ctrl)
            &&& !p.mac_cmd && !p.ctrl && p.command ==> (keys::held_exactly(h, p) <==> h.command)
            &&& !p.mac_cmd && p.ctrl && p.command ==> (keys::held_exactly(h, p) <==> h.ctrl
                && h.command)
        },
{
}

// Bindings.

/// The binding answers the input: it is for it, its modifiers are held, and
/// the terminal is in every mode that it wants and in none that it excludes.
pub open spec fn answers(b: Binding, input: InputKind, held: Modifiers, mode: u32) -> bool {
    &&& b.target == input
    &&& keys::held_exactly(held, b.modifiers)
    &&& !mode & b.terminal_mode_include == 0
    &&& mode & b.terminal_mode_exclude == 0
}

proof fn lemma_bits(mode: u32, incl: u32)
    ensures
        mode & incl == incl <==> !mode & incl == 0,
{
    assert(mode & incl == incl <==> !mode & incl == 0) by (bit_vector);
}

/// The first binding that answers decides: its action is taken, and none
/// before it answers. Where none answers, the input is ignored.
pub proof fn the_first_binding_decides(
    s: Seq<(Binding, Action)>,
    input: InputKind,
    held: Modifiers,
    mode: u32,
)
    ensures
        (forall|k: int| 0 <= k < s.len() ==> !answers((#[trigger] s[k]).0, input, held, mode))
            ==> bindings::action(s, input, held, mode) == Action::Ignore,
        forall|i: int|
            0 <= i < s.len() && answers((#[trigger] s[i]).0, input, held, mode) && (forall|k: int|
                0 <= k < i ==> !answers((#[trigger] s[k]).0, input, held, mode))
                ==> bindings::action(s, input, held, mode) == s[i].1,
    decreases s.len(),
{
    if s.len() > 0 {
        lemma_bits(mode, s[0].0.terminal_mode_include);
        let r = s.drop_first();
        the_first_binding_decides(r, input, held, mode);
        if forall|k: int| 0 <= k < s.len() ==> !answers((#[trigger] s[k]).0, input, held, mode) {
            assert(!answers(s[0].0, input, held, mode));
            assert forall|k: int| 0 <= k < r.len() implies !answers(
                (#[trigger] r[k]).0,
                input,
                held,
                mode,
            ) by {
                assert(r[k] == s[k + 1]);
            }
        }
        assert forall|i: int|
            0 <= i < s.len() && answers((#[trigger] s[i]).0, input, held, mode) && (forall|k: int|
                0 <= k < i ==> !answers((#[trigger] s[k]).0, input, held, mode)) implies
            bindings::action(s, input, held, mode) == s[i].1 by {
            if i > 0 {
                assert(!answers(s[0].0, input, held, mode));
                assert(r[i - 1] == s[i]);
                assert forall|k: int| 0 <= k < i - 1 implies !answers(
                    (#[trigger] r[k]).0,
                    input,
                    held,
                    mode,
                ) by {
                    assert(r[k] == s[k + 1]);
                }
            }
        }
    }
}

/// More bindings are bound one by one, from the first to the last.
pub proof fn bindings_are_bound_in_order(
    s: Seq<(Binding, Action)>,
    more: Seq<(Binding, Action)>,
    b: Binding,
    a: Action,
)
    ensures
        bindings::all_bound(s, more.push((b, a))) == bindings::bound(
            bindings::all_bound(s, more),
            b,
            a,
        ),
        bindings::all_bound(s, Seq::empty()) == s,
{
    assert(more.push((b, a)).drop_last() =~= more);
}

/// Binding an input that is bound keeps the layout's length and every other
/// entry in its place; binding another puts it at the end.
pub proof fn bound_inputs_keep_their_place(s: Seq<(Binding, Action)>, b: Binding, a: Action, p: int)
    requires
        0 <= p <= s.len(),
        p < s.len() ==> s[p].0 == b,
        forall|k: int| 0 <= k < p ==> (#[trigger] s[k]).0 != b,
    ensures
        p < s.len() ==> bindings::bound(s, b, a) == s.update(p, (b, a)),
        p == s.len() ==> bindings::bound(s, b, a) == s.push((b, a)),
{
    lemma_position_is(s, b, p);
}

proof fn lemma_position_is(s: Seq<(Binding, Action)>, b: Binding, p: int)
    requires
        0 <= p <= s.len(),
        p < s.len() ==> s[p].0 == b,
        forall|k: int| 0 <= k < p ==> (#[trigger] s[k]).0 != b,
    ensures
        bindings::position(s, b) == p,
    decreases s.len(),
{
    if p > 0 {
        assert(s[0].0 != b);
        let r = s.drop_first();
        assert forall|k: int| 0 <= k < p - 1 implies (#[trigger] r[k]).0 != b by {
            assert(r[k] == s[k + 1]);
        }
        lemma_position_is(r, b, p - 1);
    }
}

// The default layout.

/// What a key without a formula sends, alone.
pub open spec fn sent_alone(key: Key) -> Option<Action> {
    match key {
        Key::Enter => Some(Action::Char('\r')),
        Key::Backspace => Some(Action::Char('\u{7f}')),
        Key::Escape => Some(Action::Char('\u{1b}')),
        Key::Tab => Some(Action::Char('\t')),
        Key::Insert => Some(Action::Esc("\u{1b}[2~"@)),
        Key::Delete => Some(Action::Esc("\u{1b}[3~"@)),
        Key::PageUp => Some(Action::Esc("\u{1b}[5~"@)),
        Key::PageDown => Some(Action::Esc("\u{1b}[6~"@)),
        Key::F(1) => Some(Action::Esc("\u{1b}OP"@)),
        Key::F(2) => Some(Action::Esc("\u{1b}OQ"@)),
        Key::F(3) => Some(Action::Esc("\u{1b}OR"@)),
        Key::F(4) => Some(Action::Esc("\u{1b}OS"@)),
        Key::F(5) => Some(Action::Esc("\u{1b}[15~"@)),
        Key::F(6) => Some(Action::Esc("\u{1b}[17~"@)),
        Key::F(7) => Some(Action::Esc("\u{1b}[18~"@)),
        Key::F(8) => Some(Action::Esc("\u{1b}[19~"@)),
        Key::F(9) => Some(Action::Esc("\u{1b}[20~"@)),
        Key::F(10) => Some(Action::Esc("\u{1b}[21~"@)),
        Key::F(11) => Some(Action::Esc("\u{1b}[23~"@)),
        Key::F(12) => Some(Action::Esc("\u{1b}[24~"@)),
        _ => None,
    }
}

/// The letter that ends the sequence of a key that follows the cursor mode.
pub open spec fn cursor_letter(key: Key) -> Option<char> {
    match key {
        Key::End => Some('F'),
        Key::Home => Some('H'),
        Key::ArrowUp => Some('A'),
        Key::ArrowDown => Some('B'),
        Key::ArrowLeft => Some('D'),
        Key::ArrowRight => Some('C'),
        _ => None,
    }
}

spec fn place(key: Key, app: bool) -> int {
    match key {
        Key::Enter => 0,
        Key::Backspace => 1,
        Key::Escape => 2,
        Key::Tab => 3,
        Key::Insert => 4,
        Key::Delete => 5,
        Key::PageUp => 6,
        Key::PageDown => 7,
        Key::F(1) => 8,
        Key::F(2) => 9,
        Key::F(3) => 10,
        Key::F(4) => 11,
        Key::F(5) => 12,
        Key::F(6) => 13,
        Key::F(7) => 14,
        Key::F(8) => 15,
        Key::F(9) => 16,
        Key::F(10) => 17,
        Key::F(11) => 18,
        Key::F(12) => 19,
        Key::End => if app { 26 } else { 20 },
        Key::Home => if app { 27 } else { 21 },
        Key::ArrowUp => if app { 28 } else { 22 },
        Key::ArrowDown => if app { 29 } else { 23 },
        Key::ArrowLeft => if app { 30 } else { 24 },
        Key::ArrowRight => if app { 31 } else { 25 },
        _ => -1,
    }
}

proof fn lemma_default_layout()
    ensures
        bindings::default_entries() == bindings::key_table() + bindings::clipboard_table()
            + bindings::mouse_table(),
{
    let t = bindings::key_table();
    let c = bindings::clipboard_table();
    let m = bindings::mouse_table();
    assert forall|k: int| 0 <= k < t.len() implies !(#[trigger] t[k]).0.modifiers.command by {}
    let one = t.push(c[0]);
    let two = one.push(c[1]);
    let three = two.push(m[0]);
    let none = Seq::<(Binding, Action)>::empty();
    bound_inputs_keep_their_place(t, c[0].0, c[0].1, t.len() as int);
    assert(one[t.len() as int].0 != c[1].0);
    assert forall|k: int| 0 <= k < one.len() implies (#[trigger] one[k]).0 != c[1].0 by {
        if k < t.len() {
            assert(one[k] == t[k]);
        }
    }
    bound_inputs_keep_their_place(one, c[1].0, c[1].1, one.len() as int);
    assert forall|k: int| 0 <= k < two.len() implies (#[trigger] two[k]).0 != m[0].0 by {
        if k < t.len() {
            assert(two[k] == t[k]);
        }
    }
    bound_inputs_keep_their_place(two, m[0].0, m[0].1, two.len() as int);
    assert(c.drop_last().drop_last() =~= none);
    assert(c.drop_last().last() == c[0]);
    assert(m.drop_last() =~= none);
    assert(bindings::all_bound(t, none) == t);
    assert(bindings::all_bound(t, c.drop_last()) == one);
    assert(bindings::all_bound(t, c) == two);
    assert(bindings::all_bound(two, none) == two);
    assert(bindings::all_bound(two, m) == three);
    assert(three =~= t + c + m);
}

proof fn lemma_place(key: Key, mode: u32)
    requires
        place(key, mode & 2 == 2) >= 0,
    ensures
        bindings::action(
            bindings::default_entries(),
            InputKind::KeyCode(key),
            bindings::none_held(),
            mode,
        ) == bindings::key_table()[place(key, mode & 2 == 2)].1,
{
    lemma_default_layout();
    let t = bindings::key_table();
    let d = bindings::default_entries();
    let i = place(key, mode & 2 == 2);
    let input = InputKind::KeyCode(key);
    let held = bindings::none_held();
    assert(!mode & 0 == 0 && mode & 0 == 0 && (mode & 2 == 2 || mode & 2 == 0) && (mode & 2 == 2
        ==> !mode & 2 == 0) && (mode & 2 == 0 ==> !mode & 2 == 2)) by (bit_vector);
    assert(d[i] == t[i]);
    assert(answers(t[i].0, input, held, mode));
    assert forall|k: int| 0 <= k < i implies !answers((#[trigger] d[k]).0, input, held, mode) by {
        assert(d[k] == t[k]);
        assert(t[k].0.target != input || !answers(t[k].0, input, held, mode));
    }
    the_first_binding_decides(d, input, held, mode);
}

/// A fresh layout answers Enter, Backspace, Escape, Tab, the editing keys and
/// the function keys, pressed alone, by what each sends, in every mode; the
/// cursor keys, Home and End by `ESC O` and their letter where the terminal
/// asked for application cursor keys, else by `ESC [` and the letter.
pub proof fn a_fresh_layout_sends(key: Key, mode: u32)
    ensures
        ({
            let a = bindings::action(
                bindings::default_entries(),
                InputKind::KeyCode(key),
                bindings::none_held(),
                mode,
            );
            &&& sent_alone(key) matches Some(x) ==> a == x
            &&& cursor_letter(key) matches Some(c) ==> a == (if mode & 2 == 2 {
                Action::Esc(seq!['\u{1b}', 'O', c])
            } else {
                Action::Esc(seq!['\u{1b}', '[', c])
            })
        }),
{
    if place(key, mode & 2 == 2) >= 0 {
        lemma_place(key, mode);
    }
    lemma_cursor_words();
}

/// With shift, Enter, Escape and Backspace send what they send alone and Tab
/// its own sequence; Backspace with control is a backspace, and with alt what
/// it sends alone behind an escape. Shift and command with C copies and with V
/// pastes; a click with command opens a link.
pub proof fn a_fresh_layout_with_modifiers(mode: u32)
    ensures
        ({
            let d = bindings::default_entries();
            let none = Modifiers {
                alt: false,
                ctrl: false,
                shift: false,
                mac_cmd: false,
                command: false,
            };
            let shift = Modifiers { shift: true, ..none };
            let ctrl = Modifiers { ctrl: true, command: true, ..none };
            let alt = Modifiers { alt: true, ..none };
            let both = Modifiers { ctrl: true, command: true, shift: true, ..none };
            &&& bindings::action(d, InputKind::KeyCode(Key::Enter), shift, mode) == Action::Char(
                '\r',
            )
            &&& bindings::action(d, InputKind::KeyCode(Key::Escape), shift, mode) == Action::Char(
                '\u{1b}',
            )
            &&& bindings::action(d, InputKind::KeyCode(Key::Backspace), shift, mode)
                == Action::Char('\u{7f}')
            &&& bindings::action(d, InputKind::KeyCode(Key::Tab), shift, mode) == Action::Esc(
                "\u{1b}[Z"@,
            )
            &&& bindings::action(d, InputKind::KeyCode(Key::Backspace), ctrl, mode) == Action::Char(
                '\u{8}',
            )
            &&& bindings::action(d, InputKind::KeyCode(Key::Backspace), alt, mode) == Action::Esc(
                "\u{1b}\u{7f}"@,
            )
            &&& bindings::action(d, InputKind::KeyCode(Key::Letter(2)), both, mode) == Action::Copy
            &&& bindings::action(d, InputKind::KeyCode(Key::Letter(21)), both, mode)
                == Action::Paste
            &&& bindings::action(d, InputKind::Mouse(PointerButton::Primary), ctrl, mode)
                == Action::LinkOpen
        }),
{
    let none = bindings::none_held();
    let shift = Modifiers { shift: true, ..none };
    let ctrl = Modifiers { ctrl: true, command: true, ..none };
    let alt = Modifiers { alt: true, ..none };
    let both = Modifiers { ctrl: true, command: true, shift: true, ..none };
    lemma_at(InputKind::KeyCode(Key::Enter), shift, mode, 32);
    lemma_at(InputKind::KeyCode(Key::Escape), shift, mode, 33);
    lemma_at(InputKind::KeyCode(Key::Backspace), shift, mode, 34);
    lemma_at(InputKind::KeyCode(Key::Tab), shift, mode, 37);
    lemma_at(InputKind::KeyCode(Key::Backspace), ctrl, mode, 35);
    lemma_at(InputKind::KeyCode(Key::Backspace), alt, mode, 36);
    lemma_at(InputKind::KeyCode(Key::Letter(2)), both, mode, 38);
    lemma_at(InputKind::KeyCode(Key::Letter(21)), both, mode, 39);
    lemma_at(InputKind::Mouse(PointerButton::Primary), ctrl, mode, 40);
}

/// The entry at `i` of the fresh layout.
spec fn entry(i: int) -> (Binding, Action) {
    let n = bindings::key_table().len() as int;
    if i < n {
        bindings::key_table()[i]
    } else if i < n + 2 {
        bindings::clipboard_table()[i - n]
    } else {
        bindings::mouse_table()[0]
    }
}

proof fn lemma_at(input: InputKind, held: Modifiers, mode: u32, i: int)
    requires
        32 <= i <= 40,
        entry(i).0.target == input,
        keys::held_exactly(held, entry(i).0.modifiers),
        forall|k: int|
            0 <= k < i ==> (#[trigger] entry(k)).0.target != input || !keys::held_exactly(
                held,
                entry(k).0.modifiers,
            ),
    ensures
        bindings::action(bindings::default_entries(), input, held, mode) == entry(i).1,
{
    lemma_default_layout();
    let d = bindings::default_entries();
    assert(!mode & 0 == 0 && mode & 0 == 0) by (bit_vector);
    assert forall|k: int| 0 <= k <= 40 implies #[trigger] d[k] == entry(k) by {}
    assert(answers(d[i].0, input, held, mode));
    assert forall|k: int| 0 <= k < i implies !answers((#[trigger] d[k]).0, input, held, mode) by {
        assert(d[k] == entry(k));
    }
    the_first_binding_decides(d, input, held, mode);
}

proof fn lemma_cursor_words()
    ensures
        "\u{1b}[F"@ == seq!['\u{1b}', '[', 'F'],
        "\u{1b}OF"@ == seq!['\u{1b}', 'O', 'F'],
        "\u{1b}[H"@ == seq!['\u{1b}', '[', 'H'],
        "\u{1b}OH"@ == seq!['\u{1b}', 'O', 'H'],
        "\u{1b}[A"@ == seq!['\u{1b}', '[', 'A'],
        "\u{1b}OA"@ == seq!['\u{1b}', 'O', 'A'],
        "\u{1b}[B"@ == seq!['\u{1b}', '[', 'B'],
        "\u{1b}OB"@ == seq!['\u{1b}', 'O', 'B'],
        "\u{1b}[D"@ == seq!['\u{1b}', '[', 'D'],
        "\u{1b}OD"@ == seq!['\u{1b}', 'O', 'D'],
        "\u{1b}[C"@ == seq!['\u{1b}', '[', 'C'],
        "\u{1b}OC"@ == seq!['\u{1b}', 'O', 'C'],
{
    reveal_strlit("\u{1b}[F");
    reveal_strlit("\u{1b}OF");
    reveal_strlit("\u{1b}[H");
    reveal_strlit("\u{1b}OH");
    reveal_strlit("\u{1b}[A");
    reveal_strlit("\u{1b}OA");
    reveal_strlit("\u{1b}[B");
    reveal_strlit("\u{1b}OB");
    reveal_strlit("\u{1b}[D");
    reveal_strlit("\u{1b}OD");
    reveal_strlit("\u{1b}[C");
    reveal_strlit("\u{1b}OC");
    assert("\u{1b}[F"@ =~= seq!['\u{1b}', '[', 'F']);
    assert("\u{1b}OF"@ =~= seq!['\u{1b}', 'O', 'F']);
    assert("\u{1b}[H"@ =~= seq!['\u{1b}', '[', 'H']);
    assert("\u{1b}OH"@ =~= seq!['\u{1b}', 'O', 'H']);
    assert("\u{1b}[A"@ =~= seq!['\u{1b}', '[', 'A']);
    assert("\u{1b}OA"@ =~= seq!['\u{1b}', 'O', 'A']);
    assert("\u{1b}[B"@ =~= seq!['\u{1b}', '[', 'B']);
    assert("\u{1b}OB"@ =~= seq!['\u{1b}', 'O', 'B']);
    assert("\u{1b}[D"@ =~= seq!['\u{1b}', '[', 'D']);
    assert("\u{1b}OD"@ =~= seq!['\u{1b}', 'O', 'D']);
    assert("\u{1b}[C"@ =~= seq!['\u{1b}', '[', 'C']);
    assert("\u{1b}OC"@ =~= seq!['\u{1b}', 'O', 'C']);
}

/// The control bytes of marked keys: the column of the backtick and the
/// brackets folds onto 0 and 27 to 29, the slash, the dash and the question
/// mark onto 31 and 127.
pub proof fn marks_with_control(m: Modifiers)
    requires
        controlled(m),
        !m.alt,
    ensures
        keys::fallback(Key::Mark('`'), m) == Some(seq![0u8]),
        keys::fallback(Key::Mark('['), m) == Some(seq![27u8]) && keys::fallback(Key::Mark('{'), m)
            == Some(seq![27u8]),
        keys::fallback(Key::Mark('\\'), m) == Some(seq![28u8]) && keys::fallback(Key::Mark('|'), m)
            == Some(seq![28u8]),
        keys::fallback(Key::Mark(']'), m) == Some(seq![29u8]) && keys::fallback(Key::Mark('}'), m)
            == Some(seq![29u8]),
        keys::fallback(Key::Mark('/'), m) == Some(seq![31u8]) && keys::fallback(Key::Mark('-'), m)
            == Some(seq![31u8]),
        keys::fallback(Key::Mark('?'), m) == Some(seq![127u8]),
{
}

// Key records.

/// Semicolons separate the fields of a record, and nothing else does: the
/// first field is what stands before the first of them, and the others are
/// those of the rest. Without one there is one field.
pub proof fn semicolons_separate_fields(f: Seq<u8>, rest: Seq<u8>, k: nat)
    requires
        forall|i: int| 0 <= i < f.len() ==> #[trigger] f[i] != 59,
    ensures
        keyrecord::field(f + seq![59u8] + rest, 0) == Some(f),
        keyrecord::field(f + seq![59u8] + rest, k + 1) == keyrecord::field(rest, k),
        keyrecord::field(f, 0) == Some(f),
        keyrecord::field(f, k + 1) is None,
{
    let s = f + seq![59u8] + rest;
    assert(s[f.len() as int] == 59);
    lemma_byte_is(s, 59, f.len() as int);
    lemma_byte_is(f, 59, f.len() as int);
    assert(s.take(f.len() as int) =~= f);
    assert(s.skip(f.len() as int + 1) =~= rest);
    assert(f.take(f.len() as int) =~= f);
}

proof fn lemma_byte_is(s: Seq<u8>, b: u8, n: int)
    requires
        0 <= n <= s.len(),
        forall|i: int| 0 <= i < n ==> #[trigger] s[i] != b,
        n < s.len() ==> s[n] == b,
    ensures
        keyrecord::find_byte(s, b) == n,
    decreases n,
{
    if n > 0 {
        assert(s[0] != b);
        let r = s.drop_first();
        assert forall|i: int| 0 <= i < n - 1 implies #[trigger] r[i] != b by {
            assert(r[i] == s[i + 1]);
        }
        lemma_byte_is(r, b, n - 1);
    }
}

/// A number is written in decimal digits, at least one, behind a plus sign or
/// not, and is no larger than 32 bits hold; anything else is no number.
pub proof fn numbers_are_decimal(s: Seq<u8>, d: u8)
    ensures
        s.len() == 0 ==> keyrecord::number(s) is None && keyrecord::value(s) == 0,
        48 <= d <= 57 ==> keyrecord::value(s.push(d)) == 10 * keyrecord::value(s) + (d - 48),
        s.len() > 0 && (s[0] != 43 || s.len() == 1) ==> {
            let fits = (forall|i: int| 0 <= i < s.len() ==> 48 <= #[trigger] s[i] <= 57)
                && keyrecord::value(s) <= 0xffff_ffff;
            &&& fits ==> keyrecord::number(s) == Some(keyrecord::value(s))
            &&& !fits ==> keyrecord::number(s) is None
        },
        s.len() > 1 && s[0] == 43 && s[1] != 43 ==> keyrecord::number(s) == keyrecord::number(
            s.skip(1),
        ),
        s.len() > 1 && s[0] == 43 && s[1] == 43 ==> keyrecord::number(s) is None,
{
    assert(s.push(d).drop_last() =~= s);
    if s.len() > 0 && (s[0] != 43 || s.len() == 1) {
        assert(keyrecord::digits(s) == s);
        if forall|i: int| 0 <= i < s.len() ==> 48 <= #[trigger] s[i] <= 57 {
            assert forall|i: int| 0 <= i < s.len() implies keyrecord::digit(#[trigger] s[i]) by {}
        }
        if forall|i: int| 0 <= i < s.len() ==> keyrecord::digit(#[trigger] s[i]) {
            assert forall|i: int| 0 <= i < s.len() implies 48 <= #[trigger] s[i] <= 57 by {
                assert(keyrecord::digit(s[i]));
            }
        }
    }
    if s.len() > 1 && s[0] == 43 {
        let r = s.skip(1);
        assert(s.drop_first() =~= r);
        assert(r[0] == s[1]);
        if s[1] != 43 {
            assert(keyrecord::digits(r) == r);
        } else {
            assert(!keyrecord::digit(keyrecord::digits(s)[0]));
        }
    }
}

/// A record stands at `i` of `s` and ends with the underscore at `u`, the first
/// behind it.
pub open spec fn enter_stands_at(s: Seq<u8>, i: int, u: int) -> bool {
    &&& 0 <= i && i + 2 <= u < s.len()
    &&& s[i] == 27 && s[i + 1] == 91 && s[u] == 95
    &&& forall|k: int| i <= k < u ==> #[trigger] s[k] != 95
    &&& keyrecord::enter_down(s.subrange(i + 2, u))
}

/// Where bytes are taken for an Enter without a carriage return, a record of
/// Enter going down really stands among them.
pub proof fn enter_records_are_there(s: Seq<u8>)
    requires
        keyrecord::holds_enter_record(s),
    ensures
        exists|i: int, u: int| enter_stands_at(s, i, u),
    decreases s.len(),
{
    let e = keyrecord::find_byte(s, 27);
    keyrecord::lemma_find_byte(s, 27);
    let rest = s.skip(e);
    let v = keyrecord::find_byte(rest, 95);
    keyrecord::lemma_find_byte(rest, 95);
    assert(rest[0] == s[e]);
    if rest.len() > 2 && rest[1] == 91 && v < rest.len() && keyrecord::enter_down(
        rest.subrange(2, v),
    ) {
        assert(v >= 2);
        assert(rest.subrange(2, v) =~= s.subrange(e + 2, e + v));
        assert forall|k: int| e <= k < e + v implies #[trigger] s[k] != 95 by {
            assert(rest[k - e] == s[k]);
        }
        assert(enter_stands_at(s, e, e + v));
    } else {
        let next = rest.skip(1);
        enter_records_are_there(next);
        let (i, u) = choose|i: int, u: int| enter_stands_at(next, i, u);
        let at = e + 1;
        assert(next =~= s.skip(at));
        assert forall|k: int| at + i <= k < at + u implies #[trigger] s[k] != 95 by {
            assert(next[k - at] == s[k]);
        }
        assert(next.subrange(i + 2, u) =~= s.subrange(at + i + 2, at + u));
        assert(enter_stands_at(s, at + i, at + u));
    }
}

/// Bytes carry an Enter exactly where a carriage return is among them, or the
/// terminal takes key records and one of Enter going down is.
pub proof fn enters_by_byte_or_record(s: Seq<u8>, win32: bool)
    ensures
        (exists|k: int| 0 <= k < s.len() && #[trigger] s[k] == 13) ==> keyrecord::carries_enter(
            s,
            win32,
        ),
        (forall|k: int| 0 <= k < s.len() ==> #[trigger] s[k] != 13) && !win32
            ==> !keyrecord::carries_enter(s, win32),
        (forall|k: int| 0 <= k < s.len() ==> #[trigger] s[k] != 13) && win32 ==> (
        keyrecord::carries_enter(s, win32) <==> keyrecord::holds_enter_record(s)),
{
    if exists|k: int| 0 <= k < s.len() && #[trigger] s[k] == 13 {
        let k = choose|k: int| 0 <= k < s.len() && #[trigger] s[k] == 13;
        assert(s.contains(s[k]));
    }
}

// Rows at the cursor.

/// `s` ends with all of `t`.
pub open spec fn ends(s: Seq<char>, t: Seq<char>) -> bool {
    t.len() <= s.len() && forall|k: int|
        0 <= k < t.len() ==> s[s.len() - t.len() + k] == #[trigger] t[k]
}

proof fn lemma_ends(s: Seq<char>, t: Seq<char>)
    ensures
        text::has_suffix(s, t) == ends(s, t),
{
    if t.len() <= s.len() {
        let p = s.subrange(s.len() - t.len(), s.len() as int);
        if p == t {
            assert forall|k: int| 0 <= k < t.len() implies s[s.len() - t.len() + k]
                == #[trigger] t[k] by {
                assert(p[k] == t[k]);
            }
        }
        if ends(s, t) {
            assert(p =~= t);
        }
    }
}

/// The word stands in `s` from `i` on, and no colon behind it.
pub open spec fn named_at(s: Seq<char>, w: Seq<char>, i: int) -> bool {
    &&& 0 <= i && i + w.len() <= s.len()
    &&& forall|k: int| 0 <= k < w.len() ==> s[i + k] == #[trigger] w[k]
    &&& forall|k: int| i + w.len() <= k < s.len() ==> #[trigger] s[k] != ':'
}

proof fn lemma_trails(s: Seq<char>, w: Seq<char>)
    ensures
        prompt::trails(s, w) <==> exists|i: int| named_at(s, w, i),
{
    if prompt::trails(s, w) {
        let i = choose|i: int|
            #[trigger] text::occurs_at(s, w, i) && !s.skip(i + w.len()).contains(':');
        let tail = s.skip(i + w.len());
        assert forall|k: int| 0 <= k < w.len() implies s[i + k] == #[trigger] w[k] by {
            assert(s.subrange(i, i + w.len())[k] == w[k]);
        }
        assert forall|k: int| i + w.len() <= k < s.len() implies #[trigger] s[k] != ':' by {
            assert(tail[k - i - w.len()] == s[k]);
            assert(tail.contains(tail[k - i - w.len()]));
        }
        assert(named_at(s, w, i));
    }
    if exists|i: int| named_at(s, w, i) {
        let i = choose|i: int| named_at(s, w, i);
        assert(s.subrange(i, i + w.len()) =~= w);
        let tail = s.skip(i + w.len());
        if tail.contains(':') {
            let k = choose|k: int| 0 <= k < tail.len() && tail[k] == ':';
            assert(s[i + w.len() + k] == ':');
        }
        assert(text::occurs_at(s, w, i));
    }
}

/// What the row asks for: a host key is confirmed where it ends, but for white
/// space, in one of the two questions; a secret where it ends in a colon and
/// its lower case names one behind every other colon.
pub proof fn rows_that_ask_for_secrets(row: Seq<char>, e: int)
    requires
        0 <= e <= row.len(),
        white_from(row, e),
        e > 0 ==> !text::white(row[e - 1]),
    ensures
        ({
            let t = row.take(e);
            let host = ends(t, "(yes/no)?"@) || ends(t, "(yes/no/[fingerprint])?"@);
            let low = text::lowercase(row.take(e - 1));
            let secret = e > 0 && row[e - 1] == ':' && ((exists|i: int|
                named_at(low, "password"@, i)) || (exists|i: int| named_at(low, "passphrase"@, i))
                || (exists|i: int| named_at(low, "passcode"@, i)));
            &&& prompt::auth_prompt(row) == AuthPrompt::HostKey <==> host
            &&& prompt::auth_prompt(row) == AuthPrompt::Password <==> !host && secret
            &&& prompt::auth_prompt(row) == AuthPrompt::Neither <==> !host && !secret
        }),
{
    let t = row.take(e);
    sending::trailing_white_comes_off(row, e);
    lemma_ends(t, "(yes/no)?"@);
    lemma_ends(t, "(yes/no/[fingerprint])?"@);
    if e > 0 {
        assert(t.drop_last() =~= row.take(e - 1));
        assert(t.last() == row[e - 1]);
        let low = text::lowercase(row.take(e - 1));
        lemma_trails(low, "password"@);
        lemma_trails(low, "passphrase"@);
        lemma_trails(low, "passcode"@);
    }
}

/// A row confirms exactly where it ends, but for white space and capitals, in
/// `y/n` in round or square brackets, with nothing, a question mark or a colon
/// behind.
pub proof fn rows_that_confirm(row: Seq<char>, e: int)
    requires
        0 <= e <= row.len(),
        white_from(row, e),
        e > 0 ==> !text::white(row[e - 1]),
    ensures
        ({
            let t = text::ascii_lowered(row.take(e));
            &&& prompt::confirms(row) <==> ends(t, "(y/n)"@) || ends(t, "[y/n]"@) || ends(
                t,
                "(y/n)?"@,
            ) || ends(t, "[y/n]?"@) || ends(t, "(y/n):"@) || ends(t, "[y/n]:"@)
            &&& prompt::asks(row) <==> prompt::confirms(row) || prompt::auth_prompt(row)
                != AuthPrompt::Neither
        }),
{
    sending::trailing_white_comes_off(row, e);
    let t = text::ascii_lowered(row.take(e));
    lemma_ends(t, "(y/n)"@);
    lemma_ends(t, "[y/n]"@);
    lemma_ends(t, "(y/n)?"@);
    lemma_ends(t, "[y/n]?"@);
    lemma_ends(t, "(y/n):"@);
    lemma_ends(t, "[y/n]:"@);
}

/// The text left of the cursor reads as a prompt exactly where the cursor is
/// within two cells of its end and it starts with a prompt's glyph or ends in
/// a sigil. A percent sign behind a digit is a percentage, a lone angle bracket
/// a continuation and two of them a redirect: none of these is a prompt.
pub proof fn texts_that_read_as_prompts(prefix: Seq<char>, gap: int, e: int)
    requires
        0 <= e <= prefix.len(),
        white_from(prefix, e),
        e > 0 ==> !text::white(prefix[e - 1]),
    ensures
        prompt::prompt_shaped(prefix, gap) <==> e > 0 && gap <= 2 && ({
            let z = prefix[e - 1];
            ||| prefix[0] == '\u{279c}' || prefix[0] == '\u{276f}'
            ||| z == '$' || z == '#' || z == '\u{276f}' || z == '\u{3009}'
            ||| z == '%' && (e == 1 || prefix[e - 2] < '0' || prefix[e - 2] > '9')
            ||| z == '>' && e >= 2 && prefix[e - 2] != '>'
        }),
{
    sending::trailing_white_comes_off(prefix, e);
    let t = prefix.take(e);
    if e > 0 {
        assert(t[0] == prefix[0] && t[e - 1] == prefix[e - 1]);
        if e > 1 {
            assert(t[e - 2] == prefix[e - 2]);
        }
        assert(text::trimmed_end(prefix).len() == e);
    }
}

/// Where a prompt ends in a bracket and a sigil, its directory is the last
/// word inside the bracket.
pub proof fn bracketed_prompts_name_their_directory(
    before: Seq<char>,
    inner: Seq<char>,
    dir: Seq<char>,
    z: char,
)
    requires
        z == '$' || z == '#' || z == '%' || z == '>' || z == '\u{276f}' || z == '\u{3009}',
        dir.len() > 0,
        forall|k: int|
            0 <= k < dir.len() ==> !text::white(#[trigger] dir[k]) && dir[k] != '[' && dir[k] != ' ',
        forall|k: int| 0 <= k < inner.len() ==> #[trigger] inner[k] != '[',
    ensures
        prompt::prompt_dir(before + seq!['['] + inner + seq![' '] + dir + seq![']', z]) == Some(dir),
{
    let p = before + seq!['['] + inner + seq![' '] + dir + seq![']', z];
    let n = p.len() as int;
    assert(p[n - 1] == z && p[n - 2] == ']');
    sending::trailing_white_comes_off(p, n);
    assert(p.take(n) =~= p);
    let t = p.drop_last();
    assert(t.last() == ']');
    sending::trailing_white_comes_off(t, n - 1);
    assert(t.take(n - 1) =~= t);
    let body = t.drop_last();
    let b = before.len() as int;
    assert(body =~= before + seq!['['] + inner + seq![' '] + dir);
    assert(body[b] == '[');
    text::lemma_last_index(body, '[');
    let l = text::last_index(body, '[');
    if l > b {
        if l <= b + inner.len() {
            assert(body[l] == inner[l - b - 1]);
        } else if l > b + 1 + inner.len() {
            assert(body[l] == dir[l - b - 2 - inner.len()]);
        }
    }
    assert(l == b);
    let word = body.skip(l + 1);
    assert(word =~= inner + seq![' '] + dir);
    let m = inner.len() as int;
    assert(word[m] == ' ');
    text::lemma_last_index(word, ' ');
    let q = text::last_index(word, ' ');
    if q > m {
        assert(word[q] == dir[q - m - 1]);
    }
    assert(word.skip(q + 1) =~= dir);
    sending::trimming_takes_the_ends(dir, 0, dir.len() as int);
    assert(dir.subrange(0, dir.len() as int) =~= dir);
}

/// Where a prompt names its user and host before its last colon, its directory
/// is what stands between that colon and the sigil, trimmed.
pub proof fn colon_prompts_name_their_directory(
    user: Seq<char>,
    host: Seq<char>,
    dir: Seq<char>,
    z: char,
)
    requires
        z == '$' || z == '#' || z == '%' || z == '>' || z == '\u{276f}' || z == '\u{3009}',
        dir.len() > 0,
        forall|k: int|
            0 <= k < dir.len() ==> !text::white(#[trigger] dir[k]) && dir[k] != ':' && dir[k] != ']',
        forall|k: int| 0 <= k < user.len() ==> #[trigger] user[k] != '@',
    ensures
        prompt::prompt_dir(user + seq!['@'] + host + seq![':'] + dir + seq![z]) == Some(dir),
{
    let p = user + seq!['@'] + host + seq![':'] + dir + seq![z];
    let n = p.len() as int;
    assert(p[n - 1] == z);
    sending::trailing_white_comes_off(p, n);
    assert(p.take(n) =~= p);
    let t = p.drop_last();
    assert(t =~= user + seq!['@'] + host + seq![':'] + dir);
    assert(t[n - 2] == dir[dir.len() - 1]);
    sending::trailing_white_comes_off(t, n - 1);
    assert(t.take(n - 1) =~= t);
    let a = user.len() as int;
    assert(t[a] == '@');
    text::lemma_first_index(t, '@');
    let at = text::first_index(t, '@');
    if at < a {
        assert(t[at] == user[at]);
    }
    let c = a + 1 + host.len();
    assert(t[c] == ':');
    text::lemma_last_index(t, ':');
    let colon = text::last_index(t, ':');
    if colon > c {
        assert(t[colon] == dir[colon - c - 1]);
    }
    assert(t.skip(colon + 1) =~= dir);
    sending::trimming_takes_the_ends(dir, 0, dir.len() as int);
    assert(dir.subrange(0, dir.len() as int) =~= dir);
}

/// A row that does not end in a sigil names no directory.
pub proof fn other_rows_name_no_directory(row: Seq<char>, e: int)
    requires
        0 <= e <= row.len(),
        white_from(row, e),
        e > 0 ==> !text::white(row[e - 1]),
        e > 0 ==> row[e - 1] != '$' && row[e - 1] != '#' && row[e - 1] != '%' && row[e - 1] != '>'
            && row[e - 1] != '\u{276f}' && row[e - 1] != '\u{3009}',
    ensures
        prompt::prompt_dir(row) is None,
{
    sending::trailing_white_comes_off(row, e);
    if e > 0 {
        assert(row.take(e).last() == row[e - 1]);
    }
}

} // verus!
