//! Keys, modifiers and the bytes that a key press sends to a terminal without
//! a binding of its own.

use vstd::prelude::*;

verus! {

/// A key, by what it is on the keyboard.
#[derive(Clone, Copy, PartialEq, Eq, Structural, Debug)]
pub enum Key {
    /// A letter, from zero for A on.
    Letter(u8),
    /// A digit.
    Num(u8),
    /// A key with a mark on it, by the mark it types alone.
    Mark(char),
    Space,
    Enter,
    Tab,
    Backspace,
    Escape,
    Insert,
    Delete,
    Home,
    End,
    PageUp,
    PageDown,
    ArrowUp,
    ArrowDown,
    ArrowLeft,
    ArrowRight,
    /// A function key, from one for F1 on.
    F(u8),
    /// Any other key.
    Other(u16),
}

/// The modifiers held down.
#[derive(Clone, Copy, PartialEq, Eq, Structural, Debug)]
pub struct Modifiers {
    pub alt: bool,
    pub ctrl: bool,
    pub shift: bool,
    pub mac_cmd: bool,
    /// Control, or the command key where there is one.
    pub command: bool,
}

/// The modifiers held are those of the pattern: alt and shift as they are, and
/// control and command so that one may stand in for the other where the
/// platform has it so.
pub open spec fn held_exactly(held: Modifiers, pattern: Modifiers) -> bool {
    &&& held.alt == pattern.alt
    &&& held.shift == pattern.shift
    &&& if pattern.mac_cmd {
        held.mac_cmd && held.ctrl == pattern.ctrl
    } else if !pattern.ctrl && !pattern.command {
        !held.ctrl && !held.command
    } else {
        (pattern.ctrl ==> held.ctrl) && (pattern.command ==> held.command)
    }
}

/// `egui::Modifiers::matches_exact`: alt and shift are as in the pattern, and
/// control and command match it as `held_exactly` says.
#[verifier::external_body]
pub(crate) fn matches_exact(held: Modifiers, pattern: Modifiers) -> (r: bool)
    ensures
        r == held_exactly(held, pattern),
{
    let h = egui::Modifiers {
        alt: held.alt,
        ctrl: held.ctrl,
        shift: held.shift,
        mac_cmd: held.mac_cmd,
        command: held.command,
    };
    let p = egui::Modifiers {
        alt: pattern.alt,
        ctrl: pattern.ctrl,
        shift: pattern.shift,
        mac_cmd: pattern.mac_cmd,
        command: pattern.command,
    };
    h.matches_exact(p)
}

/// What a digit key types with shift.
pub open spec fn shifted_digit(n: u8) -> char {
    if n == 0 {
        ')'
    } else if n == 1 {
        '!'
    } else if n == 2 {
        '@'
    } else if n == 3 {
        '#'
    } else if n == 4 {
        '$'
    } else if n == 5 {
        '%'
    } else if n == 6 {
        '^'
    } else if n == 7 {
        '&'
    } else if n == 8 {
        '*'
    } else {
        '('
    }
}

/// What a marked key types with shift.
pub open spec fn shifted_mark(c: char) -> char {
    if c == '`' {
        '~'
    } else if c == '-' {
        '_'
    } else if c == '=' {
        '+'
    } else if c == '[' {
        '{'
    } else if c == ']' {
        '}'
    } else if c == '\\' {
        '|'
    } else if c == ';' {
        ':'
    } else if c == '\'' {
        '"'
    } else if c == ',' {
        '<'
    } else if c == '.' {
        '>'
    } else if c == '/' {
        '?'
    } else {
        c
    }
}

/// The character that a key types on a US layout, if it types one.
pub open spec fn typed_char(key: Key, shift: bool) -> Option<char> {
    match key {
        Key::Letter(i) if i < 26 => Some(
            if shift {
                (65 + i) as u8 as char
            } else {
                (97 + i) as u8 as char
            },
        ),
        Key::Num(n) if n < 10 => Some(
            if shift {
                shifted_digit(n)
            } else {
                (48 + n) as u8 as char
            },
        ),
        Key::Mark(c) => Some(
            if shift {
                shifted_mark(c)
            } else {
                c
            },
        ),
        Key::Space => Some(' '),
        _ => None,
    }
}

pub fn key_char(key: Key, shift: bool) -> (r: Option<char>)
    ensures
        r == typed_char(key, shift),
{
    match key {
        Key::Letter(i) => if i < 26 {
            Some(
                if shift {
                    (65 + i) as char
                } else {
                    (97 + i) as char
                },
            )
        } else {
            None
        },
        Key::Num(n) => if n < 10 {
            Some(
                if shift {
                    match n {
                        0 => ')',
                        1 => '!',
                        2 => '@',
                        3 => '#',
                        4 => '$',
                        5 => '%',
                        6 => '^',
                        7 => '&',
                        8 => '*',
                        _ => '(',
                    }
                } else {
                    (48 + n) as char
                },
            )
        } else {
            None
        },
        Key::Mark(c) => Some(
            if shift {
                match c {
                    '`' => '~',
                    '-' => '_',
                    '=' => '+',
                    '[' => '{',
                    ']' => '}',
                    '\\' => '|',
                    ';' => ':',
                    '\'' => '"',
                    ',' => '<',
                    '.' => '>',
                    '/' => '?',
                    _ => c,
                }
            } else {
                c
            },
        ),
        Key::Space => Some(' '),
        _ => None,
    }
}

/// How a key is written in a control sequence: by a final letter, or by a
/// number before a tilde.
#[derive(Clone, Copy, PartialEq, Eq, Structural, Debug)]
pub enum CsiKey {
    Letter(u8),
    Tilde(u8),
}

/// The number of a function key from F5 to F20: the numbers skip one between
/// F5 and F6, F10 and F11, F14 and F15, and F16 and F17.
pub open spec fn function_number(n: int) -> int {
    if n == 5 {
        15
    } else if n <= 10 {
        n + 11
    } else if n <= 14 {
        n + 12
    } else if n <= 16 {
        n + 13
    } else {
        n + 14
    }
}

/// Keys that take the modifier formula.
pub open spec fn csi_of(key: Key) -> Option<CsiKey> {
    match key {
        Key::ArrowUp => Some(CsiKey::Letter(0x41)),
        Key::ArrowDown => Some(CsiKey::Letter(0x42)),
        Key::ArrowRight => Some(CsiKey::Letter(0x43)),
        Key::ArrowLeft => Some(CsiKey::Letter(0x44)),
        Key::Home => Some(CsiKey::Letter(0x48)),
        Key::End => Some(CsiKey::Letter(0x46)),
        Key::Insert => Some(CsiKey::Tilde(2)),
        Key::Delete => Some(CsiKey::Tilde(3)),
        Key::PageUp => Some(CsiKey::Tilde(5)),
        Key::PageDown => Some(CsiKey::Tilde(6)),
        Key::F(n) => if 1 <= n <= 4 {
            Some(CsiKey::Letter((0x4f + n) as u8))
        } else if 5 <= n <= 20 {
            Some(CsiKey::Tilde(function_number(n as int) as u8))
        } else {
            None
        },
        _ => None,
    }
}

pub fn csi_key(key: Key) -> (r: Option<CsiKey>)
    ensures
        r == csi_of(key),
{
    match key {
        Key::ArrowUp => Some(CsiKey::Letter(0x41)),
        Key::ArrowDown => Some(CsiKey::Letter(0x42)),
        Key::ArrowRight => Some(CsiKey::Letter(0x43)),
        Key::ArrowLeft => Some(CsiKey::Letter(0x44)),
        Key::Home => Some(CsiKey::Letter(0x48)),
        Key::End => Some(CsiKey::Letter(0x46)),
        Key::Insert => Some(CsiKey::Tilde(2)),
        Key::Delete => Some(CsiKey::Tilde(3)),
        Key::PageUp => Some(CsiKey::Tilde(5)),
        Key::PageDown => Some(CsiKey::Tilde(6)),
        Key::F(n) => if 1 <= n && n <= 4 {
            Some(CsiKey::Letter(0x4f + n))
        } else if n == 5 {
            Some(CsiKey::Tilde(15))
        } else if 6 <= n && n <= 10 {
            Some(CsiKey::Tilde(n + 11))
        } else if 11 <= n && n <= 14 {
            Some(CsiKey::Tilde(n + 12))
        } else if 15 <= n && n <= 16 {
            Some(CsiKey::Tilde(n + 13))
        } else if 17 <= n && n <= 20 {
            Some(CsiKey::Tilde(n + 14))
        } else {
            None
        },
        _ => None,
    }
}

/// The byte that a key makes with control: letters fold onto 1 to 26, the
/// column of `@[\]^_` onto 0 and 27 to 31, `/` and `?` onto 31 and 127, and
/// any other ASCII character is itself.
pub open spec fn ctrl_byte(key: Key, shift: bool) -> Option<u8> {
    match key {
        Key::Space => Some(0x00),
        Key::Num(2) => Some(0x00),
        Key::Num(3) => Some(0x1b),
        Key::Num(4) => Some(0x1c),
        Key::Num(5) => Some(0x1d),
        Key::Num(6) => Some(0x1e),
        Key::Num(7) => Some(0x1f),
        Key::Num(8) => Some(0x7f),
        Key::Mark('`') => Some(0x00),
        Key::Mark('[') => Some(0x1b),
        Key::Mark('{') => Some(0x1b),
        Key::Mark('\\') => Some(0x1c),
        Key::Mark('|') => Some(0x1c),
        Key::Mark(']') => Some(0x1d),
        Key::Mark('}') => Some(0x1d),
        Key::Mark('/') => Some(0x1f),
        Key::Mark('-') => Some(0x1f),
        Key::Mark('?') => Some(0x7f),
        Key::Enter => Some(0x0a),
        Key::Tab => Some(0x09),
        Key::Backspace => Some(0x08),
        Key::Escape => Some(0x1b),
        Key::Letter(i) if i < 26 => Some((1 + i) as u8),
        _ => match typed_char(key, shift) {
            Some(c) if c <= '\u{7f}' => Some(c as u8),
            _ => None,
        },
    }
}

pub fn vt_ctrl_byte(key: Key, shift: bool) -> (r: Option<u8>)
    ensures
        r == ctrl_byte(key, shift),
{
    match key {
        Key::Space => Some(0x00),
        Key::Num(2) => Some(0x00),
        Key::Num(3) => Some(0x1b),
        Key::Num(4) => Some(0x1c),
        Key::Num(5) => Some(0x1d),
        Key::Num(6) => Some(0x1e),
        Key::Num(7) => Some(0x1f),
        Key::Num(8) => Some(0x7f),
        Key::Mark('`') => Some(0x00),
        Key::Mark('[') => Some(0x1b),
        Key::Mark('{') => Some(0x1b),
        Key::Mark('\\') => Some(0x1c),
        Key::Mark('|') => Some(0x1c),
        Key::Mark(']') => Some(0x1d),
        Key::Mark('}') => Some(0x1d),
        Key::Mark('/') => Some(0x1f),
        Key::Mark('-') => Some(0x1f),
        Key::Mark('?') => Some(0x7f),
        Key::Enter => Some(0x0a),
        Key::Tab => Some(0x09),
        Key::Backspace => Some(0x08),
        Key::Escape => Some(0x1b),
        _ => {
            if let Key::Letter(i) = key {
                if i < 26 {
                    return Some(1 + i);
                }
            }
            match key_char(key, shift) {
                Some(c) => if c <= '\u{7f}' {
                    Some(c as u8)
                } else {
                    None
                },
                None => None,
            }
        },
    }
}

/// A number under a hundred in decimal digits.
pub open spec fn digits(n: int) -> Seq<u8> {
    if n < 10 {
        seq![(48 + n) as u8]
    } else {
        seq![(48 + n / 10) as u8, (48 + n % 10) as u8]
    }
}

/// One, and one for shift, two for alt, four for control.
pub open spec fn modifier_number(shift: bool, alt: bool, ctrl: bool) -> int {
    1 + (if shift {
        1int
    } else {
        0
    }) + (if alt {
        2int
    } else {
        0
    }) + (if ctrl {
        4int
    } else {
        0
    })
}

/// The control sequence of a key with modifier number `m`.
pub open spec fn csi_bytes(k: CsiKey, m: int) -> Seq<u8> {
    match k {
        CsiKey::Letter(c) => if m == 1 {
            seq![0x1bu8, 0x5b, c]
        } else {
            seq![0x1bu8, 0x5b, 0x31, 0x3b] + digits(m) + seq![c]
        },
        CsiKey::Tilde(n) => if m == 1 {
            seq![0x1bu8, 0x5b] + digits(n as int) + seq![0x7eu8]
        } else {
            seq![0x1bu8, 0x5b] + digits(n as int) + seq![0x3bu8] + digits(m) + seq![0x7eu8]
        },
    }
}

/// What a key sends behind the escape that alt puts before it.
pub open spec fn alt_base(key: Key, shift: bool) -> Option<Seq<u8>> {
    match key {
        Key::Enter => Some(seq![0x0du8]),
        Key::Backspace => Some(seq![0x7fu8]),
        Key::Tab => Some(seq![0x09u8]),
        Key::Escape => Some(seq![0x1bu8]),
        _ => match typed_char(key, shift) {
            Some(c) => Some(vstd::utf8::encode_scalar(c as u32)),
            None => None,
        },
    }
}

/// The bytes of a key press that no binding has. Control and alt over a key
/// that types a character send nothing: the character itself arrives as text.
/// Keys of the control-sequence kind take the modifier formula; alt prefixes
/// an escape; control folds. Without either, a printable arrives as text.
pub open spec fn fallback(key: Key, mods: Modifiers) -> Option<Seq<u8>> {
    let ctrl = mods.ctrl || mods.command;
    if ctrl && mods.alt && typed_char(key, false) is Some {
        None
    } else {
        match csi_of(key) {
            Some(k) => Some(csi_bytes(k, modifier_number(mods.shift, mods.alt, ctrl))),
            None => {
                let base = if ctrl {
                    match ctrl_byte(key, mods.shift) {
                        Some(b) => Some(seq![b]),
                        None => None,
                    }
                } else if mods.alt {
                    alt_base(key, mods.shift)
                } else {
                    None
                };
                match base {
                    Some(b) if mods.alt => Some(seq![0x1bu8] + b),
                    _ => base,
                }
            },
        }
    }
}

pub open spec fn opt_bytes(o: Option<Vec<u8>>) -> Option<Seq<u8>> {
    match o {
        Some(v) => Some(v@),
        None => None,
    }
}

fn push_digits(out: &mut Vec<u8>, n: u8)
    requires
        n < 100,
    ensures
        final(out)@ == old(out)@ + digits(n as int),
{
    if n >= 10 {
        out.push(48 + n / 10);
    }
    out.push(48 + n % 10);
    assert(out@ =~= old(out)@ + digits(n as int));
}

fn csi_encode(k: CsiKey, m: u8) -> (r: Vec<u8>)
    requires
        m < 100,
        k matches CsiKey::Tilde(n) ==> n < 100,
    ensures
        r@ == csi_bytes(k, m as int),
{
    let mut out: Vec<u8> = Vec::new();
    out.push(0x1b);
    out.push(0x5b);
    match k {
        CsiKey::Letter(c) => {
            if m != 1 {
                out.push(0x31);
                out.push(0x3b);
                assert(out@ =~= seq![0x1bu8, 0x5b, 0x31, 0x3b]);
                push_digits(&mut out, m);
            }
            out.push(c);
        },
        CsiKey::Tilde(n) => {
            assert(out@ =~= seq![0x1bu8, 0x5b]);
            push_digits(&mut out, n);
            if m != 1 {
                out.push(0x3b);
                assert(out@ =~= seq![0x1bu8, 0x5b] + digits(n as int) + seq![0x3bu8]);
                push_digits(&mut out, m);
            }
            out.push(0x7e);
        },
    }
    assert(out@ =~= csi_bytes(k, m as int));
    out
}

fn utf8_of(c: char) -> (r: Vec<u8>)
    ensures
        r@ == vstd::utf8::encode_scalar(c as u32),
{
    let mut s = String::new();
    s.push(c);
    let r = vstd::string::StrSliceExecFns::as_bytes_vec(s.as_str());
    proof {
        assert(s@ =~= seq![c]);
        assert(s@.drop_first() =~= Seq::<char>::empty());
        assert(vstd::utf8::encode_utf8(Seq::<char>::empty()) =~= Seq::<u8>::empty());
        assert(r@ =~= vstd::utf8::encode_scalar(c as u32));
    }
    r
}

fn alt_bytes(key: Key, shift: bool) -> (r: Option<Vec<u8>>)
    ensures
        opt_bytes(r) == alt_base(key, shift),
{
    let b: u8 = match key {
        Key::Enter => 0x0d,
        Key::Backspace => 0x7f,
        Key::Tab => 0x09,
        Key::Escape => 0x1b,
        _ => {
            return match key_char(key, shift) {
                Some(c) => Some(utf8_of(c)),
                None => None,
            };
        },
    };
    let v: Vec<u8> = vec![b];
    assert(v@ =~= seq![b]);
    Some(v)
}

/// The bytes of a key press that no binding has, or nothing where it has no
/// encoding.
pub fn vt_fallback(key: Key, mods: Modifiers) -> (r: Option<Vec<u8>>)
    ensures
        opt_bytes(r) == fallback(key, mods),
{
    let ctrl: bool = mods.ctrl || mods.command;
    if ctrl && mods.alt && key_char(key, false).is_some() {
        return None;
    }
    if let Some(k) = csi_key(key) {
        let mut m: u8 = 1;
        if mods.shift {
            m = m + 1;
        }
        if mods.alt {
            m = m + 2;
        }
        if ctrl {
            m = m + 4;
        }
        return Some(csi_encode(k, m));
    }
    let base: Option<Vec<u8>> = if ctrl {
        match vt_ctrl_byte(key, mods.shift) {
            Some(b) => {
                let v: Vec<u8> = vec![b];
                assert(v@ =~= seq![b]);
                Some(v)
            },
            None => None,
        }
    } else if mods.alt {
        alt_bytes(key, mods.shift)
    } else {
        None
    };
    if !mods.alt {
        return base;
    }
    match base {
        Some(b) => {
            let mut out: Vec<u8> = vec![0x1b];
            assert(out@ =~= seq![0x1bu8]);
            let mut b = b;
            out.append(&mut b);
            Some(out)
        },
        None => None,
    }
}

/// A key that types a character sends nothing by itself with shift alone, or
/// with control and alt together: the character arrives as text, once.
pub proof fn printables_are_not_typed_twice(key: Key, mods: Modifiers)
    requires
        typed_char(key, false) is Some,
        mods.alt == (mods.ctrl || mods.command),
    ensures
        fallback(key, mods) is None,
{
}

/// A key of the control-sequence kind that types no character sends its
/// sequence with any modifiers.
pub proof fn sequences_take_any_modifiers(key: Key, mods: Modifiers)
    requires
        csi_of(key) is Some,
        typed_char(key, false) is None,
    ensures
        fallback(key, mods) == Some(
            csi_bytes(
                csi_of(key)->0,
                modifier_number(mods.shift, mods.alt, mods.ctrl || mods.command),
            ),
        ),
{
}

} // verus!
