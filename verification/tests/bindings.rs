//! Keys, modifiers and bindings.

use composer::bindings::{Binding, BindingAction, BindingsLayout, InputKind, PointerButton};
use composer::keys::{key_char, vt_fallback, Key, Modifiers};
use composer::term::APP_CURSOR;

const NONE: Modifiers =
    Modifiers { alt: false, ctrl: false, shift: false, mac_cmd: false, command: false };
const CTRL: Modifiers = Modifiers { ctrl: true, ..NONE };
const ALT: Modifiers = Modifiers { alt: true, ..NONE };
const SHIFT: Modifiers = Modifiers { shift: true, ..NONE };
const CTRL_ALT: Modifiers = Modifiers { alt: true, ctrl: true, ..NONE };

const A: Key = Key::Letter(0);
const B: Key = Key::Letter(1);
const Q: Key = Key::Letter(16);
const Z: Key = Key::Letter(25);

fn both(a: Modifiers, b: Modifiers) -> Modifiers {
    Modifiers {
        alt: a.alt || b.alt,
        ctrl: a.ctrl || b.ctrl,
        shift: a.shift || b.shift,
        mac_cmd: a.mac_cmd || b.mac_cmd,
        command: a.command || b.command,
    }
}

fn fb(key: Key, mods: Modifiers) -> Vec<u8> {
    vt_fallback(key, mods).unwrap_or_else(|| panic!("no encoding for {key:?}+{mods:?}"))
}

#[test]
fn table_pins_the_backspace_family() {
    let b = BindingsLayout::new();
    let act = |mods| b.get_action(InputKind::KeyCode(Key::Backspace), mods, 0);
    assert!(matches!(act(NONE), BindingAction::Char('\x7f')));
    assert!(matches!(act(CTRL), BindingAction::Char('\x08')));
    assert!(matches!(act(ALT), BindingAction::Esc(s) if s == "\x1b\x7f"));
}

#[test]
fn ctrl_character_math() {
    assert_eq!(fb(A, CTRL), vec![0x01]);
    assert_eq!(fb(Z, CTRL), vec![0x1a]);
    assert_eq!(fb(Key::Space, CTRL), vec![0x00]);
    assert_eq!(fb(Key::Num(2), CTRL), vec![0x00]);
    assert_eq!(fb(Key::Num(7), CTRL), vec![0x1f]);
    assert_eq!(fb(Key::Num(8), CTRL), vec![0x7f]);
    assert_eq!(fb(Key::Mark('/'), CTRL), vec![0x1f]);
    assert_eq!(fb(Key::Mark('-'), CTRL), vec![0x1f]);
    assert_eq!(fb(Key::Mark('['), CTRL), vec![0x1b]);
    assert_eq!(fb(Key::Mark('\\'), CTRL), vec![0x1c]);
    assert_eq!(fb(Key::Mark(']'), CTRL), vec![0x1d]);
    assert_eq!(fb(Key::Enter, CTRL), b"\n".to_vec());
    // Shift changes nothing for a letter.
    assert_eq!(fb(A, both(CTRL, SHIFT)), vec![0x01]);
    // What has no control character goes through as it is.
    assert_eq!(fb(Key::Num(1), CTRL), b"1".to_vec());
}

#[test]
fn alt_prefixes_escape() {
    assert_eq!(fb(A, ALT), b"\x1ba".to_vec());
    assert_eq!(fb(A, both(ALT, SHIFT)), b"\x1bA".to_vec());
    // Ctrl+Alt+Enter types nothing, so the chord still encodes.
    assert_eq!(fb(Key::Enter, CTRL_ALT), vec![0x1b, b'\n']);
    assert_eq!(fb(Key::Enter, ALT), b"\x1b\r".to_vec());
    assert_eq!(fb(Key::Mark('.'), ALT), b"\x1b.".to_vec());
    assert_eq!(fb(Key::Mark('.'), both(ALT, SHIFT)), b"\x1b>".to_vec());
    assert_eq!(fb(Key::Num(3), ALT), b"\x1b3".to_vec());
}

#[test]
fn csi_modifier_formula() {
    assert_eq!(fb(Key::ArrowLeft, CTRL), b"\x1b[1;5D".to_vec());
    assert_eq!(fb(Key::ArrowUp, SHIFT), b"\x1b[1;2A".to_vec());
    assert_eq!(fb(Key::Home, SHIFT), b"\x1b[1;2H".to_vec());
    assert_eq!(fb(Key::End, CTRL), b"\x1b[1;5F".to_vec());
    assert_eq!(fb(Key::Delete, both(CTRL, SHIFT)), b"\x1b[3;6~".to_vec());
    assert_eq!(fb(Key::Insert, ALT), b"\x1b[2;3~".to_vec());
    assert_eq!(fb(Key::F(1), CTRL), b"\x1b[1;5P".to_vec());
    assert_eq!(fb(Key::F(5), SHIFT), b"\x1b[15;2~".to_vec());
    assert_eq!(fb(Key::ArrowRight, both(CTRL_ALT, SHIFT)), b"\x1b[1;8C".to_vec());
    // F13 to F20 are encoded without a modifier too.
    assert_eq!(fb(Key::F(13), NONE), b"\x1b[25~".to_vec());
    assert_eq!(fb(Key::F(20), NONE), b"\x1b[34~".to_vec());
}

#[test]
fn plain_printables_have_no_fallback() {
    // They arrive as text; bytes here would type them twice.
    assert!(vt_fallback(A, NONE).is_none());
    assert!(vt_fallback(Key::Mark('/'), SHIFT).is_none());
    assert!(vt_fallback(Key::Space, NONE).is_none());
}

#[test]
fn altgr_printables_have_no_fallback() {
    // AltGr is Ctrl+Alt, and its character arrives as text: the key itself
    // must encode nothing.
    assert!(vt_fallback(Q, CTRL_ALT).is_none(), "AltGr+Q (@)");
    assert!(vt_fallback(B, CTRL_ALT).is_none());
    assert!(vt_fallback(Key::Num(7), CTRL_ALT).is_none(), "AltGr+7 ({{)");
    assert!(vt_fallback(Key::Num(8), CTRL_ALT).is_none(), "AltGr+8 ([)");
    assert!(vt_fallback(Key::Mark('['), CTRL_ALT).is_none());
    assert!(vt_fallback(Q, both(CTRL_ALT, SHIFT)).is_none());
    // Keys that type nothing keep the formula.
    assert_eq!(fb(Key::ArrowRight, CTRL_ALT), b"\x1b[1;7C".to_vec());
    assert_eq!(fb(Key::Delete, CTRL_ALT), b"\x1b[3;7~".to_vec());
}

#[test]
fn cursor_keys_follow_the_terminal_mode() {
    let b = BindingsLayout::new();
    let up = InputKind::KeyCode(Key::ArrowUp);
    assert!(matches!(b.get_action(up, NONE, 0), BindingAction::Esc(s) if s == "\x1b[A"));
    assert!(matches!(b.get_action(up, NONE, APP_CURSOR), BindingAction::Esc(s) if s == "\x1bOA"));
    // A modifier that no binding has is none of theirs.
    assert!(matches!(b.get_action(up, SHIFT, 0), BindingAction::Ignore));
}

#[test]
fn a_binding_takes_the_place_of_one_for_the_same_input() {
    let mut b = BindingsLayout::new();
    let n = b.layout.len();
    let enter = Binding {
        target: InputKind::KeyCode(Key::Enter),
        modifiers: NONE,
        terminal_mode_include: 0,
        terminal_mode_exclude: 0,
    };
    b.add_bindings(vec![(enter, BindingAction::Char('x'))]);
    assert_eq!(b.layout.len(), n);
    assert!(matches!(
        b.get_action(InputKind::KeyCode(Key::Enter), NONE, 0),
        BindingAction::Char('x')
    ));
    let middle = Binding { target: InputKind::Mouse(PointerButton::Middle), ..enter };
    b.add_bindings(vec![(middle, BindingAction::Paste)]);
    assert_eq!(b.layout.len(), n + 1);
    assert!(matches!(
        b.get_action(InputKind::Mouse(PointerButton::Middle), NONE, 0),
        BindingAction::Paste
    ));
}

#[test]
fn the_clipboard_has_its_chords() {
    let b = BindingsLayout::new();
    let held = Modifiers { ctrl: true, command: true, shift: true, ..NONE };
    let copy = b.get_action(InputKind::KeyCode(Key::Letter(2)), held, 0);
    assert!(matches!(copy, BindingAction::Copy));
    let paste = b.get_action(InputKind::KeyCode(Key::Letter(21)), held, 0);
    assert!(matches!(paste, BindingAction::Paste));
    let bare = b.get_action(InputKind::KeyCode(Key::Letter(2)), NONE, 0);
    assert!(matches!(bare, BindingAction::Ignore));
}

#[test]
fn shift_types_the_other_character() {
    assert_eq!(key_char(A, false), Some('a'));
    assert_eq!(key_char(A, true), Some('A'));
    assert_eq!(key_char(Key::Num(1), true), Some('!'));
    assert_eq!(key_char(Key::Mark('/'), true), Some('?'));
    assert_eq!(key_char(Key::ArrowUp, false), None);
}

#[test]
fn app_cursor_is_the_terminals_bit() {
    assert_eq!(APP_CURSOR, alacritty_terminal::term::TermMode::APP_CURSOR.bits());
}
