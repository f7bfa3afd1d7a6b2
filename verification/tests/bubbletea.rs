use glow::deps::bubbletea::{key_name, KeyCode, KeyEvent};

const NONE: (bool, bool, bool) = (false, false, false);
const SHIFT: (bool, bool, bool) = (false, false, true);
const CONTROL: (bool, bool, bool) = (true, false, false);
const ALT: (bool, bool, bool) = (false, true, false);

fn key(code: KeyCode, mods: (bool, bool, bool)) -> String {
    key_name(&KeyEvent { code, ctrl: mods.0, alt: mods.1, shift: mods.2 }).expect("a name")
}

#[test]
fn plain_keys_are_named_by_their_character() {
    assert_eq!(key(KeyCode::Char('j'), NONE), "j");
    assert_eq!(key(KeyCode::Char('G'), SHIFT), "G");
    assert_eq!(key(KeyCode::Char(' '), NONE), "space");
}

#[test]
fn control_and_alt_are_spelled_out() {
    assert_eq!(key(KeyCode::Char('c'), CONTROL), "ctrl+c");
    assert_eq!(key(KeyCode::Char('z'), CONTROL), "ctrl+z");
    assert_eq!(key(KeyCode::Char('k'), ALT), "alt+k");
}

#[test]
fn navigation_keys_use_bubbleteas_names() {
    assert_eq!(key(KeyCode::PageUp, NONE), "pgup");
    assert_eq!(key(KeyCode::PageDown, NONE), "pgdown");
    assert_eq!(key(KeyCode::BackTab, SHIFT), "shift+tab");
    assert_eq!(key(KeyCode::Esc, NONE), "esc");
    assert_eq!(key(KeyCode::Enter, NONE), "enter");
}

#[test]
fn modifiers_come_in_a_fixed_order() {
    assert_eq!(key(KeyCode::Up, (true, true, true)), "ctrl+alt+shift+up");
    assert_eq!(key(KeyCode::F(12), SHIFT), "shift+f12");
    assert_eq!(key(KeyCode::BackTab, (true, false, true)), "shift+tab");
    assert_eq!(key_name(&KeyEvent { code: KeyCode::Other, ctrl: true, alt: false, shift: false }), None);
}
