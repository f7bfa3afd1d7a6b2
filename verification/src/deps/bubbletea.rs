//! The terminal runtime's plain values: events, frames, and the key names
//! that serve as the TUI's key bindings.
use vstd::prelude::*;
use crate::text::{decimal, decimal_of, extend_chars, extend_str, string_of};
use vstd::view::View as ViewOf;

verus! {

broadcast use vstd::string::group_string_axioms;

/// Something that happened at the terminal.
#[derive(Debug, Clone, PartialEq, Eq)]
pub enum Event {
    /// A key was pressed, named the way bubbletea names it.
    Key(String),
    /// The window was resized.
    Resize(u16, u16),
    /// The terminal reported its background colour.
    BackgroundColor(bool),
}

/// What the model wants drawn.
#[derive(Debug, Clone, PartialEq, Eq)]
pub struct View {
    /// The frame.
    pub content: String,
    /// Whether to use the alternate screen.
    pub alt_screen: bool,
    /// Whether to track the mouse.
    pub mouse: bool,
}

/// The key of a key press.
#[derive(Debug, Clone, Copy, PartialEq, Eq)]
pub enum KeyCode {
    Char(char),
    Enter,
    Esc,
    Tab,
    BackTab,
    Backspace,
    Delete,
    Insert,
    Left,
    Right,
    Up,
    Down,
    Home,
    End,
    PageUp,
    PageDown,
    F(u8),
    /// A key that has no name.
    Other,
}

/// A key press and the modifiers held with it.
#[derive(Debug, Clone, Copy, PartialEq, Eq)]
pub struct KeyEvent {
    pub code: KeyCode,
    pub ctrl: bool,
    pub alt: bool,
    pub shift: bool,
}

/// The name of a key without its modifiers, if it has one.
pub open spec fn base_name(code: KeyCode) -> Option<Seq<char>> {
    match code {
        KeyCode::Char(c) => if c == ' ' {
            Some("space"@)
        } else {
            Some(seq![c])
        },
        KeyCode::Enter => Some("enter"@),
        KeyCode::Esc => Some("esc"@),
        KeyCode::Tab => Some("tab"@),
        KeyCode::BackTab => Some("shift+tab"@),
        KeyCode::Backspace => Some("backspace"@),
        KeyCode::Delete => Some("delete"@),
        KeyCode::Insert => Some("insert"@),
        KeyCode::Left => Some("left"@),
        KeyCode::Right => Some("right"@),
        KeyCode::Up => Some("up"@),
        KeyCode::Down => Some("down"@),
        KeyCode::Home => Some("home"@),
        KeyCode::End => Some("end"@),
        KeyCode::PageUp => Some("pgup"@),
        KeyCode::PageDown => Some("pgdown"@),
        KeyCode::F(n) => Some("f"@ + decimal(n as nat)),
        KeyCode::Other => None,
    }
}

/// The name bubbletea gives a key press: the modifiers spelled out in the
/// order `ctrl+`, `alt+`, `shift+`, then the key. A shifted character
/// arrives already shifted, so `shift+` is only written for the other keys,
/// and back-tab is always `shift+tab`.
pub open spec fn key_name_spec(k: KeyEvent) -> Option<Seq<char>> {
    match base_name(k.code) {
        None => None,
        Some(base) => if k.code is BackTab {
            Some(base)
        } else {
            Some(
                (if k.ctrl { "ctrl+"@ } else { Seq::empty() }) + (if k.alt { "alt+"@ } else { Seq::empty() })
                    + (if k.shift && !(k.code is Char) { "shift+"@ } else { Seq::empty() }) + base,
            )
        },
    }
}

fn base_chars(code: KeyCode) -> (r: Option<Vec<char>>)
    ensures
        match base_name(code) {
            Some(b) => r matches Some(v) && v@ == b,
            None => r is None,
        },
{
    let mut v: Vec<char> = Vec::new();
    match code {
        KeyCode::Char(c) => {
            if c == ' ' {
                extend_str(&mut v, "space");
            } else {
                v.push(c);
                assert(v@ =~= seq![c]);
            }
        },
        KeyCode::Enter => extend_str(&mut v, "enter"),
        KeyCode::Esc => extend_str(&mut v, "esc"),
        KeyCode::Tab => extend_str(&mut v, "tab"),
        KeyCode::BackTab => extend_str(&mut v, "shift+tab"),
        KeyCode::Backspace => extend_str(&mut v, "backspace"),
        KeyCode::Delete => extend_str(&mut v, "delete"),
        KeyCode::Insert => extend_str(&mut v, "insert"),
        KeyCode::Left => extend_str(&mut v, "left"),
        KeyCode::Right => extend_str(&mut v, "right"),
        KeyCode::Up => extend_str(&mut v, "up"),
        KeyCode::Down => extend_str(&mut v, "down"),
        KeyCode::Home => extend_str(&mut v, "home"),
        KeyCode::End => extend_str(&mut v, "end"),
        KeyCode::PageUp => extend_str(&mut v, "pgup"),
        KeyCode::PageDown => extend_str(&mut v, "pgdown"),
        KeyCode::F(n) => {
            extend_str(&mut v, "f");
            let d = decimal_of(n as u64);
            extend_chars(&mut v, &d);
        },
        KeyCode::Other => {
            return None;
        },
    }
    proof {
        assert(v@ =~= base_name(code)->0);
    }
    Some(v)
}

/// The name bubbletea gives a key press.
pub fn key_name(k: &KeyEvent) -> (r: Option<String>)
    ensures
        match key_name_spec(*k) {
            Some(n) => r matches Some(s) && s@ == n,
            None => r is None,
        },
{
    let base = match base_chars(k.code) {
        None => {
            return None;
        },
        Some(b) => b,
    };
    if let KeyCode::BackTab = k.code {
        return Some(string_of(&base));
    }
    let mut name: Vec<char> = Vec::new();
    if k.ctrl {
        extend_str(&mut name, "ctrl+");
    }
    let ghost a = name@;
    if k.alt {
        extend_str(&mut name, "alt+");
    }
    let ghost b = name@;
    let is_char = match k.code {
        KeyCode::Char(_) => true,
        _ => false,
    };
    if k.shift && !is_char {
        extend_str(&mut name, "shift+");
    }
    let ghost c = name@;
    extend_chars(&mut name, &base);
    proof {
        let spec_name = (if k.ctrl { "ctrl+"@ } else { Seq::<char>::empty() }) + (if k.alt {
            "alt+"@
        } else {
            Seq::<char>::empty()
        }) + (if k.shift && !(k.code is Char) { "shift+"@ } else { Seq::<char>::empty() }) + base@;
        assert(a =~= (if k.ctrl { "ctrl+"@ } else { Seq::<char>::empty() }));
        assert(name@ =~= spec_name);
    }
    Some(string_of(&name))
}

} // verus!
