use glow::deps::bubbles::textinput::Model;

fn input(value: &str) -> Model {
    let mut m = Model::new();
    m.prompt = "Find:".into();
    m.focus();
    m.set_value(value);
    m.cursor_end();
    m
}

#[test]
fn typing_inserts_at_the_cursor() {
    let mut m = input("");
    for c in ["a", "b", "c"] {
        m.update_key(c, c);
    }
    assert_eq!(m.value(), "abc");
    m.update_key("left", "");
    m.update_key("x", "x");
    assert_eq!(m.value(), "abxc");
}

#[test]
fn backspace_and_delete_remove_around_the_cursor() {
    let mut m = input("abc");
    m.update_key("backspace", "");
    assert_eq!(m.value(), "ab");
    m.cursor_start();
    m.update_key("delete", "");
    assert_eq!(m.value(), "b");
    m.update_key("backspace", "");
    assert_eq!(m.value(), "b", "backspace at the start does nothing");
}

#[test]
fn line_editing_keys_cut_around_the_cursor() {
    let mut m = input("hello world");
    m.set_cursor(5);
    m.update_key("ctrl+k", "");
    assert_eq!(m.value(), "hello");
    m.update_key("ctrl+u", "");
    assert_eq!(m.value(), "");
    assert_eq!(m.position(), 0);
}

#[test]
fn word_keys_move_and_delete_by_word() {
    let mut m = input("one two three");
    m.update_key("alt+b", "");
    assert_eq!(m.position(), 8);
    m.update_key("ctrl+w", "");
    assert_eq!(m.value(), "one three", "the space before the word is kept");
    m.update_key("alt+b", "");
    assert_eq!(m.position(), 0);
    m.update_key("alt+d", "");
    assert_eq!(m.value(), " three");
}

#[test]
fn reset_clears_the_value_and_the_cursor() {
    let mut m = input("abc");
    m.reset();
    assert_eq!(m.value(), "");
    assert_eq!(m.position(), 0);
}

#[test]
fn the_view_shows_the_prompt_and_a_cursor_block() {
    let mut m = input("ab");
    m.set_width(4);
    let view = m.view();
    assert!(view.starts_with("Find:"), "{view}");
    assert!(view.contains("ab"), "{view}");
}

#[test]
fn tabs_and_newlines_become_spaces() {
    let mut m = input("");
    m.update_key("x", "a\tb\nc");
    assert_eq!(m.value(), "a b c");
}

#[test]
fn word_forward_passes_spaces_then_the_word() {
    let mut m = input("one two");
    m.cursor_start();
    m.update_key("alt+f", "");
    assert_eq!(m.position(), 3);
    m.update_key("alt+f", "");
    assert_eq!(m.position(), 7);
}

#[test]
fn a_narrow_window_follows_the_cursor() {
    let mut m = input("abcdefghij");
    m.set_width(4);
    m.blur();
    // Blurred, the cursor is a plain space at the end of the window.
    assert_eq!(m.view(), "Find:ghij ");
    m.cursor_start();
    // At the start, the window holds one character past the width.
    assert_eq!(m.view(), "Find:abcde");
}

#[test]
fn focus_and_blink_toggle() {
    let mut m = Model::new();
    assert!(!m.focused());
    m.focus();
    assert!(m.focused());
    m.blur();
    assert!(!m.focused());
    assert_eq!(m.width(), 0);
    m.set_width(-3);
    assert_eq!(m.width(), 0);
}
