use glow::deps::ansi::{string_width, truncate_with_tail, wrap};

#[test]
fn string_width_ignores_escapes() {
    assert_eq!(string_width("abc"), 3);
    assert_eq!(string_width("\u{1b}[38;5;252mabc\u{1b}[m"), 3);
    assert_eq!(string_width("日本"), 4);
    assert_eq!(string_width(""), 0);
}

#[test]
fn wrap_breaks_on_spaces() {
    assert_eq!(wrap("hello world", 5, ""), "hello\nworld");
    assert_eq!(wrap("hello world", 11, ""), "hello world");
}

#[test]
fn wrap_hard_breaks_long_words() {
    assert_eq!(wrap("abcdefghij", 4, ""), "abcd\nefgh\nij");
}

#[test]
fn wrap_zero_limit_is_identity() {
    assert_eq!(wrap("hello world", 0, ""), "hello world");
}

#[test]
fn wrap_preserves_newlines() {
    assert_eq!(wrap("a\nb", 10, ""), "a\nb");
}

#[test]
fn truncate_appends_tail() {
    assert_eq!(truncate_with_tail("hello world", 8, "…"), "hello w…");
    assert_eq!(truncate_with_tail("short", 8, "…"), "short");
}

#[test]
fn wrap_keeps_escapes_out_of_the_count() {
    assert_eq!(
        wrap("\u{1b}[1mhello\u{1b}[m world", 5, ""),
        "\u{1b}[1mhello\u{1b}[m\nworld"
    );
}

#[test]
fn truncate_closes_an_open_style() {
    assert_eq!(
        truncate_with_tail("\u{1b}[1mhello world", 4, "."),
        "\u{1b}[1mhel.\u{1b}[0m"
    );
}

#[test]
fn truncate_with_a_tail_wider_than_the_budget_is_empty() {
    assert_eq!(truncate_with_tail("hello world", 1, "..."), "");
}

#[test]
fn wrap_breaks_after_hyphens() {
    assert_eq!(wrap("foo-bar", 5, ""), "foo-\nbar");
}

#[test]
fn printable_ascii_is_as_wide_as_it_is_long() {
    let s: String = (' '..='~').collect();
    assert_eq!(string_width(&s), 95);
    assert_eq!(string_width("hello, world!"), 13);
    assert_eq!(string_width(""), 0);
}

#[test]
fn wrapping_keeps_every_word() {
    let s = "the quick brown fox jumps over the lazy dog";
    for limit in [1i64, 3, 5, 10, 80] {
        let out = wrap(s, limit, "");
        let seen: String = out.chars().filter(|c| *c != ' ' && *c != '\n').collect();
        let want: String = s.chars().filter(|c| *c != ' ' && *c != '\n').collect();
        assert_eq!(seen, want, "limit {limit}: {out:?}");
    }
}
