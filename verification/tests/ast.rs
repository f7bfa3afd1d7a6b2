use glow::deps::glamour::ast::{
    is_delimiter, is_trigger, last_trigger, shield, split_text_brackets, split_text_delimiters,
    trailing_backslashes, unshield,
};

#[test]
fn link_labels_split_a_text_run() {
    assert_eq!(split_text_brackets("a [b] c"), vec!["a [", "b] c"]);
    assert_eq!(split_text_brackets("[a] b"), vec!["[", "a] b"]);
    assert_eq!(
        split_text_brackets("tags: [a, b]"),
        vec!["tags: [", "a, b]"]
    );
    assert_eq!(
        split_text_brackets("a [b [c] d] e"),
        vec!["a [", "b [", "c] d] e"]
    );
}

#[test]
fn an_unclosed_label_is_a_run_of_its_own() {
    assert_eq!(split_text_brackets("a [ b"), vec!["a ", "[", " b"]);
    assert_eq!(split_text_brackets("a ["), vec!["a ", "["]);
    assert_eq!(split_text_brackets("["), vec!["["]);
    assert_eq!(split_text_brackets("a ![b"), vec!["a ", "![", "b"]);
}

#[test]
fn a_closer_without_an_opener_stays_in_the_text() {
    assert_eq!(split_text_brackets("a ] b"), vec!["a ] b"]);
    assert_eq!(split_text_brackets("a ]] b"), vec!["a ]] b"]);
    assert_eq!(split_text_brackets("plain"), vec!["plain"]);
}

#[test]
fn an_empty_run_is_one_empty_piece() {
    assert_eq!(split_text_brackets(""), vec![""]);
    assert_eq!(split_text_delimiters(""), vec![""]);
}

#[test]
fn delimiter_runs_end_a_piece_unless_they_end_the_text() {
    assert_eq!(split_text_delimiters("XDG_CACHE"), vec!["XDG_", "CACHE"]);
    assert_eq!(split_text_delimiters("a**b"), vec!["a**", "b"]);
    assert_eq!(split_text_delimiters("end~"), vec!["end~"]);
    assert_eq!(split_text_delimiters("plain"), vec!["plain"]);
    assert!(is_delimiter('~') && !is_delimiter('['));
}

#[test]
fn shielding_is_undone_by_unshielding() {
    let s = "a [b] *c* _d_ ~e~";
    let shielded = shield(s);
    assert!(!shielded.contains('['));
    assert!(!shielded.contains('*'));
    assert_eq!(shielded.chars().count(), s.chars().count());
    assert_eq!(unshield(&shielded), s);
    assert_eq!(unshield("plain"), "plain");
}

#[test]
fn trailing_backslashes_are_counted() {
    assert_eq!(trailing_backslashes("a\\\\"), 2);
    assert_eq!(trailing_backslashes("a\\b"), 0);
    assert_eq!(trailing_backslashes(""), 0);
}

#[test]
fn the_last_trigger_is_a_byte_offset() {
    assert_eq!(last_trigger("aaa bbb"), Some(3));
    assert_eq!(last_trigger("é b"), Some(2));
    assert_eq!(last_trigger("a]b"), Some(1));
    assert_eq!(last_trigger("plain"), None);
    assert!(is_trigger('\t') && !is_trigger('['));
}
