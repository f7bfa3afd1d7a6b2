use glow::deps::shell::fields;

const NO_ENV: &[(&str, &str)] = &[];

#[test]
fn splits_on_whitespace() {
    assert_eq!(fields("less -r", NO_ENV).unwrap(), vec!["less", "-r"]);
    assert_eq!(fields("  less   -r  ", NO_ENV).unwrap(), vec!["less", "-r"]);
}

#[test]
fn an_empty_command_has_no_fields() {
    assert!(fields("", NO_ENV).unwrap().is_empty());
    assert!(fields("   ", NO_ENV).unwrap().is_empty());
}

#[test]
fn quotes_keep_spaces_together() {
    assert_eq!(fields("'my pager' -x", NO_ENV).unwrap(), vec!["my pager", "-x"]);
    assert_eq!(fields("\"my pager\" -x", NO_ENV).unwrap(), vec!["my pager", "-x"]);
    assert_eq!(fields("a'' b", NO_ENV).unwrap(), vec!["a", "b"]);
    assert_eq!(fields("''", NO_ENV).unwrap(), vec![""]);
}

#[test]
fn backslash_escapes_a_space() {
    assert_eq!(fields("my\\ pager", NO_ENV).unwrap(), vec!["my pager"]);
}

#[test]
fn expands_variables() {
    let env: &[(&str, &str)] = &[("P", "less"), ("ARGS", "-r -F")];
    assert_eq!(fields("$P $ARGS", env).unwrap(), vec!["less", "-r", "-F"]);
    assert_eq!(fields("${P}x", env).unwrap(), vec!["lessx"]);
    assert_eq!(fields("\"$ARGS\"", env).unwrap(), vec!["-r -F"]);
    assert_eq!(fields("$NOPE", env).unwrap(), Vec::<String>::new());
}

#[test]
fn unterminated_quotes_are_an_error() {
    assert!(fields("'oops", NO_ENV).is_err());
    assert!(fields("\"oops", NO_ENV).is_err());
    assert!(fields("${oops", NO_ENV).is_err());
}

#[test]
fn error_messages_and_literal_dollars() {
    assert_eq!(
        fields("\"x", NO_ENV).unwrap_err().0,
        "reached EOF without closing quote \""
    );
    assert_eq!(
        fields("x\\", NO_ENV).unwrap_err().0,
        "reached EOF without closing quote \\"
    );
    assert_eq!(fields("a$ $1", NO_ENV).unwrap(), vec!["a$", "$1"]);
    assert_eq!(fields("\"a\\$b\\q\"", NO_ENV).unwrap(), vec!["a$b\\q"]);
}

#[test]
fn plain_text_splits_on_ifs_whitespace_alone() {
    let got = fields("  less  -r\t-X \n", &[("PAGER", "more")]).unwrap();
    assert_eq!(got, vec!["less", "-r", "-X"]);
    assert_eq!(fields(" \t\n ", &[]).unwrap(), Vec::<String>::new());
    assert_eq!(fields("a\u{a0}b c", &[]).unwrap(), vec!["a\u{a0}b", "c"]);
}
