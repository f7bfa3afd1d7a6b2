use glow::deps::roff::{escape_text, Document, BOLD, ITALIC, PREVIOUS_FONT};

#[test]
fn title_heading_orders_date_before_title() {
    let mut d = Document::new();
    d.heading(1, "Title", "A short description", "2022-01-11");
    assert_eq!(
        d.to_string(),
        ".TH TITLE 1 \"2022-01-11\" \"Title\" \"A short description\""
    );
}

#[test]
fn section_heading_is_upper_cased() {
    let mut d = Document::new();
    d.section("Test");
    assert_eq!(d.to_string(), "\n.SH TEST\n");
}

#[test]
fn bold_text_is_wrapped_in_font_escapes() {
    let mut d = Document::new();
    d.text_bold("Test");
    assert_eq!(d.to_string(), "\\fBTest\\fP");
}

#[test]
fn periods_and_backslashes_are_escaped() {
    let mut d = Document::new();
    d.text("options...");
    assert_eq!(d.to_string(), "options\\&.\\&.\\&.");
    assert!(
        !escape_text("TUI-mode only").contains('\\'),
        "hyphens are literal"
    );
}

#[test]
fn a_leading_newline_never_makes_a_blank_line() {
    let mut d = Document::new();
    d.section("One");
    d.section("Two");
    assert_eq!(d.to_string(), "\n.SH ONE\n.SH TWO\n");
}

#[test]
fn end_section_after_a_newline_writes_nothing() {
    let mut d = Document::new();
    d.section("One");
    d.end_section();
    assert_eq!(d.to_string(), "\n.SH ONE\n");
    d.text_bold("x");
    d.end_section();
    assert_eq!(d.to_string(), "\n.SH ONE\n\\fBx\\fP\n");
}

#[test]
fn multi_line_text_becomes_paragraphs() {
    let mut d = Document::new();
    d.text("one\ntwo");
    assert_eq!(d.to_string(), "one\n.PP\ntwo");
}

#[test]
fn star_prefixed_lines_become_a_list() {
    let mut d = Document::new();
    d.text("*one\n*two\nafter");
    assert_eq!(
        d.to_string(),
        "\n.RS\n.IP \\(bu 3\none\n.IP \\(bu 3\ntwo\n.RE\nafter"
    );
}

#[test]
fn backslash_is_escaped_as_e() {
    assert_eq!(escape_text("a\\b.c"), "a\\eb\\&.c");
}

#[test]
fn italic_text_and_font_constants_agree() {
    let mut d = Document::new();
    d.text_italic("w");
    assert_eq!(d.to_string(), format!("{}w{}", ITALIC, PREVIOUS_FONT));
    assert_eq!(BOLD, "\\fB");
}

#[test]
fn indents_and_tagged_paragraphs() {
    let mut d = Document::new();
    d.indent(4);
    d.tagged_paragraph(-1);
    d.indent_end();
    d.paragraph();
    assert_eq!(d.to_string(), "\n.RS 4\n.TP\n.RE\n.PP\n");
}

#[test]
fn heading_text_is_trimmed_and_a_blank_line_is_never_written() {
    let mut d = Document::new();
    d.text("x\n");
    d.list("item");
    assert!(!d.to_string().contains("\n\n"));
}
