use glow::style::{keyword, paragraph};

#[test]
fn keyword_is_truecolor_green() {
    assert_eq!(
        keyword("with pizzazz"),
        "\u{1b}[38;2;4;181;117mwith pizzazz\u{1b}[m"
    );
}

#[test]
fn paragraph_pads_to_78_columns() {
    let out = paragraph("hello");
    assert_eq!(out, format!("  hello{}", " ".repeat(71)));
}
