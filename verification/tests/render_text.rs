use glow::deps::glamour::render::{
    format_token, link_domain, make_hyperlink, sanitize_html, title_case, unescape_entities, unescape_markdown,
};

#[test]
fn hyperlink_id_is_the_fnv1a_hash() {
    let (open, close, valid) = make_hyperlink("https://example.com");
    assert!(valid);
    assert_eq!(open, "\u{1b}]8;id=1874592979;https://example.com\u{7}");
    assert_eq!(close, "\u{1b}]8;;\u{7}");
}

#[test]
fn fragment_only_links_are_not_hyperlinked() {
    let (_, _, valid) = make_hyperlink("#section");
    assert!(!valid);
}

#[test]
fn sanitizes_html_blocks() {
    assert_eq!(sanitize_html("<p>hi &amp; bye</p>", true), "hi & bye");
}

#[test]
fn title_case_capitalises_words() {
    assert_eq!(title_case("hello wide world"), "Hello Wide World");
}

#[test]
fn title_case_lowers_the_rest_of_each_word() {
    assert_eq!(title_case("hELLO-wORLD 2nd"), "Hello-World 2nd");
}

#[test]
fn numeric_entities_are_decoded() {
    assert_eq!(unescape_entities("&#65;&#x42;&#X43;"), "ABC");
    assert_eq!(unescape_entities("&#xD800; &bogus; &amp"), "&#xD800; &bogus; &amp");
    assert_eq!(unescape_entities("a &lt;b&gt; &hellip;"), "a <b> …");
}

#[test]
fn nested_tags_are_dropped_and_stray_closers_ignored() {
    assert_eq!(sanitize_html("a<b<c>>d>e", false), "ade");
    assert_eq!(sanitize_html("  x  ", false), "  x  ");
}

#[test]
fn escaped_markup_loses_its_backslash() {
    assert_eq!(unescape_markdown("1\\. a\\*b\\c"), "1. a*b\\c");
}

#[test]
fn a_link_is_named_by_its_host() {
    assert_eq!(link_domain("https://example.com/a"), "example.com");
}

#[test]
fn the_text_token_is_substituted() {
    assert_eq!(format_token("Image: {{.text}} →", "alt"), "Image: alt →");
}

#[test]
fn non_ascii_text_hashes_its_utf8_bytes() {
    let (a, _, _) = make_hyperlink("https://example.com/ü");
    let (b, _, _) = make_hyperlink("https://example.com/u");
    assert_ne!(a, b);
}
