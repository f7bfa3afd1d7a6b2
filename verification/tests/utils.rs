use glow::deps::glamour::style::StyleConfig;
use glow::deps::glamour::styles::{for_code, glamour_style, StyleSource};
use glow::utils::{extension, is_markdown_file, remove_frontmatter, wrap_code_block};

#[test]
fn removes_frontmatter_only_at_the_start() {
    let src = b"---\ntitle: x\n---\n\n# H\n";
    assert_eq!(remove_frontmatter(src), b"# H\n");
    let no_fm = b"# H\n\n---\n\nbody\n";
    assert_eq!(remove_frontmatter(no_fm), no_fm);
}

#[test]
fn keeps_content_without_two_delimiters() {
    let src = b"---\ntitle: x\n";
    assert_eq!(remove_frontmatter(src), src);
}

#[test]
fn wraps_code_blocks_with_the_language_tag() {
    assert_eq!(wrap_code_block("x\n", ".rs"), "```.rs\nx\n```");
}

#[test]
fn markdown_extensions_are_case_insensitive() {
    for name in ["a.md", "a.MD", "a.markdown", "a.Mkd", "a.mdown", "a.mkdn"] {
        assert!(is_markdown_file(name), "{name}");
    }
    for name in ["a.rs", "a.go", "a.txt", "a.png"] {
        assert!(!is_markdown_file(name), "{name}");
    }
    assert!(is_markdown_file("README"), "no extension means markdown");
}

#[test]
fn extension_takes_the_last_dot_of_the_base_name() {
    assert_eq!(extension("/a.b/c.rs"), ".rs");
    assert_eq!(extension("/a.b/c"), "");
}

#[test]
fn frontmatter_with_crlf_and_a_blank_line() {
    let src = b"---\r\na: 1\r\n---\r\n  \r\nbody";
    assert_eq!(remove_frontmatter(src), b"body");
    let later = b"x\n---\na\n---\nbody";
    assert_eq!(remove_frontmatter(later), later);
    assert_eq!(extension("dir\\file.tar.gz"), ".gz");
}

#[test]
fn glamour_style_maps_auto_to_dark_for_prose() {
    match glamour_style("auto", false, true) {
        StyleSource::Standard(name) => assert_eq!(name, "dark"),
        other => panic!("expected the dark standard style, got {other:?}"),
    }
}

#[test]
fn glamour_style_removes_the_code_block_margin_for_code() {
    match glamour_style("notty", true, true) {
        StyleSource::Code(name) => {
            assert_eq!(name, "notty");
            let mut sheet = StyleConfig::default();
            sheet.code_block.block.margin = Some(2);
            assert_eq!(for_code(sheet).code_block.block.margin, Some(0));
        }
        other => panic!("expected the code form of a built-in style, got {other:?}"),
    }
}

#[test]
fn glamour_style_falls_back_to_a_json_file_for_code() {
    match glamour_style("/tmp/custom.json", true, true) {
        StyleSource::JsonFile(p) => assert_eq!(p, "/tmp/custom.json"),
        other => panic!("expected a JSON file source, got {other:?}"),
    }
}

#[test]
fn glamour_style_follows_the_background_for_auto_code() {
    match glamour_style("auto", true, false) {
        StyleSource::Code(name) => assert_eq!(name, "light"),
        other => panic!("expected the light style, got {other:?}"),
    }
    match glamour_style("tokyo-night", true, true) {
        StyleSource::Code(name) => assert_eq!(name, "dracula"),
        other => panic!("expected the dracula style, got {other:?}"),
    }
    match glamour_style("custom.json", false, true) {
        StyleSource::Path(p) => assert_eq!(p, "custom.json"),
        other => panic!("expected a path, got {other:?}"),
    }
}
