use glow::deps::glamour::ast::{Alignment, MdEvent, MdTag, Node};
use glow::deps::glamour::renderer::{Options, Renderer};
use glow::deps::glamour::style::{StyleBlock, StyleConfig, StylePrimitive};
use glow::deps::glamour::tree::{document_of, linkify_nodes, parse, split_line_tails, unshield_nodes};

fn prim(block_prefix: &str, block_suffix: &str, prefix: &str, format: &str) -> StylePrimitive {
    StylePrimitive {
        block_prefix: block_prefix.to_string(),
        block_suffix: block_suffix.to_string(),
        prefix: prefix.to_string(),
        format: format.to_string(),
        ..StylePrimitive::default()
    }
}

fn block(p: StylePrimitive) -> StyleBlock {
    StyleBlock { primitive: p, ..StyleBlock::default() }
}

/// The uncoloured stylesheet: the values Glamour's `notty` style carries.
fn plain_styles() -> StyleConfig {
    let mut s = StyleConfig::default();
    s.document = StyleBlock { margin: Some(2), ..block(prim("\n", "\n", "", "")) };
    s.block_quote = StyleBlock { indent: Some(1), indent_token: Some("| ".to_string()), ..StyleBlock::default() };
    s.list.level_indent = 4;
    s.heading = block(prim("", "\n", "", ""));
    s.h1 = block(prim("", "", "# ", ""));
    s.h2 = block(prim("", "", "## ", ""));
    s.h3 = block(prim("", "", "### ", ""));
    s.h4 = block(prim("", "", "#### ", ""));
    s.h5 = block(prim("", "", "##### ", ""));
    s.h6 = block(prim("", "", "###### ", ""));
    s.strikethrough = prim("~~", "~~", "", "");
    s.emph = prim("*", "*", "", "");
    s.strong = prim("**", "**", "", "");
    s.horizontal_rule = prim("", "", "", "\n--------\n");
    s.item = prim("• ", "", "", "");
    s.enumeration = prim(". ", "", "", "");
    s.task.ticked = "[x] ".to_string();
    s.task.unticked = "[ ] ".to_string();
    s.image_text = prim("", "", "", "Image: {{.text}} →");
    s.code_block.block.margin = Some(2);
    s.table.center_separator = Some("|".to_string());
    s.table.column_separator = Some("|".to_string());
    s.table.row_separator = Some("-".to_string());
    s.definition_description = prim("\n🠶 ", "", "", "");
    s
}

fn notty(md: &str, width: i64) -> String {
    let opts = Options { word_wrap: width, ..Options::with_styles(plain_styles()) };
    Renderer::new(opts).render(md)
}

#[test]
fn parses_headings_and_paragraphs() {
    let doc = parse("# Title\n\nBody text.\n");
    let kids = doc.children();
    assert_eq!(kids.len(), 2);
    assert!(matches!(kids[0], Node::Heading { level: 1, .. }));
    assert!(matches!(kids[1], Node::Paragraph(_)));
}

#[test]
fn folds_soft_breaks_into_text() {
    let doc = parse("a\nb\n");
    let para = &doc.children()[0];
    let text: String = para.children().iter().map(|n| n.text_content()).collect();
    assert_eq!(text, "a\nb");
}

#[test]
fn parses_task_list_markers() {
    let doc = parse("- [x] done\n- [ ] todo\n");
    let list = &doc.children()[0];
    let items = list.children();
    assert!(matches!(items[0], Node::ListItem { task: Some(true), .. }));
    assert!(matches!(items[1], Node::ListItem { task: Some(false), .. }));
}

#[test]
fn parses_tables_with_alignments() {
    let doc = parse("| a | b |\n|:--|--:|\n| 1 | 2 |\n");
    match &doc.children()[0] {
        Node::Table { alignments, head, rows } => {
            assert_eq!(alignments, &[Alignment::Left, Alignment::Right]);
            assert_eq!(head.len(), 2);
            assert_eq!(rows.len(), 1);
        }
        other => panic!("expected a table, got {other:?}"),
    }
}

#[test]
fn distinguishes_autolinks_from_links() {
    let doc = parse("<https://example.com> and [x](https://y.example)\n");
    let kids = doc.children()[0].children();
    assert!(matches!(kids[0], Node::AutoLink { is_email: false, .. }));
    assert!(kids.iter().any(|n| matches!(n, Node::Link { .. })));
}

#[test]
fn linkifies_bare_urls() {
    let doc = parse("see https://example.com/x now\n");
    let kids = doc.children()[0].children();
    let link = kids
        .iter()
        .find_map(|n| match n {
            Node::AutoLink { url, .. } => Some(url.clone()),
            _ => None,
        })
        .expect("bare url should linkify");
    assert_eq!(link, "https://example.com/x");
}

#[test]
fn bare_url_drops_trailing_period() {
    let doc = parse("go to https://example.com/x.\n");
    let kids = doc.children()[0].children();
    let link = kids
        .iter()
        .find_map(|n| match n {
            Node::AutoLink { url, .. } => Some(url.clone()),
            _ => None,
        })
        .expect("bare url should linkify");
    assert_eq!(link, "https://example.com/x");
}

#[test]
fn code_blocks_keep_their_language() {
    let doc = parse("```go\npackage main\n```\n");
    match &doc.children()[0] {
        Node::CodeBlock { code, language } => {
            assert_eq!(language, "go");
            assert_eq!(code, "package main\n");
        }
        other => panic!("expected a code block, got {other:?}"),
    }
}

#[test]
fn escapes_and_entities_are_shielded_from_the_segmenting_passes() {
    let escaped = parse("# a \\[b\\] c\n");
    let literal = parse("# a [b] c\n");
    assert_eq!(escaped.text_content(), literal.text_content());
    let count = |n: &Node| n.children()[0].children().len();
    assert!(count(&escaped) < count(&literal), "an escaped bracket does not open a link label");
}

#[test]
fn parse_always_gives_a_document() {
    assert!(matches!(parse(""), Node::Document(_)));
    assert!(matches!(parse("plain\n"), Node::Document(_)));
}

#[test]
fn renders_a_heading_padded_to_the_block_width() {
    let out = notty("# Heading One\n", 80);
    let lines: Vec<&str> = out.split('\n').collect();
    assert_eq!(lines[0], "");
    assert_eq!(lines[1], format!("  # Heading One{}", " ".repeat(63)));
}

#[test]
fn word_wrap_zero_disables_padding() {
    let out = notty("# Heading One\n", 0);
    assert_eq!(out, "\n  # Heading One\n\n");
}

#[test]
fn renders_unordered_and_ordered_items() {
    let out = notty("- one\n- two\n", 0);
    assert!(out.contains("• one"), "{out:?}");
    let out = notty("1. first\n2. second\n", 0);
    assert!(out.contains("1. first"), "{out:?}");
    assert!(out.contains("2. second"), "{out:?}");
}

#[test]
fn renders_task_markers() {
    let out = notty("- [x] done\n- [ ] todo\n", 0);
    assert!(out.contains("[x] done"), "{out:?}");
    assert!(out.contains("[ ] todo"), "{out:?}");
}

#[test]
fn renders_horizontal_rule() {
    let out = notty("a\n\n---\n\nb\n", 0);
    assert!(out.contains("--------"), "{out:?}");
}

#[test]
fn renders_block_quote_with_indent_token() {
    let out = notty("> quoted\n", 0);
    assert!(out.contains("| quoted"), "{out:?}");
}

#[test]
fn emphasis_uses_style_affixes() {
    let out = notty("*em* and **strong** and ~~gone~~\n", 0);
    assert!(out.contains("*em*"), "{out:?}");
    assert!(out.contains("**strong**"), "{out:?}");
    assert!(out.contains("~~gone~~"), "{out:?}");
}

#[test]
fn code_span_drops_backticks_in_notty() {
    let out = notty("a `code` b\n", 0);
    assert!(out.contains("a code b"), "{out:?}");
}

#[test]
fn paragraph_joins_soft_breaks_unless_preserved() {
    assert!(notty("one\ntwo\n", 0).contains("one two"));
    let opts = Options { word_wrap: 0, preserve_new_lines: true, ..Options::with_styles(plain_styles()) };
    let out = Renderer::new(opts).render("one\ntwo\n");
    assert!(out.contains("one\n  two"), "{out:?}");
}

#[test]
fn image_uses_the_format_template() {
    let out = notty("![alt](https://example.com/a.png)\n", 0);
    assert!(out.contains("Image: "), "{out:?}");
    assert!(out.contains("alt"), "{out:?}");
    assert!(out.contains(" → "), "{out:?}");
}

#[test]
fn tables_render_with_the_style_separators() {
    let out = notty("| a | b |\n|---|---|\n| 1 | 2 |\n", 40);
    assert!(out.contains('|'), "{out:?}");
    assert!(out.contains('-'), "{out:?}");
    assert!(out.contains('1') && out.contains('2'), "{out:?}");
}

#[test]
fn render_node_and_render_agree() {
    let md = "# T\n\nsome *text*\n";
    let a = Renderer::new(Options::with_styles(plain_styles())).render(md);
    let b = Renderer::new(Options::with_styles(plain_styles())).render_node(&parse(md));
    assert_eq!(a, b);
}

#[test]
fn a_line_tail_splits_at_its_last_space_after_wide_characters() {
    let doc = parse("é b\n");
    let texts: Vec<String> = doc.children()[0].children().iter().map(|n| n.text_content()).collect();
    assert_eq!(texts, vec!["é".to_string(), " b".to_string()]);
}

#[test]
fn a_documents_events_build_its_tree() {
    let events = vec![
        (MdEvent::Start(MdTag::Paragraph), 0, 3),
        (MdEvent::Text("a b".to_string()), 0, 3),
        (MdEvent::End, 0, 3),
    ];
    let doc = document_of(events, "a b");
    let para = &doc.children()[0];
    assert!(matches!(para, Node::Paragraph(_)));
    let texts: Vec<String> = para.children().iter().map(|n| n.text_content()).collect();
    assert_eq!(texts, vec!["a".to_string(), " b".to_string()]);
}

#[test]
fn an_escaped_event_keeps_its_character() {
    let events = vec![
        (MdEvent::Start(MdTag::Paragraph), 0, 3),
        (MdEvent::Text("[x".to_string()), 1, 3),
        (MdEvent::End, 0, 3),
    ];
    let doc = document_of(events, "\\[x");
    assert_eq!(doc.text_content(), "[x");
}

#[test]
fn the_passes_link_split_and_restore() {
    let nodes = vec![Node::Paragraph(vec![Node::Text("see https://a.example now".to_string())])];
    let linked = linkify_nodes(&nodes);
    assert!(linked[0].children().iter().any(|n| matches!(n, Node::AutoLink { .. })));
    let split = split_line_tails(&vec![Node::Paragraph(vec![Node::Text("one two".to_string())])]);
    let texts: Vec<String> = split[0].children().iter().map(|n| n.text_content()).collect();
    assert_eq!(texts, vec!["one".to_string(), " two".to_string()]);
    let plain = unshield_nodes(&vec![Node::Text("plain".to_string())]);
    assert_eq!(plain[0].text_content(), "plain");
}
