use glow::deps::glamour::ast::{build_tree, linkify_text, Alignment, LinkKind, MdEvent, MdTag, Node};

fn ev(e: MdEvent, raw: &str) -> (MdEvent, String, bool) {
    (e, raw.to_string(), false)
}

#[test]
fn bare_urls_become_autolinks() {
    let nodes = linkify_text("see https://example.com/x now");
    assert_eq!(nodes.len(), 3);
    match &nodes[1] {
        Node::AutoLink { url, is_email } => {
            assert_eq!(url, "https://example.com/x");
            assert!(!is_email);
        }
        other => panic!("expected an autolink, got {other:?}"),
    }
}

#[test]
fn trailing_punctuation_is_left_out_of_a_url() {
    let nodes = linkify_text("go to https://example.com/x.");
    match &nodes[1] {
        Node::AutoLink { url, .. } => assert_eq!(url, "https://example.com/x"),
        other => panic!("expected an autolink, got {other:?}"),
    }
}

#[test]
fn www_links_gain_a_protocol_and_emails_are_found() {
    let nodes = linkify_text("www.example.com and me@example.org");
    match &nodes[0] {
        Node::AutoLink { url, .. } => assert_eq!(url, "http://www.example.com"),
        other => panic!("expected an autolink, got {other:?}"),
    }
    match nodes.last().unwrap() {
        Node::AutoLink { url, is_email } => {
            assert_eq!(url, "me@example.org");
            assert!(is_email);
        }
        other => panic!("expected an email link, got {other:?}"),
    }
}

#[test]
fn a_host_without_a_period_stays_text() {
    let nodes = linkify_text("http://localhost:80");
    assert!(matches!(&nodes[0], Node::Text(t) if t == "http://localhost:80"));
}

#[test]
fn events_build_headings_paragraphs_and_breaks() {
    let events = vec![
        ev(MdEvent::Start(MdTag::Heading(1)), "# Title"),
        ev(MdEvent::Text("Title".into()), "Title"),
        ev(MdEvent::End, "# Title"),
        ev(MdEvent::Start(MdTag::Paragraph), "a\nb"),
        ev(MdEvent::Text("a".into()), "a"),
        ev(MdEvent::SoftBreak, "\n"),
        ev(MdEvent::Text("b".into()), "b"),
        ev(MdEvent::End, "a\nb"),
    ];
    let nodes = build_tree(events);
    assert_eq!(nodes.len(), 2);
    assert!(matches!(nodes[0], Node::Heading { level: 1, .. }));
    assert_eq!(nodes[1].text_content(), "a\nb");
}

#[test]
fn task_markers_and_tables_are_kept() {
    let events = vec![
        ev(MdEvent::Start(MdTag::List(None)), ""),
        ev(MdEvent::Start(MdTag::Item), ""),
        ev(MdEvent::TaskListMarker(true), ""),
        ev(MdEvent::Text("done".into()), "done"),
        ev(MdEvent::End, ""),
        ev(MdEvent::End, ""),
        ev(MdEvent::Start(MdTag::Table(vec![Alignment::Left, Alignment::Right])), ""),
        ev(MdEvent::Start(MdTag::TableHead), ""),
        ev(MdEvent::Start(MdTag::TableCell), ""),
        ev(MdEvent::Text("a".into()), "a"),
        ev(MdEvent::End, ""),
        ev(MdEvent::Start(MdTag::TableCell), ""),
        ev(MdEvent::Text("b".into()), "b"),
        ev(MdEvent::End, ""),
        ev(MdEvent::End, ""),
        ev(MdEvent::Start(MdTag::TableRow), ""),
        ev(MdEvent::Start(MdTag::TableCell), ""),
        ev(MdEvent::Text("1".into()), "1"),
        ev(MdEvent::End, ""),
        ev(MdEvent::End, ""),
        ev(MdEvent::End, ""),
    ];
    let nodes = build_tree(events);
    match &nodes[0] {
        Node::List { items, .. } => assert!(matches!(items[0], Node::ListItem { task: Some(true), .. })),
        other => panic!("expected a list, got {other:?}"),
    }
    match &nodes[1] {
        Node::Table { alignments, head, rows } => {
            assert_eq!(alignments, &vec![Alignment::Left, Alignment::Right]);
            assert_eq!(head.len(), 2);
            assert_eq!(rows.len(), 1);
        }
        other => panic!("expected a table, got {other:?}"),
    }
}

#[test]
fn autolinks_and_code_blocks_close_into_their_nodes() {
    let events = vec![
        ev(MdEvent::Start(MdTag::Link { kind: LinkKind::Autolink, destination: "https://e.com".into() }), ""),
        ev(MdEvent::Text("https://e.com".into()), "https://e.com"),
        ev(MdEvent::End, ""),
        ev(MdEvent::Start(MdTag::CodeBlock(Some("  go extra".into()))), ""),
        ev(MdEvent::Text("package main\n".into()), "package main\n"),
        ev(MdEvent::End, ""),
        ev(MdEvent::End, ""),
    ];
    let nodes = build_tree(events);
    assert!(matches!(&nodes[0], Node::AutoLink { is_email: false, .. }));
    match &nodes[1] {
        Node::CodeBlock { code, language } => {
            assert_eq!(language, "go");
            assert_eq!(code, "package main\n");
        }
        other => panic!("expected a code block, got {other:?}"),
    }
}
