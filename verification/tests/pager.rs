use glow::deps::ansi::string_width;
use glow::ui::config::Config;
use glow::ui::pager::{PagerCmd, PagerModel, PagerMsg, PagerState};
use glow::ui::styles::Styles;
use glow::ui::{CommonModel, ELLIPSIS};

fn common() -> CommonModel {
    CommonModel {
        cfg: Config {
            glamour_style: "notty".into(),
            glamour_max_width: 80,
            ..Config::default()
        },
        cwd: String::new(),
        width: 40,
        height: 10,
        styles: Styles::new(true),
    }
}

fn pager(common: &CommonModel) -> PagerModel {
    let mut m = PagerModel::new();
    m.set_size(common, common.width, common.height);
    m
}

/// The scroll position as the status bar shows it: the fraction, clamped
/// and rounded to a whole percentage.
fn percent(m: &PagerModel) -> u64 {
    let (n, d) = m.viewport.scroll_fraction();
    let p = (n as f64 / d as f64).clamp(0.0, 1.0);
    (p * 100.0).round_ties_even() as u64
}

#[test]
fn the_status_bar_is_exactly_one_line_wide_enough() {
    let c = common();
    let mut m = pager(&c);
    m.current_document.note = "readme.md".into();
    let mut b = String::new();
    let p = percent(&m);
    m.status_bar_view(&c, &mut b, p);
    assert!(!b.contains('\n'));
    assert_eq!(string_width(&b), c.width);
    assert!(b.contains("readme.md"), "{b}");
    assert!(b.contains("? Help"), "{b}");
}

#[test]
fn a_long_note_is_truncated_with_an_ellipsis() {
    let c = common();
    let mut m = pager(&c);
    m.current_document.note = "a-very-long-document-name-that-will-not-fit.md".into();
    let mut b = String::new();
    let p = percent(&m);
    m.status_bar_view(&c, &mut b, p);
    assert!(b.contains(ELLIPSIS), "{b}");
    assert_eq!(string_width(&b), c.width);
}

#[test]
fn the_scroll_position_is_a_percentage() {
    let c = common();
    let mut m = pager(&c);
    m.set_content(&(0..100).map(|i| i.to_string()).collect::<Vec<_>>().join("\n"));
    let mut b = String::new();
    let p = percent(&m);
    m.status_bar_view(&c, &mut b, p);
    assert!(b.contains("  0%"), "{b}");
    m.viewport.goto_bottom();
    let mut b = String::new();
    let p = percent(&m);
    m.status_bar_view(&c, &mut b, p);
    assert!(b.contains("100%"), "{b}");
}

#[test]
fn the_help_view_covers_both_columns() {
    let c = common();
    let m = pager(&c);
    let help = m.help_view(&c);
    assert!(help.contains("½ page down"), "{help}");
    assert!(help.contains("back to files"), "{help}");
    assert_eq!(help.matches('\n').count(), 7);
}

#[test]
fn showing_the_help_shrinks_the_viewport() {
    let c = common();
    let mut m = pager(&c);
    let before = m.viewport.height();
    m.toggle_help(&c);
    assert!(m.viewport.height() < before);
    m.toggle_help(&c);
    assert_eq!(m.viewport.height(), before);
}

#[test]
fn the_pager_view_stacks_content_bar_and_help() {
    let c = common();
    let mut m = pager(&c);
    m.set_content("hello");
    let closed = m.view(&c, 100);
    assert!(closed.contains("hello"));
    assert!(!closed.contains("back to files"));
    m.toggle_help(&c);
    let open = m.view(&c, 100);
    assert!(open.contains("back to files"));
}

#[test]
fn the_local_dir_is_the_documents_parent() {
    let mut m = PagerModel::new();
    m.current_document.local_path = "/tmp/notes/a.md".into();
    assert_eq!(m.local_dir(), "/tmp/notes");
    m.current_document.local_path = String::new();
    assert_eq!(m.local_dir(), ".");
}

#[test]
fn unloading_closes_the_help_and_empties_the_viewport() {
    let c = common();
    let mut m = pager(&c);
    m.set_content("a\nb\nc");
    m.toggle_help(&c);
    m.unload(&c);
    assert!(!m.show_help);
    assert_eq!(m.viewport.total_line_count(), 0, "an empty document has no lines");
}

#[test]
fn pager_keys_move_copy_and_edit() {
    let c = common();
    let mut m = pager(&c);
    m.current_document.local_path = "/tmp/doc.md".into();
    m.current_document.body = "body text".into();
    let lines: Vec<String> = (0..50).map(|i| format!("line {i}")).collect();
    assert!(matches!(m.update(&c, &PagerMsg::ContentRendered(lines.join("\n"))), PagerCmd::WatchFile));
    assert_eq!(m.viewport.y_offset(), 0);
    assert!(matches!(m.update(&c, &PagerMsg::Key("G".into())), PagerCmd::Nothing));
    assert!(m.viewport.at_bottom());
    assert!(matches!(m.update(&c, &PagerMsg::Key("g".into())), PagerCmd::Nothing));
    assert!(m.viewport.at_top());
    match m.update(&c, &PagerMsg::Key("c".into())) {
        PagerCmd::Copy(t) => assert_eq!(t, "body text"),
        other => panic!("expected a copy, got {other:?}"),
    }
    assert_eq!(m.state, PagerState::StatusMessage);
    assert_eq!(m.status_message, "Copied contents");
    assert!(matches!(m.update(&c, &PagerMsg::Key("q".into())), PagerCmd::Nothing));
    assert_eq!(m.state, PagerState::Browse);
    match m.update(&c, &PagerMsg::Key("e".into())) {
        PagerCmd::OpenEditor(p) => assert_eq!(p, "/tmp/doc.md"),
        other => panic!("expected the editor, got {other:?}"),
    }
    match m.update(&c, &PagerMsg::Reload) {
        PagerCmd::Reload(p) => assert_eq!(p, "/tmp/doc.md"),
        other => panic!("expected a reload, got {other:?}"),
    }
    assert!(matches!(m.update(&c, &PagerMsg::WindowSize), PagerCmd::Render));
    let shown = m.show_help;
    assert!(matches!(m.update(&c, &PagerMsg::Key("?".into())), PagerCmd::Nothing));
    assert_eq!(m.show_help, !shown);
}
