use glow::deps::bubbles::spinner;
use glow::deps::lipgloss::{Color, Style};
use glow::ui::config::Config;
use glow::ui::markdown::Markdown;
use glow::ui::stash::{filter_markdowns, style_filtered_text, FilterState, Section, SectionKey, StashModel};
use glow::ui::stashhelp::merge_columns;
use glow::ui::styles::Styles;
use glow::ui::CommonModel;

fn common() -> CommonModel {
    CommonModel {
        cfg: Config::default(),
        cwd: String::new(),
        width: 80,
        height: 24,
        styles: Styles::new(true),
    }
}

fn doc(note: String, path: String) -> Markdown {
    Markdown {
        note,
        local_path: path,
        ..Markdown::default()
    }
}

fn stash(n: usize) -> (CommonModel, StashModel) {
    let mut c = common();
    let mut m = StashModel::new(&c.styles);
    let docs: Vec<Markdown> = (0..n)
        .map(|i| doc(format!("doc{i:02}.md"), format!("/tmp/doc{i:02}.md")))
        .collect();
    m.add_markdowns(&c, docs);
    m.set_size(&mut c, 80, 24);
    (c, m)
}

fn model(docs: usize) -> (CommonModel, StashModel) {
    let mut c = common();
    let mut m = StashModel::new(&c.styles);
    let mds: Vec<Markdown> = (0..docs)
        .map(|i| doc(format!("doc{i}.md"), String::new()))
        .collect();
    m.add_markdowns(&c, mds);
    m.set_size(&mut c, 80, 24);
    (c, m)
}

fn set_page(m: &mut StashModel, page: usize) {
    let k = m.section_index;
    m.sections[k].paginator.page = page;
}

#[test]
fn per_page_comes_from_the_available_height() {
    let (_c, m) = stash(20);
    // (24 - 5 - 1 - 3) / 3
    assert_eq!(m.paginator().per_page, 5);
    assert_eq!(m.paginator().total_pages, 4);
}

#[test]
fn at_least_one_item_fits_on_a_page() {
    let mut c = common();
    c.height = 1;
    let mut m = StashModel::new(&c.styles);
    m.set_size(&mut c, 80, 1);
    assert_eq!(m.paginator().per_page, 1);
}

#[test]
fn the_cursor_pages_at_the_edges() {
    let (_c, mut m) = stash(20);
    for _ in 0..5 {
        m.move_cursor_down();
    }
    assert_eq!(m.paginator().page, 1);
    assert_eq!(m.cursor(), 0);
    m.move_cursor_up();
    assert_eq!(m.paginator().page, 0);
    assert_eq!(m.cursor(), 4);
    m.set_cursor(0);
    m.move_cursor_up();
    assert_eq!(m.cursor(), 0, "the first row is the top");
}

#[test]
fn the_selected_document_follows_the_page_and_cursor() {
    let (_c, mut m) = stash(20);
    assert_eq!(m.selected_markdown().unwrap().note, "doc00.md");
    set_page(&mut m, 2);
    m.set_cursor(3);
    assert_eq!(m.selected_markdown().unwrap().note, "doc13.md");
    m.set_cursor(50);
    assert!(m.selected_markdown().is_none());
}

#[test]
fn documents_are_sorted_as_they_arrive() {
    let c = common();
    let mut m = StashModel::new(&c.styles);
    m.add_markdowns(
        &c,
        vec![
            doc("b.md".into(), String::new()),
            doc("a.md".into(), String::new()),
        ],
    );
    let notes: Vec<&str> = m.markdowns.iter().map(|d| d.note.as_str()).collect();
    assert_eq!(notes, vec!["a.md", "b.md"]);
}

#[test]
fn resetting_the_filter_drops_its_section() {
    let (c, mut m) = stash(5);
    m.sections.push(Section::new(SectionKey::Filter));
    m.section_index = 1;
    m.filter_state = FilterState::FilterApplied;
    m.reset_filtering(&c);
    assert_eq!(m.sections.len(), 1);
    assert_eq!(m.section_index, 0);
    assert_eq!(m.filter_state, FilterState::Unfiltered);
}

#[test]
fn filtering_shows_the_filtered_set() {
    let (_c, mut m) = stash(5);
    m.filter_state = FilterState::Filtering;
    m.filtered_markdowns = vec![1, 3];
    let visible: Vec<&str> = m
        .visible_markdowns()
        .iter()
        .map(|d| d.note.as_str())
        .collect();
    assert_eq!(visible, vec!["doc01.md", "doc03.md"]);
}

#[test]
fn matched_characters_are_styled_differently() {
    let plain = Style::new();
    let matched = Style::new().underline(true);
    let out = style_filtered_text("readme.md", "rm", &plain, &matched);
    assert!(out.contains("\u{1b}[4mr\u{1b}[m"), "{out}");
    assert!(out.contains("\u{1b}[4mm\u{1b}[m"), "{out}");
    assert_eq!(
        style_filtered_text("readme.md", "zzz", &plain, &matched),
        "readme.md",
        "a pattern that does not match leaves the text alone"
    );
}

#[test]
fn the_mini_help_is_one_line() {
    let (c, m) = model(3);
    let (help, height) = m.help_view(&c);
    assert_eq!(height, 1);
    assert!(!help.contains('\n'));
    assert!(help.contains("find"), "{help}");
    assert!(help.contains("quit"), "{help}");
    assert!(help.contains("more"), "{help}");
}

#[test]
fn the_full_help_is_at_least_five_lines() {
    let (c, mut m) = model(3);
    m.show_full_help = true;
    let (help, height) = m.help_view(&c);
    assert!(height >= 5, "{height}");
    assert!(help.contains("close help"), "{help}");
    assert!(help.contains("open"), "{help}");
}

#[test]
fn edit_is_offered_only_with_documents() {
    let (c, m) = model(0);
    let (help, _) = m.help_view(&c);
    assert!(!help.contains("edit"), "{help}");
    let (c, m) = model(1);
    let (help, _) = m.help_view(&c);
    assert!(help.contains("edit"), "{help}");
}

#[test]
fn errors_add_their_own_binding() {
    let (c, mut m) = model(1);
    m.err = Some("boom".into());
    let (help, _) = m.help_view(&c);
    assert!(help.contains("errors"), "{help}");
}

#[test]
fn filtering_replaces_the_help_entirely() {
    let (c, mut m) = model(3);
    m.filter_state = FilterState::Filtering;
    m.filtered_markdowns = vec![0, 1];
    let (help, _) = m.help_view(&c);
    assert!(help.contains("confirm"), "{help}");
    assert!(help.contains("cancel"), "{help}");
    assert!(!help.contains("quit"), "{help}");
}

#[test]
fn a_single_filtered_result_offers_open() {
    let (c, mut m) = model(3);
    m.filter_state = FilterState::Filtering;
    m.filtered_markdowns = vec![0];
    let (help, _) = m.help_view(&c);
    assert!(help.contains("open"), "{help}");
}

#[test]
fn columns_are_gutter_then_gap_separated() {
    let cols = vec![
        vec!["a".to_string(), "b".to_string()],
        vec!["c".to_string(), "d".to_string()],
    ];
    assert_eq!(merge_columns(&cols), "  a    c\n  b    d\n");
}

#[test]
fn the_logo_is_yellow_on_fuchsia() {
    let s = Styles::new(true);
    assert_eq!(
        s.logo_style.render(" Glow "),
        "\u{1b}[1;38;2;236;253;101;48;2;238;111;248m Glow \u{1b}[m"
    );
}

#[test]
fn dividers_carry_their_string() {
    let s = Styles::new(true);
    assert!(s.divider_dot.string().contains(" • "));
    assert!(s.divider_bar.string().contains(" │ "));
}

#[test]
fn the_background_picks_the_variant() {
    let dark = Styles::new(true);
    let light = Styles::new(false);
    assert_eq!(dark.adaptive("#A49FA5", "#777777"), Color::parse("#777777").unwrap());
    assert_eq!(light.adaptive("#A49FA5", "#777777"), Color::parse("#A49FA5").unwrap());
}

#[test]
fn frames_cycle() {
    let mut s = spinner::Model::new();
    assert_eq!(s.view(), "|");
    s.tick();
    assert_eq!(s.view(), "/");
    s.tick();
    s.tick();
    assert_eq!(s.view(), "\\");
    s.tick();
    assert_eq!(s.view(), "|", "the frames wrap around");
}

#[test]
fn the_line_spinner_runs_at_ten_frames_a_second() {
    assert_eq!(spinner::Model::new().fps(), std::time::Duration::from_millis(100));
}

#[test]
fn a_long_mini_help_is_truncated_with_the_mark() {
    let (mut c, mut m) = model(3);
    c.width = 30;
    m.err = Some("boom".into());
    let (help, height) = m.help_view(&c);
    assert_eq!(height, 1);
    assert!(help.contains('…'), "{help}");
    assert!(!help.contains("quit"), "{help}");
}

#[test]
fn the_page_is_pulled_back_when_documents_go() {
    let (c, mut m) = stash(20);
    set_page(&mut m, 3);
    m.filter_state = FilterState::Filtering;
    m.filtered_markdowns = vec![0, 1];
    m.update_pagination(&c);
    assert_eq!(m.paginator().total_pages, 1);
    assert_eq!(m.paginator().page, 0);
}

#[test]
fn moving_down_on_the_last_page_stays_on_the_last_row() {
    let (_c, mut m) = stash(7);
    set_page(&mut m, 1);
    m.set_cursor(1);
    m.move_cursor_down();
    assert_eq!(m.paginator().page, 1);
    assert_eq!(m.cursor(), 1);
}

use glow::ui::markdown::relative_label;
use glow::ui::stashitem::{stash_item_view, VERTICAL_LINE};
use glow::ui::{error_view, indent};

fn just_now() -> String {
    relative_label(0).unwrap()
}

fn dates_for(m: &StashModel) -> Vec<String> {
    m.visible_markdowns().iter().map(|_| just_now()).collect()
}

#[test]
fn an_entry_is_two_lines_of_title_and_date() {
    let (c, m) = model(3);
    let mut b = String::new();
    stash_item_view(&mut b, &m, &c, 0, &m.markdowns[0], &just_now());
    let lines: Vec<&str> = b.split('\n').collect();
    assert_eq!(lines.len(), 2);
    assert!(lines[0].contains("doc0.md"), "{b}");
    assert!(lines[1].contains("just now"), "{b}");
}

#[test]
fn the_selected_entry_has_a_gutter() {
    let (c, m) = model(3);
    let mut selected = String::new();
    stash_item_view(&mut selected, &m, &c, 0, &m.markdowns[0], &just_now());
    let mut other = String::new();
    stash_item_view(&mut other, &m, &c, 1, &m.markdowns[1], &just_now());
    assert!(selected.contains(VERTICAL_LINE), "{selected}");
    assert!(!other.contains(VERTICAL_LINE), "{other}");
}

#[test]
fn the_header_pluralises_the_document_count() {
    let (c, m) = model(1);
    assert!(m.header_view(&c).contains("1 document"));
    let (c, m) = model(3);
    assert!(m.header_view(&c).contains("3 documents"));
    let (c, m) = model(0);
    assert!(m.header_view(&c).contains("0 documents"));
}

#[test]
fn filtering_shows_the_local_count() {
    let (c, mut m) = model(4);
    m.filter_state = FilterState::Filtering;
    assert!(m.header_view(&c).contains("4 local"), "{}", m.header_view(&c));
}

#[test]
fn an_empty_listing_says_so() {
    let (c, mut m) = model(0);
    let dates = dates_for(&m);
    assert!(m.populated_view(&c, &dates).contains("Looking for local files..."));
    m.loaded = true;
    assert!(m.populated_view(&c, &dates).contains("No files found."));
}

#[test]
fn the_listing_is_indented_and_starts_with_a_blank_line() {
    let (c, m) = model(3);
    let view = m.view(&c, &dates_for(&m));
    assert!(view.starts_with('\n'));
    assert!(view.contains("Glow"));
    assert!(view.contains("3 documents"));
}

#[test]
fn a_page_is_padded_to_a_fixed_height() {
    let (c, m) = model(2);
    let view = m.populated_view(&c, &dates_for(&m));
    // Two entries of two lines each, a blank line between them, then
    // padding for the three empty slots on the page.
    assert_eq!(view.matches('\n').count(), 4 + 3 * 3);
}

#[test]
fn indent_adds_a_trailing_newline_to_every_line() {
    assert_eq!(indent("a\nb", 2), "  a\n  b\n");
    assert_eq!(indent("a", 0), "a");
    assert_eq!(indent("", 3), "");
}

#[test]
fn the_error_view_names_the_way_out() {
    let styles = Styles::new(true);
    let fatal = error_view(&styles, "boom", true);
    assert!(fatal.contains("ERROR"));
    assert!(fatal.contains("boom"));
    assert!(fatal.contains("press any key to exit"));
    let recoverable = error_view(&styles, "boom", false);
    assert!(recoverable.contains("press any key to return"));
}

#[test]
fn the_error_state_shows_the_error_screen() {
    let (c, mut m) = model(1);
    m.err = Some("boom".into());
    m.view_state = glow::ui::stash::StashViewState::ShowingError;
    let view = m.view(&c, &dates_for(&m));
    assert!(view.contains("boom"));
    assert!(view.contains("press any key to return"));
}

#[test]
fn a_narrow_window_falls_back_to_the_page_count() {
    let (mut c, mut m) = stash(20);
    c.width = 7;
    let view = m.view(&c, &dates_for(&m));
    assert!(view.contains("1/4"), "{view}");
    m.set_cursor(0);
}

#[test]
fn the_filter_selects_matches_best_first() {
    let c = common();
    let mut m = StashModel::new(&c.styles);
    let docs: Vec<Markdown> = ["xreadme", "readme", "notes", "r-e-a-d"]
        .iter()
        .map(|n| {
            let mut d = doc(n.to_string(), String::new());
            d.build_filter_value();
            d
        })
        .collect();
    m.markdowns = docs;
    assert_eq!(filter_markdowns(&m), vec![0, 1, 2, 3]);
    m.filter_input.set_value("read");
    assert_eq!(filter_markdowns(&m), vec![0, 1, 2, 3]);
    m.filter_state = FilterState::FilterApplied;
    assert_eq!(filter_markdowns(&m), vec![1, 3, 0]);
}
