use glow::deps::bubbles::viewport::Model;

/// The scroll position as a percentage between 0 and 1.
fn scroll_percent(m: &Model) -> f64 {
    let (num, den) = m.scroll_fraction();
    (num as f64 / den as f64).clamp(0.0, 1.0)
}

fn filled(n: usize) -> Model {
    let mut m = Model::new();
    m.set_width(10);
    m.set_height(3);
    let content: Vec<String> = (0..n).map(|i| format!("line{i}")).collect();
    m.set_content(&content.join("\n"));
    m
}

#[test]
fn empty_content_has_no_lines() {
    let mut m = Model::new();
    m.set_content("");
    assert_eq!(m.total_line_count(), 0);
    assert_eq!(scroll_percent(&m), 1.0);
}

#[test]
fn scrolling_stops_at_the_ends() {
    let mut m = filled(10);
    assert!(m.at_top());
    m.scroll_up(1);
    assert_eq!(m.y_offset(), 0);
    m.goto_bottom();
    assert_eq!(m.y_offset(), 7);
    m.scroll_down(5);
    assert_eq!(m.y_offset(), 7);
    assert!(m.at_bottom());
}

#[test]
fn half_and_whole_pages_move_by_the_height() {
    let mut m = filled(20);
    m.half_page_down();
    assert_eq!(m.y_offset(), 1);
    m.page_down();
    assert_eq!(m.y_offset(), 4);
    m.page_up();
    assert_eq!(m.y_offset(), 1);
    m.half_page_up();
    assert_eq!(m.y_offset(), 0);
}

#[test]
fn scroll_percent_runs_from_zero_to_one() {
    let mut m = filled(13);
    assert_eq!(scroll_percent(&m), 0.0);
    m.goto_bottom();
    assert_eq!(scroll_percent(&m), 1.0);
    m.set_y_offset(5);
    assert_eq!(scroll_percent(&m), 0.5);
}

#[test]
fn only_a_viewports_worth_of_lines_is_visible() {
    let mut m = filled(10);
    assert_eq!(m.visible_lines(), vec!["line0", "line1", "line2"]);
    m.set_y_offset(7);
    assert_eq!(m.visible_lines(), vec!["line7", "line8", "line9"]);
}

#[test]
fn over_long_lines_are_cut_to_the_width() {
    let mut m = Model::new();
    m.set_width(4);
    m.set_height(1);
    m.set_content("abcdefgh");
    assert_eq!(m.visible_lines(), vec!["abcd"]);
}

#[test]
fn the_view_is_padded_to_the_full_box() {
    let mut m = Model::new();
    m.set_width(6);
    m.set_height(3);
    m.set_content("ab");
    assert_eq!(m.view(), "ab    \n      \n      ");
}

#[test]
fn shrinking_the_content_pulls_the_offset_back() {
    let mut m = filled(20);
    m.goto_bottom();
    assert_eq!(m.y_offset(), 17);
    m.set_content("a\nb\nc\nd");
    assert_eq!(m.y_offset(), 1);
}

#[test]
fn keys_scroll_by_their_bindings() {
    let mut m = filled(20);
    m.update_key("j");
    assert_eq!(m.y_offset(), 1);
    m.update_key("space");
    assert_eq!(m.y_offset(), 4);
    m.update_key("k");
    assert_eq!(m.y_offset(), 3);
    m.update_key("pgup");
    assert_eq!(m.y_offset(), 0);
    m.update_key("ctrl+d");
    assert_eq!(m.y_offset(), 1);
    m.update_key("x");
    assert_eq!(m.y_offset(), 1);
}

#[test]
fn sideways_scrolling_shows_the_rest_of_a_wide_line() {
    let mut m = Model::new();
    m.set_width(4);
    m.set_height(1);
    m.set_content("abcdefghijkl");
    m.update_key("right");
    // Scrolled six columns over; lines are cut at offset plus width.
    assert_eq!(m.visible_lines(), vec!["abcdefghij"]);
    m.update_key("left");
    assert_eq!(m.visible_lines(), vec!["abcd"]);
}

#[test]
fn a_carriage_return_stays_in_its_line() {
    let mut m = Model::new();
    m.set_width(10);
    m.set_height(5);
    m.set_content("a\r\nb");
    assert_eq!(m.total_line_count(), 2);
    assert_eq!(m.visible_lines(), vec!["a\r", "b"]);
}
