use glow::deps::ansi::string_width;
use glow::deps::glamour::table::{pad_to, Align, Border, Table};

fn notty_border() -> Border {
    Border {
        top: "-".into(),
        left: "|".into(),
        middle: "|".into(),
    }
}

#[test]
fn expands_narrow_tables_to_the_target_width() {
    let mut t = Table::new(76);
    t.border = notty_border();
    t.headers = vec!["a".into(), "b".into()];
    t.rows = vec![vec!["1".into(), "2".into()]];
    t.aligns = vec![Align::Left, Align::Left];
    let out = t.render();
    let lines: Vec<&str> = out.split('\n').collect();
    assert_eq!(lines.len(), 3);
    for l in &lines {
        assert_eq!(string_width(l), 76, "line {l:?} is the wrong width");
    }
    assert_eq!(lines[1], format!("{}|{}", "-".repeat(38), "-".repeat(37)));
    assert!(lines[0].starts_with(" a"));
}

#[test]
fn shrinks_wide_tables_to_the_target_width() {
    let mut t = Table::new(20);
    t.border = notty_border();
    t.headers = vec!["a".into(), "b".into()];
    t.rows = vec![vec!["x".repeat(40), "y".into()]];
    let out = t.render();
    for l in out.split('\n') {
        assert!(string_width(l) <= 20);
    }
}

#[test]
fn empty_table_renders_nothing() {
    assert_eq!(Table::new(40).render(), "");
}

#[test]
fn the_default_border_draws_boxes() {
    let b = Border::default();
    assert_eq!((b.top.as_str(), b.left.as_str(), b.middle.as_str()), ("─", "│", "┼"));
}

#[test]
fn a_table_without_a_width_keeps_its_own() {
    let mut t = Table::new(0);
    t.border = notty_border();
    t.headers = vec!["ab".into(), "c".into()];
    t.rows = vec![vec!["d".into(), "efg".into()]];
    let out = t.render();
    assert_eq!(out, " ab | c   \n----|-----\n d  | efg ");
}

#[test]
fn cells_are_aligned_within_their_columns() {
    let mut t = Table::new(0);
    t.border = notty_border();
    t.headers = vec!["wide".into(), "wide".into(), "wide".into()];
    t.rows = vec![vec!["a".into(), "b".into(), "c".into()]];
    t.aligns = vec![Align::Left, Align::Center, Align::Right];
    let out = t.render();
    let lines: Vec<&str> = out.split('\n').collect();
    assert_eq!(lines[2], " a    |  b   |    c ");
}

#[test]
fn header_cells_are_cut_with_an_ellipsis() {
    let mut t = Table::new(9);
    t.border = notty_border();
    t.headers = vec!["abcdefghij".into()];
    let out = t.render();
    let lines: Vec<&str> = out.split('\n').collect();
    assert_eq!(lines[0], " abcdef… ");
}

#[test]
fn padding_follows_the_alignment() {
    assert_eq!(pad_to("ab", 6, Align::Left), "ab    ");
    assert_eq!(pad_to("ab", 6, Align::Right), "    ab");
    assert_eq!(pad_to("ab", 5, Align::Center), " ab  ");
    assert_eq!(pad_to("abc", 2, Align::Left), "abc");
}
