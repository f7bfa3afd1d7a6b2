use glow::deps::bubbles::paginator::{Model, Type};

#[test]
fn total_pages_rounds_up() {
    let mut p = Model {
        per_page: 3,
        ..Model::default()
    };
    assert_eq!(p.set_total_pages(9), 3);
    assert_eq!(p.set_total_pages(10), 4);
    assert_eq!(p.set_total_pages(0), 4, "an empty set leaves it alone");
}

#[test]
fn slice_bounds_stop_at_the_end() {
    let p = Model {
        per_page: 3,
        page: 1,
        total_pages: 2,
        ..Model::default()
    };
    assert_eq!(p.slice_bounds(5), (3, 5));
    assert_eq!(p.items_on_page(5), 2);
    assert_eq!(p.items_on_page(0), 0);
}

#[test]
fn paging_stops_at_the_ends() {
    let mut p = Model {
        per_page: 1,
        total_pages: 2,
        ..Model::default()
    };
    p.prev_page();
    assert_eq!(p.page, 0);
    p.next_page();
    assert_eq!(p.page, 1);
    p.next_page();
    assert_eq!(p.page, 1);
    assert!(p.on_last_page());
}

#[test]
fn dots_mark_the_current_page() {
    let mut p = Model::dots();
    p.active_dot = "•".into();
    p.inactive_dot = "○".into();
    p.total_pages = 3;
    p.page = 1;
    assert_eq!(p.view(), "○•○");
}

#[test]
fn arabic_counts_from_one() {
    let p = Model {
        kind: Type::Arabic,
        page: 1,
        total_pages: 4,
        ..Model::default()
    };
    assert_eq!(p.view(), "2/4");
}

#[test]
fn a_custom_arabic_format_is_filled_in_order() {
    let p = Model {
        kind: Type::Arabic,
        page: 0,
        total_pages: 7,
        arabic_format: "page %d of %d".into(),
        ..Model::default()
    };
    assert_eq!(p.view(), "page 1 of 7");
}

#[test]
fn without_items_per_page_the_count_is_kept() {
    let mut p = Model {
        total_pages: 5,
        ..Model::default()
    };
    assert_eq!(p.set_total_pages(12), 5);
    assert_eq!(p.total_pages, 5);
}

#[test]
fn a_page_past_the_end_holds_nothing() {
    let p = Model {
        per_page: 4,
        page: 3,
        ..Model::default()
    };
    assert_eq!(p.slice_bounds(5), (12, 5));
    assert_eq!(p.items_on_page(5), 0);
}
