use glow::deps::humanize::{
    custom_rel_time, magnitudes, plural, plural_word, DAY, HOUR, MINUTE, MONTH, SECOND, WEEK,
    YEAR,
};

fn rel(ns: i128) -> String {
    custom_rel_time(ns, "ago", "from now", &magnitudes())
}

#[test]
fn each_magnitude_has_its_own_wording() {
    assert_eq!(rel(0), "now");
    assert_eq!(rel(SECOND), "1 second ago");
    assert_eq!(rel(30 * SECOND), "30 seconds ago");
    assert_eq!(rel(MINUTE), "1 minute ago");
    assert_eq!(rel(3 * MINUTE), "3 minutes ago");
    assert_eq!(rel(HOUR), "1 hour ago");
    assert_eq!(rel(3 * HOUR), "3 hours ago");
    assert_eq!(rel(DAY), "1 day ago");
    assert_eq!(rel(2 * DAY), "2 days ago");
    assert_eq!(rel(WEEK), "1 week ago");
    assert_eq!(rel(3 * WEEK), "3 weeks ago");
    assert_eq!(rel(MONTH), "1 month ago");
    assert_eq!(rel(3 * MONTH), "3 months ago");
    assert_eq!(rel(YEAR), "1 year ago");
    assert_eq!(rel(2 * YEAR), "2 years ago");
    assert_eq!(rel(3 * YEAR), "3 years ago");
    assert_eq!(rel(40 * YEAR), "a long while ago");
}

#[test]
fn a_future_instant_uses_the_other_label() {
    assert_eq!(rel(-3 * HOUR), "3 hours from now");
}

#[test]
fn plurals_follow_the_regular_rules() {
    assert_eq!(plural(1, "document", ""), "1 document");
    assert_eq!(plural(0, "document", ""), "0 documents");
    assert_eq!(plural(2, "document", ""), "2 documents");
    assert_eq!(plural_word(2, "box", ""), "boxes");
    assert_eq!(plural_word(2, "party", ""), "parties");
    assert_eq!(plural_word(2, "day", ""), "days");
    assert_eq!(plural_word(2, "potato", ""), "potatoes");
    for (singular, plural) in [("index", "indices"), ("matrix", "matrices"), ("vertex", "vertices")] {
        assert_eq!(plural_word(2, singular, ""), plural);
    }
    assert_eq!(plural_word(2, "mouse", "mice"), "mice");
}

#[test]
fn negative_quantities_are_plural() {
    assert_eq!(plural(-1, "file", ""), "-1 files");
    assert_eq!(plural_word(2, "match", ""), "matches");
    assert_eq!(plural_word(2, "church", ""), "churchs");
}
