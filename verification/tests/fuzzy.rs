use glow::deps::fuzzy::{find, find_no_sort, try_find, Match};

fn data(items: &[&str]) -> Vec<String> {
    items.iter().map(|s| s.to_string()).collect()
}

/// Known scores and match indexes.
fn assert_matches(pattern: &str, items: &[&str], want: &[(&str, i64, &[usize])]) {
    let got = find(pattern, &data(items));
    let got: Vec<(&str, i64, Vec<usize>)> = got
        .iter()
        .map(|m| (m.str.as_str(), m.score, m.matched_indexes.clone()))
        .collect();
    let want: Vec<(&str, i64, Vec<usize>)> = want
        .iter()
        .map(|(s, sc, idx)| (*s, *sc, idx.to_vec()))
        .collect();
    assert_eq!(got, want, "pattern {pattern:?}");
}

#[test]
fn an_empty_pattern_matches_nothing() {
    assert!(find("", &data(&["anything"])).is_empty());
}

#[test]
fn only_sequential_matches_survive() {
    assert_matches(
        "abc",
        &["a_b_c", "cba", "xabcx", "ab"],
        &[("a_b_c", 48, &[0, 2, 4]), ("xabcx", 13, &[1, 2, 3])],
    );
}

#[test]
fn matching_is_case_insensitive_and_prefers_separators() {
    assert_matches("RM", &["README.md"], &[("README.md", 23, &[0, 7])]);
}

#[test]
fn separators_and_first_characters_earn_a_bonus() {
    assert_matches(
        "ab",
        &["a-b", "xaxb"],
        &[("a-b", 29, &[0, 2]), ("xaxb", -7, &[1, 3])],
    );
}

#[test]
fn exhaustive_matching_picks_the_better_later_character() {
    assert_matches(
        "tk",
        &["The Black Knight"],
        &[("The Black Knight", 16, &[0, 10])],
    );
}

#[test]
fn adjacency_compounds() {
    assert_matches("abc", &["abc"], &[("abc", 30, &[0, 1, 2])]);
}

#[test]
fn the_sort_is_stable_for_equal_scores() {
    assert_matches(
        "a",
        &["ba", "ca", "da"],
        &[("ba", -6, &[1]), ("ca", -6, &[1]), ("da", -6, &[1])],
    );
}

#[test]
fn leading_characters_are_penalised_up_to_a_limit() {
    assert_matches(
        "x",
        &["ax", "aaaaaaaaaax"],
        &[("ax", -6, &[1]), ("aaaaaaaaaax", -25, &[10])],
    );
}

#[test]
fn unsorted_results_keep_input_order_and_indexes() {
    let got = find_no_sort("ab", &data(&["xaxb", "nope", "a-b"]));
    let want = vec![
        Match { str: "xaxb".to_string(), index: 0, matched_indexes: vec![1, 3], score: -7 },
        Match { str: "a-b".to_string(), index: 2, matched_indexes: vec![0, 2], score: 29 },
    ];
    assert_eq!(got, want);
}

#[test]
fn matching_stops_at_the_first_nul() {
    assert!(find("b", &data(&["a\0b"])).is_empty());
    let got = find("a", &data(&["a\0b"]));
    assert_eq!(got.len(), 1);
    assert_eq!(got[0].str, "a\0b");
    assert_eq!(got[0].matched_indexes, vec![0]);
    // One byte of the cleaned string, one match: no unmatched penalty.
    assert_eq!(got[0].score, 10 - 0 + 1 - 1);
}

#[test]
fn offsets_are_bytes_for_multibyte_text() {
    let got = find("b", &data(&["éb"]));
    assert_eq!(got[0].matched_indexes, vec![2]);
}

#[test]
fn camel_case_boundaries_earn_a_bonus() {
    // "fooBar": 'f' first (10, no penalty), 'B' after lower-case (20).
    let got = find("fb", &data(&["fooBar"]));
    assert_eq!(got[0].matched_indexes, vec![0, 3]);
    assert_eq!(got[0].score, 10 + 20 + 2 - 6);
}

#[test]
fn a_long_pattern_with_scattered_matches_is_found() {
    let data = vec!["ab".repeat(45)];
    let got = find_no_sort(&"a".repeat(45), &data);
    assert_eq!(got.len(), 1);
    assert_eq!(got[0].score, -35);
    let want: Vec<usize> = (0..45).map(|k| 2 * k).collect();
    assert_eq!(got[0].matched_indexes, want);
}

#[test]
fn adjacent_bonuses_compound_up_to_the_edge_of_i64() {
    let data = vec!["a".repeat(39)];
    let got = find(&"a".repeat(39), &data);
    assert_eq!(got.len(), 1);
    assert_eq!(got[0].score, 3377129294182480230);
}

#[test]
fn try_find_refuses_a_score_that_leaves_i64() {
    let data = vec!["a".repeat(40)];
    assert!(try_find(&"a".repeat(40), &data).is_none());
    let fine = vec!["a".repeat(39), "xyz".to_string()];
    let got = try_find(&"a".repeat(39), &fine).unwrap();
    assert_eq!(got.len(), 1);
    assert_eq!(got[0].index, 0);
    assert!(try_find("", &data).unwrap().is_empty());
}
