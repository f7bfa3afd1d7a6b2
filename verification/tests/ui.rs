use glow::ui::config::{parse_bool_env, Config};
use glow::ui::ignore::ignore_patterns;
use glow::ui::markdown::{normalize, relative_label, Markdown, JUST_NOW};
use glow::ui::sort::sort_markdowns;

fn md(note: &str, path: &str) -> Markdown {
    Markdown {
        note: note.into(),
        local_path: path.into(),
        ..Markdown::default()
    }
}

#[test]
fn documents_sort_by_note() {
    let mut mds = vec![md("c.md", "1"), md("a.md", "2"), md("b.md", "3")];
    sort_markdowns(&mut mds);
    let notes: Vec<&str> = mds.iter().map(|m| m.note.as_str()).collect();
    assert_eq!(notes, vec!["a.md", "b.md", "c.md"]);
}

#[test]
fn the_sort_is_stable() {
    let mut mds = vec![md("a.md", "1"), md("a.md", "2"), md("a.md", "3")];
    sort_markdowns(&mut mds);
    let paths: Vec<&str> = mds.iter().map(|m| m.local_path.as_str()).collect();
    assert_eq!(paths, vec!["1", "2", "3"]);
}

#[test]
fn hidden_files_and_dependencies_are_skipped() {
    let cfg = Config {
        home_dir: "/Users/x".into(),
        gopath: "/Users/x/go".into(),
        ..Config::default()
    };
    let patterns = ignore_patterns(&cfg);
    assert!(patterns.contains(&"node_modules".to_string()));
    assert!(patterns.contains(&".*".to_string()));
    assert!(patterns.contains(&"/Users/x/go".to_string()));
}

#[test]
fn diacritics_are_removed() {
    assert_eq!(normalize("ö"), "o");
    assert_eq!(normalize("Ünïcödé.md"), "Unicode.md");
    assert_eq!(normalize("plain.md"), "plain.md");
}

#[test]
fn the_filter_value_is_the_normalised_note() {
    let mut md = Markdown {
        note: "Über.md".into(),
        ..Markdown::default()
    };
    md.build_filter_value();
    assert_eq!(md.filter_value, "Uber.md");
}

const SECOND: i128 = 1_000_000_000;

#[test]
fn anything_under_a_minute_is_just_now() {
    assert_eq!(relative_label(0).as_deref(), Some(JUST_NOW));
    assert_eq!(relative_label(59 * SECOND).as_deref(), Some(JUST_NOW));
}

#[test]
fn up_to_a_week_is_humanised() {
    for (secs, want) in [
        (60i128, "1 minute ago"),
        (3 * 60, "3 minutes ago"),
        (3600, "1 hour ago"),
        (3 * 3600, "3 hours ago"),
        (86400, "1 day ago"),
        (3 * 86400, "3 days ago"),
    ] {
        assert_eq!(relative_label(secs * SECOND).as_deref(), Some(want));
    }
}

#[test]
fn beyond_a_week_is_an_absolute_date() {
    assert_eq!(relative_label(30 * 86400 * SECOND), None);
    assert_eq!(relative_label(7 * 86400 * SECOND), None);
}

#[test]
fn the_future_is_from_now() {
    assert_eq!(relative_label(-3 * 60 * SECOND).as_deref(), Some("3 minutes from now"));
}

#[test]
fn glamour_is_enabled_unless_the_environment_says_otherwise() {
    assert!(Config::from_vars(None, None, None, None).expect("parses").glamour_enabled);
    assert!(!Config::from_vars(None, None, None, Some("false")).expect("parses").glamour_enabled);
    assert_eq!(
        Config::from_vars(None, None, None, Some("nope")).unwrap_err(),
        "env: parse error on field \"GlamourEnabled\" of type \"bool\": strconv.ParseBool: parsing \"nope\": invalid syntax"
    );
}

#[test]
fn boolean_variables_take_go_spellings() {
    assert_eq!(parse_bool_env(Some("T"), "F", false), Ok(true));
    assert_eq!(parse_bool_env(Some("0"), "F", true), Ok(false));
    assert_eq!(parse_bool_env(Some(""), "F", true), Ok(true));
    assert_eq!(parse_bool_env(None, "F", false), Ok(false));
    let cfg = Config::from_vars(Some("/go"), Some("/home/x"), Some("dark"), None).unwrap();
    assert_eq!((cfg.gopath.as_str(), cfg.home_dir.as_str(), cfg.glamour_style.as_str()), ("/go", "/home/x", "dark"));
}

#[test]
fn equal_notes_keep_their_order_among_others() {
    let mut mds = vec![md("b.md", "1"), md("a.md", "2"), md("b.md", "3"), md("a.md", "4"), md("c.md", "5")];
    sort_markdowns(&mut mds);
    let got: Vec<(&str, &str)> = mds.iter().map(|m| (m.note.as_str(), m.local_path.as_str())).collect();
    assert_eq!(got, vec![("a.md", "2"), ("a.md", "4"), ("b.md", "1"), ("b.md", "3"), ("c.md", "5")]);
}

#[test]
fn marks_that_take_space_survive_normalisation() {
    assert_eq!(normalize("\u{0915}\u{0903}"), "\u{0915}\u{0903}");
    assert_eq!(normalize("a\u{20DD}"), "a\u{20DD}");
    assert_eq!(normalize("e\u{0301}"), "e");
}
