use glow::deps::glamour::autolink::detect;
use glow::deps::glamour::styles::{is_default_style, DARK_STYLE, TOKYO_NIGHT_STYLE};

#[test]
fn shortens_issues_and_pulls() {
    assert_eq!(
        detect("https://github.com/charmbracelet/glow/issues/42").as_deref(),
        Some("charmbracelet/glow#42")
    );
    assert_eq!(
        detect("https://github.com/charmbracelet/glow/pull/7").as_deref(),
        Some("charmbracelet/glow#7")
    );
}

#[test]
fn shortens_comments_and_reviews() {
    assert_eq!(
        detect("https://github.com/a/b/issues/1#issuecomment-999").as_deref(),
        Some("a/b#1 (comment)")
    );
    assert_eq!(
        detect("https://github.com/a/b/pull/1#pullrequestreview-5").as_deref(),
        Some("a/b#1 (review)")
    );
}

#[test]
fn shortens_commits() {
    assert_eq!(
        detect("https://github.com/a/b/commit/0123456789abcdef").as_deref(),
        Some("a/b@0123456")
    );
}

#[test]
fn leaves_other_urls_alone() {
    assert!(detect("https://example.com/a/b").is_none());
    assert!(detect("https://github.com/a/b").is_none());
}

#[test]
fn pull_request_commits_and_bad_numbers() {
    assert_eq!(
        detect("http://github.com/a/b/pull/3/commits/abcdef0123#x").as_deref(),
        Some("a/b@abcdef0")
    );
    assert!(detect("https://github.com/a/b/issues/x1").is_none());
    assert!(detect("https://github.com/a/b/issues/1#other").is_none());
    assert!(detect("https://github.com/a/b/commit/abc").is_none());
    assert!(detect("https://github.com/a.b/c/issues/1").is_none());
}

#[test]
fn built_in_style_names_are_recognised() {
    assert!(is_default_style(DARK_STYLE));
    assert!(is_default_style(TOKYO_NIGHT_STYLE));
    assert!(!is_default_style("auto"));
}
