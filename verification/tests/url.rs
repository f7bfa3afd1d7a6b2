use glow::deps::url::{dir, query_escape, resolve_reference, Url};

#[test]
fn parses_absolute_urls() {
    let u = Url::parse("https://github.com/charmbracelet/glow").expect("parses");
    assert_eq!(u.scheme, "https");
    assert_eq!(u.host, "github.com");
    assert_eq!(u.path, "/charmbracelet/glow");
    assert_eq!(u.hostname(), "github.com");
}

#[test]
fn strips_port_from_hostname() {
    let u = Url::parse("https://example.com:8443/x").expect("parses");
    assert_eq!(u.hostname(), "example.com");
}

#[test]
fn parse_accepts_relative_references() {
    let u = Url::parse("plain text").expect("parses");
    assert_eq!(u.path, "plain text");
    assert!(!u.is_abs());
}

#[test]
fn parse_request_uri_rejects_relative() {
    assert!(Url::parse_request_uri("nope.md").is_err());
    assert!(Url::parse_request_uri("/abs/path.md").is_ok());
    assert!(Url::parse_request_uri("https://x.example/a").is_ok());
}

#[test]
fn join_path_appends_segments() {
    let base = Url::parse("https://github.com").expect("parses");
    assert_eq!(
        base.join_path("charmbracelet/glow").to_string(),
        "https://github.com/charmbracelet/glow"
    );
}

#[test]
fn resolves_relative_references() {
    assert_eq!(
        resolve_reference("https://example.com/a/", "b.png"),
        "https://example.com/a/b.png"
    );
    assert_eq!(
        resolve_reference("https://example.com/a/", "https://other.example/x"),
        "https://other.example/x"
    );
}

#[test]
fn query_escape_matches_go() {
    assert_eq!(query_escape("caarlos0/test"), "caarlos0%2Ftest");
}

#[test]
fn dir_matches_filepath_dir() {
    assert_eq!(dir("/a/b/c.md"), "/a/b");
    assert_eq!(dir("/c.md"), "/");
    assert_eq!(dir("c.md"), ".");
}

#[test]
fn fragment_only_url_round_trips() {
    let u = Url::parse("#section").expect("parses");
    assert_eq!(u.fragment, "section");
    assert_eq!(u.path, "");
}

#[test]
fn control_characters_are_rejected() {
    let e = Url::parse("a\u{7}b").unwrap_err();
    assert_eq!(e.0, "parse \"a\\u{7}b\": net/url: invalid control character in URL");
}

#[test]
fn non_numeric_port_is_rejected() {
    let e = Url::parse("http://host:8x/").unwrap_err();
    assert_eq!(e.0, "parse \"http://host:8x/\": invalid port \":8x\" after host");
}

#[test]
fn dot_segments_are_resolved() {
    assert_eq!(
        resolve_reference("https://example.com/a/b/c", "../d"),
        "https://example.com/a/d"
    );
    assert_eq!(resolve_reference("https://example.com/a/b", "./x/./y"), "https://example.com/a/x/y");
}

#[test]
fn scheme_is_lowercased_and_ipv6_hostname_unbracketed() {
    let u = Url::parse("HTTP://[::1]:80/p?q=1#f").expect("parses");
    assert_eq!(u.scheme, "http");
    assert_eq!(u.hostname(), "::1");
    assert_eq!(u.raw_query, "q=1");
    assert_eq!(u.fragment(), "f");
    assert_eq!(u.to_string(), "http://[::1]:80/p?q=1#f");
}

#[test]
fn query_escape_encodes_space_as_plus() {
    assert_eq!(query_escape("a b&c~"), "a+b%26c~");
}
