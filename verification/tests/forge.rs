use glow::url::{github_readme_url, gitlab_readme_url, is_url, readme_target, Forge};

#[test]
fn github_shorthand_expands_to_a_repository_url() {
    assert_eq!(
        github_readme_url("github://charmbracelet/glow")
            .expect("two segments")
            .to_string(),
        "https://github.com/charmbracelet/glow"
    );
}

#[test]
fn gitlab_shorthand_expands_to_a_repository_url() {
    assert_eq!(
        gitlab_readme_url("gitlab://caarlos0/test")
            .expect("two segments")
            .to_string(),
        "https://gitlab.com/caarlos0/test"
    );
}

#[test]
fn shorthands_with_a_custom_host_are_rejected() {
    assert!(github_readme_url("github://ghe.example.com/owner/repo").is_none());
    assert!(gitlab_readme_url("gitlab://only-one-segment").is_none());
}

#[test]
fn is_url_requires_a_scheme_separator() {
    assert!(is_url("https://example.com/x.md"));
    assert!(!is_url("example.com/x.md"));
    assert!(!is_url("/absolute/path.md"));
    assert!(!is_url("relative.md"));
}

#[test]
fn non_forge_hosts_resolve_to_nothing() {
    assert!(readme_target("example.com/some/path")
        .expect("no error")
        .is_none());
}

#[test]
fn forge_hosts_are_recognised() {
    let (forge, url) = readme_target("github://charmbracelet/glow")
        .expect("no error")
        .expect("a forge");
    assert_eq!(forge, Forge::GitHub);
    assert_eq!(url.to_string(), "https://github.com/charmbracelet/glow");
    let (forge, url) = readme_target("gitlab.com/caarlos0/test")
        .expect("no error")
        .expect("a forge");
    assert_eq!(forge, Forge::GitLab);
    assert_eq!(url.path, "/caarlos0/test");
}
