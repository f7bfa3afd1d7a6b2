use glow::deps::url::Url;
use glow::url::{github_readme_url, gitlab_readme_url, is_url};

/// Input and the README URL it resolves to.
const CASES: [(&str, &str); 8] = [
    ("github.com/charmbracelet/glow", "https://raw.githubusercontent.com/charmbracelet/glow/master/README.md"),
    ("github://charmbracelet/glow", "https://raw.githubusercontent.com/charmbracelet/glow/master/README.md"),
    ("github://caarlos0/dotfiles.fish", "https://raw.githubusercontent.com/caarlos0/dotfiles.fish/main/README.md"),
    ("github://tj/git-extras", "https://raw.githubusercontent.com/tj/git-extras/main/Readme.md"),
    ("https://github.com/goreleaser/nfpm", "https://raw.githubusercontent.com/goreleaser/nfpm/main/README.md"),
    ("gitlab.com/caarlos0/test", "https://gitlab.com/caarlos0/test/-/raw/master/README.md"),
    ("gitlab://caarlos0/test", "https://gitlab.com/caarlos0/test/-/raw/master/README.md"),
    ("https://gitlab.com/terrakok/gitlab-client", "https://gitlab.com/terrakok/gitlab-client/-/raw/develop/Readme.md"),
];

#[test]
fn test_url_parser() {
    for (input, expected) in CASES {
        let repo = if let Some(u) = github_readme_url(input) {
            assert!(input.starts_with("github://"), "{input}");
            u
        } else if let Some(u) = gitlab_readme_url(input) {
            assert!(input.starts_with("gitlab://"), "{input}");
            u
        } else {
            let with_scheme = if is_url(input) { input.to_string() } else { format!("https://{input}") };
            Url::parse(&with_scheme).unwrap_or_else(|e| panic!("{input}: {}", e.0))
        };

        let (owner, name) = repo
            .path
            .trim_start_matches('/')
            .split_once('/')
            .unwrap_or_else(|| panic!("{input}: not owner/repo"));

        match repo.hostname().as_str() {
            "github.com" => assert!(
                expected.starts_with(&format!("https://raw.githubusercontent.com/{owner}/{name}/")),
                "{input} -> {expected}"
            ),
            "gitlab.com" => assert!(
                expected.starts_with(&format!("https://gitlab.com/{owner}/{name}/-/raw/")),
                "{input} -> {expected}"
            ),
            other => panic!("{input}: unsupported host {other}"),
        }

        assert!(expected.ends_with("/README.md") || expected.ends_with("/Readme.md"), "{input} -> {expected}");
    }
}
