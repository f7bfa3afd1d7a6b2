use glow::deps::gap::Scope;
use glow::deps::gitcha::{glob_match, walk_step, WalkStep};

#[test]
fn globs_do_not_cross_separators() {
    assert!(glob_match("*.md", "readme.md"));
    assert!(!glob_match("*.md", "docs/readme.md"));
    assert!(glob_match("/a/*/c", "/a/b/c"));
    assert!(!glob_match("/a/*/c", "/a/b/x/c"));
    assert!(glob_match(".*", ".git"));
    assert!(!glob_match(".*", "git"));
}

#[test]
fn character_classes_and_escapes_work() {
    assert!(glob_match("[abc].md", "b.md"));
    assert!(!glob_match("[abc].md", "d.md"));
    assert!(glob_match("[a-c].md", "c.md"));
    assert!(glob_match("[^a].md", "b.md"));
    assert!(glob_match("a\\*b", "a*b"));
}

#[test]
fn question_marks_match_one_character_but_not_a_separator() {
    assert!(glob_match("a?c", "abc"));
    assert!(!glob_match("a?c", "a/c"));
    assert!(!glob_match("a?c", "ac"));
    assert!(glob_match("*", ""));
}

#[test]
fn config_dirs_are_app_scoped_and_ordered() {
    let dirs = Scope::user("glow").config_dirs_with(None, Some("/home/u"), Some("/a:/b/"));
    assert_eq!(
        dirs,
        vec![
            "/home/u/.config/glow".to_string(),
            "/a/glow".to_string(),
            "/b/glow".to_string(),
            "/etc/xdg/glow".to_string(),
            "/etc/glow".to_string(),
        ]
    );
    for d in &dirs {
        assert!(d.ends_with("/glow"), "{d} is not app-scoped");
    }
    let dirs = Scope::user("glow").config_dirs_with(Some("/x/"), Some("/home/u"), Some(""));
    assert_eq!(dirs[0], "/x/glow");
    assert_eq!(dirs.len(), 3);
}

#[test]
fn cache_dir_is_app_scoped() {
    let dir = Scope::user("glow").cache_dir_with(None, Some("/home/u")).expect("a cache dir");
    assert!(dir.ends_with("/glow"), "{dir}");
    assert_eq!(dir, "/home/u/.cache/glow");
    assert_eq!(
        Scope::user("glow").cache_dir_with(Some(""), None).unwrap_err(),
        "Could not retrieve path"
    );
}

fn strings(items: &[&str]) -> Vec<String> {
    items.iter().map(|s| s.to_string()).collect()
}

#[test]
fn the_walk_reports_listed_files_and_walks_into_directories() {
    let md = strings(&["*.md"]);
    assert_eq!(walk_step("/d/a.md", Some("/d"), "a.md", false, false, &[], &md), WalkStep::Emit);
    assert_eq!(walk_step("/d/c.txt", Some("/d"), "c.txt", false, false, &[], &md), WalkStep::Pass);
    assert_eq!(walk_step("/d/sub", Some("/d"), "sub", true, false, &[], &md), WalkStep::Descend);
    assert_eq!(walk_step("/d/README.MD", Some("/d"), "README.MD", false, false, &[], &strings(&["readme.md"])), WalkStep::Emit);
}

#[test]
fn exclusion_patterns_are_anchored_at_the_directory() {
    let md = strings(&["*.md"]);
    let pats = strings(&["node_modules"]);
    assert_eq!(walk_step("/d/node_modules", Some("/d"), "node_modules", true, false, &pats, &md), WalkStep::Skip);
    assert_eq!(walk_step("/d/keep.md", Some("/d"), "keep.md", false, false, &pats, &md), WalkStep::Emit);
    assert_eq!(walk_step("node_modules", Some("."), "node_modules", true, false, &pats, &md), WalkStep::Descend);
    assert_eq!(walk_step("/d/x/y.md", Some("/d/x"), "y.md", false, false, &strings(&["/d/x/*"]), &md), WalkStep::Skip);
}

#[test]
fn what_git_ignores_is_skipped() {
    let md = strings(&["*.md"]);
    assert_eq!(walk_step("/r/hidden.md", Some("/r"), "hidden.md", false, true, &[], &md), WalkStep::Skip);
}
