use glow::deps::gap::Scope;
use glow::glow::clean;
use glow::log::{log_file_path_in, record};

#[test]
fn records_carry_their_fields() {
    assert_eq!(
        record(
            "WARN",
            "Could not parse configuration file",
            &[("err", "boom now".into())]
        ),
        "WARN Could not parse configuration file err=\"boom now\"\n"
    );
    assert_eq!(
        record(
            "DEBU",
            "Using configuration file",
            &[("path", "/x/glow.yml".into())]
        ),
        "DEBU Using configuration file path=/x/glow.yml\n"
    );
}

#[test]
fn log_path_is_under_the_cache_dir() {
    let path = log_file_path_in(Scope::user("glow").cache_dir_with(None, Some("/home/u")))
        .expect("a log path");
    assert!(path.ends_with("/glow/glow.log"), "{path}");
    assert_eq!(
        log_file_path_in(Err("no home".into())).unwrap_err(),
        "unable to get cache dir: no home"
    );
}

#[test]
fn clean_collapses_dot_segments() {
    assert_eq!(clean("/a/./b/../c"), "/a/c");
    assert_eq!(clean("/a//b/"), "/a/b");
    assert_eq!(clean("a/../.."), "..");
    assert_eq!(clean("/.."), "/");
}

#[test]
fn clean_of_nothing_is_dot_and_empty_values_are_quoted() {
    assert_eq!(clean(""), ".");
    assert_eq!(clean("a/b/../../c/"), "c");
    assert_eq!(record("INFO", "m", &[("k", String::new())]), "INFO m k=\"\"\n");
}

#[test]
fn cleaning_a_clean_path_changes_nothing() {
    for p in ["/a/./b/../c", "a/../..", "", "/", "../../x/./y/", "//..//a", "./.", "a/b/../../.."] {
        let once = clean(p);
        assert_eq!(clean(&once), once, "{p:?}");
    }
    assert_eq!(clean("//..//a"), "/a");
    assert_eq!(clean("a/b/../../.."), "..");
}

#[test]
fn cleaned_segments_are_tidy() {
    assert_eq!(clean("a/./b/../../../c//"), "../c");
    assert_eq!(clean("/../a//b/."), "/a/b");
    assert_eq!(clean(""), ".");
    for p in ["x/../..", "./a/../../b/./c", "/x/../../y", "a//b///c/."] {
        let c = clean(p);
        let segs: Vec<&str> = c.trim_start_matches('/').split('/').collect();
        if c != "." && c != "/" {
            assert!(segs.iter().all(|s| !s.is_empty() && *s != "."), "{p} -> {c}");
            let first_other = segs.iter().position(|s| *s != "..").unwrap_or(segs.len());
            assert!(segs[first_other..].iter().all(|s| *s != ".."), "{p} -> {c}");
        }
    }
}
