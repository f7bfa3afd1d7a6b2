use glow::deps::cobra::{App, Args, Command, Flag, FlagSet, Outcome};

fn app() -> App {
    let mut root = Command::new("root", "demo [SOURCE|DIR]", "Do things");
    root.args = Args::MaximumN(1);
    root.flags.add(Flag::bool("all", "a", false, "show all"));
    root.flags.add(Flag::string(
        "style",
        "s",
        "auto",
        "style name or JSON path",
    ));
    root.flags.add(Flag::uint("width", "w", 0, "word-wrap at width"));
    root.flags.add(Flag::bool("help", "h", false, "help for demo"));
    root.flags
        .add(Flag::bool("version", "v", false, "version for demo"));
    root.persistent_flags
        .add(Flag::string("config", "", "", "config file (default )"));
    let mut child = Command::new("sub", "sub", "A sub-command");
    child.args = Args::NoArgs;
    child.flags.add(Flag::bool("help", "h", false, "help for sub"));
    root.children.push(child);
    App {
        root,
        version: "1.2.3".into(),
        version_template: "demo version {{.Version}}\n".into(),
    }
}

fn argv(items: &[&str]) -> Vec<String> {
    items.iter().map(|s| s.to_string()).collect()
}

#[test]
fn parses_long_and_short_flags() {
    let parsed = app()
        .parse(&argv(&["-a", "--style", "light", "-w", "40"]))
        .unwrap();
    assert!(parsed.flags.bool("all"));
    assert_eq!(parsed.flags.string("style"), "light");
    assert_eq!(parsed.flags.uint("width"), 40);
}

#[test]
fn parses_equals_form_and_attached_shorthand() {
    let parsed = app().parse(&argv(&["--style=light", "-w40"])).unwrap();
    assert_eq!(parsed.flags.string("style"), "light");
    assert_eq!(parsed.flags.uint("width"), 40);
}

#[test]
fn tracks_whether_a_flag_was_given() {
    let parsed = app().parse(&argv(&[])).unwrap();
    assert!(!parsed.flags.changed("style"));
    let parsed = app().parse(&argv(&["-s", "dark"])).unwrap();
    assert!(parsed.flags.changed("style"));
}

#[test]
fn rejects_unknown_flags() {
    let err = app().parse(&argv(&["--nope"])).unwrap_err();
    assert_eq!(err.0, "unknown flag: --nope");
}

#[test]
fn rejects_a_non_numeric_uint() {
    let err = app().parse(&argv(&["-w", "x"])).unwrap_err();
    assert!(err
        .0
        .starts_with("invalid argument \"x\" for \"-w, --width\" flag"));
}

#[test]
fn enforces_the_maximum_argument_count() {
    let err = app().parse(&argv(&["a", "b"])).unwrap_err();
    assert_eq!(err.0, "accepts at most 1 arg(s), received 2");
}

#[test]
fn enforces_no_args_on_subcommands() {
    let err = app().parse(&argv(&["sub", "x"])).unwrap_err();
    assert_eq!(err.0, "unknown command \"x\" for \"demo sub\"");
}

#[test]
fn a_flag_value_is_not_mistaken_for_a_command() {
    let parsed = app()
        .parse(&argv(&["--config", "sub", "sub"]))
        .expect("parses");
    match parsed.outcome {
        Outcome::Run { id, .. } => assert_eq!(id, "sub"),
        other => panic!("expected the sub-command, got {other:?}"),
    }
    assert_eq!(parsed.flags.string("config"), "sub");

    let parsed = app().parse(&argv(&["-s", "light", "sub"])).expect("parses");
    match parsed.outcome {
        Outcome::Run { id, .. } => assert_eq!(id, "sub"),
        other => panic!("expected the sub-command, got {other:?}"),
    }
}

#[test]
fn help_before_a_sub_command_hides_it() {
    let parsed = app().parse(&argv(&["--help", "sub"])).expect("parses");
    match parsed.outcome {
        Outcome::Print(text) => assert!(text.starts_with("Do things"), "{text}"),
        other => panic!("expected the root's help, got {other:?}"),
    }
    let parsed = app().parse(&argv(&["-v", "sub"])).expect("parses");
    match parsed.outcome {
        Outcome::Print(text) => assert_eq!(text, "demo version 1.2.3\n"),
        other => panic!("expected the version, got {other:?}"),
    }
}

#[test]
fn a_flag_after_a_sub_command_belongs_to_it() {
    let err = app().parse(&argv(&["sub", "-s", "light"])).unwrap_err();
    assert_eq!(err.0, "unknown shorthand flag: 's' in -s");
    let parsed = app().parse(&argv(&["sub", "--help"])).expect("parses");
    match parsed.outcome {
        Outcome::Print(text) => assert!(text.starts_with("A sub-command"), "{text}"),
        other => panic!("expected the sub-command's help, got {other:?}"),
    }
}

#[test]
fn dispatches_to_subcommands() {
    let parsed = app().parse(&argv(&["sub"])).unwrap();
    match parsed.outcome {
        Outcome::Run { id, .. } => assert_eq!(id, "sub"),
        other => panic!("expected a run outcome, got {other:?}"),
    }
}

#[test]
fn version_uses_the_template() {
    let parsed = app().parse(&argv(&["--version"])).unwrap();
    match parsed.outcome {
        Outcome::Print(s) => assert_eq!(s, "demo version 1.2.3\n"),
        other => panic!("expected printed output, got {other:?}"),
    }
}

#[test]
fn flag_usages_align_on_the_widest_flag() {
    let a = app();
    let mut local = a.root.flags.clone();
    for f in a.root.persistent_flags.iter() {
        local.add(f.clone());
    }
    let usages = local.flag_usages();
    assert_eq!(usages.lines().count(), 6);
    let columns: Vec<usize> = usages
        .lines()
        .map(|l| l.rfind("  ").expect("a gap before the usage"))
        .collect();
    assert!(columns.iter().all(|c| *c > 0));
    assert!(usages.contains("  -a, --all"), "{usages}");
}

#[test]
fn string_defaults_are_quoted_in_help() {
    let a = app();
    let usages = a.root.flags.flag_usages();
    assert!(usages.contains("(default \"auto\")"), "{usages}");
    assert!(!usages.contains("(default 0)"), "zero defaults are omitted");
}

#[test]
fn flag_usages_exact_layout() {
    let mut fs = FlagSet::new();
    fs.add(Flag::uint("width", "w", 0, "wrap"));
    fs.add(Flag::bool("all", "a", false, "show all"));
    fs.add(Flag::string("x", "", "d", "ex").hidden());
    assert_eq!(
        fs.flag_usages(),
        "  -a, --all          show all\n  -w, --width uint   wrap\n"
    );
}

#[test]
fn double_dash_ends_flag_parsing() {
    let parsed = app().parse(&argv(&["--", "-a"])).expect("parses");
    match parsed.outcome {
        Outcome::Run { id, args } => {
            assert_eq!(id, "root");
            assert_eq!(args, vec!["-a".to_string()]);
        }
        other => panic!("expected a run outcome, got {other:?}"),
    }
    assert!(!parsed.flags.bool("all"));
}

#[test]
fn bool_flags_accept_go_spellings() {
    let parsed = app().parse(&argv(&["--all=T"])).expect("parses");
    assert!(parsed.flags.bool("all"));
    let err = app().parse(&argv(&["--all=yes"])).unwrap_err();
    assert_eq!(
        err.0,
        "invalid argument \"yes\" for \"-a, --all\" flag: strconv.ParseBool: parsing \"yes\": invalid syntax"
    );
}

#[test]
fn a_missing_flag_value_is_an_error() {
    let err = app().parse(&argv(&["--style"])).unwrap_err();
    assert_eq!(err.0, "flag needs an argument: --style");
    let err = app().parse(&argv(&["-s"])).unwrap_err();
    assert_eq!(err.0, "flag needs an argument: 's' in -s");
}

#[test]
fn usage_lists_commands_and_flags() {
    let a = app();
    assert_eq!(a.command_path(&[0]), "demo sub");
    let u = a.usage(&[0]);
    assert_eq!(
        u,
        "Usage:\n  demo sub [flags]\n\nFlags:\n  -h, --help   help for sub\n\nGlobal Flags:\n      --config string   config file (default )\n"
    );
    let root_usage = a.usage(&[]);
    assert!(root_usage.starts_with("Usage:\n  demo [SOURCE|DIR] [flags]\n  demo [command]\n\nAvailable Commands:\n  sub         A sub-command\n"), "{root_usage}");
    assert!(root_usage.ends_with("Use \"demo [command] --help\" for more information about a command.\n"));
}

#[test]
fn exact_args_and_root_flags() {
    let mut a = app();
    a.root.children[0].args = Args::ExactArgs(1);
    let err = a.parse(&argv(&["sub"])).unwrap_err();
    assert_eq!(err.0, "accepts 1 arg(s), received 0");
    let fs = a.parse_root_flags(&argv(&["-aw", "7", "pos"])).expect("parses");
    assert!(fs.bool("all"));
    assert_eq!(fs.uint("width"), 7);
    assert_eq!(a.command_at(&[0]).name(), "sub");
}

#[test]
fn help_command_shows_its_target() {
    let mut a = app();
    let help = Command::new("help", "help [command]", "Help about any command");
    a.root.children.push(help);
    let parsed = a.parse(&argv(&["help", "sub"])).expect("parses");
    match parsed.outcome {
        Outcome::Print(text) => assert!(text.starts_with("A sub-command\n\nUsage:"), "{text}"),
        other => panic!("expected help text, got {other:?}"),
    }
    let parsed = a.parse(&argv(&["help", "nope"])).expect("parses");
    match parsed.outcome {
        Outcome::Print(text) => assert!(text.starts_with("Do things"), "{text}"),
        other => panic!("expected help text, got {other:?}"),
    }
}

#[test]
fn a_double_dash_ends_the_flags() {
    let parsed = app().parse(&argv(&["--", "--style"])).expect("parses");
    assert!(!parsed.flags.changed("style"));
    assert_eq!(parsed.flags.string("style"), "auto");
    match parsed.outcome {
        Outcome::Run { args, .. } => assert_eq!(args, vec!["--style".to_string()]),
        other => panic!("expected a run, got {other:?}"),
    }
}
