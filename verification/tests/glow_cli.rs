use glow::deps::viper::Viper;
use glow::glow::{version_template, Glow};

fn argv(items: &[&str]) -> Vec<String> {
    items.iter().map(|s| s.to_string()).collect()
}

fn fresh() -> Glow {
    Glow::assemble(Viper::new(), String::new(), None, None)
}

#[test]
fn pager_and_tui_together_are_rejected() {
    let mut glow = fresh();
    let flags = glow.parse_flags(&argv(&["-p", "-t"])).expect("parses");
    assert_eq!(
        glow.resolve_options(&flags).unwrap_err(),
        "cannot use both pager and tui"
    );
}

#[test]
fn parsing_flags_updates_the_option_state() {
    let mut glow = fresh();
    glow.parse_flags(&argv(&["-p"])).expect("parses");
    assert!(glow.pager);
    glow.parse_flags(&argv(&["-s", "light"])).expect("parses");
    assert_eq!(glow.style, "light");
    glow.parse_flags(&argv(&["-w", "40"])).expect("parses");
    assert_eq!(glow.width, 40);
}

#[test]
fn help_output_matches_cobras_template() {
    let glow = fresh();
    let help = glow.app.help(&[]);
    assert!(help.contains("Usage:\n  glow [SOURCE|DIR] [flags]\n  glow [command]"));
    assert!(help.contains("Available Commands:\n  completion  Generate the autocompletion script for the specified shell\n  config      Edit the glow config file\n  help        Help about any command\n"));
    assert!(help.contains("  -s, --style string         style name or JSON path (default \"auto\")"));
    assert!(!help.contains("--mouse"), "the mouse flag is hidden");
    assert!(help.ends_with("Use \"glow [command] --help\" for more information about a command.\n"));
}

#[test]
fn the_version_template_carries_the_name() {
    let glow = fresh();
    assert_eq!(
        glow.app.version_template.replace("{{.Version}}", &glow.app.version),
        "glow version unknown (built from source)\n"
    );
}

#[test]
fn a_release_names_its_commit() {
    assert_eq!(version_template(Some("0123456789")), "glow version {{.Version}} (0123456)\n");
    assert_eq!(version_template(Some("abc")), "glow version {{.Version}}\n");
}

#[test]
fn the_configured_style_and_width_come_from_the_defaults() {
    let mut glow = fresh();
    let flags = glow.parse_flags(&argv(&[])).expect("parses");
    glow.resolve_options(&flags).expect("valid");
    assert_eq!(glow.style, "auto");
    assert_eq!(glow.width, 0);
    assert!(glow.show_all_files, "every file is shown by default");
}

#[test]
fn off_a_terminal_the_style_is_notty_and_the_width_eighty() {
    let mut glow = fresh();
    let flags = glow.parse_flags(&argv(&[])).expect("parses");
    glow.resolve_options(&flags).expect("valid");
    glow.fit_to_terminal(&flags, false, None);
    assert_eq!(glow.style, "notty");
    assert_eq!(glow.width, 80);
}

fn fitted(term: Option<u16>) -> (String, u64) {
    let mut glow = fresh();
    let flags = glow.parse_flags(&argv(&[])).expect("parses");
    glow.resolve_options(&flags).expect("valid");
    glow.fit_to_terminal(&flags, true, term);
    (glow.style, glow.width)
}

#[test]
fn a_terminal_width_is_capped_at_one_twenty() {
    assert_eq!(fitted(Some(200)), ("auto".to_string(), 120));
    assert_eq!(fitted(Some(100)), ("auto".to_string(), 100));
    assert_eq!(fitted(None), ("auto".to_string(), 80));
}

#[test]
fn an_explicit_width_is_kept() {
    let mut glow = fresh();
    let flags = glow.parse_flags(&argv(&["-w", "33", "-s", "dark"])).expect("parses");
    glow.resolve_options(&flags).expect("valid");
    glow.fit_to_terminal(&flags, false, None);
    assert_eq!(glow.width, 33);
    assert_eq!(glow.style, "dark");
}
