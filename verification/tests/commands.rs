use glow::config_cmd::{check_config_type, command as config_command, DEFAULT_CONFIG};
use glow::deps::cobra::Args;
use glow::man_cmd::command as man_command;
use glow::style::paragraph;

#[test]
fn the_default_config_matches_the_original_byte_for_byte() {
    assert_eq!(DEFAULT_CONFIG.lines().count(), 10);
    assert!(DEFAULT_CONFIG.starts_with("# style name or JSON path (default \"auto\")\n"));
    assert!(DEFAULT_CONFIG.ends_with("all: false\n"));
}

#[test]
fn the_example_block_is_paragraph_styled() {
    let cmd = config_command();
    assert_eq!(
        cmd.example,
        paragraph("glow config\nglow config --config path/to/config.yml")
    );
    assert!(cmd.example.starts_with("  glow config"));
}

#[test]
fn an_unsupported_extension_is_rejected() {
    assert_eq!(
        check_config_type("/tmp/glow.txt").unwrap_err(),
        "'.txt' is not a supported configuration type: use '.yaml' or '.yml'"
    );
    assert_eq!(
        check_config_type("").unwrap_err(),
        "'' is not a supported configuration type: use '.yaml' or '.yml'"
    );
    assert!(check_config_type("/tmp/glow.yml").is_ok());
    assert!(check_config_type("glow.yaml").is_ok());
}

#[test]
fn the_config_command_takes_no_arguments() {
    let cmd = config_command();
    assert_eq!(cmd.args, Args::NoArgs);
    assert_eq!(cmd.short, "Edit the glow config file");
    assert!(cmd.long.contains("the glow config file."));
}

#[test]
fn the_man_command_is_hidden() {
    let cmd = man_command();
    assert!(cmd.hidden);
    assert!(cmd.disable_flags_in_use_line);
    assert_eq!(cmd.args, Args::NoArgs);
}

#[test]
fn completion_has_a_command_per_shell() {
    let c = glow::glow::completion_command();
    assert!(!c.runnable);
    let names: Vec<String> = c.children.iter().map(|k| k.name()).collect();
    assert_eq!(names, vec!["bash", "fish", "powershell", "zsh"]);
    assert!(c.children[0].disable_flags_in_use_line);
    assert!(!c.children[1].disable_flags_in_use_line);
    assert_eq!(c.children[2].flags.len(), 2);
    assert!(c.children[3].long.contains("compinit"));
}

#[test]
fn the_help_command_takes_a_command_path() {
    let h = glow::glow::help_command();
    assert_eq!(h.use_line, "help [command]");
    assert_eq!(h.name(), "help");
    assert!(h.long.starts_with("Help provides help"));
}
