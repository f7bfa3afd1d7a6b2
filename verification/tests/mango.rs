use glow::deps::cobra;
use glow::deps::mango::{from_cobra, Command, Flag, ManPage};

#[test]
fn a_bare_page_has_the_four_standard_sections() {
    let page = ManPage::new(1, "demo", "Do things").with_long_description("Long text.");
    let out = page.build("2024-01-02");
    assert_eq!(
        out,
        ".TH DEMO 1 \"2024-01-02\" \"demo\" \"Do things\"\n\
         .SH NAME\n\
         demo - Do things\n\
         .SH SYNOPSIS\n\
         \\fBdemo\\fP [\\fIoptions\\&.\\&.\\&.\\fP] [\\fIargument\\&.\\&.\\&.\\fP]\n\
         .SH DESCRIPTION\n\
         Long text\\&."
    );
}

#[test]
fn flags_are_sorted_and_tagged() {
    let mut page = ManPage::new(1, "demo", "Do things");
    page.root.add_flag(Flag {
        name: "width".into(),
        short: "w".into(),
        usage: "word-wrap at width".into(),
        pflag: true,
    });
    page.root.add_flag(Flag {
        name: "all".into(),
        short: "a".into(),
        usage: "show all".into(),
        pflag: true,
    });
    let out = page.build("2024-01-02");
    let options = out
        .split(".SH OPTIONS\n")
        .nth(1)
        .expect("an options section");
    assert_eq!(
        options,
        ".TP\n\\fB-a, --all\\fP\nshow all\n.TP\n\\fB-w, --width\\fP\nword-wrap at width"
    );
}

#[test]
fn a_flag_without_a_shorthand_omits_the_comma() {
    let mut page = ManPage::new(1, "demo", "Do things");
    page.root.add_flag(Flag {
        name: "config".into(),
        short: String::new(),
        usage: "config file".into(),
        pflag: true,
    });
    assert!(page
        .build("2024-01-02")
        .contains("\\fB--config\\fP\nconfig file"));
}

#[test]
fn sub_commands_nest_their_own_sections() {
    let mut page = ManPage::new(1, "demo", "Do things");
    let mut child = Command::new("sub", "A sub-command", "sub [thing]");
    child.add_flag(Flag {
        name: "no-descriptions".into(),
        short: String::new(),
        usage: "disable descriptions".into(),
        pflag: true,
    });
    page.root.add_command(child);
    let out = page.build("2024-01-02");
    let commands = out
        .split(".SH COMMANDS\n")
        .nth(1)
        .expect("a commands section");
    assert_eq!(
        commands,
        ".TP\n\\fBsub\\fP [thing]\n.RS 4\nA sub-command\n.RE\n\
         .TP\n\\fBOPTIONS\\fP\n.RS 4\n\\fB--no-descriptions\\fP\n\
         disable descriptions\n.RE\n"
    );
}

#[test]
fn hidden_sub_commands_are_skipped() {
    let mut root = cobra::Command::new("root", "demo", "Do things");
    let mut hidden = cobra::Command::new("man", "man", "Generates manpages");
    hidden.hidden = true;
    root.children.push(hidden);
    root.children
        .push(cobra::Command::new("config", "config", "Edit the config"));
    root.flags
        .add(cobra::Flag::bool("help", "h", false, "help for demo"));
    root.flags
        .add(cobra::Flag::bool("all", "a", false, "show all"));

    let page = from_cobra(1, &root);
    assert!(page.root.commands.contains_key("config"));
    assert!(
        !page.root.commands.contains_key("man"),
        "hidden commands are skipped"
    );
    assert!(
        !page.root.flags.contains_key("help"),
        "cobra adds help at execution time"
    );
    assert!(page.root.flags.contains_key("all"));
}

#[test]
fn the_first_definition_of_a_name_is_kept() {
    let mut c = Command::new("x", "", "");
    c.add_flag(Flag {
        name: "a".into(),
        short: "1".into(),
        usage: "first".into(),
        pflag: false,
    });
    c.add_flag(Flag {
        name: "a".into(),
        short: "2".into(),
        usage: "second".into(),
        pflag: true,
    });
    assert_eq!(c.flags.len(), 1);
    assert_eq!(c.flags.value_at(0).usage, "first");
    let mut page = ManPage::new(1, "x", "d");
    page.root = c;
    assert!(page.build("d").contains("\\fB-1, -a\\fP\nfirst"));
}
