use glow::deps::editor::{command_line, Opt};

#[test]
fn resolves_the_editor_and_line_number_options() {
    assert_eq!(command_line("Glow", "/tmp/a.md", &[], None, "").unwrap(), vec!["nano", "/tmp/a.md"]);
    assert_eq!(
        command_line("Glow", "/tmp/a.md", &[Opt::LineNumber(12)], None, "").unwrap(),
        vec!["nano", "+12", "/tmp/a.md"]
    );
    assert_eq!(
        command_line("Glow", "/tmp/a.md", &[Opt::LineNumber(3)], None, "/usr/bin/vim -u NONE").unwrap(),
        vec!["/usr/bin/vim", "-u", "NONE", "+3", "/tmp/a.md"]
    );
    assert_eq!(
        command_line("Glow", "/tmp/a.md", &[Opt::LineNumber(7)], None, "code").unwrap(),
        vec!["code", "--goto", "/tmp/a.md:7"]
    );
    assert_eq!(
        command_line("Glow", "/tmp/a.md", &[Opt::LineNumber(7)], None, "subl").unwrap(),
        vec!["subl", "/tmp/a.md"],
        "an unsupported editor ignores the line number"
    );
}

#[test]
fn snap_refuses_to_start_an_editor() {
    assert_eq!(
        command_line("Glow", "/tmp/a.md", &[], Some("42"), "vim").unwrap_err(),
        "Did you install with Snap? Glow is sandboxed and unable to open an editor. Please install Glow with Go or another package manager to enable editing."
    );
    assert_eq!(command_line("Glow", "/tmp/a.md", &[], Some(""), "vim").unwrap(), vec!["vim", "/tmp/a.md"]);
}

#[test]
fn whitespace_around_the_editor_is_ignored() {
    assert_eq!(
        command_line("Glow", "a.md", &[Opt::LineNumber(1)], None, "  \t ").unwrap(),
        vec!["nano", "+1", "a.md"]
    );
    assert_eq!(
        command_line("Glow", "a.md", &[Opt::LineNumber(5)], None, " /opt/bin/nvim\t-p ").unwrap(),
        vec!["/opt/bin/nvim", "-p", "+5", "a.md"]
    );
}
