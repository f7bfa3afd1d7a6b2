//! The `config` sub-command: its definition, the configuration file it
//! creates, and which file names it accepts.
use vstd::prelude::*;
use crate::deps::cobra::{Args, Command, Flag};
use crate::style::{keyword, keyword_spec, paragraph, paragraph_spec};
use crate::text::{chars_of, eq_str, extend_str, string_of};
use crate::utils::{extension, extension_spec};

verus! {

broadcast use vstd::string::group_string_axioms;

/// The configuration file written when none exists yet.
pub const DEFAULT_CONFIG: &'static str = "# style name or JSON path (default \"auto\")\nstyle: \"auto\"\n# mouse support (TUI-mode only)\nmouse: false\n# use pager to display markdown\npager: false\n# word-wrap at width\nwidth: 80\n# show all files, including hidden and ignored.\nall: false\n";

/// The `config` command: no arguments, a `--help` flag, and a keyword
/// styled description and example.
pub fn command() -> (r: Command)
    ensures
        r.id == "config",
        r.use_line@ == "config"@,
        r.short@ == "Edit the glow config file"@,
        r.args == Args::NoArgs,
        r.flags@.len() == 1,
        r.flags@[0].name == "help"@,
        r.flags@[0].shorthand == "h"@,
        r.long@ == paragraph_spec(
            "\n"@ + keyword_spec("Edit"@)
                + " the glow config file. We\u{2019}ll use EDITOR to determine which editor to use. If the config file doesn't exist, it will be created."@,
        ),
        r.example@ == paragraph_spec("glow config\nglow config --config path/to/config.yml"@),
        !r.hidden,
{
    let mut cmd = Command::new("config", "config", "Edit the glow config file");
    let mut long: Vec<char> = Vec::new();
    extend_str(&mut long, "\n");
    let kw = keyword("Edit");
    extend_str(&mut long, kw.as_str());
    extend_str(
        &mut long,
        " the glow config file. We\u{2019}ll use EDITOR to determine which editor to use. If the config file doesn't exist, it will be created.",
    );
    cmd.long = paragraph(string_of(&long).as_str());
    cmd.example = paragraph("glow config\nglow config --config path/to/config.yml");
    cmd.args = Args::NoArgs;
    cmd.flags.add(Flag::bool("help", "h", false, "help for config"));
    cmd
}

/// The error for a configuration file that is not YAML, by its extension.
pub open spec fn config_type_error(ext: Seq<char>) -> Seq<char> {
    "'"@ + ext + "' is not a supported configuration type: use '.yaml' or '.yml'"@
}

/// Checks that a configuration path is a YAML file: its extension must be
/// `.yaml` or `.yml`.
pub fn check_config_type(path: &str) -> (r: Result<(), String>)
    ensures
        (extension_spec(path@) == ".yaml"@ || extension_spec(path@) == ".yml"@) ==> r is Ok,
        !(extension_spec(path@) == ".yaml"@ || extension_spec(path@) == ".yml"@) ==> (r matches Err(e)
            && e@ == config_type_error(extension_spec(path@))),
{
    let ext = extension(path);
    let ev = chars_of(ext.as_str());
    if eq_str(&ev, ".yaml") || eq_str(&ev, ".yml") {
        return Ok(());
    }
    let mut msg: Vec<char> = Vec::new();
    extend_str(&mut msg, "'");
    crate::text::extend_chars(&mut msg, &ev);
    extend_str(&mut msg, "' is not a supported configuration type: use '.yaml' or '.yml'");
    Err(string_of(&msg))
}

} // verus!
