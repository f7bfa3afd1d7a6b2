//! The `man` sub-command: its definition, and the man page it writes.
use vstd::prelude::*;
use crate::deps::cobra::{App, Args, Command, Flag};
use crate::deps::mango;

verus! {

broadcast use vstd::string::group_string_axioms;

/// The `man` command: hidden, no arguments, and a `--help` flag.
pub fn command() -> (r: Command)
    ensures
        r.id == "man",
        r.use_line@ == "man"@,
        r.short@ == "Generates manpages"@,
        r.hidden,
        r.disable_flags_in_use_line,
        r.args == Args::NoArgs,
        r.flags@.len() == 1,
        r.flags@[0].name == "help"@,
        r.flags@[0].shorthand == "h"@,
        r.flags@[0].usage == "help for man"@,
{
    let mut cmd = Command::new("man", "man", "Generates manpages");
    cmd.hidden = true;
    cmd.disable_flags_in_use_line = true;
    cmd.args = Args::NoArgs;
    cmd.flags.add(Flag::bool("help", "h", false, "help for man"));
    cmd
}

/// The man page for `app`, in section 1, dated `date`.
pub fn build(app: &App, date: &str) -> (r: String)
    ensures
        exists|p: mango::ManPage|
            mango::converted(p.root, app.root, true) && p.section == 1 && p.description@ == app.root.short@
                && p.long_description@ == app.root.long@ && p.sections@.len() == 0 && r@ == mango::build_spec(
                p,
                date@,
            ),
{
    let page = mango::from_cobra(1, &app.root);
    page.build(date)
}

} // verus!
