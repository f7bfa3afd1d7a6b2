//! The terminal interface's logic: its configuration, the documents it
//! lists, how they are ordered, searched for and filtered, and the listing's
//! state, keys and help.
pub mod config;
pub mod ignore;
pub mod markdown;
pub mod pager;
pub mod sort;
pub mod stash;
pub mod stashhelp;
pub mod stashitem;
pub mod styles;

use vstd::prelude::*;
use crate::deps::lipgloss::render_spec;
use crate::text::{chars_of, extend_chars, extend_str, repeat, repeat_char, split, split_chars, string_of};
use crate::ui::config::Config;
use crate::ui::styles::{styles_ok, Styles, StylesView};

verus! {

/// The character that marks truncated text.
pub const ELLIPSIS: &'static str = "…";

/// Everything the listing and the pager both need.
pub struct CommonModel {
    /// Resolved configuration.
    pub cfg: Config,
    /// The directory the search started from.
    pub cwd: String,
    /// Terminal width.
    pub width: usize,
    /// Terminal height.
    pub height: usize,
    /// Resolved styles.
    pub styles: Styles,
}

/// `s` with every line indented by `n` spaces and ended by a line feed;
/// unchanged when `n` is zero or `s` is empty.
pub open spec fn indent_spec(s: Seq<char>, n: nat) -> Seq<char> {
    if n == 0 || s.len() == 0 {
        s
    } else {
        split(s, '\n').map_values(|line: Seq<char>| repeat(' ', n) + line + seq!['\n']).flatten()
    }
}

/// Indents every line of `s` by `n` spaces, ending each with a line feed.
pub fn indent(s: &str, n: usize) -> (r: String)
    ensures
        r@ == indent_spec(s@, n as nat),
{
    let v = chars_of(s);
    if n == 0 || v.len() == 0 {
        return string_of(&v);
    }
    let lines = split_chars(&v, '\n');
    let pad = repeat_char(' ', n);
    let ghost ls = lines@.map_values(|p: Vec<char>| p@);
    let ghost want = ls.map_values(|line: Seq<char>| repeat(' ', n as nat) + line + seq!['\n']);
    let mut out: Vec<char> = Vec::new();
    let mut i: usize = 0;
    while i < lines.len()
        invariant
            i <= lines.len(),
            ls == lines@.map_values(|p: Vec<char>| p@),
            want == ls.map_values(|line: Seq<char>| repeat(' ', n as nat) + line + seq!['\n']),
            pad@ == repeat(' ', n as nat),
            out@ == want.take(i as int).flatten(),
        decreases lines.len() - i,
    {
        let ghost before = out@;
        extend_chars(&mut out, &pad);
        extend_chars(&mut out, &lines[i]);
        out.push('\n');
        proof {
            assert(ls[i as int] == lines@[i as int]@);
            assert(out@ =~= before + want[i as int]);
            want.take(i as int).lemma_flatten_push(want[i as int]);
            assert(want.take(i + 1) =~= want.take(i as int).push(want[i as int]));
        }
        i += 1;
    }
    assert(want.take(i as int) =~= want);
    string_of(&out)
}

/// The error screen: the `ERROR` badge, the message, and how to leave,
/// indented by three.
pub open spec fn error_view_spec(st: StylesView, err: Seq<char>, fatal: bool) -> Seq<char> {
    let exit_msg = if fatal {
        "press any key to exit"@
    } else {
        "press any key to return"@
    };
    let s = render_spec(st.error_title_style, "ERROR"@) + "\n\n"@ + err + "\n\n"@ + render_spec(st.subtle_style, exit_msg);
    seq!['\n'] + indent_spec(s, 3)
}

/// Renders an error and how to leave it: any key exits when it is fatal,
/// and returns otherwise.
pub fn error_view(styles: &Styles, err: &str, fatal: bool) -> (r: String)
    requires
        styles_ok(styles.view()),
    ensures
        r@ == error_view_spec(styles.view(), err@, fatal),
{
    let exit_msg = if fatal {
        "press any key to exit"
    } else {
        "press any key to return"
    };
    let mut s: Vec<char> = Vec::new();
    let title = styles.error_title_style.render("ERROR");
    extend_str(&mut s, title.as_str());
    extend_str(&mut s, "\n\n");
    extend_str(&mut s, err);
    extend_str(&mut s, "\n\n");
    let way_out = styles.subtle_style.render(exit_msg);
    extend_str(&mut s, way_out.as_str());
    let body = string_of(&s);
    let indented = indent(body.as_str(), 3);
    let mut out: Vec<char> = Vec::new();
    out.push('\n');
    extend_str(&mut out, indented.as_str());
    assert(out@ =~= seq!['\n'] + indented@);
    string_of(&out)
}

} // verus!
