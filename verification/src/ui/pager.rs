//! The document pager: the viewport, its status bar and its help.
use vstd::prelude::*;
use crate::deps::ansi::{string_width, truncate_spec, truncate_with_tail};
use crate::deps::bubbles::viewport::{self, apply, content_lines, key_action, max_x, max_y, set_content_spec, set_y_spec, view_spec, Action, ViewportView};
use crate::deps::glamour::table::sw;
use crate::deps::lipgloss::render_spec;
use crate::text::{chars_of, eq_str, decimal, decimal_of, extend_chars, extend_str, join, join_chars, push_chars, repeat, repeat_char, split, split_chars, string_of};
use crate::ui::markdown::Markdown;
use crate::ui::stashhelp::{count_newlines, newlines};
use crate::ui::styles::{styles_ok, StylesView};
use crate::ui::{indent, indent_spec, CommonModel, ELLIPSIS};

verus! {

broadcast use vstd::string::group_string_axioms;

/// Height of the status bar.
pub const STATUS_BAR_HEIGHT: usize = 1;
/// Width of the line-number gutter.
pub const LINE_NUMBER_WIDTH: usize = 4;

/// Whether the pager is browsing or showing a message.
#[derive(Debug, Clone, Copy, PartialEq, Eq, Structural)]
pub enum PagerState {
    /// Reading the document.
    Browse,
    /// Showing an ephemeral message.
    StatusMessage,
}

/// What the pager hears from the program around it.
#[derive(Debug)]
pub enum PagerMsg {
    /// A key press, named the way the terminal library names it.
    Key(String),
    /// The document was rendered to this text.
    ContentRendered(String),
    /// The document changed on disk.
    Reload,
    /// The editor exited.
    EditorFinished,
    /// The terminal was resized.
    WindowSize,
    /// The status message's time is up.
    StatusMessageTimeout,
    /// A message the pager does not handle.
    Other,
}

/// What the pager asks the program around it to do next.
#[derive(Debug)]
pub enum PagerCmd {
    /// Nothing.
    Nothing,
    /// Open the document at this path in the editor, at the line the
    /// viewport's scroll position gives.
    OpenEditor(String),
    /// Copy this text to the clipboard, and end the status message after
    /// its timeout.
    Copy(String),
    /// Read the document at this path again.
    Reload(String),
    /// Render the current document again for the new size.
    Render,
    /// Watch the current document's directory for changes.
    WatchFile,
}

/// Whether the viewport leaves room for the arithmetic of every key,
/// whatever opening the help does to its height.
pub open spec fn pager_fits(v: ViewportView, screen_height: nat) -> bool {
    &&& v.lines.len() + v.height + 1 <= usize::MAX
    &&& v.lines.len() + screen_height + 1 <= usize::MAX
    &&& v.y_offset + v.height + 1 <= usize::MAX
    &&& v.y_offset + screen_height + 1 <= usize::MAX
    &&& v.x_offset + v.step <= i64::MAX
    &&& v.longest <= i64::MAX
}

/// What the pager's own keys do to the viewport before it handles the key
/// itself: `home`/`g` to the top, `end`/`G` to the bottom, `d` and `u` half
/// a page.
pub open spec fn pager_key_view(v: ViewportView, k: Seq<char>) -> ViewportView {
    if k == "home"@ || k == "g"@ {
        if v.y_offset == 0 { v } else { set_y_spec(v, 0) }
    } else if k == "end"@ || k == "G"@ {
        set_y_spec(v, max_y(v) as int)
    } else if k == "d"@ {
        apply(v, Action::HalfDown)
    } else if k == "u"@ {
        apply(v, Action::HalfUp)
    } else {
        v
    }
}

/// The pager.
pub struct PagerModel {
    /// The scrolling viewport.
    pub viewport: viewport::Model,
    /// Browsing or showing a message.
    pub state: PagerState,
    /// Whether the help is expanded.
    pub show_help: bool,
    /// The ephemeral message.
    pub status_message: String,
    /// The document being read, before rendering, so it can be rendered
    /// again on resize.
    pub current_document: Markdown,
    /// The help view's height once it has been measured, else 0.
    pub help_height: usize,
}

/// Calls `Path::parent` on `path`, and gives the parent back as text.
#[verifier::external_body]
fn path_parent(path: &str) -> (r: Option<String>)
    ensures
        match r {
            Some(s) => parent_of(path@) == Some(s@),
            None => parent_of(path@) is None,
        },
{
    std::path::Path::new(path).parent().map(|p| p.to_string_lossy().into_owned())
}

/// What `Path::parent` gives for a path: the path without its last
/// component, or nothing for a root or an empty path.
pub uninterp spec fn parent_of(path: Seq<char>) -> Option<Seq<char>>;

/// The pager's help text, before indenting: the movement keys beside the
/// document keys.
pub open spec fn help_text() -> Seq<char> {
    "\nk/↑      up                  g/home  go to top\nj/↓      down                G/end   go to bottom\nb/pgup   page up             c       copy contents\nf/pgdn   page down           e       edit this document\nu        ½ page up           r       reload this document\nd        ½ page down         esc     back to files"@
}

/// `line` padded with spaces to `width` columns.
pub open spec fn pad_line(line: Seq<char>, width: int) -> Seq<char> {
    line + repeat(' ', if width > sw(line) { (width - sw(line)) as nat } else { 0 })
}

/// The pager's help: the text indented by two and, in a window with a
/// width, every line padded to it so the background reaches the edge.
pub open spec fn pager_help_spec(st: StylesView, width: int) -> Seq<char> {
    let s = indent_spec(help_text(), 2);
    let padded = if width > 0 {
        join(split(s, '\n').map_values(|l: Seq<char>| pad_line(l, width)), seq!['\n'])
    } else {
        s
    };
    render_spec(st.help_view_style, padded)
}

/// A percentage right-aligned in three columns, between spaces.
pub open spec fn percent_label(percent: nat) -> Seq<char> {
    let d = decimal(percent);
    seq![' '] + repeat(' ', if d.len() < 3 { (3 - d.len()) as nat } else { 0 }) + d + "% "@
}

/// The drawn pieces of the status bar.
pub struct BarParts {
    pub logo: Seq<char>,
    pub note: Seq<char>,
    pub space: Seq<char>,
    pub percent: Seq<char>,
    pub help: Seq<char>,
}

/// `a - b`, but not below zero.
pub open spec fn minus(a: int, b: int) -> int {
    if a > b {
        a - b
    } else {
        0
    }
}

/// The status bar's pieces, for a scroll position of `percent`: the logo,
/// the note (or the message) cut to the room the others leave, spaces to
/// the width, the position and the help hint; message colours while a
/// message shows.
pub open spec fn bar_parts(m: &PagerModel, st: StylesView, width: int, percent: nat) -> BarParts {
    let message = m.state == PagerState::StatusMessage;
    let logo = render_spec(st.logo_style, " Glow "@);
    let pct = render_spec(
        if message { st.status_bar_message_scroll_pos_style } else { st.status_bar_scroll_pos_style },
        percent_label(percent),
    );
    let help = render_spec(
        if message { st.status_bar_message_help_style } else { st.status_bar_help_style },
        " ? Help "@,
    );
    let text = if message {
        m.status_message@
    } else {
        m.current_document.note@
    };
    let room = minus(minus(minus(width, sw(logo)), sw(pct)), sw(help));
    let cut = truncate_spec(seq![' '] + text + seq![' '], room, "…"@);
    let note_style = if message { st.status_bar_message_style } else { st.status_bar_note_style };
    let note = render_spec(note_style, cut);
    let padding = minus(minus(minus(minus(width, sw(logo)), sw(note)), sw(pct)), sw(help));
    BarParts { logo, note, space: render_spec(note_style, repeat(' ', padding as nat)), percent: pct, help }
}

/// The status bar, one line.
pub open spec fn status_bar_spec(m: &PagerModel, st: StylesView, width: int, percent: nat) -> Seq<char> {
    let p = bar_parts(m, st, width, percent);
    p.logo + p.note + p.space + p.percent + p.help
}

impl PagerModel {
    /// A pager with an empty viewport.
    pub fn new() -> (r: PagerModel)
        ensures
            r.viewport.state() == (ViewportView {
                width: 0,
                height: 0,
                y_offset: 0,
                x_offset: 0,
                step: 6,
                lines: Seq::empty(),
                longest: 0,
            }),
            r.state == PagerState::Browse,
            !r.show_help,
            r.status_message@.len() == 0,
            r.help_height == 0,
    {
        PagerModel {
            viewport: viewport::Model::new(),
            state: PagerState::Browse,
            show_help: false,
            status_message: String::new(),
            current_document: Markdown::default(),
            help_height: 0,
        }
    }

    /// The two-column key help.
    pub fn help_view(&self, common: &CommonModel) -> (r: String)
        requires
            styles_ok(common.styles.view()),
        ensures
            r@ == pager_help_spec(common.styles.view(), common.width as int),
    {
        let text = "\nk/↑      up                  g/home  go to top\nj/↓      down                G/end   go to bottom\nb/pgup   page up             c       copy contents\nf/pgdn   page down           e       edit this document\nu        ½ page up           r       reload this document\nd        ½ page down         esc     back to files";
        assert(text@ == help_text());
        let s = indent(text, 2);
        if common.width == 0 {
            return common.styles.help_view_style.render(s.as_str());
        }
        let v = chars_of(s.as_str());
        let lines = split_chars(&v, '\n');
        let ghost ls = lines@.map_values(|p: Vec<char>| p@);
        let ghost want = ls.map_values(|l: Seq<char>| pad_line(l, common.width as int));
        let mut padded: Vec<Vec<char>> = Vec::new();
        let mut i: usize = 0;
        while i < lines.len()
            invariant
                i <= lines.len(),
                ls == lines@.map_values(|p: Vec<char>| p@),
                want == ls.map_values(|l: Seq<char>| pad_line(l, common.width as int)),
                padded@.map_values(|p: Vec<char>| p@) == want.take(i as int),
            decreases lines.len() - i,
        {
            let w = crate::deps::ansi::chars_width(&lines[i]);
            let n = if common.width > w {
                common.width - w
            } else {
                0
            };
            let mut line: Vec<char> = Vec::new();
            extend_chars(&mut line, &lines[i]);
            let sp = repeat_char(' ', n);
            extend_chars(&mut line, &sp);
            let ghost before = padded@.map_values(|p: Vec<char>| p@);
            assert(ls[i as int] == lines@[i as int]@);
            assert(line@ =~= pad_line(ls[i as int], common.width as int));
            padded.push(line);
            assert(padded@.map_values(|p: Vec<char>| p@) =~= before.push(want[i as int]));
            i += 1;
            assert(want.take(i as int) =~= want.take(i - 1).push(want[i - 1]));
        }
        assert(want.take(i as int) =~= want);
        let mut nl: Vec<char> = Vec::new();
        nl.push('\n');
        let joined = join_chars(&padded, &nl);
        assert(nl@ =~= seq!['\n']);
        let js = string_of(&joined);
        common.styles.help_view_style.render(js.as_str())
    }

    /// Resizes the viewport, allowing for the status bar and, when it
    /// shows, the help, whose height is measured once.
    pub fn set_size(&mut self, common: &CommonModel, w: usize, h: usize)
        requires
            styles_ok(common.styles.view()),
        ensures
            final(self).help_height == if old(self).show_help && old(self).help_height == 0 {
                newlines(pager_help_spec(common.styles.view(), common.width as int)) as usize
            } else {
                old(self).help_height
            },
            final(self).viewport.state() == (ViewportView {
                width: w as nat,
                height: if old(self).show_help {
                    minus(minus(h as int, STATUS_BAR_HEIGHT as int), STATUS_BAR_HEIGHT + final(self).help_height) as nat
                } else {
                    minus(h as int, STATUS_BAR_HEIGHT as int) as nat
                },
                ..old(self).viewport.state()
            }),
            final(self).show_help == old(self).show_help,
            final(self).state == old(self).state,
            final(self).status_message == old(self).status_message,
            final(self).current_document == old(self).current_document,
    {
        self.viewport.set_width(w);
        self.viewport.set_height(h.saturating_sub(STATUS_BAR_HEIGHT));
        if self.show_help {
            if self.help_height == 0 {
                let help = self.help_view(common);
                self.help_height = count_newlines(help.as_str());
            }
            let height = self.viewport.height().saturating_sub(STATUS_BAR_HEIGHT).saturating_sub(self.help_height);
            self.viewport.set_height(height);
        }
    }

    /// Replaces the rendered content.
    pub fn set_content(&mut self, s: &str)
        ensures
            final(self).viewport.state() == set_content_spec(old(self).viewport.state(), s@),
            final(self).show_help == old(self).show_help,
            final(self).state == old(self).state,
            final(self).status_message == old(self).status_message,
            final(self).current_document == old(self).current_document,
            final(self).help_height == old(self).help_height,
    {
        self.viewport.set_content(s);
    }

    /// Shows or hides the help, resizing the viewport around it, and
    /// scrolls back to the bottom if that leaves it past the end.
    pub fn toggle_help(&mut self, common: &CommonModel)
        requires
            styles_ok(common.styles.view()),
        ensures
            final(self).show_help == !old(self).show_help,
            final(self).state == old(self).state,
            final(self).status_message == old(self).status_message,
            final(self).current_document == old(self).current_document,
            final(self).viewport.state().width == common.width,
            final(self).viewport.state().height == if final(self).show_help {
                minus(minus(common.height as int, STATUS_BAR_HEIGHT as int), STATUS_BAR_HEIGHT + final(self).help_height)
            } else {
                minus(common.height as int, STATUS_BAR_HEIGHT as int)
            },
            final(self).viewport.state().lines == old(self).viewport.state().lines,
            final(self).viewport.state().y_offset <= max_y(final(self).viewport.state())
                || final(self).viewport.state().y_offset == old(self).viewport.state().y_offset,
            final(self).viewport.state().x_offset == old(self).viewport.state().x_offset,
            final(self).viewport.state().step == old(self).viewport.state().step,
            final(self).viewport.state().longest == old(self).viewport.state().longest,
    {
        self.show_help = !self.show_help;
        self.set_size(common, common.width, common.height);
        if self.viewport.past_bottom() {
            self.viewport.goto_bottom();
        }
    }

    /// Folds a message into the pager and says what should happen next:
    /// `q` or `esc` ends a status message, `e` edits the document, `r`
    /// reloads it, `c` copies it, `?` toggles the help, `home`/`g`,
    /// `end`/`G`, `d` and `u` move, and every other key goes to the viewport.
    pub fn update(&mut self, common: &CommonModel, msg: &PagerMsg) -> (r: PagerCmd)
        requires
            styles_ok(common.styles.view()),
            pager_fits(old(self).viewport.state(), common.height as nat),
        ensures
            final(self).current_document == old(self).current_document,
            match msg {
                PagerMsg::Key(k) => if (k@ == "q"@ || k@ == "esc"@) && old(self).state != PagerState::Browse {
                    &&& r is Nothing
                    &&& final(self).state == PagerState::Browse
                    &&& final(self).viewport.state() == old(self).viewport.state()
                    &&& final(self).show_help == old(self).show_help
                } else if k@ == "e"@ {
                    &&& (r matches PagerCmd::OpenEditor(p) && p@ == old(self).current_document.local_path@)
                    &&& final(self).viewport.state() == old(self).viewport.state()
                    &&& final(self).state == old(self).state
                    &&& final(self).show_help == old(self).show_help
                } else if k@ == "r"@ {
                    &&& (r matches PagerCmd::Reload(p) && p@ == old(self).current_document.local_path@)
                    &&& final(self).viewport.state() == old(self).viewport.state()
                    &&& final(self).state == old(self).state
                    &&& final(self).show_help == old(self).show_help
                } else if k@ == "?"@ {
                    &&& r is Nothing
                    &&& final(self).show_help == !old(self).show_help
                    &&& final(self).state == old(self).state
                    &&& final(self).viewport.state().lines == old(self).viewport.state().lines
                    &&& final(self).viewport.state().width == common.width
                } else {
                    &&& final(self).viewport.state() == apply(pager_key_view(old(self).viewport.state(), k@), key_action(k@))
                    &&& final(self).show_help == old(self).show_help
                    &&& (k@ == "c"@ ==> (r matches PagerCmd::Copy(t) && t@ == old(self).current_document.body@)
                        && final(self).state == PagerState::StatusMessage
                        && final(self).status_message@ == "Copied contents"@)
                    &&& (k@ != "c"@ ==> r is Nothing && final(self).state == old(self).state
                        && final(self).status_message == old(self).status_message)
                },
                PagerMsg::ContentRendered(s) => {
                    &&& r is WatchFile
                    &&& final(self).viewport.state() == set_content_spec(old(self).viewport.state(), s@)
                    &&& final(self).state == old(self).state
                    &&& final(self).show_help == old(self).show_help
                },
                PagerMsg::Reload | PagerMsg::EditorFinished => {
                    &&& (r matches PagerCmd::Reload(p) && p@ == old(self).current_document.local_path@)
                    &&& final(self).viewport.state() == old(self).viewport.state()
                    &&& final(self).state == old(self).state
                },
                PagerMsg::WindowSize => {
                    &&& r is Render
                    &&& final(self).viewport.state() == old(self).viewport.state()
                    &&& final(self).state == old(self).state
                },
                PagerMsg::StatusMessageTimeout => {
                    &&& r is Nothing
                    &&& final(self).state == PagerState::Browse
                    &&& final(self).viewport.state() == old(self).viewport.state()
                },
                PagerMsg::Other => {
                    &&& r is Nothing
                    &&& final(self).viewport.state() == old(self).viewport.state()
                    &&& final(self).state == old(self).state
                },
            },
    {
        proof {
            reveal_strlit("q");
            reveal_strlit("esc");
            reveal_strlit("e");
            reveal_strlit("r");
            reveal_strlit("?");
            reveal_strlit("c");
            reveal_strlit("home");
            reveal_strlit("g");
            reveal_strlit("end");
            reveal_strlit("G");
            reveal_strlit("d");
            reveal_strlit("u");
            reveal_strlit("pgdown");
            reveal_strlit("space");
            reveal_strlit("f");
            reveal_strlit("pgup");
            reveal_strlit("b");
            reveal_strlit("ctrl+d");
            reveal_strlit("ctrl+u");
            reveal_strlit("down");
            reveal_strlit("j");
            reveal_strlit("up");
            reveal_strlit("k");
            reveal_strlit("left");
            reveal_strlit("h");
            reveal_strlit("right");
            reveal_strlit("l");
            reveal_strlit("Copied contents");
        }
        let ghost v0 = self.viewport.state();
        match msg {
            PagerMsg::Key(key) => {
                let k = chars_of(key.as_str());
                proof {
                    assert("c"@ != "q"@) by { assert("c"@[0] != "q"@[0]); }
                    assert("c"@ != "e"@) by { assert("c"@[0] != "e"@[0]); }
                    assert("c"@ != "r"@) by { assert("c"@[0] != "r"@[0]); }
                    assert("c"@ != "g"@) by { assert("c"@[0] != "g"@[0]); }
                    assert("c"@ != "G"@) by { assert("c"@[0] != "G"@[0]); }
                    assert("c"@ != "d"@) by { assert("c"@[0] != "d"@[0]); }
                    assert("c"@ != "u"@) by { assert("c"@[0] != "u"@[0]); }
                }
                if (eq_str(&k, "q") || eq_str(&k, "esc")) && self.state != PagerState::Browse {
                    self.state = PagerState::Browse;
                    return PagerCmd::Nothing;
                }
                if eq_str(&k, "e") {
                    return PagerCmd::OpenEditor(self.current_document.local_path.clone());
                }
                if eq_str(&k, "r") {
                    return PagerCmd::Reload(self.current_document.local_path.clone());
                }
                let mut cmd = PagerCmd::Nothing;
                if eq_str(&k, "home") || eq_str(&k, "g") {
                    self.viewport.goto_top();
                } else if eq_str(&k, "end") || eq_str(&k, "G") {
                    self.viewport.goto_bottom();
                } else if eq_str(&k, "d") {
                    self.viewport.half_page_down();
                } else if eq_str(&k, "u") {
                    self.viewport.half_page_up();
                } else if eq_str(&k, "c") {
                    self.state = PagerState::StatusMessage;
                    self.status_message = "Copied contents".to_string();
                    cmd = PagerCmd::Copy(self.current_document.body.clone());
                    assert(cmd matches PagerCmd::Copy(t) && t@ == old(self).current_document.body@);
                } else if eq_str(&k, "?") {
                    self.toggle_help(common);
                }
                let ghost mid = self.viewport.state();
                proof {
                    if k@ != "?"@ {
                        assert(mid == pager_key_view(v0, k@));
                    } else {
                        let q = k@;
                        assert(q.len() == 1 && q[0] == '?');
                        assert(q != "f"@) by { assert("f"@[0] == 'f'); }
                        assert(q != "b"@) by { assert("b"@[0] == 'b'); }
                        assert(q != "d"@) by { assert("d"@[0] == 'd'); }
                        assert(q != "u"@) by { assert("u"@[0] == 'u'); }
                        assert(q != "j"@) by { assert("j"@[0] == 'j'); }
                        assert(q != "k"@) by { assert("k"@[0] == 'k'); }
                        assert(q != "h"@) by { assert("h"@[0] == 'h'); }
                        assert(q != "l"@) by { assert("l"@[0] == 'l'); }
                        assert(key_action(k@) == Action::Nothing);
                    }
                    assert(mid.y_offset <= v0.y_offset || mid.y_offset <= mid.lines.len());
                    assert(max_x(mid) <= mid.longest);
                }
                self.viewport.update_key(key.as_str());
                assert(k@ == "c"@ ==> (cmd matches PagerCmd::Copy(t) && t@ == old(self).current_document.body@));
                cmd
            },
            PagerMsg::ContentRendered(s) => {
                self.set_content(s.as_str());
                PagerCmd::WatchFile
            },
            PagerMsg::Reload => PagerCmd::Reload(self.current_document.local_path.clone()),
            PagerMsg::EditorFinished => PagerCmd::Reload(self.current_document.local_path.clone()),
            PagerMsg::WindowSize => PagerCmd::Render,
            PagerMsg::StatusMessageTimeout => {
                self.state = PagerState::Browse;
                PagerCmd::Nothing
            },
            PagerMsg::Other => PagerCmd::Nothing,
        }
    }

    /// Clears the pager for the next document: the help closes, the
    /// message goes, and the viewport is emptied and scrolled to the top.
    pub fn unload(&mut self, common: &CommonModel)
        requires
            styles_ok(common.styles.view()),
        ensures
            !final(self).show_help,
            final(self).state == PagerState::Browse,
            final(self).viewport.state().lines == content_lines(Seq::empty()),
            final(self).viewport.state().y_offset == 0,
            final(self).status_message == old(self).status_message,
            final(self).current_document == old(self).current_document,
    {
        if self.show_help {
            self.toggle_help(common);
        }
        self.state = PagerState::Browse;
        proof {
            reveal_strlit("");
        }
        self.viewport.set_content("");
        self.viewport.set_y_offset(0);
    }

    /// The one-line status bar, for a scroll position of `percent` (the
    /// fraction `Model::scroll_fraction` gives, as a rounded percentage).
    pub fn status_bar_view(&self, common: &CommonModel, b: &mut String, percent: u64)
        requires
            styles_ok(common.styles.view()),
        ensures
            final(b)@ == old(b)@ + status_bar_spec(self, common.styles.view(), common.width as int, percent as nat),
    {
        let styles = &common.styles;
        let ghost parts = bar_parts(self, styles.view(), common.width as int, percent as nat);
        let message = self.state == PagerState::StatusMessage;
        let logo = styles.logo_style.render(" Glow ");
        let d = decimal_of(percent);
        let mut label: Vec<char> = Vec::new();
        label.push(' ');
        if d.len() < 3 {
            let sp = repeat_char(' ', 3 - d.len());
            extend_chars(&mut label, &sp);
        }
        extend_chars(&mut label, &d);
        extend_str(&mut label, "% ");
        assert(label@ =~= percent_label(percent as nat));
        let label_s = string_of(&label);
        let pct = if message {
            styles.status_bar_message_scroll_pos_style.render(label_s.as_str())
        } else {
            styles.status_bar_scroll_pos_style.render(label_s.as_str())
        };
        let help = if message {
            styles.status_bar_message_help_style.render(" ? Help ")
        } else {
            styles.status_bar_help_style.render(" ? Help ")
        };
        let mut text: Vec<char> = Vec::new();
        text.push(' ');
        if message {
            extend_str(&mut text, self.status_message.as_str());
        } else {
            extend_str(&mut text, self.current_document.note.as_str());
        }
        text.push(' ');
        assert(text@ =~= seq![' '] + (if message { self.status_message@ } else { self.current_document.note@ }) + seq![' ']);
        let lw = string_width(logo.as_str());
        let pw = string_width(pct.as_str());
        let hw = string_width(help.as_str());
        let room = common.width.saturating_sub(lw).saturating_sub(pw).saturating_sub(hw);
        let text_s = string_of(&text);
        let cut = truncate_with_tail(text_s.as_str(), room, ELLIPSIS);
        let note = if message {
            styles.status_bar_message_style.render(cut.as_str())
        } else {
            styles.status_bar_note_style.render(cut.as_str())
        };
        let nw = string_width(note.as_str());
        let padding = common.width.saturating_sub(lw).saturating_sub(nw).saturating_sub(pw).saturating_sub(hw);
        let spaces = string_of(&repeat_char(' ', padding));
        let space = if message {
            styles.status_bar_message_style.render(spaces.as_str())
        } else {
            styles.status_bar_note_style.render(spaces.as_str())
        };
        proof {
            reveal_strlit(" Glow ");
            reveal_strlit(" ? Help ");
            reveal_strlit("% ");
            reveal_strlit("…");
        }
        assert(logo@ == parts.logo && pct@ == parts.percent && help@ == parts.help);
        assert(cut@ == truncate_spec(seq![' '] + (if message { self.status_message@ } else { self.current_document.note@ }) + seq![' '], minus(minus(minus(common.width as int, sw(logo@)), sw(pct@)), sw(help@)), "…"@));
        assert(note@ == parts.note);
        assert(space@ == parts.space);
        let mut out: Vec<char> = Vec::new();
        extend_str(&mut out, logo.as_str());
        extend_str(&mut out, note.as_str());
        extend_str(&mut out, space.as_str());
        extend_str(&mut out, pct.as_str());
        extend_str(&mut out, help.as_str());
        push_chars(b, &out);
    }

    /// Renders the viewport, the status bar and, when open, the help.
    pub fn view(&self, common: &CommonModel, percent: u64) -> (r: String)
        requires
            styles_ok(common.styles.view()),
            self.viewport.state().x_offset + self.viewport.state().width <= usize::MAX,
            self.viewport.state().width <= i64::MAX,
        ensures
            r@ == view_spec(self.viewport.state()) + seq!['\n'] + status_bar_spec(
                self,
                common.styles.view(),
                common.width as int,
                percent as nat,
            ) + if self.show_help {
                seq!['\n'] + pager_help_spec(common.styles.view(), common.width as int)
            } else {
                Seq::empty()
            },
    {
        let mut b = self.viewport.view();
        let mut nl: Vec<char> = Vec::new();
        nl.push('\n');
        push_chars(&mut b, &nl);
        self.status_bar_view(common, &mut b, percent);
        if self.show_help {
            push_chars(&mut b, &nl);
            let h = self.help_view(common);
            push_chars(&mut b, &chars_of(h.as_str()));
        }
        b
    }

    /// The directory holding the current document, or `.` when its path
    /// has none.
    pub fn local_dir(&self) -> (r: String)
        ensures
            r@ == match parent_of(self.current_document.local_path@) {
                Some(p) => p,
                None => "."@,
            },
    {
        match path_parent(self.current_document.local_path.as_str()) {
            Some(p) => p,
            None => ".".to_owned(),
        }
    }
}

} // verus!
