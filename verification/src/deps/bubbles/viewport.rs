//! The scrolling viewport: a window of a given size onto lines of content.
use vstd::prelude::*;
use crate::deps::ansi::{string_width, truncate_spec, truncate_with_tail};
use crate::deps::glamour::table::sw;
use crate::deps::lipgloss::{render_spec, Style, StyleModel};
use crate::text::{
    chars_of, contains_char, eq_str, has_char, join, join_chars, replace_all, replace_pat, split,
    split_chars, string_of,
};

verus! {

broadcast use vstd::string::group_string_axioms;

/// The viewport model. Soft wrapping and height filling are off, and the
/// style is empty.
#[derive(Debug, Clone)]
pub struct Model {
    width: usize,
    height: usize,
    y_offset: usize,
    x_offset: usize,
    horizontal_step: usize,
    lines: Vec<String>,
    longest_line_width: usize,
}

/// What a viewport is.
pub struct ViewportView {
    pub width: nat,
    pub height: nat,
    pub y_offset: nat,
    pub x_offset: nat,
    pub step: nat,
    pub lines: Seq<Seq<char>>,
    pub longest: nat,
}

impl Model {
    /// What the viewport is.
    pub closed spec fn state(&self) -> ViewportView {
        ViewportView {
            width: self.width as nat,
            height: self.height as nat,
            y_offset: self.y_offset as nat,
            x_offset: self.x_offset as nat,
            step: self.horizontal_step as nat,
            lines: self.lines@.map_values(|l: String| l@),
            longest: self.longest_line_width as nat,
        }
    }
}

/// The furthest the viewport can scroll down.
pub open spec fn max_y(v: ViewportView) -> nat {
    if v.lines.len() > v.height {
        (v.lines.len() - v.height) as nat
    } else {
        0
    }
}

/// The furthest the viewport can scroll right.
pub open spec fn max_x(v: ViewportView) -> nat {
    if v.longest > v.width {
        (v.longest - v.width) as nat
    } else {
        0
    }
}

/// The vertical offset set to `n`, clamped to the content.
pub open spec fn set_y_spec(v: ViewportView, n: int) -> ViewportView {
    ViewportView { y_offset: if n < max_y(v) { n as nat } else { max_y(v) }, ..v }
}

/// The horizontal offset set to `n`, clamped to the content.
pub open spec fn set_x_spec(v: ViewportView, n: int) -> ViewportView {
    ViewportView {
        x_offset: if n < 0 {
            0
        } else if n > max_x(v) {
            max_x(v)
        } else {
            n as nat
        },
        ..v
    }
}

/// Whether the viewport is at or past the bottom.
pub open spec fn at_bottom_spec(v: ViewportView) -> bool {
    v.y_offset >= max_y(v)
}

/// Scrolled down `n` lines.
pub open spec fn scroll_down_spec(v: ViewportView, n: int) -> ViewportView {
    if at_bottom_spec(v) || n == 0 || v.lines.len() == 0 {
        v
    } else {
        set_y_spec(v, v.y_offset + n)
    }
}

/// Scrolled up `n` lines.
pub open spec fn scroll_up_spec(v: ViewportView, n: int) -> ViewportView {
    if v.y_offset == 0 || n == 0 || v.lines.len() == 0 {
        v
    } else {
        set_y_spec(v, if v.y_offset > n { v.y_offset - n } else { 0 })
    }
}

/// What a key does to the viewport.
pub enum Action {
    PageDown,
    PageUp,
    HalfDown,
    HalfUp,
    Down,
    Up,
    Left,
    Right,
    Nothing,
}

/// The action bound to a key.
pub open spec fn key_action(key: Seq<char>) -> Action {
    if key == "pgdown"@ || key == "space"@ || key == "f"@ {
        Action::PageDown
    } else if key == "pgup"@ || key == "b"@ {
        Action::PageUp
    } else if key == "d"@ || key == "ctrl+d"@ {
        Action::HalfDown
    } else if key == "u"@ || key == "ctrl+u"@ {
        Action::HalfUp
    } else if key == "down"@ || key == "j"@ {
        Action::Down
    } else if key == "up"@ || key == "k"@ {
        Action::Up
    } else if key == "left"@ || key == "h"@ {
        Action::Left
    } else if key == "right"@ || key == "l"@ {
        Action::Right
    } else {
        Action::Nothing
    }
}

/// The viewport after an action.
pub open spec fn apply(v: ViewportView, a: Action) -> ViewportView {
    match a {
        Action::PageDown => if at_bottom_spec(v) { v } else { scroll_down_spec(v, v.height as int) },
        Action::PageUp => if v.y_offset == 0 { v } else { scroll_up_spec(v, v.height as int) },
        Action::HalfDown => if at_bottom_spec(v) { v } else { scroll_down_spec(v, (v.height / 2) as int) },
        Action::HalfUp => if v.y_offset == 0 { v } else { scroll_up_spec(v, (v.height / 2) as int) },
        Action::Down => scroll_down_spec(v, 1),
        Action::Up => scroll_up_spec(v, 1),
        Action::Left => set_x_spec(v, v.x_offset - v.step),
        Action::Right => set_x_spec(v, (v.x_offset + v.step) as int),
        Action::Nothing => v,
    }
}

/// One line of content, with any carriage-return line ending made a line
/// ending of its own.
pub open spec fn line_pieces(l: Seq<char>) -> Seq<Seq<char>> {
    if has_char(l, '\r') || has_char(l, '\n') {
        split(replace_pat(l, seq!['\r', '\n'], seq!['\n']), '\n')
    } else {
        seq![l]
    }
}

/// The pieces of the first `n` lines.
pub open spec fn expand_lines(parts: Seq<Seq<char>>, n: int) -> Seq<Seq<char>>
    decreases n,
{
    if n <= 0 {
        Seq::empty()
    } else {
        expand_lines(parts, n - 1) + line_pieces(parts[n - 1])
    }
}

/// The lines of `s`; a single blank line is no content at all.
pub open spec fn content_lines(s: Seq<char>) -> Seq<Seq<char>> {
    let parts = split(s, '\n');
    if parts.len() == 1 && sw(parts[0]) == 0 {
        Seq::empty()
    } else {
        expand_lines(parts, parts.len() as int)
    }
}

/// The widest of the first `n` lines.
pub open spec fn longest_of(lines: Seq<Seq<char>>, n: int) -> nat
    decreases n,
{
    if n <= 0 {
        0
    } else {
        let m = longest_of(lines, n - 1);
        if sw(lines[n - 1]) > m {
            sw(lines[n - 1]) as nat
        } else {
            m
        }
    }
}

/// The viewport with new content.
pub open spec fn set_content_spec(v: ViewportView, s: Seq<char>) -> ViewportView {
    let lines = content_lines(s);
    let w = ViewportView { lines, longest: longest_of(lines, lines.len() as int), ..v };
    if w.y_offset > max_y(w) {
        set_y_spec(w, max_y(w) as int)
    } else {
        w
    }
}

/// The lines on screen.
pub open spec fn visible_spec(v: ViewportView) -> Seq<Seq<char>> {
    if v.height == 0 || v.width == 0 {
        Seq::empty()
    } else {
        let top = if v.y_offset < v.lines.len() { v.y_offset as int } else { v.lines.len() as int };
        let bottom = if top + v.height < v.lines.len() { top + v.height } else { v.lines.len() as int };
        let ls = v.lines.subrange(top, bottom);
        if v.x_offset == 0 && v.longest <= v.width {
            ls
        } else {
            ls.map_values(|l: Seq<char>| truncate_spec(l, (v.x_offset + v.width) as int, Seq::empty()))
        }
    }
}

/// The empty style with a width and a height.
pub open spec fn box_style(width: nat, height: nat) -> StyleModel {
    StyleModel {
        value: Seq::empty(),
        fg: None,
        bg: None,
        bold: false,
        italic: false,
        underline: false,
        strikethrough: false,
        reverse: false,
        width,
        height,
        padding_left: 0,
        padding_right: 0,
        margin_right: 0,
        max_width: 0,
        has_props: true,
    }
}

/// The viewport rendered, padded to its width and height.
pub open spec fn view_spec(v: ViewportView) -> Seq<char> {
    if v.width == 0 || v.height == 0 {
        Seq::empty()
    } else {
        render_spec(box_style(v.width, v.height), join(visible_spec(v), seq!['\n']))
    }
}

impl Model {
    /// A viewport with the default key handling: no size, no content, and a
    /// horizontal step of six columns.
    pub fn new() -> (r: Model)
        ensures
            r.state() == (ViewportView {
                width: 0,
                height: 0,
                y_offset: 0,
                x_offset: 0,
                step: 6,
                lines: Seq::empty(),
                longest: 0,
            }),
    {
        let m = Model {
            width: 0,
            height: 0,
            y_offset: 0,
            x_offset: 0,
            horizontal_step: 6,
            lines: Vec::new(),
            longest_line_width: 0,
        };
        assert(m.state().lines =~= Seq::<Seq<char>>::empty());
        m
    }

    /// The viewport's height.
    pub fn height(&self) -> (r: usize)
        ensures
            r == self.state().height,
    {
        self.height
    }

    /// Sets the viewport's height.
    pub fn set_height(&mut self, h: usize)
        ensures
            final(self).state() == (ViewportView { height: h as nat, ..old(self).state() }),
    {
        self.height = h;
    }

    /// The viewport's width.
    pub fn width(&self) -> (r: usize)
        ensures
            r == self.state().width,
    {
        self.width
    }

    /// Sets the viewport's width.
    pub fn set_width(&mut self, w: usize)
        ensures
            final(self).state() == (ViewportView { width: w as nat, ..old(self).state() }),
    {
        self.width = w;
    }

    /// Whether the viewport is at the very top.
    pub fn at_top(&self) -> (r: bool)
        ensures
            r == (self.state().y_offset == 0),
    {
        self.y_offset == 0
    }

    /// Whether the viewport is at or past the bottom.
    pub fn at_bottom(&self) -> (r: bool)
        ensures
            r == at_bottom_spec(self.state()),
    {
        self.y_offset >= self.max_y_offset()
    }

    /// Whether the viewport is scrolled past the last line.
    pub fn past_bottom(&self) -> (r: bool)
        ensures
            r == (self.state().y_offset > max_y(self.state())),
    {
        self.y_offset > self.max_y_offset()
    }

    /// How far down the content the viewport is, as a fraction: `(1, 1)`
    /// when everything fits, else the offset over the scrollable distance.
    /// The scroll percentage is this fraction clamped to `0..=1`.
    pub fn scroll_fraction(&self) -> (r: (usize, usize))
        ensures
            self.state().height >= self.state().lines.len() ==> r == (1usize, 1usize),
            self.state().height < self.state().lines.len() ==> r.0 == self.state().y_offset && r.1 == self.state().lines.len() - self.state().height,
    {
        let total = self.lines.len();
        if self.height >= total {
            return (1, 1);
        }
        (self.y_offset, total - self.height)
    }

    /// Replaces the content, splitting it into lines; scrolls back up when
    /// the old offset is past the new bottom.
    pub fn set_content(&mut self, s: &str)
        ensures
            final(self).state() == set_content_spec(old(self).state(), s@),
    {
        let cs = chars_of(s);
        let parts = split_chars(&cs, '\n');
        let ghost pv = parts@.map_values(|p: Vec<char>| p@);
        let mut lines: Vec<String> = Vec::new();
        let single_blank = parts.len() == 1 && crate::deps::ansi::chars_width(&parts[0]) == 0;
        proof {
            if parts.len() == 1 {
                assert(pv[0] == parts@[0]@);
            }
        }
        if !single_blank {
            let mut i: usize = 0;
            assert(lines@.map_values(|l: String| l@) =~= expand_lines(pv, 0));
            while i < parts.len()
                invariant
                    i <= parts.len(),
                    pv == parts@.map_values(|p: Vec<char>| p@),
                    lines@.map_values(|l: String| l@) == expand_lines(pv, i as int),
                decreases parts.len() - i,
            {
                let line = &parts[i];
                assert(pv[i as int] == line@);
                let ghost before = lines@.map_values(|l: String| l@);
                if contains_char(line, '\r') || contains_char(line, '\n') {
                    let mut crlf: Vec<char> = Vec::new();
                    crlf.push('\r');
                    crlf.push('\n');
                    let mut lf: Vec<char> = Vec::new();
                    lf.push('\n');
                    assert(crlf@ =~= seq!['\r', '\n']);
                    assert(lf@ =~= seq!['\n']);
                    let normalised = replace_all(line, &crlf, &lf);
                    let pieces = split_chars(&normalised, '\n');
                    let ghost pp = pieces@.map_values(|p: Vec<char>| p@);
                    let mut k: usize = 0;
                    while k < pieces.len()
                        invariant
                            k <= pieces.len(),
                            pp == pieces@.map_values(|p: Vec<char>| p@),
                            lines@.map_values(|l: String| l@) == before + pp.take(k as int),
                        decreases pieces.len() - k,
                    {
                        let ghost b2 = lines@.map_values(|l: String| l@);
                        let piece = string_of(&pieces[k]);
                        lines.push(piece);
                        assert(lines@.map_values(|l: String| l@) =~= b2.push(pieces@[k as int]@));
                        k += 1;
                        assert(lines@.map_values(|l: String| l@) =~= before + pp.take(k as int));
                    }
                    assert(pp.take(k as int) =~= pp);
                } else {
                    let piece = string_of(line);
                    lines.push(piece);
                    assert(lines@.map_values(|l: String| l@) =~= before + seq![pv[i as int]]);
                }
                i += 1;
            }
        } else {
            assert(lines@.map_values(|l: String| l@) =~= Seq::<Seq<char>>::empty());
        }
        let ghost lv = lines@.map_values(|l: String| l@);
        assert(lv == content_lines(s@));
        let mut longest: usize = 0;
        let mut j: usize = 0;
        while j < lines.len()
            invariant
                j <= lines.len(),
                lv == lines@.map_values(|l: String| l@),
                longest == longest_of(lv, j as int),
            decreases lines.len() - j,
        {
            let w = string_width(lines[j].as_str());
            assert(lv[j as int] == lines@[j as int]@);
            if w > longest {
                longest = w;
            }
            j += 1;
        }
        self.longest_line_width = longest;
        self.lines = lines;
        if self.y_offset > self.max_y_offset() {
            self.goto_bottom();
        }
    }

    /// The total number of lines, visible or not.
    pub fn total_line_count(&self) -> (r: usize)
        ensures
            r == self.state().lines.len(),
    {
        self.lines.len()
    }

    fn max_y_offset(&self) -> (r: usize)
        ensures
            r == max_y(self.state()),
    {
        if self.lines.len() > self.height {
            self.lines.len() - self.height
        } else {
            0
        }
    }

    fn max_x_offset(&self) -> (r: usize)
        ensures
            r == max_x(self.state()),
    {
        if self.longest_line_width > self.width {
            self.longest_line_width - self.width
        } else {
            0
        }
    }

    /// The current vertical scroll position.
    pub fn y_offset(&self) -> (r: usize)
        ensures
            r == self.state().y_offset,
    {
        self.y_offset
    }

    /// Sets the vertical scroll position, clamped to the content.
    pub fn set_y_offset(&mut self, n: usize)
        ensures
            final(self).state() == set_y_spec(old(self).state(), n as int),
    {
        let m = self.max_y_offset();
        self.y_offset = if n < m {
            n
        } else {
            m
        };
    }

    fn set_x_offset(&mut self, n: i64)
        requires
            max_x(old(self).state()) <= i64::MAX,
        ensures
            final(self).state() == set_x_spec(old(self).state(), n as int),
    {
        let m = self.max_x_offset() as i64;
        self.x_offset = if n < 0 {
            0
        } else if n > m {
            m as usize
        } else {
            n as usize
        };
    }

    /// Scrolls to the top.
    pub fn goto_top(&mut self)
        ensures
            final(self).state() == (if old(self).state().y_offset == 0 { old(self).state() } else { set_y_spec(old(self).state(), 0) }),
    {
        if self.at_top() {
            return;
        }
        self.set_y_offset(0);
    }

    /// Scrolls to the bottom.
    pub fn goto_bottom(&mut self)
        ensures
            final(self).state() == set_y_spec(old(self).state(), max_y(old(self).state()) as int),
    {
        let m = self.max_y_offset();
        self.set_y_offset(m);
    }

    /// Scrolls down by a whole viewport.
    pub fn page_down(&mut self)
        requires
            old(self).state().y_offset + old(self).state().height <= usize::MAX,
        ensures
            final(self).state() == apply(old(self).state(), Action::PageDown),
    {
        if self.at_bottom() {
            return;
        }
        let h = self.height;
        self.scroll_down(h);
    }

    /// Scrolls up by a whole viewport.
    pub fn page_up(&mut self)
        ensures
            final(self).state() == apply(old(self).state(), Action::PageUp),
    {
        if self.at_top() {
            return;
        }
        let h = self.height;
        self.scroll_up(h);
    }

    /// Scrolls down by half a viewport.
    pub fn half_page_down(&mut self)
        requires
            old(self).state().y_offset + old(self).state().height <= usize::MAX,
        ensures
            final(self).state() == apply(old(self).state(), Action::HalfDown),
    {
        if self.at_bottom() {
            return;
        }
        let h = self.height / 2;
        self.scroll_down(h);
    }

    /// Scrolls up by half a viewport.
    pub fn half_page_up(&mut self)
        ensures
            final(self).state() == apply(old(self).state(), Action::HalfUp),
    {
        if self.at_top() {
            return;
        }
        let h = self.height / 2;
        self.scroll_up(h);
    }

    /// Scrolls down `n` lines.
    pub fn scroll_down(&mut self, n: usize)
        requires
            old(self).state().y_offset + n <= usize::MAX,
        ensures
            final(self).state() == scroll_down_spec(old(self).state(), n as int),
    {
        if self.at_bottom() || n == 0 || self.lines.len() == 0 {
            return;
        }
        let y = self.y_offset + n;
        self.set_y_offset(y);
    }

    /// Scrolls up `n` lines.
    pub fn scroll_up(&mut self, n: usize)
        ensures
            final(self).state() == scroll_up_spec(old(self).state(), n as int),
    {
        if self.at_top() || n == 0 || self.lines.len() == 0 {
            return;
        }
        let y = if self.y_offset > n {
            self.y_offset - n
        } else {
            0
        };
        self.set_y_offset(y);
    }

    /// The lines that are currently on screen, cut to the width when the
    /// content is scrolled sideways or too wide.
    pub fn visible_lines(&self) -> (r: Vec<String>)
        requires
            self.state().x_offset + self.state().width <= usize::MAX,
        ensures
            r@.map_values(|l: String| l@) == visible_spec(self.state()),
    {
        let mut out: Vec<String> = Vec::new();
        if self.height == 0 || self.width == 0 {
            assert(out@.map_values(|l: String| l@) =~= visible_spec(self.state()));
            return out;
        }
        let ghost v = self.state();
        let n = self.lines.len();
        let top = if self.y_offset < n {
            self.y_offset
        } else {
            n
        };
        let bottom = if self.height < n - top {
            top + self.height
        } else {
            n
        };
        let cut = !(self.x_offset == 0 && self.longest_line_width <= self.width);
        let none = String::new();
        proof {
            reveal_strlit("");
        }
        let ghost ls = v.lines.subrange(top as int, bottom as int);
        let mut i: usize = top;
        while i < bottom
            invariant
                top <= i <= bottom <= n,
                n == self.lines.len(),
                v == self.state(),
                none@ == Seq::<char>::empty(),
                ls == v.lines.subrange(top as int, bottom as int),
                cut == !(v.x_offset == 0 && v.longest <= v.width),
                v.x_offset + v.width <= usize::MAX,
                out@.map_values(|l: String| l@) == (if cut {
                    ls.map_values(|l: Seq<char>| truncate_spec(l, (v.x_offset + v.width) as int, Seq::empty()))
                } else {
                    ls
                }).take(i - top),
            decreases bottom - i,
        {
            let ghost before = out@.map_values(|l: String| l@);
            assert(v.lines[i as int] == self.lines@[i as int]@);
            assert(ls[i - top] == v.lines[i as int]);
            let line = if cut {
                truncate_with_tail(self.lines[i].as_str(), self.x_offset + self.width, none.as_str())
            } else {
                self.lines[i].clone()
            };
            let ghost lv = line@;
            out.push(line);
            assert(out@.map_values(|l: String| l@) =~= before.push(lv));
            i += 1;
            assert(out@.map_values(|l: String| l@) =~= (if cut {
                ls.map_values(|l: Seq<char>| truncate_spec(l, (v.x_offset + v.width) as int, Seq::empty()))
            } else {
                ls
            }).take(i - top));
        }
        assert((if cut {
            ls.map_values(|l: Seq<char>| truncate_spec(l, (v.x_offset + v.width) as int, Seq::empty()))
        } else {
            ls
        }).take(bottom - top) =~= (if cut {
            ls.map_values(|l: Seq<char>| truncate_spec(l, (v.x_offset + v.width) as int, Seq::empty()))
        } else {
            ls
        }));
        out
    }

    /// Handles a key press with the default bindings: paging, half-paging,
    /// line scrolling and sideways scrolling.
    pub fn update_key(&mut self, key: &str)
        requires
            old(self).state().y_offset + old(self).state().height <= usize::MAX,
            old(self).state().y_offset + 1 <= usize::MAX,
            old(self).state().x_offset + old(self).state().step <= i64::MAX,
            max_x(old(self).state()) <= i64::MAX,
        ensures
            final(self).state() == apply(old(self).state(), key_action(key@)),
    {
        let k = chars_of(key);
        if eq_str(&k, "pgdown") || eq_str(&k, "space") || eq_str(&k, "f") {
            self.page_down();
        } else if eq_str(&k, "pgup") || eq_str(&k, "b") {
            self.page_up();
        } else if eq_str(&k, "d") || eq_str(&k, "ctrl+d") {
            self.half_page_down();
        } else if eq_str(&k, "u") || eq_str(&k, "ctrl+u") {
            self.half_page_up();
        } else if eq_str(&k, "down") || eq_str(&k, "j") {
            self.scroll_down(1);
        } else if eq_str(&k, "up") || eq_str(&k, "k") {
            self.scroll_up(1);
        } else if eq_str(&k, "left") || eq_str(&k, "h") {
            let step = self.horizontal_step as i64;
            let x = self.x_offset as i64 - step;
            self.set_x_offset(x);
        } else if eq_str(&k, "right") || eq_str(&k, "l") {
            let step = self.horizontal_step as i64;
            let x = self.x_offset as i64 + step;
            self.set_x_offset(x);
        }
    }

    /// Renders the viewport, padded to its width and height.
    pub fn view(&self) -> (r: String)
        requires
            self.state().x_offset + self.state().width <= usize::MAX,
            self.state().width <= i64::MAX,
        ensures
            r@ == view_spec(self.state()),
    {
        if self.width == 0 || self.height == 0 {
            return String::new();
        }
        let lines = self.visible_lines();
        let mut parts: Vec<Vec<char>> = Vec::new();
        let mut i: usize = 0;
        while i < lines.len()
            invariant
                i <= lines.len(),
                parts@.map_values(|p: Vec<char>| p@) == lines@.map_values(|l: String| l@).take(i as int),
            decreases lines.len() - i,
        {
            let ghost before = parts@.map_values(|p: Vec<char>| p@);
            let c = chars_of(lines[i].as_str());
            let ghost cv = c@;
            parts.push(c);
            assert(parts@.map_values(|p: Vec<char>| p@) =~= before.push(cv));
            i += 1;
            assert(parts@.map_values(|p: Vec<char>| p@) =~= lines@.map_values(|l: String| l@).take(i as int));
        }
        assert(lines@.map_values(|l: String| l@).take(i as int) =~= lines@.map_values(|l: String| l@));
        let mut nl: Vec<char> = Vec::new();
        nl.push('\n');
        assert(nl@ =~= seq!['\n']);
        let joined = join_chars(&parts, &nl);
        let style = Style::new().width(self.width).height(self.height);
        assert(style@ == box_style(self.state().width, self.state().height));
        string_of(&style.render_chars(&joined))
    }
}

/// Scrolling stops at the ends: from an offset within the content, every
/// key leaves the offsets within the content, and new content always pulls
/// the offset back within it.
pub proof fn lemma_scrolling_stays_in_bounds(v: ViewportView, key: Seq<char>, s: Seq<char>)
    ensures
        v.y_offset <= max_y(v) && v.x_offset <= max_x(v) ==> apply(v, key_action(key)).y_offset <= max_y(
            apply(v, key_action(key)),
        ) && apply(v, key_action(key)).x_offset <= max_x(apply(v, key_action(key))),
        set_content_spec(v, s).y_offset <= max_y(set_content_spec(v, s)),
{
}

} // verus!
