//! The single-line text input: editing keys, word motions, and the window
//! of the value kept around the cursor.
use vstd::prelude::*;
use crate::deps::glamour::table::sw;
use crate::deps::lipgloss::{render_spec, Style, StyleModel};
use crate::text::{chars_of, eq_str, extend_chars, is_whitespace, is_whitespace_char, string_of};

verus! {

broadcast use vstd::string::group_string_axioms;

/// Styling for the text input's parts.
#[derive(Debug, Clone)]
pub struct Styles {
    /// The prompt shown before the value.
    pub prompt: Style,
    /// The value itself.
    pub text: Style,
    /// The virtual cursor.
    pub cursor: Style,
}

/// The text input model. The cursor is drawn into the string rather than
/// moved on the terminal, because the input is rendered inside a larger view.
#[derive(Debug, Clone)]
pub struct Model {
    /// Text shown before the value.
    pub prompt: String,
    /// Styling.
    pub styles: Styles,
    value: Vec<char>,
    pos: usize,
    focus: bool,
    blinked: bool,
    width: usize,
    offset: usize,
    offset_right: usize,
}

/// The editable part of a text input.
pub struct TextState {
    pub value: Seq<char>,
    pub pos: int,
    pub focus: bool,
    pub blinked: bool,
    pub width: int,
    pub offset: int,
    pub offset_right: int,
}

impl Model {
    /// The prompt.
    pub closed spec fn prompt_view(&self) -> Seq<char> {
        self.prompt@
    }

    /// The prompt, text and cursor styles.
    pub closed spec fn styles_view(&self) -> (StyleModel, StyleModel, StyleModel) {
        (self.styles.prompt@, self.styles.text@, self.styles.cursor@)
    }

    /// The editable part of the input.
    pub closed spec fn state(&self) -> TextState {
        TextState {
            value: self.value@,
            pos: self.pos as int,
            focus: self.focus,
            blinked: self.blinked,
            width: self.width as int,
            offset: self.offset as int,
            offset_right: self.offset_right as int,
        }
    }
}

/// The character a single-line input holds in place of `c`.
pub open spec fn sanitize_char(c: char) -> char {
    if c == '\t' || c == '\n' || c == '\r' {
        ' '
    } else {
        c
    }
}

/// Tabs and line endings collapsed to spaces.
pub open spec fn sanitize_spec(s: Seq<char>) -> Seq<char> {
    s.map_values(|c: char| sanitize_char(c))
}

/// The display width of one character.
pub open spec fn cw(c: char) -> int {
    sw(seq![c])
}

/// Whether position `i` of `v` holds whitespace; past the end, it does not.
pub open spec fn space_at(v: Seq<char>, i: int) -> bool {
    0 <= i < v.len() && is_whitespace(v[i])
}

/// How many characters from `runes[i]` on fit in `width` columns, given
/// the columns `w` used so far: a character counts while the total stays
/// within one column of the width.
pub open spec fn fit_forward(runes: Seq<char>, width: int, i: int, w: int) -> int
    decreases runes.len() - i,
{
    if i < 0 || i >= runes.len() || w > width {
        i
    } else {
        let w2 = w + cw(runes[i]);
        if w2 <= width + 1 {
            fit_forward(runes, width, i + 1, w2)
        } else {
            i
        }
    }
}

/// Walking back from `runes[i]`, the index the window's left edge stops at.
pub open spec fn fit_backward(runes: Seq<char>, width: int, i: int, w: int) -> int
    decreases i,
{
    if i <= 0 || w >= width {
        i
    } else {
        let w2 = w + cw(runes[i]);
        if w2 <= width {
            fit_backward(runes, width, i - 1, w2)
        } else {
            i
        }
    }
}

/// The window kept around the cursor: the whole value when it fits, or
/// else slid to keep the cursor in view.
pub open spec fn overflow(st: TextState) -> TextState {
    let len = st.value.len() as int;
    if st.width == 0 || sw(st.value) <= st.width {
        TextState { offset: 0, offset_right: len, ..st }
    } else {
        let right = if st.offset_right < len { st.offset_right } else { len };
        if st.pos < st.offset {
            let runes = st.value.subrange(st.pos, len);
            TextState { offset: st.pos, offset_right: st.pos + fit_forward(runes, st.width, 0, 0), ..st }
        } else if st.pos >= right {
            let runes = st.value.take(st.pos);
            let i = fit_backward(runes, st.width, runes.len() - 1, 0);
            let consumed = runes.len() - 1 - i;
            TextState { offset: if st.pos - consumed > 0 { st.pos - consumed } else { 0 }, offset_right: st.pos, ..st }
        } else {
            TextState { offset_right: right, ..st }
        }
    }
}

/// The cursor moved to `p`, clamped to the value, with the window kept
/// around it.
pub open spec fn set_cursor_spec(st: TextState, p: int) -> TextState {
    overflow(TextState { pos: if p < st.value.len() { p } else { st.value.len() as int }, ..st })
}

/// The first phase of a backward word motion: over the spaces before the
/// cursor, from index `i` down.
pub open spec fn back_spaces(st: TextState, i: int) -> (TextState, int)
    decreases i + 1,
{
    if i >= 0 && space_at(st.value, i) {
        back_spaces(set_cursor_spec(st, st.pos - 1), i - 1)
    } else {
        (st, i)
    }
}

/// The second phase of a backward word motion: over the word.
pub open spec fn back_word(st: TextState, i: int) -> TextState
    decreases i + 1,
{
    if i >= 0 && !space_at(st.value, i) {
        back_word(set_cursor_spec(st, st.pos - 1), i - 1)
    } else {
        st
    }
}

/// The cursor moved to the start of the word before it.
pub open spec fn word_backward_spec(st: TextState) -> TextState {
    if st.pos == 0 || st.value.len() == 0 {
        st
    } else {
        let (a, i) = back_spaces(st, st.pos - 1);
        back_word(a, i)
    }
}

/// The first phase of a forward word motion: over the spaces from `i` on.
pub open spec fn fwd_spaces(st: TextState, i: int) -> (TextState, int)
    decreases st.value.len() - i,
{
    if i < st.value.len() && space_at(st.value, i) {
        fwd_spaces(set_cursor_spec(st, st.pos + 1), i + 1)
    } else {
        (st, i)
    }
}

/// The second phase of a forward word motion: over the word.
pub open spec fn fwd_word(st: TextState, i: int) -> TextState
    decreases st.value.len() - i,
{
    if i < st.value.len() && !space_at(st.value, i) {
        fwd_word(set_cursor_spec(st, st.pos + 1), i + 1)
    } else {
        st
    }
}

/// The cursor moved past the end of the word after it.
pub open spec fn word_forward_spec(st: TextState) -> TextState {
    if st.pos >= st.value.len() || st.value.len() == 0 {
        st
    } else {
        let (a, i) = fwd_spaces(st, st.pos);
        fwd_word(a, i)
    }
}

/// The spaces before the cursor, deleted backward.
pub open spec fn del_back_spaces(st: TextState) -> TextState
    decreases st.pos,
{
    if space_at(st.value, st.pos) && st.pos > 0 {
        del_back_spaces(set_cursor_spec(st, st.pos - 1))
    } else {
        st
    }
}

/// The word before the cursor, deleted backward; the space that ends the
/// previous word is kept.
pub open spec fn del_back_word(st: TextState) -> TextState
    decreases st.pos,
{
    if st.pos > 0 {
        if !space_at(st.value, st.pos) {
            del_back_word(set_cursor_spec(st, st.pos - 1))
        } else {
            set_cursor_spec(st, st.pos + 1)
        }
    } else {
        st
    }
}

/// The word before the cursor deleted.
pub open spec fn delete_word_backward_spec(st: TextState) -> TextState {
    if st.pos == 0 || st.value.len() == 0 {
        st
    } else {
        let old_pos = st.pos;
        let s = del_back_word(del_back_spaces(set_cursor_spec(st, st.pos - 1)));
        let len = s.value.len() as int;
        TextState {
            value: if old_pos > len {
                s.value.take(s.pos)
            } else {
                s.value.take(s.pos) + s.value.subrange(old_pos, len)
            },
            ..s
        }
    }
}

/// The spaces after the cursor, passed forward.
pub open spec fn del_fwd_spaces(st: TextState) -> TextState
    decreases st.value.len() - st.pos,
{
    if space_at(st.value, st.pos) {
        let s = set_cursor_spec(st, st.pos + 1);
        if s.pos >= s.value.len() {
            s
        } else {
            del_fwd_spaces(s)
        }
    } else {
        st
    }
}

/// The word after the cursor, passed forward.
pub open spec fn del_fwd_word(st: TextState) -> TextState
    decreases st.value.len() - st.pos,
{
    if st.pos < st.value.len() && !space_at(st.value, st.pos) {
        del_fwd_word(set_cursor_spec(st, st.pos + 1))
    } else {
        st
    }
}

/// The word after the cursor deleted.
pub open spec fn delete_word_forward_spec(st: TextState) -> TextState {
    if st.pos >= st.value.len() || st.value.len() == 0 {
        st
    } else {
        let old_pos = st.pos;
        let s = del_fwd_word(del_fwd_spaces(set_cursor_spec(st, st.pos + 1)));
        let len = s.value.len() as int;
        set_cursor_spec(
            TextState { value: s.value.take(old_pos) + s.value.subrange(s.pos, len), ..s },
            old_pos,
        )
    }
}

/// `text` typed at the cursor.
pub open spec fn insert_spec(st: TextState, text: Seq<char>) -> TextState {
    let t = sanitize_spec(text);
    TextState {
        value: st.value.take(st.pos) + t + st.value.subrange(st.pos, st.value.len() as int),
        pos: st.pos + t.len(),
        ..st
    }
}

/// What a key does, before the window is kept around the cursor.
pub open spec fn key_spec(st: TextState, key: Seq<char>, text: Seq<char>) -> TextState {
    let len = st.value.len() as int;
    if key == "alt+backspace"@ || key == "ctrl+w"@ {
        delete_word_backward_spec(st)
    } else if key == "backspace"@ || key == "ctrl+h"@ {
        if len > 0 && st.pos > 0 {
            set_cursor_spec(TextState { value: st.value.remove(st.pos - 1), ..st }, st.pos - 1)
        } else {
            st
        }
    } else if key == "alt+left"@ || key == "ctrl+left"@ || key == "alt+b"@ {
        word_backward_spec(st)
    } else if key == "left"@ || key == "ctrl+b"@ {
        if st.pos > 0 {
            set_cursor_spec(st, st.pos - 1)
        } else {
            st
        }
    } else if key == "alt+right"@ || key == "ctrl+right"@ || key == "alt+f"@ {
        word_forward_spec(st)
    } else if key == "right"@ || key == "ctrl+f"@ {
        if st.pos < len {
            set_cursor_spec(st, st.pos + 1)
        } else {
            st
        }
    } else if key == "home"@ || key == "ctrl+a"@ {
        set_cursor_spec(st, 0)
    } else if key == "delete"@ || key == "ctrl+d"@ {
        if st.pos < len {
            TextState { value: st.value.remove(st.pos), ..st }
        } else {
            st
        }
    } else if key == "end"@ || key == "ctrl+e"@ {
        set_cursor_spec(st, len)
    } else if key == "ctrl+k"@ {
        TextState { value: st.value.take(st.pos), ..st }
    } else if key == "ctrl+u"@ {
        set_cursor_spec(TextState { value: st.value.subrange(st.pos, len), ..st }, 0)
    } else if key == "alt+delete"@ || key == "alt+d"@ {
        delete_word_forward_spec(st)
    } else {
        insert_spec(st, text)
    }
}

/// A key press handled: its effect, the cursor shown again when the value
/// changed, and the window kept around the cursor.
pub open spec fn update_key_spec(st: TextState, key: Seq<char>, text: Seq<char>) -> TextState {
    let s = key_spec(st, key, text);
    overflow(TextState { blinked: if st.value != s.value { false } else { s.blinked }, ..s })
}

/// Whether the cursor is within the value.
pub open spec fn cursor_ok(st: TextState) -> bool {
    0 <= st.pos <= st.value.len()
}

/// The display width of one character.
fn char_width(c: char) -> (r: usize)
    ensures
        r == cw(c),
{
    let mut v: Vec<char> = Vec::new();
    v.push(c);
    assert(v@ =~= seq![c]);
    crate::deps::ansi::chars_width(&v)
}

/// Tabs and line endings collapsed to spaces.
fn sanitize(s: &str) -> (r: Vec<char>)
    ensures
        r@ == sanitize_spec(s@),
{
    let cs = chars_of(s);
    let mut out: Vec<char> = Vec::new();
    let mut i: usize = 0;
    while i < cs.len()
        invariant
            i <= cs.len(),
            cs@ == s@,
            out@ == sanitize_spec(cs@.take(i as int)),
        decreases cs.len() - i,
    {
        let c = cs[i];
        if c == '\t' || c == '\n' || c == '\r' {
            out.push(' ');
        } else {
            out.push(c);
        }
        i += 1;
        assert(out@ =~= sanitize_spec(cs@.take(i as int)));
    }
    assert(cs@.take(i as int) =~= cs@);
    out
}

impl Model {
    /// Keeps the visible window of the value around the cursor.
    fn handle_overflow(&mut self)
        requires
            cursor_ok(old(self).state()),
        ensures
            final(self).state() == overflow(old(self).state()),
            final(self).prompt_view() == old(self).prompt_view(),
            final(self).styles_view() == old(self).styles_view(),
    {
        let ghost st = self.state();
        let len = self.value.len();
        let vw = crate::deps::ansi::chars_width(&self.value);
        if self.width == 0 || vw <= self.width {
            self.offset = 0;
            self.offset_right = len;
            return;
        }
        let right = if self.offset_right < len {
            self.offset_right
        } else {
            len
        };
        self.offset_right = right;
        if self.pos < self.offset {
            let start = self.pos;
            self.offset = start;
            let ghost runes = st.value.subrange(start as int, len as int);
            let mut w: u128 = 0;
            let mut i: usize = 0;
            let n = len - start;
            while i < n && w <= self.width as u128
                invariant
                    i <= n,
                    n == len - start,
                    len == self.value.len(),
                    start <= len,
                    self.value@ == st.value,
                    runes == st.value.subrange(start as int, len as int),
                    w <= self.width as u128 + usize::MAX as u128 + 1,
                    fit_forward(runes, self.width as int, 0, 0) == fit_forward(runes, self.width as int, i as int, w as int),
                decreases n - i, (if w <= self.width as u128 { 1int } else { 0int }),
            {
                let c = self.value[start + i];
                assert(runes[i as int] == c);
                let cwid = char_width(c);
                w = w + cwid as u128;
                if w <= self.width as u128 + 1 {
                    i += 1;
                }
            }
            self.offset_right = start + i;
        } else if self.pos >= right {
            let p = self.pos;
            self.offset_right = p;
            let ghost runes = st.value.take(p as int);
            if p == 0 {
                self.offset = 0;
            } else {
                let mut w: u128 = 0;
                let mut i: usize = p - 1;
                while i > 0 && w < self.width as u128
                    invariant
                        i < p,
                        p <= self.value.len(),
                        self.value@ == st.value,
                        runes == st.value.take(p as int),
                        w <= self.width as u128 + usize::MAX as u128,
                        fit_backward(runes, self.width as int, p - 1, 0) == fit_backward(runes, self.width as int, i as int, w as int),
                    decreases i, (if w < self.width as u128 { 1int } else { 0int }),
                {
                    let c = self.value[i];
                    assert(runes[i as int] == c);
                    let cwid = char_width(c);
                    w = w + cwid as u128;
                    if w <= self.width as u128 {
                        i -= 1;
                    }
                }
                self.offset = i + 1;
            }
        }
        assert(self.state() =~= overflow(st)) by {
            assert(self.value@ == st.value);
        }
    }
}

/// The empty style.
pub open spec fn empty_style() -> StyleModel {
    StyleModel {
        value: Seq::empty(),
        fg: None,
        bg: None,
        bold: false,
        italic: false,
        underline: false,
        strikethrough: false,
        reverse: false,
        width: 0,
        height: 0,
        padding_left: 0,
        padding_right: 0,
        margin_right: 0,
        max_width: 0,
        has_props: false,
    }
}

impl Model {
    /// An empty, blurred input with the `> ` prompt and empty styles.
    pub fn new() -> (r: Model)
        ensures
            r.prompt_view() == "> "@,
            r.styles_view() == (empty_style(), empty_style(), empty_style()),
            r.state() == (TextState {
                value: Seq::empty(),
                pos: 0,
                focus: false,
                blinked: false,
                width: 0,
                offset: 0,
                offset_right: 0,
            }),
    {
        let m = Model {
            prompt: "> ".to_owned(),
            styles: Styles { prompt: Style::new(), text: Style::new(), cursor: Style::new() },
            value: Vec::new(),
            pos: 0,
            focus: false,
            blinked: false,
            width: 0,
            offset: 0,
            offset_right: 0,
        };
        assert(m.state().value =~= Seq::<char>::empty());
        m
    }

    /// The current value.
    pub fn value(&self) -> (r: String)
        ensures
            r@ == self.state().value,
    {
        string_of(&self.value)
    }

    /// Replaces the value, tabs and line endings collapsed to spaces, and
    /// keeps the cursor within it.
    pub fn set_value(&mut self, s: &str)
        requires
            cursor_ok(old(self).state()),
        ensures
            final(self).state() == overflow(TextState {
                value: sanitize_spec(s@),
                pos: if old(self).state().pos > sanitize_spec(s@).len() {
                    sanitize_spec(s@).len() as int
                } else {
                    old(self).state().pos
                },
                ..old(self).state()
            }),
            cursor_ok(final(self).state()),
            final(self).prompt_view() == old(self).prompt_view(),
            final(self).styles_view() == old(self).styles_view(),
    {
        self.value = sanitize(s);
        if self.pos > self.value.len() {
            self.pos = self.value.len();
        }
        self.handle_overflow();
    }

    /// The cursor position, in characters.
    pub fn position(&self) -> (r: usize)
        ensures
            r == self.state().pos,
    {
        self.pos
    }

    /// Moves the cursor, clamped to the value.
    pub fn set_cursor(&mut self, pos: usize)
        ensures
            final(self).state() == set_cursor_spec(old(self).state(), pos as int),
            cursor_ok(final(self).state()),
            final(self).prompt_view() == old(self).prompt_view(),
            final(self).styles_view() == old(self).styles_view(),
    {
        self.pos = if pos < self.value.len() {
            pos
        } else {
            self.value.len()
        };
        self.handle_overflow();
    }

    /// Moves the cursor to the start.
    pub fn cursor_start(&mut self)
        ensures
            final(self).state() == set_cursor_spec(old(self).state(), 0),
            cursor_ok(final(self).state()),
            final(self).prompt_view() == old(self).prompt_view(),
            final(self).styles_view() == old(self).styles_view(),
    {
        self.set_cursor(0);
    }

    /// Moves the cursor to the end.
    pub fn cursor_end(&mut self)
        ensures
            final(self).state() == set_cursor_spec(old(self).state(), old(self).state().value.len() as int),
            cursor_ok(final(self).state()),
            final(self).prompt_view() == old(self).prompt_view(),
            final(self).styles_view() == old(self).styles_view(),
    {
        let n = self.value.len();
        self.set_cursor(n);
    }

    /// Whether the input has focus.
    pub fn focused(&self) -> (r: bool)
        ensures
            r == self.state().focus,
    {
        self.focus
    }

    /// Gives the input focus, with the cursor shown.
    pub fn focus(&mut self)
        ensures
            final(self).state() == (TextState { focus: true, blinked: false, ..old(self).state() }),
            final(self).prompt_view() == old(self).prompt_view(),
            final(self).styles_view() == old(self).styles_view(),
    {
        self.focus = true;
        self.blinked = false;
    }

    /// Takes focus away.
    pub fn blur(&mut self)
        ensures
            final(self).state() == (TextState { focus: false, ..old(self).state() }),
            final(self).prompt_view() == old(self).prompt_view(),
            final(self).styles_view() == old(self).styles_view(),
    {
        self.focus = false;
    }

    /// Empties the input.
    pub fn reset(&mut self)
        ensures
            final(self).state() == set_cursor_spec(TextState { value: Seq::empty(), ..old(self).state() }, 0),
            cursor_ok(final(self).state()),
            final(self).prompt_view() == old(self).prompt_view(),
            final(self).styles_view() == old(self).styles_view(),
    {
        self.value = Vec::new();
        assert(self.value@ =~= Seq::<char>::empty());
        self.set_cursor(0);
    }

    /// The width the value is windowed to.
    pub fn width(&self) -> (r: usize)
        ensures
            r == self.state().width,
    {
        self.width
    }

    /// Sets the width the value is windowed to; a negative width is 0.
    pub fn set_width(&mut self, w: i64)
        requires
            cursor_ok(old(self).state()),
            w <= usize::MAX,
        ensures
            final(self).state() == overflow(TextState { width: if w > 0 { w as int } else { 0 }, ..old(self).state() }),
            cursor_ok(final(self).state()),
            final(self).prompt_view() == old(self).prompt_view(),
            final(self).styles_view() == old(self).styles_view(),
    {
        self.width = if w > 0 {
            w as usize
        } else {
            0
        };
        self.handle_overflow();
    }

    /// Toggles the cursor between its drawn and hidden phases.
    pub fn blink(&mut self)
        ensures
            final(self).state() == (TextState { blinked: !old(self).state().blinked, ..old(self).state() }),
            final(self).prompt_view() == old(self).prompt_view(),
            final(self).styles_view() == old(self).styles_view(),
    {
        self.blinked = !self.blinked;
    }

    /// Whether position `i` of the value holds whitespace; past the end, it
    /// does not.
    fn is_space(&self, i: usize) -> (r: bool)
        ensures
            r == space_at(self.state().value, i as int),
    {
        if i < self.value.len() {
            is_whitespace_char(self.value[i])
        } else {
            false
        }
    }

    /// Types `text` at the cursor.
    fn insert(&mut self, text: &str)
        requires
            cursor_ok(old(self).state()),
        ensures
            final(self).state() == insert_spec(old(self).state(), text@),
            cursor_ok(final(self).state()),
            final(self).prompt_view() == old(self).prompt_view(),
            final(self).styles_view() == old(self).styles_view(),
    {
        let t = sanitize(text);
        let ghost st = self.state();
        let mut k: usize = 0;
        while k < t.len()
            invariant
                k <= t.len(),
                t@ == sanitize_spec(text@),
                self.value@ == st.value.take(st.pos) + t@.take(k as int) + st.value.subrange(st.pos, st.value.len() as int),
                self.pos == st.pos + k,
                cursor_ok(st),
                cursor_ok(self.state()),
                self.prompt_view() == old(self).prompt_view(),
                self.styles_view() == old(self).styles_view(),
                self.focus == st.focus,
                self.blinked == st.blinked,
                self.width == st.width,
                self.offset == st.offset,
                self.offset_right == st.offset_right,
            decreases t.len() - k,
        {
            let ghost before = self.value@;
            let c = t[k];
            self.value.insert(self.pos, c);
            assert(self.value@ == before.insert(self.pos as int, c));
            assert(t@.take(k + 1) =~= t@.take(k as int).push(c));
            assert(self.value@ =~= st.value.take(st.pos) + t@.take(k + 1) + st.value.subrange(st.pos, st.value.len() as int));
            assert(self.pos < self.value.len());
            self.pos = self.pos + 1;
            k += 1;
        }
        assert(t@.take(k as int) =~= t@);
        assert(self.state() =~= insert_spec(st, text@));
    }
}

impl Model {
    /// Moves the cursor to the start of the word before it.
    fn word_backward(&mut self)
        requires
            cursor_ok(old(self).state()),
        ensures
            final(self).state() == word_backward_spec(old(self).state()),
            cursor_ok(final(self).state()),
            final(self).prompt_view() == old(self).prompt_view(),
            final(self).styles_view() == old(self).styles_view(),
    {
        if self.pos == 0 || self.value.len() == 0 {
            return;
        }
        let ghost st = self.state();
        let ghost goal = word_backward_spec(st);
        let mut i: usize = self.pos;
        let ghost (a, ia) = back_spaces(st, st.pos - 1);
        while i > 0 && self.is_space(i - 1)
            invariant
                i <= self.pos,
                self.pos == i,
                cursor_ok(self.state()),
                self.state().value == st.value,
                back_spaces(self.state(), i - 1) == (a, ia),
                self.prompt_view() == old(self).prompt_view(),
                self.styles_view() == old(self).styles_view(),
            decreases i,
        {
            let p = self.pos;
            self.set_cursor(p - 1);
            i -= 1;
        }
        assert(self.state() == a && i - 1 == ia);
        while i > 0 && !self.is_space(i - 1)
            invariant
                i <= self.pos,
                self.pos == i,
                cursor_ok(self.state()),
                self.state().value == st.value,
                back_word(self.state(), i - 1) == goal,
                self.prompt_view() == old(self).prompt_view(),
                self.styles_view() == old(self).styles_view(),
            decreases i,
        {
            let p = self.pos;
            self.set_cursor(p - 1);
            i -= 1;
        }
    }

    /// Moves the cursor past the end of the word after it.
    fn word_forward(&mut self)
        requires
            cursor_ok(old(self).state()),
        ensures
            final(self).state() == word_forward_spec(old(self).state()),
            cursor_ok(final(self).state()),
            final(self).prompt_view() == old(self).prompt_view(),
            final(self).styles_view() == old(self).styles_view(),
    {
        if self.pos >= self.value.len() || self.value.len() == 0 {
            return;
        }
        let ghost st = self.state();
        let ghost goal = word_forward_spec(st);
        let ghost (a, ia) = fwd_spaces(st, st.pos);
        let mut i: usize = self.pos;
        while i < self.value.len() && self.is_space(i)
            invariant
                i == self.pos,
                cursor_ok(self.state()),
                self.state().value == st.value,
                fwd_spaces(self.state(), i as int) == (a, ia),
                self.prompt_view() == old(self).prompt_view(),
                self.styles_view() == old(self).styles_view(),
            decreases self.value.len() - i,
        {
            let p = self.pos;
            self.set_cursor(p + 1);
            i += 1;
        }
        assert(self.state() == a && i == ia);
        while i < self.value.len() && !self.is_space(i)
            invariant
                i == self.pos,
                cursor_ok(self.state()),
                self.state().value == st.value,
                fwd_word(self.state(), i as int) == goal,
                self.prompt_view() == old(self).prompt_view(),
                self.styles_view() == old(self).styles_view(),
            decreases self.value.len() - i,
        {
            let p = self.pos;
            self.set_cursor(p + 1);
            i += 1;
        }
    }
}

impl Model {
    /// Deletes the word before the cursor, keeping the space that ends the
    /// previous word.
    fn delete_word_backward(&mut self)
        requires
            cursor_ok(old(self).state()),
        ensures
            final(self).state() == delete_word_backward_spec(old(self).state()),
            cursor_ok(final(self).state()),
            final(self).prompt_view() == old(self).prompt_view(),
            final(self).styles_view() == old(self).styles_view(),
    {
        if self.pos == 0 || self.value.len() == 0 {
            return;
        }
        let ghost st = self.state();
        let old_pos = self.pos;
        let p = self.pos;
        self.set_cursor(p - 1);
        let ghost s1 = self.state();
        let ghost s2 = del_back_spaces(s1);
        while self.is_space(self.pos)
            invariant
                cursor_ok(self.state()),
                self.state().value == st.value,
                self.pos < old_pos,
                del_back_spaces(self.state()) == s2,
                self.prompt_view() == old(self).prompt_view(),
                self.styles_view() == old(self).styles_view(),
            ensures
                cursor_ok(self.state()),
                self.state().value == st.value,
                self.pos < old_pos,
                self.state() == s2,
                self.prompt_view() == old(self).prompt_view(),
                self.styles_view() == old(self).styles_view(),
            decreases self.pos,
        {
            if self.pos == 0 {
                break;
            }
            let q = self.pos;
            self.set_cursor(q - 1);
        }
        let ghost s3 = del_back_word(s2);
        while self.pos > 0
            invariant_except_break
                self.pos < old_pos,
                del_back_word(self.state()) == s3,
            invariant
                cursor_ok(self.state()),
                self.state().value == st.value,
                self.prompt_view() == old(self).prompt_view(),
                self.styles_view() == old(self).styles_view(),
            ensures
                cursor_ok(self.state()),
                self.state().value == st.value,
                self.pos <= old_pos,
                self.state() == s3,
                self.prompt_view() == old(self).prompt_view(),
                self.styles_view() == old(self).styles_view(),
            decreases self.pos,
        {
            if !self.is_space(self.pos) {
                let q = self.pos;
                self.set_cursor(q - 1);
            } else {
                let q = self.pos;
                self.set_cursor(q + 1);
                break;
            }
        }
        let pos = self.pos;
        let ghost before = self.value@;
        if old_pos > self.value.len() {
            self.value.truncate(pos);
            assert(self.value@ =~= before.take(pos as int));
        } else {
            let mut tail: Vec<char> = Vec::new();
            let mut k: usize = old_pos;
            while k < self.value.len()
                invariant
                    old_pos <= k <= self.value.len(),
                    self.value@ == before,
                    tail@ == before.subrange(old_pos as int, k as int),
                decreases self.value.len() - k,
            {
                tail.push(self.value[k]);
                k += 1;
                assert(tail@ =~= before.subrange(old_pos as int, k as int));
            }
            self.value.truncate(pos);
            extend_chars(&mut self.value, &tail);
            assert(self.value@ =~= before.take(pos as int) + before.subrange(old_pos as int, before.len() as int));
        }
        assert(self.state() =~= delete_word_backward_spec(st));
    }

    /// Deletes the word after the cursor.
    fn delete_word_forward(&mut self)
        requires
            cursor_ok(old(self).state()),
        ensures
            final(self).state() == delete_word_forward_spec(old(self).state()),
            cursor_ok(final(self).state()),
            final(self).prompt_view() == old(self).prompt_view(),
            final(self).styles_view() == old(self).styles_view(),
    {
        if self.pos >= self.value.len() || self.value.len() == 0 {
            return;
        }
        let ghost st = self.state();
        let old_pos = self.pos;
        let p = self.pos;
        self.set_cursor(p + 1);
        let ghost s2 = del_fwd_spaces(self.state());
        while self.is_space(self.pos)
            invariant
                cursor_ok(self.state()),
                self.state().value == st.value,
                old_pos < self.pos,
                del_fwd_spaces(self.state()) == s2,
                self.prompt_view() == old(self).prompt_view(),
                self.styles_view() == old(self).styles_view(),
            ensures
                cursor_ok(self.state()),
                self.state().value == st.value,
                old_pos < self.pos,
                self.state() == s2,
                self.prompt_view() == old(self).prompt_view(),
                self.styles_view() == old(self).styles_view(),
            decreases self.value.len() - self.pos,
        {
            let q = self.pos;
            self.set_cursor(q + 1);
            if self.pos >= self.value.len() {
                break;
            }
        }
        let ghost s3 = del_fwd_word(s2);
        while self.pos < self.value.len()
            invariant
                cursor_ok(self.state()),
                self.state().value == st.value,
                old_pos < self.pos,
                del_fwd_word(self.state()) == s3,
                self.prompt_view() == old(self).prompt_view(),
                self.styles_view() == old(self).styles_view(),
            ensures
                cursor_ok(self.state()),
                self.state().value == st.value,
                old_pos < self.pos,
                self.state() == s3,
                self.prompt_view() == old(self).prompt_view(),
                self.styles_view() == old(self).styles_view(),
            decreases self.value.len() - self.pos,
        {
            if !self.is_space(self.pos) {
                let q = self.pos;
                self.set_cursor(q + 1);
            } else {
                break;
            }
        }
        let pos = self.pos;
        let ghost before = self.value@;
        let mut tail: Vec<char> = Vec::new();
        let mut k: usize = pos;
        while k < self.value.len()
            invariant
                pos <= k <= self.value.len(),
                self.value@ == before,
                tail@ == before.subrange(pos as int, k as int),
            decreases self.value.len() - k,
        {
            tail.push(self.value[k]);
            k += 1;
            assert(tail@ =~= before.subrange(pos as int, k as int));
        }
        self.value.truncate(old_pos);
        extend_chars(&mut self.value, &tail);
        assert(self.value@ =~= before.take(old_pos as int) + before.subrange(pos as int, before.len() as int));
        let ghost s4 = self.state();
        assert(s4 =~= (TextState { value: s3.value.take(old_pos as int) + s3.value.subrange(s3.pos, s3.value.len() as int), ..s3 }));
        self.set_cursor(old_pos);
    }
}

/// Whether the window's edges are in order.
pub open spec fn window_ok(st: TextState) -> bool {
    st.offset <= st.offset_right
}

proof fn lemma_fit_forward(runes: Seq<char>, width: int, i: int, w: int)
    ensures
        fit_forward(runes, width, i, w) >= i,
    decreases runes.len() - i,
{
    if 0 <= i < runes.len() && w <= width && w + cw(runes[i]) <= width + 1 {
        lemma_fit_forward(runes, width, i + 1, w + cw(runes[i]));
    }
}

proof fn lemma_fit_backward(runes: Seq<char>, width: int, i: int, w: int)
    ensures
        fit_backward(runes, width, i, w) <= i,
    decreases i,
{
    if i > 0 && w < width && w + cw(runes[i]) <= width {
        lemma_fit_backward(runes, width, i - 1, w + cw(runes[i]));
    }
}

/// The window kept around the cursor never ends before it starts.
pub proof fn lemma_overflow_window(st: TextState)
    requires
        cursor_ok(st),
    ensures
        window_ok(overflow(st)),
        overflow(st).pos == st.pos,
        overflow(st).value == st.value,
{
    let len = st.value.len() as int;
    lemma_fit_forward(st.value.subrange(st.pos, len), st.width, 0, 0);
    let runes = st.value.take(st.pos);
    lemma_fit_backward(runes, st.width, runes.len() - 1, 0);
}

/// A cursor glyph: plain while blurred or in its hidden phase, reversed
/// otherwise.
pub open spec fn cursor_view_spec(st: TextState, text: StyleModel, cursor: StyleModel, ch: Seq<char>) -> Seq<char> {
    if !st.focus || st.blinked {
        render_spec(text, ch)
    } else {
        render_spec(StyleModel { reverse: true, has_props: true, ..cursor }, ch)
    }
}

/// The input rendered: the prompt, the window of the value with the cursor
/// drawn into it, and padding to the width.
pub open spec fn view_spec(prompt: Seq<char>, styles: (StyleModel, StyleModel, StyleModel), st: TextState) -> Seq<char> {
    let len = st.value.len() as int;
    let lo = if st.offset < len { st.offset } else { len };
    let hi = if st.offset_right < len { st.offset_right } else { len };
    let value = st.value.subrange(lo, hi);
    let pos = if st.pos > st.offset { st.pos - st.offset } else { 0 };
    let head = render_spec(styles.1, value.take(if pos < value.len() { pos } else { value.len() as int }));
    let body = if pos < value.len() {
        head + cursor_view_spec(st, styles.1, styles.2, seq![value[pos]]) + render_spec(
            styles.1,
            value.subrange(pos + 1, value.len() as int),
        )
    } else {
        head + cursor_view_spec(st, styles.1, styles.2, seq![' '])
    };
    let val_width = sw(value);
    let padded = if st.width > 0 && val_width <= st.width {
        let padding = st.width - val_width;
        let padding = if val_width + padding <= st.width && pos < value.len() { padding + 1 } else { padding };
        body + render_spec(styles.1, crate::text::repeat(' ', padding as nat))
    } else {
        body
    };
    render_spec(styles.0, prompt) + padded
}

impl Model {
    /// Handles a key press with the default bindings: editing, cursor and
    /// word motions, line cuts, and typing `text` for any other key.
    pub fn update_key(&mut self, key: &str, text: &str)
        requires
            cursor_ok(old(self).state()),
        ensures
            final(self).state() == update_key_spec(old(self).state(), key@, text@),
            cursor_ok(final(self).state()),
            window_ok(final(self).state()),
            final(self).prompt_view() == old(self).prompt_view(),
            final(self).styles_view() == old(self).styles_view(),
    {
        let ghost st = self.state();
        let mut before: Vec<char> = Vec::new();
        extend_chars(&mut before, &self.value);
        let k = chars_of(key);
        let len = self.value.len();
        if eq_str(&k, "alt+backspace") || eq_str(&k, "ctrl+w") {
            self.delete_word_backward();
        } else if eq_str(&k, "backspace") || eq_str(&k, "ctrl+h") {
            if len > 0 && self.pos > 0 {
                let p = self.pos;
                self.value.remove(p - 1);
                self.set_cursor(p - 1);
            }
        } else if eq_str(&k, "alt+left") || eq_str(&k, "ctrl+left") || eq_str(&k, "alt+b") {
            self.word_backward();
        } else if eq_str(&k, "left") || eq_str(&k, "ctrl+b") {
            if self.pos > 0 {
                let p = self.pos;
                self.set_cursor(p - 1);
            }
        } else if eq_str(&k, "alt+right") || eq_str(&k, "ctrl+right") || eq_str(&k, "alt+f") {
            self.word_forward();
        } else if eq_str(&k, "right") || eq_str(&k, "ctrl+f") {
            if self.pos < len {
                let p = self.pos;
                self.set_cursor(p + 1);
            }
        } else if eq_str(&k, "home") || eq_str(&k, "ctrl+a") {
            self.cursor_start();
        } else if eq_str(&k, "delete") || eq_str(&k, "ctrl+d") {
            if self.pos < len {
                let p = self.pos;
                self.value.remove(p);
            }
        } else if eq_str(&k, "end") || eq_str(&k, "ctrl+e") {
            self.cursor_end();
        } else if eq_str(&k, "ctrl+k") {
            let p = self.pos;
            self.value.truncate(p);
        } else if eq_str(&k, "ctrl+u") {
            let p = self.pos;
            let mut rest: Vec<char> = Vec::new();
            let mut q: usize = p;
            while q < self.value.len()
                invariant
                    p <= q <= self.value.len(),
                    self.value@ == st.value,
                    rest@ == st.value.subrange(p as int, q as int),
                decreases self.value.len() - q,
            {
                rest.push(self.value[q]);
                q += 1;
                assert(rest@ =~= st.value.subrange(p as int, q as int));
            }
            self.value = rest;
            self.set_cursor(0);
        } else if eq_str(&k, "alt+delete") || eq_str(&k, "alt+d") {
            self.delete_word_forward();
        } else {
            self.insert(text);
        }
        let ghost mid = self.state();
        assert(mid == key_spec(st, key@, text@));
        if !crate::text::chars_eq(&before, &self.value) {
            self.blinked = false;
        }
        assert(cursor_ok(self.state()));
        proof {
            lemma_overflow_window(self.state());
        }
        self.handle_overflow();
    }

    /// A cursor glyph for `ch`.
    fn cursor_view(&self, ch: &Vec<char>) -> (r: Vec<char>)
        requires
            crate::deps::lipgloss::geometry_ok(self.styles.text@),
            crate::deps::lipgloss::geometry_ok(self.styles.cursor@),
        ensures
            r@ == cursor_view_spec(self.state(), self.styles.text@, self.styles.cursor@, ch@),
    {
        if !self.focus || self.blinked {
            return self.styles.text.render_chars(ch);
        }
        let st = self.styles.cursor.copy().reverse(true);
        st.render_chars(ch)
    }

    /// Renders the prompt, the windowed value with its cursor, and padding
    /// to the width.
    pub fn view(&self) -> (r: String)
        requires
            window_ok(self.state()),
            self.state().width < usize::MAX,
            crate::deps::lipgloss::geometry_ok(self.styles_view().0),
            crate::deps::lipgloss::geometry_ok(self.styles_view().1),
            crate::deps::lipgloss::geometry_ok(self.styles_view().2),
        ensures
            r@ == view_spec(self.prompt_view(), self.styles_view(), self.state()),
    {
        let len = self.value.len();
        let lo = if self.offset < len {
            self.offset
        } else {
            len
        };
        let hi = if self.offset_right < len {
            self.offset_right
        } else {
            len
        };
        let value = crate::text::slice_chars(&self.value, lo, hi);
        let pos = if self.pos > self.offset {
            self.pos - self.offset
        } else {
            0
        };
        let cut = if pos < value.len() {
            pos
        } else {
            value.len()
        };
        let head = crate::text::slice_chars(&value, 0, cut);
        assert(head@ =~= value@.take(cut as int));
        let mut v = self.styles.text.render_chars(&head);
        if pos < value.len() {
            let mut one: Vec<char> = Vec::new();
            one.push(value[pos]);
            assert(one@ =~= seq![value@[pos as int]]);
            let cv = self.cursor_view(&one);
            extend_chars(&mut v, &cv);
            let rest = crate::text::slice_chars(&value, pos + 1, value.len());
            let rv = self.styles.text.render_chars(&rest);
            extend_chars(&mut v, &rv);
        } else {
            let mut one: Vec<char> = Vec::new();
            one.push(' ');
            assert(one@ =~= seq![' ']);
            let cv = self.cursor_view(&one);
            extend_chars(&mut v, &cv);
        }
        let val_width = crate::deps::ansi::chars_width(&value);
        if self.width > 0 && val_width <= self.width {
            let mut padding = self.width - val_width;
            if val_width + padding <= self.width && pos < value.len() {
                padding += 1;
            }
            let sp = crate::text::repeat_char(' ', padding);
            let pv = self.styles.text.render_chars(&sp);
            extend_chars(&mut v, &pv);
        }
        let pr = chars_of(self.prompt.as_str());
        let mut out = self.styles.prompt.render_chars(&pr);
        extend_chars(&mut out, &v);
        string_of(&out)
    }
}

impl Model {
    /// Sets the prompt.
    pub fn set_prompt(&mut self, prompt: &str)
        ensures
            final(self).prompt_view() == prompt@,
            final(self).styles_view() == old(self).styles_view(),
            final(self).state() == old(self).state(),
    {
        self.prompt = prompt.to_owned();
    }

    /// The prompt's display width.
    pub fn prompt_width(&self) -> (r: usize)
        ensures
            r == sw(self.prompt_view()),
    {
        crate::deps::ansi::string_width(self.prompt.as_str())
    }

    /// Sets the prompt's style.
    pub fn set_prompt_style(&mut self, st: Style)
        ensures
            final(self).prompt_view() == old(self).prompt_view(),
            final(self).styles_view() == (st@, old(self).styles_view().1, old(self).styles_view().2),
            final(self).state() == old(self).state(),
    {
        self.styles.prompt = st;
    }

    /// Sets the cursor's style.
    pub fn set_cursor_style(&mut self, st: Style)
        ensures
            final(self).prompt_view() == old(self).prompt_view(),
            final(self).styles_view() == (old(self).styles_view().0, old(self).styles_view().1, st@),
            final(self).state() == old(self).state(),
    {
        self.styles.cursor = st;
    }
}

} // verus!
