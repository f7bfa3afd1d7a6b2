//! Terminal text styling: SGR colour and attribute rendering, word wrapping,
//! left padding, horizontal alignment, right margins and truncation.
use vstd::prelude::*;
use crate::deps::ansi;
use crate::deps::ansi::{Token, ESC};
use crate::text::{
    chars_of, decimal, decimal_of, digits_value, extend_chars, extend_str, has_prefix,
    is_digit, join, join_chars, parse_u64, parse_u64_spec, repeat, repeat_char, split,
    split_chars, string_of, trim, trim_chars, all_digits, push_char, has_char, lemma_take_push,
};

verus! {

broadcast use vstd::string::group_string_axioms;

/// Ends a styled run: the parameterless form of the reset sequence.
pub open spec fn reset_seq() -> Seq<char> {
    seq![ESC, '[', 'm']
}

/// Terminal colour, as spelled in a stylesheet.
#[derive(Debug, Clone, Copy, PartialEq, Eq, Structural)]
pub enum Color {
    /// One of the 16 basic ANSI colours.
    Basic(u8),
    /// An indexed 256-colour palette entry.
    Ansi256(u8),
    /// A 24-bit RGB colour.
    Rgb(u8, u8, u8),
}

/// The value of a hexadecimal digit.
pub open spec fn hex_value(c: char) -> Option<nat> {
    if '0' <= c <= '9' {
        Some((c as int - 48) as nat)
    } else if 'a' <= c <= 'f' {
        Some((c as int - 87) as nat)
    } else if 'A' <= c <= 'F' {
        Some((c as int - 55) as nat)
    } else {
        None
    }
}

/// `u8::from_str_radix(s, 16)` for a string of one or two characters: an
/// optional `+` followed by at least one hex digit.
pub open spec fn hex_byte(s: Seq<char>) -> Option<u8> {
    let body = if s.len() > 0 && s[0] == '+' { s.skip(1) } else { s };
    if body.len() == 1 {
        match hex_value(body[0]) {
            Some(v) => Some(v as u8),
            None => None,
        }
    } else if body.len() == 2 {
        match (hex_value(body[0]), hex_value(body[1])) {
            (Some(a), Some(b)) => Some((a * 16 + b) as u8),
            _ => None,
        }
    } else {
        None
    }
}

/// Whether every character is ASCII.
pub open spec fn is_ascii(s: Seq<char>) -> bool {
    forall|i: int| 0 <= i < s.len() ==> (#[trigger] s[i] as u32) < 0x80
}

/// `u16` decimal parse bounded to a palette index.
pub open spec fn palette(s: Seq<char>) -> Option<Color> {
    match parse_u64_spec(s) {
        Some(n) => if n > 65535 || n > 255 {
            None
        } else if n < 16 {
            Some(Color::Basic(n as u8))
        } else {
            Some(Color::Ansi256(n as u8))
        },
        None => None,
    }
}

/// How a colour is parsed: `"#rrggbb"`, `"#rgb"` (each digit doubled), or a
/// decimal palette index; anything else has no colour.
pub open spec fn parse_color(raw: Seq<char>) -> Option<Color> {
    let s = trim(raw);
    if s.len() > 0 && s[0] == '#' {
        let h = s.skip(1);
        if !is_ascii(h) {
            None
        } else if h.len() == 6 {
            match (hex_byte(h.subrange(0, 2)), hex_byte(h.subrange(2, 4)), hex_byte(h.subrange(4, 6))) {
                (Some(r), Some(g), Some(b)) => Some(Color::Rgb(r, g, b)),
                _ => None,
            }
        } else if h.len() == 3 {
            match (hex_byte(h.subrange(0, 1)), hex_byte(h.subrange(1, 2)), hex_byte(h.subrange(2, 3))) {
                (Some(r), Some(g), Some(b)) => Some(Color::Rgb((r * 17) as u8, (g * 17) as u8, (b * 17) as u8)),
                _ => None,
            }
        } else {
            None
        }
    } else {
        palette(s)
    }
}

fn hex_digit(c: char) -> (r: Option<u8>)
    ensures
        r matches Some(v) ==> hex_value(c) == Some(v as nat),
        r is None ==> hex_value(c) is None,
{
    if '0' <= c && c <= '9' {
        Some((c as u8) - 48)
    } else if 'a' <= c && c <= 'f' {
        Some((c as u8) - 87)
    } else if 'A' <= c && c <= 'F' {
        Some((c as u8) - 55)
    } else {
        None
    }
}

fn hex_pair(v: &Vec<char>, from: usize, to: usize) -> (r: Option<u8>)
    requires
        from < to <= v.len(),
        to - from <= 2,
    ensures
        r == hex_byte(v@.subrange(from as int, to as int)),
{
    let ghost s = v@.subrange(from as int, to as int);
    let mut a = from;
    if v[a] == '+' {
        a += 1;
    }
    let ghost body = if s.len() > 0 && s[0] == '+' { s.skip(1) } else { s };
    assert(body =~= v@.subrange(a as int, to as int));
    if to - a == 1 {
        match hex_digit(v[a]) {
            Some(x) => Some(x),
            None => None,
        }
    } else if to - a == 2 {
        match (hex_digit(v[a]), hex_digit(v[a + 1])) {
            (Some(x), Some(y)) => Some(x * 16 + y),
            _ => None,
        }
    } else {
        None
    }
}

fn ascii_only(v: &Vec<char>, from: usize) -> (r: bool)
    requires
        from <= v.len(),
    ensures
        r == is_ascii(v@.skip(from as int)),
{
    let mut i = from;
    while i < v.len()
        invariant
            from <= i <= v.len(),
            forall|j: int| from <= j < i ==> (v@[j] as u32) < 0x80,
        decreases v.len() - i,
    {
        if (v[i] as u32) >= 0x80 {
            assert(v@.skip(from as int)[i - from] == v@[i as int]);
            return false;
        }
        i += 1;
    }
    assert forall|k: int| 0 <= k < v@.skip(from as int).len() implies (#[trigger] v@.skip(from as int)[k] as u32) < 0x80 by {
        assert(v@.skip(from as int)[k] == v@[from + k]);
    }
    true
}

impl Color {
    /// Parses a colour: `"#rrggbb"`, `"#rgb"`, or a decimal palette index.
    pub fn parse(s: &str) -> (r: Option<Color>)
        ensures
            r == parse_color(s@),
    {
        let raw = chars_of(s);
        let v = trim_chars(&raw);
        if v.len() > 0 && v[0] == '#' {
            let ghost h = v@.skip(1);
            if !ascii_only(&v, 1) {
                return None;
            }
            if v.len() == 7 {
                assert(v@.subrange(1, 3) =~= h.subrange(0, 2));
                assert(v@.subrange(3, 5) =~= h.subrange(2, 4));
                assert(v@.subrange(5, 7) =~= h.subrange(4, 6));
                match (hex_pair(&v, 1, 3), hex_pair(&v, 3, 5), hex_pair(&v, 5, 7)) {
                    (Some(r), Some(g), Some(b)) => Some(Color::Rgb(r, g, b)),
                    _ => None,
                }
            } else if v.len() == 4 {
                assert(v@.subrange(1, 2) =~= h.subrange(0, 1));
                assert(v@.subrange(2, 3) =~= h.subrange(1, 2));
                assert(v@.subrange(3, 4) =~= h.subrange(2, 3));
                match (hex_pair(&v, 1, 2), hex_pair(&v, 2, 3), hex_pair(&v, 3, 4)) {
                    (Some(r), Some(g), Some(b)) => {
                        assert(r <= 15 && g <= 15 && b <= 15);
                        Some(Color::Rgb(r * 17, g * 17, b * 17))
                    },
                    _ => None,
                }
            } else {
                None
            }
        } else {
            match parse_u64(&v) {
                Some(n) => {
                    if n > 255 {
                        None
                    } else if n < 16 {
                        Some(Color::Basic(n as u8))
                    } else {
                        Some(Color::Ansi256(n as u8))
                    }
                },
                None => None,
            }
        }
    }

    /// The SGR parameters selecting this colour.
    pub fn sgr(&self, background: bool) -> (r: Vec<char>)
        ensures
            r@ == color_sgr(*self, background),
    {
        match *self {
            Color::Basic(n) => {
                let base: u64 = if background {
                    40
                } else {
                    30
                };
                let bright: u64 = if background {
                    100
                } else {
                    90
                };
                if n < 8 {
                    decimal_of(base + n as u64)
                } else {
                    decimal_of(bright + (n - 8) as u64)
                }
            },
            Color::Ansi256(n) => {
                let mut v = decimal_of(if background {
                    48
                } else {
                    38
                });
                v.push(';');
                v.push('5');
                v.push(';');
                let d = decimal_of(n as u64);
                extend_chars(&mut v, &d);
                v
            },
            Color::Rgb(r, g, b) => {
                let mut v = decimal_of(if background {
                    48
                } else {
                    38
                });
                v.push(';');
                v.push('2');
                v.push(';');
                let d = decimal_of(r as u64);
                extend_chars(&mut v, &d);
                v.push(';');
                let d = decimal_of(g as u64);
                extend_chars(&mut v, &d);
                v.push(';');
                let d = decimal_of(b as u64);
                extend_chars(&mut v, &d);
                v
            },
        }
    }
}

/// The SGR parameters of a colour, in the foreground or background slot.
pub open spec fn color_sgr(c: Color, bg: bool) -> Seq<char> {
    let ext = decimal(if bg { 48 } else { 38 });
    match c {
        Color::Basic(n) => if n < 8 {
            decimal(((if bg { 40nat } else { 30nat }) + n) as nat)
        } else {
            decimal(((if bg { 100nat } else { 90nat }) + n - 8) as nat)
        },
        Color::Ansi256(n) => ext + seq![';', '5', ';'] + decimal(n as nat),
        Color::Rgb(r, g, b) => ext + seq![';', '2', ';'] + decimal(r as nat) + seq![';'] + decimal(g as nat)
            + seq![';'] + decimal(b as nat),
    }
}

/// A set of SGR attributes, rendered in the order they were added. An empty
/// set renders its input unchanged.
#[derive(Debug, Clone, PartialEq, Eq)]
pub struct Sgr {
    params: Vec<Vec<char>>,
}

impl View for Sgr {
    type V = Seq<Seq<char>>;

    closed spec fn view(&self) -> Seq<Seq<char>> {
        self.params@.map_values(|p: Vec<char>| p@)
    }
}

/// The escape sequence that enables an attribute list.
pub open spec fn sgr_sequence(params: Seq<Seq<char>>) -> Seq<char> {
    if params.len() == 0 {
        Seq::empty()
    } else {
        seq![ESC, '['] + join(params, seq![';']) + seq!['m']
    }
}

/// Text wrapped in an attribute list, or left alone when the list is empty.
pub open spec fn sgr_styled(params: Seq<Seq<char>>, s: Seq<char>) -> Seq<char> {
    if params.len() == 0 {
        s
    } else {
        sgr_sequence(params) + s + reset_seq()
    }
}

impl Sgr {
    /// A style with no attributes.
    pub fn new() -> (r: Sgr)
        ensures
            r@ == Seq::<Seq<char>>::empty(),
    {
        let r = Sgr { params: Vec::new() };
        assert(r@ =~= Seq::<Seq<char>>::empty());
        r
    }

    /// True when no attribute has been set.
    pub fn is_empty(&self) -> (r: bool)
        ensures
            r == (self@.len() == 0),
    {
        self.params.len() == 0
    }

    fn with(self, p: Vec<char>) -> (r: Sgr)
        ensures
            r@ == self@.push(p@),
    {
        let mut s = self;
        let ghost before = s@;
        s.params.push(p);
        assert(s@ =~= before.push(p@));
        s
    }

    fn with_code(self, c: char) -> (r: Sgr)
        ensures
            r@ == self@.push(seq![c]),
    {
        let mut p: Vec<char> = Vec::new();
        p.push(c);
        assert(p@ =~= seq![c]);
        self.with(p)
    }

    /// Sets the foreground colour.
    pub fn foreground(self, c: &Color) -> (r: Sgr)
        ensures
            r@ == self@.push(color_sgr(*c, false)),
    {
        let p = c.sgr(false);
        self.with(p)
    }

    /// Sets the background colour.
    pub fn background(self, c: &Color) -> (r: Sgr)
        ensures
            r@ == self@.push(color_sgr(*c, true)),
    {
        let p = c.sgr(true);
        self.with(p)
    }

    /// Turns on underline.
    pub fn underline(self) -> (r: Sgr)
        ensures
            r@ == self@.push(seq!['4']),
    {
        self.with_code('4')
    }

    /// Turns on bold.
    pub fn bold(self) -> (r: Sgr)
        ensures
            r@ == self@.push(seq!['1']),
    {
        self.with_code('1')
    }

    /// Turns on italics.
    pub fn italic(self) -> (r: Sgr)
        ensures
            r@ == self@.push(seq!['3']),
    {
        self.with_code('3')
    }

    /// Turns on strikethrough.
    pub fn crossed_out(self) -> (r: Sgr)
        ensures
            r@ == self@.push(seq!['9']),
    {
        self.with_code('9')
    }

    /// Turns on faint.
    pub fn faint(self) -> (r: Sgr)
        ensures
            r@ == self@.push(seq!['2']),
    {
        self.with_code('2')
    }

    /// Turns on conceal.
    pub fn conceal(self) -> (r: Sgr)
        ensures
            r@ == self@.push(seq!['8']),
    {
        self.with_code('8')
    }

    /// Turns on reverse video.
    pub fn inverse(self) -> (r: Sgr)
        ensures
            r@ == self@.push(seq!['7']),
    {
        self.with_code('7')
    }

    /// Turns on blink.
    pub fn blink(self) -> (r: Sgr)
        ensures
            r@ == self@.push(seq!['5']),
    {
        self.with_code('5')
    }

    /// The escape sequence that enables this style.
    pub fn sequence_chars(&self) -> (r: Vec<char>)
        ensures
            r@ == sgr_sequence(self@),
    {
        if self.params.len() == 0 {
            return Vec::new();
        }
        let mut v: Vec<char> = Vec::new();
        v.push(ESC);
        v.push('[');
        let mut sep: Vec<char> = Vec::new();
        sep.push(';');
        assert(sep@ =~= seq![';']);
        let j = join_chars(&self.params, &sep);
        extend_chars(&mut v, &j);
        v.push('m');
        assert(v@ =~= seq![ESC, '['] + join(self@, seq![';']) + seq!['m']);
        v
    }

    /// The escape sequence that enables this style.
    pub fn sequence(&self) -> (r: String)
        ensures
            r@ == sgr_sequence(self@),
    {
        let v = self.sequence_chars();
        string_of(&v)
    }

    /// `s` wrapped in this style.
    pub fn styled_chars(&self, s: &Vec<char>) -> (r: Vec<char>)
        ensures
            r@ == sgr_styled(self@, s@),
    {
        if self.params.len() == 0 {
            let mut r: Vec<char> = Vec::new();
            extend_chars(&mut r, s);
            assert(r@ =~= s@);
            return r;
        }
        let mut v = self.sequence_chars();
        extend_chars(&mut v, s);
        v.push(ESC);
        v.push('[');
        v.push('m');
        assert(v@ =~= sgr_sequence(self@) + s@ + reset_seq());
        v
    }

    /// Wraps `s` in this style, or returns it untouched when the style is empty.
    pub fn styled(&self, s: &str) -> (r: String)
        ensures
            r@ == sgr_styled(self@, s@),
            self@.len() == 0 ==> r@ == s@,
    {
        let v = chars_of(s);
        let out = self.styled_chars(&v);
        string_of(&out)
    }
}

/// Picks between a light and a dark variant.
#[derive(Debug, Clone, Copy)]
pub struct LightDark(pub bool);

impl LightDark {
    /// Returns `dark` when the terminal background is dark, otherwise `light`.
    pub fn pick(&self, light: Color, dark: Color) -> (r: Color)
        ensures
            r == (if self.0 { dark } else { light }),
    {
        if self.0 {
            dark
        } else {
            light
        }
    }
}

} // verus!

verus! {

// ---------------------------------------------------------------------------
// Block styles
// ---------------------------------------------------------------------------

/// The abstract contents of a [`Style`].
pub struct StyleModel {
    pub value: Seq<char>,
    pub fg: Option<Color>,
    pub bg: Option<Color>,
    pub bold: bool,
    pub italic: bool,
    pub underline: bool,
    pub strikethrough: bool,
    pub reverse: bool,
    pub width: nat,
    pub height: nat,
    pub padding_left: nat,
    pub padding_right: nat,
    pub margin_right: nat,
    pub max_width: nat,
    pub has_props: bool,
}

/// A block style: colours plus width, padding, margins and truncation.
#[derive(Debug, Clone)]
pub struct Style {
    value: Vec<char>,
    fg: Option<Color>,
    bg: Option<Color>,
    bold: bool,
    italic: bool,
    underline: bool,
    strikethrough: bool,
    reverse: bool,
    width: usize,
    height: usize,
    padding_left: usize,
    padding_right: usize,
    margin_right: usize,
    max_width: usize,
    has_props: bool,
}

impl View for Style {
    type V = StyleModel;

    closed spec fn view(&self) -> StyleModel {
        StyleModel {
            value: self.value@,
            fg: self.fg,
            bg: self.bg,
            bold: self.bold,
            italic: self.italic,
            underline: self.underline,
            strikethrough: self.strikethrough,
            reverse: self.reverse,
            width: self.width as nat,
            height: self.height as nat,
            padding_left: self.padding_left as nat,
            padding_right: self.padding_right as nat,
            margin_right: self.margin_right as nat,
            max_width: self.max_width as nat,
            has_props: self.has_props,
        }
    }
}

/// A style's geometry fits the signed arithmetic its wrap width uses.
pub open spec fn geometry_ok(m: StyleModel) -> bool {
    m.width <= i64::MAX && m.padding_left + m.padding_right <= i64::MAX
}

/// The attribute list a style renders text with.
pub open spec fn style_params(m: StyleModel) -> Seq<Seq<char>> {
    let a: Seq<Seq<char>> = Seq::empty();
    let a = if m.bold { a.push(seq!['1']) } else { a };
    let a = if m.italic { a.push(seq!['3']) } else { a };
    let a = if m.underline { a.push(seq!['4']) } else { a };
    let a = if m.reverse { a.push(seq!['7']) } else { a };
    let a = match m.fg { Some(c) => a.push(color_sgr(c, false)), None => a };
    let a = match m.bg { Some(c) => a.push(color_sgr(c, true)), None => a };
    if m.strikethrough { a.push(seq!['9']) } else { a }
}

/// The attribute list whitespace is rendered with: the background only.
pub open spec fn whitespace_params(m: StyleModel) -> Seq<Seq<char>> {
    match m.bg {
        Some(c) => seq![color_sgr(c, true)],
        None => Seq::empty(),
    }
}

/// `\r\n` replaced by `\n`.
pub open spec fn strip_crlf(s: Seq<char>) -> Seq<char>
    decreases s.len(),
{
    if s.len() == 0 {
        Seq::empty()
    } else if s[0] == '\r' && s.len() > 1 && s[1] == '\n' {
        strip_crlf(s.skip(1))
    } else {
        seq![s[0]] + strip_crlf(s.skip(1))
    }
}

/// Every line styled.
pub open spec fn styled_lines(lines: Seq<Seq<char>>, params: Seq<Seq<char>>) -> Seq<Seq<char>> {
    lines.map_values(|l: Seq<char>| sgr_styled(params, l))
}

/// `p` put in front of every line.
pub open spec fn prefixed(lines: Seq<Seq<char>>, p: Seq<char>) -> Seq<Seq<char>> {
    lines.map_values(|l: Seq<char>| p + l)
}

/// `p` put after every line.
pub open spec fn suffixed(lines: Seq<Seq<char>>, p: Seq<char>) -> Seq<Seq<char>> {
    lines.map_values(|l: Seq<char>| l + p)
}

/// Every line truncated to `w` columns.
pub open spec fn truncated(lines: Seq<Seq<char>>, w: int) -> Seq<Seq<char>> {
    lines.map_values(|l: Seq<char>| ansi::truncate_spec(l, w, Seq::empty()))
}

/// The widest line.
pub open spec fn widest(lines: Seq<Seq<char>>) -> int
    decreases lines.len(),
{
    if lines.len() == 0 {
        0
    } else {
        let w = ansi::clamp_usize(ansi::width_of(lines.last()) as int) as int;
        let rest = widest(lines.drop_last());
        if w > rest { w } else { rest }
    }
}

/// A line padded on the right to `target` columns.
pub open spec fn pad_line(l: Seq<char>, target: int, ws: Seq<Seq<char>>) -> Seq<char> {
    let w = ansi::clamp_usize(ansi::width_of(l) as int) as int;
    if target <= w {
        l
    } else {
        l + sgr_styled(ws, repeat(' ', (target - w) as nat))
    }
}

/// Every line padded out to `width`, or to the widest line.
pub open spec fn align_left(s: Seq<char>, width: int, ws: Seq<Seq<char>>) -> Seq<char> {
    let lines = split(s, '\n');
    let target = if width > widest(lines) { width } else { widest(lines) };
    join(lines.map_values(|l: Seq<char>| pad_line(l, target, ws)), seq!['\n'])
}

/// The text before styling: the stored string and the argument.
pub open spec fn render_input(m: StyleModel, s: Seq<char>) -> Seq<char> {
    if m.value.len() == 0 {
        s
    } else if s.len() == 0 {
        m.value
    } else {
        m.value + seq![' '] + s
    }
}

/// Applies the line-level steps of rendering: attributes and padding.
pub open spec fn render_lines(m: StyleModel, wrapped: Seq<char>) -> Seq<char> {
    let ws = whitespace_params(m);
    let s1 = join(styled_lines(split(wrapped, '\n'), style_params(m)), seq!['\n']);
    let s2 = if m.padding_left > 0 {
        join(prefixed(split(s1, '\n'), sgr_styled(ws, repeat(' ', m.padding_left))), seq!['\n'])
    } else {
        s1
    };
    if m.padding_right > 0 {
        join(suffixed(split(s2, '\n'), sgr_styled(ws, repeat(' ', m.padding_right))), seq!['\n'])
    } else {
        s2
    }
}

/// Applies the block-level steps of rendering: height, alignment, margin
/// and truncation.
pub open spec fn render_block(m: StyleModel, s2: Seq<char>) -> Seq<char> {
    let ws = whitespace_params(m);
    let n = split(s2, '\n').len();
    let s3 = if m.height > 0 && n < m.height {
        s2 + repeat('\n', (m.height - n) as nat)
    } else {
        s2
    };
    let s4 = if has_char(s3, '\n') || m.width != 0 {
        align_left(s3, m.width as int, ws)
    } else {
        s3
    };
    let s5 = if m.margin_right > 0 {
        join(suffixed(split(s4, '\n'), repeat(' ', m.margin_right)), seq!['\n'])
    } else {
        s4
    };
    if m.max_width > 0 {
        join(truncated(split(s5, '\n'), m.max_width as int), seq!['\n'])
    } else {
        s5
    }
}

/// How a style renders `s`.
pub open spec fn render_spec(m: StyleModel, s: Seq<char>) -> Seq<char> {
    let input = render_input(m, s);
    if !m.has_props {
        input
    } else {
        let s0 = strip_crlf(input);
        let wrapped = if m.width > 0 {
            ansi::wrap_spec(s0, m.width - m.padding_left - m.padding_right, Seq::empty())
        } else {
            s0
        };
        render_block(m, render_lines(m, wrapped))
    }
}

fn strip_crlf_exec(v: &Vec<char>) -> (r: Vec<char>)
    ensures
        r@ == strip_crlf(v@),
{
    let mut out: Vec<char> = Vec::new();
    let mut i: usize = 0;
    assert(v@.skip(0) =~= v@);
    while i < v.len()
        invariant
            i <= v.len(),
            out@ + strip_crlf(v@.skip(i as int)) == strip_crlf(v@),
        decreases v.len() - i,
    {
        let ghost rest = v@.skip(i as int);
        assert(rest.skip(1) =~= v@.skip(i + 1));
        if v[i] == '\r' && i + 1 < v.len() && v[i + 1] == '\n' {
        } else {
            let ghost before = out@;
            out.push(v[i]);
            assert(out@ =~= before + seq![rest[0]]);
        }
        i += 1;
    }
    assert(v@.skip(v.len() as int) =~= Seq::<char>::empty());
    assert(out@ + Seq::<char>::empty() =~= out@);
    out
}

fn map_styled(lines: &Vec<Vec<char>>, sgr: &Sgr) -> (r: Vec<Vec<char>>)
    ensures
        r@.map_values(|p: Vec<char>| p@) == styled_lines(lines@.map_values(|p: Vec<char>| p@), sgr@),
{
    let ghost views = lines@.map_values(|p: Vec<char>| p@);
    let mut out: Vec<Vec<char>> = Vec::new();
    let mut i: usize = 0;
    while i < lines.len()
        invariant
            i <= lines.len(),
            views == lines@.map_values(|p: Vec<char>| p@),
            out@.map_values(|p: Vec<char>| p@) == styled_lines(views.take(i as int), sgr@),
        decreases lines.len() - i,
    {
        let l = sgr.styled_chars(&lines[i]);
        let ghost before = out@.map_values(|p: Vec<char>| p@);
        out.push(l);
        assert(views[i as int] == lines@[i as int]@);
        assert(out@.map_values(|p: Vec<char>| p@) =~= before.push(l@));
        assert(styled_lines(views.take(i + 1), sgr@) =~= styled_lines(views.take(i as int), sgr@).push(sgr_styled(sgr@, views[i as int])));
        i += 1;
    }
    assert(views.take(lines.len() as int) =~= views);
    out
}

fn map_affix(lines: &Vec<Vec<char>>, p: &Vec<char>, before: bool) -> (r: Vec<Vec<char>>)
    ensures
        r@.map_values(|q: Vec<char>| q@) == (if before {
            prefixed(lines@.map_values(|q: Vec<char>| q@), p@)
        } else {
            suffixed(lines@.map_values(|q: Vec<char>| q@), p@)
        }),
{
    let ghost views = lines@.map_values(|q: Vec<char>| q@);
    let ghost f = if before {
        prefixed(views, p@)
    } else {
        suffixed(views, p@)
    };
    let mut out: Vec<Vec<char>> = Vec::new();
    let mut i: usize = 0;
    while i < lines.len()
        invariant
            i <= lines.len(),
            views == lines@.map_values(|q: Vec<char>| q@),
            f == (if before { prefixed(views, p@) } else { suffixed(views, p@) }),
            out@.map_values(|q: Vec<char>| q@) == f.take(i as int),
        decreases lines.len() - i,
    {
        let mut l: Vec<char> = Vec::new();
        if before {
            extend_chars(&mut l, p);
            extend_chars(&mut l, &lines[i]);
        } else {
            extend_chars(&mut l, &lines[i]);
            extend_chars(&mut l, p);
        }
        let ghost before_out = out@.map_values(|q: Vec<char>| q@);
        out.push(l);
        assert(views[i as int] == lines@[i as int]@);
        assert(out@.map_values(|q: Vec<char>| q@) =~= before_out.push(l@));
        assert(f.take(i + 1) =~= f.take(i as int).push(f[i as int]));
        i += 1;
    }
    assert(f.take(lines.len() as int) =~= f);
    out
}

fn map_truncate(lines: &Vec<Vec<char>>, w: usize) -> (r: Vec<Vec<char>>)
    ensures
        r@.map_values(|q: Vec<char>| q@) == truncated(lines@.map_values(|q: Vec<char>| q@), w as int),
{
    let ghost views = lines@.map_values(|q: Vec<char>| q@);
    let empty: Vec<char> = Vec::new();
    let mut out: Vec<Vec<char>> = Vec::new();
    let mut i: usize = 0;
    while i < lines.len()
        invariant
            i <= lines.len(),
            views == lines@.map_values(|q: Vec<char>| q@),
            empty@ == Seq::<char>::empty(),
            out@.map_values(|q: Vec<char>| q@) == truncated(views.take(i as int), w as int),
        decreases lines.len() - i,
    {
        let l = ansi::truncate_chars(&lines[i], w, &empty);
        let ghost before_out = out@.map_values(|q: Vec<char>| q@);
        out.push(l);
        assert(views[i as int] == lines@[i as int]@);
        assert(out@.map_values(|q: Vec<char>| q@) =~= before_out.push(l@));
        assert(truncated(views.take(i + 1), w as int) =~= truncated(views.take(i as int), w as int).push(ansi::truncate_spec(views[i as int], w as int, Seq::empty())));
        i += 1;
    }
    assert(views.take(lines.len() as int) =~= views);
    out
}

fn newline_sep() -> (r: Vec<char>)
    ensures
        r@ == seq!['\n'],
{
    let mut v: Vec<char> = Vec::new();
    v.push('\n');
    assert(v@ =~= seq!['\n']);
    v
}

fn align_left_exec(s: &Vec<char>, width: usize, ws: &Sgr) -> (r: Vec<char>)
    ensures
        r@ == align_left(s@, width as int, ws@),
{
    let lines = split_chars(s, '\n');
    let ghost views = lines@.map_values(|q: Vec<char>| q@);
    let mut widest_w: usize = 0;
    let mut i: usize = 0;
    while i < lines.len()
        invariant
            i <= lines.len(),
            views == lines@.map_values(|q: Vec<char>| q@),
            widest_w as int == widest(views.take(i as int)),
        decreases lines.len() - i,
    {
        assert(views.take(i + 1).drop_last() =~= views.take(i as int));
        let w = ansi::chars_width(&lines[i]);
        if w > widest_w {
            widest_w = w;
        }
        i += 1;
    }
    assert(views.take(lines.len() as int) =~= views);
    let target = if width > widest_w {
        width
    } else {
        widest_w
    };
    let ghost padded = views.map_values(|l: Seq<char>| pad_line(l, target as int, ws@));
    let mut out: Vec<Vec<char>> = Vec::new();
    let mut k: usize = 0;
    while k < lines.len()
        invariant
            k <= lines.len(),
            views == lines@.map_values(|q: Vec<char>| q@),
            padded == views.map_values(|l: Seq<char>| pad_line(l, target as int, ws@)),
            out@.map_values(|q: Vec<char>| q@) == padded.take(k as int),
        decreases lines.len() - k,
    {
        let w = ansi::chars_width(&lines[k]);
        let mut l: Vec<char> = Vec::new();
        extend_chars(&mut l, &lines[k]);
        if w < target {
            let pad = repeat_char(' ', target - w);
            let sp = ws.styled_chars(&pad);
            extend_chars(&mut l, &sp);
        }
        let ghost before_out = out@.map_values(|q: Vec<char>| q@);
        out.push(l);
        assert(views[k as int] == lines@[k as int]@);
        assert(out@.map_values(|q: Vec<char>| q@) =~= before_out.push(l@));
        assert(padded.take(k + 1) =~= padded.take(k as int).push(padded[k as int]));
        k += 1;
    }
    assert(padded.take(lines.len() as int) =~= padded);
    let sep = newline_sep();
    join_chars(&out, &sep)
}

impl Style {
    /// An empty style.
    pub fn new() -> (r: Style)
        ensures
            r@ == (StyleModel {
                value: Seq::empty(),
                fg: None,
                bg: None,
                bold: false,
                italic: false,
                underline: false,
                strikethrough: false,
                reverse: false,
                width: 0,
                height: 0,
                padding_left: 0,
                padding_right: 0,
                margin_right: 0,
                max_width: 0,
                has_props: false,
            }),
    {
        Style {
            value: Vec::new(),
            fg: None,
            bg: None,
            bold: false,
            italic: false,
            underline: false,
            strikethrough: false,
            reverse: false,
            width: 0,
            height: 0,
            padding_left: 0,
            padding_right: 0,
            margin_right: 0,
            max_width: 0,
            has_props: false,
        }
    }

    /// Stores a string rendered ahead of any argument.
    pub fn set_string(self, s: &str) -> (r: Style)
        ensures
            r@ == (StyleModel { value: s@, has_props: true, ..self@ }),
    {
        let mut st = self;
        st.value = chars_of(s);
        st.has_props = true;
        st
    }

    /// Sets the foreground colour.
    pub fn foreground(self, c: Color) -> (r: Style)
        ensures
            r@ == (StyleModel { fg: Some(c), has_props: true, ..self@ }),
    {
        let mut st = self;
        st.fg = Some(c);
        st.has_props = true;
        st
    }

    /// Sets the background colour.
    pub fn background(self, c: Color) -> (r: Style)
        ensures
            r@ == (StyleModel { bg: Some(c), has_props: true, ..self@ }),
    {
        let mut st = self;
        st.bg = Some(c);
        st.has_props = true;
        st
    }

    /// Toggles bold.
    pub fn bold(self, v: bool) -> (r: Style)
        ensures
            r@ == (StyleModel { bold: v, has_props: true, ..self@ }),
    {
        let mut st = self;
        st.bold = v;
        st.has_props = true;
        st
    }

    /// Toggles italics.
    pub fn italic(self, v: bool) -> (r: Style)
        ensures
            r@ == (StyleModel { italic: v, has_props: true, ..self@ }),
    {
        let mut st = self;
        st.italic = v;
        st.has_props = true;
        st
    }

    /// Toggles underline.
    pub fn underline(self, v: bool) -> (r: Style)
        ensures
            r@ == (StyleModel { underline: v, has_props: true, ..self@ }),
    {
        let mut st = self;
        st.underline = v;
        st.has_props = true;
        st
    }

    /// Toggles strikethrough.
    pub fn strikethrough(self, v: bool) -> (r: Style)
        ensures
            r@ == (StyleModel { strikethrough: v, has_props: true, ..self@ }),
    {
        let mut st = self;
        st.strikethrough = v;
        st.has_props = true;
        st
    }

    /// A copy of this style.
    pub fn copy(&self) -> (r: Style)
        ensures
            r@ == self@,
    {
        let mut value: Vec<char> = Vec::new();
        extend_chars(&mut value, &self.value);
        Style {
            value,
            fg: self.fg,
            bg: self.bg,
            bold: self.bold,
            italic: self.italic,
            underline: self.underline,
            strikethrough: self.strikethrough,
            reverse: self.reverse,
            width: self.width,
            height: self.height,
            padding_left: self.padding_left,
            padding_right: self.padding_right,
            margin_right: self.margin_right,
            max_width: self.max_width,
            has_props: self.has_props,
        }
    }

    /// Toggles reverse video.
    pub fn reverse(self, v: bool) -> (r: Style)
        ensures
            r@ == (StyleModel { reverse: v, has_props: true, ..self@ }),
    {
        let mut st = self;
        st.reverse = v;
        st.has_props = true;
        st
    }

    /// Sets the block width; lines are wrapped and padded to it.
    pub fn width(self, w: usize) -> (r: Style)
        ensures
            r@ == (StyleModel { width: w as nat, has_props: true, ..self@ }),
    {
        let mut st = self;
        st.width = w;
        st.has_props = true;
        st
    }

    /// Sets the block height; short blocks gain blank lines.
    pub fn height(self, h: usize) -> (r: Style)
        ensures
            r@ == (StyleModel { height: h as nat, has_props: true, ..self@ }),
    {
        let mut st = self;
        st.height = h;
        st.has_props = true;
        st
    }

    /// Sets padding, in the CSS order `top, right, bottom, left`; only the
    /// horizontal sides are drawn.
    pub fn padding(self, top: usize, right: usize, bottom: usize, left: usize) -> (r: Style)
        ensures
            r@ == (StyleModel {
                padding_left: left as nat,
                padding_right: right as nat,
                has_props: true,
                ..self@
            }),
    {
        let mut st = self;
        st.padding_left = left;
        st.padding_right = right;
        st.has_props = true;
        st
    }

    /// Sets the right margin.
    pub fn margin_right(self, n: usize) -> (r: Style)
        ensures
            r@ == (StyleModel { margin_right: n as nat, has_props: true, ..self@ }),
    {
        let mut st = self;
        st.margin_right = n;
        st.has_props = true;
        st
    }

    /// Truncates every rendered line to `n` columns.
    pub fn max_width(self, n: usize) -> (r: Style)
        ensures
            r@ == (StyleModel { max_width: n as nat, has_props: true, ..self@ }),
    {
        let mut st = self;
        st.max_width = n;
        st.has_props = true;
        st
    }

    fn sgr(&self) -> (r: Sgr)
        ensures
            r@ == style_params(self@),
    {
        let mut te = Sgr::new();
        if self.bold {
            te = te.bold();
        }
        if self.italic {
            te = te.italic();
        }
        if self.underline {
            te = te.underline();
        }
        if self.reverse {
            te = te.inverse();
        }
        match &self.fg {
            Some(fg) => {
                te = te.foreground(fg);
            },
            None => {},
        }
        match &self.bg {
            Some(bg) => {
                te = te.background(bg);
            },
            None => {},
        }
        if self.strikethrough {
            te = te.crossed_out();
        }
        te
    }

    fn whitespace(&self) -> (r: Sgr)
        ensures
            r@ == whitespace_params(self@),
    {
        match &self.bg {
            Some(bg) => {
                let r = Sgr::new().background(bg);
                assert(r@ =~= seq![color_sgr(*bg, true)]);
                r
            },
            None => Sgr::new(),
        }
    }

    fn render_lines_exec(&self, wrapped: &Vec<char>) -> (r: Vec<char>)
        ensures
            r@ == render_lines(self@, wrapped@),
    {
        let te = self.sgr();
        let ws = self.whitespace();
        let sep = newline_sep();
        let lines = split_chars(wrapped, '\n');
        let styled = map_styled(&lines, &te);
        let mut s = join_chars(&styled, &sep);
        if self.padding_left > 0 {
            let sp = repeat_char(' ', self.padding_left);
            let pad = ws.styled_chars(&sp);
            let lines = split_chars(&s, '\n');
            let m = map_affix(&lines, &pad, true);
            s = join_chars(&m, &sep);
        }
        if self.padding_right > 0 {
            let sp = repeat_char(' ', self.padding_right);
            let pad = ws.styled_chars(&sp);
            let lines = split_chars(&s, '\n');
            let m = map_affix(&lines, &pad, false);
            s = join_chars(&m, &sep);
        }
        s
    }

    fn render_block_exec(&self, s2: Vec<char>) -> (r: Vec<char>)
        ensures
            r@ == render_block(self@, s2@),
    {
        let ws = self.whitespace();
        let sep = newline_sep();
        let mut s = s2;
        let n = split_chars(&s, '\n').len();
        if self.height > 0 && n < self.height {
            let nl = repeat_char('\n', self.height - n);
            extend_chars(&mut s, &nl);
        }
        if crate::text::contains_char(&s, '\n') || self.width != 0 {
            s = align_left_exec(&s, self.width, &ws);
        }
        if self.margin_right > 0 {
            let sp = repeat_char(' ', self.margin_right);
            let lines = split_chars(&s, '\n');
            let m = map_affix(&lines, &sp, false);
            s = join_chars(&m, &sep);
        }
        if self.max_width > 0 {
            let lines = split_chars(&s, '\n');
            let m = map_truncate(&lines, self.max_width);
            s = join_chars(&m, &sep);
        }
        s
    }

    /// Renders `s` with this style.
    pub fn render_chars(&self, s: &Vec<char>) -> (r: Vec<char>)
        requires
            geometry_ok(self@),
        ensures
            r@ == render_spec(self@, s@),
    {
        let mut input: Vec<char> = Vec::new();
        if self.value.len() == 0 {
            extend_chars(&mut input, s);
        } else if s.len() == 0 {
            extend_chars(&mut input, &self.value);
        } else {
            extend_chars(&mut input, &self.value);
            input.push(' ');
            extend_chars(&mut input, s);
        }
        assert(input@ =~= render_input(self@, s@));
        if !self.has_props {
            return input;
        }
        let s0 = strip_crlf_exec(&input);
        let wrapped = if self.width > 0 {
            let wrap_at = self.width as i64 - self.padding_left as i64 - self.padding_right as i64;
            let empty: Vec<char> = Vec::new();
            assert(empty@ =~= Seq::<char>::empty());
            ansi::wrap_chars(&s0, wrap_at, &empty)
        } else {
            s0
        };
        let s2 = self.render_lines_exec(&wrapped);
        self.render_block_exec(s2)
    }

    /// Renders `s` with this style.
    pub fn render(&self, s: &str) -> (r: String)
        requires
            geometry_ok(self@),
        ensures
            r@ == render_spec(self@, s@),
    {
        let v = chars_of(s);
        let out = self.render_chars(&v);
        string_of(&out)
    }

    /// The stored string, rendered.
    pub fn string(&self) -> (r: String)
        requires
            geometry_ok(self@),
        ensures
            r@ == render_spec(self@, Seq::empty()),
    {
        let empty: Vec<char> = Vec::new();
        assert(empty@ =~= Seq::<char>::empty());
        let out = self.render_chars(&empty);
        string_of(&out)
    }
}

} // verus!

verus! {

// ---------------------------------------------------------------------------
// The terminal pen
// ---------------------------------------------------------------------------

/// The abstract contents of a [`Pen`].
pub struct PenModel {
    pub fg: Option<Color>,
    pub bg: Option<Color>,
    pub underline_color: Option<Color>,
    pub underline: bool,
    pub bold: bool,
    pub faint: bool,
    pub italic: bool,
    pub blink: bool,
    pub rapid_blink: bool,
    pub reverse: bool,
    pub conceal: bool,
    pub strikethrough: bool,
    pub link: Option<(Seq<char>, Seq<char>)>,
}

/// The terminal pen: the SGR attributes and hyperlink currently in effect.
#[derive(Debug, Clone)]
pub struct Pen {
    fg: Option<Color>,
    bg: Option<Color>,
    underline_color: Option<Color>,
    underline: bool,
    bold: bool,
    faint: bool,
    italic: bool,
    blink: bool,
    rapid_blink: bool,
    reverse: bool,
    conceal: bool,
    strikethrough: bool,
    link: Option<(Vec<char>, Vec<char>)>,
}

impl View for Pen {
    type V = PenModel;

    closed spec fn view(&self) -> PenModel {
        PenModel {
            fg: self.fg,
            bg: self.bg,
            underline_color: self.underline_color,
            underline: self.underline,
            bold: self.bold,
            faint: self.faint,
            italic: self.italic,
            blink: self.blink,
            rapid_blink: self.rapid_blink,
            reverse: self.reverse,
            conceal: self.conceal,
            strikethrough: self.strikethrough,
            link: match self.link {
                Some((u, p)) => Some((u@, p@)),
                None => None,
            },
        }
    }
}

/// A pen with nothing set and the given link.
pub open spec fn pen_reset(link: Option<(Seq<char>, Seq<char>)>) -> PenModel {
    PenModel {
        fg: None,
        bg: None,
        underline_color: None,
        underline: false,
        bold: false,
        faint: false,
        italic: false,
        blink: false,
        rapid_blink: false,
        reverse: false,
        conceal: false,
        strikethrough: false,
        link,
    }
}

/// Whether no attribute (other than a hyperlink) is set.
pub open spec fn pen_zero_style(p: PenModel) -> bool {
    p.fg is None && p.bg is None && p.underline_color is None && !p.underline && !p.bold
        && !p.faint && !p.italic && !p.blink && !p.rapid_blink && !p.reverse && !p.conceal
        && !p.strikethrough
}

/// An SGR parameter's number: a `u16`, or zero when it does not parse.
pub open spec fn code_of(part: Seq<char>) -> nat {
    match parse_u64_spec(part) {
        Some(n) => if n <= 65535 { n as nat } else { 0 },
        None => 0,
    }
}

/// A `u16` parameter if it parses.
pub open spec fn u16_of(part: Seq<char>) -> Option<nat> {
    match parse_u64_spec(part) {
        Some(n) => if n <= 65535 { Some(n as nat) } else { None },
        None => None,
    }
}

/// A parameter at `i` as a truncated byte, zero when missing or malformed.
pub open spec fn byte_at(parts: Seq<Seq<char>>, i: int) -> u8 {
    if 0 <= i < parts.len() {
        match u16_of(parts[i]) {
            Some(n) => (n % 256) as u8,
            None => 0,
        }
    } else {
        0
    }
}

/// An extended colour (`5;n` or `2;r;g;b`) starting at `i`, and how many
/// parameters it used.
pub open spec fn extended_color(parts: Seq<Seq<char>>, i: int) -> (Option<Color>, int) {
    let kind = if 0 <= i < parts.len() { u16_of(parts[i]) } else { None };
    if kind == Some(5nat) {
        let n: nat = if 0 <= i + 1 < parts.len() {
            match u16_of(parts[i + 1]) {
                Some(v) => v,
                None => 0,
            }
        } else {
            0
        };
        let c = if n < 16 { Color::Basic(n as u8) } else { Color::Ansi256((n % 256) as u8) };
        (Some(c), 2)
    } else if kind == Some(2nat) {
        (Some(Color::Rgb(byte_at(parts, i + 1), byte_at(parts, i + 2), byte_at(parts, i + 3))), 4)
    } else {
        (None, 1)
    }
}

pub proof fn lemma_extended_used(parts: Seq<Seq<char>>, i: int)
    ensures
        1 <= extended_color(parts, i).1 <= 4,
{
}

/// One plain SGR code applied to a pen.
pub open spec fn apply_code(p: PenModel, n: nat) -> PenModel {
    if n == 0 {
        pen_reset(p.link)
    } else if n == 1 {
        PenModel { bold: true, ..p }
    } else if n == 2 {
        PenModel { faint: true, ..p }
    } else if n == 3 {
        PenModel { italic: true, ..p }
    } else if n == 4 {
        PenModel { underline: true, ..p }
    } else if n == 5 {
        PenModel { blink: true, ..p }
    } else if n == 6 {
        PenModel { rapid_blink: true, ..p }
    } else if n == 7 {
        PenModel { reverse: true, ..p }
    } else if n == 8 {
        PenModel { conceal: true, ..p }
    } else if n == 9 {
        PenModel { strikethrough: true, ..p }
    } else if n == 21 || n == 24 {
        PenModel { underline: false, ..p }
    } else if n == 22 {
        PenModel { bold: false, faint: false, ..p }
    } else if n == 23 {
        PenModel { italic: false, ..p }
    } else if n == 25 {
        PenModel { blink: false, rapid_blink: false, ..p }
    } else if n == 27 {
        PenModel { reverse: false, ..p }
    } else if n == 28 {
        PenModel { conceal: false, ..p }
    } else if n == 29 {
        PenModel { strikethrough: false, ..p }
    } else if 30 <= n <= 37 {
        PenModel { fg: Some(Color::Basic((n - 30) as u8)), ..p }
    } else if n == 39 {
        PenModel { fg: None, ..p }
    } else if 40 <= n <= 47 {
        PenModel { bg: Some(Color::Basic((n - 40) as u8)), ..p }
    } else if n == 49 {
        PenModel { bg: None, ..p }
    } else if 90 <= n <= 97 {
        PenModel { fg: Some(Color::Basic((n - 90 + 8) as u8)), ..p }
    } else if 100 <= n <= 107 {
        PenModel { bg: Some(Color::Basic((n - 100 + 8) as u8)), ..p }
    } else if n == 59 {
        PenModel { underline_color: None, ..p }
    } else {
        p
    }
}

/// The SGR parameters from `i` on, applied in order.
pub open spec fn read_sgr_from(p: PenModel, parts: Seq<Seq<char>>, i: int) -> PenModel
    decreases parts.len() - i,
{
    if i < 0 || i >= parts.len() {
        p
    } else {
        let n = code_of(parts[i]);
        if n == 38 || n == 48 || n == 58 {
            let e = extended_color(parts, i + 1);
            proof {
                lemma_extended_used(parts, i + 1);
            }
            let q = if n == 38 {
                PenModel { fg: e.0, ..p }
            } else if n == 48 {
                PenModel { bg: e.0, ..p }
            } else {
                PenModel { underline_color: e.0, ..p }
            };
            let next = if i + e.1 + 1 <= parts.len() { i + e.1 + 1 } else { parts.len() as int };
            read_sgr_from(q, parts, next)
        } else {
            read_sgr_from(apply_code(p, n), parts, i + 1)
        }
    }
}

/// An SGR body applied to a pen; an empty body is a reset.
pub open spec fn read_sgr(p: PenModel, body: Seq<char>) -> PenModel {
    let parts = if body.len() == 0 { seq![seq!['0']] } else { split(body, ';') };
    read_sgr_from(p, parts, 0)
}

/// All trailing occurrences of `c` removed.
pub open spec fn trim_end_char(s: Seq<char>, c: char) -> Seq<char>
    decreases s.len(),
{
    if s.len() > 0 && s.last() == c {
        trim_end_char(s.drop_last(), c)
    } else {
        s
    }
}

/// All trailing `ESC \` pairs removed.
pub open spec fn trim_end_st(s: Seq<char>) -> Seq<char>
    decreases s.len(),
{
    if s.len() >= 2 && s[s.len() - 2] == ESC && s.last() == '\\' {
        trim_end_st(s.take(s.len() - 2))
    } else {
        s
    }
}

/// A hyperlink escape's parameters and URL.
pub open spec fn link_of(body: Seq<char>) -> Option<(Seq<char>, Seq<char>)> {
    let b = trim_end_st(trim_end_char(body, '\u{7}'));
    let (params, url) = match crate::text::find_char(b, ';') {
        Some(k) => (b.take(k), b.skip(k + 1)),
        None => (Seq::empty(), b),
    };
    if url.len() == 0 {
        None
    } else {
        Some((url, params))
    }
}

/// `"\x1b]8;"`.
pub open spec fn osc8_intro() -> Seq<char> {
    seq![ESC, ']', '8', ';']
}

/// One escape sequence folded into the pen.
pub open spec fn advance_spec(p: PenModel, e: Seq<char>) -> PenModel {
    if has_prefix(e, seq![ESC, '[']) && e.len() >= 3 && e.last() == 'm' {
        read_sgr(p, e.subrange(2, e.len() - 1))
    } else if has_prefix(e, osc8_intro()) {
        PenModel { link: link_of(e.skip(4)), ..p }
    } else {
        p
    }
}

/// The attributes that re-establish a pen, in output order.
pub open spec fn pen_params(p: PenModel) -> Seq<Seq<char>> {
    let a: Seq<Seq<char>> = Seq::empty();
    let a = if p.bold { a.push(seq!['1']) } else { a };
    let a = if p.faint { a.push(seq!['2']) } else { a };
    let a = if p.italic { a.push(seq!['3']) } else { a };
    let a = if p.blink { a.push(seq!['5']) } else { a };
    let a = if p.reverse { a.push(seq!['7']) } else { a };
    let a = if p.conceal { a.push(seq!['8']) } else { a };
    let a = if p.strikethrough { a.push(seq!['9']) } else { a };
    let a = if p.underline { a.push(seq!['4']) } else { a };
    let a = match p.fg { Some(c) => a.push(color_sgr(c, false)), None => a };
    match p.bg { Some(c) => a.push(color_sgr(c, true)), None => a }
}

/// The sequence that re-establishes a pen.
pub open spec fn pen_sequence(p: PenModel) -> Seq<char> {
    if pen_zero_style(p) {
        reset_seq()
    } else {
        sgr_sequence(pen_params(p))
    }
}

fn u16_exec(v: &Vec<char>) -> (r: Option<u64>)
    ensures
        r matches Some(n) ==> u16_of(v@) == Some(n as nat),
        r is None ==> u16_of(v@) is None,
{
    match parse_u64(v) {
        Some(n) => if n <= 65535 {
            Some(n)
        } else {
            None
        },
        None => None,
    }
}

fn byte_at_exec(parts: &Vec<Vec<char>>, i: usize, k: usize) -> (r: u8)
    requires
        i <= parts.len(),
    ensures
        r == byte_at(parts@.map_values(|q: Vec<char>| q@), i + k),
{
    let ghost views = parts@.map_values(|q: Vec<char>| q@);
    if k < parts.len() - i {
        assert(views[i + k] == parts@[i + k]@);
        match u16_exec(&parts[i + k]) {
            Some(n) => (n % 256) as u8,
            None => 0,
        }
    } else {
        0
    }
}

fn extended_color_exec(parts: &Vec<Vec<char>>, i: usize) -> (r: (Option<Color>, usize))
    requires
        i <= parts.len(),
    ensures
        (r.0, r.1 as int) == extended_color(parts@.map_values(|q: Vec<char>| q@), i as int),
{
    let ghost views = parts@.map_values(|q: Vec<char>| q@);
    let kind = if i < parts.len() {
        assert(views[i as int] == parts@[i as int]@);
        u16_exec(&parts[i])
    } else {
        None
    };
    if kind == Some(5u64) {
        let n: u64 = if 1 < parts.len() - i {
            assert(views[i + 1] == parts@[i + 1]@);
            match u16_exec(&parts[i + 1]) {
                Some(v) => v,
                None => 0,
            }
        } else {
            0
        };
        let c = if n < 16 {
            Color::Basic(n as u8)
        } else {
            Color::Ansi256((n % 256) as u8)
        };
        (Some(c), 2)
    } else if kind == Some(2u64) {
        (Some(Color::Rgb(byte_at_exec(parts, i, 1), byte_at_exec(parts, i, 2), byte_at_exec(parts, i, 3))), 4)
    } else {
        (None, 1)
    }
}

impl Pen {
    /// A pen with nothing set.
    pub fn new() -> (r: Pen)
        ensures
            r@ == pen_reset(None),
    {
        Pen {
            fg: None,
            bg: None,
            underline_color: None,
            underline: false,
            bold: false,
            faint: false,
            italic: false,
            blink: false,
            rapid_blink: false,
            reverse: false,
            conceal: false,
            strikethrough: false,
            link: None,
        }
    }

    fn is_zero_style(&self) -> (r: bool)
        ensures
            r == pen_zero_style(self@),
    {
        self.fg.is_none() && self.bg.is_none() && self.underline_color.is_none() && !self.underline
            && !self.bold && !self.faint && !self.italic && !self.blink && !self.rapid_blink
            && !self.reverse && !self.conceal && !self.strikethrough
    }

    /// Whether no attribute is set.
    pub fn is_zero(&self) -> (r: bool)
        ensures
            r == (pen_zero_style(self@) && self@.link is None),
    {
        self.is_zero_style() && self.link.is_none()
    }

    /// Whether a hyperlink is open.
    pub fn link_is_zero(&self) -> (r: bool)
        ensures
            r == (self@.link is Some),
    {
        self.link.is_some()
    }

    #[verifier::rlimit(60)]
    fn apply(&mut self, n: u64)
        ensures
            final(self)@ == apply_code(old(self)@, n as nat),
    {
        if n == 0 {
            let link = self.link.take();
            *self = Pen::new();
            self.link = link;
        } else if n == 1 {
            self.bold = true;
        } else if n == 2 {
            self.faint = true;
        } else if n == 3 {
            self.italic = true;
        } else if n == 4 {
            self.underline = true;
        } else if n == 5 {
            self.blink = true;
        } else if n == 6 {
            self.rapid_blink = true;
        } else if n == 7 {
            self.reverse = true;
        } else if n == 8 {
            self.conceal = true;
        } else if n == 9 {
            self.strikethrough = true;
        } else if n == 21 || n == 24 {
            self.underline = false;
        } else if n == 22 {
            self.bold = false;
            self.faint = false;
        } else if n == 23 {
            self.italic = false;
        } else if n == 25 {
            self.blink = false;
            self.rapid_blink = false;
        } else if n == 27 {
            self.reverse = false;
        } else if n == 28 {
            self.conceal = false;
        } else if n == 29 {
            self.strikethrough = false;
        } else if 30 <= n && n <= 37 {
            self.fg = Some(Color::Basic((n - 30) as u8));
        } else if n == 39 {
            self.fg = None;
        } else if 40 <= n && n <= 47 {
            self.bg = Some(Color::Basic((n - 40) as u8));
        } else if n == 49 {
            self.bg = None;
        } else if 90 <= n && n <= 97 {
            self.fg = Some(Color::Basic((n - 90 + 8) as u8));
        } else if 100 <= n && n <= 107 {
            self.bg = Some(Color::Basic((n - 100 + 8) as u8));
        } else if n == 59 {
            self.underline_color = None;
        }
    }

    fn read_sgr(&mut self, body: &Vec<char>)
        ensures
            final(self)@ == read_sgr(old(self)@, body@),
    {
        let parts: Vec<Vec<char>> = if body.len() == 0 {
            let mut z: Vec<char> = Vec::new();
            z.push('0');
            let mut v: Vec<Vec<char>> = Vec::new();
            v.push(z);
            assert(v@.map_values(|q: Vec<char>| q@) =~= seq![seq!['0']]);
            v
        } else {
            split_chars(body, ';')
        };
        let ghost views = parts@.map_values(|q: Vec<char>| q@);
        let ghost target = read_sgr(old(self)@, body@);
        assert(target == read_sgr_from(old(self)@, views, 0));
        let mut i: usize = 0;
        while i < parts.len()
            invariant
                i <= parts.len(),
                views == parts@.map_values(|q: Vec<char>| q@),
                target == read_sgr_from(self@, views, i as int),
            decreases parts.len() - i,
        {
            i = self.sgr_step(&parts, i);
        }
    }

    #[verifier::rlimit(40)]
    fn sgr_step(&mut self, parts: &Vec<Vec<char>>, i: usize) -> (r: usize)
        requires
            i < parts.len(),
        ensures
            i < r <= parts.len(),
            read_sgr_from(final(self)@, parts@.map_values(|q: Vec<char>| q@), r as int)
                == read_sgr_from(old(self)@, parts@.map_values(|q: Vec<char>| q@), i as int),
    {
        let ghost views = parts@.map_values(|q: Vec<char>| q@);
        assert(views[i as int] == parts@[i as int]@);
        let n = match u16_exec(&parts[i]) {
            Some(v) => v,
            None => 0,
        };
        assert(n == code_of(views[i as int]));
        if n == 38 || n == 48 || n == 58 {
            let (c, used) = extended_color_exec(parts, i + 1);
            if n == 38 {
                self.fg = c;
            } else if n == 48 {
                self.bg = c;
            } else {
                self.underline_color = c;
            }
            if used + 1 >= parts.len() - i {
                parts.len()
            } else {
                i + used + 1
            }
        } else {
            self.apply(n);
            i + 1
        }
    }

    /// Folds one escape sequence into the pen.
    pub fn advance_chars(&mut self, e: &Vec<char>)
        ensures
            final(self)@ == advance_spec(old(self)@, e@),
    {
        let csi = e.len() >= 3 && e[0] == ESC && e[1] == '[' && e[e.len() - 1] == 'm';
        proof {
            if e.len() >= 2 {
                assert(has_prefix(e@, seq![ESC, '[']) == (e@[0] == ESC && e@[1] == '[')) by {
                    if e@[0] == ESC && e@[1] == '[' {
                        assert(e@.take(2) =~= seq![ESC, '[']);
                    } else {
                        assert(e@.take(2)[0] == e@[0]);
                        assert(e@.take(2)[1] == e@[1]);
                    }
                }
            }
        }
        if csi {
            let body = crate::text::slice_chars(e, 2, e.len() - 1);
            self.read_sgr(&body);
            return;
        }
        let osc = e.len() >= 4 && e[0] == ESC && e[1] == ']' && e[2] == '8' && e[3] == ';';
        proof {
            if e.len() >= 4 {
                if osc {
                    assert(e@.take(4) =~= osc8_intro());
                } else {
                    assert(e@.take(4)[0] == e@[0]);
                    assert(e@.take(4)[1] == e@[1]);
                    assert(e@.take(4)[2] == e@[2]);
                    assert(e@.take(4)[3] == e@[3]);
                }
            }
        }
        if osc {
            let mut end = e.len();
            while end > 4 && e[end - 1] == '\u{7}'
                invariant
                    4 <= end <= e.len(),
                    trim_end_char(e@.skip(4), '\u{7}') == trim_end_char(e@.subrange(4, end as int), '\u{7}'),
                decreases end,
            {
                assert(e@.subrange(4, end as int).drop_last() =~= e@.subrange(4, end - 1));
                end -= 1;
            }
            assert(e@.subrange(4, e.len() as int) =~= e@.skip(4));
            while end >= 6 && e[end - 2] == ESC && e[end - 1] == '\\'
                invariant
                    4 <= end <= e.len(),
                    trim_end_st(trim_end_char(e@.skip(4), '\u{7}')) == trim_end_st(e@.subrange(4, end as int)),
                decreases end,
            {
                assert(e@.subrange(4, end as int).take(end - 4 - 2) =~= e@.subrange(4, end - 2));
                end -= 2;
            }
            let b = crate::text::slice_chars(e, 4, end);
            let ghost bb = trim_end_st(trim_end_char(e@.skip(4), '\u{7}'));
            proof {
                if end >= 6 {
                } else if end == 5 {
                }
                assert(b@ == bb);
            }
            let (params, url) = match crate::text::find_char_from(&b, ';', 0) {
                Some(k) => (crate::text::slice_chars(&b, 0, k), crate::text::slice_chars(&b, k + 1, b.len())),
                None => (Vec::new(), crate::text::slice_chars(&b, 0, b.len())),
            };
            proof {
                assert(b@.take(0) =~= Seq::<char>::empty());
                assert(b@.subrange(0, b@.len() as int) =~= b@);
            }
            if url.len() == 0 {
                self.link = None;
            } else {
                self.link = Some((url, params));
            }
            assert(b@.skip(0) =~= b@);
        }
    }

    /// Folds one escape sequence into the pen.
    pub fn advance(&mut self, escape: &str)
        ensures
            final(self)@ == advance_spec(old(self)@, escape@),
    {
        let e = chars_of(escape);
        self.advance_chars(&e);
    }

    fn params(&self) -> (r: Sgr)
        ensures
            r@ == pen_params(self@),
    {
        let mut s = Sgr::new();
        if self.bold {
            s = s.bold();
        }
        if self.faint {
            s = s.faint();
        }
        if self.italic {
            s = s.italic();
        }
        if self.blink {
            s = s.blink();
        }
        if self.reverse {
            s = s.inverse();
        }
        if self.conceal {
            s = s.conceal();
        }
        if self.strikethrough {
            s = s.crossed_out();
        }
        if self.underline {
            s = s.underline();
        }
        match &self.fg {
            Some(c) => {
                s = s.foreground(c);
            },
            None => {},
        }
        match &self.bg {
            Some(c) => {
                s = s.background(c);
            },
            None => {},
        }
        s
    }

    /// The SGR sequence that re-establishes this pen.
    pub fn sequence_chars(&self) -> (r: Vec<char>)
        ensures
            r@ == pen_sequence(self@),
    {
        if self.is_zero_style() {
            let mut v: Vec<char> = Vec::new();
            v.push(ESC);
            v.push('[');
            v.push('m');
            assert(v@ =~= reset_seq());
            return v;
        }
        self.params().sequence_chars()
    }

    /// The SGR sequence that re-establishes this pen.
    pub fn sequence(&self) -> (r: String)
        ensures
            r@ == pen_sequence(self@),
    {
        let v = self.sequence_chars();
        string_of(&v)
    }
}

/// What a newline becomes in wrapped output: the pen is closed before it and
/// reopened after it.
pub open spec fn newline_with_pen(p: PenModel) -> Seq<char> {
    let close = if !pen_zero_style(p) { reset_seq() } else { Seq::empty() };
    let unlink = if p.link is Some { seq![ESC, ']', '8', ';', ';', '\u{7}'] } else { Seq::empty() };
    let relink = match p.link {
        Some((url, params)) => osc8_intro() + params + seq![';'] + url + seq!['\u{7}'],
        None => Seq::empty(),
    };
    let reopen = if !pen_zero_style(p) { pen_sequence(p) } else { Seq::empty() };
    close + unlink + seq!['\n'] + relink + reopen
}

/// The wrap-writer pass folded over tokens: the pen and the output.
pub open spec fn pen_fold(t: Seq<ansi::Tok>) -> (PenModel, Seq<char>)
    decreases t.len(),
{
    if t.len() == 0 {
        (pen_reset(None), Seq::empty())
    } else {
        let (p, out) = pen_fold(t.drop_last());
        let tok = t.last();
        if tok.esc {
            (advance_spec(p, tok.text), out + tok.text)
        } else if tok.text == seq!['\n'] {
            (p, out + newline_with_pen(p))
        } else {
            (p, out + tok.text)
        }
    }
}

/// `lipgloss.Wrap`: word-wraps, then closes and reopens the pen around every
/// newline.
pub open spec fn wrap_spec(s: Seq<char>, width: int, bps: Seq<char>) -> Seq<char> {
    pen_fold(ansi::tokens(ansi::wrap_spec(s, width, bps))).1
}

/// Word-wraps `s`, then closes and reopens the pen around every newline.
pub fn wrap_chars(s: &Vec<char>, width: i64, bps: &Vec<char>) -> (r: Vec<char>)
    ensures
        r@ == wrap_spec(s@, width as int, bps@),
        ansi::esc_free(s@) ==> r@ == ansi::wrap_spec(s@, width as int, bps@),
{
    let wrapped = ansi::wrap_chars(s, width, bps);
    let toks = ansi::tokenize(&wrapped);
    proof {
        if ansi::esc_free(s@) {
            assert(!has_char(wrapped@, ESC));
            ansi::lemma_tokens_plain(wrapped@);
            lemma_plain_pen_fold(ansi::tokens(wrapped@));
        }
    }
    let ghost all = toks@.map_values(|t: Token| t@);
    let mut pen = Pen::new();
    let mut out: Vec<char> = Vec::new();
    let mut i: usize = 0;
    assert(all.take(0) =~= Seq::<ansi::Tok>::empty());
    while i < toks.len()
        invariant
            i <= toks.len(),
            all == toks@.map_values(|t: Token| t@),
            (pen@, out@) == pen_fold(all.take(i as int)),
        decreases toks.len() - i,
    {
        assert(all.take(i + 1).drop_last() =~= all.take(i as int));
        assert(all[i as int] == toks@[i as int]@);
        match &toks[i] {
            Token::Escape(e) => {
                pen.advance_chars(e);
                extend_chars(&mut out, e);
            },
            Token::Text(t, _) => {
                if t.len() == 1 && t[0] == '\n' {
                    assert(t@ =~= seq!['\n']);
                    emit_newline(&mut out, &pen);
                } else {
                    proof {
                        if t@ == seq!['\n'] {
                            assert(t@.len() == 1 && t@[0] == '\n');
                        }
                    }
                    extend_chars(&mut out, t);
                }
            },
        }
        i += 1;
    }
    assert(all.take(toks.len() as int) =~= all);
    out
}

fn emit_newline(out: &mut Vec<char>, pen: &Pen)
    ensures
        final(out)@ == old(out)@ + newline_with_pen(pen@),
{
                    let ghost before = out@;
                    if !pen.is_zero_style() {
                        out.push(ESC);
                        out.push('[');
                        out.push('m');
                    }
                    if pen.link_is_zero() {
                        out.push(ESC);
                        out.push(']');
                        out.push('8');
                        out.push(';');
                        out.push(';');
                        out.push('\u{7}');
                    }
                    out.push('\n');
                    match &pen.link {
                        Some((url, params)) => {
                            out.push(ESC);
                            out.push(']');
                            out.push('8');
                            out.push(';');
                            extend_chars(out, params);
                            out.push(';');
                            extend_chars(out, url);
                            out.push('\u{7}');
                        },
                        None => {},
                    }
                    if !pen.is_zero_style() {
                        let sq = pen.sequence_chars();
                        extend_chars(out, &sq);
                    }
                    assert(out@ =~= before + newline_with_pen(pen@));
}

/// The wrap-writer pass leaves tokens with no escape among them as they
/// are: the pen never leaves its reset state, so a newline is just that.
proof fn lemma_plain_pen_fold(t: Seq<ansi::Tok>)
    requires
        forall|k: int| 0 <= k < t.len() ==> !(#[trigger] t[k]).esc,
    ensures
        pen_fold(t) == (pen_reset(None), ansi::concat_text(t)),
    decreases t.len(),
{
    if t.len() > 0 {
        assert forall|k: int| 0 <= k < t.drop_last().len() implies !(#[trigger] t.drop_last()[k]).esc by {
            assert(t.drop_last()[k] == t[k]);
        }
        lemma_plain_pen_fold(t.drop_last());
        assert(!t[t.len() - 1].esc);
        let p = pen_reset(None);
        assert(pen_zero_style(p));
        assert(newline_with_pen(p) =~= seq!['\n']);
    }
}

/// Word-wraps `s`, then closes and reopens the pen around every newline;
/// text without escape sequences comes out as `ansi::wrap` gives it.
pub fn wrap(s: &str, width: i64, breakpoints: &str) -> (r: String)
    ensures
        r@ == wrap_spec(s@, width as int, breakpoints@),
        ansi::esc_free(s@) ==> r@ == ansi::wrap_spec(s@, width as int, breakpoints@),
{
    let sv = chars_of(s);
    let bv = chars_of(breakpoints);
    let out = wrap_chars(&sv, width, &bv);
    string_of(&out)
}

} // verus!

verus! {

use crate::text::split_acc;

proof fn lemma_decimal_has_no_newline(n: nat)
    ensures
        !decimal(n).contains('\n'),
    decreases n,
{
    let d = crate::text::digit_char(n % 10);
    assert(d != '\n') by {
        assert((n % 10) + 48 >= 48);
    }
    if n < 10 {
        assert(decimal(n) =~= seq![crate::text::digit_char(n)]);
        assert(!decimal(n).contains('\n')) by {
            if decimal(n).contains('\n') {
                let i = choose|i: int| 0 <= i < decimal(n).len() && decimal(n)[i] == '\n';
                assert(i == 0);
            }
        }
    } else {
        lemma_decimal_has_no_newline(n / 10);
        let p = decimal(n / 10);
        assert(decimal(n) == p.push(d));
        assert(!decimal(n).contains('\n')) by {
            if decimal(n).contains('\n') {
                let i = choose|i: int| 0 <= i < decimal(n).len() && decimal(n)[i] == '\n';
                if i < p.len() {
                    assert(p[i] == '\n');
                }
            }
        }
    }
}

proof fn lemma_concat_has_no_newline(a: Seq<char>, b: Seq<char>)
    requires
        !a.contains('\n'),
        !b.contains('\n'),
    ensures
        !(a + b).contains('\n'),
{
    if (a + b).contains('\n') {
        let i = choose|i: int| 0 <= i < (a + b).len() && (a + b)[i] == '\n';
        if i < a.len() {
            assert(a[i] == '\n');
        } else {
            assert(b[i - a.len()] == '\n');
        }
    }
}

proof fn lemma_literal_has_no_newline(a: Seq<char>)
    requires
        forall|i: int| 0 <= i < a.len() ==> a[i] != '\n',
    ensures
        !a.contains('\n'),
{
}

proof fn lemma_color_has_no_newline(c: Color, bg: bool)
    ensures
        !color_sgr(c, bg).contains('\n'),
{
    let ext = decimal(if bg { 48 } else { 38 });
    lemma_decimal_has_no_newline(if bg { 48 } else { 38 });
    match c {
        Color::Basic(n) => {
            if n < 8 {
                lemma_decimal_has_no_newline(((if bg { 40nat } else { 30nat }) + n) as nat);
            } else {
                lemma_decimal_has_no_newline(((if bg { 100nat } else { 90nat }) + n - 8) as nat);
            }
        },
        Color::Ansi256(n) => {
            lemma_decimal_has_no_newline(n as nat);
            lemma_literal_has_no_newline(seq![';', '5', ';']);
            lemma_concat_has_no_newline(ext, seq![';', '5', ';']);
            lemma_concat_has_no_newline(ext + seq![';', '5', ';'], decimal(n as nat));
        },
        Color::Rgb(r, g, b) => {
            lemma_decimal_has_no_newline(r as nat);
            lemma_decimal_has_no_newline(g as nat);
            lemma_decimal_has_no_newline(b as nat);
            lemma_literal_has_no_newline(seq![';', '2', ';']);
            lemma_literal_has_no_newline(seq![';']);
            let x1 = ext + seq![';', '2', ';'];
            lemma_concat_has_no_newline(ext, seq![';', '2', ';']);
            lemma_concat_has_no_newline(x1, decimal(r as nat));
            lemma_concat_has_no_newline(x1 + decimal(r as nat), seq![';']);
            lemma_concat_has_no_newline(x1 + decimal(r as nat) + seq![';'], decimal(g as nat));
            lemma_concat_has_no_newline(x1 + decimal(r as nat) + seq![';'] + decimal(g as nat), seq![';']);
            lemma_concat_has_no_newline(
                x1 + decimal(r as nat) + seq![';'] + decimal(g as nat) + seq![';'],
                decimal(b as nat),
            );
        },
    }
}

proof fn lemma_join_has_no_newline(parts: Seq<Seq<char>>, sep: Seq<char>)
    requires
        !sep.contains('\n'),
        forall|i: int| 0 <= i < parts.len() ==> !(#[trigger] parts[i]).contains('\n'),
    ensures
        !join(parts, sep).contains('\n'),
    decreases parts.len(),
{
    if parts.len() == 0 {
        assert(join(parts, sep) =~= Seq::<char>::empty());
    } else if parts.len() > 1 {
        lemma_join_has_no_newline(parts.drop_last(), sep);
        assert(parts.last() == parts[parts.len() - 1]);
        lemma_concat_has_no_newline(join(parts.drop_last(), sep), sep);
        lemma_concat_has_no_newline(join(parts.drop_last(), sep) + sep, parts.last());
    }
}

proof fn lemma_params_have_no_newline(m: StyleModel)
    ensures
        forall|i: int| 0 <= i < style_params(m).len() ==> !(#[trigger] style_params(m)[i]).contains('\n'),
{
    lemma_literal_has_no_newline(seq!['1']);
    lemma_literal_has_no_newline(seq!['3']);
    lemma_literal_has_no_newline(seq!['4']);
    lemma_literal_has_no_newline(seq!['7']);
    lemma_literal_has_no_newline(seq!['9']);
    if let Some(c) = m.fg {
        lemma_color_has_no_newline(c, false);
    }
    if let Some(c) = m.bg {
        lemma_color_has_no_newline(c, true);
    }
}

proof fn lemma_strip_crlf_keeps_a_line(s: Seq<char>)
    requires
        !s.contains('\n'),
    ensures
        strip_crlf(s) == s,
    decreases s.len(),
{
    if s.len() > 0 {
        assert(!s.skip(1).contains('\n')) by {
            if s.skip(1).contains('\n') {
                let i = choose|i: int| 0 <= i < s.skip(1).len() && s.skip(1)[i] == '\n';
                assert(s[i + 1] == '\n');
            }
        }
        lemma_strip_crlf_keeps_a_line(s.skip(1));
        if s.len() > 1 {
            assert(s[1] != '\n') by {
                if s[1] == '\n' {
                    assert(s.contains('\n'));
                }
            }
        }
        assert(seq![s[0]] + s.skip(1) =~= s);
    }
}

proof fn lemma_split_acc_of_a_line(s: Seq<char>, sep: char)
    requires
        !s.contains(sep),
    ensures
        split_acc_is_one_piece(s, sep),
    decreases s.len(),
{
    if s.len() > 0 {
        assert(!s.drop_last().contains(sep)) by {
            if s.drop_last().contains(sep) {
                let i = choose|i: int| 0 <= i < s.drop_last().len() && s.drop_last()[i] == sep;
                assert(s[i] == sep);
            }
        }
        lemma_split_acc_of_a_line(s.drop_last(), sep);
        assert(s.last() == s[s.len() - 1]);
        if s[s.len() - 1] == sep {
            assert(s.contains(sep));
        }
        assert(s.drop_last().push(s.last()) =~= s);
        let r = crate::text::split_acc(s.drop_last(), sep);
        assert(split_acc(s, sep) == (r.0, r.1.push(s.last())));
    } else {
        assert(s =~= Seq::<char>::empty());
    }
}

spec fn split_acc_is_one_piece(s: Seq<char>, sep: char) -> bool {
    split_acc(s, sep) == (Seq::<Seq<char>>::empty(), s)
}

proof fn lemma_split_of_a_line(s: Seq<char>)
    requires
        !s.contains('\n'),
    ensures
        split(s, '\n') == seq![s],
{
    lemma_split_acc_of_a_line(s, '\n');
    assert(split(s, '\n') =~= seq![s]);
}

/// A style that sets only colours and attributes renders one line exactly
/// as its SGR attribute list styles it: bold, italic, underline, reverse,
/// foreground, background, strikethrough, in that order; with no attribute
/// the line comes back unchanged.
pub proof fn lemma_render_is_sgr_styled(m: StyleModel, s: Seq<char>)
    requires
        m.value.len() == 0,
        m.width == 0,
        m.height == 0,
        m.padding_left == 0,
        m.padding_right == 0,
        m.margin_right == 0,
        m.max_width == 0,
        m.has_props || style_params(m).len() == 0,
        !s.contains('\n'),
    ensures
        render_spec(m, s) == sgr_styled(style_params(m), s),
{
    let p = style_params(m);
    assert(render_input(m, s) == s);
    if m.has_props {
        lemma_strip_crlf_keeps_a_line(s);
        lemma_split_of_a_line(s);
        let t = sgr_styled(p, s);
        assert(styled_lines(seq![s], p) =~= seq![t]);
        assert(join(seq![t], seq!['\n']) == t);
        assert(render_lines(m, s) == t);
        lemma_params_have_no_newline(m);
        if p.len() > 0 {
            lemma_literal_has_no_newline(seq![';']);
            lemma_join_has_no_newline(p, seq![';']);
            lemma_literal_has_no_newline(seq![ESC, '[']);
            lemma_literal_has_no_newline(seq!['m']);
            lemma_literal_has_no_newline(reset_seq());
            lemma_concat_has_no_newline(seq![ESC, '['], join(p, seq![';']));
            lemma_concat_has_no_newline(seq![ESC, '['] + join(p, seq![';']), seq!['m']);
            lemma_concat_has_no_newline(sgr_sequence(p), s);
            lemma_concat_has_no_newline(sgr_sequence(p) + s, reset_seq());
        }
        assert(!t.contains('\n'));
        lemma_split_of_a_line(t);
        assert(!has_char(t, '\n'));
    }
}

} // verus!
