//! Roff document generation: the macro constants, the "never emit a blank
//! line" write rule, and the text escaping.
use vstd::prelude::*;
use crate::text::{
    chars_of, decimal, decimal_of, extend_chars, extend_str, has_prefix, has_suffix,
    lemma_take_push, replace_char, replace_char_with, split, split_chars, string_of, to_upper,
    trim, trim_chars, upper_case,
};

verus! {

broadcast use vstd::string::group_string_axioms;

/// Switches to the bold font.
pub const BOLD: &'static str = "\\fB";
/// Switches to the italic font.
pub const ITALIC: &'static str = "\\fI";
/// Switches back to the previous font.
pub const PREVIOUS_FONT: &'static str = "\\fP";

/// A roff document under construction.
#[derive(Debug, Default)]
pub struct Document {
    buffer: Vec<char>,
}

impl View for Document {
    type V = Seq<char>;

    closed spec fn view(&self) -> Seq<char> {
        self.buffer@
    }
}

/// Appending `s`, dropping its leading newline if the buffer already ends in
/// one, so that no blank line is ever written.
pub open spec fn write_spec(buf: Seq<char>, s: Seq<char>) -> Seq<char> {
    if buf.len() > 0 && buf.last() == '\n' && s.len() > 0 && s[0] == '\n' {
        buf + s.skip(1)
    } else {
        buf + s
    }
}

/// Appending `s` and a newline.
pub open spec fn writeln_spec(buf: Seq<char>, s: Seq<char>) -> Seq<char> {
    write_spec(buf, s.push('\n'))
}

/// Roff's two significant characters escaped in running text.
pub open spec fn escaped(s: Seq<char>) -> Seq<char> {
    replace_char(replace_char(s, '\\', seq!['\\', 'e']), '.', seq!['\\', '&', '.'])
}

/// A number, or nothing when negative.
pub open spec fn opt_number(n: int) -> Seq<char> {
    if n >= 0 {
        seq![' '] + decimal(n as nat)
    } else {
        Seq::empty()
    }
}

/// `"\n.PP"`.
pub open spec fn paragraph_macro() -> Seq<char> {
    seq!['\n', '.', 'P', 'P']
}

/// `"\n.RS"` with an optional indent.
pub open spec fn indent_macro(n: int) -> Seq<char> {
    seq!['\n', '.', 'R', 'S'] + opt_number(n)
}

/// `"\n.RE"`.
pub open spec fn indent_end_macro() -> Seq<char> {
    seq!['\n', '.', 'R', 'E']
}

/// `"\n.TP"` with an optional indent.
pub open spec fn tagged_macro(n: int) -> Seq<char> {
    seq!['\n', '.', 'T', 'P'] + opt_number(n)
}

/// A bulleted list item.
pub open spec fn list_macro(text: Seq<char>) -> Seq<char> {
    seq!['\n', '.', 'I', 'P', ' ', '\\', '(', 'b', 'u', ' ', '3', '\n'] + escaped(trim(text))
}

/// A section heading.
pub open spec fn section_macro(text: Seq<char>) -> Seq<char> {
    seq!['\n', '.', 'S', 'H', ' '] + upper_case(text)
}

/// The title heading line.
pub open spec fn heading_line(section: nat, title: Seq<char>, description: Seq<char>, date: Seq<char>) -> Seq<char> {
    seq!['.', 'T', 'H', ' '] + upper_case(title) + seq![' '] + decimal(section) + seq![' ', '"']
        + date + seq!['"', ' ', '"'] + title + seq!['"', ' ', '"'] + description + seq!['"']
}

/// Writing one line of running text, given whether a list is open.
pub open spec fn text_line(buf: Seq<char>, in_list: bool, i: int, s: Seq<char>) -> (Seq<char>, bool) {
    let b1 = if i > 0 && !in_list { writeln_spec(buf, paragraph_macro()) } else { buf };
    if s.len() > 0 && s[0] == '*' {
        let b2 = if !in_list { writeln_spec(b1, indent_macro(-1)) } else { b1 };
        (writeln_spec(b2, list_macro(s.skip(1))), true)
    } else {
        let b2 = if in_list { writeln_spec(b1, indent_end_macro()) } else { b1 };
        (write_spec(b2, escaped(s)), false)
    }
}

/// Writing the first `k` lines of running text.
pub open spec fn text_fold(buf: Seq<char>, lines: Seq<Seq<char>>, k: int) -> (Seq<char>, bool)
    decreases k,
{
    if k <= 0 {
        (buf, false)
    } else {
        let (b, l) = text_fold(buf, lines, k - 1);
        text_line(b, l, k - 1, lines[k - 1])
    }
}

/// Writing text: `\n`-separated lines become paragraphs and `*`-prefixed
/// lines a bulleted list.
pub open spec fn text_spec(buf: Seq<char>, text: Seq<char>) -> Seq<char> {
    let lines = split(text, '\n');
    text_fold(buf, lines, lines.len() as int).0
}

fn escape_chars(s: &Vec<char>) -> (r: Vec<char>)
    ensures
        r@ == escaped(s@),
{
    let mut e: Vec<char> = Vec::new();
    e.push('\\');
    e.push('e');
    let mut d: Vec<char> = Vec::new();
    d.push('\\');
    d.push('&');
    d.push('.');
    assert(e@ =~= seq!['\\', 'e']);
    assert(d@ =~= seq!['\\', '&', '.']);
    let a = replace_char_with(s, '\\', &e);
    replace_char_with(&a, '.', &d)
}

/// Escapes roff's two significant characters in running text: a backslash
/// becomes `\e` and a period `\&.`.
pub fn escape_text(s: &str) -> (r: String)
    ensures
        r@ == escaped(s@),
{
    string_of(&escape_chars(&chars_of(s)))
}

fn number_suffix(v: &mut Vec<char>, n: i32)
    ensures
        final(v)@ == old(v)@ + opt_number(n as int),
{
    if n >= 0 {
        v.push(' ');
        let d = decimal_of(n as u64);
        extend_chars(v, &d);
    } else {
        assert(old(v)@ + Seq::<char>::empty() =~= old(v)@);
    }
}

fn lit(s: &str) -> (r: Vec<char>)
    ensures
        r@ == s@,
{
    chars_of(s)
}

impl Document {
    /// An empty document.
    pub fn new() -> (r: Document)
        ensures
            r@ == Seq::<char>::empty(),
    {
        Document { buffer: Vec::new() }
    }

    fn write(&mut self, s: &Vec<char>)
        ensures
            final(self)@ == write_spec(old(self)@, s@),
    {
        let n = self.buffer.len();
        if n > 0 && self.buffer[n - 1] == '\n' && s.len() > 0 && s[0] == '\n' {
            let rest = crate::text::slice_chars(s, 1, s.len());
            assert(rest@ =~= s@.skip(1));
            extend_chars(&mut self.buffer, &rest);
        } else {
            extend_chars(&mut self.buffer, s);
        }
    }

    fn writeln(&mut self, s: &Vec<char>)
        ensures
            final(self)@ == writeln_spec(old(self)@, s@),
    {
        let mut t: Vec<char> = Vec::new();
        extend_chars(&mut t, s);
        t.push('\n');
        assert(t@ =~= s@.push('\n'));
        self.write(&t);
    }

    /// Writes the title heading of the document.
    pub fn heading(&mut self, section: u32, title: &str, description: &str, date: &str)
        ensures
            final(self)@ == write_spec(old(self)@, heading_line(section as nat, title@, description@, date@)),
    {
        let t = chars_of(title);
        let mut line: Vec<char> = Vec::new();
        line.push('.');
        line.push('T');
        line.push('H');
        line.push(' ');
        let up = to_upper(&t);
        extend_chars(&mut line, &up);
        line.push(' ');
        let d = decimal_of(section as u64);
        extend_chars(&mut line, &d);
        line.push(' ');
        line.push('"');
        extend_str(&mut line, date);
        line.push('"');
        line.push(' ');
        line.push('"');
        extend_chars(&mut line, &t);
        line.push('"');
        line.push(' ');
        line.push('"');
        extend_str(&mut line, description);
        line.push('"');
        assert(line@ =~= heading_line(section as nat, title@, description@, date@));
        self.write(&line);
    }

    /// Starts a new paragraph.
    pub fn paragraph(&mut self)
        ensures
            final(self)@ == writeln_spec(old(self)@, paragraph_macro()),
    {
        let mut m: Vec<char> = Vec::new();
        m.push('\n');
        m.push('.');
        m.push('P');
        m.push('P');
        assert(m@ =~= paragraph_macro());
        self.writeln(&m);
    }

    /// Increases the indentation level; a negative level is left unstated.
    pub fn indent(&mut self, n: i32)
        ensures
            final(self)@ == writeln_spec(old(self)@, indent_macro(n as int)),
    {
        let mut m: Vec<char> = Vec::new();
        m.push('\n');
        m.push('.');
        m.push('R');
        m.push('S');
        number_suffix(&mut m, n);
        assert(m@ =~= indent_macro(n as int));
        self.writeln(&m);
    }

    /// Decreases the indentation level.
    pub fn indent_end(&mut self)
        ensures
            final(self)@ == writeln_spec(old(self)@, indent_end_macro()),
    {
        let mut m: Vec<char> = Vec::new();
        m.push('\n');
        m.push('.');
        m.push('R');
        m.push('E');
        assert(m@ =~= indent_end_macro());
        self.writeln(&m);
    }

    /// Starts a new tagged paragraph.
    pub fn tagged_paragraph(&mut self, indentation: i32)
        ensures
            final(self)@ == writeln_spec(old(self)@, tagged_macro(indentation as int)),
    {
        let mut m: Vec<char> = Vec::new();
        m.push('\n');
        m.push('.');
        m.push('T');
        m.push('P');
        number_suffix(&mut m, indentation);
        assert(m@ =~= tagged_macro(indentation as int));
        self.writeln(&m);
    }

    fn list_chars(&mut self, text: &Vec<char>)
        ensures
            final(self)@ == writeln_spec(old(self)@, list_macro(text@)),
    {
        let mut m: Vec<char> = Vec::new();
        m.push('\n');
        m.push('.');
        m.push('I');
        m.push('P');
        m.push(' ');
        m.push('\\');
        m.push('(');
        m.push('b');
        m.push('u');
        m.push(' ');
        m.push('3');
        m.push('\n');
        let t = trim_chars(text);
        let e = escape_chars(&t);
        extend_chars(&mut m, &e);
        assert(m@ =~= list_macro(text@));
        self.writeln(&m);
    }

    /// Writes a list item.
    pub fn list(&mut self, text: &str)
        ensures
            final(self)@ == writeln_spec(old(self)@, list_macro(text@)),
    {
        let t = chars_of(text);
        self.list_chars(&t);
    }

    /// Writes a section heading.
    pub fn section(&mut self, text: &str)
        ensures
            final(self)@ == writeln_spec(old(self)@, section_macro(text@)),
    {
        let t = chars_of(text);
        let mut m: Vec<char> = Vec::new();
        m.push('\n');
        m.push('.');
        m.push('S');
        m.push('H');
        m.push(' ');
        let up = to_upper(&t);
        extend_chars(&mut m, &up);
        assert(m@ =~= section_macro(text@));
        self.writeln(&m);
    }

    /// Ends the current section.
    pub fn end_section(&mut self)
        ensures
            final(self)@ == writeln_spec(old(self)@, Seq::empty()),
    {
        let m: Vec<char> = Vec::new();
        self.writeln(&m);
    }

    /// Writes text, turning `\n`-separated lines into paragraphs and
    /// `*`-prefixed lines into a bulleted list.
    pub fn text_chars(&mut self, text: &Vec<char>)
        ensures
            final(self)@ == text_spec(old(self)@, text@),
    {
        let ghost start = self@;
        let lines = split_chars(text, '\n');
        let ghost views = lines@.map_values(|q: Vec<char>| q@);
        let mut in_list = false;
        let mut i: usize = 0;
        while i < lines.len()
            invariant
                i <= lines.len(),
                views == lines@.map_values(|q: Vec<char>| q@),
                views == split(text@, '\n'),
                (self@, in_list) == text_fold(start, views, i as int),
            decreases lines.len() - i,
        {
            assert(views[i as int] == lines@[i as int]@);
            let s = &lines[i];
            if i > 0 && !in_list {
                self.paragraph();
            }
            if s.len() > 0 && s[0] == '*' {
                if !in_list {
                    self.indent(-1);
                    in_list = true;
                }
                let item = crate::text::slice_chars(s, 1, s.len());
                assert(item@ =~= s@.skip(1));
                self.list_chars(&item);
            } else {
                if in_list {
                    self.indent_end();
                    in_list = false;
                }
                let e = escape_chars(s);
                self.write(&e);
            }
            i += 1;
        }
    }

    /// Writes text, turning `\n`-separated lines into paragraphs and
    /// `*`-prefixed lines into a bulleted list.
    pub fn text(&mut self, text: &str)
        ensures
            final(self)@ == text_spec(old(self)@, text@),
    {
        let t = chars_of(text);
        self.text_chars(&t);
    }

    /// Writes text in bold.
    pub fn text_bold(&mut self, text: &str)
        ensures
            final(self)@ == write_spec(text_spec(write_spec(old(self)@, seq!['\\', 'f', 'B']), text@), seq!['\\', 'f', 'P']),
    {
        let mut b: Vec<char> = Vec::new();
        b.push('\\');
        b.push('f');
        b.push('B');
        let mut p: Vec<char> = Vec::new();
        p.push('\\');
        p.push('f');
        p.push('P');
        assert(b@ =~= seq!['\\', 'f', 'B']);
        assert(p@ =~= seq!['\\', 'f', 'P']);
        self.write(&b);
        self.text(text);
        self.write(&p);
    }

    /// Writes text in italic.
    pub fn text_italic(&mut self, text: &str)
        ensures
            final(self)@ == write_spec(text_spec(write_spec(old(self)@, seq!['\\', 'f', 'I']), text@), seq!['\\', 'f', 'P']),
    {
        let mut b: Vec<char> = Vec::new();
        b.push('\\');
        b.push('f');
        b.push('I');
        let mut p: Vec<char> = Vec::new();
        p.push('\\');
        p.push('f');
        p.push('P');
        assert(b@ =~= seq!['\\', 'f', 'I']);
        assert(p@ =~= seq!['\\', 'f', 'P']);
        self.write(&b);
        self.text(text);
        self.write(&p);
    }

    /// The document text.
    pub fn to_string(&self) -> (r: String)
        ensures
            r@ == self@,
    {
        string_of(&self.buffer)
    }
}

/// The write rule never creates a blank line: if neither the buffer nor the
/// written text holds an empty line, the result holds none either.
pub open spec fn no_blank_line(s: Seq<char>) -> bool {
    forall|i: int| 0 <= i < s.len() - 1 ==> !(#[trigger] s[i] == '\n' && s[i + 1] == '\n')
}

/// Writing never joins two newlines: a buffer and a piece without blank lines
/// stay without blank lines once written together.
pub proof fn lemma_write_keeps_no_blank_line(buf: Seq<char>, s: Seq<char>)
    requires
        no_blank_line(buf),
        no_blank_line(s),
    ensures
        no_blank_line(write_spec(buf, s)),
{
    let r = write_spec(buf, s);
    if buf.len() > 0 && buf.last() == '\n' && s.len() > 0 && s[0] == '\n' {
        let t = s.skip(1);
        assert forall|i: int| 0 <= i < r.len() - 1 implies !(#[trigger] r[i] == '\n' && r[i + 1] == '\n') by {
            if i + 1 < buf.len() {
            } else if i + 1 == buf.len() {
                if t.len() > 0 {
                    assert(r[i + 1] == s[1]);
                }
            } else {
                assert(r[i] == s[i - buf.len() + 1]);
                assert(r[i + 1] == s[i - buf.len() + 2]);
            }
        }
    } else {
        assert forall|i: int| 0 <= i < r.len() - 1 implies !(#[trigger] r[i] == '\n' && r[i + 1] == '\n') by {
            if i + 1 < buf.len() {
            } else if i + 1 == buf.len() {
                assert(r[i + 1] == s[0]);
            } else {
                assert(r[i] == s[i - buf.len()]);
                assert(r[i + 1] == s[i - buf.len() + 1]);
            }
        }
    }
}

} // verus!
