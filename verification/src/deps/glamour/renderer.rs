//! The ANSI renderer: a stack of block buffers, each of which collects its
//! children, word-wraps them to the width left over after indentation and
//! margins, then re-emits them indented and right-padded. Element styling
//! cascades down the stack.
use vstd::prelude::*;
use crate::deps::ansi::{chars_width, tokenize, truncate_chars, Token};
use crate::deps::glamour::ast::{Alignment, Node};
use crate::deps::glamour::autolink::detect;
use crate::deps::glamour::render::{
    format_token, link_domain, make_hyperlink, resolve_relative_url, sanitize_html, title_case,
    unescape_markdown,
};
use crate::deps::glamour::style::{
    cascade_block, cascade_blocks, cascade_primitives, fold_blocks, StyleBlock, StyleConfig, StylePrimitive,
};
use crate::deps::glamour::table::{Align, Border, Table};
use crate::deps::lipgloss::{parse_color, wrap_chars, Color, Sgr};
use crate::text::{
    chars_eq, chars_of, decimal, decimal_of, extend_chars, extend_str, lower_case, string_of, to_lower, to_lower_ascii,
    to_upper, trim_chars, upper_case,
};

verus! {

broadcast use vstd::string::group_string_axioms;

/// Renderer options.
#[derive(Debug, Clone)]
pub struct Options {
    /// Base URL relative links resolve against.
    pub base_url: String,
    /// Column at which text wraps; `0` disables wrapping and padding.
    pub word_wrap: i64,
    /// Whether over-long table cells wrap rather than truncate.
    pub table_wrap: bool,
    /// Whether links inside tables render inline instead of as footnotes.
    pub inline_table_links: bool,
    /// Whether paragraphs keep their source line breaks.
    pub preserve_new_lines: bool,
    /// The stylesheet.
    pub styles: StyleConfig,
}

impl Options {
    /// Options for `styles`: wrapping at 80 columns, table cells wrapped,
    /// table links as footnotes, soft breaks joined.
    pub fn with_styles(styles: StyleConfig) -> (r: Options)
        ensures
            r.base_url@.len() == 0,
            r.word_wrap == 80,
            r.table_wrap,
            !r.inline_table_links,
            !r.preserve_new_lines,
            r.styles == styles,
    {
        Options {
            base_url: String::new(),
            word_wrap: 80,
            table_wrap: true,
            inline_table_links: false,
            preserve_new_lines: false,
            styles,
        }
    }
}

/// One frame of the block stack.
struct Block {
    buf: Vec<char>,
    style: StyleBlock,
}

/// Where a write goes: the final output, the current block, or its parent.
#[derive(Clone, Copy, PartialEq, Eq)]
enum Target {
    Out,
    Current,
    Parent,
}

/// What a link collected out of a table stands for.
#[derive(Clone, Copy, PartialEq, Eq, Structural)]
enum FootnoteKind {
    Auto,
    Image,
    Regular,
}

/// A link collected out of a table for the footnote list below it.
struct TableLink {
    href: Vec<char>,
    content: Vec<char>,
    kind: FootnoteKind,
}

fn copy_link(l: &TableLink) -> (r: TableLink)
    ensures
        r.href@ == l.href@,
        r.content@ == l.content@,
        r.kind == l.kind,
{
    TableLink { href: copy_chars(&l.href), content: copy_chars(&l.content), kind: l.kind }
}

fn copy_links(v: &Vec<TableLink>) -> (r: Vec<TableLink>)
    ensures
        r@.len() == v@.len(),
{
    let mut out: Vec<TableLink> = Vec::new();
    let mut i: usize = 0;
    while i < v.len()
        invariant
            i <= v.len(),
            out@.len() == i,
        decreases v.len() - i,
    {
        out.push(copy_link(&v[i]));
        i += 1;
    }
    out
}

fn copy_chars(v: &Vec<char>) -> (r: Vec<char>)
    ensures
        r@ == v@,
{
    let mut r: Vec<char> = Vec::new();
    extend_chars(&mut r, v);
    r
}

fn same_link(a: &TableLink, b: &TableLink) -> (r: bool)
    ensures
        r == (a.href@ == b.href@ && a.content@ == b.content@ && a.kind == b.kind),
{
    a.kind == b.kind && chars_eq(&a.href, &b.href) && chars_eq(&a.content, &b.content)
}

/// The SGR parameters a primitive style asks for, in the order they are
/// written: foreground, background, underline, bold, italic, crossed out,
/// inverse, blink.
pub open spec fn sgr_params(r: crate::deps::glamour::style::PrimitiveView) -> Seq<Seq<char>> {
    let a = Seq::<Seq<char>>::empty();
    let a = match r.color {
        Some(c) => match parse_color(c) {
            Some(col) => a.push(crate::deps::lipgloss::color_sgr(col, false)),
            None => a,
        },
        None => a,
    };
    let a = match r.background_color {
        Some(c) => match parse_color(c) {
            Some(col) => a.push(crate::deps::lipgloss::color_sgr(col, true)),
            None => a,
        },
        None => a,
    };
    let a = if r.underline == Some(true) { a.push(seq!['4']) } else { a };
    let a = if r.bold == Some(true) { a.push(seq!['1']) } else { a };
    let a = if r.italic == Some(true) { a.push(seq!['3']) } else { a };
    let a = if r.crossed_out == Some(true) { a.push(seq!['9']) } else { a };
    let a = if r.inverse == Some(true) { a.push(seq!['7']) } else { a };
    if r.blink == Some(true) { a.push(seq!['5']) } else { a }
}

/// The text after the case rules of a primitive: upper, then lower, then
/// title case.
pub open spec fn cased(r: crate::deps::glamour::style::PrimitiveView, s: Seq<char>) -> Seq<char> {
    let a = if r.upper == Some(true) { upper_case(s) } else { s };
    let b = if r.lower == Some(true) { lower_case(a) } else { a };
    if r.title == Some(true) { crate::deps::glamour::render::title_spec(b, true) } else { b }
}

/// `s` styled by a primitive: nothing for nothing, else the cased text
/// wrapped in the style's SGR sequence.
pub open spec fn style_text_spec(r: crate::deps::glamour::style::PrimitiveView, s: Seq<char>) -> Seq<char> {
    if s.len() == 0 {
        Seq::empty()
    } else {
        crate::deps::lipgloss::sgr_styled(sgr_params(r), cased(r, s))
    }
}

/// Applies a style primitive to `s` and returns the styled text.
pub fn style_text(rules: &StylePrimitive, s: &Vec<char>) -> (r: Vec<char>)
    ensures
        r@ == style_text_spec(rules@, s@),
{
    if s.len() == 0 {
        return Vec::new();
    }
    let mut t = copy_chars(s);
    if rules.upper == Some(true) {
        t = to_upper(&t);
    }
    if rules.lower == Some(true) {
        t = to_lower(&t);
    }
    if rules.title == Some(true) {
        t = chars_of(title_case(string_of(&t).as_str()).as_str());
    }
    let mut style = Sgr::new();
    match &rules.color {
        Some(c) => match Color::parse(c.as_str()) {
            Some(col) => {
                style = style.foreground(&col);
            },
            None => {},
        },
        None => {},
    }
    match &rules.background_color {
        Some(c) => match Color::parse(c.as_str()) {
            Some(col) => {
                style = style.background(&col);
            },
            None => {},
        },
        None => {},
    }
    if rules.underline == Some(true) {
        style = style.underline();
    }
    if rules.bold == Some(true) {
        style = style.bold();
    }
    if rules.italic == Some(true) {
        style = style.italic();
    }
    if rules.crossed_out == Some(true) {
        style = style.crossed_out();
    }
    if rules.inverse == Some(true) {
        style = style.inverse();
    }
    if rules.blink == Some(true) {
        style = style.blink();
    }
    style.styled_chars(&t)
}

fn str_chars(s: &String) -> (r: Vec<char>)
    ensures
        r@ == s@,
{
    chars_of(s.as_str())
}

/// Renders a markdown document to ANSI text.
pub struct Renderer {
    opts: Options,
    stack: Vec<Block>,
    out: Vec<char>,
    scratch: Vec<char>,
    table_links: Vec<TableLink>,
    table_images: Vec<TableLink>,
    in_table: bool,
}

/// The number of decimal digits of `n`.
fn digits(n: usize) -> (r: usize) {
    decimal_of(n as u64).len()
}

/// `list` without repeats, first occurrences kept.
fn dedup(list: Vec<TableLink>) -> (r: Vec<TableLink>) {
    let mut out: Vec<TableLink> = Vec::new();
    let mut rest = list;
    while rest.len() > 0
        decreases rest.len(),
    {
        let item = rest.remove(0);
        let mut seen = false;
        let mut k: usize = 0;
        while k < out.len()
            invariant
                k <= out.len(),
            decreases out.len() - k,
        {
            if same_link(&out[k], &item) {
                seen = true;
            }
            k += 1;
        }
        if !seen {
            out.push(item);
        }
    }
    out
}

/// The link's content, with its footnote number when it is in `list`.
fn link_with_suffix(tl: &TableLink, list: &Vec<TableLink>) -> (r: Vec<char>) {
    let mut k: usize = 0;
    while k < list.len()
        invariant
            k <= list.len(),
        decreases list.len() - k,
    {
        if same_link(&list[k], tl) {
            let mut out = copy_chars(&tl.content);
            out.push('[');
            let n = decimal_of(k as u64 + 1);
            extend_chars(&mut out, &n);
            out.push(']');
            return out;
        }
        k += 1;
    }
    copy_chars(&tl.content)
}

/// `url`, with `mailto:` in front of an email address that lacks it.
fn mail_url(url: &String, is_email: bool) -> (r: Vec<char>) {
    let u = str_chars(url);
    if is_email {
        let low = to_lower(&u);
        let pre = chars_of("mailto:");
        let mut prefixed = low.len() >= pre.len();
        let mut i: usize = 0;
        while prefixed && i < pre.len()
            invariant
                i <= pre.len(),
                prefixed ==> low.len() >= pre.len(),
            decreases pre.len() - i,
        {
            if low[i] != pre[i] {
                prefixed = false;
            }
            i += 1;
        }
        if !prefixed {
            let mut m = pre;
            extend_chars(&mut m, &u);
            return m;
        }
    }
    u
}

/// The links and images of a table cell node, for the footnote lists.
fn collect_links(node: &Node, links: &mut Vec<TableLink>, images: &mut Vec<TableLink>)
    decreases *node,
{
    match node {
        Node::AutoLink { url, is_email } => {
            let u = mail_url(url, *is_email);
            let us = string_of(&u);
            let content = match detect(us.as_str()) {
                Some(short) => str_chars(&short),
                None => str_chars(&link_domain(us.as_str())),
            };
            links.push(TableLink { href: u, content, kind: FootnoteKind::Auto });
        },
        Node::Image { text, destination } => {
            let content = if text.as_str().len() == 0 {
                str_chars(&link_domain(destination.as_str()))
            } else {
                str_chars(text)
            };
            images.push(TableLink { href: str_chars(destination), content, kind: FootnoteKind::Image });
        },
        Node::Link { destination, children } => {
            let mut content: Vec<char> = Vec::new();
            let mut i: usize = 0;
            while i < children.len()
                invariant
                    i <= children.len(),
                decreases children.len() - i,
            {
                let t = children[i].text_content();
                extend_str(&mut content, t.as_str());
                i += 1;
            }
            links.push(TableLink { href: str_chars(destination), content, kind: FootnoteKind::Regular });
            collect_all(children, links, images);
        },
        Node::Strikethrough { children, .. } => collect_all(children, links, images),
        Node::Document(c) => collect_all(c, links, images),
        Node::Paragraph(c) => collect_all(c, links, images),
        Node::BlockQuote(c) => collect_all(c, links, images),
        Node::DefinitionList(c) => collect_all(c, links, images),
        Node::DefinitionTerm(c) => collect_all(c, links, images),
        Node::DefinitionDescription(c) => collect_all(c, links, images),
        Node::Heading { children, .. } => collect_all(children, links, images),
        Node::ListItem { children, .. } => collect_all(children, links, images),
        Node::Emphasis { children, .. } => collect_all(children, links, images),
        Node::List { items, .. } => collect_all(items, links, images),
        _ => {},
    }
}

fn collect_all(nodes: &Vec<Node>, links: &mut Vec<TableLink>, images: &mut Vec<TableLink>)
    decreases nodes,
{
    let mut i: usize = 0;
    while i < nodes.len()
        invariant
            i <= nodes.len(),
        decreases nodes.len() - i,
    {
        assert(decreases_to!(nodes => nodes@[i as int]));
        collect_links(&nodes[i], links, images);
        i += 1;
    }
}

/// Whether a node is rendered through an element that accepts a style
/// override.
fn is_overridable(node: &Node) -> (r: bool) {
    match node {
        Node::Text(_) => true,
        Node::Strikethrough { .. } => true,
        Node::ThematicBreak => true,
        Node::HtmlBlock(_) => true,
        Node::RawHtml(_) => true,
        Node::Emphasis { .. } => true,
        _ => false,
    }
}

/// `a + b` for block geometry, saturating.
fn add_sat(a: u64, b: u64) -> (r: u64)
    ensures
        r == if a + b > u64::MAX { u64::MAX as int } else { a + b },
{
    if a > u64::MAX - b {
        u64::MAX
    } else {
        a + b
    }
}

fn opt_u32(o: Option<u32>) -> (r: u64)
    ensures
        r == match o {
            Some(v) => v as int,
            None => 0,
        },
{
    match o {
        Some(v) => v as u64,
        None => 0,
    }
}

fn repeat_styled(out: &mut Vec<char>, style: &StylePrimitive, token: &Vec<char>, n: u64) {
    let piece = style_text(style, token);
    let mut i: u64 = 0;
    while i < n
        invariant
            i <= n,
        decreases n - i,
    {
        extend_chars(out, &piece);
        i += 1;
    }
}

impl Renderer {
    /// The options the renderer was made with.
    pub closed spec fn options(&self) -> Options {
        self.opts
    }

    /// What the renderer has written so far.
    pub closed spec fn written(&self) -> Seq<char> {
        self.out@
    }

    /// A renderer with the given options and nothing written yet.
    pub fn new(opts: Options) -> (r: Renderer)
        ensures
            r.options() == opts,
            r.written().len() == 0,
    {
        Renderer {
            opts,
            stack: Vec::new(),
            out: Vec::new(),
            scratch: Vec::new(),
            table_links: Vec::new(),
            table_images: Vec::new(),
            in_table: false,
        }
    }

    /// Renders the document `doc` and returns the styled text.
    pub fn render_node(self, doc: &Node) -> (r: String) {
        let mut me = self;
        me.document(doc);
        string_of(&me.out)
    }

    /// Renders `source` and returns the styled text.
    pub fn render(self, source: &str) -> (r: String) {
        let doc = crate::deps::glamour::tree::parse(source);
        self.render_node(&doc)
    }

    fn sub(&self) -> (r: Renderer) {
        Renderer {
            opts: self.opts.clone(),
            stack: Vec::new(),
            out: Vec::new(),
            scratch: Vec::new(),
            table_links: copy_links(&self.table_links),
            table_images: copy_links(&self.table_images),
            in_table: self.in_table,
        }
    }

    // ---- block stack ----

    fn indent(&self) -> (r: u64) {
        let mut s: u64 = 0;
        let mut i: usize = 0;
        while i < self.stack.len()
            invariant
                i <= self.stack.len(),
            decreases self.stack.len() - i,
        {
            s = add_sat(s, opt_u32(self.stack[i].style.indent));
            i += 1;
        }
        s
    }

    fn margin(&self) -> (r: u64) {
        let mut s: u64 = 0;
        let mut i: usize = 0;
        while i < self.stack.len()
            invariant
                i <= self.stack.len(),
            decreases self.stack.len() - i,
        {
            s = add_sat(s, opt_u32(self.stack[i].style.margin));
            i += 1;
        }
        s
    }

    /// Columns available to the current block's content.
    fn width(&self) -> (r: u64) {
        let m = self.margin();
        let used = add_sat(self.indent(), add_sat(m, m));
        if self.opts.word_wrap <= 0 || used > self.opts.word_wrap as u64 {
            0
        } else {
            self.opts.word_wrap as u64 - used
        }
    }

    fn current_style(&self) -> (r: StyleBlock) {
        if self.stack.len() == 0 {
            StyleBlock::default()
        } else {
            self.stack[self.stack.len() - 1].style.clone()
        }
    }

    fn parent_style(&self) -> (r: StyleBlock) {
        if self.stack.len() < 2 {
            StyleBlock::default()
        } else {
            self.stack[self.stack.len() - 2].style.clone()
        }
    }

    fn push_block(&mut self, style: StyleBlock) {
        self.stack.push(Block { buf: Vec::new(), style });
    }

    fn pop_block(&mut self) -> (r: Vec<char>) {
        match self.stack.pop() {
            Some(b) => b.buf,
            None => Vec::new(),
        }
    }

    fn current_buf(&self) -> (r: Vec<char>) {
        if self.stack.len() == 0 {
            Vec::new()
        } else {
            copy_chars(&self.stack[self.stack.len() - 1].buf)
        }
    }

    /// The style a child primitive inherits from the current block.
    fn with(&self, child: &StylePrimitive) -> (r: StylePrimitive) {
        let mut sb = StyleBlock::default();
        sb.primitive = child.clone();
        cascade_block(&self.current_style(), &sb, false).primitive
    }

    fn write(&mut self, target: Target, s: &Vec<char>) {
        if s.len() == 0 {
            return;
        }
        let n = self.stack.len();
        match target {
            Target::Out => extend_chars(&mut self.out, s),
            Target::Current => {
                if n == 0 {
                    extend_chars(&mut self.out, s);
                } else {
                    let mut b = self.stack.remove(n - 1);
                    extend_chars(&mut b.buf, s);
                    self.stack.insert(n - 1, b);
                }
            },
            Target::Parent => {
                if n >= 2 {
                    let mut b = self.stack.remove(n - 2);
                    extend_chars(&mut b.buf, s);
                    self.stack.insert(n - 2, b);
                } else {
                    extend_chars(&mut self.scratch, s);
                }
            },
        }
    }

    fn write_str(&mut self, target: Target, s: &str) {
        let v = chars_of(s);
        self.write(target, &v);
    }

    fn entering_target(&self) -> (r: Target) {
        if self.stack.len() == 0 {
            Target::Out
        } else {
            Target::Current
        }
    }

    fn exiting_target(&self) -> (r: Target) {
        if self.stack.len() == 0 {
            Target::Out
        } else {
            Target::Parent
        }
    }

    fn render_text(&mut self, target: Target, rules: &StylePrimitive, s: &Vec<char>) {
        let styled = style_text(rules, s);
        self.write(target, &styled);
    }

    fn render_str(&mut self, target: Target, rules: &StylePrimitive, s: &String) {
        let v = str_chars(s);
        self.render_text(target, rules, &v);
    }

    /// Renders a leaf element: prefixes, the token, and suffixes. `st1` is
    /// the enclosing block's style and `st2` the element's own.
    fn base_element(
        &mut self,
        target: Target,
        st1: &StylePrimitive,
        st2: &StylePrimitive,
        prefix: &Vec<char>,
        suffix: &Vec<char>,
        token: &Vec<char>,
    ) {
        self.render_text(target, st1, prefix);
        self.render_str(target, st1, &st2.block_prefix);
        self.render_str(target, st2, &st2.prefix);
        let tok = string_of(token);
        let body = if st2.format.as_str().len() == 0 {
            tok
        } else {
            format_token(st2.format.as_str(), tok.as_str())
        };
        let un = unescape_markdown(body.as_str());
        self.render_str(target, st2, &un);
        self.render_str(target, st2, &st2.suffix);
        self.render_str(target, st1, &st2.block_suffix);
        self.render_text(target, st1, suffix);
    }

    fn leaf(&mut self, own: &StylePrimitive, token: &Vec<char>) {
        let st1 = self.current_style().primitive;
        let st2 = self.with(own);
        let t = self.entering_target();
        let e: Vec<char> = Vec::new();
        self.base_element(t, &st1, &st2, &e, &e, token);
    }

    /// Writes `content` through the indent, margin and padding pipeline:
    /// `indent + margin` leading tokens per line, then every completed line
    /// right-padded to the block width.
    fn margin_write(&mut self, target: Target, content: &Vec<char>, rules: &StyleBlock) {
        let indent = add_sat(opt_u32(rules.indent), opt_u32(rules.margin));
        let indent_token = match &rules.indent_token {
            Some(t) => str_chars(t),
            None => chars_of(" "),
        };
        let padding = self.width();
        let pad_style = rules.primitive.clone();
        let indent_style = self.parent_style().primitive;
        let space = chars_of(" ");
        let toks = tokenize(content);
        let mut chunk: Vec<char> = Vec::new();
        let mut line: Vec<char> = Vec::new();
        let mut at_line_start = true;
        let mut i: usize = 0;
        while i < toks.len()
            invariant
                i <= toks.len(),
            decreases toks.len() - i,
        {
            if at_line_start {
                repeat_styled(&mut chunk, &indent_style, &indent_token, indent);
                at_line_start = false;
            }
            match &toks[i] {
                Token::Escape(e) => {
                    extend_chars(&mut line, e);
                    extend_chars(&mut chunk, e);
                },
                Token::Text(t, _) => {
                    if t.len() == 1 && t[0] == '\n' {
                        let w = chars_width(&line) as u64;
                        if padding > 0 && w < padding {
                            repeat_styled(&mut chunk, &pad_style, &space, padding - w);
                        }
                        line = Vec::new();
                        at_line_start = true;
                    } else {
                        extend_chars(&mut line, t);
                    }
                    extend_chars(&mut chunk, t);
                },
            }
            i += 1;
        }
        self.write(target, &chunk);
    }

    /// Writes `content` with only the indent applied, as code blocks and
    /// tables are.
    fn indent_write(&mut self, target: Target, content: &Vec<char>, indent: u64, style: &StylePrimitive) {
        if content.len() == 0 {
            return;
        }
        let space = chars_of(" ");
        let toks = tokenize(content);
        let mut chunk: Vec<char> = Vec::new();
        let mut at_line_start = true;
        let mut i: usize = 0;
        while i < toks.len()
            invariant
                i <= toks.len(),
            decreases toks.len() - i,
        {
            if at_line_start {
                repeat_styled(&mut chunk, style, &space, indent);
                at_line_start = false;
            }
            match &toks[i] {
                Token::Escape(e) => extend_chars(&mut chunk, e),
                Token::Text(t, _) => {
                    if t.len() == 1 && t[0] == '\n' {
                        at_line_start = true;
                    }
                    extend_chars(&mut chunk, t);
                },
            }
            i += 1;
        }
        self.write(target, &chunk);
    }

    /// Opens a block styled `block_style`, writing the rules' block prefix
    /// to the parent and their prefix to the block.
    fn open_block(&mut self, block_style: StyleBlock, rules: &StylePrimitive) {
        self.push_block(block_style);
        let parent = self.parent_style().primitive;
        let bp = style_text(&parent, &str_chars(&rules.block_prefix));
        self.write(Target::Parent, &bp);
        let cur = self.current_style().primitive;
        self.render_str(Target::Current, &cur, &rules.prefix);
    }

    /// Writes the closing suffixes of the current block and pops it.
    fn close_block(&mut self, target: Target, rules: &StylePrimitive) {
        let cur = self.current_style().primitive;
        self.render_str(target, &cur, &rules.suffix);
        let parent = self.parent_style().primitive;
        self.render_str(target, &parent, &rules.block_suffix);
        self.pop_block();
    }

    // ---- blocks ----

    fn document(&mut self, node: &Node) {
        let style = self.opts.styles.document.clone();
        let none = StylePrimitive::default();
        self.render_str(Target::Out, &none, &style.primitive.block_prefix);
        self.push_block(style.clone());
        let cur = self.current_style().primitive;
        self.render_str(Target::Current, &cur, &style.primitive.prefix);
        match node {
            Node::Document(c) => self.children(c),
            _ => self.node(node, true),
        }
        let content = self.current_buf();
        let w = self.width() as i64;
        let bps = chars_of(" ,.;-+|");
        let wrapped = wrap_chars(&content, w, &bps);
        let rules = self.current_style();
        self.margin_write(Target::Out, &wrapped, &rules);
        let cur = self.current_style().primitive;
        self.render_str(Target::Out, &cur, &style.primitive.suffix);
        self.render_str(Target::Out, &none, &style.primitive.block_suffix);
        self.pop_block();
    }

    /// Renders a run of sibling nodes.
    fn children(&mut self, nodes: &Vec<Node>)
        decreases nodes, 3int,
    {
        let mut i: usize = 0;
        while i < nodes.len()
            invariant
                i <= nodes.len(),
            decreases nodes.len() - i,
        {
            assert(decreases_to!(nodes => nodes@[i as int]));
            self.node(&nodes[i], i == 0);
            i += 1;
        }
    }

    fn node(&mut self, node: &Node, first: bool)
        decreases *node, 2int,
    {
        match node {
            Node::Document(children) => self.children(children),
            Node::Heading { level, children } => self.heading(*level, children, first),
            Node::Paragraph(children) => self.paragraph(children, first),
            Node::BlockQuote(children) => self.block_quote(children),
            Node::List { ordered, start, items } => self.list(*ordered, *start, items),
            Node::ListItem { .. } => {},
            Node::CodeBlock { code, .. } => self.code_block(code),
            Node::HtmlBlock(html) => {
                let own = self.opts.styles.html_block.primitive.clone();
                let token = str_chars(&sanitize_html(html.as_str(), true));
                self.leaf(&own, &token);
            },
            Node::RawHtml(html) => {
                let own = self.opts.styles.html_span.primitive.clone();
                let token = str_chars(&sanitize_html(html.as_str(), true));
                self.leaf(&own, &token);
            },
            Node::ThematicBreak => {
                let own = self.opts.styles.horizontal_rule.clone();
                let e: Vec<char> = Vec::new();
                self.leaf(&own, &e);
            },
            Node::Table { .. } => self.table(node),
            Node::DefinitionList(children) => {
                let rules = cascade_block(&self.current_style(), &self.opts.styles.definition_list.clone(), false);
                self.block(children, rules, true);
            },
            Node::DefinitionTerm(children) => {
                let t = self.entering_target();
                self.write_str(t, "\n");
                let st1 = self.current_style().primitive;
                let st2 = self.with(&self.opts.styles.definition_term.clone());
                let e: Vec<char> = Vec::new();
                self.base_element(t, &st1, &st2, &e, &e, &e);
                self.children(children);
            },
            Node::DefinitionDescription(children) => {
                let t = self.entering_target();
                let st1 = self.current_style().primitive;
                let st2 = self.with(&self.opts.styles.definition_description.clone());
                let e: Vec<char> = Vec::new();
                self.base_element(t, &st1, &st2, &e, &e, &e);
                self.children(children);
                self.write_str(Target::Current, "\n");
            },
            Node::Text(text) => {
                let own = self.opts.styles.text.clone();
                self.leaf(&own, &str_chars(text));
            },
            Node::CodeSpan(text) => {
                let style = cascade_block(&self.current_style(), &self.opts.styles.code.clone(), false).primitive;
                let mut token = str_chars(&style.prefix);
                extend_str(&mut token, text.as_str());
                extend_str(&mut token, style.suffix.as_str());
                let t = self.entering_target();
                self.render_text(t, &style, &token);
            },
            Node::Emphasis { level, children } => {
                let style = if *level > 1 {
                    self.opts.styles.strong.clone()
                } else {
                    self.opts.styles.emph.clone()
                };
                self.emphasis(children, &style);
            },
            Node::Strikethrough { text, .. } => {
                let own = self.opts.styles.strikethrough.clone();
                self.leaf(&own, &str_chars(text));
            },
            Node::Link { destination, children } => self.link(destination, children),
            Node::AutoLink { url, is_email } => self.auto_link(url, *is_email),
            Node::Image { text, destination } => self.image(text, destination),
        }
    }

    /// The rules a heading of `level` is drawn with: the heading style with
    /// the style of its own level laid over it, so that a level-n heading
    /// carries the h<n> prefix; levels past six take the sixth.
    fn heading_rules(&self, level: usize) -> (r: StyleBlock)
        ensures
            level == 1 ==> r@ == fold_blocks(seq![self.opts.styles.heading@, self.opts.styles.h1@], 2),
            level == 2 ==> r@ == fold_blocks(seq![self.opts.styles.heading@, self.opts.styles.h2@], 2),
            level == 3 ==> r@ == fold_blocks(seq![self.opts.styles.heading@, self.opts.styles.h3@], 2),
            level == 4 ==> r@ == fold_blocks(seq![self.opts.styles.heading@, self.opts.styles.h4@], 2),
            level == 5 ==> r@ == fold_blocks(seq![self.opts.styles.heading@, self.opts.styles.h5@], 2),
            (level == 0 || level >= 6) ==> r@ == fold_blocks(seq![self.opts.styles.heading@, self.opts.styles.h6@], 2),
    {
        let base = self.opts.styles.heading.clone();
        let lvl = if level == 1 {
            self.opts.styles.h1.clone()
        } else if level == 2 {
            self.opts.styles.h2.clone()
        } else if level == 3 {
            self.opts.styles.h3.clone()
        } else if level == 4 {
            self.opts.styles.h4.clone()
        } else if level == 5 {
            self.opts.styles.h5.clone()
        } else {
            self.opts.styles.h6.clone()
        };
        let parts = [&base, &lvl];
        let r = cascade_blocks(&parts);
        proof {
            assert(parts@.map_values(|s: &StyleBlock| s@) =~= seq![base@, lvl@]);
        }
        r
    }

    fn heading(&mut self, level: usize, children: &Vec<Node>, first: bool)
        decreases children, 4int,
    {
        let rules = self.heading_rules(level);
        let t = self.entering_target();
        if !first {
            let cur = self.current_style().primitive;
            self.render_text(t, &cur, &chars_of("\n"));
        }
        let block_style = cascade_block(&self.current_style(), &rules, false);
        self.open_block(block_style, &rules.primitive);
        self.children(children);
        let content = self.current_buf();
        let w = self.width() as i64;
        let flow = wrap_chars(&content, w, &Vec::new());
        let block_rules = self.current_style();
        let target = self.exiting_target();
        self.margin_write(target, &flow, &block_rules);
        self.close_block(target, &block_rules.primitive);
    }

    fn paragraph(&mut self, children: &Vec<Node>, first: bool)
        decreases children, 4int,
    {
        let rules = self.opts.styles.paragraph.clone();
        let t = self.entering_target();
        if !first {
            self.write_str(t, "\n");
        }
        let block_style = cascade_block(&self.current_style(), &rules, false);
        self.open_block(block_style, &rules.primitive);
        self.children(children);
        let content = self.current_buf();
        let block_rules = self.current_style();
        let target = self.exiting_target();
        if trim_chars(&content).len() > 0 {
            let blk = if self.opts.preserve_new_lines {
                content
            } else {
                crate::text::replace_char_with(&content, '\n', &chars_of(" "))
            };
            let w = self.width() as i64;
            let mut flow = wrap_chars(&blk, w, &Vec::new());
            flow.push('\n');
            self.margin_write(target, &flow, &block_rules);
        }
        self.close_block(target, &block_rules.primitive);
    }

    fn block_quote(&mut self, children: &Vec<Node>)
        decreases children, 6int,
    {
        let t = self.entering_target();
        self.write_str(t, "\n");
        let rules = cascade_block(&self.current_style(), &self.opts.styles.block_quote.clone(), false);
        self.block(children, rules, false);
    }

    fn list(&mut self, ordered: bool, start: u64, items: &Vec<Node>)
        decreases items, 6int,
    {
        let t = self.entering_target();
        self.write_str(t, "\n");
        let mut s = self.opts.styles.list.block.clone();
        if s.indent.is_none() {
            s.indent = Some(0);
        }
        let mut nested = false;
        let mut k: usize = 0;
        while k < self.stack.len()
            invariant
                k <= self.stack.len(),
            decreases self.stack.len() - k,
        {
            if self.stack[k].style.is_list {
                nested = true;
            }
            k += 1;
        }
        if nested {
            s.indent = Some(self.opts.styles.list.level_indent);
        }
        let rules = cascade_block(&self.current_style(), &s, false);
        let mut block_style = rules.clone();
        block_style.is_list = true;
        self.open_block(block_style, &rules.primitive);
        let mut i: usize = 0;
        while i < items.len()
            invariant
                i <= items.len(),
            decreases items.len() - i,
        {
            assert(decreases_to!(items => items@[i as int]));
            match &items[i] {
                Node::ListItem { children, task } => {
                    self.list_item(children, *task, ordered, start, i, i + 1 == items.len());
                },
                _ => {},
            }
            i += 1;
        }
        self.finish_block(&rules, true);
    }

    /// The marker an item opens with: the box of a task, the number of an
    /// item in an ordered list, nothing otherwise. In an ordered list that
    /// starts at `start`, the item at `index` is numbered `start + index`.
    fn item_marker(&self, task: Option<bool>, ordered: bool, start: u64, index: usize) -> (r: Vec<char>)
        ensures
            task is None && ordered ==> r@ == decimal((start + index) as nat),
            task is None && !ordered ==> r@.len() == 0,
            task == Some(true) ==> r@ == self.opts.styles.task.ticked@,
            task == Some(false) ==> r@ == self.opts.styles.task.unticked@,
    {
        match task {
            Some(checked) => {
                if checked {
                    str_chars(&self.opts.styles.task.ticked)
                } else {
                    str_chars(&self.opts.styles.task.unticked)
                }
            },
            None => {
                if ordered {
                    let i = index as u128 + 1;
                    let n: u128 = if start != 1 {
                        i + start as u128 - 1
                    } else {
                        i
                    };
                    crate::text::decimal_of_u128(n)
                } else {
                    Vec::new()
                }
            },
        }
    }

    fn list_item(&mut self, children: &Vec<Node>, task: Option<bool>, ordered: bool, start: u64, index: usize, last: bool)
        decreases children, 4int,
    {
        let st1 = self.current_style().primitive;
        let t = self.entering_target();
        let e: Vec<char> = Vec::new();
        let pre = self.item_marker(task, ordered, start, index);
        match task {
            Some(_) => {
                let task_style = self.opts.styles.task.clone();
                let st2 = self.with(&task_style.primitive);
                self.base_element(t, &st1, &st2, &pre, &e, &e);
            },
            None => {
                if ordered {
                    let st2 = self.with(&self.opts.styles.enumeration.clone());
                    self.base_element(t, &st1, &st2, &pre, &e, &e);
                } else {
                    let st2 = self.with(&self.opts.styles.item.clone());
                    self.base_element(t, &st1, &st2, &e, &e, &e);
                }
            },
        }
        self.children(children);
        let ends_with_list = children.len() > 0 && match &children[children.len() - 1] {
            Node::List { .. } => true,
            _ => false,
        };
        if !ends_with_list && !last {
            self.write_str(Target::Current, "\n");
        }
    }

    /// Pushes a margin block, renders `children` into it and finishes it.
    fn block(&mut self, children: &Vec<Node>, rules: StyleBlock, newline: bool)
        decreases children, 5int,
    {
        self.open_block(rules.clone(), &rules.primitive);
        self.children(children);
        self.finish_block(&rules, newline);
    }

    fn finish_block(&mut self, rules: &StyleBlock, newline: bool) {
        let content = self.current_buf();
        let w = self.width() as i64;
        let bps = chars_of(" ,.;-+|");
        let mut wrapped = wrap_chars(&content, w, &bps);
        if newline {
            wrapped.push('\n');
        }
        let block_rules = self.current_style();
        let target = self.exiting_target();
        self.margin_write(target, &wrapped, &block_rules);
        self.close_block(target, &rules.primitive);
    }

    fn code_block(&mut self, code: &String) {
        let t = self.entering_target();
        self.write_str(t, "\n");
        let rules = self.opts.styles.code_block.clone();
        let indent = add_sat(opt_u32(rules.block.indent), opt_u32(rules.block.margin));
        let cur = self.current_style().primitive;
        let st2 = self.with(&rules.block.primitive);
        let mut buf = Renderer::new(self.opts.clone());
        buf.push_block(self.current_style());
        let e: Vec<char> = Vec::new();
        buf.base_element(Target::Out, &cur, &st2, &e, &e, &str_chars(code));
        let body = copy_chars(&buf.out);
        self.indent_write(t, &body, indent, &cur);
    }

    fn emphasis(&mut self, children: &Vec<Node>, style: &StylePrimitive)
        decreases children, 4int,
    {
        let t = self.entering_target();
        let mut i: usize = 0;
        while i < children.len()
            invariant
                i <= children.len(),
            decreases children.len() - i,
        {
            assert(decreases_to!(children => children@[i as int]));
            self.override_render(t, &children[i], style);
            i += 1;
        }
    }

    /// Renders `node` with `over` cascaded onto its own style.
    fn override_render(&mut self, target: Target, node: &Node, over: &StylePrimitive)
        decreases *node, 3int,
    {
        match node {
            Node::Emphasis { level, children } => {
                let base = if *level > 1 {
                    self.opts.styles.strong.clone()
                } else {
                    self.opts.styles.emph.clone()
                };
                let parts = [&base, over];
                let merged = cascade_primitives(&parts);
                let t = self.entering_target();
                let mut i: usize = 0;
                proof {
                    assert forall|j: int| 0 <= j < children@.len() implies decreases_to!(*node => #[trigger] children@[j]) by {
                        assert(decreases_to!(*node => *children));
                        assert(decreases_to!(*children => children@));
                        assert(decreases_to!(children@ => children@[j]));
                    }
                }
                while i < children.len()
                    invariant
                        i <= children.len(),
                        forall|j: int| 0 <= j < children@.len() ==> decreases_to!(*node => #[trigger] children@[j]),
                    decreases children.len() - i,
                {
                    self.override_render(t, &children[i], &merged);
                    i += 1;
                }
            },
            Node::Text(text) => {
                let own = self.opts.styles.text.clone();
                self.base_override(target, &own, over, &str_chars(text));
            },
            Node::Strikethrough { text, .. } => {
                let own = self.opts.styles.strikethrough.clone();
                self.base_override(target, &own, over, &str_chars(text));
            },
            Node::HtmlBlock(html) => {
                let own = self.opts.styles.html_block.primitive.clone();
                let token = str_chars(&sanitize_html(html.as_str(), true));
                self.base_override(target, &own, over, &token);
            },
            Node::RawHtml(html) => {
                let own = self.opts.styles.html_span.primitive.clone();
                let token = str_chars(&sanitize_html(html.as_str(), true));
                self.base_override(target, &own, over, &token);
            },
            Node::ThematicBreak => {
                let own = self.opts.styles.horizontal_rule.clone();
                self.base_override(target, &own, over, &Vec::new());
            },
            _ => self.node(node, false),
        }
    }

    fn base_override(&mut self, target: Target, own: &StylePrimitive, over: &StylePrimitive, token: &Vec<char>) {
        let cur = self.current_style().primitive;
        let p1 = [&cur, over];
        let st1 = cascade_primitives(&p1);
        let with_own = self.with(own);
        let p2 = [&with_own, over];
        let st2 = cascade_primitives(&p2);
        let e: Vec<char> = Vec::new();
        self.base_element(target, &st1, &st2, &e, &e, token);
    }

    /// Renders `node` into a detached buffer with the current block's style.
    fn render_detached(&mut self, node: &Node, over: Option<&StylePrimitive>) -> (r: Vec<char>)
        decreases *node, 4int,
    {
        let mut sub = self.sub();
        sub.push_block(self.current_style());
        match over {
            Some(o) => sub.override_render(Target::Current, node, o),
            None => sub.node(node, false),
        }
        sub.pop_block()
    }

    fn link(&mut self, destination: &String, children: &Vec<Node>)
        decreases children, 5int,
    {
        let e: Vec<char> = Vec::new();
        let (open, close, valid) = make_hyperlink(destination.as_str());
        if self.in_table && !self.opts.inline_table_links {
            let mut content: Vec<char> = Vec::new();
            let mut i: usize = 0;
            while i < children.len()
                invariant
                    i <= children.len(),
                decreases children.len() - i,
            {
                let t = children[i].text_content();
                extend_str(&mut content, t.as_str());
                i += 1;
            }
            let tl = TableLink { href: str_chars(destination), content, kind: FootnoteKind::Regular };
            let text = link_with_suffix(&tl, &self.table_links);
            let mut token = str_chars(&open);
            extend_chars(&mut token, &text);
            extend_str(&mut token, close.as_str());
            let own = self.opts.styles.link_text.clone();
            self.leaf(&own, &token);
            return;
        }
        let link_text = self.opts.styles.link_text.clone();
        let mut i: usize = 0;
        while i < children.len()
            invariant
                i <= children.len(),
            decreases children.len() - i,
        {
            assert(decreases_to!(children => children@[i as int]));
            let t = self.entering_target();
            if is_overridable(&children[i]) {
                let inner = self.render_detached(&children[i], Some(&link_text));
                let mut w = str_chars(&open);
                extend_chars(&mut w, &inner);
                extend_str(&mut w, close.as_str());
                self.write(t, &w);
            } else {
                let inner = self.render_detached(&children[i], None);
                let mut token = str_chars(&open);
                extend_chars(&mut token, &inner);
                extend_str(&mut token, close.as_str());
                let st1 = self.current_style().primitive;
                let st2 = self.with(&link_text);
                self.base_element(t, &st1, &st2, &e, &e, &token);
            }
            i += 1;
        }
        if valid {
            let resolved = resolve_relative_url(self.opts.base_url.as_str(), destination.as_str());
            let mut token = str_chars(&open);
            extend_str(&mut token, resolved.as_str());
            extend_str(&mut token, close.as_str());
            let st1 = self.current_style().primitive;
            let st2 = self.with(&self.opts.styles.link.clone());
            let t = self.entering_target();
            self.base_element(t, &st1, &st2, &chars_of(" "), &e, &token);
        }
    }

    fn auto_link(&mut self, url: &String, is_email: bool) {
        let e: Vec<char> = Vec::new();
        let u = mail_url(url, is_email);
        let us = string_of(&u);
        let (open, close, valid) = make_hyperlink(us.as_str());
        if self.in_table && !self.opts.inline_table_links {
            let content = match detect(us.as_str()) {
                Some(short) => str_chars(&short),
                None => str_chars(&link_domain(us.as_str())),
            };
            let tl = TableLink { href: copy_chars(&u), content, kind: FootnoteKind::Auto };
            let text = link_with_suffix(&tl, &self.table_links);
            let mut token = str_chars(&open);
            extend_chars(&mut token, &text);
            extend_str(&mut token, close.as_str());
            let own = self.opts.styles.link_text.clone();
            self.leaf(&own, &token);
            return;
        }
        if is_email {
            let mut token = str_chars(&open);
            extend_str(&mut token, url.as_str());
            extend_str(&mut token, close.as_str());
            let own = self.opts.styles.link_text.clone();
            self.leaf(&own, &token);
        } else if valid {
            let resolved = resolve_relative_url(self.opts.base_url.as_str(), us.as_str());
            let mut token = str_chars(&open);
            extend_str(&mut token, resolved.as_str());
            extend_str(&mut token, close.as_str());
            let st1 = self.current_style().primitive;
            let st2 = self.with(&self.opts.styles.link.clone());
            let t = self.entering_target();
            self.base_element(t, &st1, &st2, &e, &e, &token);
        }
    }

    fn image(&mut self, text: &String, destination: &String) {
        let e: Vec<char> = Vec::new();
        let text_only = self.in_table && !self.opts.inline_table_links;
        let mut txt = str_chars(text);
        if text_only {
            if txt.len() == 0 {
                txt = str_chars(&link_domain(destination.as_str()));
            }
            let tl = TableLink { href: str_chars(destination), content: copy_chars(&txt), kind: FootnoteKind::Image };
            txt = link_with_suffix(&tl, &self.table_images);
        }
        let (open, close, _) = make_hyperlink(destination.as_str());
        let mut style = self.opts.styles.image_text.clone();
        if text_only {
            let f = str_chars(&style.format);
            let arrow = chars_of(" →");
            if f.len() >= arrow.len() {
                let cut = f.len() - arrow.len();
                let mut ends = true;
                let mut k: usize = 0;
                while k < arrow.len()
                    invariant
                        k <= arrow.len(),
                        cut + arrow.len() == f.len(),
                    decreases arrow.len() - k,
                {
                    if f[cut + k] != arrow[k] {
                        ends = false;
                    }
                    k += 1;
                }
                if ends {
                    let mut kept: Vec<char> = Vec::new();
                    let mut j: usize = 0;
                    while j < cut
                        invariant
                            j <= cut,
                            cut <= f.len(),
                        decreases cut - j,
                    {
                        kept.push(f[j]);
                        j += 1;
                    }
                    style.format = string_of(&kept);
                }
            }
        }
        if txt.len() > 0 {
            let mut token = str_chars(&open);
            extend_chars(&mut token, &txt);
            extend_str(&mut token, close.as_str());
            self.leaf(&style, &token);
        }
        if text_only {
            return;
        }
        if destination.as_str().len() > 0 {
            let resolved = resolve_relative_url(self.opts.base_url.as_str(), destination.as_str());
            let mut token = str_chars(&open);
            extend_str(&mut token, resolved.as_str());
            extend_str(&mut token, close.as_str());
            let st1 = self.current_style().primitive;
            let st2 = self.with(&self.opts.styles.image.clone());
            let t = self.entering_target();
            self.base_element(t, &st1, &st2, &chars_of(" "), &e, &token);
        }
    }

    fn table(&mut self, node: &Node)
        decreases *node, 1int,
    {
        match node {
            Node::Table { alignments, head, rows } => {
                let t = self.entering_target();
                self.write_str(t, "\n");
                let rules = self.opts.styles.table.clone();
                let indent = add_sat(opt_u32(rules.block.indent), opt_u32(rules.block.margin));
                let width = self.width();
                self.table_links = Vec::new();
                self.table_images = Vec::new();
                if !self.opts.inline_table_links {
                    let mut links: Vec<TableLink> = Vec::new();
                    let mut images: Vec<TableLink> = Vec::new();
                    let mut i: usize = 0;
                    while i < head.len()
                        invariant
                            i <= head.len(),
                        decreases head.len() - i,
                    {
                        collect_all(&head[i], &mut links, &mut images);
                        i += 1;
                    }
                    let mut r: usize = 0;
                    while r < rows.len()
                        invariant
                            r <= rows.len(),
                        decreases rows.len() - r,
                    {
                        let mut c: usize = 0;
                        while c < rows[r].len()
                            invariant
                                c <= rows[r as int].len(),
                                r < rows.len(),
                            decreases rows[r as int].len() - c,
                        {
                            collect_all(&rows[r][c], &mut links, &mut images);
                            c += 1;
                        }
                        r += 1;
                    }
                    self.table_links = dedup(links);
                    self.table_images = dedup(images);
                }
                self.in_table = true;
                let cell_style = rules.block.primitive.clone();
                let mut headers: Vec<String> = Vec::new();
                let mut i: usize = 0;
                proof {
                    assert forall|j: int| 0 <= j < head@.len() implies decreases_to!(*node => #[trigger] head@[j]) by {
                        assert(decreases_to!(*node => *head));
                        assert(decreases_to!(*head => head@));
                        assert(decreases_to!(head@ => head@[j]));
                    }
                    assert forall|j: int, k: int| 0 <= j < rows@.len() && 0 <= k < rows@[j]@.len() implies decreases_to!(*node => #[trigger] rows@[j]@[k]) by {
                        assert(decreases_to!(*node => *rows));
                        assert(decreases_to!(*rows => rows@));
                        assert(decreases_to!(rows@ => rows@[j]));
                        assert(decreases_to!(rows@[j] => rows@[j]@));
                        assert(decreases_to!(rows@[j]@ => rows@[j]@[k]));
                    }
                }
                while i < head.len()
                    invariant
                        i <= head.len(),
                        forall|j: int| 0 <= j < head@.len() ==> decreases_to!(*node => #[trigger] head@[j]),
                    decreases head.len() - i,
                {
                    let cell = self.render_cell(&head[i], &cell_style);
                    headers.push(string_of(&cell));
                    i += 1;
                }
                let mut body: Vec<Vec<String>> = Vec::new();
                let mut r: usize = 0;
                while r < rows.len()
                    invariant
                        r <= rows.len(),
                        forall|j: int, k: int| 0 <= j < rows@.len() && 0 <= k < rows@[j]@.len() ==> decreases_to!(*node => #[trigger] rows@[j]@[k]),
                    decreases rows.len() - r,
                {
                    let mut row: Vec<String> = Vec::new();
                    let mut c: usize = 0;
                    while c < rows[r].len()
                        invariant
                            c <= rows[r as int].len(),
                            r < rows.len(),
                            forall|j: int, k: int| 0 <= j < rows@.len() && 0 <= k < rows@[j]@.len() ==> decreases_to!(*node => #[trigger] rows@[j]@[k]),
                        decreases rows[r as int].len() - c,
                    {
                        let cell = self.render_cell(&rows[r][c], &cell_style);
                        row.push(string_of(&cell));
                        c += 1;
                    }
                    body.push(row);
                    r += 1;
                }
                self.in_table = false;
                let tw: usize = if width > usize::MAX as u64 {
                    usize::MAX
                } else {
                    width as usize
                };
                let mut table = Table::new(tw);
                table.wrap = self.opts.table_wrap;
                table.headers = headers;
                table.rows = body;
                let mut aligns: Vec<Align> = Vec::new();
                let mut a: usize = 0;
                while a < alignments.len()
                    invariant
                        a <= alignments.len(),
                    decreases alignments.len() - a,
                {
                    let al = match alignments[a] {
                        Alignment::Right => Align::Right,
                        Alignment::Center => Align::Center,
                        _ => Align::Left,
                    };
                    aligns.push(al);
                    a += 1;
                }
                table.aligns = aligns;
                match (&rules.row_separator, &rules.column_separator, &rules.center_separator) {
                    (Some(row), Some(col), Some(center)) => {
                        table.border = Border { top: row.clone(), left: col.clone(), middle: center.clone() };
                    },
                    _ => {},
                }
                table.margin = match rules.block.margin {
                    Some(m) => m as usize,
                    None => 1,
                };
                let rendered: Vec<char> = if table.fits_machine() {
                    str_chars(&table.render())
                } else {
                    Vec::new()
                };
                let cur = self.current_style().primitive;
                self.indent_write(Target::Current, &rendered, indent, &cur);
                let st2 = self.with(&rules.block.primitive);
                self.render_str(Target::Current, &st2, &rules.block.primitive.suffix);
                let cur = self.current_style().primitive;
                self.render_str(Target::Current, &cur, &rules.block.primitive.block_suffix);
                self.print_table_links();
                self.write_str(Target::Current, "\n");
            },
            _ => {},
        }
    }

    fn render_cell(&mut self, cell: &Vec<Node>, style: &StylePrimitive) -> (r: Vec<char>)
        decreases cell, 5int,
    {
        let mut sub = self.sub();
        sub.in_table = true;
        sub.push_block(self.current_style());
        let e: Vec<char> = Vec::new();
        let mut i: usize = 0;
        while i < cell.len()
            invariant
                i <= cell.len(),
            decreases cell.len() - i,
        {
            assert(decreases_to!(cell => cell@[i as int]));
            if is_overridable(&cell[i]) {
                sub.override_render(Target::Current, &cell[i], style);
            } else {
                let inner = sub.render_detached(&cell[i], None);
                let st1 = sub.current_style().primitive;
                let st2 = sub.with(style);
                sub.base_element(Target::Current, &st1, &st2, &e, &e, &inner);
            }
            i += 1;
        }
        sub.pop_block()
    }

    fn render_link_list(&mut self, list: &Vec<TableLink>, cur: &StylePrimitive, term_width: u64) {
        let e: Vec<char> = Vec::new();
        let mut i: usize = 0;
        while i < list.len()
            invariant
                i <= list.len(),
            decreases list.len() - i,
        {
            let item = &list[i];
            let position: u64 = i as u64 + 1;
            let dl = digits(list.len());
            let dp = digits(i + 1);
            let padding: usize = if dl > dp {
                dl - dp
            } else {
                0
            };
            self.render_text(Target::Current, cur, &chars_of("\n"));
            let pos = decimal_of(position);
            let mut token: Vec<char> = Vec::new();
            let mut p: usize = 0;
            while p < padding
                invariant
                    p <= padding,
                decreases padding - p,
            {
                token.push(' ');
                p += 1;
            }
            let mut style;
            match item.kind {
                FootnoteKind::Image => {
                    style = self.opts.styles.image_text.clone();
                    let mut pre: Vec<char> = Vec::new();
                    pre.push('[');
                    extend_chars(&mut pre, &pos);
                    extend_str(&mut pre, "]: ");
                    extend_str(&mut pre, style.prefix.as_str());
                    style.prefix = string_of(&pre);
                    extend_chars(&mut token, &item.content);
                },
                _ => {
                    style = self.opts.styles.link_text.clone();
                    token.push('[');
                    extend_chars(&mut token, &pos);
                    extend_str(&mut token, "]: ");
                    extend_chars(&mut token, &item.content);
                },
            }
            let st1 = self.current_style().primitive;
            let st2 = self.with(&style);
            let before = self.current_buf();
            self.base_element(Target::Current, &st1, &st2, &e, &e, &token);
            let after = self.current_buf();
            let mut link_text: Vec<char> = Vec::new();
            let mut q: usize = before.len();
            while q < after.len()
                invariant
                    q <= after.len() || q == before.len(),
                decreases after.len() - q,
            {
                link_text.push(after[q]);
                q += 1;
            }
            self.render_text(Target::Current, cur, &chars_of(" "));
            let (open, close, _) = make_hyperlink(string_of(&item.href).as_str());
            let lw = chars_width(&link_text) as u64;
            let max: u64 = if lw < u64::MAX && term_width > lw + 1 {
                term_width - lw - 1
            } else {
                0
            };
            let mx: usize = if max > usize::MAX as u64 {
                usize::MAX
            } else {
                max as usize
            };
            let href = truncate_chars(&item.href, mx, &chars_of("…"));
            let href_style = match item.kind {
                FootnoteKind::Image => self.opts.styles.image.clone(),
                _ => self.opts.styles.link.clone(),
            };
            let st1 = self.current_style().primitive;
            let st2 = self.with(&href_style);
            let mut tok = str_chars(&open);
            extend_chars(&mut tok, &href);
            extend_str(&mut tok, close.as_str());
            self.base_element(Target::Current, &st1, &st2, &e, &e, &tok);
            i += 1;
        }
    }

    fn print_table_links(&mut self) {
        if self.opts.inline_table_links || (self.table_links.len() == 0 && self.table_images.len() == 0) {
            return;
        }
        let term_width = self.width();
        let cur = self.current_style().primitive;
        let links = copy_links(&self.table_links);
        let images = copy_links(&self.table_images);
        if links.len() > 0 {
            self.render_text(Target::Current, &cur, &chars_of("\n"));
        }
        self.render_link_list(&links, &cur, term_width);
        if images.len() > 0 {
            self.render_text(Target::Current, &cur, &chars_of("\n"));
        }
        self.render_link_list(&images, &cur, term_width);
    }
}

} // verus!
