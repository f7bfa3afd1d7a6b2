//! The style model: what each markdown element looks like, and how a child
//! element's style is laid over its parent's.
use vstd::prelude::*;

verus! {

/// The contents of an optional string.
pub open spec fn opt_view(o: Option<String>) -> Option<Seq<char>> {
    match o {
        Some(s) => Some(s@),
        None => None,
    }
}

fn copy_opt(o: &Option<String>) -> (r: Option<String>)
    ensures
        opt_view(r) == opt_view(*o),
        r == *o,
{
    match o {
        Some(s) => Some(s.clone()),
        None => None,
    }
}

/// Colours and text attributes applied to a single element.
#[derive(Debug, PartialEq, Eq)]
pub struct StylePrimitive {
    pub block_prefix: String,
    pub block_suffix: String,
    pub prefix: String,
    pub suffix: String,
    pub color: Option<String>,
    pub background_color: Option<String>,
    pub underline: Option<bool>,
    pub bold: Option<bool>,
    pub upper: Option<bool>,
    pub lower: Option<bool>,
    pub title: Option<bool>,
    pub italic: Option<bool>,
    pub crossed_out: Option<bool>,
    pub faint: Option<bool>,
    pub conceal: Option<bool>,
    pub inverse: Option<bool>,
    pub blink: Option<bool>,
    pub format: String,
}

/// What a primitive style is.
pub struct PrimitiveView {
    pub block_prefix: Seq<char>,
    pub block_suffix: Seq<char>,
    pub prefix: Seq<char>,
    pub suffix: Seq<char>,
    pub color: Option<Seq<char>>,
    pub background_color: Option<Seq<char>>,
    pub underline: Option<bool>,
    pub bold: Option<bool>,
    pub upper: Option<bool>,
    pub lower: Option<bool>,
    pub title: Option<bool>,
    pub italic: Option<bool>,
    pub crossed_out: Option<bool>,
    pub faint: Option<bool>,
    pub conceal: Option<bool>,
    pub inverse: Option<bool>,
    pub blink: Option<bool>,
    pub format: Seq<char>,
}

impl View for StylePrimitive {
    type V = PrimitiveView;

    open spec fn view(&self) -> PrimitiveView {
        PrimitiveView {
            block_prefix: self.block_prefix@,
            block_suffix: self.block_suffix@,
            prefix: self.prefix@,
            suffix: self.suffix@,
            color: opt_view(self.color),
            background_color: opt_view(self.background_color),
            underline: self.underline,
            bold: self.bold,
            upper: self.upper,
            lower: self.lower,
            title: self.title,
            italic: self.italic,
            crossed_out: self.crossed_out,
            faint: self.faint,
            conceal: self.conceal,
            inverse: self.inverse,
            blink: self.blink,
            format: self.format@,
        }
    }
}

/// The primitive that sets nothing.
pub open spec fn empty_primitive() -> PrimitiveView {
    PrimitiveView {
        block_prefix: Seq::empty(),
        block_suffix: Seq::empty(),
        prefix: Seq::empty(),
        suffix: Seq::empty(),
        color: None,
        background_color: None,
        underline: None,
        bold: None,
        upper: None,
        lower: None,
        title: None,
        italic: None,
        crossed_out: None,
        faint: None,
        conceal: None,
        inverse: None,
        blink: None,
        format: Seq::empty(),
    }
}

impl Clone for StylePrimitive {
    fn clone(&self) -> (r: StylePrimitive)
        ensures
            r == *self,
    {
        StylePrimitive {
            block_prefix: self.block_prefix.clone(),
            block_suffix: self.block_suffix.clone(),
            prefix: self.prefix.clone(),
            suffix: self.suffix.clone(),
            color: copy_opt(&self.color),
            background_color: copy_opt(&self.background_color),
            underline: self.underline,
            bold: self.bold,
            upper: self.upper,
            lower: self.lower,
            title: self.title,
            italic: self.italic,
            crossed_out: self.crossed_out,
            faint: self.faint,
            conceal: self.conceal,
            inverse: self.inverse,
            blink: self.blink,
            format: self.format.clone(),
        }
    }
}

impl Default for StylePrimitive {
    fn default() -> (r: StylePrimitive)
        ensures
            r@ == empty_primitive(),
    {
        StylePrimitive {
            block_prefix: String::new(),
            block_suffix: String::new(),
            prefix: String::new(),
            suffix: String::new(),
            color: None,
            background_color: None,
            underline: None,
            bold: None,
            upper: None,
            lower: None,
            title: None,
            italic: None,
            crossed_out: None,
            faint: None,
            conceal: None,
            inverse: None,
            blink: None,
            format: String::new(),
        }
    }
}

/// The child's value when it sets one, else the parent's.
pub open spec fn or_parent<T>(child: Option<T>, parent: Option<T>) -> Option<T> {
    if child is Some {
        child
    } else {
        parent
    }
}

/// The child's text when it has some; an empty one inherits from the parent
/// in block context only.
pub open spec fn text_or_parent(child: Seq<char>, parent: Seq<char>, to_block: bool) -> Seq<char> {
    if child.len() == 0 && to_block {
        parent
    } else {
        child
    }
}

/// `child` laid over `parent`: the child wins wherever it sets a field; the
/// prefix and suffix fields inherit only in block context, and the format is
/// never inherited.
pub open spec fn cascade_primitive_spec(parent: PrimitiveView, child: PrimitiveView, to_block: bool) -> PrimitiveView {
    PrimitiveView {
        block_prefix: text_or_parent(child.block_prefix, parent.block_prefix, to_block),
        block_suffix: text_or_parent(child.block_suffix, parent.block_suffix, to_block),
        prefix: text_or_parent(child.prefix, parent.prefix, to_block),
        suffix: text_or_parent(child.suffix, parent.suffix, to_block),
        color: or_parent(child.color, parent.color),
        background_color: or_parent(child.background_color, parent.background_color),
        underline: or_parent(child.underline, parent.underline),
        bold: or_parent(child.bold, parent.bold),
        upper: or_parent(child.upper, parent.upper),
        lower: or_parent(child.lower, parent.lower),
        title: or_parent(child.title, parent.title),
        italic: or_parent(child.italic, parent.italic),
        crossed_out: or_parent(child.crossed_out, parent.crossed_out),
        faint: or_parent(child.faint, parent.faint),
        conceal: or_parent(child.conceal, parent.conceal),
        inverse: or_parent(child.inverse, parent.inverse),
        blink: or_parent(child.blink, parent.blink),
        format: child.format,
    }
}

fn pick_text(child: &String, parent: &String, to_block: bool) -> (r: String)
    ensures
        r@ == text_or_parent(child@, parent@, to_block),
{
    if child.as_str().is_empty() && to_block {
        parent.clone()
    } else {
        child.clone()
    }
}

fn pick_opt_text(child: &Option<String>, parent: &Option<String>) -> (r: Option<String>)
    ensures
        opt_view(r) == or_parent(opt_view(*child), opt_view(*parent)),
{
    if child.is_some() {
        copy_opt(child)
    } else {
        copy_opt(parent)
    }
}

fn pick_flag(child: Option<bool>, parent: Option<bool>) -> (r: Option<bool>)
    ensures
        r == or_parent(child, parent),
{
    if child.is_some() {
        child
    } else {
        parent
    }
}

/// Merges `child` onto `parent`; `child` wins wherever it sets a field.
///
/// `to_block` marks block context, the only one in which the prefix and
/// suffix fields inherit from the parent.
pub fn cascade_primitive(parent: &StylePrimitive, child: &StylePrimitive, to_block: bool) -> (r: StylePrimitive)
    ensures
        r@ == cascade_primitive_spec(parent@, child@, to_block),
{
    StylePrimitive {
        block_prefix: pick_text(&child.block_prefix, &parent.block_prefix, to_block),
        block_suffix: pick_text(&child.block_suffix, &parent.block_suffix, to_block),
        prefix: pick_text(&child.prefix, &parent.prefix, to_block),
        suffix: pick_text(&child.suffix, &parent.suffix, to_block),
        color: pick_opt_text(&child.color, &parent.color),
        background_color: pick_opt_text(&child.background_color, &parent.background_color),
        underline: pick_flag(child.underline, parent.underline),
        bold: pick_flag(child.bold, parent.bold),
        upper: pick_flag(child.upper, parent.upper),
        lower: pick_flag(child.lower, parent.lower),
        title: pick_flag(child.title, parent.title),
        italic: pick_flag(child.italic, parent.italic),
        crossed_out: pick_flag(child.crossed_out, parent.crossed_out),
        faint: pick_flag(child.faint, parent.faint),
        conceal: pick_flag(child.conceal, parent.conceal),
        inverse: pick_flag(child.inverse, parent.inverse),
        blink: pick_flag(child.blink, parent.blink),
        format: child.format.clone(),
    }
}

/// A primitive style with block geometry.
#[derive(Debug, PartialEq, Eq)]
pub struct StyleBlock {
    pub primitive: StylePrimitive,
    pub indent: Option<u32>,
    pub indent_token: Option<String>,
    pub margin: Option<u32>,
    /// Marks a block as a list, so that nested lists know their depth.
    pub is_list: bool,
}

/// What a block style is.
pub struct BlockView {
    pub primitive: PrimitiveView,
    pub indent: Option<u32>,
    pub indent_token: Option<Seq<char>>,
    pub margin: Option<u32>,
    pub is_list: bool,
}

impl View for StyleBlock {
    type V = BlockView;

    open spec fn view(&self) -> BlockView {
        BlockView {
            primitive: self.primitive@,
            indent: self.indent,
            indent_token: opt_view(self.indent_token),
            margin: self.margin,
            is_list: self.is_list,
        }
    }
}

/// The block that sets nothing.
pub open spec fn empty_block() -> BlockView {
    BlockView {
        primitive: empty_primitive(),
        indent: None,
        indent_token: None,
        margin: None,
        is_list: false,
    }
}

impl Clone for StyleBlock {
    fn clone(&self) -> (r: StyleBlock)
        ensures
            r == *self,
    {
        StyleBlock {
            primitive: self.primitive.clone(),
            indent: self.indent,
            indent_token: copy_opt(&self.indent_token),
            margin: self.margin,
            is_list: self.is_list,
        }
    }
}

impl Default for StyleBlock {
    fn default() -> (r: StyleBlock)
        ensures
            r@ == empty_block(),
    {
        StyleBlock {
            primitive: StylePrimitive::default(),
            indent: None,
            indent_token: None,
            margin: None,
            is_list: false,
        }
    }
}

/// `child` laid over `parent` for blocks: the primitives cascade, the indent
/// is the child's if set and otherwise the parent's in block context, and the
/// margin is the parent's in block context and the child's otherwise.
pub open spec fn cascade_block_spec(parent: BlockView, child: BlockView, to_block: bool) -> BlockView {
    BlockView {
        primitive: cascade_primitive_spec(parent.primitive, child.primitive, to_block),
        indent: if child.indent is Some {
            child.indent
        } else if to_block {
            parent.indent
        } else {
            None
        },
        indent_token: child.indent_token,
        margin: if to_block {
            parent.margin
        } else {
            child.margin
        },
        is_list: child.is_list,
    }
}

/// Block-level counterpart of [`cascade_primitive`].
pub fn cascade_block(parent: &StyleBlock, child: &StyleBlock, to_block: bool) -> (r: StyleBlock)
    ensures
        r@ == cascade_block_spec(parent@, child@, to_block),
{
    StyleBlock {
        primitive: cascade_primitive(&parent.primitive, &child.primitive, to_block),
        indent: if child.indent.is_some() {
            child.indent
        } else if to_block {
            parent.indent
        } else {
            None
        },
        indent_token: copy_opt(&child.indent_token),
        margin: if to_block {
            parent.margin
        } else {
            child.margin
        },
        is_list: child.is_list,
    }
}

/// The first `n` block styles folded left to right, in block context.
pub open spec fn fold_blocks(styles: Seq<BlockView>, n: int) -> BlockView
    decreases n,
{
    if n <= 0 {
        empty_block()
    } else {
        cascade_block_spec(fold_blocks(styles, n - 1), styles[n - 1], true)
    }
}

/// The first `n` primitives folded left to right, in block context.
pub open spec fn fold_primitives(styles: Seq<PrimitiveView>, n: int) -> PrimitiveView
    decreases n,
{
    if n <= 0 {
        empty_primitive()
    } else {
        cascade_primitive_spec(fold_primitives(styles, n - 1), styles[n - 1], true)
    }
}

/// Folds a chain of block styles left to right.
pub fn cascade_blocks(styles: &[&StyleBlock]) -> (r: StyleBlock)
    ensures
        r@ == fold_blocks(styles@.map_values(|s: &StyleBlock| s@), styles@.len() as int),
{
    let ghost vs = styles@.map_values(|s: &StyleBlock| s@);
    let mut r = StyleBlock::default();
    let mut i: usize = 0;
    while i < styles.len()
        invariant
            i <= styles.len(),
            vs == styles@.map_values(|s: &StyleBlock| s@),
            r@ == fold_blocks(vs, i as int),
        decreases styles.len() - i,
    {
        r = cascade_block(&r, styles[i], true);
        i += 1;
    }
    r
}

/// Folds a chain of primitives left to right.
pub fn cascade_primitives(styles: &[&StylePrimitive]) -> (r: StylePrimitive)
    ensures
        r@ == fold_primitives(styles@.map_values(|s: &StylePrimitive| s@), styles@.len() as int),
{
    let ghost vs = styles@.map_values(|s: &StylePrimitive| s@);
    let mut r = StylePrimitive::default();
    let mut i: usize = 0;
    while i < styles.len()
        invariant
            i <= styles.len(),
            vs == styles@.map_values(|s: &StylePrimitive| s@),
            r@ == fold_primitives(vs, i as int),
        decreases styles.len() - i,
    {
        r = cascade_primitive(&r, styles[i], true);
        i += 1;
    }
    r
}

/// Whether a child's set fields always survive the cascade: whatever the
/// parent and the context, a colour, background, attribute or non-empty
/// text the child sets is the one that comes out.
pub proof fn lemma_child_wins(parent: PrimitiveView, child: PrimitiveView, to_block: bool)
    ensures
        child.color is Some ==> cascade_primitive_spec(parent, child, to_block).color == child.color,
        child.background_color is Some ==> cascade_primitive_spec(parent, child, to_block).background_color == child.background_color,
        child.bold is Some ==> cascade_primitive_spec(parent, child, to_block).bold == child.bold,
        child.prefix.len() > 0 ==> cascade_primitive_spec(parent, child, to_block).prefix == child.prefix,
        cascade_primitive_spec(parent, child, to_block).format == child.format,
{
}

/// Laying the empty style over a parent in block context keeps every field
/// of the parent but its format.
pub proof fn lemma_empty_child_inherits(parent: PrimitiveView)
    ensures
        cascade_primitive_spec(parent, empty_primitive(), true) == (PrimitiveView {
            format: Seq::empty(),
            ..parent
        }),
{
    assert(cascade_primitive_spec(parent, empty_primitive(), true) =~= (PrimitiveView {
        format: Seq::empty(),
        ..parent
    }));
}

/// Checkbox markers for task list items.
#[derive(Debug, Clone, Default, PartialEq, Eq)]
pub struct StyleTask {
    pub primitive: StylePrimitive,
    pub ticked: String,
    pub unticked: String,
}

/// A code block, plus the optional syntax-highlighting theme.
#[derive(Debug, Clone, Default, PartialEq, Eq)]
pub struct StyleCodeBlock {
    pub block: StyleBlock,
    pub theme: String,
    pub chroma: Option<Chroma>,
}

/// Per-token colours for syntax highlighting.
#[derive(Debug, Clone, Default, PartialEq, Eq)]
pub struct Chroma {
    pub text: StylePrimitive,
    pub error: StylePrimitive,
    pub comment: StylePrimitive,
    pub comment_preproc: StylePrimitive,
    pub keyword: StylePrimitive,
    pub keyword_reserved: StylePrimitive,
    pub keyword_namespace: StylePrimitive,
    pub keyword_type: StylePrimitive,
    pub operator: StylePrimitive,
    pub punctuation: StylePrimitive,
    pub name: StylePrimitive,
    pub name_builtin: StylePrimitive,
    pub name_tag: StylePrimitive,
    pub name_attribute: StylePrimitive,
    pub name_class: StylePrimitive,
    pub name_constant: StylePrimitive,
    pub name_decorator: StylePrimitive,
    pub name_exception: StylePrimitive,
    pub name_function: StylePrimitive,
    pub name_other: StylePrimitive,
    pub literal: StylePrimitive,
    pub literal_number: StylePrimitive,
    pub literal_date: StylePrimitive,
    pub literal_string: StylePrimitive,
    pub literal_string_escape: StylePrimitive,
    pub generic_deleted: StylePrimitive,
    pub generic_emph: StylePrimitive,
    pub generic_inserted: StylePrimitive,
    pub generic_strong: StylePrimitive,
    pub generic_subheading: StylePrimitive,
    pub background: StylePrimitive,
}

/// A list, plus the extra indent applied to nested levels.
#[derive(Debug, Clone, Default, PartialEq, Eq)]
pub struct StyleList {
    pub block: StyleBlock,
    pub level_indent: u32,
}

/// A table, plus its separator glyphs.
#[derive(Debug, Clone, Default, PartialEq, Eq)]
pub struct StyleTable {
    pub block: StyleBlock,
    pub center_separator: Option<String>,
    pub column_separator: Option<String>,
    pub row_separator: Option<String>,
}

/// The complete stylesheet consumed by the renderer.
#[derive(Debug, Clone, Default, PartialEq, Eq)]
pub struct StyleConfig {
    pub document: StyleBlock,
    pub block_quote: StyleBlock,
    pub paragraph: StyleBlock,
    pub list: StyleList,
    pub heading: StyleBlock,
    pub h1: StyleBlock,
    pub h2: StyleBlock,
    pub h3: StyleBlock,
    pub h4: StyleBlock,
    pub h5: StyleBlock,
    pub h6: StyleBlock,
    pub text: StylePrimitive,
    pub strikethrough: StylePrimitive,
    pub emph: StylePrimitive,
    pub strong: StylePrimitive,
    pub horizontal_rule: StylePrimitive,
    pub item: StylePrimitive,
    pub enumeration: StylePrimitive,
    pub task: StyleTask,
    pub link: StylePrimitive,
    pub link_text: StylePrimitive,
    pub image: StylePrimitive,
    pub image_text: StylePrimitive,
    pub code: StyleBlock,
    pub code_block: StyleCodeBlock,
    pub table: StyleTable,
    pub definition_list: StyleBlock,
    pub definition_term: StylePrimitive,
    pub definition_description: StylePrimitive,
    pub html_block: StyleBlock,
    pub html_span: StyleBlock,
}

} // verus!
