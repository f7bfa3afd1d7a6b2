//! From markdown text to the document tree: the CommonMark events of the
//! text, the tree they build, and the passes that reshape it into the
//! segments a goldmark renderer sees: bare URLs linked, each line's final
//! text run split at its last trigger, and escaped markup let back in.
use vstd::prelude::*;
use pulldown_cmark::{CodeBlockKind, LinkType, Options, Parser};
use pulldown_cmark::Alignment as CmarkAlignment;
use pulldown_cmark::Event as CmarkEvent;
use pulldown_cmark::Tag as CmarkTag;
use crate::deps::fuzzy::{byte_len, byte_off, utf8_len, utf8_len_exec};
use crate::deps::glamour::ast::{
    build_fold, builder_start, handle_spec, trailing_backslashes_spec, BuilderView, bracket_pieces, cells_view, delimiter_pieces, last_trigger_index, linkify_from, node_view, nodes_view,
    rows_view, unshield_char, NodeView,
    build_tree, last_trigger, linkify_text, split_text_brackets, split_text_delimiters, unshield, Alignment,
    LinkKind, MdEvent, MdTag, Node,
};
use crate::text::{chars_of, extend_chars, slice_chars, string_of};

verus! {

#[verifier::external_type_specification]
#[verifier::external_body]
pub struct ExEvent<'a>(CmarkEvent<'a>);

#[verifier::external_type_specification]
#[verifier::external_body]
pub struct ExTag<'a>(CmarkTag<'a>);

#[verifier::external_type_specification]
#[verifier::external_body]
pub struct ExAlignment(CmarkAlignment);

/// The events `pulldown_cmark` reports for a text, with their byte ranges.
pub uninterp spec fn md_events_of(source: Seq<char>) -> Seq<(MdEvent, usize, usize)>;

/// Calls `pulldown_cmark::Parser::new_ext` on `source`, with tables,
/// strikethrough, task lists, definition lists and heading attributes, and
/// reports each event of its offset iterator with its byte range.
#[verifier::external_body]
fn markdown_events(source: &str) -> (r: Vec<(MdEvent, usize, usize)>)
    ensures
        r@ == md_events_of(source@),
{
    let opts = Options::ENABLE_TABLES | Options::ENABLE_STRIKETHROUGH | Options::ENABLE_TASKLISTS
        | Options::ENABLE_DEFINITION_LIST | Options::ENABLE_HEADING_ATTRIBUTES;
    let parser = Parser::new_ext(source, opts).into_offset_iter();
    parser.map(|(e, range)| (event_of(e), range.start, range.end)).collect()
}

/// Converts one `pulldown_cmark::Event` into the library's event.
#[verifier::external_body]
fn event_of(e: CmarkEvent<'_>) -> (r: MdEvent) {
    match e {
        CmarkEvent::Start(t) => MdEvent::Start(tag_of(t)),
        CmarkEvent::End(_) => MdEvent::End,
        CmarkEvent::Text(t) => MdEvent::Text(t.to_string()),
        CmarkEvent::Code(t) => MdEvent::Code(t.to_string()),
        CmarkEvent::Html(t) => MdEvent::Html(t.to_string()),
        CmarkEvent::InlineHtml(t) => MdEvent::InlineHtml(t.to_string()),
        CmarkEvent::SoftBreak => MdEvent::SoftBreak,
        CmarkEvent::HardBreak => MdEvent::HardBreak,
        CmarkEvent::Rule => MdEvent::Rule,
        CmarkEvent::TaskListMarker(b) => MdEvent::TaskListMarker(b),
        _ => MdEvent::Ignored,
    }
}

/// Converts a block-level `pulldown_cmark::Tag` into the library's tag.
#[verifier::external_body]
fn tag_of(t: CmarkTag<'_>) -> (r: MdTag) {
    match t {
        CmarkTag::Paragraph => MdTag::Paragraph,
        CmarkTag::Heading { level, .. } => MdTag::Heading(level as usize),
        CmarkTag::BlockQuote(_) => MdTag::BlockQuote,
        CmarkTag::CodeBlock(CodeBlockKind::Fenced(info)) => MdTag::CodeBlock(Some(info.to_string())),
        CmarkTag::CodeBlock(CodeBlockKind::Indented) => MdTag::CodeBlock(None),
        CmarkTag::HtmlBlock => MdTag::HtmlBlock,
        CmarkTag::List(start) => MdTag::List(start),
        CmarkTag::Item => MdTag::Item,
        CmarkTag::Table(a) => MdTag::Table(a.into_iter().map(alignment_of).collect()),
        CmarkTag::TableHead => MdTag::TableHead,
        CmarkTag::TableRow => MdTag::TableRow,
        CmarkTag::TableCell => MdTag::TableCell,
        other => inline_tag_of(other),
    }
}

/// Converts an inline or definition-list `pulldown_cmark::Tag`.
#[verifier::external_body]
fn inline_tag_of(t: CmarkTag<'_>) -> (r: MdTag) {
    match t {
        CmarkTag::Emphasis => MdTag::Emphasis,
        CmarkTag::Strong => MdTag::Strong,
        CmarkTag::Strikethrough => MdTag::Strikethrough,
        CmarkTag::Link { link_type: LinkType::Autolink, dest_url, .. } => MdTag::Link { kind: LinkKind::Autolink, destination: dest_url.to_string() },
        CmarkTag::Link { link_type: LinkType::Email, dest_url, .. } => MdTag::Link { kind: LinkKind::Email, destination: dest_url.to_string() },
        CmarkTag::Link { dest_url, .. } => MdTag::Link { kind: LinkKind::Written, destination: dest_url.to_string() },
        CmarkTag::Image { dest_url, .. } => MdTag::Image { destination: dest_url.to_string() },
        CmarkTag::DefinitionList => MdTag::DefinitionList,
        CmarkTag::DefinitionListTitle => MdTag::DefinitionListTitle,
        CmarkTag::DefinitionListDefinition => MdTag::DefinitionListDefinition,
        _ => MdTag::Other,
    }
}

/// Converts a `pulldown_cmark::Alignment`.
#[verifier::external_body]
fn alignment_of(a: CmarkAlignment) -> (r: Alignment) {
    match a {
        CmarkAlignment::None => Alignment::Unaligned,
        CmarkAlignment::Left => Alignment::Left,
        CmarkAlignment::Center => Alignment::Center,
        CmarkAlignment::Right => Alignment::Right,
    }
}

/// The number of characters of `s` that take exactly `b` bytes, if any.
pub open spec fn char_index(s: Seq<char>, b: int) -> Option<int> {
    if exists|k: int| 0 <= k <= s.len() && byte_off(s, k) == b {
        Some(choose|k: int| 0 <= k <= s.len() && byte_off(s, k) == b)
    } else {
        None
    }
}

/// Whether a backslash escape comes right before byte `b` of `src`: an
/// odd number of backslashes ends the text before it.
pub open spec fn escaped_at(src: Seq<char>, b: int) -> bool {
    match char_index(src, b) {
        Some(c0) => trailing_backslashes_spec(src, c0) % 2 == 1,
        None => false,
    }
}

/// The source text between two byte offsets, or nothing where they do not
/// fall between characters in order.
pub open spec fn raw_at(src: Seq<char>, b0: int, b1: int) -> Seq<char> {
    match (char_index(src, b0), char_index(src, b1)) {
        (Some(c0), Some(c1)) => if c0 <= c1 {
            src.subrange(c0, c1)
        } else {
            Seq::empty()
        },
        _ => Seq::empty(),
    }
}

/// Each event with its source text and whether an escape comes before it.
pub open spec fn prepared(evs: Seq<(MdEvent, usize, usize)>, src: Seq<char>) -> Seq<(MdEvent, Seq<char>, bool)> {
    evs.map_values(|e: (MdEvent, usize, usize)| (e.0, raw_at(src, e.1 as int, e.2 as int), escaped_at(src, e.1 as int)))
}

/// The tree builder run over the first `n` events.
pub open spec fn fold_views(evs: Seq<(MdEvent, Seq<char>, bool)>, n: int) -> BuilderView
    decreases n,
{
    if n <= 0 {
        builder_start()
    } else {
        handle_spec(fold_views(evs, n - 1), evs[n - 1].0, evs[n - 1].1, evs[n - 1].2)
    }
}

/// The nodes the events build.
pub open spec fn tree_of(evs: Seq<(MdEvent, Seq<char>, bool)>) -> Seq<NodeView> {
    fold_views(evs, evs.len() as int).stack.last().children
}

/// The document a markdown text parses to, given its events: their tree,
/// with bare URLs linked, line tails split and escaped markup restored.
pub open spec fn parse_spec(evs: Seq<(MdEvent, usize, usize)>, src: Seq<char>) -> NodeView {
    NodeView::Document(unshield_all(split_all(linkify_all(tree_of(prepared(evs, src))))))
}

proof fn lemma_build_fold_views(items: Seq<(MdEvent, String, bool)>, p: Seq<(MdEvent, Seq<char>, bool)>, n: int)
    requires
        items.len() == p.len(),
        0 <= n <= items.len(),
        forall|q: int| 0 <= q < items.len() ==> (#[trigger] items[q]).0 == p[q].0 && items[q].1@ == p[q].1 && items[q].2 == p[q].2,
    ensures
        build_fold(items, n) == fold_views(p, n),
    decreases n,
{
    if n > 0 {
        lemma_build_fold_views(items, p, n - 1);
        assert(items[n - 1].0 == p[n - 1].0);
    }
}

/// Whether slot `b` of a byte table says which character starts there.
spec fn slot_ok(cs: Seq<char>, b: int, v: Option<usize>) -> bool {
    match v {
        Some(k) => k <= cs.len() && byte_off(cs, k as int) == b,
        None => forall|k: int| 0 <= k <= cs.len() ==> byte_off(cs, k) != b,
    }
}

/// For each byte offset into `cs`, the character that starts there, if one
/// does, up to and including the end.
fn char_starts(cs: &Vec<char>) -> (r: Vec<Option<usize>>)
    ensures
        r@.len() == byte_len(cs@) + 1,
        forall|b: int| 0 <= b < r@.len() ==> slot_ok(cs@, b, #[trigger] r@[b]),
{
    let mut out: Vec<Option<usize>> = Vec::new();
    let mut i: usize = 0;
    while i < cs.len()
        invariant
            i <= cs.len(),
            out@.len() == byte_off(cs@, i as int),
            forall|b: int| 0 <= b < out@.len() ==> slot_ok(cs@, b, #[trigger] out@[b]),
        decreases cs.len() - i,
    {
        let ghost at = out@.len() as int;
        proof {
            assert forall|k: int| 0 <= k <= cs@.len() && #[trigger] byte_off(cs@, k) == at implies k == i by {
                if k < i {
                    lemma_byte_off_strict(cs@, k, i as int);
                } else if k > i {
                    lemma_byte_off_strict(cs@, i as int, k);
                }
            }
        }
        out.push(Some(i));
        let w = utf8_len_exec(cs[i]);
        let mut k: usize = 1;
        while k < w
            invariant
                1 <= k <= w,
                w == utf8_len(cs@[i as int]),
                i < cs.len(),
                at == byte_off(cs@, i as int),
                out@.len() == at + k,
                forall|b: int| 0 <= b < out@.len() ==> slot_ok(cs@, b, #[trigger] out@[b]),
            decreases w - k,
        {
            proof {
                let b = at + k;
                assert forall|q: int| 0 <= q <= cs@.len() implies byte_off(cs@, q) != b by {
                    if q <= i {
                        crate::deps::fuzzy::lemma_byte_off_mono(cs@, q, i as int);
                    } else {
                        crate::deps::fuzzy::lemma_byte_off_mono(cs@, i + 1, q);
                    }
                }
            }
            out.push(None);
            k += 1;
        }
        i += 1;
    }
    proof {
        assert forall|k: int| 0 <= k <= cs@.len() && #[trigger] byte_off(cs@, k) == byte_off(cs@, cs@.len() as int) implies k == cs@.len() by {
            if k < cs@.len() {
                lemma_byte_off_strict(cs@, k, cs@.len() as int);
            }
        }
    }
    out.push(Some(cs.len()));
    out
}

/// The character at which byte `b` of `cs` starts, looked up in its table.
fn char_at(starts: &Vec<Option<usize>>, b: usize, Ghost(cs): Ghost<Seq<char>>) -> (r: Option<usize>)
    requires
        starts@.len() == byte_len(cs) + 1,
        forall|q: int| 0 <= q < starts@.len() ==> slot_ok(cs, q, #[trigger] starts@[q]),
    ensures
        r matches Some(k) ==> char_index(cs, b as int) == Some(k as int) && k <= cs.len(),
        r is None ==> char_index(cs, b as int) is None,
{
    if b < starts.len() {
        let r = starts[b];
        proof {
            assert(slot_ok(cs, b as int, starts@[b as int]));
            if let Some(k) = r {
                let w = choose|q: int| 0 <= q <= cs.len() && byte_off(cs, q) == b;
                if w < k {
                    lemma_byte_off_strict(cs, w, k as int);
                } else if w > k {
                    lemma_byte_off_strict(cs, k as int, w);
                }
            }
        }
        r
    } else {
        proof {
            assert forall|q: int| 0 <= q <= cs.len() implies byte_off(cs, q) != b by {
                crate::deps::fuzzy::lemma_byte_off_mono(cs, q, cs.len() as int);
            }
        }
        None
    }
}

proof fn lemma_trailing_run(s: Seq<char>, k: int, c0: int)
    requires
        0 <= k <= c0 <= s.len(),
        forall|j: int| k <= j < c0 ==> s[j] == '\\',
    ensures
        trailing_backslashes_spec(s, c0) == (c0 - k) + trailing_backslashes_spec(s, k),
    decreases c0 - k,
{
    if k < c0 {
        lemma_trailing_run(s, k, c0 - 1);
    }
}

/// Parses markdown into a document: the events' tree, with bare URLs
/// linked, line tails split and escaped markup restored.
pub fn parse(source: &str) -> (r: Node)
    ensures
        r@ == parse_spec(md_events_of(source@), source@),
{
    let events = markdown_events(source);
    document_of(events, source)
}

/// The document that `events`, the CommonMark events of `source` with
/// their byte ranges, describe.
pub fn document_of(events: Vec<(MdEvent, usize, usize)>, source: &str) -> (r: Node)
    ensures
        r@ == parse_spec(events@, source@),
{
    let cs = chars_of(source);
    let starts = char_starts(&cs);
    let ghost evs = events@;
    let ghost p = prepared(evs, source@);
    let mut items: Vec<(MdEvent, String, bool)> = Vec::new();
    let mut rest = events;
    let ghost mut j: int = 0;
    while rest.len() > 0
        invariant
            0 <= j <= evs.len(),
            rest@ == evs.skip(j),
            items@.len() == j,
            cs@ == source@,
            p == prepared(evs, source@),
            starts@.len() == byte_len(cs@) + 1,
            forall|q: int| 0 <= q < starts@.len() ==> slot_ok(cs@, q, #[trigger] starts@[q]),
            forall|q: int| 0 <= q < j ==> (#[trigger] items@[q]).0 == p[q].0 && items@[q].1@ == p[q].1 && items@[q].2 == p[q].2,
        decreases rest.len(),
    {
        assert(rest@[0] == evs[j]);
        let (e, b0, b1) = rest.remove(0);
        let escaped = match char_at(&starts, b0, Ghost(cs@)) {
            Some(c0) => {
                let mut odd = false;
                let mut k = c0;
                while k > 0 && cs[k - 1] == '\\'
                    invariant
                        k <= c0,
                        c0 <= cs.len(),
                        odd == ((c0 - k) % 2 == 1),
                        forall|q: int| k <= q < c0 ==> cs@[q] == '\\',
                    decreases k,
                {
                    odd = !odd;
                    k -= 1;
                }
                proof {
                    lemma_trailing_run(cs@, k as int, c0 as int);
                }
                odd
            },
            None => false,
        };
        let raw = match (char_at(&starts, b0, Ghost(cs@)), char_at(&starts, b1, Ghost(cs@))) {
            (Some(c0), Some(c1)) => {
                if c0 <= c1 {
                    string_of(&slice_chars(&cs, c0, c1))
                } else {
                    String::new()
                }
            },
            _ => String::new(),
        };
        proof {
            assert(p[j] == (evs[j].0, raw_at(source@, b0 as int, b1 as int), escaped_at(source@, b0 as int)));
            assert(raw@ == raw_at(source@, b0 as int, b1 as int));
            assert(escaped == escaped_at(source@, b0 as int));
        }
        items.push((e, raw, escaped));
        proof {
            assert(evs.skip(j).skip(1) =~= evs.skip(j + 1));
            j = j + 1;
        }
    }
    proof {
        assert(j == evs.len());
        lemma_build_fold_views(items@, p, items@.len() as int);
    }
    let tree = build_tree(items);
    let linked = linkify_nodes(&tree);
    let split = split_line_tails(&linked);
    Node::Document(unshield_nodes(&split))
}

// ---------------------------------------------------------------------------
// Linkify
// ---------------------------------------------------------------------------

/// A node with the bare URLs and email addresses of its text turned into
/// autolinks. Text inside links and strikethrough is left alone.
pub open spec fn linkify_view(n: NodeView) -> NodeView
    decreases n,
{
    match n {
        NodeView::Document(c) => NodeView::Document(linkify_all(c)),
        NodeView::Paragraph(c) => NodeView::Paragraph(linkify_all(c)),
        NodeView::BlockQuote(c) => NodeView::BlockQuote(linkify_all(c)),
        NodeView::DefinitionList(c) => NodeView::DefinitionList(linkify_all(c)),
        NodeView::DefinitionTerm(c) => NodeView::DefinitionTerm(linkify_all(c)),
        NodeView::DefinitionDescription(c) => NodeView::DefinitionDescription(linkify_all(c)),
        NodeView::Heading { level, children } => NodeView::Heading { level, children: linkify_all(children) },
        NodeView::ListItem { children, task } => NodeView::ListItem { children: linkify_all(children), task },
        NodeView::List { ordered, start, items } => NodeView::List { ordered, start, items: linkify_all(items) },
        NodeView::Emphasis { level, children } => NodeView::Emphasis { level, children: linkify_all(children) },
        NodeView::Table { alignments, head, rows } => NodeView::Table {
            alignments,
            head: linkify_cells(head),
            rows: linkify_body(rows),
        },
        _ => n,
    }
}

/// Sibling nodes linkified: each text node becomes the pieces its URLs and
/// addresses cut it into.
pub open spec fn linkify_all(s: Seq<NodeView>) -> Seq<NodeView>
    decreases s,
{
    if s.len() == 0 {
        Seq::empty()
    } else {
        linkify_all(s.drop_last()) + match s[s.len() - 1] {
            NodeView::Text(t) => linkify_from(t, 0, Seq::empty()),
            other => seq![linkify_view(other)],
        }
    }
}

/// Table cells linkified.
pub open spec fn linkify_cells(c: Seq<Seq<NodeView>>) -> Seq<Seq<NodeView>>
    decreases c,
{
    if c.len() == 0 {
        Seq::empty()
    } else {
        linkify_cells(c.drop_last()).push(linkify_all(c[c.len() - 1]))
    }
}

/// Table rows linkified.
pub open spec fn linkify_body(r: Seq<Seq<Seq<NodeView>>>) -> Seq<Seq<Seq<NodeView>>>
    decreases r,
{
    if r.len() == 0 {
        Seq::empty()
    } else {
        linkify_body(r.drop_last()).push(linkify_cells(r[r.len() - 1]))
    }
}

/// Bare URLs and email addresses in text turned into autolinks, throughout.
pub fn linkify_nodes(nodes: &Vec<Node>) -> (r: Vec<Node>)
    ensures
        nodes_view(r@) == linkify_all(nodes_view(nodes@)),
    decreases nodes, 1int,
{
    let mut out: Vec<Node> = Vec::new();
    let mut i: usize = 0;
    while i < nodes.len()
        invariant
            i <= nodes.len(),
            nodes_view(out@) == linkify_all(nodes_view(nodes@.take(i as int))),
        decreases nodes.len() - i,
    {
        assert(decreases_to!(nodes => nodes@[i as int]));
        let ghost v = nodes_view(nodes@.take(i as int));
        let ghost before = nodes_view(out@);
        proof {
            lemma_nodes_view_take(nodes@, i as int);
            assert(v.push(node_view(nodes@[i as int])).drop_last() =~= v);
        }
        match &nodes[i] {
            Node::Text(t) => {
                let pieces = linkify_text(t.as_str());
                let mut k: usize = 0;
                while k < pieces.len()
                    invariant
                        k <= pieces.len(),
                        nodes_view(out@) == before + nodes_view(pieces@.take(k as int)),
                    decreases pieces.len() - k,
                {
                    let x = copy_node(&pieces[k]);
                    proof {
                        lemma_nodes_view_push(out@, x);
                        lemma_nodes_view_take(pieces@, k as int);
                        assert(before + nodes_view(pieces@.take(k as int)).push(node_view(pieces@[k as int]))
                            =~= (before + nodes_view(pieces@.take(k as int))).push(node_view(pieces@[k as int])));
                    }
                    out.push(x);
                    k += 1;
                }
                assert(pieces@.take(pieces@.len() as int) =~= pieces@);
            },
            other => {
                let x = linkify_node(other);
                proof {
                    lemma_nodes_view_push(out@, x);
                    assert(before.push(x@) =~= before + seq![x@]);
                }
                out.push(x);
            },
        }
        i += 1;
    }
    assert(nodes@.take(nodes@.len() as int) =~= nodes@);
    out
}

fn linkify_rows(rows: &Vec<Vec<Node>>) -> (r: Vec<Vec<Node>>)
    ensures
        cells_view(r@) == linkify_cells(cells_view(rows@)),
    decreases rows, 2int,
{
    let mut out: Vec<Vec<Node>> = Vec::new();
    let mut i: usize = 0;
    while i < rows.len()
        invariant
            i <= rows.len(),
            cells_view(out@) == linkify_cells(cells_view(rows@.take(i as int))),
        decreases rows.len() - i,
    {
        assert(decreases_to!(rows => rows@[i as int]));
        let x = linkify_nodes(&rows[i]);
        proof {
            lemma_cells_view_push(out@, x);
            lemma_cells_view_take(rows@, i as int);
            let v = cells_view(rows@.take(i as int));
            assert(v.push(nodes_view(rows@[i as int]@)).drop_last() =~= v);
        }
        out.push(x);
        i += 1;
    }
    assert(rows@.take(rows@.len() as int) =~= rows@);
    out
}

fn linkify_node(n: &Node) -> (r: Node)
    ensures
        r@ == linkify_view(n@),
    decreases *n, 3int,
{
    match n {
        Node::Document(c) => Node::Document(linkify_nodes(c)),
        Node::Paragraph(c) => Node::Paragraph(linkify_nodes(c)),
        Node::BlockQuote(c) => Node::BlockQuote(linkify_nodes(c)),
        Node::DefinitionList(c) => Node::DefinitionList(linkify_nodes(c)),
        Node::DefinitionTerm(c) => Node::DefinitionTerm(linkify_nodes(c)),
        Node::DefinitionDescription(c) => Node::DefinitionDescription(linkify_nodes(c)),
        Node::Heading { level, children } => Node::Heading { level: *level, children: linkify_nodes(children) },
        Node::ListItem { children, task } => Node::ListItem { children: linkify_nodes(children), task: *task },
        Node::List { ordered, start, items } => Node::List { ordered: *ordered, start: *start, items: linkify_nodes(items) },
        Node::Emphasis { level, children } => Node::Emphasis { level: *level, children: linkify_nodes(children) },
        Node::Table { alignments, head, rows } => {
            let mut body: Vec<Vec<Vec<Node>>> = Vec::new();
            let mut i: usize = 0;
            proof {
                assert forall|j: int| 0 <= j < rows@.len() implies decreases_to!(*n => #[trigger] rows@[j]) by {
                    assert(decreases_to!(*n => *rows));
                    assert(decreases_to!(*rows => rows@));
                    assert(decreases_to!(rows@ => rows@[j]));
                }
            }
            while i < rows.len()
                invariant
                    i <= rows.len(),
                    forall|j: int| 0 <= j < rows@.len() ==> decreases_to!(*n => #[trigger] rows@[j]),
                    rows_view(body@) == linkify_body(rows_view(rows@.take(i as int))),
                decreases rows.len() - i,
            {
                let x = linkify_rows(&rows[i]);
                proof {
                    lemma_rows_view_push(body@, x);
                    lemma_rows_view_take(rows@, i as int);
                    let v = rows_view(rows@.take(i as int));
                    assert(v.push(cells_view(rows@[i as int]@)).drop_last() =~= v);
                }
                body.push(x);
                i += 1;
            }
            assert(rows@.take(rows@.len() as int) =~= rows@);
            Node::Table { alignments: copy_aligns(alignments), head: linkify_rows(head), rows: body }
        },
        other => copy_node(other),
    }
}

fn copy_aligns(a: &Vec<Alignment>) -> (r: Vec<Alignment>)
    ensures
        r@ == a@,
{
    let mut out: Vec<Alignment> = Vec::new();
    let mut i: usize = 0;
    while i < a.len()
        invariant
            i <= a.len(),
            out@ == a@.take(i as int),
        decreases a.len() - i,
    {
        let x = match a[i] {
            Alignment::Unaligned => Alignment::Unaligned,
            Alignment::Left => Alignment::Left,
            Alignment::Center => Alignment::Center,
            Alignment::Right => Alignment::Right,
        };
        out.push(x);
        assert(a@.take(i + 1) =~= a@.take(i as int).push(a@[i as int]));
        i += 1;
    }
    assert(a@.take(a@.len() as int) =~= a@);
    out
}

/// A copy of a node.
fn copy_node(n: &Node) -> (r: Node)
    ensures
        r@ == n@,
    decreases *n, 0int,
{
    match n {
        Node::Document(c) => Node::Document(copy_nodes(c)),
        Node::Heading { level, children } => Node::Heading { level: *level, children: copy_nodes(children) },
        Node::Paragraph(c) => Node::Paragraph(copy_nodes(c)),
        Node::BlockQuote(c) => Node::BlockQuote(copy_nodes(c)),
        Node::List { ordered, start, items } => Node::List { ordered: *ordered, start: *start, items: copy_nodes(items) },
        Node::ListItem { children, task } => Node::ListItem { children: copy_nodes(children), task: *task },
        Node::CodeBlock { code, language } => Node::CodeBlock { code: code.clone(), language: language.clone() },
        Node::HtmlBlock(h) => Node::HtmlBlock(h.clone()),
        Node::ThematicBreak => Node::ThematicBreak,
        Node::Table { alignments, head, rows } => {
            let mut body: Vec<Vec<Vec<Node>>> = Vec::new();
            let mut i: usize = 0;
            proof {
                assert forall|j: int| 0 <= j < rows@.len() implies decreases_to!(*n => #[trigger] rows@[j]) by {
                    assert(decreases_to!(*n => *rows));
                    assert(decreases_to!(*rows => rows@));
                    assert(decreases_to!(rows@ => rows@[j]));
                }
            }
            while i < rows.len()
                invariant
                    i <= rows.len(),
                    forall|j: int| 0 <= j < rows@.len() ==> decreases_to!(*n => #[trigger] rows@[j]),
                    rows_view(body@) == rows_view(rows@.take(i as int)),
                decreases rows.len() - i,
            {
                let x = copy_rows(&rows[i]);
                proof {
                    lemma_rows_view_push(body@, x);
                    lemma_rows_view_take(rows@, i as int);
                }
                body.push(x);
                i += 1;
            }
            assert(rows@.take(rows@.len() as int) =~= rows@);
            Node::Table { alignments: copy_aligns(alignments), head: copy_rows(head), rows: body }
        },
        Node::DefinitionList(c) => Node::DefinitionList(copy_nodes(c)),
        Node::DefinitionTerm(c) => Node::DefinitionTerm(copy_nodes(c)),
        Node::DefinitionDescription(c) => Node::DefinitionDescription(copy_nodes(c)),
        Node::Text(t) => Node::Text(t.clone()),
        Node::CodeSpan(t) => Node::CodeSpan(t.clone()),
        Node::Emphasis { level, children } => Node::Emphasis { level: *level, children: copy_nodes(children) },
        Node::Strikethrough { text, children } => Node::Strikethrough { text: text.clone(), children: copy_nodes(children) },
        Node::Link { destination, children } => Node::Link { destination: destination.clone(), children: copy_nodes(children) },
        Node::AutoLink { url, is_email } => Node::AutoLink { url: url.clone(), is_email: *is_email },
        Node::Image { text, destination } => Node::Image { text: text.clone(), destination: destination.clone() },
        Node::RawHtml(t) => Node::RawHtml(t.clone()),
    }
}

proof fn lemma_nodes_view_push(ns: Seq<Node>, x: Node)
    ensures
        nodes_view(ns.push(x)) == nodes_view(ns).push(node_view(x)),
{
    assert(ns.push(x).drop_last() =~= ns);
}

proof fn lemma_nodes_view_take(ns: Seq<Node>, i: int)
    requires
        0 <= i < ns.len(),
    ensures
        nodes_view(ns.take(i + 1)) == nodes_view(ns.take(i)).push(node_view(ns[i])),
{
    assert(ns.take(i + 1).drop_last() =~= ns.take(i));
}

proof fn lemma_cells_view_push(cs: Seq<Vec<Node>>, x: Vec<Node>)
    ensures
        cells_view(cs.push(x)) == cells_view(cs).push(nodes_view(x@)),
{
    assert(cs.push(x).drop_last() =~= cs);
}

proof fn lemma_cells_view_take(cs: Seq<Vec<Node>>, i: int)
    requires
        0 <= i < cs.len(),
    ensures
        cells_view(cs.take(i + 1)) == cells_view(cs.take(i)).push(nodes_view(cs[i]@)),
{
    assert(cs.take(i + 1).drop_last() =~= cs.take(i));
}

proof fn lemma_rows_view_push(rs: Seq<Vec<Vec<Node>>>, x: Vec<Vec<Node>>)
    ensures
        rows_view(rs.push(x)) == rows_view(rs).push(cells_view(x@)),
{
    assert(rs.push(x).drop_last() =~= rs);
}

proof fn lemma_rows_view_take(rs: Seq<Vec<Vec<Node>>>, i: int)
    requires
        0 <= i < rs.len(),
    ensures
        rows_view(rs.take(i + 1)) == rows_view(rs.take(i)).push(cells_view(rs[i]@)),
{
    assert(rs.take(i + 1).drop_last() =~= rs.take(i));
}

fn copy_nodes(ns: &Vec<Node>) -> (r: Vec<Node>)
    ensures
        nodes_view(r@) == nodes_view(ns@),
    decreases ns, 1int,
{
    let mut out: Vec<Node> = Vec::new();
    let mut i: usize = 0;
    while i < ns.len()
        invariant
            i <= ns.len(),
            nodes_view(out@) == nodes_view(ns@.take(i as int)),
        decreases ns.len() - i,
    {
        assert(decreases_to!(ns => ns@[i as int]));
        let x = copy_node(&ns[i]);
        proof {
            lemma_nodes_view_push(out@, x);
            lemma_nodes_view_take(ns@, i as int);
        }
        out.push(x);
        i += 1;
    }
    assert(ns@.take(ns@.len() as int) =~= ns@);
    out
}

fn copy_rows(rows: &Vec<Vec<Node>>) -> (r: Vec<Vec<Node>>)
    ensures
        cells_view(r@) == cells_view(rows@),
    decreases rows, 2int,
{
    let mut out: Vec<Vec<Node>> = Vec::new();
    let mut i: usize = 0;
    while i < rows.len()
        invariant
            i <= rows.len(),
            cells_view(out@) == cells_view(rows@.take(i as int)),
        decreases rows.len() - i,
    {
        assert(decreases_to!(rows => rows@[i as int]));
        let x = copy_nodes(&rows[i]);
        proof {
            lemma_cells_view_push(out@, x);
            lemma_cells_view_take(rows@, i as int);
        }
        out.push(x);
        i += 1;
    }
    assert(rows@.take(rows@.len() as int) =~= rows@);
    out
}

// ---------------------------------------------------------------------------
// Unshield
// ---------------------------------------------------------------------------

/// A text with its shielded characters restored.
pub open spec fn unshield_text_view(s: Seq<char>) -> Seq<char> {
    s.map_values(|c: char| unshield_char(c))
}

/// A node with its escaped markup restored.
pub open spec fn unshield_view(n: NodeView) -> NodeView
    decreases n,
{
    match n {
        NodeView::Text(t) => NodeView::Text(unshield_text_view(t)),
        NodeView::CodeSpan(t) => NodeView::CodeSpan(unshield_text_view(t)),
        NodeView::RawHtml(t) => NodeView::RawHtml(unshield_text_view(t)),
        NodeView::Strikethrough { text, children } => NodeView::Strikethrough {
            text: unshield_text_view(text),
            children: unshield_all(children),
        },
        NodeView::Image { text, destination } => NodeView::Image { text: unshield_text_view(text), destination },
        NodeView::Document(c) => NodeView::Document(unshield_all(c)),
        NodeView::Paragraph(c) => NodeView::Paragraph(unshield_all(c)),
        NodeView::BlockQuote(c) => NodeView::BlockQuote(unshield_all(c)),
        NodeView::DefinitionList(c) => NodeView::DefinitionList(unshield_all(c)),
        NodeView::DefinitionTerm(c) => NodeView::DefinitionTerm(unshield_all(c)),
        NodeView::DefinitionDescription(c) => NodeView::DefinitionDescription(unshield_all(c)),
        NodeView::Heading { level, children } => NodeView::Heading { level, children: unshield_all(children) },
        NodeView::ListItem { children, task } => NodeView::ListItem { children: unshield_all(children), task },
        NodeView::List { ordered, start, items } => NodeView::List { ordered, start, items: unshield_all(items) },
        NodeView::Emphasis { level, children } => NodeView::Emphasis { level, children: unshield_all(children) },
        NodeView::Link { destination, children } => NodeView::Link { destination, children: unshield_all(children) },
        NodeView::Table { alignments, head, rows } => NodeView::Table {
            alignments,
            head: unshield_cells(head),
            rows: unshield_body(rows),
        },
        _ => n,
    }
}

/// Nodes with their escaped markup restored.
pub open spec fn unshield_all(s: Seq<NodeView>) -> Seq<NodeView>
    decreases s,
{
    if s.len() == 0 {
        Seq::empty()
    } else {
        unshield_all(s.drop_last()).push(unshield_view(s[s.len() - 1]))
    }
}

/// Table cells with their escaped markup restored.
pub open spec fn unshield_cells(c: Seq<Seq<NodeView>>) -> Seq<Seq<NodeView>>
    decreases c,
{
    if c.len() == 0 {
        Seq::empty()
    } else {
        unshield_cells(c.drop_last()).push(unshield_all(c[c.len() - 1]))
    }
}

/// Table rows with their escaped markup restored.
pub open spec fn unshield_body(r: Seq<Seq<Seq<NodeView>>>) -> Seq<Seq<Seq<NodeView>>>
    decreases r,
{
    if r.len() == 0 {
        Seq::empty()
    } else {
        unshield_body(r.drop_last()).push(unshield_cells(r[r.len() - 1]))
    }
}

/// Escaped markup restored throughout.
pub fn unshield_nodes(ns: &Vec<Node>) -> (r: Vec<Node>)
    ensures
        nodes_view(r@) == unshield_all(nodes_view(ns@)),
    decreases ns, 1int,
{
    let mut out: Vec<Node> = Vec::new();
    let mut i: usize = 0;
    while i < ns.len()
        invariant
            i <= ns.len(),
            nodes_view(out@) == unshield_all(nodes_view(ns@.take(i as int))),
        decreases ns.len() - i,
    {
        assert(decreases_to!(ns => ns@[i as int]));
        let x = unshield_node(&ns[i]);
        proof {
            lemma_nodes_view_push(out@, x);
            lemma_nodes_view_take(ns@, i as int);
            let v = nodes_view(ns@.take(i as int));
            assert(v.push(node_view(ns@[i as int])).drop_last() =~= v);
        }
        out.push(x);
        i += 1;
    }
    assert(ns@.take(ns@.len() as int) =~= ns@);
    out
}

fn unshield_rows(rows: &Vec<Vec<Node>>) -> (r: Vec<Vec<Node>>)
    ensures
        cells_view(r@) == unshield_cells(cells_view(rows@)),
    decreases rows, 2int,
{
    let mut out: Vec<Vec<Node>> = Vec::new();
    let mut i: usize = 0;
    while i < rows.len()
        invariant
            i <= rows.len(),
            cells_view(out@) == unshield_cells(cells_view(rows@.take(i as int))),
        decreases rows.len() - i,
    {
        assert(decreases_to!(rows => rows@[i as int]));
        let x = unshield_nodes(&rows[i]);
        proof {
            lemma_cells_view_push(out@, x);
            lemma_cells_view_take(rows@, i as int);
            let v = cells_view(rows@.take(i as int));
            assert(v.push(nodes_view(rows@[i as int]@)).drop_last() =~= v);
        }
        out.push(x);
        i += 1;
    }
    assert(rows@.take(rows@.len() as int) =~= rows@);
    out
}

fn unshield_text(s: &String) -> (r: String)
    ensures
        r@ == unshield_text_view(s@),
{
    unshield(s.as_str())
}

/// One node with its escaped markup restored.
pub fn unshield_node(n: &Node) -> (r: Node)
    ensures
        r@ == unshield_view(n@),
    decreases *n, 3int,
{
    match n {
        Node::Text(t) => Node::Text(unshield_text(t)),
        Node::CodeSpan(t) => Node::CodeSpan(unshield_text(t)),
        Node::RawHtml(t) => Node::RawHtml(unshield_text(t)),
        Node::Strikethrough { text, children } => Node::Strikethrough { text: unshield_text(text), children: unshield_nodes(children) },
        Node::Image { text, destination } => Node::Image { text: unshield_text(text), destination: destination.clone() },
        Node::Document(c) => Node::Document(unshield_nodes(c)),
        Node::Paragraph(c) => Node::Paragraph(unshield_nodes(c)),
        Node::BlockQuote(c) => Node::BlockQuote(unshield_nodes(c)),
        Node::DefinitionList(c) => Node::DefinitionList(unshield_nodes(c)),
        Node::DefinitionTerm(c) => Node::DefinitionTerm(unshield_nodes(c)),
        Node::DefinitionDescription(c) => Node::DefinitionDescription(unshield_nodes(c)),
        Node::Heading { level, children } => Node::Heading { level: *level, children: unshield_nodes(children) },
        Node::ListItem { children, task } => Node::ListItem { children: unshield_nodes(children), task: *task },
        Node::List { ordered, start, items } => Node::List { ordered: *ordered, start: *start, items: unshield_nodes(items) },
        Node::Emphasis { level, children } => Node::Emphasis { level: *level, children: unshield_nodes(children) },
        Node::Link { destination, children } => Node::Link { destination: destination.clone(), children: unshield_nodes(children) },
        Node::Table { alignments, head, rows } => {
            let mut body: Vec<Vec<Vec<Node>>> = Vec::new();
            let mut i: usize = 0;
            proof {
                assert forall|j: int| 0 <= j < rows@.len() implies decreases_to!(*n => #[trigger] rows@[j]) by {
                    assert(decreases_to!(*n => *rows));
                    assert(decreases_to!(*rows => rows@));
                    assert(decreases_to!(rows@ => rows@[j]));
                }
            }
            while i < rows.len()
                invariant
                    i <= rows.len(),
                    forall|j: int| 0 <= j < rows@.len() ==> decreases_to!(*n => #[trigger] rows@[j]),
                    rows_view(body@) == unshield_body(rows_view(rows@.take(i as int))),
                decreases rows.len() - i,
            {
                let x = unshield_rows(&rows[i]);
                proof {
                    lemma_rows_view_push(body@, x);
                    lemma_rows_view_take(rows@, i as int);
                    let v = rows_view(rows@.take(i as int));
                    assert(v.push(cells_view(rows@[i as int]@)).drop_last() =~= v);
                }
                body.push(x);
                i += 1;
            }
            assert(rows@.take(rows@.len() as int) =~= rows@);
            Node::Table { alignments: copy_aligns(alignments), head: unshield_rows(head), rows: body }
        },
        other => copy_node(other),
    }
}

// ---------------------------------------------------------------------------
// Line tails
// ---------------------------------------------------------------------------

/// Whether a node starts a new block, ending the line before it.
pub open spec fn is_block_view(n: NodeView) -> bool {
    n is List || n is Paragraph || n is BlockQuote || n is CodeBlock || n is Table || n is Heading
        || n is DefinitionList || n is ThematicBreak
}

/// Text nodes holding the given pieces.
pub open spec fn texts_view(ps: Seq<Seq<char>>) -> Seq<NodeView> {
    ps.map_values(|p: Seq<char>| NodeView::Text(p))
}

/// The last piece of a line cut at its last trigger, the line break, if
/// any, kept on the second half; a trigger at the start cuts nothing.
pub open spec fn tail_pieces(tail: Seq<char>, nl: Seq<char>) -> Seq<NodeView> {
    match last_trigger_index(tail, tail.len() as int) {
        Some(k) => if k > 0 && byte_len(tail) <= usize::MAX {
            seq![NodeView::Text(tail.take(k)), NodeView::Text(tail.skip(k) + nl)]
        } else {
            seq![NodeView::Text(tail + nl)]
        },
        None => seq![NodeView::Text(tail + nl)],
    }
}

/// A text run cut into the segments goldmark gives it: at link labels
/// always, and at the last trigger when the run ends its line (it carries a
/// line break, or `ends_line` says so).
pub open spec fn run_pieces(t: Seq<char>, ends_line: bool) -> Seq<NodeView> {
    let has_nl = t.len() > 0 && t[t.len() - 1] == '\n';
    let body = if has_nl { t.drop_last() } else { t };
    let nl = if has_nl { seq!['\n'] } else { Seq::<char>::empty() };
    let ps = bracket_pieces(body);
    let tail = if ps.len() > 0 { ps[ps.len() - 1] } else { Seq::<char>::empty() };
    let heads = if ps.len() > 0 { ps.drop_last() } else { Seq::<Seq<char>>::empty() };
    texts_view(heads) + if has_nl || ends_line {
        tail_pieces(tail, nl)
    } else {
        seq![NodeView::Text(tail + nl)]
    }
}

/// Delimiter pieces, each cut as a run inside an emphasis.
pub open spec fn runs_view(ps: Seq<Seq<char>>) -> Seq<NodeView>
    decreases ps.len(),
{
    if ps.len() == 0 {
        Seq::empty()
    } else {
        runs_view(ps.drop_last()) + run_pieces(ps[ps.len() - 1], false)
    }
}

/// A block with the line tails of its inline text split.
pub open spec fn split_view(n: NodeView) -> NodeView
    decreases n, 0int,
{
    match n {
        NodeView::Paragraph(c) => NodeView::Paragraph(split_inlines_view(c, true)),
        NodeView::Heading { level, children } => NodeView::Heading { level, children: split_inlines_view(children, true) },
        NodeView::ListItem { children, task } => NodeView::ListItem { children: split_inlines_view(children, true), task },
        NodeView::DefinitionTerm(c) => NodeView::DefinitionTerm(split_inlines_view(c, true)),
        NodeView::DefinitionDescription(c) => NodeView::DefinitionDescription(split_inlines_view(c, true)),
        NodeView::BlockQuote(c) => NodeView::BlockQuote(split_all(c)),
        NodeView::List { ordered, start, items } => NodeView::List { ordered, start, items: split_all(items) },
        NodeView::DefinitionList(c) => NodeView::DefinitionList(split_all(c)),
        NodeView::Document(c) => NodeView::Document(split_all(c)),
        NodeView::Table { alignments, head, rows } => NodeView::Table {
            alignments,
            head: split_cells(head),
            rows: split_body(rows),
        },
        _ => n,
    }
}

/// Sibling blocks split.
pub open spec fn split_all(s: Seq<NodeView>) -> Seq<NodeView>
    decreases s, 0int,
{
    if s.len() == 0 {
        Seq::empty()
    } else {
        split_all(s.drop_last()).push(split_view(s[s.len() - 1]))
    }
}

/// Table cells split, each as the inline content of a block.
pub open spec fn split_cells(c: Seq<Seq<NodeView>>) -> Seq<Seq<NodeView>>
    decreases c, 0int,
{
    if c.len() == 0 {
        Seq::empty()
    } else {
        split_cells(c.drop_last()).push(split_inlines_view(c[c.len() - 1], true))
    }
}

/// Table rows split.
pub open spec fn split_body(r: Seq<Seq<Seq<NodeView>>>) -> Seq<Seq<Seq<NodeView>>>
    decreases r, 0int,
{
    if r.len() == 0 {
        Seq::empty()
    } else {
        split_body(r.drop_last()).push(split_cells(r[r.len() - 1]))
    }
}

/// Inline children split; `top` marks the direct children of a block.
pub open spec fn split_inlines_view(c: Seq<NodeView>, top: bool) -> Seq<NodeView>
    decreases c, 2 * c.len() + 2,
{
    split_prefix(c, c.len() as int, top)
}

/// The first `n` inline children split.
pub open spec fn split_prefix(c: Seq<NodeView>, n: int, top: bool) -> Seq<NodeView>
    decreases c, 2 * n + 1,
{
    if n <= 0 || n > c.len() {
        Seq::empty()
    } else {
        split_prefix(c, n - 1, top) + split_child(c, n - 1, top)
    }
}

/// What inline child `i` becomes.
pub open spec fn split_child(c: Seq<NodeView>, i: int, top: bool) -> Seq<NodeView>
    decreases c, 2 * i + 1,
{
    if i < 0 || i >= c.len() {
        Seq::empty()
    } else {
        match c[i] {
            NodeView::Emphasis { level, children } => seq![NodeView::Emphasis { level, children: split_emph_view(children) }],
            NodeView::Link { destination, children } => seq![NodeView::Link { destination, children: split_inlines_view(children, false) }],
            NodeView::Text(t) => run_pieces(t, top && (i + 1 == c.len() || (i + 1 < c.len() && is_block_view(c[i + 1])))),
            _ => seq![split_view(c[i])],
        }
    }
}

/// The children of an emphasis split: text cut after each delimiter run,
/// then each piece as a run.
pub open spec fn split_emph_view(c: Seq<NodeView>) -> Seq<NodeView>
    decreases c, 2 * c.len() + 2,
{
    emph_prefix(c, c.len() as int)
}

/// The first `n` children of an emphasis split.
pub open spec fn emph_prefix(c: Seq<NodeView>, n: int) -> Seq<NodeView>
    decreases c, 2 * n + 1,
{
    if n <= 0 || n > c.len() {
        Seq::empty()
    } else {
        emph_prefix(c, n - 1) + emph_child(c, n - 1)
    }
}

/// What child `i` of an emphasis becomes.
pub open spec fn emph_child(c: Seq<NodeView>, i: int) -> Seq<NodeView>
    decreases c, 2 * i + 1,
{
    if i < 0 || i >= c.len() {
        Seq::empty()
    } else {
        match c[i] {
            NodeView::Text(t) => runs_view(delimiter_pieces(t, 0, Seq::empty(), Seq::empty())),
            NodeView::Emphasis { level, children } => seq![NodeView::Emphasis { level, children: split_emph_view(children) }],
            NodeView::Link { destination, children } => seq![NodeView::Link { destination, children: split_inlines_view(children, false) }],
            _ => seq![split_view(c[i])],
        }
    }
}


proof fn lemma_nodes_view_index(ns: Seq<Node>)
    ensures
        nodes_view(ns).len() == ns.len(),
        forall|i: int| 0 <= i < ns.len() ==> #[trigger] nodes_view(ns)[i] == node_view(ns[i]),
    decreases ns.len(),
{
    if ns.len() > 0 {
        lemma_nodes_view_index(ns.drop_last());
        assert forall|i: int| 0 <= i < ns.len() implies #[trigger] nodes_view(ns)[i] == node_view(ns[i]) by {
            if i < ns.len() - 1 {
                assert(ns.drop_last()[i] == ns[i]);
            }
        }
    }
}

proof fn lemma_byte_off_strict(s: Seq<char>, a: int, b: int)
    requires
        0 <= a < b,
    ensures
        byte_off(s, a) < byte_off(s, b),
    decreases b,
{
    crate::deps::fuzzy::lemma_byte_off_mono(s, a, b - 1);
    assert(utf8_len(s[b - 1]) >= 1);
}

/// Each source line's final text run split at its last trigger, in every
/// block of `nodes`.
pub fn split_line_tails(nodes: &Vec<Node>) -> (r: Vec<Node>)
    ensures
        nodes_view(r@) == split_all(nodes_view(nodes@)),
    decreases nodes, 2int,
{
    let mut out: Vec<Node> = Vec::new();
    let mut i: usize = 0;
    while i < nodes.len()
        invariant
            i <= nodes.len(),
            nodes_view(out@) == split_all(nodes_view(nodes@.take(i as int))),
        decreases nodes.len() - i,
    {
        assert(decreases_to!(nodes => nodes@[i as int]));
        let x = split_in_node(&nodes[i]);
        proof {
            lemma_nodes_view_push(out@, x);
            lemma_nodes_view_take(nodes@, i as int);
            let v = nodes_view(nodes@.take(i as int));
            assert(v.push(node_view(nodes@[i as int])).drop_last() =~= v);
        }
        out.push(x);
        i += 1;
    }
    assert(nodes@.take(nodes@.len() as int) =~= nodes@);
    out
}

fn split_rows(rows: &Vec<Vec<Node>>) -> (r: Vec<Vec<Node>>)
    ensures
        cells_view(r@) == split_cells(cells_view(rows@)),
    decreases rows, 4int,
{
    let mut out: Vec<Vec<Node>> = Vec::new();
    let mut i: usize = 0;
    while i < rows.len()
        invariant
            i <= rows.len(),
            cells_view(out@) == split_cells(cells_view(rows@.take(i as int))),
        decreases rows.len() - i,
    {
        assert(decreases_to!(rows => rows@[i as int]));
        let x = split_inlines_at(&rows[i], true);
        proof {
            lemma_cells_view_push(out@, x);
            lemma_cells_view_take(rows@, i as int);
            let v = cells_view(rows@.take(i as int));
            assert(v.push(nodes_view(rows@[i as int]@)).drop_last() =~= v);
        }
        out.push(x);
        i += 1;
    }
    assert(rows@.take(rows@.len() as int) =~= rows@);
    out
}

fn split_in_node(n: &Node) -> (r: Node)
    ensures
        r@ == split_view(n@),
    decreases *n, 5int,
{
    match n {
        Node::Paragraph(c) => Node::Paragraph(split_inlines_at(c, true)),
        Node::Heading { level, children } => Node::Heading { level: *level, children: split_inlines_at(children, true) },
        Node::ListItem { children, task } => Node::ListItem { children: split_inlines_at(children, true), task: *task },
        Node::DefinitionTerm(c) => Node::DefinitionTerm(split_inlines_at(c, true)),
        Node::DefinitionDescription(c) => Node::DefinitionDescription(split_inlines_at(c, true)),
        Node::BlockQuote(c) => Node::BlockQuote(split_line_tails(c)),
        Node::List { ordered, start, items } => Node::List { ordered: *ordered, start: *start, items: split_line_tails(items) },
        Node::DefinitionList(c) => Node::DefinitionList(split_line_tails(c)),
        Node::Document(c) => Node::Document(split_line_tails(c)),
        Node::Table { alignments, head, rows } => {
            let mut body: Vec<Vec<Vec<Node>>> = Vec::new();
            let mut i: usize = 0;
            proof {
                assert forall|j: int| 0 <= j < rows@.len() implies decreases_to!(*n => #[trigger] rows@[j]) by {
                    assert(decreases_to!(*n => *rows));
                    assert(decreases_to!(*rows => rows@));
                    assert(decreases_to!(rows@ => rows@[j]));
                }
            }
            while i < rows.len()
                invariant
                    i <= rows.len(),
                    forall|j: int| 0 <= j < rows@.len() ==> decreases_to!(*n => #[trigger] rows@[j]),
                    rows_view(body@) == split_body(rows_view(rows@.take(i as int))),
                decreases rows.len() - i,
            {
                let x = split_rows(&rows[i]);
                proof {
                    lemma_rows_view_push(body@, x);
                    lemma_rows_view_take(rows@, i as int);
                    let v = rows_view(rows@.take(i as int));
                    assert(v.push(cells_view(rows@[i as int]@)).drop_last() =~= v);
                }
                body.push(x);
                i += 1;
            }
            assert(rows@.take(rows@.len() as int) =~= rows@);
            Node::Table { alignments: copy_aligns(alignments), head: split_rows(head), rows: body }
        },
        other => copy_node(other),
    }
}

/// Whether a node starts a new block, ending the line before it.
fn is_block(node: &Node) -> (r: bool)
    ensures
        r == is_block_view(node@),
{
    match node {
        Node::List { .. } => true,
        Node::Paragraph(_) => true,
        Node::BlockQuote(_) => true,
        Node::CodeBlock { .. } => true,
        Node::Table { .. } => true,
        Node::Heading { .. } => true,
        Node::DefinitionList(_) => true,
        Node::ThematicBreak => true,
        _ => false,
    }
}

/// The number of characters of `cs` that take exactly `b` bytes, if any.
fn char_pos_of_byte(cs: &Vec<char>, b: usize) -> (r: Option<usize>)
    ensures
        r matches Some(k) ==> k <= cs@.len() && byte_off(cs@, k as int) == b,
        forall|k: int| 0 <= k <= cs@.len() && byte_off(cs@, k) == b ==> r == Some(k as usize),
{
    let mut off: usize = 0;
    let mut k: usize = 0;
    while k < cs.len() && off < b
        invariant
            k <= cs.len(),
            off == byte_off(cs@, k as int),
            forall|t: int| 0 <= t <= cs@.len() && byte_off(cs@, t) == b ==> k <= t,
        decreases cs.len() - k,
    {
        let w = utf8_len_exec(cs[k]);
        proof {
            assert forall|t: int| 0 <= t <= cs@.len() && byte_off(cs@, t) == b implies k + 1 <= t && off + w <= b by {
                if t <= k {
                    assert(t == k);
                }
                crate::deps::fuzzy::lemma_byte_off_mono(cs@, k + 1, t);
            }
        }
        match off.checked_add(w) {
            Some(o) => off = o,
            None => return None,
        }
        k += 1;
    }
    proof {
        assert forall|t: int| 0 <= t <= cs@.len() && byte_off(cs@, t) == b implies k == t by {
            if k < t {
                lemma_byte_off_strict(cs@, k as int, t);
            }
        }
    }
    if off == b {
        Some(k)
    } else {
        None
    }
}

/// Whether the UTF-8 length of `cs` fits in a `usize`.
fn utf8_fits(cs: &Vec<char>) -> (r: bool)
    ensures
        r == (byte_len(cs@) <= usize::MAX),
{
    let mut total: usize = 0;
    let mut i: usize = 0;
    while i < cs.len()
        invariant
            i <= cs.len(),
            total == byte_off(cs@, i as int),
        decreases cs.len() - i,
    {
        match total.checked_add(utf8_len_exec(cs[i])) {
            Some(t) => total = t,
            None => {
                proof {
                    crate::deps::fuzzy::lemma_byte_off_mono(cs@, i + 1, cs@.len() as int);
                }
                return false;
            },
        }
        i += 1;
    }
    true
}

/// One text run split into segments, appended to `out`: at link labels
/// always, and, when the run ends its line (it carries a line break, or
/// `ends_line` says so), at the last trigger of its final piece.
#[verifier::rlimit(40)]
fn split_text_run(out: &mut Vec<Node>, t: &String, ends_line: bool)
    ensures
        nodes_view(final(out)@) == nodes_view(old(out)@) + run_pieces(t@, ends_line),
{
    let ghost base = nodes_view(out@);
    let tv = chars_of(t.as_str());
    let has_nl = tv.len() > 0 && tv[tv.len() - 1] == '\n';
    let body = if has_nl {
        slice_chars(&tv, 0, tv.len() - 1)
    } else {
        slice_chars(&tv, 0, tv.len())
    };
    let ghost nl: Seq<char> = if has_nl { seq!['\n'] } else { Seq::<char>::empty() };
    proof {
        if has_nl {
            assert(body@ =~= t@.drop_last());
        } else {
            assert(body@ =~= t@);
        }
    }
    let pieces = split_text_brackets(string_of(&body).as_str());
    let ghost pv = pieces@.map_values(|p: String| p@);
    let np = pieces.len();
    let mut k: usize = 0;
    while np > 0 && k < np - 1
        invariant
            np == pieces.len(),
            k <= np,
            np > 0 ==> k <= np - 1,
            np == 0 ==> k == 0,
            pv == pieces@.map_values(|p: String| p@),
            nodes_view(out@) == base + texts_view(pv.take(k as int)),
        decreases np - k,
    {
        let x = Node::Text(pieces[k].clone());
        proof {
            lemma_nodes_view_push(out@, x);
            assert(pv[k as int] == pieces@[k as int]@);
            assert(texts_view(pv.take(k + 1)) =~= texts_view(pv.take(k as int)).push(NodeView::Text(pv[k as int])));
            assert(base + texts_view(pv.take(k + 1)) =~= (base + texts_view(pv.take(k as int))).push(NodeView::Text(pv[k as int])));
        }
        out.push(x);
        k += 1;
    }
    let tail = if np > 0 {
        chars_of(pieces[np - 1].as_str())
    } else {
        Vec::new()
    };
    proof {
        if np > 0 {
            assert(k == np - 1);
            assert(pv.take(k as int) =~= pv.drop_last());
            assert(tail@ == pv[np - 1]);
        } else {
            assert(k == 0);
            assert(texts_view(pv.take(0)) =~= texts_view(Seq::<Seq<char>>::empty()));
            assert(tail@ =~= Seq::<char>::empty());
        }
    }
    let ghost heads = texts_view(if np > 0 { pv.drop_last() } else { Seq::<Seq<char>>::empty() });
    assert(nodes_view(out@) == base + heads);
    let ghost rest_view: Seq<NodeView> = if has_nl || ends_line {
        tail_pieces(tail@, nl)
    } else {
        seq![NodeView::Text(tail@ + nl)]
    };
    proof {
        assert(pv == bracket_pieces(if has_nl { t@.drop_last() } else { t@ }));
        assert(run_pieces(t@, ends_line) == heads + rest_view);
    }
    let mut whole = copy_chars(&tail);
    if has_nl {
        whole.push('\n');
    }
    assert(whole@ == tail@ + nl);
    if !(has_nl || ends_line) {
        let x = Node::Text(string_of(&whole));
        proof {
            assert(rest_view == seq![x@]);
            lemma_nodes_view_push(out@, x);
            assert((base + heads).push(x@) =~= base + (heads + seq![x@]));
        }
        out.push(x);
        return;
    }
    let ts = string_of(&tail);
    if !utf8_fits(&tail) {
        let x = Node::Text(string_of(&whole));
        proof {
            assert(rest_view == tail_pieces(tail@, nl));
            assert(rest_view == seq![x@]);
            lemma_nodes_view_push(out@, x);
            assert((base + heads).push(x@) =~= base + (heads + seq![x@]));
        }
        out.push(x);
        return;
    }
    let cut = match last_trigger(ts.as_str()) {
        Some(idx) => char_pos_of_byte(&tail, idx),
        None => None,
    };
    proof {
        match last_trigger_index(tail@, tail@.len() as int) {
            Some(q) => {
                assert(0 <= q < tail@.len()) by {
                    lemma_last_trigger_bounds(tail@, tail@.len() as int);
                }
                assert(cut == Some(q as usize));
            },
            None => {
                assert(cut is None);
            },
        }
    }
    match cut {
        Some(idx) => {
            if idx > 0 && idx <= tail.len() {
                let a = Node::Text(string_of(&slice_chars(&tail, 0, idx)));
                let mut rest = slice_chars(&tail, idx, tail.len());
                if has_nl {
                    rest.push('\n');
                }
                let b = Node::Text(string_of(&rest));
                proof {
                    assert(tail@.subrange(0, idx as int) =~= tail@.take(idx as int));
                    assert(rest@ =~= tail@.skip(idx as int) + nl);
                    assert(rest_view == tail_pieces(tail@, nl));
                    assert(rest_view == seq![a@, b@]);
                    lemma_nodes_view_push(out@, a);
                    lemma_nodes_view_push(out@.push(a), b);
                    assert((base + heads).push(a@).push(b@) =~= base + (heads + seq![a@, b@]));
                }
                out.push(a);
                out.push(b);
            } else {
                let x = Node::Text(string_of(&whole));
                proof {
                    assert(rest_view == tail_pieces(tail@, nl));
                    assert(rest_view == seq![x@]);
                    lemma_nodes_view_push(out@, x);
                    assert((base + heads).push(x@) =~= base + (heads + seq![x@]));
                }
                out.push(x);
            }
        },
        None => {
            let x = Node::Text(string_of(&whole));
            proof {
                assert(rest_view == tail_pieces(tail@, nl));
                assert(rest_view == seq![x@]);
                lemma_nodes_view_push(out@, x);
                assert((base + heads).push(x@) =~= base + (heads + seq![x@]));
            }
            out.push(x);
        },
    }
}

proof fn lemma_last_trigger_bounds(s: Seq<char>, n: int)
    ensures
        last_trigger_index(s, n) matches Some(q) ==> 0 <= q < n && n <= s.len(),
    decreases n,
{
    if n > 0 && n <= s.len() && !crate::deps::glamour::ast::is_trigger_spec(s[n - 1]) {
        lemma_last_trigger_bounds(s, n - 1);
    }
}

/// The inline children of an emphasis: text cut after each delimiter run,
/// then every run split as one inside a segment is.
fn split_emphasis(children: &Vec<Node>) -> (r: Vec<Node>)
    ensures
        nodes_view(r@) == split_emph_view(nodes_view(children@)),
    decreases children, 3int,
{
    let ghost cv = nodes_view(children@);
    proof {
        lemma_nodes_view_index(children@);
    }
    let mut out: Vec<Node> = Vec::new();
    let mut i: usize = 0;
    while i < children.len()
        invariant
            i <= children.len(),
            cv == nodes_view(children@),
            cv.len() == children@.len(),
            forall|q: int| 0 <= q < children@.len() ==> #[trigger] cv[q] == node_view(children@[q]),
            nodes_view(out@) == emph_prefix(cv, i as int),
        decreases children.len() - i,
    {
        assert(decreases_to!(children => children@[i as int]));
        let ghost before = nodes_view(out@);
        assert(emph_prefix(cv, i + 1) == before + emph_child(cv, i as int));
        assert(cv[i as int] == node_view(children@[i as int]));
        match &children[i] {
            Node::Text(t) => {
                let pieces = split_text_delimiters(t.as_str());
                let ghost pv = pieces@.map_values(|p: String| p@);
                let mut k: usize = 0;
                while k < pieces.len()
                    invariant
                        k <= pieces.len(),
                        pv == pieces@.map_values(|p: String| p@),
                        nodes_view(out@) == before + runs_view(pv.take(k as int)),
                    decreases pieces.len() - k,
                {
                    let ghost mid = nodes_view(out@);
                    split_text_run(&mut out, &pieces[k], false);
                    proof {
                        assert(pv.take(k + 1).drop_last() =~= pv.take(k as int));
                        assert(pv[k as int] == pieces@[k as int]@);
                        assert(runs_view(pv.take(k + 1)) == runs_view(pv.take(k as int)) + run_pieces(pv[k as int], false));
                        assert(mid + run_pieces(pv[k as int], false) =~= before + runs_view(pv.take(k + 1)));
                    }
                    k += 1;
                }
                assert(pv.take(pieces@.len() as int) =~= pv);
            },
            Node::Emphasis { level, children: inner } => {
                assert(decreases_to!(children@[i as int] => *inner));
                let x = Node::Emphasis { level: *level, children: split_emphasis(inner) };
                proof {
                    lemma_nodes_view_push(out@, x);
                    assert(before.push(x@) =~= before + seq![x@]);
                }
                out.push(x);
            },
            Node::Link { destination, children: inner } => {
                assert(decreases_to!(children@[i as int] => *inner));
                let x = Node::Link { destination: destination.clone(), children: split_inlines_at(inner, false) };
                proof {
                    lemma_nodes_view_push(out@, x);
                    assert(before.push(x@) =~= before + seq![x@]);
                }
                out.push(x);
            },
            other => {
                let x = split_in_node(other);
                proof {
                    lemma_nodes_view_push(out@, x);
                    assert(before.push(x@) =~= before + seq![x@]);
                }
                out.push(x);
            },
        }
        i += 1;
    }
    out
}

/// The text runs of a block's inline children split where a segment ends.
/// `top` marks the direct inline children of a block: only there does the
/// last run, or one before a nested block, count as ending its line.
fn split_inlines_at(children: &Vec<Node>, top: bool) -> (r: Vec<Node>)
    ensures
        nodes_view(r@) == split_inlines_view(nodes_view(children@), top),
    decreases children, 3int,
{
    let ghost cv = nodes_view(children@);
    proof {
        lemma_nodes_view_index(children@);
    }
    let mut out: Vec<Node> = Vec::new();
    let n = children.len();
    let mut i: usize = 0;
    while i < n
        invariant
            i <= n,
            n == children.len(),
            cv == nodes_view(children@),
            cv.len() == children@.len(),
            forall|q: int| 0 <= q < children@.len() ==> #[trigger] cv[q] == node_view(children@[q]),
            nodes_view(out@) == split_prefix(cv, i as int, top),
        decreases n - i,
    {
        assert(decreases_to!(children => children@[i as int]));
        let ghost before = nodes_view(out@);
        assert(split_prefix(cv, i + 1, top) == before + split_child(cv, i as int, top));
        assert(cv[i as int] == node_view(children@[i as int]));
        let next_is_block = i + 1 < n && is_block(&children[i + 1]);
        proof {
            if i + 1 < n {
                assert(cv[i + 1] == node_view(children@[i + 1]));
            }
        }
        match &children[i] {
            Node::Emphasis { level, children: inner } => {
                assert(decreases_to!(children@[i as int] => *inner));
                let x = Node::Emphasis { level: *level, children: split_emphasis(inner) };
                proof {
                    lemma_nodes_view_push(out@, x);
                    assert(before.push(x@) =~= before + seq![x@]);
                }
                out.push(x);
            },
            Node::Link { destination, children: inner } => {
                assert(decreases_to!(children@[i as int] => *inner));
                let x = Node::Link { destination: destination.clone(), children: split_inlines_at(inner, false) };
                proof {
                    lemma_nodes_view_push(out@, x);
                    assert(before.push(x@) =~= before + seq![x@]);
                }
                out.push(x);
            },
            Node::Text(t) => {
                split_text_run(&mut out, t, top && (i + 1 == n || next_is_block));
            },
            other => {
                let x = split_in_node(other);
                proof {
                    lemma_nodes_view_push(out@, x);
                    assert(before.push(x@) =~= before + seq![x@]);
                }
                out.push(x);
            },
        }
        i += 1;
    }
    out
}

} // verus!

verus! {

fn copy_chars(v: &Vec<char>) -> (r: Vec<char>)
    ensures
        r@ == v@,
{
    let mut r: Vec<char> = Vec::new();
    extend_chars(&mut r, v);
    r
}

} // verus!
