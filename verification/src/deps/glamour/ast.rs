//! The text segmenting passes of the markdown document model: how a run of
//! literal text is cut into the separately styled pieces a CommonMark
//! inline parser leaves behind at link labels, emphasis delimiters and the
//! end of a line, and how escaped markup is kept out of those passes.
use vstd::prelude::*;
use crate::deps::fuzzy::{byte_len, byte_off, lemma_byte_off_mono, utf8_len_exec};
use crate::text::{chars_eq, chars_of, extend_chars, extend_str, has_prefix, has_prefix_at, is_ascii_alnum, is_whitespace, is_whitespace_char, string_of, trim_start_ws};

verus! {

broadcast use vstd::string::group_string_axioms;

/// Whether `c` is an emphasis or strikethrough delimiter.
pub open spec fn is_delimiter_spec(c: char) -> bool {
    c == '*' || c == '_' || c == '~'
}

/// Whether `c` is an emphasis or strikethrough delimiter.
pub fn is_delimiter(c: char) -> (r: bool)
    ensures
        r == is_delimiter_spec(c),
{
    c == '*' || c == '_' || c == '~'
}

/// The pieces of `t` from `i` on, `cur` being the piece under way: a run of
/// delimiters ends a piece, unless it ends the text.
pub open spec fn delimiter_pieces(t: Seq<char>, i: int, parts: Seq<Seq<char>>, cur: Seq<char>) -> Seq<Seq<char>>
    decreases t.len() - i, if 0 <= i < t.len() && is_delimiter_spec(t[i]) { 2int } else { 0int },
{
    if i < 0 || i >= t.len() {
        if cur.len() > 0 || parts.len() == 0 {
            parts.push(cur)
        } else {
            parts
        }
    } else if is_delimiter_spec(t[i]) {
        delimiter_run(t, i, parts, cur)
    } else {
        delimiter_pieces(t, i + 1, parts, cur.push(t[i]))
    }
}

/// The pieces of `t` from inside a delimiter run at `i`.
pub open spec fn delimiter_run(t: Seq<char>, i: int, parts: Seq<Seq<char>>, cur: Seq<char>) -> Seq<Seq<char>>
    decreases t.len() - i, 1int,
{
    if 0 <= i < t.len() && is_delimiter_spec(t[i]) {
        delimiter_run(t, i + 1, parts, cur.push(t[i]))
    } else if 0 <= i < t.len() {
        delimiter_pieces(t, i, parts.push(cur), Seq::empty())
    } else if cur.len() > 0 || parts.len() == 0 {
        parts.push(cur)
    } else {
        parts
    }
}

/// Splits `t` after each run of `*`, `_` or `~` that does not end it.
pub fn split_text_delimiters(t: &str) -> (r: Vec<String>)
    ensures
        r@.map_values(|p: String| p@) == delimiter_pieces(t@, 0, Seq::empty(), Seq::empty()),
{
    let chars = chars_of(t);
    let mut parts: Vec<Vec<char>> = Vec::new();
    let mut cur: Vec<char> = Vec::new();
    let mut i: usize = 0;
    assert(parts@.map_values(|p: Vec<char>| p@) =~= Seq::<Seq<char>>::empty());
    while i < chars.len()
        invariant
            i <= chars.len(),
            chars@ == t@,
            delimiter_pieces(chars@, i as int, parts@.map_values(|p: Vec<char>| p@), cur@)
                == delimiter_pieces(t@, 0, Seq::empty(), Seq::empty()),
        decreases chars.len() - i,
    {
        let c = chars[i];
        if is_delimiter(c) {
            let ghost start = i;
            while i < chars.len() && is_delimiter(chars[i])
                invariant
                    start <= i <= chars.len(),
                    i > start || (i < chars.len() && is_delimiter_spec(chars@[i as int])),
                    chars@ == t@,
                    delimiter_run(chars@, i as int, parts@.map_values(|p: Vec<char>| p@), cur@)
                        == delimiter_pieces(t@, 0, Seq::empty(), Seq::empty()),
                decreases chars.len() - i,
            {
                cur.push(chars[i]);
                i += 1;
            }
            if i < chars.len() {
                let ghost before = parts@.map_values(|p: Vec<char>| p@);
                let ghost cv = cur@;
                parts.push(cur);
                cur = Vec::new();
                assert(parts@.map_values(|p: Vec<char>| p@) =~= before.push(cv));
            }
            assert(cur@ =~= cur@);
        } else {
            cur.push(c);
            i += 1;
        }
    }
    if cur.len() > 0 || parts.len() == 0 {
        let ghost before = parts@.map_values(|p: Vec<char>| p@);
        let ghost cv = cur@;
        parts.push(cur);
        assert(parts@.map_values(|p: Vec<char>| p@) =~= before.push(cv));
    }
    let mut out: Vec<String> = Vec::new();
    let mut k: usize = 0;
    while k < parts.len()
        invariant
            k <= parts.len(),
            out@.map_values(|p: String| p@) == parts@.map_values(|p: Vec<char>| p@).take(k as int),
        decreases parts.len() - k,
    {
        let s = string_of(&parts[k]);
        let ghost before = out@.map_values(|p: String| p@);
        out.push(s);
        assert(out@.map_values(|p: String| p@) =~= before.push(parts@[k as int]@));
        k += 1;
        assert(out@.map_values(|p: String| p@) =~= parts@.map_values(|p: Vec<char>| p@).take(k as int));
    }
    assert(parts@.map_values(|p: Vec<char>| p@).take(k as int) =~= parts@.map_values(|p: Vec<char>| p@));
    out
}

/// The state of the link-label pass: the pieces so far, each a text or a
/// label opener; the openers not yet closed, by position; and the text not
/// yet flushed.
pub struct LabelState {
    pub nodes: Seq<(Seq<char>, bool)>,
    pub open: Seq<int>,
    pub acc: Seq<char>,
}

/// The pending text flushed: merged into the last piece when that is text,
/// or else a piece of its own.
pub open spec fn flush_spec(st: LabelState) -> LabelState {
    if st.acc.len() == 0 {
        st
    } else if st.nodes.len() > 0 && !st.nodes.last().1 {
        LabelState {
            nodes: st.nodes.update(st.nodes.len() - 1, (st.nodes.last().0 + st.acc, false)),
            acc: Seq::empty(),
            ..st
        }
    } else {
        LabelState { nodes: st.nodes.push((st.acc, false)), acc: Seq::empty(), ..st }
    }
}

/// A label opener reached.
pub open spec fn open_label(st: LabelState, label: Seq<char>) -> LabelState {
    let f = flush_spec(st);
    LabelState {
        nodes: f.nodes.push((label, true)),
        open: f.open.push(f.nodes.len() as int),
        acc: Seq::empty(),
    }
}

/// A `]` reached: the innermost opener, if any, either merges back into the
/// text before it or stays as text of its own; the `]` starts the next text.
pub open spec fn close_label(st: LabelState) -> LabelState {
    let f = flush_spec(st);
    let g = if f.open.len() > 0 {
        let bi = f.open.last();
        let rest = f.open.drop_last();
        if bi > 0 && !f.nodes[bi - 1].1 {
            LabelState {
                nodes: f.nodes.update(bi - 1, (f.nodes[bi - 1].0 + f.nodes[bi].0, false)).remove(bi),
                open: rest.map_values(|o: int| if o > bi { o - 1 } else { o }),
                acc: f.acc,
            }
        } else {
            LabelState { nodes: f.nodes.update(bi, (f.nodes[bi].0, false)), open: rest, acc: f.acc }
        }
    } else {
        f
    };
    LabelState { acc: seq![']'], ..g }
}

/// The pass over `cs` from `i`.
pub open spec fn label_pass(cs: Seq<char>, i: int, st: LabelState) -> LabelState
    decreases cs.len() - i,
{
    if i < 0 || i >= cs.len() {
        st
    } else if cs[i] == '[' {
        label_pass(cs, i + 1, open_label(st, seq!['[']))
    } else if cs[i] == '!' && i + 1 < cs.len() && cs[i + 1] == '[' {
        label_pass(cs, i + 2, open_label(st, seq!['!', '[']))
    } else if cs[i] == ']' {
        label_pass(cs, i + 1, close_label(st))
    } else {
        label_pass(cs, i + 1, LabelState { acc: st.acc.push(cs[i]), ..st })
    }
}

/// The pieces a text run is cut into around link labels.
pub open spec fn bracket_pieces(cs: Seq<char>) -> Seq<Seq<char>> {
    let f = flush_spec(label_pass(cs, 0, LabelState { nodes: Seq::empty(), open: Seq::empty(), acc: Seq::empty() }));
    if f.nodes.len() == 0 {
        seq![Seq::empty()]
    } else {
        f.nodes.map_values(|p: (Seq<char>, bool)| p.0)
    }
}

/// Whether the openers are increasing positions of opener pieces.
pub open spec fn label_ok(st: LabelState) -> bool {
    &&& forall|a: int, b: int| 0 <= a < b < st.open.len() ==> st.open[a] < st.open[b]
    &&& forall|a: int|
        0 <= a < st.open.len() ==> 0 <= #[trigger] st.open[a] < st.nodes.len() && st.nodes[st.open[a]].1
}

/// The pieces under construction, viewed.
pub open spec fn pieces_view(nodes: Seq<(Vec<char>, bool)>) -> Seq<(Seq<char>, bool)> {
    nodes.map_values(|p: (Vec<char>, bool)| (p.0@, p.1))
}

/// The openers, viewed.
pub open spec fn open_view(open: Seq<usize>) -> Seq<int> {
    open.map_values(|o: usize| o as int)
}

/// Flushes the pending text.
fn flush(nodes: &mut Vec<(Vec<char>, bool)>, acc: &mut Vec<char>, Ghost(open): Ghost<Seq<int>>)
    requires
        label_ok(LabelState { nodes: pieces_view(old(nodes)@), open, acc: old(acc)@ }),
    ensures
        flush_spec(LabelState { nodes: pieces_view(old(nodes)@), open, acc: old(acc)@ })
            == (LabelState { nodes: pieces_view(final(nodes)@), open, acc: final(acc)@ }),
        label_ok(LabelState { nodes: pieces_view(final(nodes)@), open, acc: final(acc)@ }),
{
    let ghost before = pieces_view(nodes@);
    if acc.len() == 0 {
        return;
    }
    let n = nodes.len();
    if n > 0 && !nodes[n - 1].1 {
        let mut text = nodes[n - 1].0.clone();
        crate::text::extend_chars(&mut text, acc);
        assert(before.last() == (nodes@[n - 1].0@, nodes@[n - 1].1));
        nodes.set(n - 1, (text, false));
        assert(pieces_view(nodes@) =~= before.update(n - 1, (before.last().0 + old(acc)@, false)));
    } else {
        let mut text: Vec<char> = Vec::new();
        crate::text::extend_chars(&mut text, acc);
        nodes.push((text, false));
        assert(pieces_view(nodes@) =~= before.push((old(acc)@, false)));
    }
    *acc = Vec::new();
    assert(acc@ =~= Seq::<char>::empty());
    let ghost after = pieces_view(nodes@);
    assert forall|a: int| 0 <= a < open.len() implies 0 <= #[trigger] open[a] < after.len()
        && after[open[a]].1 by {
        let st0 = LabelState { nodes: before, open, acc: old(acc)@ };
        assert(0 <= st0.open[a] < st0.nodes.len() && st0.nodes[st0.open[a]].1);
        assert(after[open[a]] == before[open[a]]);
    }
}

/// The label-pass state, viewed.
pub open spec fn state_of(nodes: Seq<(Vec<char>, bool)>, open: Seq<usize>, acc: Seq<char>) -> LabelState {
    LabelState { nodes: pieces_view(nodes), open: open_view(open), acc }
}

/// A label opener reached: the pending text flushed, then the opener.
fn push_opener(nodes: &mut Vec<(Vec<char>, bool)>, open: &mut Vec<usize>, acc: &mut Vec<char>, two: bool)
    requires
        label_ok(state_of(old(nodes)@, old(open)@, old(acc)@)),
    ensures
        state_of(final(nodes)@, final(open)@, final(acc)@) == open_label(
            state_of(old(nodes)@, old(open)@, old(acc)@),
            if two { seq!['!', '['] } else { seq!['['] },
        ),
        label_ok(state_of(final(nodes)@, final(open)@, final(acc)@)),
{
    let ghost st0 = state_of(nodes@, open@, acc@);
    flush(nodes, acc, Ghost(open_view(open@)));
    let ghost f = flush_spec(st0);
    assert(f.nodes == pieces_view(nodes@));
    assert(f.open == open_view(open@));
    assert(f.acc == acc@);
    assert(acc@.len() == 0);
    let mut label: Vec<char> = Vec::new();
    if two {
        label.push('!');
    }
    label.push('[');
    assert(label@ =~= if two { seq!['!', '['] } else { seq!['['] });
    let ghost nb = pieces_view(nodes@);
    let ghost ob = open_view(open@);
    let n = nodes.len();
    nodes.push((label, true));
    open.push(n);
    assert(pieces_view(nodes@) =~= nb.push((label@, true)));
    assert(open_view(open@) =~= ob.push(n as int));
    let ghost after = state_of(nodes@, open@, acc@);
    assert(acc@ =~= Seq::<char>::empty());
    assert(after == open_label(st0, label@));
    assert forall|a: int| 0 <= a < after.open.len() implies 0 <= #[trigger] after.open[a] < after.nodes.len()
        && after.nodes[after.open[a]].1 by {
        if a < ob.len() {
            let st0 = LabelState { nodes: nb, open: ob, acc: Seq::empty() };
            assert(0 <= st0.open[a] < st0.nodes.len() && st0.nodes[st0.open[a]].1);
        }
    }
    assert forall|a: int, b: int| 0 <= a < b < after.open.len() implies after.open[a] < after.open[b] by {
        if b < ob.len() {
            let st0 = LabelState { nodes: nb, open: ob, acc: Seq::empty() };
            assert(st0.open[a] < st0.open[b]);
        } else {
            let st0 = LabelState { nodes: nb, open: ob, acc: Seq::empty() };
            assert(0 <= st0.open[a] < st0.nodes.len());
        }
    }
}

/// A `]` reached: the pending text flushed, the innermost opener merged
/// back or kept as text, and the `]` pending.
fn close_bracket(nodes: &mut Vec<(Vec<char>, bool)>, open: &mut Vec<usize>, acc: &mut Vec<char>)
    requires
        label_ok(state_of(old(nodes)@, old(open)@, old(acc)@)),
    ensures
        state_of(final(nodes)@, final(open)@, final(acc)@) == close_label(
            state_of(old(nodes)@, old(open)@, old(acc)@),
        ),
        label_ok(state_of(final(nodes)@, final(open)@, final(acc)@)),
{
    let ghost st0 = state_of(nodes@, open@, acc@);
    flush(nodes, acc, Ghost(open_view(open@)));
    let ghost f = flush_spec(st0);
    assert(f.nodes == pieces_view(nodes@));
    assert(f.open == open_view(open@));
    assert(f.acc == acc@);
    assert(label_ok(f));
    if open.len() > 0 {
        let ghost ob = open_view(open@);
        let ghost nb = pieces_view(nodes@);
        let bi = open.pop().unwrap();
        assert(ob.last() == bi as int);
        assert(open_view(open@) =~= ob.drop_last());
        proof {
            let k = ob.len() - 1;
            assert(0 <= f.open[k] < f.nodes.len() && f.nodes[f.open[k]].1);
            assert forall|a: int| 0 <= a < open@.len() implies #[trigger] open@[a] < bi by {
                assert(f.open[a] < f.open[k]);
                assert(open@[a] as int == ob[a]);
            }
        }
        if bi > 0 && !nodes[bi - 1].1 {
            let label = nodes[bi].0.clone();
            let mut text = nodes[bi - 1].0.clone();
            crate::text::extend_chars(&mut text, &label);
            assert(nb[bi - 1] == (nodes@[bi - 1].0@, nodes@[bi - 1].1));
            assert(nb[bi as int] == (nodes@[bi as int].0@, nodes@[bi as int].1));
            nodes.set(bi - 1, (text, false));
            nodes.remove(bi);
            assert(pieces_view(nodes@) =~= nb.update(bi - 1, (nb[bi - 1].0 + nb[bi as int].0, false)).remove(bi as int));
            let ghost rest = open_view(open@);
            let mut k: usize = 0;
            while k < open.len()
                invariant
                    k <= open.len(),
                    open_view(open@) == rest,
                    forall|a: int| 0 <= a < open@.len() ==> #[trigger] open@[a] < bi,
                decreases open.len() - k,
            {
                if open[k] > bi {
                    let o = open[k];
                    open.set(k, o - 1);
                }
                k += 1;
            }
            assert(rest.map_values(|o: int| if o > bi { o - 1 } else { o }) =~= rest);
            proof {
                let after = pieces_view(nodes@);
                assert forall|a: int| 0 <= a < rest.len() implies 0 <= #[trigger] rest[a] < after.len()
                    && after[rest[a]].1 by {
                    assert(rest[a] == ob[a]);
                    assert(0 <= f.open[a] < f.nodes.len() && f.nodes[f.open[a]].1);
                    assert(rest[a] != bi - 1);
                }
                assert forall|a: int, b: int| 0 <= a < b < rest.len() implies rest[a] < rest[b] by {
                    assert(f.open[a] < f.open[b]);
                }
            }
        } else {
            let text = nodes[bi].0.clone();
            assert(nb[bi as int] == (nodes@[bi as int].0@, nodes@[bi as int].1));
            nodes.set(bi, (text, false));
            assert(pieces_view(nodes@) =~= nb.update(bi as int, (nb[bi as int].0, false)));
            proof {
                let rest = open_view(open@);
                let after = pieces_view(nodes@);
                assert forall|a: int| 0 <= a < rest.len() implies 0 <= #[trigger] rest[a] < after.len()
                    && after[rest[a]].1 by {
                    assert(rest[a] == ob[a]);
                    assert(0 <= f.open[a] < f.nodes.len() && f.nodes[f.open[a]].1);
                }
                assert forall|a: int, b: int| 0 <= a < b < rest.len() implies rest[a] < rest[b] by {
                    assert(f.open[a] < f.open[b]);
                }
            }
        }
    }
    acc.push(']');
    assert(acc@ =~= seq![']']);
}

/// Splits a text run around link labels. A `[` (or `![`) opens a label,
/// which becomes a piece of its own when no `]` closes it; a `]` merges
/// its opener back into the text before it, and itself joins the text
/// after: `a [b] c` becomes `a [`, `b] c`.
pub fn split_text_brackets(run: &str) -> (r: Vec<String>)
    ensures
        r@.map_values(|p: String| p@) == bracket_pieces(run@),
{
    let cs = chars_of(run);
    let mut nodes: Vec<(Vec<char>, bool)> = Vec::new();
    let mut open: Vec<usize> = Vec::new();
    let mut acc: Vec<char> = Vec::new();
    let ghost init = LabelState { nodes: Seq::empty(), open: Seq::empty(), acc: Seq::empty() };
    assert(pieces_view(nodes@) =~= Seq::<(Seq<char>, bool)>::empty());
    assert(open_view(open@) =~= Seq::<int>::empty());
    assert(acc@ =~= Seq::<char>::empty());
    assert(state_of(nodes@, open@, acc@) == init);
    let mut i: usize = 0;
    while i < cs.len()
        invariant
            i <= cs.len(),
            cs@ == run@,
            label_pass(cs@, i as int, state_of(nodes@, open@, acc@)) == label_pass(cs@, 0, init),
            label_ok(state_of(nodes@, open@, acc@)),
        decreases cs.len() - i,
    {
        let c = cs[i];
        if c == '[' || (c == '!' && i + 1 < cs.len() && cs[i + 1] == '[') {
            let two = c != '[';
            push_opener(&mut nodes, &mut open, &mut acc, two);
            if two {
                i += 2;
            } else {
                i += 1;
            }
        } else if c == ']' {
            close_bracket(&mut nodes, &mut open, &mut acc);
            i += 1;
        } else {
            acc.push(c);
            i += 1;
        }
    }
    let ghost last = state_of(nodes@, open@, acc@);
    flush(&mut nodes, &mut acc, Ghost(open_view(open@)));
    let mut out: Vec<String> = Vec::new();
    if nodes.len() == 0 {
        out.push(String::new());
        assert(out@.map_values(|p: String| p@) =~= seq![Seq::<char>::empty()]);
        return out;
    }
    let ghost nv = pieces_view(nodes@);
    let mut k: usize = 0;
    while k < nodes.len()
        invariant
            k <= nodes.len(),
            nv == pieces_view(nodes@),
            out@.map_values(|p: String| p@) == nv.map_values(|p: (Seq<char>, bool)| p.0).take(k as int),
        decreases nodes.len() - k,
    {
        let s = string_of(&nodes[k].0);
        let ghost before = out@.map_values(|p: String| p@);
        out.push(s);
        assert(out@.map_values(|p: String| p@) =~= before.push(nodes@[k as int].0@));
        k += 1;
        assert(out@.map_values(|p: String| p@) =~= nv.map_values(|p: (Seq<char>, bool)| p.0).take(k as int));
    }
    assert(nv.map_values(|p: (Seq<char>, bool)| p.0).take(k as int) =~= nv.map_values(|p: (Seq<char>, bool)| p.0));
    out
}

/// The stand-in for a markup character, or the character itself.
pub open spec fn shield_char(c: char) -> char {
    if c == '[' {
        '\u{e000}'
    } else if c == ']' {
        '\u{e001}'
    } else if c == '*' {
        '\u{e002}'
    } else if c == '_' {
        '\u{e003}'
    } else if c == '~' {
        '\u{e004}'
    } else {
        c
    }
}

/// The markup character a stand-in stands for, or the character itself.
pub open spec fn unshield_char(c: char) -> char {
    if c == '\u{e000}' {
        '['
    } else if c == '\u{e001}' {
        ']'
    } else if c == '\u{e002}' {
        '*'
    } else if c == '\u{e003}' {
        '_'
    } else if c == '\u{e004}' {
        '~'
    } else {
        c
    }
}

fn shield_one(c: char) -> (r: char)
    ensures
        r == shield_char(c),
{
    if c == '[' {
        '\u{e000}'
    } else if c == ']' {
        '\u{e001}'
    } else if c == '*' {
        '\u{e002}'
    } else if c == '_' {
        '\u{e003}'
    } else if c == '~' {
        '\u{e004}'
    } else {
        c
    }
}

fn unshield_one(c: char) -> (r: char)
    ensures
        r == unshield_char(c),
{
    if c == '\u{e000}' {
        '['
    } else if c == '\u{e001}' {
        ']'
    } else if c == '\u{e002}' {
        '*'
    } else if c == '\u{e003}' {
        '_'
    } else if c == '\u{e004}' {
        '~'
    } else {
        c
    }
}

/// Replaces the markup characters the segmenting passes look for with
/// private-use stand-ins, so that escaped markup is not taken for markup.
pub fn shield(s: &str) -> (r: String)
    ensures
        r@ == s@.map_values(|c: char| shield_char(c)),
{
    let cs = chars_of(s);
    let mut out: Vec<char> = Vec::new();
    let mut i: usize = 0;
    while i < cs.len()
        invariant
            i <= cs.len(),
            cs@ == s@,
            out@ == cs@.take(i as int).map_values(|c: char| shield_char(c)),
        decreases cs.len() - i,
    {
        out.push(shield_one(cs[i]));
        i += 1;
        assert(out@ =~= cs@.take(i as int).map_values(|c: char| shield_char(c)));
    }
    assert(cs@.take(i as int) =~= cs@);
    string_of(&out)
}

/// Puts the real characters back in place of their stand-ins.
pub fn unshield(s: &str) -> (r: String)
    ensures
        r@ == s@.map_values(|c: char| unshield_char(c)),
{
    let cs = chars_of(s);
    let mut any = false;
    let mut k: usize = 0;
    while k < cs.len()
        invariant
            k <= cs.len(),
            cs@ == s@,
            !any ==> forall|q: int| 0 <= q < k ==> unshield_char(#[trigger] cs@[q]) == cs@[q],
        decreases cs.len() - k,
    {
        let c = cs[k];
        if '\u{e000}' <= c && c <= '\u{e004}' {
            any = true;
        }
        k += 1;
    }
    if !any {
        assert(cs@.map_values(|c: char| unshield_char(c)) =~= cs@);
        return string_of(&cs);
    }
    let mut out: Vec<char> = Vec::new();
    let mut i: usize = 0;
    while i < cs.len()
        invariant
            i <= cs.len(),
            cs@ == s@,
            out@ == cs@.take(i as int).map_values(|c: char| unshield_char(c)),
        decreases cs.len() - i,
    {
        out.push(unshield_one(cs[i]));
        i += 1;
        assert(out@ =~= cs@.take(i as int).map_values(|c: char| unshield_char(c)));
    }
    assert(cs@.take(i as int) =~= cs@);
    string_of(&out)
}

/// How many backslashes end the first `n` characters of `s`.
pub open spec fn trailing_backslashes_spec(s: Seq<char>, n: int) -> nat
    decreases n,
{
    if n <= 0 || n > s.len() || s[n - 1] != '\\' {
        0
    } else {
        1 + trailing_backslashes_spec(s, n - 1)
    }
}

/// How many backslashes `s` ends with.
pub fn trailing_backslashes(s: &str) -> (r: usize)
    ensures
        r == trailing_backslashes_spec(s@, s@.len() as int),
{
    let cs = chars_of(s);
    let mut n: usize = cs.len();
    let mut count: usize = 0;
    while n > 0 && cs[n - 1] == '\\'
        invariant
            n <= cs.len(),
            cs@ == s@,
            count + n == cs.len(),
            count + trailing_backslashes_spec(s@, n as int) == trailing_backslashes_spec(s@, s@.len() as int),
        decreases n,
    {
        count += 1;
        n -= 1;
    }
    count
}

/// Whether `c` ends a line's last text segment: whitespace or `]`.
pub open spec fn is_trigger_spec(c: char) -> bool {
    is_whitespace(c) || c == ']'
}

/// Whether `c` ends a line's last text segment: whitespace or `]`.
pub fn is_trigger(c: char) -> (r: bool)
    ensures
        r == is_trigger_spec(c),
{
    is_whitespace_char(c) || c == ']'
}

/// The position of the last trigger among the first `n` characters of `s`.
pub open spec fn last_trigger_index(s: Seq<char>, n: int) -> Option<int>
    decreases n,
{
    if n <= 0 || n > s.len() {
        None
    } else if is_trigger_spec(s[n - 1]) {
        Some(n - 1)
    } else {
        last_trigger_index(s, n - 1)
    }
}

/// The byte offset of the last trigger character in `body`.
pub fn last_trigger(body: &str) -> (r: Option<usize>)
    requires
        byte_len(body@) <= usize::MAX,
    ensures
        r matches Some(o) ==> last_trigger_index(body@, body@.len() as int) matches Some(k) && o == byte_off(body@, k),
        r is None ==> last_trigger_index(body@, body@.len() as int) is None,
{
    let cs = chars_of(body);
    let mut found: Option<usize> = None;
    let mut off: usize = 0;
    let mut i: usize = 0;
    proof {
        crate::deps::fuzzy::lemma_byte_off_mono(cs@, 0, cs@.len() as int);
    }
    while i < cs.len()
        invariant
            i <= cs.len(),
            cs@ == body@,
            byte_len(body@) <= usize::MAX,
            off == byte_off(cs@, i as int),
            found matches Some(o) ==> last_trigger_index(cs@, i as int) matches Some(k) && o == byte_off(cs@, k),
            found is None ==> last_trigger_index(cs@, i as int) is None,
        decreases cs.len() - i,
    {
        proof {
            crate::deps::fuzzy::lemma_byte_off_mono(cs@, i + 1, cs@.len() as int);
        }
        let c = cs[i];
        if is_trigger(c) {
            found = Some(off);
        }
        off = off + utf8_len_exec(c);
        i += 1;
    }
    found
}

/// Unshielding undoes shielding: text holding no stand-in characters comes
/// back unchanged.
pub proof fn lemma_unshield_undoes_shield(s: Seq<char>)
    requires
        forall|i: int| 0 <= i < s.len() ==> !('\u{e000}' <= #[trigger] s[i] <= '\u{e004}'),
    ensures
        s.map_values(|c: char| shield_char(c)).map_values(|c: char| unshield_char(c)) == s,
{
    assert(s.map_values(|c: char| shield_char(c)).map_values(|c: char| unshield_char(c)) =~= s);
}

} // verus!

verus! {

/// Column alignment of a table column.
#[derive(Debug, Clone, Copy, PartialEq, Eq, Structural)]
pub enum Alignment {
    /// No explicit alignment.
    Unaligned,
    /// Left-aligned.
    Left,
    /// Centre-aligned.
    Center,
    /// Right-aligned.
    Right,
}

/// A node in the markdown document.
#[derive(Debug)]
pub enum Node {
    /// The document root.
    Document(Vec<Node>),
    /// An ATX or setext heading.
    Heading { level: usize, children: Vec<Node> },
    /// A paragraph.
    Paragraph(Vec<Node>),
    /// A block quote.
    BlockQuote(Vec<Node>),
    /// An ordered or bulleted list.
    List { ordered: bool, start: u64, items: Vec<Node> },
    /// One item of a list.
    ListItem { children: Vec<Node>, task: Option<bool> },
    /// A fenced or indented code block.
    CodeBlock { code: String, language: String },
    /// A block of raw HTML.
    HtmlBlock(String),
    /// A thematic break.
    ThematicBreak,
    /// A table.
    Table { alignments: Vec<Alignment>, head: Vec<Vec<Node>>, rows: Vec<Vec<Vec<Node>>> },
    /// A definition list.
    DefinitionList(Vec<Node>),
    /// The term of a definition list entry.
    DefinitionTerm(Vec<Node>),
    /// The description of a definition list entry.
    DefinitionDescription(Vec<Node>),
    /// Literal text; a trailing line feed marks a soft or hard line break.
    Text(String),
    /// An inline code span.
    CodeSpan(String),
    /// Emphasis; level 1 is `em`, level 2 is `strong`.
    Emphasis { level: usize, children: Vec<Node> },
    /// Strikethrough text, flattened, with its children kept for the links
    /// inside.
    Strikethrough { text: String, children: Vec<Node> },
    /// An inline link.
    Link { destination: String, children: Vec<Node> },
    /// An autolink; `is_email` tells `<a@b.c>` from `<https://…>`.
    AutoLink { url: String, is_email: bool },
    /// An image.
    Image { text: String, destination: String },
    /// Inline raw HTML.
    RawHtml(String),
}

} // verus!

verus! {

/// What a node is.
pub enum NodeView {
    Document(Seq<NodeView>),
    Heading { level: usize, children: Seq<NodeView> },
    Paragraph(Seq<NodeView>),
    BlockQuote(Seq<NodeView>),
    List { ordered: bool, start: u64, items: Seq<NodeView> },
    ListItem { children: Seq<NodeView>, task: Option<bool> },
    CodeBlock { code: Seq<char>, language: Seq<char> },
    HtmlBlock(Seq<char>),
    ThematicBreak,
    Table { alignments: Seq<Alignment>, head: Seq<Seq<NodeView>>, rows: Seq<Seq<Seq<NodeView>>> },
    DefinitionList(Seq<NodeView>),
    DefinitionTerm(Seq<NodeView>),
    DefinitionDescription(Seq<NodeView>),
    Text(Seq<char>),
    CodeSpan(Seq<char>),
    Emphasis { level: usize, children: Seq<NodeView> },
    Strikethrough { text: Seq<char>, children: Seq<NodeView> },
    Link { destination: Seq<char>, children: Seq<NodeView> },
    AutoLink { url: Seq<char>, is_email: bool },
    Image { text: Seq<char>, destination: Seq<char> },
    RawHtml(Seq<char>),
}

/// What a node is.
pub open spec fn node_view(n: Node) -> NodeView
    decreases n,
{
    match n {
        Node::Document(c) => NodeView::Document(nodes_view(c@)),
        Node::Heading { level, children } => NodeView::Heading { level, children: nodes_view(children@) },
        Node::Paragraph(c) => NodeView::Paragraph(nodes_view(c@)),
        Node::BlockQuote(c) => NodeView::BlockQuote(nodes_view(c@)),
        Node::List { ordered, start, items } => NodeView::List { ordered, start, items: nodes_view(items@) },
        Node::ListItem { children, task } => NodeView::ListItem { children: nodes_view(children@), task },
        Node::CodeBlock { code, language } => NodeView::CodeBlock { code: code@, language: language@ },
        Node::HtmlBlock(t) => NodeView::HtmlBlock(t@),
        Node::ThematicBreak => NodeView::ThematicBreak,
        Node::Table { alignments, head, rows } => NodeView::Table {
            alignments: alignments@,
            head: cells_view(head@),
            rows: rows_view(rows@),
        },
        Node::DefinitionList(c) => NodeView::DefinitionList(nodes_view(c@)),
        Node::DefinitionTerm(c) => NodeView::DefinitionTerm(nodes_view(c@)),
        Node::DefinitionDescription(c) => NodeView::DefinitionDescription(nodes_view(c@)),
        Node::Text(t) => NodeView::Text(t@),
        Node::CodeSpan(t) => NodeView::CodeSpan(t@),
        Node::Emphasis { level, children } => NodeView::Emphasis { level, children: nodes_view(children@) },
        Node::Strikethrough { text, children } => NodeView::Strikethrough { text: text@, children: nodes_view(children@) },
        Node::Link { destination, children } => NodeView::Link {
            destination: destination@,
            children: nodes_view(children@),
        },
        Node::AutoLink { url, is_email } => NodeView::AutoLink { url: url@, is_email },
        Node::Image { text, destination } => NodeView::Image { text: text@, destination: destination@ },
        Node::RawHtml(t) => NodeView::RawHtml(t@),
    }
}

/// What a run of nodes is.
pub open spec fn nodes_view(ns: Seq<Node>) -> Seq<NodeView>
    decreases ns,
{
    if ns.len() == 0 {
        Seq::empty()
    } else {
        nodes_view(ns.drop_last()).push(node_view(ns.last()))
    }
}

/// What a row of table cells is.
pub open spec fn cells_view(cs: Seq<Vec<Node>>) -> Seq<Seq<NodeView>>
    decreases cs,
{
    if cs.len() == 0 {
        Seq::empty()
    } else {
        cells_view(cs.drop_last()).push(nodes_view(cs.last()@))
    }
}

/// What the rows of a table are.
pub open spec fn rows_view(rs: Seq<Vec<Vec<Node>>>) -> Seq<Seq<Seq<NodeView>>>
    decreases rs,
{
    if rs.len() == 0 {
        Seq::empty()
    } else {
        rows_view(rs.drop_last()).push(cells_view(rs.last()@))
    }
}

impl View for Node {
    type V = NodeView;

    open spec fn view(&self) -> NodeView {
        node_view(*self)
    }
}

/// The children of a container node, or none.
pub open spec fn kids(n: NodeView) -> Seq<NodeView> {
    match n {
        NodeView::Document(c) => c,
        NodeView::Paragraph(c) => c,
        NodeView::BlockQuote(c) => c,
        NodeView::DefinitionList(c) => c,
        NodeView::DefinitionTerm(c) => c,
        NodeView::DefinitionDescription(c) => c,
        NodeView::Heading { children, .. } => children,
        NodeView::ListItem { children, .. } => children,
        NodeView::Emphasis { children, .. } => children,
        NodeView::Link { children, .. } => children,
        NodeView::List { items, .. } => items,
        _ => Seq::empty(),
    }
}

/// The literal text of a node's subtree: the text leaves, code spans and
/// raw HTML, and the flattened text of a strikethrough.
pub open spec fn text_of(n: NodeView) -> Seq<char>
    decreases n,
{
    match n {
        NodeView::Text(t) => t,
        NodeView::CodeSpan(t) => t,
        NodeView::RawHtml(t) => t,
        NodeView::HtmlBlock(t) => t,
        NodeView::Strikethrough { text, .. } => text,
        NodeView::Document(c) => texts_of(c),
        NodeView::Paragraph(c) => texts_of(c),
        NodeView::BlockQuote(c) => texts_of(c),
        NodeView::DefinitionList(c) => texts_of(c),
        NodeView::DefinitionTerm(c) => texts_of(c),
        NodeView::DefinitionDescription(c) => texts_of(c),
        NodeView::Heading { children, .. } => texts_of(children),
        NodeView::ListItem { children, .. } => texts_of(children),
        NodeView::Emphasis { children, .. } => texts_of(children),
        NodeView::Link { children, .. } => texts_of(children),
        NodeView::List { items, .. } => texts_of(items),
        _ => Seq::empty(),
    }
}

/// The literal text of a run of nodes, one after the other.
pub open spec fn texts_of(ns: Seq<NodeView>) -> Seq<char>
    decreases ns,
{
    if ns.len() == 0 {
        Seq::empty()
    } else {
        texts_of(ns.drop_last()) + text_of(ns.last())
    }
}

/// The children of a node, borrowed.
fn kids_of(n: &Node) -> (r: Option<&Vec<Node>>)
    ensures
        match r {
            Some(c) => nodes_view(c@) == kids(n@),
            None => kids(n@) == Seq::<NodeView>::empty(),
        },
{
    match n {
        Node::Document(c) => Some(c),
        Node::Paragraph(c) => Some(c),
        Node::BlockQuote(c) => Some(c),
        Node::DefinitionList(c) => Some(c),
        Node::DefinitionTerm(c) => Some(c),
        Node::DefinitionDescription(c) => Some(c),
        Node::Heading { children, .. } => Some(children),
        Node::ListItem { children, .. } => Some(children),
        Node::Emphasis { children, .. } => Some(children),
        Node::Link { children, .. } => Some(children),
        Node::List { items, .. } => Some(items),
        _ => None,
    }
}

/// `nodes_view` of a run is its nodes viewed one by one.
proof fn lemma_nodes_view(ns: Seq<Node>)
    ensures
        nodes_view(ns).len() == ns.len(),
        forall|i: int| 0 <= i < ns.len() ==> #[trigger] nodes_view(ns)[i] == node_view(ns[i]),
    decreases ns.len(),
{
    if ns.len() > 0 {
        lemma_nodes_view(ns.drop_last());
    }
}

impl Node {
    /// The children of a container node, or an empty slice.
    pub fn children(&self) -> (r: &[Node])
        ensures
            nodes_view(r@) == kids(self@),
    {
        match kids_of(self) {
            Some(c) => c.as_slice(),
            None => {
                let e: &[Node] = &[];
                proof {
                    lemma_nodes_view(e@);
                    assert(nodes_view(e@) =~= Seq::<NodeView>::empty());
                }
                e
            },
        }
    }

    /// Concatenated literal text of this node's subtree.
    pub fn text_content(&self) -> (r: String)
        ensures
            r@ == text_of(self@),
        decreases *self,
    {
        match self {
            Node::Text(t) => t.clone(),
            Node::CodeSpan(t) => t.clone(),
            Node::RawHtml(t) => t.clone(),
            Node::HtmlBlock(t) => t.clone(),
            Node::Strikethrough { text, .. } => text.clone(),
            Node::Document(c) => texts_content(c),
            Node::Paragraph(c) => texts_content(c),
            Node::BlockQuote(c) => texts_content(c),
            Node::DefinitionList(c) => texts_content(c),
            Node::DefinitionTerm(c) => texts_content(c),
            Node::DefinitionDescription(c) => texts_content(c),
            Node::Heading { children, .. } => texts_content(children),
            Node::ListItem { children, .. } => texts_content(children),
            Node::Emphasis { children, .. } => texts_content(children),
            Node::Link { children, .. } => texts_content(children),
            Node::List { items, .. } => texts_content(items),
            _ => String::new(),
        }
    }
}

/// The literal text of a run of nodes.
fn texts_content(ns: &Vec<Node>) -> (r: String)
    ensures
        r@ == texts_of(nodes_view(ns@)),
    decreases ns,
{
    let ghost nv = nodes_view(ns@);
    proof {
        lemma_nodes_view(ns@);
    }
    let mut out: Vec<char> = Vec::new();
    let mut i: usize = 0;
    while i < ns.len()
        invariant
            i <= ns.len(),
            nv == nodes_view(ns@),
            nv.len() == ns@.len(),
            forall|k: int| 0 <= k < ns@.len() ==> #[trigger] nv[k] == node_view(ns@[k]),
            out@ == texts_of(nv.take(i as int)),
        decreases ns.len() - i,
    {
        assert(decreases_to!(ns => ns@[i as int]));
        let t = ns[i].text_content();
        extend_str(&mut out, t.as_str());
        assert(nv.take(i + 1).drop_last() =~= nv.take(i as int));
        i += 1;
    }
    assert(nv.take(i as int) =~= nv);
    string_of(&out)
}

} // verus!

verus! {

/// How a link was written.
#[derive(Debug, Clone, Copy, PartialEq, Eq, Structural)]
pub enum LinkKind {
    /// `<https://…>`.
    Autolink,
    /// `<a@b.c>`.
    Email,
    /// Any written link, inline or by reference.
    Written,
}

/// A tag that opens and, with an end event, closes a container.
#[derive(Debug)]
pub enum MdTag {
    Paragraph,
    Heading(usize),
    BlockQuote,
    /// A code block, with the info string of a fenced one.
    CodeBlock(Option<String>),
    HtmlBlock,
    /// A list, with the first number of an ordered one.
    List(Option<u64>),
    Item,
    Table(Vec<Alignment>),
    TableHead,
    TableRow,
    TableCell,
    Emphasis,
    Strong,
    Strikethrough,
    Link { kind: LinkKind, destination: String },
    Image { destination: String },
    DefinitionList,
    DefinitionListTitle,
    DefinitionListDefinition,
    /// A container whose children are kept and itself dropped.
    Other,
}

/// One event of a markdown parse.
#[derive(Debug)]
pub enum MdEvent {
    Start(MdTag),
    End,
    Text(String),
    Code(String),
    Html(String),
    InlineHtml(String),
    SoftBreak,
    HardBreak,
    Rule,
    TaskListMarker(bool),
    /// An event the tree has no place for.
    Ignored,
}

/// An open container and what it has collected.
pub struct FrameView {
    pub tag: Option<MdTag>,
    pub children: Seq<NodeView>,
    pub row: Seq<Seq<NodeView>>,
    pub head: Seq<Seq<NodeView>>,
    pub rows: Seq<Seq<Seq<NodeView>>>,
    pub in_head: bool,
}

/// The tree being built: the open containers, innermost last, and a task
/// marker waiting for its list item.
pub struct BuilderView {
    pub stack: Seq<FrameView>,
    pub task: Option<bool>,
}

/// A container just opened by `tag`.
pub open spec fn frame_for(tag: Option<MdTag>) -> FrameView {
    FrameView {
        tag,
        children: Seq::empty(),
        row: Seq::empty(),
        head: Seq::empty(),
        rows: Seq::empty(),
        in_head: tag matches Some(MdTag::TableHead),
    }
}

/// A builder with only the document open.
pub open spec fn builder_start() -> BuilderView {
    BuilderView { stack: seq![frame_for(None)], task: None }
}

/// Whether `t` ends in a line feed.
pub open spec fn ends_line(t: Seq<char>) -> bool {
    t.len() > 0 && t.last() == '\n'
}

/// `children` with `text` appended: to the last text node when it does not
/// end a line, else as a node of its own.
pub open spec fn add_text(children: Seq<NodeView>, text: Seq<char>) -> Seq<NodeView> {
    if children.len() > 0 && (children.last() matches NodeView::Text(p) && !ends_line(p)) {
        children.drop_last().push(NodeView::Text(children.last()->Text_0 + text))
    } else {
        children.push(NodeView::Text(text))
    }
}

/// `children` with a line break folded into the last text node, or added
/// as a text node of its own.
pub open spec fn add_break(children: Seq<NodeView>) -> Seq<NodeView> {
    if children.len() > 0 && children.last() is Text {
        children.drop_last().push(NodeView::Text(children.last()->Text_0.push('\n')))
    } else {
        children.push(NodeView::Text(seq!['\n']))
    }
}

/// `b` with `n` appended to the innermost container.
pub open spec fn push_spec(b: BuilderView, n: NodeView) -> BuilderView {
    let f = b.stack.last();
    BuilderView { stack: b.stack.update(b.stack.len() - 1, FrameView { children: f.children.push(n), ..f }), ..b }
}

/// The text a text event adds: a run that does not read back as its
/// source came from an entity and is shielded whole; after a backslash
/// escape only its first character is shielded.
pub open spec fn event_text(t: Seq<char>, raw: Seq<char>, escaped_start: bool) -> Seq<char> {
    if raw != t {
        t.map_values(|c: char| shield_char(c))
    } else if escaped_start && t.len() > 0 {
        seq![shield_char(t[0])] + t.skip(1)
    } else {
        t
    }
}

/// The first whitespace-separated word of `s`.
pub open spec fn first_word(s: Seq<char>) -> Seq<char> {
    word_prefix(trim_start_ws(s))
}

/// The characters of `s` before its first white space.
pub open spec fn word_prefix(s: Seq<char>) -> Seq<char>
    decreases s.len(),
{
    if s.len() == 0 || is_whitespace(s[0]) {
        Seq::empty()
    } else {
        seq![s[0]] + word_prefix(s.skip(1))
    }
}

/// A list item's children with its paragraphs spliced away.
pub open spec fn unwrap_paragraphs(ns: Seq<NodeView>) -> Seq<NodeView>
    decreases ns.len(),
{
    if ns.len() == 0 {
        ns
    } else {
        let rest = unwrap_paragraphs(ns.drop_last());
        match ns.last() {
            NodeView::Paragraph(inner) => rest + inner,
            other => rest.push(other),
        }
    }
}

/// The node a closed container becomes, if it becomes one, for the
/// container's `tag`, children and collected table parts, and the pending
/// task marker.
pub open spec fn closed_node(tag: MdTag, f: FrameView, task: Option<bool>) -> Option<NodeView> {
    let c = f.children;
    match tag {
        MdTag::Paragraph => Some(NodeView::Paragraph(c)),
        MdTag::Heading(level) => Some(NodeView::Heading { level, children: c }),
        MdTag::BlockQuote => Some(NodeView::BlockQuote(c)),
        MdTag::CodeBlock(info) => Some(
            NodeView::CodeBlock {
                code: texts_of(c),
                language: match info {
                    Some(i) => first_word(i@),
                    None => Seq::empty(),
                },
            },
        ),
        MdTag::List(start) => Some(
            NodeView::List {
                ordered: start is Some,
                start: match start {
                    Some(n) => n,
                    None => 1,
                },
                items: c,
            },
        ),
        MdTag::Item => Some(NodeView::ListItem { children: unwrap_paragraphs(c), task }),
        MdTag::Emphasis => Some(NodeView::Emphasis { level: 1, children: c }),
        MdTag::Strong => Some(NodeView::Emphasis { level: 2, children: c }),
        MdTag::Strikethrough => Some(NodeView::Strikethrough { text: texts_of(c), children: c }),
        MdTag::Link { kind, destination } => Some(
            match kind {
                LinkKind::Autolink => NodeView::AutoLink { url: destination@, is_email: false },
                LinkKind::Email => NodeView::AutoLink { url: destination@, is_email: true },
                LinkKind::Written => NodeView::Link { destination: destination@, children: c },
            },
        ),
        MdTag::Image { destination } => Some(NodeView::Image { text: texts_of(c), destination: destination@ }),
        MdTag::Table(aligns) => Some(NodeView::Table { alignments: aligns@, head: f.head, rows: f.rows }),
        MdTag::DefinitionList => Some(NodeView::DefinitionList(c)),
        MdTag::DefinitionListTitle => Some(NodeView::DefinitionTerm(c)),
        MdTag::DefinitionListDefinition => Some(NodeView::DefinitionDescription(c)),
        MdTag::HtmlBlock => Some(NodeView::HtmlBlock(texts_of(c))),
        _ => None,
    }
}

/// The builder after the innermost container closes: it becomes a node of
/// the one around it; a table head or row hands its cells to the table, a
/// cell its children to the row; a container with no node of its own
/// hands its children on. With only the document open, nothing changes.
pub open spec fn close_spec(b: BuilderView) -> BuilderView {
    if b.stack.len() <= 1 {
        b
    } else {
        let f = b.stack.last();
        let rest = BuilderView { stack: b.stack.drop_last(), ..b };
        let p = rest.stack.last();
        let at = rest.stack.len() - 1;
        match f.tag {
            Some(tag) => match tag {
                MdTag::TableHead => BuilderView {
                    stack: rest.stack.update(at, if f.in_head { FrameView { head: f.row, ..p } } else { FrameView { rows: p.rows.push(f.row), ..p } }),
                    ..rest
                },
                MdTag::TableRow => BuilderView {
                    stack: rest.stack.update(at, if f.in_head { FrameView { head: f.row, ..p } } else { FrameView { rows: p.rows.push(f.row), ..p } }),
                    ..rest
                },
                MdTag::TableCell => BuilderView { stack: rest.stack.update(at, FrameView { row: p.row.push(f.children), ..p }), ..rest },
                MdTag::Item => BuilderView {
                    stack: rest.stack.update(at, FrameView { children: p.children.push(closed_node(tag, f, b.task)->0), ..p }),
                    task: None,
                },
                _ => match closed_node(tag, f, b.task) {
                    Some(n) => push_spec(rest, n),
                    None => BuilderView { stack: rest.stack.update(at, FrameView { children: p.children + f.children, ..p }), ..rest },
                },
            },
            None => BuilderView { stack: rest.stack.update(at, FrameView { children: p.children + f.children, ..p }), ..rest },
        }
    }
}

/// The builder after one event, whose source text is `raw` and which
/// follows a backslash escape when `escaped_start` holds.
pub open spec fn handle_spec(b: BuilderView, e: MdEvent, raw: Seq<char>, escaped_start: bool) -> BuilderView {
    match e {
        MdEvent::Start(tag) => BuilderView { stack: b.stack.push(frame_for(Some(tag))), ..b },
        MdEvent::End => close_spec(b),
        MdEvent::Text(t) => {
            let f = b.stack.last();
            BuilderView {
                stack: b.stack.update(b.stack.len() - 1, FrameView { children: add_text(f.children, event_text(t@, raw, escaped_start)), ..f }),
                ..b
            }
        },
        MdEvent::Code(t) => push_spec(b, NodeView::CodeSpan(t@)),
        MdEvent::Html(t) => push_spec(b, NodeView::HtmlBlock(t@)),
        MdEvent::InlineHtml(t) => push_spec(b, NodeView::RawHtml(t@)),
        MdEvent::SoftBreak => {
            let f = b.stack.last();
            BuilderView { stack: b.stack.update(b.stack.len() - 1, FrameView { children: add_break(f.children), ..f }), ..b }
        },
        MdEvent::HardBreak => {
            let f = b.stack.last();
            BuilderView { stack: b.stack.update(b.stack.len() - 1, FrameView { children: add_break(f.children), ..f }), ..b }
        },
        MdEvent::Rule => push_spec(b, NodeView::ThematicBreak),
        MdEvent::TaskListMarker(checked) => BuilderView { task: Some(checked), ..b },
        MdEvent::Ignored => b,
    }
}

} // verus!

verus! {

/// Viewing a run after a push views the pushed node last.
proof fn lemma_nv_push(s: Seq<Node>, x: Node)
    ensures
        nodes_view(s.push(x)) == nodes_view(s).push(node_view(x)),
{
    assert(s.push(x).drop_last() =~= s);
}

/// Viewing two runs one after the other.
proof fn lemma_nv_concat(a: Seq<Node>, b: Seq<Node>)
    ensures
        nodes_view(a + b) == nodes_view(a) + nodes_view(b),
    decreases b.len(),
{
    if b.len() == 0 {
        assert(a + b =~= a);
        assert(nodes_view(a) + nodes_view(b) =~= nodes_view(a));
    } else {
        lemma_nv_concat(a, b.drop_last());
        assert((a + b).drop_last() =~= a + b.drop_last());
        assert(nodes_view(a) + nodes_view(b) =~= (nodes_view(a) + nodes_view(b.drop_last())).push(node_view(b.last())));
    }
}

/// Viewing cells after a push views the pushed cell last.
proof fn lemma_cells_push(s: Seq<Vec<Node>>, x: Vec<Node>)
    ensures
        cells_view(s.push(x)) == cells_view(s).push(nodes_view(x@)),
{
    assert(s.push(x).drop_last() =~= s);
}

/// Viewing rows after a push views the pushed row last.
proof fn lemma_rows_push(s: Seq<Vec<Vec<Node>>>, x: Vec<Vec<Node>>)
    ensures
        rows_view(s.push(x)) == rows_view(s).push(cells_view(x@)),
{
    assert(s.push(x).drop_last() =~= s);
}

/// An open container and what it has collected.
struct Frame {
    tag: Option<MdTag>,
    children: Vec<Node>,
    row: Vec<Vec<Node>>,
    head: Vec<Vec<Node>>,
    rows: Vec<Vec<Vec<Node>>>,
    in_head: bool,
}

spec fn frame_view(f: Frame) -> FrameView {
    FrameView {
        tag: f.tag,
        children: nodes_view(f.children@),
        row: cells_view(f.row@),
        head: cells_view(f.head@),
        rows: rows_view(f.rows@),
        in_head: f.in_head,
    }
}

/// The tree being built.
struct Builder {
    stack: Vec<Frame>,
    task: Option<bool>,
}

spec fn builder_view(b: Builder) -> BuilderView {
    BuilderView { stack: b.stack@.map_values(|f: Frame| frame_view(f)), task: b.task }
}

/// A container just opened by `tag`.
fn new_frame(tag: Option<MdTag>) -> (r: Frame)
    ensures
        frame_view(r) == frame_for(tag),
{
    let in_head = match &tag {
        Some(MdTag::TableHead) => true,
        _ => false,
    };
    let r = Frame { tag, children: Vec::new(), row: Vec::new(), head: Vec::new(), rows: Vec::new(), in_head };
    assert(nodes_view(r.children@) =~= Seq::<NodeView>::empty());
    assert(cells_view(r.row@) =~= Seq::<Seq<NodeView>>::empty());
    assert(cells_view(r.head@) =~= Seq::<Seq<NodeView>>::empty());
    assert(rows_view(r.rows@) =~= Seq::<Seq<Seq<NodeView>>>::empty());
    r
}

/// The first whitespace-separated word of `s`.
fn first_word_of(s: &str) -> (r: String)
    ensures
        r@ == first_word(s@),
{
    let v = chars_of(s);
    let mut i: usize = 0;
    assert(v@.skip(0) =~= s@);
    while i < v.len() && is_whitespace_char(v[i])
        invariant
            i <= v.len(),
            v@ == s@,
            trim_start_ws(s@) == trim_start_ws(v@.skip(i as int)),
        decreases v.len() - i,
    {
        assert(v@.skip(i as int).skip(1) =~= v@.skip(i + 1));
        i += 1;
    }
    assert(trim_start_ws(v@.skip(i as int)) == v@.skip(i as int));
    let start = i;
    let mut out: Vec<char> = Vec::new();
    while i < v.len() && !is_whitespace_char(v[i])
        invariant
            start <= i <= v.len(),
            v@ == s@,
            trim_start_ws(s@) == v@.skip(start as int),
            out@ + word_prefix(v@.skip(i as int)) == first_word(s@),
        decreases v.len() - i,
    {
        assert(v@.skip(i as int).skip(1) =~= v@.skip(i + 1));
        out.push(v[i]);
        assert(out@ + word_prefix(v@.skip(i + 1)) =~= first_word(s@));
        i += 1;
    }
    assert(word_prefix(v@.skip(i as int)) =~= Seq::<char>::empty());
    assert(out@ =~= first_word(s@));
    string_of(&out)
}

/// A list item's children with its paragraphs spliced away.
fn splice_paragraphs(ns: Vec<Node>) -> (r: Vec<Node>)
    ensures
        nodes_view(r@) == unwrap_paragraphs(nodes_view(ns@)),
{
    let ghost all = ns@;
    let ghost av = nodes_view(all);
    proof {
        lemma_nodes_view(all);
    }
    let mut rest = ns;
    let mut out: Vec<Node> = Vec::new();
    let ghost mut k: int = 0;
    assert(av.take(0) =~= Seq::<NodeView>::empty());
    assert(nodes_view(out@) =~= Seq::<NodeView>::empty());
    while rest.len() > 0
        invariant
            0 <= k <= all.len(),
            rest@ == all.skip(k),
            av == nodes_view(all),
            av.len() == all.len(),
            forall|j: int| 0 <= j < all.len() ==> #[trigger] av[j] == node_view(all[j]),
            nodes_view(out@) == unwrap_paragraphs(av.take(k)),
        decreases rest.len(),
    {
        let n = rest.remove(0);
        assert(n == all[k]);
        assert(av.take(k + 1).drop_last() =~= av.take(k));
        assert(av.take(k + 1).last() == node_view(n));
        let ghost before = out@;
        match n {
            Node::Paragraph(inner) => {
                let mut inner = inner;
                let ghost iv = inner@;
                out.append(&mut inner);
                proof {
                    lemma_nv_concat(before, iv);
                }
            },
            other => {
                out.push(other);
                proof {
                    lemma_nv_push(before, other);
                }
            },
        }
        proof {
            assert(rest@ =~= all.skip(k + 1));
            k = k + 1;
        }
    }
    assert(av.take(k) =~= av);
    out
}

/// The literal text of a run of nodes, owned.
fn texts_owned(ns: &Vec<Node>) -> (r: String)
    ensures
        r@ == texts_of(nodes_view(ns@)),
{
    texts_content(ns)
}

/// The node a closed container other than a list item or a table part
/// becomes, or its children back when it becomes none.
fn node_for(tag: MdTag, children: Vec<Node>, head: Vec<Vec<Node>>, rows: Vec<Vec<Vec<Node>>>) -> (r: Result<Node, Vec<Node>>)
    requires
        !(tag is Item),
    ensures
        match r {
            Ok(n) => closed_node(
                tag,
                FrameView {
                    tag: None,
                    children: nodes_view(children@),
                    row: Seq::empty(),
                    head: cells_view(head@),
                    rows: rows_view(rows@),
                    in_head: false,
                },
                None,
            ) == Some(n@),
            Err(c) => closed_node(
                tag,
                FrameView {
                    tag: None,
                    children: nodes_view(children@),
                    row: Seq::empty(),
                    head: cells_view(head@),
                    rows: rows_view(rows@),
                    in_head: false,
                },
                None,
            ) is None && c@ == children@,
        },
{
    match tag {
        MdTag::Paragraph => Ok(Node::Paragraph(children)),
        MdTag::Heading(level) => Ok(Node::Heading { level, children }),
        MdTag::BlockQuote => Ok(Node::BlockQuote(children)),
        MdTag::CodeBlock(info) => {
            let language = match &info {
                Some(i) => first_word_of(i.as_str()),
                None => String::new(),
            };
            let code = texts_owned(&children);
            Ok(Node::CodeBlock { code, language })
        },
        MdTag::List(start) => {
            let first = match start {
                Some(n) => n,
                None => 1,
            };
            Ok(Node::List { ordered: start.is_some(), start: first, items: children })
        },
        MdTag::Emphasis => Ok(Node::Emphasis { level: 1, children }),
        MdTag::Strong => Ok(Node::Emphasis { level: 2, children }),
        MdTag::Strikethrough => {
            let text = texts_owned(&children);
            Ok(Node::Strikethrough { text, children })
        },
        MdTag::Link { kind, destination } => match kind {
            LinkKind::Autolink => Ok(Node::AutoLink { url: destination, is_email: false }),
            LinkKind::Email => Ok(Node::AutoLink { url: destination, is_email: true }),
            LinkKind::Written => Ok(Node::Link { destination, children }),
        },
        MdTag::Image { destination } => {
            let text = texts_owned(&children);
            Ok(Node::Image { text, destination })
        },
        MdTag::Table(alignments) => Ok(Node::Table { alignments, head, rows }),
        MdTag::DefinitionList => Ok(Node::DefinitionList(children)),
        MdTag::DefinitionListTitle => Ok(Node::DefinitionTerm(children)),
        MdTag::DefinitionListDefinition => Ok(Node::DefinitionDescription(children)),
        MdTag::HtmlBlock => {
            let text = texts_owned(&children);
            Ok(Node::HtmlBlock(text))
        },
        _ => Err(children),
    }
}

} // verus!

verus! {

impl Builder {
    /// A builder with only the document open.
    fn new() -> (r: Builder)
        ensures
            builder_view(r) == builder_start(),
            r.stack@.len() == 1,
    {
        let mut stack: Vec<Frame> = Vec::new();
        stack.push(new_frame(None));
        let r = Builder { stack, task: None };
        assert(builder_view(r).stack =~= builder_start().stack);
        r
    }

    /// Puts `f` back as the innermost container, in place of the one
    /// taken out.
    fn put_back(&mut self, f: Frame, Ghost(before): Ghost<Seq<Frame>>)
        requires
            before.len() >= 1,
            old(self).stack@ == before.drop_last(),
        ensures
            final(self).stack@ == before.update(before.len() - 1, f),
            builder_view(*final(self)) == (BuilderView {
                stack: before.map_values(|x: Frame| frame_view(x)).update(before.len() - 1, frame_view(f)),
                task: old(self).task,
            }),
            final(self).task == old(self).task,
    {
        self.stack.push(f);
        assert(self.stack@ =~= before.update(before.len() - 1, f));
        assert(builder_view(*self).stack =~= before.map_values(|x: Frame| frame_view(x)).update(before.len() - 1, frame_view(f)));
    }

    /// Appends `n` to the innermost container.
    fn push_node(&mut self, n: Node)
        requires
            old(self).stack@.len() >= 1,
        ensures
            builder_view(*final(self)) == push_spec(builder_view(*old(self)), n@),
            final(self).stack@.len() == old(self).stack@.len(),
    {
        let ghost before = self.stack@;
        let mut f = self.stack.pop().unwrap();
        let ghost kids = f.children@;
        f.children.push(n);
        proof {
            lemma_nv_push(kids, n);
        }
        self.put_back(f, Ghost(before));
        assert(builder_view(*self).stack =~= push_spec(builder_view(*old(self)), n@).stack);
    }

    /// Folds a line break into the last text node of the innermost
    /// container, or adds one.
    fn push_break(&mut self)
        requires
            old(self).stack@.len() >= 1,
        ensures
            builder_view(*final(self)) == (BuilderView {
                stack: builder_view(*old(self)).stack.update(
                    old(self).stack@.len() - 1,
                    FrameView {
                        children: add_break(builder_view(*old(self)).stack.last().children),
                        ..builder_view(*old(self)).stack.last()
                    },
                ),
                ..builder_view(*old(self))
            }),
            final(self).stack@.len() == old(self).stack@.len(),
    {
        let ghost before = self.stack@;
        let mut f = self.stack.pop().unwrap();
        let ghost fv0 = frame_view(f);
        let ghost kids = f.children@;
        let kids_new = Self::break_into(f.children);
        f.children = kids_new;
        assert(frame_view(f) == FrameView { children: add_break(fv0.children), ..fv0 });
        self.put_back(f, Ghost(before));
        assert(builder_view(*self).stack =~= builder_view(*old(self)).stack.update(
            old(self).stack@.len() - 1,
            FrameView {
                children: add_break(builder_view(*old(self)).stack.last().children),
                ..builder_view(*old(self)).stack.last()
            },
        ));
    }

    /// `kids` with a line break folded into its last text node, or added.
    fn break_into(kids: Vec<Node>) -> (r: Vec<Node>)
        ensures
            nodes_view(r@) == add_break(nodes_view(kids@)),
    {
        let ghost k0 = kids@;
        proof {
            lemma_nodes_view(k0);
        }
        let mut kids = kids;
        if kids.len() > 0 {
            let last = kids.pop().unwrap();
            assert(kids@ =~= k0.drop_last());
            assert(nodes_view(k0).drop_last() =~= nodes_view(k0.drop_last()));
            match last {
                Node::Text(t) => {
                    let mut v = chars_of(t.as_str());
                    v.push('\n');
                    let nt = Node::Text(string_of(&v));
                    let ghost mid = kids@;
                    kids.push(nt);
                    proof {
                        lemma_nv_push(mid, nt);
                    }
                    assert(nodes_view(kids@) =~= add_break(nodes_view(k0)));
                    return kids;
                },
                other => {
                    assert(!(node_view(other) is Text));
                    assert(nodes_view(k0).last() == node_view(other));
                    kids.push(other);
                    assert(kids@ =~= k0);
                },
            }
        }
        proof {
            reveal_strlit("\n");
        }
        let mut lf: Vec<char> = Vec::new();
        lf.push('\n');
        let nt = Node::Text(string_of(&lf));
        assert(lf@ =~= seq!['\n']);
        assert(node_view(nt) == NodeView::Text(seq!['\n']));
        let ghost mid = kids@;
        assert(mid == k0);
        assert(nodes_view(k0).len() == 0 || !(nodes_view(k0).last() is Text));
        kids.push(nt);
        proof {
            lemma_nv_push(mid, nt);
        }
        assert(nodes_view(kids@) =~= add_break(nodes_view(k0)));
        kids
    }
}

} // verus!

verus! {

/// The text a text event adds.
fn text_of_event(t: &str, raw: &str, escaped_start: bool) -> (r: String)
    ensures
        r@ == event_text(t@, raw@, escaped_start),
{
    let tv = chars_of(t);
    let rv = chars_of(raw);
    if !chars_eq(&tv, &rv) {
        return shield(t);
    }
    if escaped_start && tv.len() > 0 {
        let mut out: Vec<char> = Vec::new();
        out.push(shield_one(tv[0]));
        let rest = crate::text::slice_chars(&tv, 1, tv.len());
        extend_chars(&mut out, &rest);
        assert(out@ =~= seq![shield_char(t@[0])] + t@.skip(1));
        return string_of(&out);
    }
    string_of(&tv)
}

/// `kids` with `text` appended to its last text node when that does not
/// end a line, else as a node of its own.
fn text_into(kids: Vec<Node>, text: String) -> (r: Vec<Node>)
    ensures
        nodes_view(r@) == add_text(nodes_view(kids@), text@),
{
    let ghost k0 = kids@;
    proof {
        lemma_nodes_view(k0);
    }
    let mut kids = kids;
    if kids.len() > 0 {
        let last = kids.pop().unwrap();
        assert(kids@ =~= k0.drop_last());
        assert(nodes_view(k0).drop_last() =~= nodes_view(k0.drop_last()));
        assert(nodes_view(k0).last() == node_view(last));
        match last {
            Node::Text(p) => {
                let pv = chars_of(p.as_str());
                let n = pv.len();
                if n == 0 || pv[n - 1] != '\n' {
                    let mut v = pv;
                    extend_str(&mut v, text.as_str());
                    let nt = Node::Text(string_of(&v));
                    let ghost mid = kids@;
                    kids.push(nt);
                    proof {
                        lemma_nv_push(mid, nt);
                    }
                    assert(nodes_view(kids@) =~= add_text(nodes_view(k0), text@));
                    return kids;
                }
                kids.push(Node::Text(p));
                assert(kids@ =~= k0);
            },
            other => {
                kids.push(other);
                assert(kids@ =~= k0);
            },
        }
    }
    let ghost mid = kids@;
    assert(mid == k0);
    let nt = Node::Text(text);
    kids.push(nt);
    proof {
        lemma_nv_push(mid, nt);
    }
    assert(nodes_view(kids@) =~= add_text(nodes_view(k0), text@));
    kids
}

impl Builder {
    /// Adds the text of a text event to the innermost container.
    fn push_text(&mut self, text: String)
        requires
            old(self).stack@.len() >= 1,
        ensures
            builder_view(*final(self)) == (BuilderView {
                stack: builder_view(*old(self)).stack.update(
                    old(self).stack@.len() - 1,
                    FrameView {
                        children: add_text(builder_view(*old(self)).stack.last().children, text@),
                        ..builder_view(*old(self)).stack.last()
                    },
                ),
                ..builder_view(*old(self))
            }),
            final(self).stack@.len() == old(self).stack@.len(),
    {
        let ghost before = self.stack@;
        let mut f = self.stack.pop().unwrap();
        let ghost fv0 = frame_view(f);
        let kids_new = text_into(f.children, text);
        f.children = kids_new;
        assert(frame_view(f) == FrameView { children: add_text(fv0.children, text@), ..fv0 });
        self.put_back(f, Ghost(before));
        assert(builder_view(*self).stack =~= builder_view(*old(self)).stack.update(
            old(self).stack@.len() - 1,
            FrameView {
                children: add_text(builder_view(*old(self)).stack.last().children, text@),
                ..builder_view(*old(self)).stack.last()
            },
        ));
    }

    /// Closes the innermost container.
    fn close(&mut self)
        requires
            old(self).stack@.len() >= 1,
        ensures
            builder_view(*final(self)) == close_spec(builder_view(*old(self))),
            final(self).stack@.len() >= 1,
    {
        if self.stack.len() <= 1 {
            return;
        }
        let ghost b0 = builder_view(*self);
        let ghost s0 = self.stack@;
        let f = self.stack.pop().unwrap();
        let ghost fv = frame_view(f);
        assert(fv == b0.stack.last());
        let ghost s1 = self.stack@;
        assert(s1 =~= s0.drop_last());
        let mut p = self.stack.pop().unwrap();
        let ghost pv = frame_view(p);
        assert(b0.stack.drop_last().last() == pv);
        let Frame { tag, children, row, head, rows, in_head } = f;
        match tag {
            Some(MdTag::TableHead) => {
                if in_head {
                    p.head = row;
                } else {
                    let ghost r0 = p.rows@;
                    p.rows.push(row);
                    proof {
                        lemma_rows_push(r0, row);
                    }
                }
            },
            Some(MdTag::TableRow) => {
                if in_head {
                    p.head = row;
                } else {
                    let ghost r0 = p.rows@;
                    p.rows.push(row);
                    proof {
                        lemma_rows_push(r0, row);
                    }
                }
            },
            Some(MdTag::TableCell) => {
                let ghost c0 = p.row@;
                p.row.push(children);
                proof {
                    lemma_cells_push(c0, children);
                }
            },
            Some(MdTag::Item) => {
                let task = self.task;
                self.task = None;
                let flat = splice_paragraphs(children);
                let n = Node::ListItem { children: flat, task };
                let ghost c0 = p.children@;
                p.children.push(n);
                proof {
                    lemma_nv_push(c0, n);
                }
            },
            Some(t) => {
                let ghost tg = t;
                match node_for(t, children, head, rows) {
                    Ok(n) => {
                        let ghost c0 = p.children@;
                        p.children.push(n);
                        proof {
                            lemma_nv_push(c0, n);
                        }
                    },
                    Err(back) => {
                        let ghost c0 = p.children@;
                        let mut back = back;
                        let ghost bv = back@;
                        p.children.append(&mut back);
                        proof {
                            lemma_nv_concat(c0, bv);
                        }
                    },
                }
            },
            None => {
                let ghost c0 = p.children@;
                let mut back = children;
                let ghost bv = back@;
                p.children.append(&mut back);
                proof {
                    lemma_nv_concat(c0, bv);
                }
            },
        }
        self.stack.push(p);
        assert(builder_view(*self).stack =~= close_spec(b0).stack);
    }
}

} // verus!

verus! {

impl Builder {
    /// Takes in one event, whose source text is `raw` and which follows a
    /// backslash escape when `escaped_start` holds.
    fn handle(&mut self, e: MdEvent, raw: &str, escaped_start: bool)
        requires
            old(self).stack@.len() >= 1,
        ensures
            builder_view(*final(self)) == handle_spec(builder_view(*old(self)), e, raw@, escaped_start),
            final(self).stack@.len() >= 1,
    {
        let ghost b0 = builder_view(*self);
        let ghost e0 = e;
        match e {
            MdEvent::Start(tag) => {
                let ghost t0 = tag;
                let f = new_frame(Some(tag));
                self.stack.push(f);
                assert(builder_view(*self).stack =~= b0.stack.push(frame_for(Some(t0))));
            },
            MdEvent::End => self.close(),
            MdEvent::Text(t) => {
                let text = text_of_event(t.as_str(), raw, escaped_start);
                self.push_text(text);
            },
            MdEvent::Code(t) => self.push_node(Node::CodeSpan(t)),
            MdEvent::Html(t) => self.push_node(Node::HtmlBlock(t)),
            MdEvent::InlineHtml(t) => self.push_node(Node::RawHtml(t)),
            MdEvent::SoftBreak => self.push_break(),
            MdEvent::HardBreak => self.push_break(),
            MdEvent::Rule => self.push_node(Node::ThematicBreak),
            MdEvent::TaskListMarker(checked) => {
                self.task = Some(checked);
                assert(builder_view(*self).stack =~= b0.stack);
            },
            MdEvent::Ignored => {},
        }
    }

    /// The document's children, once every event is in.
    fn finish(self) -> (r: Vec<Node>)
        requires
            self.stack@.len() >= 1,
        ensures
            nodes_view(r@) == builder_view(self).stack.last().children,
    {
        let mut stack = self.stack;
        let ghost s0 = stack@;
        let f = stack.pop().unwrap();
        assert(builder_view(self).stack.last() == frame_view(f));
        f.children
    }
}

/// The builder after the first `n` events, each with its source text and
/// whether a backslash escape comes before it.
pub open spec fn build_fold(events: Seq<(MdEvent, String, bool)>, n: int) -> BuilderView
    decreases n,
{
    if n <= 0 {
        builder_start()
    } else {
        let e = events[n - 1];
        handle_spec(build_fold(events, n - 1), e.0, e.1@, e.2)
    }
}

/// The document's nodes built from a stream of events: each start opens a
/// container, each end closes the innermost one into a node of the one
/// around it, and text, code, HTML, breaks, rules and task markers land in
/// the innermost container.
pub open spec fn tree_spec(events: Seq<(MdEvent, String, bool)>) -> Seq<NodeView> {
    build_fold(events, events.len() as int).stack.last().children
}

/// Builds the document's nodes from a stream of events, each with its
/// source text and whether a backslash escape comes before it.
pub fn build_tree(events: Vec<(MdEvent, String, bool)>) -> (r: Vec<Node>)
    ensures
        nodes_view(r@) == tree_spec(events@),
{
    let ghost all = events@;
    let mut rest = events;
    let mut b = Builder::new();
    let ghost mut k: int = 0;
    while rest.len() > 0
        invariant
            0 <= k <= all.len(),
            rest@ == all.skip(k),
            b.stack@.len() >= 1,
            builder_view(b) == build_fold(all, k),
        decreases rest.len(),
    {
        let (e, raw, escaped) = rest.remove(0);
        assert((e, raw, escaped) == all[k]);
        b.handle(e, raw.as_str(), escaped);
        proof {
            assert(rest@ =~= all.skip(k + 1));
            k = k + 1;
        }
    }
    assert(k == all.len());
    b.finish()
}

} // verus!

verus! {

/// Whether `c` may continue a URL, so that one cannot start after it.
pub open spec fn url_body(c: char) -> bool {
    !is_whitespace(c) && c != '<' && c != '(' && c != '[' && c != '"' && c != '\''
}

/// Whether `c` may be in the local part of an email address.
pub open spec fn email_local(c: char) -> bool {
    is_ascii_alnum(c) || c == '.' || c == '-' || c == '_' || c == '+'
}

/// Whether `c` may be in a label of an email domain.
pub open spec fn email_domain(c: char) -> bool {
    is_ascii_alnum(c) || c == '-' || c == '_'
}

/// The first index from `i` on, before `end`, holding a character `stop`
/// accepts, or `end`.
pub open spec fn scan_until(c: Seq<char>, i: int, end: int, stop: spec_fn(char) -> bool) -> int
    decreases end - i,
{
    if i >= end {
        end
    } else if stop(c[i]) {
        i
    } else {
        scan_until(c, i + 1, end, stop)
    }
}

/// Where a URL's text ends: at white space, `<`, `>`, `"` or `'`.
pub open spec fn url_stop(ch: char) -> bool {
    is_whitespace(ch) || ch == '<' || ch == '>' || ch == '"' || ch == '\''
}

/// Where a URL's host ends: at `/`, `?` or `#`.
pub open spec fn host_stop(ch: char) -> bool {
    ch == '/' || ch == '?' || ch == '#'
}

/// How many times `x` occurs in `s`.
pub open spec fn count_of(s: Seq<char>, x: char) -> int
    decreases s.len(),
{
    if s.len() == 0 {
        0
    } else {
        count_of(s.drop_last(), x) + if s.last() == x {
            1int
        } else {
            0int
        }
    }
}

/// The end of a URL from `start` to `end` once the trailing punctuation
/// the linkifier leaves out is dropped: `.,:;!?*_~`, and a `)` with no
/// `(` to match.
pub open spec fn trim_url_end(c: Seq<char>, start: int, end: int) -> int
    decreases end - start,
{
    if end <= start {
        end
    } else {
        let ch = c[end - 1];
        if ch == '.' || ch == ',' || ch == ':' || ch == ';' || ch == '!' || ch == '?' || ch == '*' || ch == '_'
            || ch == '~' {
            trim_url_end(c, start, end - 1)
        } else if ch == ')' && count_of(c.subrange(start, end), ')') > count_of(c.subrange(start, end), '(') {
            trim_url_end(c, start, end - 1)
        } else {
            end
        }
    }
}

/// The end of a bare URL from `start` to `end`, once trimmed; none for one
/// of at most eight bytes, or one trimmed away.
pub open spec fn finish_url_spec(c: Seq<char>, start: int, end: int) -> Option<int> {
    if byte_len(c.subrange(start, end)) <= 8 {
        None
    } else {
        let e = trim_url_end(c, start, end);
        if e > start {
            Some(e)
        } else {
            None
        }
    }
}

/// How long the scheme prefix at `i` is: `https://`, `http://` or `www.`.
pub open spec fn url_prefix(c: Seq<char>, i: int) -> int {
    let rest = c.skip(i);
    if has_prefix(rest, "https://"@) {
        8
    } else if has_prefix(rest, "http://"@) {
        7
    } else if has_prefix(rest, "www."@) {
        4
    } else {
        0
    }
}

/// The end of a bare `http(s)://` or `www.` URL starting at `i`, whose
/// host holds a period.
pub open spec fn scheme_end_spec(c: Seq<char>, i: int) -> Option<int> {
    let p = url_prefix(c, i);
    if p == 0 {
        None
    } else {
        let body = i + p;
        let end = scan_until(c, body, c.len() as int, |ch: char| url_stop(ch));
        let host_end = scan_until(c, body, end, |ch: char| host_stop(ch));
        let host_part = scan_until(c, body, host_end, |ch: char| ch == ':');
        if !c.subrange(body, host_part).contains('.') {
            None
        } else {
            finish_url_spec(c, i, end)
        }
    }
}

/// The first index of the local part before `at`: how far back the
/// characters allowed there reach.
pub open spec fn local_start(c: Seq<char>, at: int) -> int
    decreases at,
{
    if at <= 0 || !email_local(c[at - 1]) {
        at
    } else {
        local_start(c, at - 1)
    }
}

/// How far the domain after an `@` at `at` reaches from `i`, and whether it
/// holds a period.
pub open spec fn domain_end(c: Seq<char>, i: int, dot: bool) -> (int, bool)
    decreases c.len() - i,
{
    if i >= c.len() || !(email_domain(c[i]) || c[i] == '.') {
        (i, dot)
    } else {
        domain_end(c, i + 1, dot || c[i] == '.')
    }
}

/// The domain's end with trailing `.`, `-` and `_` dropped, not before
/// `floor`.
pub open spec fn trim_domain(c: Seq<char>, floor: int, end: int) -> int
    decreases end - floor,
{
    if end <= floor {
        end
    } else if c[end - 1] == '.' || c[end - 1] == '-' || c[end - 1] == '_' {
        trim_domain(c, floor, end - 1)
    } else {
        end
    }
}

/// The span of a bare email address whose `@` is at `at`: a local part
/// before it, and after it a domain with a period that does not end in
/// `.`, `-` or `_`.
pub open spec fn email_span_spec(c: Seq<char>, at: int) -> Option<(int, int)> {
    let start = local_start(c, at);
    if start == at {
        None
    } else {
        let (e, dot) = domain_end(c, at + 1, false);
        let end = trim_domain(c, at + 1, e);
        if !dot || end <= at + 1 {
            None
        } else {
            Some((start, end))
        }
    }
}

/// Text with its bare URLs and email addresses made autolinks, from index
/// `i` on, with `plain` the text gathered since the last link.
pub open spec fn linkify_from(c: Seq<char>, i: int, plain: Seq<char>) -> Seq<NodeView>
    decreases c.len() - i,
{
    if i >= c.len() || i < 0 {
        if plain.len() > 0 {
            seq![NodeView::Text(plain)]
        } else {
            Seq::empty()
        }
    } else {
        let boundary = i == 0 || !url_body(c[i - 1]);
        let lead = if plain.len() > 0 {
            seq![NodeView::Text(plain)]
        } else {
            Seq::empty()
        };
        let url_end = if boundary {
            match scheme_end_spec(c, i) {
                Some(e) => if i < e <= c.len() {
                    e
                } else {
                    -1
                },
                None => -1,
            }
        } else {
            -1
        };
        let mail = if c[i] == '@' {
            match email_span_spec(c, i) {
                Some((s0, e)) => if 0 <= s0 <= i && i < e <= c.len() {
                    Some((s0, e))
                } else {
                    None
                },
                None => None,
            }
        } else {
            None
        };
        if url_end > i {
            let matched = c.subrange(i, url_end);
            let url = if has_prefix(matched, "www."@) {
                "http://"@ + matched
            } else {
                matched
            };
            lead.push(NodeView::AutoLink { url, is_email: false }) + linkify_from(c, url_end, Seq::empty())
        } else if mail is Some {
            let (s0, e) = mail->0;
            let kept = if plain.len() >= i - s0 {
                plain.take(plain.len() - (i - s0))
            } else {
                Seq::empty()
            };
            let lead2 = if kept.len() > 0 {
                seq![NodeView::Text(kept)]
            } else {
                Seq::empty()
            };
            lead2.push(NodeView::AutoLink { url: c.subrange(s0, e), is_email: true }) + linkify_from(c, e, Seq::empty())
        } else {
            linkify_from(c, i + 1, plain.push(c[i]))
        }
    }
}

} // verus!

verus! {

fn url_body_exec(ch: char) -> (r: bool)
    ensures
        r == url_body(ch),
{
    !is_whitespace_char(ch) && ch != '<' && ch != '(' && ch != '[' && ch != '"' && ch != '\''
}

fn ascii_alnum(ch: char) -> (r: bool)
    ensures
        r == is_ascii_alnum(ch),
{
    ('a' <= ch && ch <= 'z') || ('A' <= ch && ch <= 'Z') || ('0' <= ch && ch <= '9')
}

fn email_local_exec(ch: char) -> (r: bool)
    ensures
        r == email_local(ch),
{
    ascii_alnum(ch) || ch == '.' || ch == '-' || ch == '_' || ch == '+'
}

fn email_domain_exec(ch: char) -> (r: bool)
    ensures
        r == email_domain(ch),
{
    ascii_alnum(ch) || ch == '-' || ch == '_'
}

/// How many bytes the characters from `start` to `end` take, up to nine.
fn longer_than_eight_bytes(c: &Vec<char>, start: usize, end: usize) -> (r: bool)
    requires
        start <= end <= c.len(),
    ensures
        r == (byte_len(c@.subrange(start as int, end as int)) > 8),
{
    let ghost sub = c@.subrange(start as int, end as int);
    let mut acc: usize = 0;
    let mut k: usize = start;
    while k < end
        invariant
            start <= k <= end <= c.len(),
            sub == c@.subrange(start as int, end as int),
            acc == byte_off(sub, k - start),
            acc <= 8,
        decreases end - k,
    {
        acc = acc + utf8_len_exec(c[k]);
        k += 1;
        if acc > 8 {
            proof {
                lemma_byte_off_mono(sub, k - start, sub.len() as int);
            }
            return true;
        }
    }
    false
}

/// How many times `x` occurs from `start` to `end`.
fn count_in(c: &Vec<char>, start: usize, end: usize, x: char) -> (r: usize)
    requires
        start <= end <= c.len(),
    ensures
        r == count_of(c@.subrange(start as int, end as int), x),
{
    let mut n: usize = 0;
    let mut k: usize = start;
    while k < end
        invariant
            start <= k <= end <= c.len(),
            n == count_of(c@.subrange(start as int, k as int), x),
            n <= k - start,
        decreases end - k,
    {
        assert(c@.subrange(start as int, k + 1).drop_last() =~= c@.subrange(start as int, k as int));
        if c[k] == x {
            n += 1;
        }
        k += 1;
    }
    n
}

/// The end of a bare URL from `start` to `end`, once trimmed.
fn finish_url(c: &Vec<char>, start: usize, end: usize) -> (r: Option<usize>)
    requires
        start <= end <= c.len(),
    ensures
        r matches Some(e) ==> finish_url_spec(c@, start as int, end as int) == Some(e as int),
        r is None ==> finish_url_spec(c@, start as int, end as int) is None,
        r matches Some(e) ==> start < e <= end,
{
    if !longer_than_eight_bytes(c, start, end) {
        return None;
    }
    let mut e = end;
    while e > start
        invariant
            start <= e <= end <= c.len(),
            trim_url_end(c@, start as int, end as int) == trim_url_end(c@, start as int, e as int),
        ensures
            start <= e <= end,
            trim_url_end(c@, start as int, end as int) == e,
        decreases e - start,
    {
        let ch = c[e - 1];
        if ch == '.' || ch == ',' || ch == ':' || ch == ';' || ch == '!' || ch == '?' || ch == '*' || ch == '_'
            || ch == '~' {
            e -= 1;
        } else if ch == ')' && count_in(c, start, e, ')') > count_in(c, start, e, '(') {
            e -= 1;
        } else {
            break;
        }
    }
    if e > start {
        Some(e)
    } else {
        None
    }
}

/// The first index from `i` on, before `end`, at which a URL's text ends.
fn url_text_end(c: &Vec<char>, i: usize, end: usize) -> (r: usize)
    requires
        i <= end <= c.len(),
    ensures
        r == scan_until(c@, i as int, end as int, |ch: char| url_stop(ch)),
        i <= r <= end,
{
    let mut k = i;
    while k < end && !(is_whitespace_char(c[k]) || c[k] == '<' || c[k] == '>' || c[k] == '"' || c[k] == '\'')
        invariant
            i <= k <= end <= c.len(),
            scan_until(c@, i as int, end as int, |ch: char| url_stop(ch)) == scan_until(
                c@,
                k as int,
                end as int,
                |ch: char| url_stop(ch),
            ),
        decreases end - k,
    {
        k += 1;
    }
    k
}

/// The first index from `i` on, before `end`, at which a host ends.
fn host_text_end(c: &Vec<char>, i: usize, end: usize) -> (r: usize)
    requires
        i <= end <= c.len(),
    ensures
        r == scan_until(c@, i as int, end as int, |ch: char| host_stop(ch)),
        i <= r <= end,
{
    let mut k = i;
    while k < end && !(c[k] == '/' || c[k] == '?' || c[k] == '#')
        invariant
            i <= k <= end <= c.len(),
            scan_until(c@, i as int, end as int, |ch: char| host_stop(ch)) == scan_until(
                c@,
                k as int,
                end as int,
                |ch: char| host_stop(ch),
            ),
        decreases end - k,
    {
        k += 1;
    }
    k
}

/// The first `:` from `i` on, before `end`, or `end`.
fn colon_at(c: &Vec<char>, i: usize, end: usize) -> (r: usize)
    requires
        i <= end <= c.len(),
    ensures
        r == scan_until(c@, i as int, end as int, |ch: char| ch == ':'),
        i <= r <= end,
{
    let mut k = i;
    while k < end && c[k] != ':'
        invariant
            i <= k <= end <= c.len(),
            scan_until(c@, i as int, end as int, |ch: char| ch == ':') == scan_until(
                c@,
                k as int,
                end as int,
                |ch: char| ch == ':',
            ),
        decreases end - k,
    {
        k += 1;
    }
    k
}

/// Whether a `.` lies between `a` and `b`.
fn has_dot(c: &Vec<char>, a: usize, b: usize) -> (r: bool)
    requires
        a <= b <= c.len(),
    ensures
        r == c@.subrange(a as int, b as int).contains('.'),
{
    let mut k = a;
    while k < b
        invariant
            a <= k <= b <= c.len(),
            forall|j: int| a <= j < k ==> c@[j] != '.',
        decreases b - k,
    {
        if c[k] == '.' {
            assert(c@.subrange(a as int, b as int)[k - a] == '.');
            return true;
        }
        k += 1;
    }
    assert forall|j: int| 0 <= j < b - a implies c@.subrange(a as int, b as int)[j] != '.' by {
        assert(c@.subrange(a as int, b as int)[j] == c@[a + j]);
    }
    false
}

/// The end of a bare `http(s)://` or `www.` URL starting at `i`.
fn scheme_end(c: &Vec<char>, i: usize) -> (r: Option<usize>)
    requires
        i < c.len(),
    ensures
        r matches Some(e) ==> scheme_end_spec(c@, i as int) == Some(e as int),
        r is None ==> scheme_end_spec(c@, i as int) is None,
        r matches Some(e) ==> i < e <= c.len(),
{
    proof {
        reveal_strlit("https://");
        reveal_strlit("http://");
        reveal_strlit("www.");
    }
    let https = chars_of("https://");
    let http = chars_of("http://");
    let www = chars_of("www.");
    let p: usize = if has_prefix_at(c, i, &https) {
        8
    } else if has_prefix_at(c, i, &http) {
        7
    } else if has_prefix_at(c, i, &www) {
        4
    } else {
        0
    };
    assert(p == url_prefix(c@, i as int));
    if p == 0 {
        return None;
    }
    assert(i + p <= c.len());
    let body = i + p;
    let end = url_text_end(c, body, c.len());
    let host_end = host_text_end(c, body, end);
    let host_part = colon_at(c, body, host_end);
    if !has_dot(c, body, host_part) {
        return None;
    }
    finish_url(c, i, end)
}

/// The span of a bare email address whose `@` is at `at`.
fn email_span(c: &Vec<char>, at: usize) -> (r: Option<(usize, usize)>)
    requires
        at < c.len(),
    ensures
        r matches Some((a, b)) ==> email_span_spec(c@, at as int) == Some((a as int, b as int)),
        r is None ==> email_span_spec(c@, at as int) is None,
        r matches Some((a, b)) ==> a <= at < b <= c.len(),
{
    let mut start = at;
    while start > 0 && email_local_exec(c[start - 1])
        invariant
            start <= at < c.len(),
            local_start(c@, at as int) == local_start(c@, start as int),
        decreases start,
    {
        start -= 1;
    }
    if start == at {
        return None;
    }
    let mut e = at + 1;
    let mut dot = false;
    while e < c.len() && (email_domain_exec(c[e]) || c[e] == '.')
        invariant
            at + 1 <= e <= c.len(),
            domain_end(c@, at + 1, false) == domain_end(c@, e as int, dot),
        decreases c.len() - e,
    {
        dot = dot || c[e] == '.';
        e += 1;
    }
    let ghost e0 = e;
    while e > at + 1 && (c[e - 1] == '.' || c[e - 1] == '-' || c[e - 1] == '_')
        invariant
            at + 1 <= e <= e0 <= c.len(),
            trim_domain(c@, at + 1, e0 as int) == trim_domain(c@, at + 1, e as int),
        decreases e,
    {
        e -= 1;
    }
    if !dot || e <= at + 1 {
        return None;
    }
    Some((start, e))
}

/// The nodes viewed, for text gathered since the last link.
spec fn lead_of(plain: Seq<char>) -> Seq<NodeView> {
    if plain.len() > 0 {
        seq![NodeView::Text(plain)]
    } else {
        Seq::empty()
    }
}

/// Appends the gathered text as a node, if there is any.
fn flush_plain(out: &mut Vec<Node>, plain: &Vec<char>)
    ensures
        nodes_view(final(out)@) == nodes_view(old(out)@) + lead_of(plain@),
{
    if plain.len() > 0 {
        let ghost o = out@;
        let n = Node::Text(string_of(plain));
        out.push(n);
        proof {
            lemma_nv_push(o, n);
        }
        assert(nodes_view(out@) =~= nodes_view(o) + lead_of(plain@));
    } else {
        assert(nodes_view(out@) =~= nodes_view(out@) + lead_of(plain@));
    }
}

/// Splits one text run into text and autolink nodes.
pub fn linkify_text(text: &str) -> (r: Vec<Node>)
    ensures
        nodes_view(r@) == linkify_from(text@, 0, Seq::empty()),
{
    let c = chars_of(text);
    let ghost target = linkify_from(c@, 0, Seq::empty());
    let mut out: Vec<Node> = Vec::new();
    let mut plain: Vec<char> = Vec::new();
    let mut i: usize = 0;
    assert(nodes_view(out@) =~= Seq::<NodeView>::empty());
    assert(nodes_view(out@) + linkify_from(c@, 0, plain@) =~= target);
    while i < c.len()
        invariant
            i <= c.len(),
            c@ == text@,
            plain@.len() <= i,
            i > 0 ==> (plain@.len() > 0 ==> plain@.last() == c@[i - 1]),
            nodes_view(out@) + linkify_from(c@, i as int, plain@) == target,
            forall|k: int| 0 <= k < plain@.len() ==> #[trigger] plain@[k] == c@[i - plain@.len() + k],
        decreases c.len() - i,
    {
        let boundary = i == 0 || !url_body_exec(c[i - 1]);
        let url_end = if boundary {
            scheme_end(&c, i)
        } else {
            None
        };
        if let Some(end) = url_end {
            let ghost before = nodes_view(out@);
            flush_plain(&mut out, &plain);
            plain = Vec::new();
            let matched = crate::text::slice_chars(&c, i, end);
            proof {
                reveal_strlit("www.");
                reveal_strlit("http://");
            }
            let www = chars_of("www.");
            let url = if crate::text::has_prefix_at(&matched, 0, &www) {
                let mut u = chars_of("http://");
                extend_chars(&mut u, &matched);
                u
            } else {
                matched
            };
            assert(matched@.skip(0) =~= matched@);
            let ghost o = out@;
            let n = Node::AutoLink { url: string_of(&url), is_email: false };
            out.push(n);
            proof {
                lemma_nv_push(o, n);
            }
            assert(nodes_view(out@) + linkify_from(c@, end as int, plain@) =~= target);
            i = end;
        } else {
            let mail = if c[i] == '@' {
                email_span(&c, i)
            } else {
                None
            };
            if let Some((start, end)) = mail {
                let consumed = i - start;
                proof {
                    assert(local_start(c@, i as int) == start);
                }
                let keep = if plain.len() >= consumed {
                    plain.len() - consumed
                } else {
                    0
                };
                let kept = crate::text::slice_chars(&plain, 0, keep);
                flush_plain(&mut out, &kept);
                plain = Vec::new();
                let addr = crate::text::slice_chars(&c, start, end);
                let ghost o = out@;
                let n = Node::AutoLink { url: string_of(&addr), is_email: true };
                out.push(n);
                proof {
                    lemma_nv_push(o, n);
                }
                assert(nodes_view(out@) + linkify_from(c@, end as int, plain@) =~= target);
                i = end;
            } else {
                plain.push(c[i]);
                i += 1;
            }
        }
    }
    flush_plain(&mut out, &plain);
    assert(nodes_view(out@) =~= target);
    out
}

} // verus!
