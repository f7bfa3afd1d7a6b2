//! ANSI-aware text measurement, wrapping and truncation.
//!
//! Text is split into zero-width escape sequences and printable grapheme
//! clusters; widths come from the Unicode width tables and cluster
//! boundaries from the Unicode segmentation rules.
use vstd::prelude::*;
use crate::text::{chars_of, contains_char, extend_chars, find_char, find_from, has_char, has_prefix, is_control, is_control_char, is_whitespace, is_whitespace_char, slice_chars, string_of};
use unicode_segmentation::UnicodeSegmentation;
use unicode_width::UnicodeWidthStr;

verus! {

broadcast use vstd::string::group_string_axioms;

/// The escape character that starts every control sequence.
pub const ESC: char = '\u{1b}';

/// A non-breaking space never acts as a wrap point.
pub const NBSP: char = '\u{a0}';

// ---------------------------------------------------------------------------
// Outside functions
// ---------------------------------------------------------------------------

/// The sizes, in characters, of the extended grapheme clusters of a string.
pub uninterp spec fn grapheme_sizes(s: Seq<char>) -> Seq<usize>;

/// The display width of a string, by the Unicode width tables.
pub uninterp spec fn unicode_width(s: Seq<char>) -> usize;

/// Whether every character of `s` is printable ASCII, space to tilde.
pub open spec fn printable_ascii(s: Seq<char>) -> bool {
    forall|i: int| 0 <= i < s.len() ==> ' ' <= #[trigger] s[i] <= '~'
}

/// Sum of a sequence of sizes.
pub open spec fn sum_sizes(s: Seq<usize>) -> int
    decreases s.len(),
{
    if s.len() == 0 {
        0
    } else {
        sum_sizes(s.drop_last()) + s.last()
    }
}

/// Calls `UnicodeSegmentation::graphemes(s, true)` and reports each cluster's
/// length in characters. The clusters partition the string, so every size is
/// at least one and the sizes add up to the string's length; by the
/// segmentation rules no two printable ASCII characters join, so text made
/// only of them is one cluster per character.
#[verifier::external_body]
fn cluster_sizes(s: &Vec<char>) -> (r: Vec<usize>)
    ensures
        r@ == grapheme_sizes(s@),
        forall|i: int| 0 <= i < r@.len() ==> r@[i] >= 1,
        sum_sizes(r@) == s@.len(),
        printable_ascii(s@) ==> r@ == Seq::new(s@.len(), |i: int| 1usize),
{
    let text: String = s.iter().collect();
    text.graphemes(true).map(|g| g.chars().count()).collect()
}

/// Calls `UnicodeWidthStr::width`. Its documented rules give every character
/// a width of at most three columns and a ligature never more than two, so
/// the width is at most three columns per character; a printable ASCII
/// character is one column and takes part in no ligature, so text made only
/// of them is as wide as it is long.
#[verifier::external_body]
fn str_width(s: &Vec<char>) -> (r: usize)
    ensures
        r == unicode_width(s@),
        r <= 3 * s@.len(),
        printable_ascii(s@) ==> r == s@.len(),
{
    let text: String = s.iter().collect();
    UnicodeWidthStr::width(text.as_str())
}

// ---------------------------------------------------------------------------
// Tokens
// ---------------------------------------------------------------------------

/// A piece of tokenised text.
#[derive(Debug, Clone, PartialEq, Eq)]
pub enum Token {
    /// A printable grapheme cluster and its display width.
    Text(Vec<char>, usize),
    /// A control or escape sequence that occupies no columns.
    Escape(Vec<char>),
}

/// The mathematical view of a token.
pub struct Tok {
    pub esc: bool,
    pub text: Seq<char>,
    pub width: nat,
}

impl View for Token {
    type V = Tok;

    open spec fn view(&self) -> Tok {
        match self {
            Token::Text(t, w) => Tok { esc: false, text: t@, width: *w as nat },
            Token::Escape(e) => Tok { esc: true, text: e@, width: 0 },
        }
    }
}

/// Whether every character of `s` is a control character.
pub open spec fn all_control(s: Seq<char>) -> bool {
    forall|i: int| 0 <= i < s.len() ==> is_control(#[trigger] s[i])
}

/// The width of one grapheme cluster: zero for control characters.
pub open spec fn cluster_width(g: Seq<char>) -> nat {
    if all_control(g) {
        0
    } else {
        unicode_width(g) as nat
    }
}

/// The end of a CSI sequence whose parameters start at `i`.
pub open spec fn csi_end(s: Seq<char>, i: int) -> int
    decreases s.len() - i,
{
    if i >= s.len() {
        s.len() as int
    } else if 0x40 <= (s[i] as u32) && (s[i] as u32) <= 0x7e {
        i + 1
    } else {
        csi_end(s, i + 1)
    }
}

/// The end of a string sequence (OSC, DCS, ...) whose body starts at `i`:
/// just past a BEL or an `ESC \`.
pub open spec fn st_end(s: Seq<char>, i: int) -> int
    decreases s.len() - i,
{
    if i >= s.len() {
        s.len() as int
    } else if s[i] == '\u{7}' {
        i + 1
    } else if s[i] == ESC && i + 1 < s.len() && s[i + 1] == '\\' {
        i + 2
    } else {
        st_end(s, i + 1)
    }
}

/// Whether `c` introduces a string sequence after ESC.
pub open spec fn is_string_intro(c: char) -> bool {
    c == ']' || c == 'P' || c == 'X' || c == '^' || c == '_'
}

/// The end of the escape sequence at the start of `s` (which is ESC).
pub open spec fn escape_len(s: Seq<char>) -> int {
    if s.len() <= 1 {
        s.len() as int
    } else if s[1] == '[' {
        csi_end(s, 2)
    } else if is_string_intro(s[1]) {
        st_end(s, 2)
    } else {
        2
    }
}

/// The length of the run of characters before the next ESC.
pub open spec fn run_len(s: Seq<char>) -> int {
    match find_char(s, ESC) {
        Some(i) => i,
        None => s.len() as int,
    }
}

/// Tokens of an ESC-free run, cut at the given cluster sizes.
pub open spec fn run_tokens(run: Seq<char>, sizes: Seq<usize>) -> Seq<Tok>
    decreases sizes.len(),
{
    if sizes.len() == 0 || run.len() == 0 {
        Seq::empty()
    } else {
        let n = if sizes[0] as int <= run.len() {
            sizes[0] as int
        } else {
            run.len() as int
        };
        let g = run.take(n);
        seq![Tok { esc: false, text: g, width: cluster_width(g) }] + run_tokens(
            run.skip(n),
            sizes.drop_first(),
        )
    }
}

pub proof fn lemma_csi_end(s: Seq<char>, i: int)
    requires
        0 <= i <= s.len(),
    ensures
        i <= csi_end(s, i) <= s.len(),
        i < s.len() ==> i < csi_end(s, i),
    decreases s.len() - i,
{
    if i < s.len() {
        lemma_csi_end(s, i + 1);
    }
}

pub proof fn lemma_st_end(s: Seq<char>, i: int)
    requires
        0 <= i <= s.len(),
    ensures
        i <= st_end(s, i) <= s.len(),
        i < s.len() ==> i < st_end(s, i),
    decreases s.len() - i,
{
    if i < s.len() {
        lemma_st_end(s, i + 1);
    }
}

pub proof fn lemma_escape_len(s: Seq<char>)
    requires
        s.len() >= 1,
    ensures
        1 <= escape_len(s) <= s.len(),
{
    if s.len() > 1 {
        lemma_csi_end(s, 2);
        lemma_st_end(s, 2);
    }
}

proof fn lemma_find_bounds(s: Seq<char>, c: char, from: int)
    requires
        0 <= from,
    ensures
        find_from(s, c, from) matches Some(i) ==> from <= i < s.len() && s[i] == c,
    decreases s.len() - from,
{
    if from < s.len() && s[from] != c {
        lemma_find_bounds(s, c, from + 1);
    }
}

pub proof fn lemma_run_len(s: Seq<char>)
    requires
        s.len() >= 1,
        s[0] != ESC,
    ensures
        1 <= run_len(s) <= s.len(),
        forall|j: int| 0 <= j < run_len(s) ==> s[j] != ESC,
{
    lemma_find_bounds(s, ESC, 0);
    assert forall|j: int| 0 <= j < run_len(s) implies s[j] != ESC by {
        if s[j] == ESC {
            lemma_find_prefix(s, ESC, 0, j);
        }
    }
}

proof fn lemma_find_prefix(s: Seq<char>, c: char, from: int, j: int)
    requires
        0 <= from <= j < s.len(),
        s[j] == c,
    ensures
        find_from(s, c, from) matches Some(i) && i <= j,
    decreases j - from,
{
    if s[from] != c {
        lemma_find_prefix(s, c, from + 1, j);
    }
}

/// The tokens of `s`: escape sequences and grapheme clusters, in order.
pub open spec fn tokens(s: Seq<char>) -> Seq<Tok>
    decreases s.len(),
{
    if s.len() == 0 {
        Seq::empty()
    } else if s[0] == ESC {
        let e = escape_len(s);
        if 1 <= e <= s.len() {
            seq![Tok { esc: true, text: s.take(e), width: 0 }] + tokens(s.skip(e))
        } else {
            Seq::empty()
        }
    } else {
        let k = run_len(s);
        if 1 <= k <= s.len() {
            let run = s.take(k);
            run_tokens(run, grapheme_sizes(run)) + tokens(s.skip(k))
        } else {
            Seq::empty()
        }
    }
}

/// The tokens of printable ASCII text: one column per character.
pub open spec fn ascii_tokens(s: Seq<char>) -> Seq<Tok> {
    s.map_values(|c: char| Tok { esc: false, text: seq![c], width: 1 })
}

/// All the token texts, concatenated.
pub open spec fn concat_text(t: Seq<Tok>) -> Seq<char>
    decreases t.len(),
{
    if t.len() == 0 {
        Seq::empty()
    } else {
        concat_text(t.drop_last()) + t.last().text
    }
}

/// Total display width of some tokens.
pub open spec fn tokens_width(t: Seq<Tok>) -> nat
    decreases t.len(),
{
    if t.len() == 0 {
        0
    } else {
        tokens_width(t.drop_last()) + t.last().width
    }
}

/// The display width of `s`.
pub open spec fn width_of(s: Seq<char>) -> nat {
    tokens_width(tokens(s))
}

pub proof fn lemma_concat_append(a: Seq<Tok>, b: Seq<Tok>)
    ensures
        concat_text(a + b) == concat_text(a) + concat_text(b),
        tokens_width(a + b) == tokens_width(a) + tokens_width(b),
    decreases b.len(),
{
    if b.len() == 0 {
        assert(a + b =~= a);
    } else {
        lemma_concat_append(a, b.drop_last());
        assert((a + b).drop_last() =~= a + b.drop_last());
        assert(concat_text(b) == concat_text(b.drop_last()) + b.last().text);
    }
}

/// A text token is at most three columns per character.
pub open spec fn width_bounded(t: Seq<Tok>) -> bool {
    forall|i: int| 0 <= i < t.len() ==> (#[trigger] t[i]).width <= 3 * t[i].text.len() && (!t[i].esc ==> t[i].text.len() >= 1)
}

// ---------------------------------------------------------------------------
// Tokenising
// ---------------------------------------------------------------------------

fn escape_end_at(v: &Vec<char>, start: usize) -> (r: usize)
    requires
        start < v.len(),
        v@[start as int] == ESC,
    ensures
        r == start + escape_len(v@.skip(start as int)),
        start < r <= v.len(),
{
    let ghost s = v@.skip(start as int);
    proof {
        lemma_escape_len(s);
    }
    let mut i = start + 1;
    if i >= v.len() {
        return v.len();
    }
    let c = v[i];
    if c == '[' {
        i += 1;
        while i < v.len() && !(0x40 <= (v[i] as u32) && (v[i] as u32) <= 0x7e)
            invariant
                start + 2 <= i <= v.len(),
                s == v@.skip(start as int),
                csi_end(s, 2) == csi_end(s, i - start),
            decreases v.len() - i,
        {
            i += 1;
        }
        if i < v.len() {
            i + 1
        } else {
            v.len()
        }
    } else if c == ']' || c == 'P' || c == 'X' || c == '^' || c == '_' {
        assert(s[1] == c);
        assert(escape_len(s) == st_end(s, 2));
        i += 1;
        while i < v.len()
            invariant
                start + 2 <= i <= v.len(),
                s == v@.skip(start as int),
                escape_len(s) == st_end(s, 2),
                st_end(s, 2) == st_end(s, i - start),
            decreases v.len() - i,
        {
            assert(s[(i - start) as int] == v@[i as int]);
            assert(s.len() == v.len() - start);
            if v[i] == '\u{7}' {
                assert(st_end(s, (i - start) as int) == (i - start) + 1);
            } else if v[i] == ESC && i + 1 < v.len() && v[i + 1] == '\\' {
                assert(s[(i - start + 1) as int] == v@[i + 1]);
                assert(st_end(s, (i - start) as int) == (i - start) + 2);
            }
            if v[i] == '\u{7}' {
                return i + 1;
            }
            if v[i] == ESC && i + 1 < v.len() && v[i + 1] == '\\' {
                return i + 2;
            }
            i += 1;
        }
        v.len()
    } else {
        i + 1
    }
}

fn all_control_chars(g: &Vec<char>) -> (r: bool)
    ensures
        r == all_control(g@),
{
    let mut i: usize = 0;
    while i < g.len()
        invariant
            i <= g.len(),
            forall|j: int| 0 <= j < i ==> is_control(#[trigger] g@[j]),
        decreases g.len() - i,
    {
        if !is_control_char(g[i]) {
            return false;
        }
        i += 1;
    }
    true
}

/// The width of one grapheme cluster.
fn grapheme_width(g: &Vec<char>) -> (r: usize)
    ensures
        r == cluster_width(g@),
        r <= 3 * g@.len(),
        printable_ascii(g@) ==> r == g@.len(),
{
    if all_control_chars(g) {
        proof {
            if printable_ascii(g@) && g@.len() > 0 {
                assert(!is_control(g@[0]));
            }
        }
        0
    } else {
        str_width(g)
    }
}

proof fn lemma_sum_sizes_first(s: Seq<usize>)
    requires
        s.len() >= 1,
    ensures
        sum_sizes(s) == s[0] + sum_sizes(s.drop_first()),
    decreases s.len(),
{
    if s.len() > 1 {
        lemma_sum_sizes_first(s.drop_last());
        assert(s.drop_last().drop_first() =~= s.drop_first().drop_last());
        assert(s.drop_first().last() == s.last());
        assert(sum_sizes(s.drop_last().drop_first()) == sum_sizes(s.drop_first().drop_last()));
        assert(sum_sizes(s.drop_first()) == sum_sizes(s.drop_first().drop_last()) + s.drop_first().last());
        assert(s.drop_last()[0] == s[0]);
    } else {
        assert(s.drop_first() =~= Seq::<usize>::empty());
        assert(s.drop_last() =~= Seq::<usize>::empty());
        assert(sum_sizes(s) == sum_sizes(s.drop_last()) + s.last());
    }
}

proof fn lemma_sum_prefix(s: Seq<usize>, k: int)
    requires
        0 <= k <= s.len(),
    ensures
        sum_sizes(s.take(k)) <= sum_sizes(s),
        k < s.len() ==> sum_sizes(s.take(k + 1)) == sum_sizes(s.take(k)) + s[k],
    decreases s.len() - k,
{
    if k < s.len() {
        lemma_sum_prefix(s, k + 1);
        assert(s.take(k + 1).drop_last() =~= s.take(k));
    } else {
        assert(s.take(k) =~= s);
    }
}

/// Tokens of one ESC-free run.
fn push_run_tokens(out: &mut Vec<Token>, run: &Vec<char>)
    ensures
        final(out)@.map_values(|t: Token| t@) == old(out)@.map_values(|t: Token| t@) + run_tokens(run@, grapheme_sizes(run@)),
        width_bounded(old(out)@.map_values(|t: Token| t@)) ==> width_bounded(final(out)@.map_values(|t: Token| t@)),
        concat_text(final(out)@.map_values(|t: Token| t@)) == concat_text(old(out)@.map_values(|t: Token| t@)) + run@,
        printable_ascii(run@) ==> tokens_width(final(out)@.map_values(|t: Token| t@)) == tokens_width(
            old(out)@.map_values(|t: Token| t@),
        ) + run@.len(),
        printable_ascii(run@) ==> run_tokens(run@, grapheme_sizes(run@)) == ascii_tokens(run@),
{
    let sizes = cluster_sizes(run);
    let ghost start = out@.map_values(|t: Token| t@);
    let ghost all = run_tokens(run@, sizes@);
    let mut pos: usize = 0;
    let mut j: usize = 0;
    assert(out@.map_values(|t: Token| t@).skip(start.len() as int) =~= Seq::<Tok>::empty());
    assert(out@.map_values(|t: Token| t@).take(start.len() as int) =~= start);
    assert(run@.skip(0) =~= run@);
    assert(sizes@.skip(0) =~= sizes@);
    assert(sizes@.take(0) =~= Seq::<usize>::empty());
    assert(run@.take(0) =~= Seq::<char>::empty());
    assert(concat_text(start) + run@.take(0) =~= concat_text(start));
    while j < sizes.len() && pos < run.len()
        invariant
            j <= sizes.len(),
            pos <= run.len(),
            sizes@ == grapheme_sizes(run@),
            forall|i: int| 0 <= i < sizes@.len() ==> sizes@[i] >= 1,
            all == run_tokens(run@, sizes@),
            all == out@.map_values(|t: Token| t@).skip(start.len() as int) + run_tokens(run@.skip(pos as int), sizes@.skip(j as int)),
            out@.map_values(|t: Token| t@).take(start.len() as int) == start,
            out@.len() >= start.len(),
            width_bounded(start) ==> width_bounded(out@.map_values(|t: Token| t@)),
            sum_sizes(sizes@) == run@.len(),
            pos == sum_sizes(sizes@.take(j as int)),
            concat_text(out@.map_values(|t: Token| t@)) == concat_text(start) + run@.take(pos as int),
            printable_ascii(run@) ==> sizes@ == Seq::new(run@.len(), |i: int| 1usize),
            printable_ascii(run@) ==> tokens_width(out@.map_values(|t: Token| t@)) == tokens_width(start) + pos,
            printable_ascii(run@) ==> out@.map_values(|t: Token| t@).skip(start.len() as int) == ascii_tokens(run@.take(pos as int)),
        decreases sizes.len() - j,
    {
        proof {
            lemma_sum_prefix(sizes@, j as int);
            lemma_sum_prefix(sizes@, j + 1);
        }
        let ghost rest = run@.skip(pos as int);
        let ghost szs = sizes@.skip(j as int);
        let n = if sizes[j] <= run.len() - pos {
            sizes[j]
        } else {
            run.len() - pos
        };
        let g = slice_chars(run, pos, pos + n);
        proof {
            if printable_ascii(run@) {
                assert forall|q: int| 0 <= q < g@.len() implies ' ' <= #[trigger] g@[q] <= '~' by {
                    assert(g@[q] == run@[pos + q]);
                }
            }
        }
        let w = grapheme_width(&g);
        assert(szs[0] == sizes@[j as int]);
        assert(g@ == rest.take(n as int));
        assert(szs.drop_first() =~= sizes@.skip(j + 1));
        assert(rest.skip(n as int) =~= run@.skip(pos + n));
        let ghost before = out@.map_values(|t: Token| t@);
        out.push(Token::Text(g, w));
        let ghost after = out@.map_values(|t: Token| t@);
        assert(after =~= before.push(Tok { esc: false, text: g@, width: w as nat }));
        assert(after.drop_last() =~= before);
        assert(tokens_width(after) == tokens_width(before) + w);
        assert(run@.take(pos + n) =~= run@.take(pos as int) + g@);
        assert(width_bounded(start) ==> width_bounded(after)) by {
            if width_bounded(start) {
                assert forall|k: int| 0 <= k < after.len() implies (#[trigger] after[k]).width <= 3 * after[k].text.len() && (!after[k].esc ==> after[k].text.len() >= 1) by {
                    if k < before.len() {
                        assert(after[k] == before[k]);
                    }
                }
            }
        }
        assert(after.skip(start.len() as int) =~= before.skip(start.len() as int).push(Tok { esc: false, text: g@, width: w as nat }));
        assert(after.take(start.len() as int) =~= before.take(start.len() as int));
        proof {
            if printable_ascii(run@) {
                assert(n == 1);
                assert(g@ =~= seq![run@[pos as int]]);
                assert(ascii_tokens(run@.take(pos + 1)) =~= ascii_tokens(run@.take(pos as int)).push(
                    Tok { esc: false, text: seq![run@[pos as int]], width: 1 },
                ));
            }
        }
        pos = pos + n;
        j += 1;
        assert(all =~= after.skip(start.len() as int) + run_tokens(run@.skip(pos as int), sizes@.skip(j as int)));
    }
    let ghost fin = out@.map_values(|t: Token| t@);
    proof {
        if j == sizes.len() {
            assert(sizes@.take(j as int) =~= sizes@);
        }
        assert(run@.take(pos as int) =~= run@);
    }
    assert(run_tokens(run@.skip(pos as int), sizes@.skip(j as int)) =~= Seq::<Tok>::empty());
    assert(fin =~= start + all);
    assert(all =~= fin.skip(start.len() as int));
}

/// Splits `s` into printable grapheme clusters and zero-width escape
/// sequences.
pub fn tokenize(s: &Vec<char>) -> (r: Vec<Token>)
    ensures
        r@.map_values(|t: Token| t@) == tokens(s@),
        concat_text(tokens(s@)) == s@,
        width_bounded(tokens(s@)),
        printable_ascii(s@) ==> tokens_width(tokens(s@)) == s@.len(),
        printable_ascii(s@) ==> tokens(s@) == ascii_tokens(s@),
{
    let mut out: Vec<Token> = Vec::new();
    let mut i: usize = 0;
    assert(s@.skip(0) =~= s@);
    assert(s@.take(0) =~= Seq::<char>::empty());
    assert(out@.map_values(|t: Token| t@) + tokens(s@) =~= tokens(s@));
    while i < s.len()
        invariant
            i <= s.len(),
            tokens(s@) == out@.map_values(|t: Token| t@) + tokens(s@.skip(i as int)),
            concat_text(out@.map_values(|t: Token| t@)) == s@.take(i as int),
            width_bounded(out@.map_values(|t: Token| t@)),
            printable_ascii(s@) ==> tokens_width(out@.map_values(|t: Token| t@)) == i,
            printable_ascii(s@) ==> out@.map_values(|t: Token| t@) == ascii_tokens(s@.take(i as int)),
        decreases s.len() - i,
    {
        let ghost rest = s@.skip(i as int);
        let ghost before = out@.map_values(|t: Token| t@);
        if s[i] == ESC {
            proof {
                if printable_ascii(s@) {
                    assert(' ' <= s@[i as int]);
                }
            }
            let end = escape_end_at(s, i);
            let e = slice_chars(s, i, end);
            assert(e@ =~= rest.take(end - i));
            out.push(Token::Escape(e));
            assert(out@.map_values(|t: Token| t@) =~= before.push(Tok { esc: true, text: e@, width: 0 }));
            assert(out@.map_values(|t: Token| t@).drop_last() =~= before);
            assert(s@.take(end as int) =~= s@.take(i as int) + e@);
            let ghost after = out@.map_values(|t: Token| t@);
            assert forall|k: int| 0 <= k < after.len() implies (#[trigger] after[k]).width <= 3 * after[k].text.len() && (!after[k].esc ==> after[k].text.len() >= 1) by {
                if k < before.len() {
                    assert(after[k] == before[k]);
                }
            }
            assert(rest.skip(end - i) =~= s@.skip(end as int));
            i = end;
        } else {
            let mut k = i;
            while k < s.len() && s[k] != ESC
                invariant
                    i <= k <= s.len(),
                    forall|j: int| i <= j < k ==> s@[j] != ESC,
                decreases s.len() - k,
            {
                k += 1;
            }
            proof {
                lemma_run_len(rest);
                if k < s.len() {
                    assert(rest[k - i] == ESC);
                    lemma_find_prefix(rest, ESC, 0, k - i);
                    lemma_find_bounds(rest, ESC, 0);
                } else {
                    lemma_find_bounds(rest, ESC, 0);
                }
                assert(run_len(rest) == k - i);
            }
            let run = slice_chars(s, i, k);
            assert(run@ =~= rest.take(k - i));
            proof {
                if printable_ascii(s@) {
                    assert forall|q: int| 0 <= q < run@.len() implies ' ' <= #[trigger] run@[q] <= '~' by {
                        assert(run@[q] == s@[i + q]);
                    }
                }
            }
            push_run_tokens(&mut out, &run);
            assert(rest.skip(k - i) =~= s@.skip(k as int));
            assert(s@.take(k as int) =~= s@.take(i as int) + run@);
            proof {
                if printable_ascii(s@) {
                    assert(ascii_tokens(s@.take(k as int)) =~= ascii_tokens(s@.take(i as int)) + ascii_tokens(run@));
                }
            }
            i = k;
        }
    }
    assert(s@.skip(s.len() as int) =~= Seq::<char>::empty());
    assert(s@.take(s.len() as int) =~= s@);
    assert(out@.map_values(|t: Token| t@) + Seq::<Tok>::empty() =~= out@.map_values(|t: Token| t@));
    out
}

/// `wrap_spec` on printable ASCII text, where every character is a token
/// one column wide.
pub open spec fn wrap_ascii(s: Seq<char>, limit: int, bps: Seq<char>) -> Seq<char> {
    if limit < 1 {
        s
    } else {
        add_word(settle_space(wrap_fold(ascii_tokens(s), limit, bps), limit)).buf
    }
}

} // verus!

verus! {

// ---------------------------------------------------------------------------
// Width and truncation
// ---------------------------------------------------------------------------

proof fn lemma_width_bound(t: Seq<Tok>)
    requires
        width_bounded(t),
    ensures
        tokens_width(t) <= 3 * concat_text(t).len(),
    decreases t.len(),
{
    if t.len() > 0 {
        assert forall|k: int| 0 <= k < t.drop_last().len() implies (#[trigger] t.drop_last()[k]).width <= 3 * t.drop_last()[k].text.len() && (!t.drop_last()[k].esc ==> t.drop_last()[k].text.len() >= 1) by {
            assert(t.drop_last()[k] == t[k]);
        }
        lemma_width_bound(t.drop_last());
        assert(t.last() == t[t.len() - 1]);
    }
}

/// Total width of tokens, exactly.
fn total_width(toks: &Vec<Token>) -> (r: u128)
    requires
        width_bounded(toks@.map_values(|t: Token| t@)),
        concat_text(toks@.map_values(|t: Token| t@)).len() <= usize::MAX,
    ensures
        r == tokens_width(toks@.map_values(|t: Token| t@)),
{
    let ghost all = toks@.map_values(|t: Token| t@);
    let mut sum: u128 = 0;
    let mut i: usize = 0;
    proof {
        lemma_width_bound(all);
    }
    while i < toks.len()
        invariant
            i <= toks.len(),
            all == toks@.map_values(|t: Token| t@),
            width_bounded(all),
            concat_text(all).len() <= usize::MAX,
            sum == tokens_width(all.take(i as int)),
        decreases toks.len() - i,
    {
        proof {
            assert(all.take(i + 1).drop_last() =~= all.take(i as int));
            assert forall|k: int| 0 <= k < all.take(i + 1).len() implies (#[trigger] all.take(i + 1)[k]).width <= 3 * all.take(i + 1)[k].text.len() && (!all.take(i + 1)[k].esc ==> all.take(i + 1)[k].text.len() >= 1) by {
                assert(all.take(i + 1)[k] == all[k]);
            }
            lemma_width_bound(all.take(i + 1));
            lemma_concat_append(all.take(i + 1), all.skip(i + 1));
            assert(all.take(i + 1) + all.skip(i + 1) =~= all);
        }
        let w: usize = match &toks[i] {
            Token::Text(_, w) => *w,
            Token::Escape(_) => 0,
        };
        sum = sum + w as u128;
        i += 1;
    }
    assert(all.take(toks.len() as int) =~= all);
    sum
}

/// The display width of a tokenised string, clamped to `usize`.
pub open spec fn clamp_usize(n: int) -> usize {
    if n <= usize::MAX {
        n as usize
    } else {
        usize::MAX
    }
}

/// Display width of `s`, ignoring ANSI escape sequences.
pub fn chars_width(s: &Vec<char>) -> (r: usize)
    ensures
        r == clamp_usize(width_of(s@) as int),
        printable_ascii(s@) ==> r == s@.len(),
{
    let toks = tokenize(s);
    assert(s@.len() == s.len());
    let w = total_width(&toks);
    if w <= usize::MAX as u128 {
        w as usize
    } else {
        usize::MAX
    }
}

/// Display width of `s`, ignoring ANSI escape sequences; plain printable
/// ASCII text is as wide as it is long.
pub fn string_width(s: &str) -> (r: usize)
    ensures
        r == clamp_usize(width_of(s@) as int),
        printable_ascii(s@) ==> r == s@.len(),
{
    let v = chars_of(s);
    chars_width(&v)
}

/// The state of a truncation pass.
pub struct TruncState {
    pub out: Seq<char>,
    pub cur: int,
    pub in_style: bool,
    pub stopped: bool,
}

/// `"\x1b["`.
pub open spec fn csi_intro() -> Seq<char> {
    seq![ESC, '[']
}

/// Whether an escape resets every style.
pub open spec fn is_reset(e: Seq<char>) -> bool {
    e == seq![ESC, '[', '0', 'm'] || e == seq![ESC, '[', 'm']
}

/// One step of truncation.
pub open spec fn trunc_step(st: TruncState, t: Tok, budget: int) -> TruncState {
    if st.stopped {
        st
    } else if t.esc {
        TruncState {
            out: st.out + t.text,
            in_style: if has_prefix(t.text, csi_intro()) {
                !is_reset(t.text)
            } else {
                st.in_style
            },
            ..st
        }
    } else if st.cur + t.width > budget {
        TruncState { stopped: true, ..st }
    } else {
        TruncState { out: st.out + t.text, cur: st.cur + t.width, ..st }
    }
}

/// Truncation folded over a token prefix.
pub open spec fn trunc_fold(t: Seq<Tok>, budget: int) -> TruncState
    decreases t.len(),
{
    if t.len() == 0 {
        TruncState { out: Seq::empty(), cur: 0, in_style: false, stopped: false }
    } else {
        trunc_step(trunc_fold(t.drop_last(), budget), t.last(), budget)
    }
}

/// `reflow/truncate.StringWithTail`.
pub open spec fn truncate_spec(s: Seq<char>, width: int, tail: Seq<char>) -> Seq<char> {
    if clamp_usize(width_of(s) as int) <= width {
        s
    } else if width < clamp_usize(width_of(tail) as int) {
        Seq::empty()
    } else {
        let st = trunc_fold(tokens(s), width - clamp_usize(width_of(tail) as int));
        st.out + tail + if st.in_style {
            seq![ESC, '[', '0', 'm']
        } else {
            Seq::empty()
        }
    }
}

proof fn lemma_run_tokens_plain(run: Seq<char>, sizes: Seq<usize>)
    ensures
        forall|i: int| 0 <= i < run_tokens(run, sizes).len() ==> !(#[trigger] run_tokens(run, sizes)[i]).esc,
    decreases sizes.len(),
{
    if sizes.len() > 0 && run.len() > 0 {
        let n = if sizes[0] as int <= run.len() { sizes[0] as int } else { run.len() as int };
        lemma_run_tokens_plain(run.skip(n), sizes.drop_first());
        let g = run.take(n);
        let head = seq![Tok { esc: false, text: g, width: cluster_width(g) }];
        let rest = run_tokens(run.skip(n), sizes.drop_first());
        assert forall|i: int| 0 <= i < (head + rest).len() implies !(#[trigger] (head + rest)[i]).esc by {
            if i > 0 {
                assert((head + rest)[i] == rest[i - 1]);
            }
        }
    }
}

/// Text without escape characters cuts into no escape tokens.
pub proof fn lemma_tokens_plain(s: Seq<char>)
    requires
        !has_char(s, ESC),
    ensures
        forall|i: int| 0 <= i < tokens(s).len() ==> !(#[trigger] tokens(s)[i]).esc,
{
    if s.len() > 0 {
        assert(s[0] != ESC);
        lemma_run_len(s);
        lemma_find_bounds(s, ESC, 0);
        let k = run_len(s);
        assert(k == s.len());
        assert(s.skip(k) =~= Seq::<char>::empty());
        let run = s.take(k);
        lemma_run_tokens_plain(run, grapheme_sizes(run));
        let a = run_tokens(run, grapheme_sizes(run));
        assert(tokens(s) =~= a + tokens(s.skip(k)));
        assert(a + Seq::<Tok>::empty() =~= a);
    }
}

proof fn lemma_trunc_fold_plain(t: Seq<Tok>, budget: int, m: int)
    requires
        0 <= m <= t.len(),
        0 <= budget,
        forall|i: int| 0 <= i < t.len() ==> !(#[trigger] t[i]).esc,
    ensures
        ({
            let st = trunc_fold(t.take(m), budget);
            &&& !st.in_style
            &&& !st.stopped ==> st.out == concat_text(t.take(m)) && st.cur == tokens_width(t.take(m))
                && st.cur <= budget
            &&& st.stopped ==> exists|k: int|
                0 <= k < m && st.out == concat_text(t.take(k)) && tokens_width(#[trigger] t.take(k))
                    <= budget && tokens_width(t.take(k + 1)) > budget
        }),
    decreases m,
{
    if m > 0 {
        lemma_trunc_fold_plain(t, budget, m - 1);
        assert(t.take(m).drop_last() =~= t.take(m - 1));
        assert(t.take(m).last() == t[m - 1]);
        let prev = trunc_fold(t.take(m - 1), budget);
        if !prev.stopped && prev.cur + t[m - 1].width > budget {
            assert(tokens_width(t.take(m)) > budget);
            assert(exists|k: int|
                0 <= k < m && prev.out == concat_text(t.take(k)) && tokens_width(#[trigger] t.take(k)) <= budget
                    && tokens_width(t.take(k + 1)) > budget) by {
                assert(t.take((m - 1) + 1) =~= t.take(m));
            }
        }
    } else {
        assert(t.take(0) =~= Seq::<Tok>::empty());
    }
}

/// Truncating text without escape sequences keeps the longest run of whole
/// grapheme clusters that fits the width the tail leaves, then the tail.
pub proof fn lemma_truncate_keeps_a_fitting_prefix(s: Seq<char>, width: int, tail: Seq<char>)
    requires
        !has_char(s, ESC),
        0 <= width,
        clamp_usize(width_of(s) as int) > width,
        clamp_usize(width_of(tail) as int) <= width,
    ensures
        ({
            let t = tokens(s);
            let budget = width - clamp_usize(width_of(tail) as int);
            exists|k: int|
                0 <= k < t.len() && truncate_spec(s, width, tail) == concat_text(t.take(k)) + tail
                    && tokens_width(#[trigger] t.take(k)) <= budget && tokens_width(t.take(k + 1)) > budget
        }),
{
    let t = tokens(s);
    let budget = width - clamp_usize(width_of(tail) as int);
    lemma_tokens_plain(s);
    lemma_trunc_fold_plain(t, budget, t.len() as int);
    assert(t.take(t.len() as int) =~= t);
    let st = trunc_fold(t, budget);
    assert(st.stopped) by {
        if !st.stopped {
            assert(width_of(s) == tokens_width(t));
        }
    }
    let k = choose|k: int|
        0 <= k < t.len() && st.out == concat_text(t.take(k)) && tokens_width(#[trigger] t.take(k)) <= budget
            && tokens_width(t.take(k + 1)) > budget;
    assert(truncate_spec(s, width, tail) =~= concat_text(t.take(k)) + tail);
}

fn is_reset_exec(e: &Vec<char>) -> (r: bool)
    ensures
        r == is_reset(e@),
{
    let a = e.len() == 4 && e[0] == ESC && e[1] == '[' && e[2] == '0' && e[3] == 'm';
    let b = e.len() == 3 && e[0] == ESC && e[1] == '[' && e[2] == 'm';
    proof {
        if a {
            assert(e@ =~= seq![ESC, '[', '0', 'm']);
        }
        if b {
            assert(e@ =~= seq![ESC, '[', 'm']);
        }
    }
    a || b
}

fn starts_csi(e: &Vec<char>) -> (r: bool)
    ensures
        r == has_prefix(e@, csi_intro()),
{
    let r = e.len() >= 2 && e[0] == ESC && e[1] == '[';
    proof {
        if r {
            assert(e@.take(2) =~= csi_intro());
        } else if e.len() >= 2 {
            assert(e@.take(2)[0] == e@[0]);
            assert(e@.take(2)[1] == e@[1]);
        }
    }
    r
}

/// Truncates `s` to `width` columns, appending `tail` when truncation happens.
pub fn truncate_chars(s: &Vec<char>, width: usize, tail: &Vec<char>) -> (r: Vec<char>)
    ensures
        r@ == truncate_spec(s@, width as int, tail@),
{
    if chars_width(s) <= width {
        let r = slice_chars(s, 0, s.len());
        assert(r@ =~= s@);
        return r;
    }
    let tail_width = chars_width(tail);
    if width < tail_width {
        return Vec::new();
    }
    let budget = width - tail_width;
    let toks = tokenize(s);
    let ghost all = toks@.map_values(|t: Token| t@);
    let mut out: Vec<char> = Vec::new();
    let mut cur: usize = 0;
    let mut in_style = false;
    let mut i: usize = 0;
    loop
        invariant
            i <= toks.len(),
            all == toks@.map_values(|t: Token| t@),
            all == tokens(s@),
            cur <= budget,
            ({
                let st = trunc_fold(all.take(i as int), budget as int);
                st.out == out@ && st.cur == cur && st.in_style == in_style && !st.stopped
            }),
        ensures
            ({
                let st = trunc_fold(all, budget as int);
                st.out == out@ && st.in_style == in_style
            }),
        decreases toks.len() - i,
    {
        if i >= toks.len() {
            assert(all.take(i as int) =~= all);
            break;
        }
        proof {
            assert(all.take(i + 1).drop_last() =~= all.take(i as int));
            assert(all.take(i + 1).last() == all[i as int]);
            assert(all[i as int] == toks@[i as int]@);
        }
        match &toks[i] {
            Token::Escape(e) => {
                extend_chars(&mut out, e);
                if starts_csi(e) {
                    in_style = !is_reset_exec(e);
                }
            },
            Token::Text(t, w) => {
                if *w > budget - cur {
                    proof {
                        assert(trunc_fold(all.take(i + 1), budget as int).stopped);
                        lemma_trunc_stopped(all, budget as int, i + 1);
                        assert(all.take(toks.len() as int) =~= all);
                    }
                    break;
                }
                cur = cur + *w;
                extend_chars(&mut out, t);
            },
        }
        i += 1;
    }
    extend_chars(&mut out, tail);
    if in_style {
        let reset = chars_of("\u{1b}[0m");
        proof {
            reveal_strlit("\u{1b}[0m");
        }
        assert(reset@ =~= seq![ESC, '[', '0', 'm']);
        extend_chars(&mut out, &reset);
    } else {
        assert(out@ + Seq::<char>::empty() =~= out@);
    }
    out
}

proof fn lemma_trunc_stopped(t: Seq<Tok>, budget: int, k: int)
    requires
        0 <= k <= t.len(),
        trunc_fold(t.take(k), budget).stopped,
    ensures
        trunc_fold(t, budget) == trunc_fold(t.take(k), budget),
    decreases t.len() - k,
{
    if k < t.len() {
        assert(t.take(k + 1).drop_last() =~= t.take(k));
        lemma_trunc_stopped(t, budget, k + 1);
    } else {
        assert(t.take(k) =~= t);
    }
}

/// Truncates `s` to `width` columns, appending `tail` when truncation happens.
pub fn truncate_with_tail(s: &str, width: usize, tail: &str) -> (r: String)
    ensures
        r@ == truncate_spec(s@, width as int, tail@),
        width_of(s@) <= width ==> r@ == s@,
{
    let sv = chars_of(s);
    let tv = chars_of(tail);
    let out = truncate_chars(&sv, width, &tv);
    string_of(&out)
}

} // verus!

verus! {

// ---------------------------------------------------------------------------
// Wrapping
// ---------------------------------------------------------------------------

/// The state of a wrapping pass: the output so far, the pending word and
/// pending whitespace, and the column counters.
pub struct WrapState {
    pub buf: Seq<char>,
    pub word: Seq<char>,
    pub space: Seq<char>,
    pub space_width: int,
    pub cur_width: int,
    pub word_len: int,
}

/// Flushes pending whitespace into the output.
pub open spec fn add_space(st: WrapState) -> WrapState {
    WrapState {
        cur_width: st.cur_width + st.space_width,
        buf: st.buf + st.space,
        space: Seq::empty(),
        space_width: 0,
        ..st
    }
}

/// Flushes the pending word (and the whitespace before it) into the output.
pub open spec fn add_word(st: WrapState) -> WrapState {
    if st.word.len() > 0 {
        let s2 = add_space(st);
        WrapState {
            cur_width: s2.cur_width + s2.word_len,
            buf: s2.buf + s2.word,
            word: Seq::empty(),
            word_len: 0,
            ..s2
        }
    } else {
        st
    }
}

/// Starts a new line, dropping pending whitespace.
pub open spec fn add_newline(st: WrapState) -> WrapState {
    WrapState { buf: st.buf.push('\n'), cur_width: 0, space: Seq::empty(), space_width: 0, ..st }
}

/// Pending whitespace at a line end: kept when it fits, otherwise dropped.
pub open spec fn settle_space(st: WrapState, limit: int) -> WrapState {
    if st.word_len == 0 {
        if st.cur_width + st.space_width > limit {
            WrapState { cur_width: 0, space: Seq::empty(), space_width: 0, ..st }
        } else {
            WrapState { buf: st.buf + st.space, space: Seq::empty(), space_width: 0, ..st }
        }
    } else {
        st
    }
}

/// A grapheme of more than one UTF-8 byte.
pub open spec fn is_multibyte(t: Seq<char>) -> bool {
    t.len() > 1 || (t.len() == 1 && (t[0] as u32) >= 0x80)
}

/// One printable grapheme of a wrapping pass.
pub open spec fn wrap_text(st: WrapState, t: Seq<char>, width: int, limit: int, bps: Seq<char>) -> WrapState {
    let c = if t.len() > 0 { t[0] } else { '\0' };
    let multibyte = is_multibyte(t);
    if c == '\n' {
        add_newline(add_word(settle_space(st, limit)))
    } else if is_whitespace(c) && c != NBSP {
        let s2 = add_word(st);
        WrapState {
            space: s2.space + t,
            space_width: s2.space_width + if multibyte { width } else { 1 },
            ..s2
        }
    } else if c == '-' || has_char(bps, c) {
        let s2 = add_space(st);
        let keep = if multibyte {
            s2.cur_width + s2.word_len + width > limit
        } else {
            s2.cur_width + s2.word_len >= limit
        };
        if keep {
            WrapState { word: s2.word + t, word_len: s2.word_len + width, ..s2 }
        } else {
            let s3 = add_word(s2);
            WrapState { buf: s3.buf + t, cur_width: s3.cur_width + width, ..s3 }
        }
    } else if multibyte {
        let s2 = if st.word_len + width > limit {
            add_word(st)
        } else {
            st
        };
        let s3 = WrapState { word: s2.word + t, word_len: s2.word_len + width, ..s2 };
        let s4 = if s3.cur_width + s3.word_len + s3.space_width > limit {
            add_newline(s3)
        } else {
            s3
        };
        if s4.word_len == limit {
            add_word(s4)
        } else {
            s4
        }
    } else {
        let s2 = if st.cur_width == limit {
            add_newline(st)
        } else {
            st
        };
        let s3 = WrapState { word: s2.word + t, word_len: s2.word_len + width, ..s2 };
        let s4 = if s3.word_len == limit {
            add_word(s3)
        } else {
            s3
        };
        if s4.cur_width + s4.word_len + s4.space_width > limit {
            add_newline(s4)
        } else {
            s4
        }
    }
}

/// One token of a wrapping pass.
pub open spec fn wrap_step(st: WrapState, t: Tok, limit: int, bps: Seq<char>) -> WrapState {
    if t.esc {
        WrapState { word: st.word + t.text, ..st }
    } else {
        wrap_text(st, t.text, t.width as int, limit, bps)
    }
}

/// The empty wrapping state.
pub open spec fn wrap_init() -> WrapState {
    WrapState {
        buf: Seq::empty(),
        word: Seq::empty(),
        space: Seq::empty(),
        space_width: 0,
        cur_width: 0,
        word_len: 0,
    }
}

/// A wrapping pass folded over a token prefix.
pub open spec fn wrap_fold(t: Seq<Tok>, limit: int, bps: Seq<char>) -> WrapState
    decreases t.len(),
{
    if t.len() == 0 {
        wrap_init()
    } else {
        wrap_step(wrap_fold(t.drop_last(), limit, bps), t.last(), limit, bps)
    }
}

/// `ansi.Wrap`: word-wraps `s` to `limit` columns, breaking after `-` and
/// the characters of `bps`, keeping escape sequences and hard-breaking words
/// longer than the limit. A limit below one leaves the text unchanged.
pub open spec fn wrap_spec(s: Seq<char>, limit: int, bps: Seq<char>) -> Seq<char> {
    if limit < 1 {
        s
    } else {
        add_word(settle_space(wrap_fold(tokens(s), limit, bps), limit)).buf
    }
}

/// The executable wrapping state.
struct Wrapper {
    buf: Vec<char>,
    word: Vec<char>,
    space: Vec<char>,
    space_width: u128,
    cur_width: u128,
    word_len: u128,
}

impl View for Wrapper {
    type V = WrapState;

    closed spec fn view(&self) -> WrapState {
        WrapState {
            buf: self.buf@,
            word: self.word@,
            space: self.space@,
            space_width: self.space_width as int,
            cur_width: self.cur_width as int,
            word_len: self.word_len as int,
        }
    }
}

/// The counter total that bounds every column counter.
spec fn counters(st: WrapState) -> int {
    st.cur_width + st.word_len + st.space_width
}

/// Bound on the counters after `n` characters.
spec fn bound(n: int) -> int {
    4 * n
}

impl Wrapper {
    fn add_space(&mut self)
        requires
            counters(old(self)@) <= u128::MAX,
        ensures
            final(self)@ == add_space(old(self)@),
    {
        self.cur_width = self.cur_width + self.space_width;
        let mut sp: Vec<char> = Vec::new();
        std::mem::swap(&mut sp, &mut self.space);
        extend_chars(&mut self.buf, &sp);
        self.space_width = 0;
    }

    fn add_word(&mut self)
        requires
            counters(old(self)@) <= u128::MAX,
        ensures
            final(self)@ == add_word(old(self)@),
            counters(final(self)@) <= counters(old(self)@),
    {
        if self.word.len() > 0 {
            self.add_space();
            self.cur_width = self.cur_width + self.word_len;
            let mut w: Vec<char> = Vec::new();
            std::mem::swap(&mut w, &mut self.word);
            extend_chars(&mut self.buf, &w);
            self.word_len = 0;
        }
    }

    fn add_newline(&mut self)
        ensures
            final(self)@ == add_newline(old(self)@),
    {
        self.buf.push('\n');
        self.cur_width = 0;
        self.space = Vec::new();
        self.space_width = 0;
    }

    fn settle_space(&mut self, limit: u128)
        requires
            counters(old(self)@) <= u128::MAX,
        ensures
            final(self)@ == settle_space(old(self)@, limit as int),
            counters(final(self)@) <= counters(old(self)@),
    {
        if self.word_len == 0 {
            if self.cur_width + self.space_width > limit {
                self.cur_width = 0;
            } else {
                let mut sp: Vec<char> = Vec::new();
        std::mem::swap(&mut sp, &mut self.space);
                extend_chars(&mut self.buf, &sp);
            }
            self.space = Vec::new();
            self.space_width = 0;
        }
    }

    #[verifier::rlimit(60)]
    fn text(&mut self, t: &Vec<char>, width: usize, limit: u128, bps: &Vec<char>, Ghost(n): Ghost<int>)
        requires
            counters(old(self)@) <= bound(n),
            0 <= n,
            n + t@.len() <= usize::MAX,
            t@.len() >= 1,
            width <= 3 * t@.len(),
            limit <= u64::MAX,
        ensures
            final(self)@ == wrap_text(old(self)@, t@, width as int, limit as int, bps@),
            counters(final(self)@) <= bound(n + t@.len()),
    {
        let c = t[0];
        let multibyte = t.len() > 1 || (c as u32) >= 0x80;
        let w = width as u128;
        if c == '\n' {
            self.settle_space(limit);
            self.add_word();
            self.add_newline();
        } else if is_whitespace_char(c) && c != NBSP {
            self.add_word();
            extend_chars(&mut self.space, t);
            self.space_width = self.space_width + if multibyte {
                w
            } else {
                1
            };
        } else if c == '-' || contains_char(bps, c) {
            self.add_space();
            let keep = if multibyte {
                self.cur_width + self.word_len + w > limit
            } else {
                self.cur_width + self.word_len >= limit
            };
            if keep {
                extend_chars(&mut self.word, t);
                self.word_len = self.word_len + w;
            } else {
                self.add_word();
                extend_chars(&mut self.buf, t);
                self.cur_width = self.cur_width + w;
            }
        } else if multibyte {
            if self.word_len + w > limit {
                self.add_word();
            }
            extend_chars(&mut self.word, t);
            self.word_len = self.word_len + w;
            if self.cur_width + self.word_len + self.space_width > limit {
                self.add_newline();
            }
            if self.word_len == limit {
                self.add_word();
            }
        } else {
            if self.cur_width == limit {
                self.add_newline();
            }
            extend_chars(&mut self.word, t);
            self.word_len = self.word_len + w;
            if self.word_len == limit {
                self.add_word();
            }
            if self.cur_width + self.word_len + self.space_width > limit {
                self.add_newline();
            }
        }
    }
}

proof fn lemma_concat_prefix(t: Seq<Tok>, i: int)
    requires
        0 <= i < t.len(),
    ensures
        concat_text(t.take(i + 1)) == concat_text(t.take(i)) + t[i].text,
        concat_text(t.take(i + 1)).len() <= concat_text(t).len(),
{
    assert(t.take(i + 1).drop_last() =~= t.take(i));
    lemma_concat_append(t.take(i + 1), t.skip(i + 1));
    assert(t.take(i + 1) + t.skip(i + 1) =~= t);
}

/// Word-wraps `s` to `limit` columns.
pub fn wrap_chars(s: &Vec<char>, limit: i64, bps: &Vec<char>) -> (r: Vec<char>)
    ensures
        r@ == wrap_spec(s@, limit as int, bps@),
        printable_ascii(s@) ==> r@ == wrap_ascii(s@, limit as int, bps@),
        esc_free(s@) ==> esc_free(r@),
{
    if limit < 1 {
        let r = slice_chars(s, 0, s.len());
        assert(r@ =~= s@);
        return r;
    }
    let lim = limit as u128;
    let toks = tokenize(s);
    proof {
        if esc_free(s@) {
            lemma_wrap_adds_no_escapes(s@, limit as int, bps@);
        }
    }
    let ghost all = toks@.map_values(|t: Token| t@);
    let mut w = Wrapper {
        buf: Vec::new(),
        word: Vec::new(),
        space: Vec::new(),
        space_width: 0,
        cur_width: 0,
        word_len: 0,
    };
    let mut i: usize = 0;
    assert(all.take(0) =~= Seq::<Tok>::empty());
    assert(w@ == wrap_init());
    while i < toks.len()
        invariant
            i <= toks.len(),
            all == toks@.map_values(|t: Token| t@),
            all == tokens(s@),
            concat_text(all) == s@,
            width_bounded(all),
            lim == limit as u128,
            1 <= limit,
            w@ == wrap_fold(all.take(i as int), limit as int, bps@),
            counters(w@) <= bound(concat_text(all.take(i as int)).len() as int),
        decreases toks.len() - i,
    {
        proof {
            assert(all.take(i + 1).drop_last() =~= all.take(i as int));
            assert(all.take(i + 1).last() == all[i as int]);
            assert(all[i as int] == toks@[i as int]@);
            lemma_concat_prefix(all, i as int);
            assert(s@.len() == s.len());
        }
        let ghost n = concat_text(all.take(i as int)).len() as int;
        match &toks[i] {
            Token::Escape(e) => {
                extend_chars(&mut w.word, e);
            },
            Token::Text(t, width) => {
                assert(all[i as int].width <= 3 * all[i as int].text.len());
                w.text(t, *width, lim, bps, Ghost(n));
            },
        }
        i += 1;
    }
    assert(all.take(toks.len() as int) =~= all);
    assert(s@.len() == s.len());
    w.settle_space(lim);
    w.add_word();
    w.buf
}

/// Word-wraps `s` to `limit` columns, hard-wrapping words that do not fit.
pub fn wrap(s: &str, limit: i64, breakpoints: &str) -> (r: String)
    ensures
        r@ == wrap_spec(s@, limit as int, breakpoints@),
        limit < 1 ==> r@ == s@,
        printable_ascii(s@) ==> r@ == wrap_ascii(s@, limit as int, breakpoints@),
{
    let sv = chars_of(s);
    let bv = chars_of(breakpoints);
    let out = wrap_chars(&sv, limit, &bv);
    string_of(&out)
}

} // verus!

verus! {

/// Whether a character is seen: neither a space nor a line break.
pub open spec fn seen() -> spec_fn(char) -> bool {
    |c: char| c != ' ' && c != '\n'
}

/// The characters of `s` that are neither spaces nor line breaks.
pub open spec fn visible(s: Seq<char>) -> Seq<char> {
    s.filter(seen())
}

/// Whether everything in `s` is a space.
pub open spec fn all_spaces(s: Seq<char>) -> bool {
    forall|i: int| 0 <= i < s.len() ==> s[i] == ' '
}

proof fn lemma_visible_add(a: Seq<char>, b: Seq<char>)
    ensures
        visible(a + b) == visible(a) + visible(b),
{
    Seq::filter_distributes_over_add(a, b, seen());
}

proof fn lemma_visible_spaces(s: Seq<char>)
    requires
        all_spaces(s),
    ensures
        visible(s) == Seq::<char>::empty(),
    decreases s.len(),
{
    reveal(Seq::filter);
    if s.len() > 0 {
        assert(all_spaces(s.drop_last())) by {
            assert forall|i: int| 0 <= i < s.drop_last().len() implies s.drop_last()[i] == ' ' by {
                assert(s.drop_last()[i] == s[i]);
            }
        }
        lemma_visible_spaces(s.drop_last());
        assert(s.last() == s[s.len() - 1]);
    }
}

proof fn lemma_visible_one(c: char)
    ensures
        visible(seq![c]) == (if c != ' ' && c != '\n' { seq![c] } else { Seq::<char>::empty() }),
{
    reveal_with_fuel(Seq::filter, 2);
    assert(seq![c].drop_last() =~= Seq::<char>::empty());
    assert(seq![c].last() == c);
    assert(Seq::<char>::empty().filter(seen()) =~= Seq::<char>::empty());
    assert(seen()(c) == (c != ' ' && c != '\n'));
    if c != ' ' && c != '\n' {
        assert(Seq::<char>::empty().push(c) =~= seq![c]);
    }
}

/// Whether the pending text of a wrapping state shows what `done` shows,
/// with only spaces pending between words.
pub open spec fn keeps(st: WrapState, done: Seq<char>) -> bool {
    visible(st.buf + st.space + st.word) == visible(done) && all_spaces(st.space)
}

proof fn lemma_keeps_add_space(st: WrapState, done: Seq<char>)
    requires
        keeps(st, done),
    ensures
        keeps(add_space(st), done),
{
    assert(add_space(st).buf + add_space(st).space + add_space(st).word =~= st.buf + st.space + st.word);
}

proof fn lemma_keeps_add_word(st: WrapState, done: Seq<char>)
    requires
        keeps(st, done),
    ensures
        keeps(add_word(st), done),
{
    if st.word.len() > 0 {
        assert(add_word(st).buf + add_word(st).space + add_word(st).word =~= st.buf + st.space + st.word);
    }
}

proof fn lemma_keeps_add_newline(st: WrapState, done: Seq<char>)
    requires
        keeps(st, done),
    ensures
        keeps(add_newline(st), done),
{
    let n = add_newline(st);
    lemma_visible_add(st.buf + st.space, st.word);
    lemma_visible_add(st.buf, st.space);
    lemma_visible_spaces(st.space);
    lemma_visible_add(n.buf + n.space, n.word);
    lemma_visible_add(st.buf, seq!['\n']);
    lemma_visible_one('\n');
    assert(n.buf + n.space =~= st.buf + seq!['\n']);
    assert(visible(st.buf) + Seq::<char>::empty() =~= visible(st.buf));
    assert(all_spaces(n.space));
}

proof fn lemma_keeps_settle(st: WrapState, limit: int, done: Seq<char>)
    requires
        keeps(st, done),
    ensures
        keeps(settle_space(st, limit), done),
{
    let n = settle_space(st, limit);
    if st.word_len == 0 {
        if st.cur_width + st.space_width > limit {
            lemma_visible_add(st.buf + st.space, st.word);
            lemma_visible_add(st.buf, st.space);
            lemma_visible_spaces(st.space);
            lemma_visible_add(st.buf, st.word);
            assert(n.buf + n.space =~= st.buf);
            assert(visible(st.buf) + Seq::<char>::empty() =~= visible(st.buf));
        } else {
            assert(n.buf + n.space + n.word =~= st.buf + st.space + st.word);
        }
        assert(all_spaces(n.space));
    }
}

proof fn lemma_keeps_push_word(st: WrapState, t: Seq<char>, w: int, done: Seq<char>)
    requires
        keeps(st, done),
    ensures
        keeps(WrapState { word: st.word + t, word_len: st.word_len + w, ..st }, done + t),
{
    let n = WrapState { word: st.word + t, word_len: st.word_len + w, ..st };
    assert(n.buf + n.space + n.word =~= (st.buf + st.space + st.word) + t);
    lemma_visible_add(st.buf + st.space + st.word, t);
    lemma_visible_add(done, t);
}

proof fn lemma_keeps_step(st: WrapState, c: char, limit: int, bps: Seq<char>, done: Seq<char>)
    requires
        keeps(st, done),
        ' ' <= c <= '~',
    ensures
        keeps(wrap_step(st, Tok { esc: false, text: seq![c], width: 1 }, limit, bps), done.push(c)),
{
    let t = seq![c];
    assert(done.push(c) =~= done + t);
    assert(!is_multibyte(t));
    assert(t[0] == c);
    if c == '\n' {
    } else if is_whitespace(c) && c != NBSP {
        assert(c == ' ');
        let s2 = add_word(st);
        lemma_keeps_add_word(st, done);
        let n = WrapState { space: s2.space + t, space_width: s2.space_width + 1, ..s2 };
        assert(n.buf + n.space + n.word =~= (s2.buf + s2.space) + t + s2.word);
        lemma_visible_add(s2.buf + s2.space + t, s2.word);
        lemma_visible_add(s2.buf + s2.space, t);
        lemma_visible_add(s2.buf + s2.space, s2.word);
        lemma_visible_add(done, t);
        lemma_visible_one(' ');
        assert(visible(s2.buf + s2.space) + Seq::<char>::empty() =~= visible(s2.buf + s2.space));
        assert(visible(done) + Seq::<char>::empty() =~= visible(done));
        assert(all_spaces(n.space)) by {
            assert forall|i: int| 0 <= i < n.space.len() implies n.space[i] == ' ' by {
                if i < s2.space.len() {
                    assert(n.space[i] == s2.space[i]);
                }
            }
        }
    } else if c == '-' || has_char(bps, c) {
        let s2 = add_space(st);
        lemma_keeps_add_space(st, done);
        let keep = s2.cur_width + s2.word_len >= limit;
        if keep {
            lemma_keeps_push_word(s2, t, 1, done);
        } else {
            let s3 = add_word(s2);
            lemma_keeps_add_word(s2, done);
            assert(s3.space.len() == 0);
            assert(s3.word.len() == 0) by {
                if s2.word.len() > 0 {
                    assert(s3.word =~= Seq::<char>::empty());
                }
            }
            let n = WrapState { buf: s3.buf + t, cur_width: s3.cur_width + 1, ..s3 };
            assert(s3.buf + s3.space + s3.word =~= s3.buf);
            assert(n.buf + n.space + n.word =~= s3.buf + t);
            lemma_visible_add(s3.buf, t);
            lemma_visible_add(done, t);
        }
    } else {
        let s2 = if st.cur_width == limit { add_newline(st) } else { st };
        lemma_keeps_add_newline(st, done);
        let s3 = WrapState { word: s2.word + t, word_len: s2.word_len + 1, ..s2 };
        lemma_keeps_push_word(s2, t, 1, done);
        let s4 = if s3.word_len == limit { add_word(s3) } else { s3 };
        lemma_keeps_add_word(s3, done + t);
        lemma_keeps_add_newline(s4, done + t);
    }
}

proof fn lemma_keeps_fold(s: Seq<char>, limit: int, bps: Seq<char>)
    requires
        printable_ascii(s),
    ensures
        keeps(wrap_fold(ascii_tokens(s), limit, bps), s),
    decreases s.len(),
{
    if s.len() == 0 {
        assert(ascii_tokens(s) =~= Seq::<Tok>::empty());
        let st = wrap_init();
        assert(st.buf + st.space + st.word =~= s);
    } else {
        let p = s.drop_last();
        assert(printable_ascii(p)) by {
            assert forall|i: int| 0 <= i < p.len() implies ' ' <= #[trigger] p[i] <= '~' by {
                assert(p[i] == s[i]);
            }
        }
        lemma_keeps_fold(p, limit, bps);
        assert(ascii_tokens(s).drop_last() =~= ascii_tokens(p));
        assert(ascii_tokens(s).last() == Tok { esc: false, text: seq![s.last()], width: 1 });
        assert(' ' <= s[s.len() - 1] <= '~');
        lemma_keeps_step(wrap_fold(ascii_tokens(p), limit, bps), s.last(), limit, bps, p);
        assert(p.push(s.last()) =~= s);
    }
}

/// Wrapping printable ASCII text keeps every character other than a space,
/// in order: it only breaks lines and drops the spaces at the breaks.
pub proof fn lemma_wrap_keeps_the_words(s: Seq<char>, limit: int, bps: Seq<char>)
    requires
        printable_ascii(s),
    ensures
        visible(wrap_ascii(s, limit, bps)) == visible(s),
{
    if limit >= 1 {
        lemma_keeps_fold(s, limit, bps);
        let st = settle_space(wrap_fold(ascii_tokens(s), limit, bps), limit);
        lemma_keeps_settle(wrap_fold(ascii_tokens(s), limit, bps), limit, s);
        lemma_keeps_add_word(st, s);
        let f = add_word(st);
        if st.word.len() == 0 {
            lemma_visible_add(f.buf + f.space, f.word);
            lemma_visible_add(f.buf, f.space);
            lemma_visible_spaces(f.space);
            assert(f.word =~= Seq::<char>::empty());
            assert(visible(f.word) =~= Seq::<char>::empty()) by {
                reveal(Seq::filter);
            }
            assert(visible(f.buf) + Seq::<char>::empty() + Seq::<char>::empty() =~= visible(f.buf));
        } else {
            assert(f.space =~= Seq::<char>::empty());
            assert(f.word =~= Seq::<char>::empty());
            assert(f.buf + f.space + f.word =~= f.buf);
        }
    }
}

} // verus!

verus! {

/// Whether `s` holds no escape character.
pub open spec fn esc_free(s: Seq<char>) -> bool {
    !s.contains(ESC)
}

proof fn lemma_esc_free_add(a: Seq<char>, b: Seq<char>)
    requires
        esc_free(a),
        esc_free(b),
    ensures
        esc_free(a + b),
{
    if (a + b).contains(ESC) {
        let i = choose|i: int| 0 <= i < (a + b).len() && (a + b)[i] == ESC;
        if i < a.len() {
            assert(a[i] == ESC);
        } else {
            assert(b[i - a.len()] == ESC);
        }
    }
}

proof fn lemma_esc_free_parts(a: Seq<char>, b: Seq<char>)
    requires
        esc_free(a + b),
    ensures
        esc_free(a),
        esc_free(b),
{
    if a.contains(ESC) {
        let i = choose|i: int| 0 <= i < a.len() && a[i] == ESC;
        assert((a + b)[i] == ESC);
    }
    if b.contains(ESC) {
        let i = choose|i: int| 0 <= i < b.len() && b[i] == ESC;
        assert((a + b)[a.len() + i] == ESC);
    }
}

/// Whether no pending text of a wrapping state holds an escape character.
pub open spec fn state_esc_free(st: WrapState) -> bool {
    esc_free(st.buf) && esc_free(st.space) && esc_free(st.word)
}

proof fn lemma_free_add_space(st: WrapState)
    requires
        state_esc_free(st),
    ensures
        state_esc_free(add_space(st)),
{
    lemma_esc_free_add(st.buf, st.space);
    assert(esc_free(Seq::<char>::empty()));
}

proof fn lemma_free_add_word(st: WrapState)
    requires
        state_esc_free(st),
    ensures
        state_esc_free(add_word(st)),
{
    lemma_free_add_space(st);
    lemma_esc_free_add(add_space(st).buf, add_space(st).word);
    assert(esc_free(Seq::<char>::empty()));
}

proof fn lemma_free_add_newline(st: WrapState)
    requires
        state_esc_free(st),
    ensures
        state_esc_free(add_newline(st)),
{
    assert(esc_free(seq!['\n'])) by {
        if seq!['\n'].contains(ESC) {
            let i = choose|i: int| 0 <= i < 1 && seq!['\n'][i] == ESC;
            assert(i == 0);
        }
    }
    lemma_esc_free_add(st.buf, seq!['\n']);
    assert(st.buf.push('\n') =~= st.buf + seq!['\n']);
    assert(esc_free(Seq::<char>::empty()));
}

proof fn lemma_free_settle(st: WrapState, limit: int)
    requires
        state_esc_free(st),
    ensures
        state_esc_free(settle_space(st, limit)),
{
    lemma_esc_free_add(st.buf, st.space);
    assert(esc_free(Seq::<char>::empty()));
}

proof fn lemma_free_step(st: WrapState, t: Tok, limit: int, bps: Seq<char>)
    requires
        state_esc_free(st),
        esc_free(t.text),
    ensures
        state_esc_free(wrap_step(st, t, limit, bps)),
{
    let x = t.text;
    let w = t.width as int;
    lemma_free_add_space(st);
    lemma_free_add_word(st);
    lemma_free_add_newline(st);
    lemma_free_settle(st, limit);
    if t.esc {
        lemma_esc_free_add(st.word, x);
    } else {
        let c = if x.len() > 0 { x[0] } else { '\0' };
        if c == '\n' {
            let a = settle_space(st, limit);
            lemma_free_add_word(a);
            lemma_free_add_newline(add_word(a));
        } else if is_whitespace(c) && c != NBSP {
            let s2 = add_word(st);
            lemma_esc_free_add(s2.space, x);
        } else if c == '-' || has_char(bps, c) {
            let s2 = add_space(st);
            lemma_esc_free_add(s2.word, x);
            let s3 = add_word(s2);
            lemma_free_add_word(s2);
            lemma_esc_free_add(s3.buf, x);
        } else if is_multibyte(x) {
            let s2 = if st.word_len + w > limit { add_word(st) } else { st };
            let s3 = WrapState { word: s2.word + x, word_len: s2.word_len + w, ..s2 };
            lemma_esc_free_add(s2.word, x);
            lemma_free_add_newline(s3);
            let s4 = if s3.cur_width + s3.word_len + s3.space_width > limit { add_newline(s3) } else { s3 };
            lemma_free_add_word(s4);
        } else {
            let s2 = if st.cur_width == limit { add_newline(st) } else { st };
            let s3 = WrapState { word: s2.word + x, word_len: s2.word_len + w, ..s2 };
            lemma_esc_free_add(s2.word, x);
            lemma_free_add_word(s3);
            let s4 = if s3.word_len == limit { add_word(s3) } else { s3 };
            lemma_free_add_newline(s4);
        }
    }
}

proof fn lemma_free_fold(t: Seq<Tok>, limit: int, bps: Seq<char>)
    requires
        esc_free(concat_text(t)),
    ensures
        state_esc_free(wrap_fold(t, limit, bps)),
    decreases t.len(),
{
    if t.len() == 0 {
        assert(esc_free(Seq::<char>::empty()));
    } else {
        lemma_esc_free_parts(concat_text(t.drop_last()), t.last().text);
        lemma_free_fold(t.drop_last(), limit, bps);
        lemma_free_step(wrap_fold(t.drop_last(), limit, bps), t.last(), limit, bps);
    }
}

/// Wrapping text without escape characters adds none.
pub proof fn lemma_wrap_adds_no_escapes(s: Seq<char>, limit: int, bps: Seq<char>)
    requires
        esc_free(s),
        concat_text(tokens(s)) == s,
    ensures
        esc_free(wrap_spec(s, limit, bps)),
{
    if limit >= 1 {
        lemma_free_fold(tokens(s), limit, bps);
        let st = wrap_fold(tokens(s), limit, bps);
        lemma_free_settle(st, limit);
        lemma_free_add_word(settle_space(st, limit));
    }
}

} // verus!
