//! The file listing's mini and full help views.
use vstd::prelude::*;
use crate::deps::ansi::chars_width;
use crate::deps::glamour::table::sw;
use crate::deps::lipgloss::render_spec;
use crate::text::{chars_of, extend_chars, extend_str, join, repeat, repeat_char, string_of};
use crate::ui::stash::{cur, has_section, visible_spec, FilterState, StashModel, STASH_VIEW_HORIZONTAL_PADDING};
use crate::ui::styles::{styles_ok, StylesView};
use crate::ui::CommonModel;

verus! {

broadcast use vstd::string::group_string_axioms;

/// The shortest the expanded help can be.
pub const MIN_HELP_VIEW_HEIGHT: usize = 5;

/// The widest of the first `n` keys (`even` true) or values of `pairs`.
pub open spec fn widest(pairs: Seq<Seq<char>>, n: int, even: bool) -> int
    decreases n,
{
    if n <= 0 {
        0
    } else {
        let m = widest(pairs, n - 1, even);
        let w = sw(pairs[2 * (n - 1) + if even { 0int } else { 1int }]);
        if w > m {
            w
        } else {
            m
        }
    }
}

/// Row `i` of a help column of key/value `pairs`, `kw` and `vw` wide: the
/// key and value styled (green for `s`, greys otherwise), padded, two
/// spaces apart; blank below the last entry.
pub open spec fn help_row(pairs: Seq<Seq<char>>, st: StylesView, kw: int, vw: int, i: int) -> Seq<char> {
    let n = pairs.len() / 2;
    let (k, v) = if i < n {
        let key = pairs[2 * i];
        let val = pairs[2 * i + 1];
        if key == "s"@ {
            (render_spec(st.green_fg, key), render_spec(st.semi_dim_green_fg, val))
        } else {
            (render_spec(st.gray_fg, key), render_spec(st.mid_gray_fg, val))
        }
    } else {
        (Seq::empty(), Seq::empty())
    };
    k + repeat(' ', (if kw > sw(k) { kw - sw(k) } else { 0 }) as nat) + seq![' ', ' '] + v + repeat(
        ' ',
        (if vw > sw(v) { vw - sw(v) } else { 0 }) as nat,
    )
}

/// A help column rendered `height` rows tall.
pub open spec fn column_rows(pairs: Seq<Seq<char>>, st: StylesView, height: int) -> Seq<Seq<char>> {
    let n = pairs.len() / 2;
    let kw = widest(pairs, n as int, true);
    let vw = widest(pairs, n as int, false);
    Seq::new(height as nat, |i: int| help_row(pairs, st, kw, vw, i))
}

/// Row `i` of the merged columns, through the first `k` columns.
pub open spec fn merged_row(cols: Seq<Seq<Seq<char>>>, i: int, k: int) -> Seq<char>
    decreases k,
{
    if k <= 0 {
        Seq::empty()
    } else {
        let j = k - 1;
        merged_row(cols, i, k - 1) + if i < cols[j].len() {
            (if j == 0 { seq![' ', ' '] } else { seq![' ', ' ', ' ', ' '] }) + cols[j][i]
        } else {
            Seq::empty()
        }
    }
}

/// The tallest of the first `n` columns.
pub open spec fn tallest(cols: Seq<Seq<Seq<char>>>, n: int) -> int
    decreases n,
{
    if n <= 0 {
        0
    } else {
        let m = tallest(cols, n - 1);
        if cols[n - 1].len() > m {
            cols[n - 1].len() as int
        } else {
            m
        }
    }
}

/// Rendered columns merged side by side, a gutter before the first and a
/// gap before the others, at least three rows tall.
pub open spec fn merge_spec(cols: Seq<Seq<Seq<char>>>) -> Seq<char> {
    let t = tallest(cols, cols.len() as int);
    let h = if t > 3 { t } else { 3 };
    join(Seq::new(h as nat, |i: int| merged_row(cols, i, cols.len() as int)), seq!['\n'])
}

/// The rows of each line of a rendered column.
pub open spec fn lines_of(v: Seq<Vec<char>>) -> Seq<Seq<char>> {
    v.map_values(|l: Vec<char>| l@)
}

/// Merges rendered columns side by side: a two-space gutter before the
/// first, a four-space gap before each other one.
pub fn merge_columns(cols: &Vec<Vec<String>>) -> (r: String)
    ensures
        r@ == merge_spec(cols@.map_values(|c: Vec<String>| c@.map_values(|l: String| l@))),
{
    let ghost cv = cols@.map_values(|c: Vec<String>| c@.map_values(|l: String| l@));
    let mut t: usize = 0;
    let mut j: usize = 0;
    while j < cols.len()
        invariant
            j <= cols.len(),
            cv == cols@.map_values(|c: Vec<String>| c@.map_values(|l: String| l@)),
            t == tallest(cv, j as int),
        decreases cols.len() - j,
    {
        assert(cv[j as int].len() == cols@[j as int]@.len());
        if cols[j].len() > t {
            t = cols[j].len();
        }
        j += 1;
    }
    let h = if t > 3 {
        t
    } else {
        3
    };
    let ghost rows = Seq::new(h as nat, |i: int| merged_row(cv, i, cv.len() as int));
    let mut b: Vec<char> = Vec::new();
    let mut i: usize = 0;
    while i < h
        invariant
            i <= h,
            cv == cols@.map_values(|c: Vec<String>| c@.map_values(|l: String| l@)),
            rows == Seq::new(h as nat, |i: int| merged_row(cv, i, cv.len() as int)),
            h > 0,
            i == 0 ==> b@.len() == 0,
            i < h && i > 0 ==> b@ == join(rows.take(i as int), seq!['\n']) + seq!['\n'],
            i == h ==> b@ == join(rows, seq!['\n']),
        decreases h - i,
    {
        let mut line: Vec<char> = Vec::new();
        let mut k: usize = 0;
        while k < cols.len()
            invariant
                k <= cols.len(),
                cv == cols@.map_values(|c: Vec<String>| c@.map_values(|l: String| l@)),
                line@ == merged_row(cv, i as int, k as int),
            decreases cols.len() - k,
        {
            assert(cv[k as int] == cols@[k as int]@.map_values(|l: String| l@));
            if i < cols[k].len() {
                if k == 0 {
                    extend_str(&mut line, "  ");
                } else {
                    extend_str(&mut line, "    ");
                }
                assert(cv[k as int][i as int] == cols@[k as int]@[i as int]@);
                let c = chars_of(cols[k][i].as_str());
                extend_chars(&mut line, &c);
            }
            proof {
                reveal_strlit("  ");
                reveal_strlit("    ");
            }
            assert(line@ =~= merged_row(cv, i as int, k + 1));
            k += 1;
        }
        let ghost before = b@;
        extend_chars(&mut b, &line);
        proof {
            assert(rows[i as int] == line@);
            assert(rows.take(i + 1).drop_last() =~= rows.take(i as int));
        }
        if i < h - 1 {
            b.push('\n');
        }
        i += 1;
        proof {
            if i == 1 {
                assert(rows.take(1) =~= seq![rows[0]]);
            }
            if i == h {
                assert(rows.take(i as int) =~= rows);
            }
        }
    }
    string_of(&b)
}

/// The characters of each string.
pub open spec fn strs(v: Seq<String>) -> Seq<Seq<char>> {
    v.map_values(|x: String| x@)
}

/// A help column of key/value pairs rendered `height` rows tall.
fn render_column(pairs: &Vec<String>, common: &CommonModel, height: usize) -> (r: Vec<String>)
    requires
        pairs.len() % 2 == 0,
        styles_ok(common.styles.view()),
    ensures
        strs(r@) == column_rows(strs(pairs@), common.styles.view(), height as int),
{
    let ghost pv = strs(pairs@);
    let ghost st = common.styles.view();
    let n = pairs.len() / 2;
    let mut kw: usize = 0;
    let mut vw: usize = 0;
    let mut e: usize = 0;
    while e < n
        invariant
            e <= n,
            n == pairs.len() / 2,
            pv == strs(pairs@),
            kw == widest(pv, e as int, true),
            vw == widest(pv, e as int, false),
        decreases n - e,
    {
        assert(pv[2 * e as int] == pairs@[2 * e as int]@);
        assert(pv[2 * e + 1] == pairs@[2 * e + 1]@);
        let a = crate::deps::ansi::string_width(pairs[2 * e].as_str());
        let b = crate::deps::ansi::string_width(pairs[2 * e + 1].as_str());
        if a > kw {
            kw = a;
        }
        if b > vw {
            vw = b;
        }
        e += 1;
    }
    let mut rows: Vec<String> = Vec::new();
    let mut i: usize = 0;
    while i < height
        invariant
            i <= height,
            n == pairs.len() / 2,
            pairs.len() % 2 == 0,
            pv == strs(pairs@),
            st == common.styles.view(),
            styles_ok(st),
            kw == widest(pv, n as int, true),
            vw == widest(pv, n as int, false),
            strs(rows@) == column_rows(pv, st, height as int).take(i as int),
        decreases height - i,
    {
        let (k, v) = if i < n {
            assert(pv[2 * i as int] == pairs@[2 * i as int]@);
            assert(pv[2 * i + 1] == pairs@[2 * i + 1]@);
            let key = pairs[2 * i].as_str();
            let val = pairs[2 * i + 1].as_str();
            let kc = chars_of(key);
            if crate::text::eq_str(&kc, "s") {
                (common.styles.green_fg.render(key), common.styles.semi_dim_green_fg.render(val))
            } else {
                (common.styles.gray_fg.render(key), common.styles.mid_gray_fg.render(val))
            }
        } else {
            proof {
                reveal_strlit("");
            }
            (String::new(), String::new())
        };
        let mut b: Vec<char> = Vec::new();
        extend_str(&mut b, k.as_str());
        let kwid = crate::deps::ansi::string_width(k.as_str());
        let pad_k = if kw > kwid {
            kw - kwid
        } else {
            0
        };
        let sp = repeat_char(' ', pad_k);
        extend_chars(&mut b, &sp);
        b.push(' ');
        b.push(' ');
        extend_str(&mut b, v.as_str());
        let vwid = crate::deps::ansi::string_width(v.as_str());
        let pad_v = if vw > vwid {
            vw - vwid
        } else {
            0
        };
        let sp2 = repeat_char(' ', pad_v);
        extend_chars(&mut b, &sp2);
        assert(b@ =~= help_row(pv, st, kw as int, vw as int, i as int));
        let ghost before = strs(rows@);
        let row = string_of(&b);
        rows.push(row);
        assert(strs(rows@) =~= before.push(b@));
        i += 1;
        assert(strs(rows@) =~= column_rows(pv, st, height as int).take(i as int));
    }
    assert(column_rows(pv, st, height as int).take(i as int) =~= column_rows(pv, st, height as int));
    rows
}

/// The non-empty groups among the first `n`.
pub open spec fn nonempty(groups: Seq<Seq<Seq<char>>>, n: int) -> Seq<Seq<Seq<char>>>
    decreases n,
{
    if n <= 0 {
        Seq::empty()
    } else if groups[n - 1].len() > 0 {
        nonempty(groups, n - 1).push(groups[n - 1])
    } else {
        nonempty(groups, n - 1)
    }
}

/// The most entries among the first `n` columns.
pub open spec fn most_entries(cols: Seq<Seq<Seq<char>>>, n: int) -> int
    decreases n,
{
    if n <= 0 {
        0
    } else {
        let m = most_entries(cols, n - 1);
        if cols[n - 1].len() / 2 > m {
            (cols[n - 1].len() / 2) as int
        } else {
            m
        }
    }
}

/// The expanded help: each non-empty group a column, all as tall as the
/// tallest, merged side by side.
pub open spec fn full_help_spec(st: StylesView, groups: Seq<Seq<Seq<char>>>) -> Seq<char> {
    let cols = nonempty(groups, groups.len() as int);
    let t = most_entries(cols, cols.len() as int);
    merge_spec(Seq::new(cols.len(), |j: int| column_rows(cols[j], st, t)))
}

/// Whether every group holds whole pairs.
pub open spec fn all_even(groups: Seq<Seq<Seq<char>>>) -> bool {
    forall|j: int| 0 <= j < groups.len() ==> #[trigger] groups[j].len() % 2 == 0
}

/// The groups, viewed.
pub open spec fn groups_view(g: Seq<Vec<String>>) -> Seq<Seq<Seq<char>>> {
    g.map_values(|v: Vec<String>| strs(v@))
}

/// A copy of a list of strings.
fn copy_strings(v: &Vec<String>) -> (r: Vec<String>)
    ensures
        strs(r@) == strs(v@),
{
    let mut out: Vec<String> = Vec::new();
    let mut i: usize = 0;
    while i < v.len()
        invariant
            i <= v.len(),
            strs(out@) == strs(v@).take(i as int),
        decreases v.len() - i,
    {
        let ghost before = strs(out@);
        let c = v[i].clone();
        out.push(c);
        assert(strs(out@) =~= before.push(v@[i as int]@));
        i += 1;
        assert(strs(out@) =~= strs(v@).take(i as int));
    }
    assert(strs(v@).take(i as int) =~= strs(v@));
    out
}

/// The expanded help, laid out in columns.
fn full_help_view(common: &CommonModel, groups: &Vec<Vec<String>>) -> (r: String)
    requires
        all_even(groups_view(groups@)),
        styles_ok(common.styles.view()),
    ensures
        r@ == full_help_spec(common.styles.view(), groups_view(groups@)),
{
    let ghost gv = groups_view(groups@);
    let mut cols: Vec<Vec<String>> = Vec::new();
    let mut j: usize = 0;
    while j < groups.len()
        invariant
            j <= groups.len(),
            gv == groups_view(groups@),
            all_even(gv),
            groups_view(cols@) == nonempty(gv, j as int),
        decreases groups.len() - j,
    {
        assert(gv[j as int] == strs(groups@[j as int]@));
        if groups[j].len() > 0 {
            let ghost before = groups_view(cols@);
            let c = copy_strings(&groups[j]);
            let ghost cvv = strs(c@);
            cols.push(c);
            assert(groups_view(cols@) =~= before.push(cvv));
        }
        j += 1;
    }
    let ghost cv = groups_view(cols@);
    proof {
        lemma_nonempty_even(gv, gv.len() as int);
    }
    let mut t: usize = 0;
    let mut k: usize = 0;
    while k < cols.len()
        invariant
            k <= cols.len(),
            cv == groups_view(cols@),
            t == most_entries(cv, k as int),
        decreases cols.len() - k,
    {
        assert(cv[k as int].len() == cols@[k as int]@.len());
        if cols[k].len() / 2 > t {
            t = cols[k].len() / 2;
        }
        k += 1;
    }
    let mut rendered: Vec<Vec<String>> = Vec::new();
    let ghost want = Seq::new(cv.len(), |j: int| column_rows(cv[j], common.styles.view(), t as int));
    let mut k: usize = 0;
    while k < cols.len()
        invariant
            k <= cols.len(),
            cv == groups_view(cols@),
            all_even(cv),
            styles_ok(common.styles.view()),
            want == Seq::new(cv.len(), |j: int| column_rows(cv[j], common.styles.view(), t as int)),
            rendered@.map_values(|c: Vec<String>| c@.map_values(|l: String| l@)) == want.take(k as int),
        decreases cols.len() - k,
    {
        assert(cv[k as int] == strs(cols@[k as int]@));
        let col = render_column(&cols[k], common, t);
        let ghost before = rendered@.map_values(|c: Vec<String>| c@.map_values(|l: String| l@));
        let ghost colv = strs(col@);
        rendered.push(col);
        assert(rendered@.map_values(|c: Vec<String>| c@.map_values(|l: String| l@)) =~= before.push(colv));
        k += 1;
        assert(rendered@.map_values(|c: Vec<String>| c@.map_values(|l: String| l@)) =~= want.take(k as int));
    }
    assert(want.take(k as int) =~= want);
    merge_columns(&rendered)
}

proof fn lemma_nonempty_even(groups: Seq<Seq<Seq<char>>>, n: int)
    requires
        all_even(groups),
        0 <= n <= groups.len(),
    ensures
        all_even(nonempty(groups, n)),
    decreases n,
{
    if n > 0 {
        lemma_nonempty_even(groups, n - 1);
        let prev = nonempty(groups, n - 1);
        if groups[n - 1].len() > 0 {
            assert forall|j: int| 0 <= j < prev.len() + 1 implies #[trigger] prev.push(groups[n - 1])[j].len() % 2 == 0 by {
                if j < prev.len() {
                    assert(prev.push(groups[n - 1])[j] == prev[j]);
                }
            }
        }
    }
}

/// One entry of the mini help: the key and its action in greys, a space
/// apart, and the divider after every entry but the last.
pub open spec fn mini_entry(st: StylesView, entries: Seq<Seq<char>>, i: int) -> Seq<char> {
    let divider = if i < entries.len() - 2 {
        render_spec(st.divider_dot, Seq::empty())
    } else {
        Seq::empty()
    };
    render_spec(st.gray_fg, entries[i]) + seq![' '] + render_spec(st.mid_gray_fg, entries[i + 1]) + divider
}

/// The mini help from entry `i` on, after `s`: entries are added while
/// they stay under `max_width` cells; the first one that would not is
/// replaced by the truncation mark, and nothing follows it.
pub open spec fn mini_from(st: StylesView, entries: Seq<Seq<char>>, i: int, s: Seq<char>, max_width: int) -> Seq<char>
    decreases entries.len() + 1 - i,
{
    if i < 0 || i >= entries.len() {
        s
    } else {
        let next = mini_entry(st, entries, i);
        if sw(s) + sw(next) >= max_width {
            s + render_spec(st.subtle_style, "…"@)
        } else {
            mini_from(st, entries, i + 2, s + next, max_width)
        }
    }
}

/// One line of help for a terminal `width` wide: empty without entries,
/// else a two-space gutter and as many entries as fit beside the
/// listing's padding and the truncation mark.
pub open spec fn mini_spec(st: StylesView, width: int, entries: Seq<Seq<char>>) -> Seq<char> {
    if entries.len() == 0 {
        Seq::empty()
    } else {
        let mark = render_spec(st.subtle_style, "…"@);
        let max_width = width - STASH_VIEW_HORIZONTAL_PADDING - sw(mark) - 2;
        mini_from(st, entries, 0, seq![' ', ' '], max_width)
    }
}

/// One line of help, truncated rather than wrapped.
fn mini_help_view(common: &CommonModel, entries: &Vec<String>) -> (r: String)
    requires
        entries.len() % 2 == 0,
        styles_ok(common.styles.view()),
    ensures
        r@ == mini_spec(common.styles.view(), common.width as int, strs(entries@)),
{
    if entries.len() == 0 {
        proof {
            reveal_strlit("");
        }
        return String::new();
    }
    let ghost st = common.styles.view();
    let ghost ev = strs(entries@);
    let styles = &common.styles;
    let mark = styles.subtle_style.render("…");
    let mark_width = crate::deps::ansi::string_width(mark.as_str());
    let max_width: i128 = common.width as i128 - STASH_VIEW_HORIZONTAL_PADDING as i128 - mark_width as i128 - 2;
    let ghost target = mini_spec(st, common.width as int, ev);
    let mut s: Vec<char> = Vec::new();
    s.push(' ');
    s.push(' ');
    assert(s@ =~= seq![' ', ' ']);
    let mut i: usize = 0;
    while i < entries.len()
        invariant
            i <= entries.len(),
            i % 2 == 0,
            entries.len() % 2 == 0,
            ev == strs(entries@),
            st == common.styles.view(),
            styles == &common.styles,
            styles_ok(st),
            mark@ == render_spec(st.subtle_style, "…"@),
            max_width == common.width as int - STASH_VIEW_HORIZONTAL_PADDING - sw(mark@) - 2,
            target == mini_spec(st, common.width as int, ev),
            mini_from(st, ev, i as int, s@, max_width as int) == target,
        decreases entries.len() - i,
    {
        assert(ev[i as int] == entries@[i as int]@);
        assert(ev[i + 1] == entries@[i + 1]@);
        let k = styles.gray_fg.render(entries[i].as_str());
        let v = styles.mid_gray_fg.render(entries[i + 1].as_str());
        let mut next: Vec<char> = Vec::new();
        extend_str(&mut next, k.as_str());
        next.push(' ');
        extend_str(&mut next, v.as_str());
        if i < entries.len() - 2 {
            let d = styles.divider_dot.string();
            extend_str(&mut next, d.as_str());
        }
        assert(next@ =~= mini_entry(st, ev, i as int));
        let s_width = chars_width(&s);
        let next_width = chars_width(&next);
        assert(s_width == sw(s@) && next_width == sw(next@));
        if s_width as i128 + next_width as i128 >= max_width {
            let ghost before = s@;
            extend_str(&mut s, mark.as_str());
            assert(s@ == mini_from(st, ev, i as int, before, max_width as int));
            return string_of(&s);
        }
        extend_chars(&mut s, &next);
        i += 2;
    }
    string_of(&s)
}

/// The number of line feeds in `s`.
pub open spec fn newlines(s: Seq<char>) -> int
    decreases s.len(),
{
    if s.len() == 0 {
        0
    } else {
        newlines(s.drop_last()) + if s.last() == '\n' {
            1int
        } else {
            0int
        }
    }
}

/// The help and the number of lines it takes: the expanded help's line
/// count (as far as a `usize` counts), at least `MIN_HELP_VIEW_HEIGHT`, or
/// one line of every entry.
pub open spec fn render_help_spec(st: StylesView, width: int, full: bool, groups: Seq<Seq<Seq<char>>>) -> (Seq<char>, int) {
    if full {
        let s = full_help_spec(st, groups);
        let n = if newlines(s) < usize::MAX { newlines(s) + 1 } else { usize::MAX as int };
        (s, if n > MIN_HELP_VIEW_HEIGHT { n } else { MIN_HELP_VIEW_HEIGHT as int })
    } else {
        (mini_spec(st, width, groups.flatten()), 1)
    }
}

/// Counts the line feeds in `s`.
pub fn count_newlines(s: &str) -> (r: usize)
    ensures
        r == newlines(s@),
        r <= s@.len(),
{
    let v = chars_of(s);
    let mut n: usize = 0;
    let mut i: usize = 0;
    while i < v.len()
        invariant
            i <= v.len(),
            v@ == s@,
            n == newlines(v@.take(i as int)),
            n <= i,
        decreases v.len() - i,
    {
        assert(v@.take(i + 1).drop_last() =~= v@.take(i as int));
        if v[i] == '\n' {
            n += 1;
        }
        i += 1;
    }
    assert(v@.take(i as int) =~= v@);
    n
}

/// Renders the help groups, and reports how tall the result is.
fn render_help(common: &CommonModel, full: bool, groups: &Vec<Vec<String>>) -> (r: (String, usize))
    requires
        all_even(groups_view(groups@)),
        styles_ok(common.styles.view()),
    ensures
        (r.0@, r.1 as int) == render_help_spec(common.styles.view(), common.width as int, full, groups_view(groups@)),
{
    let ghost gv = groups_view(groups@);
    if full {
        let s = full_help_view(common, groups);
        let lines = count_newlines(s.as_str());
        let n = lines.saturating_add(1);
        let h = if n > MIN_HELP_VIEW_HEIGHT {
            n
        } else {
            MIN_HELP_VIEW_HEIGHT
        };
        return (s, h);
    }
    let mut entries: Vec<String> = Vec::new();
    let mut j: usize = 0;
    while j < groups.len()
        invariant
            j <= groups.len(),
            gv == groups_view(groups@),
            all_even(gv),
            strs(entries@) == gv.take(j as int).flatten(),
            entries.len() % 2 == 0,
        decreases groups.len() - j,
    {
        assert(gv[j as int] == strs(groups@[j as int]@));
        let g = copy_strings(&groups[j]);
        let ghost before = strs(entries@);
        let ghost len0 = entries.len();
        let mut k: usize = 0;
        while k < g.len()
            invariant
                k <= g.len(),
                strs(entries@) == before + strs(g@).take(k as int),
                entries.len() == len0 + k,
            decreases g.len() - k,
        {
            let ghost mid = strs(entries@);
            let e = g[k].clone();
            entries.push(e);
            assert(strs(entries@) =~= mid.push(g@[k as int]@));
            assert(strs(g@).take(k + 1) =~= strs(g@).take(k as int).push(g@[k as int]@));
            assert(strs(entries@) =~= before + strs(g@).take(k + 1));
            k += 1;
        }
        proof {
            assert(strs(g@).take(k as int) =~= gv[j as int]);
            gv.take(j as int).lemma_flatten_push(gv[j as int]);
            assert(gv.take(j + 1) =~= gv.take(j as int).push(gv[j as int]));
        }
        j += 1;
    }
    assert(gv.take(j as int) =~= gv);
    (mini_help_view(common, &entries), 1)
}

/// The key bindings the help lists, as groups of key/action pairs. While a
/// filter is typed, only how to leave it. Otherwise: navigation (rows and
/// opening in the expanded help, sections when there are several, pages
/// when there are several), the filter, and the application's own keys,
/// `edit` only with documents and `errors` only after one.
pub open spec fn help_groups(
    full: bool,
    filter_state: FilterState,
    num_docs: int,
    num_sections: int,
    total_pages: int,
    has_err: bool,
) -> Seq<Seq<Seq<char>>> {
    if filter_state == FilterState::Filtering {
        seq![
            if num_docs == 0 {
                seq!["enter/esc"@, "cancel"@]
            } else if num_docs == 1 {
                seq!["enter"@, "open"@, "esc"@, "cancel"@]
            } else {
                seq!["enter"@, "confirm"@, "esc"@, "cancel"@, "ctrl+j/ctrl+k ↑/↓"@, "choose"@]
            },
        ]
    } else {
        let none: Seq<Seq<char>> = Seq::empty();
        let nav = nav_help(full, num_docs, num_sections, total_pages);
        let filter = filter_help(filter_state);
        let app = app_help(full, num_docs, has_err);
        if full {
            seq![nav, filter, none, none, app]
        } else {
            seq![nav, filter, none, none, none, app]
        }
    }
}

/// Navigation keys: rows and opening in the expanded help, sections when
/// there are several, pages when there are several.
pub open spec fn nav_help(full: bool, num_docs: int, num_sections: int, total_pages: int) -> Seq<Seq<char>> {
    let rows = if num_docs > 0 && full {
        seq!["enter"@, "open"@, "j/k ↑/↓"@, "choose"@]
    } else {
        Seq::empty()
    };
    let sections = if num_sections > 1 {
        if full {
            seq!["tab/shift+tab"@, "section"@]
        } else {
            seq!["tab"@, "section"@]
        }
    } else {
        Seq::empty()
    };
    let pages = if total_pages > 1 {
        seq!["h/l ←/→"@, "page"@]
    } else {
        Seq::empty()
    };
    rows + sections + pages
}

/// The filter's keys: how to start one, or to edit and clear it.
pub open spec fn filter_help(filter_state: FilterState) -> Seq<Seq<char>> {
    if filter_state != FilterState::Unfiltered {
        seq!["/"@, "edit search"@, "esc"@, "clear filter"@]
    } else {
        seq!["/"@, "find"@]
    }
}

/// The application's keys: errors after one, refresh, edit with documents,
/// quit, and the help toggle.
pub open spec fn app_help(full: bool, num_docs: int, has_err: bool) -> Seq<Seq<char>> {
    let errors = if has_err {
        seq!["!"@, "errors"@]
    } else {
        Seq::empty()
    };
    let edit = if num_docs > 0 {
        seq!["e"@, "edit"@]
    } else {
        Seq::empty()
    };
    let more = if full {
        seq!["?"@, "close help"@]
    } else {
        seq!["?"@, "more"@]
    };
    errors + seq!["r"@, "refresh"@] + edit + seq!["q"@, "quit"@] + more
}

/// The listing's help and its height in lines, from what it depends on.
pub open spec fn stash_help(
    st: StylesView,
    width: int,
    full: bool,
    filter_state: FilterState,
    num_docs: int,
    num_sections: int,
    total_pages: int,
    has_err: bool,
) -> (Seq<char>, int) {
    render_help_spec(st, width, full, help_groups(full, filter_state, num_docs, num_sections, total_pages, has_err))
}

/// The listing's help and its height in lines.
pub open spec fn help_spec(m: &StashModel, st: StylesView, width: int) -> (Seq<char>, int) {
    stash_help(
        st,
        width,
        m.show_full_help,
        m.filter_state,
        visible_spec(m).len() as int,
        m.sections@.len() as int,
        cur(m).paginator.total_pages as int,
        m.err is Some,
    )
}

/// A group with no entries.
fn no_entries() -> (r: Vec<String>)
    ensures
        strs(r@) == Seq::<Seq<char>>::empty(),
{
    let r: Vec<String> = Vec::new();
    assert(strs(r@) =~= Seq::<Seq<char>>::empty());
    r
}

/// Appends a key and its action.
fn push_pair(v: &mut Vec<String>, key: &str, action: &str)
    ensures
        strs(final(v)@) == strs(old(v)@) + seq![key@, action@],
        final(v)@.len() == old(v)@.len() + 2,
{
    let ghost before = strs(v@);
    v.push(key.to_owned());
    v.push(action.to_owned());
    assert(strs(v@) =~= before + seq![key@, action@]);
}

impl StashModel {
    /// The help view and the number of lines it takes.
    pub fn help_view(&self, common: &CommonModel) -> (r: (String, usize))
        requires
            has_section(self),
            styles_ok(common.styles.view()),
        ensures
            (r.0@, r.1 as int) == help_spec(self, common.styles.view(), common.width as int),
    {
        let num_docs = self.visible_markdowns().len();
        let full = self.show_full_help;
        let ghost want = help_groups(
            full,
            self.filter_state,
            num_docs as int,
            self.sections@.len() as int,
            cur(self).paginator.total_pages as int,
            self.err is Some,
        );
        let mut groups: Vec<Vec<String>> = Vec::new();
        if self.filter_state == FilterState::Filtering {
            let mut h: Vec<String> = Vec::new();
            assert(strs(h@) =~= Seq::<Seq<char>>::empty());
            if num_docs == 0 {
                push_pair(&mut h, "enter/esc", "cancel");
                assert(strs(h@) =~= seq!["enter/esc"@, "cancel"@]);
            } else if num_docs == 1 {
                push_pair(&mut h, "enter", "open");
                push_pair(&mut h, "esc", "cancel");
                assert(strs(h@) =~= seq!["enter"@, "open"@, "esc"@, "cancel"@]);
            } else {
                push_pair(&mut h, "enter", "confirm");
                push_pair(&mut h, "esc", "cancel");
                push_pair(&mut h, "ctrl+j/ctrl+k ↑/↓", "choose");
                assert(strs(h@) =~= seq!["enter"@, "confirm"@, "esc"@, "cancel"@, "ctrl+j/ctrl+k ↑/↓"@, "choose"@]);
            }
            let ghost hv = strs(h@);
            groups.push(h);
            assert(groups_view(groups@) =~= seq![hv]);
            assert(groups_view(groups@) =~= want);
            return render_help(common, full, &groups);
        }
        let mut nav: Vec<String> = Vec::new();
        if num_docs > 0 && full {
            push_pair(&mut nav, "enter", "open");
            push_pair(&mut nav, "j/k ↑/↓", "choose");
        }
        if self.sections.len() > 1 {
            if full {
                push_pair(&mut nav, "tab/shift+tab", "section");
            } else {
                push_pair(&mut nav, "tab", "section");
            }
        }
        if self.paginator().total_pages > 1 {
            push_pair(&mut nav, "h/l ←/→", "page");
        }
        let mut filter: Vec<String> = Vec::new();
        if self.filter_applied() {
            push_pair(&mut filter, "/", "edit search");
            push_pair(&mut filter, "esc", "clear filter");
        } else {
            push_pair(&mut filter, "/", "find");
        }
        let mut app: Vec<String> = Vec::new();
        if self.err.is_some() {
            push_pair(&mut app, "!", "errors");
        }
        push_pair(&mut app, "r", "refresh");
        if num_docs > 0 {
            push_pair(&mut app, "e", "edit");
        }
        push_pair(&mut app, "q", "quit");
        if full {
            push_pair(&mut app, "?", "close help");
        } else {
            push_pair(&mut app, "?", "more");
        }
        let ghost navv = strs(nav@);
        let ghost filterv = strs(filter@);
        let ghost appv = strs(app@);
        assert(navv =~= nav_help(full, num_docs as int, self.sections@.len() as int, cur(self).paginator.total_pages as int));
        assert(filterv =~= filter_help(self.filter_state));
        assert(appv =~= app_help(full, num_docs as int, self.err is Some));
        let ghost none: Seq<Seq<char>> = Seq::empty();
        groups.push(nav);
        groups.push(filter);
        groups.push(no_entries());
        groups.push(no_entries());
        if !full {
            groups.push(no_entries());
        }
        groups.push(app);
        proof {
            if full {
                assert(groups_view(groups@) =~= seq![navv, filterv, none, none, appv]);
            } else {
                assert(groups_view(groups@) =~= seq![navv, filterv, none, none, none, appv]);
            }
            assert(groups_view(groups@) =~= want);
        }
        render_help(common, full, &groups)
    }
}

} // verus!
