//! Small helpers: front matter removal, file extensions and the markdown
//! check, and code-block wrapping.
use vstd::prelude::*;
use crate::text::{ascii_lower, chars_of, extend_str, is_whitespace, lower_ascii, slice_chars, string_of, to_lower_ascii};

verus! {

broadcast use vstd::string::group_string_axioms;

/// Whether position `i` of `c` starts a line.
pub open spec fn line_start(c: Seq<u8>, i: int) -> bool {
    i == 0 || (0 < i <= c.len() && c[i - 1] == 10)
}

/// Whether `c` has `---` at position `i`.
pub open spec fn dashes_at(c: Seq<u8>, i: int) -> bool {
    0 <= i && i + 3 <= c.len() && c[i] == 45 && c[i + 1] == 45 && c[i + 2] == 45
}

/// The byte at `i`, if there is one.
pub open spec fn byte_at(c: Seq<u8>, i: int) -> Option<u8> {
    if 0 <= i < c.len() {
        Some(c[i])
    } else {
        None
    }
}

/// The first position from `k` on that is not blank space other than a
/// newline.
pub open spec fn skip_blank(c: Seq<u8>, k: int) -> int
    decreases c.len() - k,
{
    if 0 <= k < c.len() && is_whitespace(c[k] as char) && c[k] != 10 {
        skip_blank(c, k + 1)
    } else {
        k
    }
}

/// Where a front matter delimiter `^---\r?\n(\s*\r?\n)?` that starts at `i`
/// ends, if one does.
pub open spec fn delimiter_end(c: Seq<u8>, i: int) -> Option<int> {
    if !(line_start(c, i) && dashes_at(c, i)) {
        None
    } else {
        let j = if byte_at(c, i + 3) == Some(13u8) { i + 4 } else { i + 3 };
        if byte_at(c, j) != Some(10u8) {
            None
        } else {
            let j1 = j + 1;
            let k0 = skip_blank(c, j1);
            let k = if byte_at(c, k0) == Some(13u8) { k0 + 1 } else { k0 };
            if byte_at(c, k) == Some(10u8) {
                Some(k + 1)
            } else {
                Some(j1)
            }
        }
    }
}

/// The delimiters found scanning from `i`, after `found`, stopping at two.
pub open spec fn scan_delimiters(c: Seq<u8>, i: int, found: Seq<(int, int)>) -> Seq<(int, int)>
    decreases c.len() - i,
{
    if i < 0 || i >= c.len() || found.len() >= 2 {
        found
    } else {
        match delimiter_end(c, i) {
            Some(j) => if j > i {
                scan_delimiters(c, j, found.push((i, j)))
            } else {
                found
            },
            None => scan_delimiters(c, i + 1, found),
        }
    }
}

/// The span from the start of the first delimiter to the end of the second.
pub open spec fn frontmatter_span(c: Seq<u8>) -> Option<(int, int)> {
    let f = scan_delimiters(c, 0, Seq::empty());
    if f.len() > 1 {
        Some((f[0].0, f[1].1))
    } else {
        None
    }
}

/// The content without a front matter header at its very start.
pub open spec fn remove_frontmatter_spec(c: Seq<u8>) -> Seq<u8> {
    match frontmatter_span(c) {
        Some((s, e)) => if s == 0 && e <= c.len() { c.skip(e) } else { c },
        None => c,
    }
}

proof fn lemma_skip_blank(c: Seq<u8>, k: int)
    requires
        0 <= k,
    ensures
        k <= skip_blank(c, k),
        skip_blank(c, k) <= c.len() || skip_blank(c, k) == k,
    decreases c.len() - k,
{
    if 0 <= k < c.len() && is_whitespace(c[k] as char) && c[k] != 10 {
        lemma_skip_blank(c, k + 1);
    }
}

proof fn lemma_skip_blank_stops(c: Seq<u8>, k: int, m: int)
    requires
        0 <= k <= m < c.len(),
        !is_whitespace(c[m] as char),
    ensures
        k <= skip_blank(c, k) <= m,
    decreases m - k,
{
    if k < m && is_whitespace(c[k] as char) && c[k] != 10 {
        lemma_skip_blank_stops(c, k + 1, m);
    }
}

/// The header and the two delimiters around it, as bytes.
pub open spec fn front_matter(h: Seq<u8>) -> Seq<u8> {
    seq![45u8, 45u8, 45u8, 10u8] + h + seq![45u8, 45u8, 45u8, 10u8]
}

/// Whether `h` can stand between two `---` lines: it is empty or ends its
/// last line, and none of its lines starts with `---`.
pub open spec fn closed_header(h: Seq<u8>) -> bool {
    &&& (h.len() == 0 || h[h.len() - 1] == 10)
    &&& forall|p: int|
        0 <= p && p + 3 <= h.len() && (p == 0 || h[p - 1] == 10) ==> !(#[trigger] h[p] == 45 && h[p + 1] == 45
            && h[p + 2] == 45)
}

proof fn lemma_no_delimiter_inside(h: Seq<u8>, body: Seq<u8>, i: int)
    requires
        closed_header(h),
        4 <= i < 4 + h.len(),
    ensures
        delimiter_end(front_matter(h) + body, i) is None,
{
    let c = front_matter(h) + body;
    let n = h.len() as int;
    let p = i - 4;
    assert(c[i] == h[p]);
    if line_start(c, i) && dashes_at(c, i) {
        if p > 0 {
            assert(c[i - 1] == h[p - 1]);
        }
        assert(p + 1 < n) by {
            if p + 1 >= n {
                assert(h[n - 1] == 10);
            }
        }
        assert(c[i + 1] == h[p + 1]);
        assert(p + 2 < n) by {
            if p + 2 >= n {
                assert(h[n - 1] == 10);
            }
        }
        assert(c[i + 2] == h[p + 2]);
        assert(h[p] == 45 && h[p + 1] == 45 && h[p + 2] == 45);
    }
}

proof fn lemma_scan_across_header(h: Seq<u8>, body: Seq<u8>, i: int, f: Seq<(int, int)>)
    requires
        closed_header(h),
        4 <= i <= 4 + h.len(),
        f.len() == 1,
    ensures
        scan_delimiters(front_matter(h) + body, i, f) == scan_delimiters(front_matter(h) + body, 4 + h.len() as int, f),
    decreases 4 + h.len() - i,
{
    if i < 4 + h.len() {
        lemma_no_delimiter_inside(h, body, i);
        lemma_scan_across_header(h, body, i + 1, f);
    }
}

/// Removing front matter removes exactly the header block at the start: for
/// a `---` line, a header none of whose lines is another delimiter, and a
/// closing `---` line, what is left is the body that follows, whatever it
/// holds, `---` lines included, as long as it does not open with a blank
/// line (which would belong to the closing delimiter).
pub proof fn lemma_frontmatter_leaves_the_body(h: Seq<u8>, body: Seq<u8>)
    requires
        closed_header(h),
        body.len() == 0 || 33 <= body[0] <= 126,
    ensures
        remove_frontmatter_spec(front_matter(h) + body) == body,
{
    let c = front_matter(h) + body;
    let n = h.len() as int;
    let e2 = 4 + n;
    assert(c.len() == 8 + n + body.len());
    assert(c[0] == 45 && c[1] == 45 && c[2] == 45 && c[3] == 10);
    assert(c[e2] == 45 && c[e2 + 1] == 45 && c[e2 + 2] == 45 && c[e2 + 3] == 10);
    // The opening delimiter ends inside the header, or right after its line.
    lemma_skip_blank_stops(c, 4, e2);
    let k0 = skip_blank(c, 4);
    let j0 = match delimiter_end(c, 0) { Some(j) => j, None => 0 };
    assert(delimiter_end(c, 0) is Some);
    assert(4 <= j0 <= e2) by {
        if byte_at(c, k0) == Some(13u8) {
            assert(k0 < e2);
        }
    }
    assert(scan_delimiters(c, 0, Seq::empty()) == scan_delimiters(c, j0, seq![(0int, j0)]));
    lemma_scan_across_header(h, body, j0, seq![(0int, j0)]);
    // The closing delimiter is the second one.
    if n > 0 {
        assert(c[e2 - 1] == h[n - 1]);
    }
    let j1 = e2 + 4;
    if body.len() > 0 {
        assert(c[j1] == body[0]);
        assert(!is_whitespace(c[j1] as char));
        lemma_skip_blank_stops(c, j1, j1);
    }
    assert(skip_blank(c, j1) == j1);
    assert(delimiter_end(c, e2) == Some(j1));
    assert(scan_delimiters(c, e2, seq![(0int, j0)]) == scan_delimiters(c, j1, seq![(0int, j0), (e2, j1)])) by {
        assert(seq![(0int, j0)].push((e2, j1)) =~= seq![(0int, j0), (e2, j1)]);
    }
    let f2 = seq![(0int, j0), (e2, j1)];
    assert(scan_delimiters(c, j1, f2) == f2);
    assert(frontmatter_span(c) == Some((0int, j1)));
    assert(c.skip(j1) =~= body);
}

proof fn lemma_scan_positions(c: Seq<u8>, i: int, f: Seq<(int, int)>)
    requires
        0 <= i,
    ensures
        scan_delimiters(c, i, f).len() >= f.len(),
        forall|m: int| 0 <= m < f.len() ==> #[trigger] scan_delimiters(c, i, f)[m] == f[m],
        forall|m: int| f.len() <= m < scan_delimiters(c, i, f).len() ==> #[trigger] scan_delimiters(c, i, f)[m].0 >= i,
    decreases c.len() - i,
{
    if i < c.len() && f.len() < 2 {
        match delimiter_end(c, i) {
            Some(j) => if j > i {
                lemma_scan_positions(c, j, f.push((i, j)));
                let r = scan_delimiters(c, i, f);
                assert forall|m: int| 0 <= m < f.len() implies #[trigger] r[m] == f[m] by {
                    assert(f.push((i, j))[m] == f[m]);
                }
                assert forall|m: int| f.len() <= m < r.len() implies #[trigger] r[m].0 >= i by {
                    if m == f.len() {
                        assert(f.push((i, j))[m] == (i, j));
                    }
                }
            },
            None => {
                lemma_scan_positions(c, i + 1, f);
            },
        }
    }
}

/// Content that does not open with `---` has no front matter to remove: it
/// comes back whole, whatever `---` lines it holds further down.
pub proof fn lemma_frontmatter_only_at_the_start(c: Seq<u8>)
    requires
        !(c.len() >= 3 && c[0] == 45 && c[1] == 45 && c[2] == 45),
    ensures
        remove_frontmatter_spec(c) == c,
{
    assert(delimiter_end(c, 0) is None);
    lemma_scan_positions(c, 1, Seq::empty());
    if c.len() > 0 {
        assert(scan_delimiters(c, 0, Seq::empty()) == scan_delimiters(c, 1, Seq::empty()));
    }
    let f = scan_delimiters(c, 0, Seq::empty());
    if f.len() > 1 {
        assert(f[0].0 >= 1);
    }
}

fn is_space_byte(b: u8) -> (r: bool)
    ensures
        r == is_whitespace(b as char),
{
    b == 9 || b == 10 || b == 11 || b == 12 || b == 13 || b == 32 || b == 0x85 || b == 0xa0
}

fn delimiter_end_exec(c: &[u8], i: usize) -> (r: Option<usize>)
    requires
        i < c@.len(),
    ensures
        match delimiter_end(c@, i as int) {
            Some(j) => r == Some(j as usize) && i < j <= c@.len(),
            None => r is None,
        },
{
    if !((i == 0 || c[i - 1] == 10) && c.len() - i >= 3 && c[i] == 45 && c[i + 1] == 45 && c[i + 2]
        == 45) {
        return None;
    }
    let mut j = i + 3;
    if j < c.len() && c[j] == 13 {
        j += 1;
    }
    if !(j < c.len() && c[j] == 10) {
        return None;
    }
    j += 1;
    let mut k = j;
    proof {
        lemma_skip_blank(c@, j as int);
    }
    while k < c.len() && is_space_byte(c[k]) && c[k] != 10
        invariant
            j <= k <= c@.len(),
            skip_blank(c@, j as int) == skip_blank(c@, k as int),
        decreases c.len() - k,
    {
        k += 1;
    }
    if k < c.len() && c[k] == 13 {
        k += 1;
    }
    if k < c.len() && c[k] == 10 {
        return Some(k + 1);
    }
    Some(j)
}

fn frontmatter_span_exec(c: &[u8]) -> (r: Option<(usize, usize)>)
    ensures
        match frontmatter_span(c@) {
            Some((s, e)) => r matches Some((a, b)) && a as int == s && b as int == e && b <= c@.len(),
            None => r is None,
        },
{
    let mut found: Vec<(usize, usize)> = Vec::new();
    assert(found@.map_values(|p: (usize, usize)| (p.0 as int, p.1 as int)) =~= Seq::<(int, int)>::empty());
    let mut i: usize = 0;
    while i < c.len() && found.len() < 2
        invariant
            i <= c@.len(),
            forall|m: int| 0 <= m < found@.len() ==> (#[trigger] found@[m]).1 <= c@.len(),
            scan_delimiters(c@, 0, Seq::empty()) == scan_delimiters(
                c@,
                i as int,
                found@.map_values(|p: (usize, usize)| (p.0 as int, p.1 as int)),
            ),
            found@.len() <= 2,
        decreases c.len() - i,
    {
        match delimiter_end_exec(c, i) {
            Some(j) => {
                let ghost before = found@;
                found.push((i, j));
                proof {
                    assert(found@.map_values(|p: (usize, usize)| (p.0 as int, p.1 as int)) =~= before.map_values(
                        |p: (usize, usize)| (p.0 as int, p.1 as int),
                    ).push((i as int, j as int)));
                }
                i = j;
            },
            None => {
                i += 1;
            },
        }
    }
    let ghost fv = found@.map_values(|p: (usize, usize)| (p.0 as int, p.1 as int));
    assert(scan_delimiters(c@, i as int, fv) == fv);
    if found.len() > 1 {
        assert(fv[0] == (found@[0].0 as int, found@[0].1 as int));
        assert(fv[1] == (found@[1].0 as int, found@[1].1 as int));
        Some((found[0].0, found[1].1))
    } else {
        None
    }
}

/// Removes the front matter header of a markdown file: a `---` line, the
/// header, and another `---` line, when they open the content.
pub fn remove_frontmatter(content: &[u8]) -> (r: Vec<u8>)
    ensures
        r@ == remove_frontmatter_spec(content@),
{
    let from = match frontmatter_span_exec(content) {
        Some((s, e)) => if s == 0 {
            e
        } else {
            0
        },
        None => 0,
    };
    let mut out: Vec<u8> = Vec::new();
    let mut i = from;
    while i < content.len()
        invariant
            from <= i <= content@.len(),
            out@ == content@.subrange(from as int, i as int),
        decreases content.len() - i,
    {
        out.push(content[i]);
        proof {
            assert(content@.subrange(from as int, i + 1) =~= content@.subrange(from as int, i as int).push(content@[i as int]));
        }
        i += 1;
    }
    proof {
        assert(content@.subrange(from as int, content@.len() as int) =~= content@.skip(from as int));
        assert(content@.skip(0) =~= content@);
    }
    out
}

/// The last element of a path: what follows its last `/` or `\`.
pub open spec fn base_name(path: Seq<char>, i: int) -> Seq<char>
    decreases i,
{
    if i <= 0 {
        path
    } else if path[i - 1] == '/' || path[i - 1] == '\\' {
        path.skip(i)
    } else {
        base_name(path, i - 1)
    }
}

/// The position of the last `.` in `s` before `i`.
pub open spec fn last_dot(s: Seq<char>, i: int) -> Option<int>
    decreases i,
{
    if i <= 0 {
        None
    } else if s[i - 1] == '.' {
        Some(i - 1)
    } else {
        last_dot(s, i - 1)
    }
}

/// `filepath.Ext`: the suffix from the final dot of the last path element.
pub open spec fn extension_spec(path: Seq<char>) -> Seq<char> {
    let base = base_name(path, path.len() as int);
    match last_dot(base, base.len() as int) {
        Some(i) => base.skip(i),
        None => Seq::empty(),
    }
}

/// `filepath.Ext`: the suffix from the final dot of the last path element.
pub fn extension(path: &str) -> (r: String)
    ensures
        r@ == extension_spec(path@),
{
    let v = chars_of(path);
    let mut i = v.len();
    while i > 0 && v[i - 1] != '/' && v[i - 1] != '\\'
        invariant
            i <= v@.len(),
            base_name(v@, v@.len() as int) == base_name(v@, i as int),
        decreases i,
    {
        i -= 1;
    }
    let base = slice_chars(&v, i, v.len());
    proof {
        if i == 0 {
            assert(base@ =~= v@);
        } else {
            assert(base@ =~= v@.skip(i as int));
        }
    }
    let mut k = base.len();
    while k > 0 && base[k - 1] != '.'
        invariant
            k <= base@.len(),
            last_dot(base@, base@.len() as int) == last_dot(base@, k as int),
        decreases k,
    {
        k -= 1;
    }
    if k == 0 {
        String::new()
    } else {
        let e = slice_chars(&base, k - 1, base.len());
        assert(e@ =~= base@.skip(k - 1));
        string_of(&e)
    }
}

/// The extensions that mark a markdown file.
pub open spec fn markdown_extensions() -> Seq<Seq<char>> {
    seq![".md"@, ".mdown"@, ".mkdn"@, ".mkd"@, ".markdown"@]
}

/// Whether the filename has a markdown extension, compared without regard
/// to ASCII case. A name with no extension is taken for markdown.
pub open spec fn is_markdown_spec(filename: Seq<char>) -> bool {
    let ext = extension_spec(filename);
    ext.len() == 0 || markdown_extensions().contains(lower_ascii(ext))
}

/// Whether the filename has a markdown extension.
///
/// A name with no extension is assumed to be markdown; anything else with an
/// extension that is not in the list is treated as code.
pub fn is_markdown_file(filename: &str) -> (r: bool)
    ensures
        r == is_markdown_spec(filename@),
{
    let ext = chars_of(extension(filename).as_str());
    if ext.len() == 0 {
        return true;
    }
    let l = to_lower_ascii(&ext);
    let r = crate::text::eq_str(&l, ".md") || crate::text::eq_str(&l, ".mdown") || crate::text::eq_str(
        &l,
        ".mkdn",
    ) || crate::text::eq_str(&l, ".mkd") || crate::text::eq_str(&l, ".markdown");
    proof {
        let names = markdown_extensions();
        if names.contains(l@) {
            let i = choose|i: int| 0 <= i < names.len() && names[i] == l@;
            assert(i == 0 || i == 1 || i == 2 || i == 3 || i == 4);
        }
        if r {
            if l@ == ".md"@ {
                assert(names[0] == l@);
            } else if l@ == ".mdown"@ {
                assert(names[1] == l@);
            } else if l@ == ".mkdn"@ {
                assert(names[2] == l@);
            } else if l@ == ".mkd"@ {
                assert(names[3] == l@);
            } else {
                assert(names[4] == l@);
            }
        }
    }
    r
}

/// Wraps a string in a fenced code block tagged with `language`.
pub fn wrap_code_block(s: &str, language: &str) -> (r: String)
    ensures
        r@ == "```"@ + language@ + seq!['\n'] + s@ + "```"@,
{
    let mut v = chars_of("```");
    extend_str(&mut v, language);
    v.push('\n');
    extend_str(&mut v, s);
    extend_str(&mut v, "```");
    string_of(&v)
}

} // verus!
