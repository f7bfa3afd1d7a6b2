//! Searching a directory tree for files: the search results, the
//! `filepath.Match` globbing that decides which names match and which paths
//! are skipped, and what the walk does at each path it meets.
use vstd::prelude::*;
use crate::text::{chars_of, extend_chars, has_char, lower_ascii, lower_case, str_has_char, string_of, to_lower, to_lower_ascii};

verus! {

#[verifier::external_type_specification]
#[verifier::external_body]
pub struct ExSystemTime(std::time::SystemTime);

/// The absolute path of a file, with the metadata the walk already had.
#[derive(Debug)]
pub struct SearchResult {
    /// Absolute path of the file.
    pub path: String,
    /// Last modification time.
    pub modified: std::time::SystemTime,
}

/// One `[...]` character class from position `i` on: whether `c` matched
/// so far, and the position just past the closing bracket.
pub open spec fn class_loop(p: Seq<char>, i: int, c: char, matched: bool, first: bool) -> (bool, int)
    decreases p.len() - i,
{
    if 0 <= i < p.len() && (p[i] != ']' || first) {
        let lo = p[i];
        if i + 2 < p.len() && p[i + 1] == '-' && p[i + 2] != ']' {
            class_loop(p, i + 3, c, matched || (lo <= c && c <= p[i + 2]), false)
        } else {
            class_loop(p, i + 1, c, matched || lo == c, false)
        }
    } else {
        (matched, if 0 <= i < p.len() { i + 1 } else { i })
    }
}

/// The class starting at `start` (on its `[`) against `c`: whether it
/// matched, negation applied, and where the pattern goes on.
pub open spec fn class_spec(p: Seq<char>, start: int, c: char) -> (bool, int) {
    let i = start + 1;
    let negated = 0 <= i < p.len() && p[i] == '^';
    let (m, next) = class_loop(p, if negated { i + 1 } else { i }, c, false, true);
    (m != negated, next)
}

proof fn lemma_class_loop_advances(p: Seq<char>, i: int, c: char, matched: bool, first: bool)
    requires
        0 <= i,
    ensures
        class_loop(p, i, c, matched, first).1 >= i,
        class_loop(p, i, c, matched, first).1 <= p.len() || class_loop(p, i, c, matched, first).1 == i,
    decreases p.len() - i,
{
    if 0 <= i < p.len() && (p[i] != ']' || first) {
        if i + 2 < p.len() && p[i + 1] == '-' && p[i + 2] != ']' {
            lemma_class_loop_advances(p, i + 3, c, matched || (p[i] <= c && c <= p[i + 2]), false);
        } else {
            lemma_class_loop_advances(p, i + 1, c, matched || p[i] == c, false);
        }
    }
}

/// `filepath.Match` of `p` from `pi` against `n` from `ni`: shell-style
/// globbing where no wildcard matches a `/`.
pub open spec fn glob_spec(p: Seq<char>, pi: int, n: Seq<char>, ni: int) -> bool
    decreases p.len() - pi, 1int, 0int,
{
    if pi < 0 || pi >= p.len() || ni < 0 {
        ni == n.len()
    } else if p[pi] == '*' {
        star_spec(p, pi, n, ni)
    } else if p[pi] == '?' {
        ni < n.len() && n[ni] != '/' && glob_spec(p, pi + 1, n, ni + 1)
    } else if p[pi] == '[' {
        ni < n.len() && {
            let (ok, next) = class_spec(p, pi, n[ni]);
            ok && pi < next <= p.len() && glob_spec(p, next, n, ni + 1)
        }
    } else if p[pi] == '\\' && pi + 1 < p.len() {
        ni < n.len() && n[ni] == p[pi + 1] && glob_spec(p, pi + 2, n, ni + 1)
    } else {
        ni < n.len() && n[ni] == p[pi] && glob_spec(p, pi + 1, n, ni + 1)
    }
}

/// A `*` at `pi` matching `n[ni..k]` for some `k` before the next `/`.
pub open spec fn star_spec(p: Seq<char>, pi: int, n: Seq<char>, k: int) -> bool
    decreases p.len() - pi, 0int, n.len() - k,
{
    if pi < 0 || pi >= p.len() || k < 0 {
        false
    } else {
        glob_spec(p, pi + 1, n, k) || (k < n.len() && n[k] != '/' && star_spec(p, pi, n, k + 1))
    }
}

fn match_class(p: &Vec<char>, start: usize, c: char) -> (r: (bool, usize))
    requires
        start < p.len(),
    ensures
        r.0 == class_spec(p@, start as int, c).0,
        r.1 as int == class_spec(p@, start as int, c).1,
        start < r.1 <= p.len(),
{
    let mut i = start + 1;
    let negated = i < p.len() && p[i] == '^';
    if negated {
        i += 1;
    }
    let ghost i0 = i as int;
    let mut matched = false;
    let mut first = true;
    proof {
        lemma_class_loop_advances(p@, i0, c, false, true);
    }
    while i < p.len() && (p[i] != ']' || first)
        invariant
            start + 1 <= i <= p.len(),
            class_loop(p@, i0, c, false, true) == class_loop(p@, i as int, c, matched, first),
        decreases p.len() - i,
    {
        let lo = p[i];
        if p.len() - i > 2 && p[i + 1] == '-' && p[i + 2] != ']' {
            let hi = p[i + 2];
            if lo <= c && c <= hi {
                matched = true;
            }
            i += 3;
        } else {
            if lo == c {
                matched = true;
            }
            i += 1;
        }
        first = false;
    }
    let next = if i < p.len() {
        i + 1
    } else {
        i
    };
    (matched != negated, next)
}

fn match_from(p: &Vec<char>, pi_start: usize, n: &Vec<char>, ni_start: usize) -> (r: bool)
    requires
        ni_start <= n.len(),
    ensures
        r == glob_spec(p@, pi_start as int, n@, ni_start as int),
    decreases p.len() - pi_start,
{
    let mut pi = pi_start;
    let mut ni = ni_start;
    while pi < p.len()
        invariant
            ni <= n.len(),
            pi_start <= pi,
            glob_spec(p@, pi_start as int, n@, ni_start as int) == glob_spec(p@, pi as int, n@, ni as int),
        decreases p.len() - pi,
    {
        let c = p[pi];
        if c == '*' {
            let mut k = ni;
            loop
                invariant
                    ni <= k <= n.len(),
                    pi_start <= pi < p.len(),
                    glob_spec(p@, pi_start as int, n@, ni_start as int) == glob_spec(p@, pi as int, n@, ni as int),
                    p@[pi as int] == '*',
                    star_spec(p@, pi as int, n@, ni as int) == star_spec(p@, pi as int, n@, k as int),
                decreases n.len() - k,
            {
                if match_from(p, pi + 1, n, k) {
                    return true;
                }
                if k >= n.len() || n[k] == '/' {
                    return false;
                }
                k += 1;
            }
        } else if c == '?' {
            if ni >= n.len() || n[ni] == '/' {
                return false;
            }
            ni += 1;
            pi += 1;
        } else if c == '[' {
            if ni >= n.len() {
                return false;
            }
            let (ok, next) = match_class(p, pi, n[ni]);
            if !ok {
                return false;
            }
            pi = next;
            ni += 1;
        } else if c == '\\' && pi + 1 < p.len() {
            if ni >= n.len() || n[ni] != p[pi + 1] {
                return false;
            }
            pi += 2;
            ni += 1;
        } else {
            if ni >= n.len() || n[ni] != c {
                return false;
            }
            pi += 1;
            ni += 1;
        }
    }
    ni == n.len()
}

/// `filepath.Match`: shell-style globbing with no `**` and no `/` crossing.
pub fn glob_match(pattern: &str, name: &str) -> (r: bool)
    ensures
        r == glob_spec(pattern@, 0, name@, 0),
{
    let p = chars_of(pattern);
    let n = chars_of(name);
    match_from(&p, 0, &n, 0)
}

/// What the walk does at a path.
#[derive(Debug, Clone, Copy, PartialEq, Eq)]
pub enum WalkStep {
    /// Leave the path, and everything under it, out.
    Skip,
    /// Walk into the directory.
    Descend,
    /// Report the file as a match.
    Emit,
    /// Pass the file by.
    Pass,
}

/// The glob an exclusion pattern stands for at a path whose directory is
/// `parent`: a pattern without a `/` is taken relative to that directory,
/// and applies nowhere when the directory is `.` or unknown.
pub open spec fn anchored(pattern: Seq<char>, parent: Option<Seq<char>>) -> Option<Seq<char>> {
    if has_char(pattern, '/') {
        Some(pattern)
    } else {
        match parent {
            Some(d) => if d.len() > 0 && d != seq!['.'] {
                Some(d + seq!['/'] + pattern)
            } else {
                None
            },
            None => None,
        }
    }
}

/// Whether one of `patterns` excludes `path`.
pub open spec fn excluded(path: Seq<char>, parent: Option<Seq<char>>, patterns: Seq<Seq<char>>) -> bool {
    exists|k: int|
        0 <= k < patterns.len() && (#[trigger] anchored(patterns[k], parent) matches Some(g) && glob_spec(
            g,
            0,
            path,
            0,
        ))
}

/// Whether the file name `base` is one of `list`: equal ignoring ASCII
/// case, or matching it as a glob, both lower-cased.
pub open spec fn listed(base: Seq<char>, list: Seq<Seq<char>>) -> bool {
    exists|k: int|
        0 <= k < list.len() && (lower_ascii(base) == lower_ascii(#[trigger] list[k]) || glob_spec(
            lower_case(list[k]),
            0,
            lower_case(base),
            0,
        ))
}

/// The walk's decision at `path`, named `base` in the directory `parent`:
/// what the repository's `.gitignore` ignores and what a pattern excludes
/// is skipped, a directory is walked into, and a file is reported when its
/// name is listed.
pub open spec fn walk_step_spec(
    path: Seq<char>,
    parent: Option<Seq<char>>,
    base: Seq<char>,
    is_dir: bool,
    git_ignored: bool,
    patterns: Seq<Seq<char>>,
    list: Seq<Seq<char>>,
) -> WalkStep {
    if git_ignored || excluded(path, parent, patterns) {
        WalkStep::Skip
    } else if is_dir {
        WalkStep::Descend
    } else if listed(base, list) {
        WalkStep::Emit
    } else {
        WalkStep::Pass
    }
}

/// The view of an optional string.
pub open spec fn opt_str(o: Option<&str>) -> Option<Seq<char>> {
    match o {
        Some(s) => Some(s@),
        None => None,
    }
}

fn anchored_exec(pattern: &str, parent: Option<&str>) -> (r: Option<String>)
    ensures
        match anchored(pattern@, opt_str(parent)) {
            Some(g) => r matches Some(s) && s@ == g,
            None => r is None,
        },
{
    if str_has_char(pattern, '/') {
        return Some(pattern.to_owned());
    }
    match parent {
        Some(d) => {
            let dv = chars_of(d);
            if dv.len() > 0 && !(dv.len() == 1 && dv[0] == '.') {
                let mut g = dv;
                g.push('/');
                let pv = chars_of(pattern);
                extend_chars(&mut g, &pv);
                proof {
                    assert(d@ != seq!['.']);
                }
                Some(string_of(&g))
            } else {
                proof {
                    if dv.len() == 1 {
                        assert(d@ =~= seq!['.']);
                    }
                }
                None
            }
        },
        None => None,
    }
}

/// What the walk does at `path`, named `base` in the directory `parent`;
/// `git_ignored` says whether the repository's `.gitignore` ignores it.
pub fn walk_step(
    path: &str,
    parent: Option<&str>,
    base: &str,
    is_dir: bool,
    git_ignored: bool,
    ignore_patterns: &[String],
    list: &[String],
) -> (r: WalkStep)
    ensures
        r == walk_step_spec(
            path@,
            opt_str(parent),
            base@,
            is_dir,
            git_ignored,
            ignore_patterns@.map_values(|p: String| p@),
            list@.map_values(|p: String| p@),
        ),
{
    let ghost pats = ignore_patterns@.map_values(|p: String| p@);
    let ghost names = list@.map_values(|p: String| p@);
    if git_ignored {
        return WalkStep::Skip;
    }
    let mut k: usize = 0;
    while k < ignore_patterns.len()
        invariant
            k <= ignore_patterns.len(),
            pats == ignore_patterns@.map_values(|p: String| p@),
            forall|q: int| 0 <= q < k ==> !(#[trigger] anchored(pats[q], opt_str(parent)) matches Some(g)
                && glob_spec(g, 0, path@, 0)),
        decreases ignore_patterns.len() - k,
    {
        assert(pats[k as int] == ignore_patterns@[k as int]@);
        if let Some(g) = anchored_exec(ignore_patterns[k].as_str(), parent) {
            if glob_match(g.as_str(), path) {
                assert(excluded(path@, opt_str(parent), pats));
                return WalkStep::Skip;
            }
        }
        k += 1;
    }
    assert(!excluded(path@, opt_str(parent), pats));
    if is_dir {
        return WalkStep::Descend;
    }
    let bv = chars_of(base);
    let base_ascii = to_lower_ascii(&bv);
    let base_lower = string_of(&to_lower(&bv));
    let mut i: usize = 0;
    while i < list.len()
        invariant
            i <= list.len(),
            names == list@.map_values(|p: String| p@),
            pats == ignore_patterns@.map_values(|p: String| p@),
            !excluded(path@, opt_str(parent), pats),
            !is_dir && !git_ignored,
            bv@ == base@,
            base_ascii@ == lower_ascii(base@),
            base_lower@ == lower_case(base@),
            forall|q: int| 0 <= q < i ==> !(lower_ascii(base@) == lower_ascii(#[trigger] names[q]) || glob_spec(
                lower_case(names[q]),
                0,
                lower_case(base@),
                0,
            )),
        decreases list.len() - i,
    {
        assert(names[i as int] == list@[i as int]@);
        let v = chars_of(list[i].as_str());
        let v_ascii = to_lower_ascii(&v);
        let mut same = v_ascii.len() == base_ascii.len();
        let mut t: usize = 0;
        while same && t < v_ascii.len()
            invariant
                t <= v_ascii.len(),
                same ==> v_ascii.len() == base_ascii.len(),
                same ==> forall|u: int| 0 <= u < t ==> v_ascii@[u] == base_ascii@[u],
                !same ==> v_ascii@ != base_ascii@,
            decreases v_ascii.len() - t,
        {
            if v_ascii[t] != base_ascii[t] {
                same = false;
            }
            t += 1;
        }
        proof {
            if same {
                assert(v_ascii@ =~= base_ascii@);
            }
        }
        let v_lower = string_of(&to_lower(&v));
        if same || glob_match(v_lower.as_str(), base_lower.as_str()) {
            assert(listed(base@, names));
            return WalkStep::Emit;
        }
        i += 1;
    }
    assert(!listed(base@, names));
    WalkStep::Pass
}

} // verus!
