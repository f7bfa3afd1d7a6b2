//! Fuzzy string matching in the Sublime Text manner: a sequential,
//! case-insensitive match of the pattern's characters, scored with bonuses
//! for the first character, camel-case boundaries, separators and adjacent
//! matches, and penalties for unmatched leading and trailing characters.
use vstd::prelude::*;
use crate::text::{
    char_is_lowercase, char_is_uppercase, char_lower, char_to_lowercase, chars_eq, chars_of,
    is_lower, is_upper,
};

verus! {

broadcast use vstd::string::group_string_axioms;

/// A matched string.
#[derive(Debug, Clone, PartialEq, Eq)]
pub struct Match {
    /// The matched string.
    pub str: String,
    /// The index of the matched string in the supplied slice.
    pub index: usize,
    /// Byte offsets of the matched characters, for highlighting.
    pub matched_indexes: Vec<usize>,
    /// Rank of the match; higher is better.
    pub score: i64,
}

/// What a match is.
pub struct MatchView {
    pub str: Seq<char>,
    pub index: int,
    pub matched_indexes: Seq<int>,
    pub score: int,
}

impl View for Match {
    type V = MatchView;

    open spec fn view(&self) -> MatchView {
        MatchView {
            str: self.str@,
            index: self.index as int,
            matched_indexes: self.matched_indexes@.map_values(|i: usize| i as int),
            score: self.score as int,
        }
    }
}

/// How many bytes `c` takes in UTF-8.
pub open spec fn utf8_len(c: char) -> int {
    if (c as u32) < 0x80 {
        1
    } else if (c as u32) < 0x800 {
        2
    } else if (c as u32) < 0x10000 {
        3
    } else {
        4
    }
}

/// The byte offset of character `k` of `s`.
pub open spec fn byte_off(s: Seq<char>, k: int) -> int
    decreases k,
{
    if k <= 0 {
        0
    } else {
        byte_off(s, k - 1) + utf8_len(s[k - 1])
    }
}

/// `strings.EqualFold` for one pair of characters.
pub open spec fn equal_fold(a: char, b: char) -> bool {
    a == b || char_lower(a) == char_lower(b)
}

/// The characters that earn the separator bonus for a match after them.
pub open spec fn is_separator(c: char) -> bool {
    c == '/' || c == '-' || c == '_' || c == ' ' || c == '.' || c == '\\'
}

/// `s` up to its first NUL.
pub open spec fn clean(s: Seq<char>, i: int) -> Seq<char>
    decreases s.len() - i,
{
    if i < 0 || i >= s.len() {
        s
    } else if s[i] == '\0' {
        s.take(i)
    } else {
        clean(s, i + 1)
    }
}

/// The matcher's state between characters.
pub struct FState {
    /// How many pattern characters are matched.
    pub pi: int,
    /// The score banked so far.
    pub score: int,
    /// The best score for the pattern character being looked for, or -1.
    pub best: int,
    /// Where that best score was found, or -1.
    pub matched_index: int,
    /// The running bonus for adjacent matches.
    pub bonus: int,
    /// The previous character.
    pub last: Option<char>,
    /// The byte offset of the previous character.
    pub last_index: int,
    /// The byte offsets of the banked matches.
    pub matched: Seq<int>,
}

/// The state before any character.
pub open spec fn start_state() -> FState {
    FState {
        pi: 0,
        score: 0,
        best: -1,
        matched_index: -1,
        bonus: 0,
        last: None,
        last_index: 0,
        matched: Seq::empty(),
    }
}

/// The score of a match of `c` at byte offset `j`, after `last`, before
/// the adjacency bonus.
pub open spec fn base_score(last: Option<char>, c: char, j: int) -> int {
    let first = if j == 0 { 10int } else { 0int };
    let camel = match last {
        Some(l) => if is_lower(l) && is_upper(c) { 20int } else { 0int },
        None => 0int,
    };
    let sep = match last {
        Some(l) => if j != 0 && is_separator(l) { 20int } else { 0int },
        None => 0int,
    };
    first + camel + sep
}

/// The adjacency bonus of a match right after the last banked one.
pub open spec fn adjacent_bonus(matched: Seq<int>, last_index: int, bonus: int) -> int {
    if matched.len() > 0 && matched.last() == last_index {
        bonus * 2 + 5
    } else {
        0
    }
}

/// One character `c`, at byte offset `j` and followed by `nextc` (or NUL at
/// the end), taken into account.
pub open spec fn step(st: FState, runes: Seq<char>, c: char, j: int, nextc: char) -> FState {
    let hit = 0 <= st.pi < runes.len() && equal_fold(c, runes[st.pi]);
    let b = if hit { adjacent_bonus(st.matched, st.last_index, st.bonus) } else { 0 };
    let s1 = base_score(st.last, c, j) + b;
    let best = if hit && s1 > st.best { s1 } else { st.best };
    let mi = if hit && s1 > st.best { j } else { st.matched_index };
    let bonus = st.bonus + b;
    let nextp = if st.pi + 1 < runes.len() { runes[st.pi + 1] } else { '\0' };
    if (equal_fold(nextp, nextc) || nextc == '\0') && mi > -1 {
        let penalty = if mi * -5 > -15 { mi * -5 } else { -15 };
        let banked = if st.matched.len() == 0 { best + penalty } else { best };
        FState {
            pi: st.pi + 1,
            score: st.score + banked,
            best: -1,
            matched_index: -1,
            bonus,
            last: Some(c),
            last_index: j,
            matched: st.matched.push(mi),
        }
    } else {
        FState { best, matched_index: mi, bonus, last: Some(c), last_index: j, ..st }
    }
}

/// The state after the first `n` characters of `cs`.
pub open spec fn run(runes: Seq<char>, cs: Seq<char>, n: int) -> FState
    decreases n,
{
    if n <= 0 {
        start_state()
    } else {
        step(
            run(runes, cs, n - 1),
            runes,
            cs[n - 1],
            byte_off(cs, n - 1),
            if n < cs.len() { cs[n] } else { '\0' },
        )
    }
}

/// The match of `runes` in `s`, if every pattern character matched: the
/// byte offsets and the score, with one point off per unmatched byte.
pub open spec fn match_spec(runes: Seq<char>, s: Seq<char>) -> Option<(Seq<int>, int)> {
    let cs = clean(s, 0);
    let st = run(runes, cs, cs.len() as int);
    if st.matched.len() == runes.len() {
        Some((st.matched, st.score + st.matched.len() - byte_off(cs, cs.len() as int)))
    } else {
        None
    }
}

/// The matches among the first `n` strings of `data`, in input order.
pub open spec fn find_spec(runes: Seq<char>, data: Seq<Seq<char>>, n: int) -> Seq<MatchView>
    decreases n,
{
    if n <= 0 || runes.len() == 0 {
        Seq::empty()
    } else {
        let prev = find_spec(runes, data, n - 1);
        match match_spec(runes, data[n - 1]) {
            Some((idx, score)) => prev.push(
                MatchView { str: data[n - 1], index: n - 1, matched_indexes: idx, score },
            ),
            None => prev,
        }
    }
}

/// Whether `x` fits an `i64`.
pub open spec fn in_i64(x: int) -> bool {
    i64::MIN <= x <= i64::MAX
}

/// Whether the sums of one [`step`] stay in `i64`. Adjacent matches double
/// the running bonus, so a long enough run of them outgrows it.
pub open spec fn step_fits(st: FState, runes: Seq<char>, c: char, j: int, nextc: char) -> bool {
    let hit = 0 <= st.pi < runes.len() && equal_fold(c, runes[st.pi]);
    let adjacent = st.matched.len() > 0 && st.matched.last() == st.last_index;
    let b = if hit { adjacent_bonus(st.matched, st.last_index, st.bonus) } else { 0 };
    let s1 = base_score(st.last, c, j) + b;
    let best = if hit && s1 > st.best { s1 } else { st.best };
    let mi = if hit && s1 > st.best { j } else { st.matched_index };
    let nextp = if st.pi + 1 < runes.len() { runes[st.pi + 1] } else { '\0' };
    let penalty = if mi * -5 > -15 { mi * -5 } else { -15 };
    let banked = if st.matched.len() == 0 { best + penalty } else { best };
    &&& hit && adjacent ==> in_i64(st.bonus * 2 + 5)
    &&& hit ==> in_i64(s1) && in_i64(st.bonus + b)
    &&& ((equal_fold(nextp, nextc) || nextc == '\0') && mi > -1) ==> in_i64(st.score + banked)
}

/// Whether every step over the first `n` characters of `cs` stays in `i64`.
pub open spec fn run_fits(runes: Seq<char>, cs: Seq<char>, n: int) -> bool
    decreases n,
{
    n <= 0 || (run_fits(runes, cs, n - 1) && step_fits(
        run(runes, cs, n - 1),
        runes,
        cs[n - 1],
        byte_off(cs, n - 1),
        if n < cs.len() { cs[n] } else { '\0' },
    ))
}

/// Whether matching `runes` against `s` keeps every score in `i64`, the
/// final one with its penalty for unmatched bytes included.
pub open spec fn match_fits(runes: Seq<char>, s: Seq<char>) -> bool {
    let cs = clean(s, 0);
    let st = run(runes, cs, cs.len() as int);
    run_fits(runes, cs, cs.len() as int) && in_i64(
        st.score + st.matched.len() - byte_off(cs, cs.len() as int),
    )
}

proof fn lemma_run_fits_prefix(runes: Seq<char>, cs: Seq<char>, k: int, n: int)
    requires
        0 <= k <= n,
        run_fits(runes, cs, n),
    ensures
        run_fits(runes, cs, k),
    decreases n,
{
    if k < n {
        lemma_run_fits_prefix(runes, cs, k, n - 1);
    }
}

proof fn lemma_byte_off(s: Seq<char>, k: int)
    requires
        0 <= k,
    ensures
        k <= byte_off(s, k) <= 4 * k,
    decreases k,
{
    if k > 0 {
        lemma_byte_off(s, k - 1);
    }
}

pub proof fn lemma_byte_off_mono(s: Seq<char>, a: int, b: int)
    requires
        0 <= a <= b,
    ensures
        byte_off(s, a) <= byte_off(s, b),
    decreases b,
{
    if a < b {
        lemma_byte_off_mono(s, a, b - 1);
    }
}

/// The UTF-8 length of `s`.
pub open spec fn byte_len(s: Seq<char>) -> int {
    byte_off(s, s.len() as int)
}

/// Whether the byte offsets into `s` fit the matcher's arithmetic.
pub open spec fn measurable(s: Seq<char>) -> bool {
    byte_len(s) < 0x1000_0000_0000_0000 && byte_len(s) <= usize::MAX
}

/// How many bytes `c` takes in UTF-8.
pub fn utf8_len_exec(c: char) -> (r: usize)
    ensures
        r == utf8_len(c),
{
    let n = c as u32;
    if n < 0x80 {
        1
    } else if n < 0x800 {
        2
    } else if n < 0x10000 {
        3
    } else {
        4
    }
}

fn equal_fold_exec(a: char, b: char) -> (r: bool)
    ensures
        r == equal_fold(a, b),
{
    a == b || chars_eq(&char_to_lowercase(a), &char_to_lowercase(b))
}

fn is_separator_exec(c: char) -> (r: bool)
    ensures
        r == is_separator(c),
{
    c == '/' || c == '-' || c == '_' || c == ' ' || c == '.' || c == '\\'
}

/// The matcher's state while it walks a string.
struct Matcher {
    pi: usize,
    score: i64,
    best: i64,
    mi: i64,
    bonus: i64,
    last: Option<char>,
    last_index: i64,
    matched: Vec<usize>,
}

impl View for Matcher {
    type V = FState;

    closed spec fn view(&self) -> FState {
        FState {
            pi: self.pi as int,
            score: self.score as int,
            best: self.best as int,
            matched_index: self.mi as int,
            bonus: self.bonus as int,
            last: self.last,
            last_index: self.last_index as int,
            matched: self.matched@.map_values(|i: usize| i as int),
        }
    }
}

/// The shape of a matcher state that the exec code relies on.
spec fn shaped(st: FState, runes_len: int) -> bool {
    &&& 0 <= st.pi <= runes_len
    &&& st.matched.len() == st.pi
    &&& st.pi > 0 ==> 0 <= st.matched.last() <= st.last_index
    &&& 0 <= st.last_index
    &&& 0 <= st.bonus
    &&& (st.matched_index == -1 && st.best == -1) || (0 <= st.matched_index <= st.last_index
        && 0 <= st.best)
    &&& st.pi == 0 ==> st.score == 0
    &&& -15 <= st.score
    &&& (st.last is None) ==> st.pi == 0 && st.matched_index == -1
    &&& st.matched_index >= 0 ==> st.pi < runes_len
}

/// The score of a hit of `c` at `j`, with its adjacency bonus, or `None`
/// where that sum leaves `i64`.
fn hit_score(last: Option<char>, c: char, j: usize, matched: &Vec<usize>, last_index: i64, bonus: i64) -> (r: Option<(i64, i64)>)
    requires
        0 <= bonus,
        matched@.len() > 0 ==> matched@.last() <= last_index,
    ensures
        ({
            let ms = matched@.map_values(|i: usize| i as int);
            let adjacent = ms.len() > 0 && ms.last() == last_index;
            let b = adjacent_bonus(ms, last_index as int, bonus as int);
            let s1 = base_score(last, c, j as int) + b;
            &&& r is Some <==> ((adjacent ==> in_i64(bonus * 2 + 5)) && in_i64(s1))
            &&& r matches Some(p) ==> p.1 == b && p.0 == s1 && 0 <= p.1
        }),
{
    let ghost ms = matched@.map_values(|i: usize| i as int);
    let mut s: i64 = 0;
    if j == 0 {
        s = s + 10;
    }
    match last {
        Some(l) => {
            if char_is_lowercase(l) && char_is_uppercase(c) {
                s = s + 20;
            }
            if j != 0 && is_separator_exec(l) {
                s = s + 20;
            }
        },
        None => {},
    }
    assert(s == base_score(last, c, j as int));
    let mut b: i64 = 0;
    if matched.len() > 0 {
        let lm = matched[matched.len() - 1];
        assert(ms.last() == lm as int);
        if lm as i64 == last_index {
            match bonus.checked_mul(2) {
                None => return None,
                Some(d) => match d.checked_add(5) {
                    None => return None,
                    Some(x) => {
                        b = x;
                    },
                },
            }
        }
    }
    match s.checked_add(b) {
        None => None,
        Some(t) => Some((t, b)),
    }
}

/// Takes character `c`, at byte offset `j` and followed by `nextc`, into
/// account; `false` where a sum of the step leaves `i64`.
fn advance(m: &mut Matcher, runes: &Vec<char>, c: char, j: usize, nextc: char) -> (ok: bool)
    requires
        shaped(old(m)@, runes.len() as int),
        j < 0x1000_0000_0000_0000,
        old(m)@.last is Some ==> old(m)@.last_index < j,
    ensures
        ok == step_fits(old(m)@, runes@, c, j as int, nextc),
        ok ==> final(m)@ == step(old(m)@, runes@, c, j as int, nextc),
        ok ==> shaped(final(m)@, runes.len() as int),
        ok ==> final(m)@.pi <= old(m)@.pi + 1,
{
    let ghost st = m@;
    let hit = m.pi < runes.len() && equal_fold_exec(c, runes[m.pi]);
    if hit {
        match hit_score(m.last, c, j, &m.matched, m.last_index, m.bonus) {
            None => {
                return false;
            },
            Some((s, b)) => {
                match m.bonus.checked_add(b) {
                    None => {
                        return false;
                    },
                    Some(nb) => {
                        m.bonus = nb;
                    },
                }
                if s > m.best {
                    m.best = s;
                    m.mi = j as i64;
                }
            },
        }
    }
    let nextp = if m.pi < runes.len() && m.pi < runes.len() - 1 {
        runes[m.pi + 1]
    } else {
        '\0'
    };
    if (equal_fold_exec(nextp, nextc) || nextc == '\0') && m.mi > -1 {
        if m.matched.len() == 0 {
            let penalty = m.mi * -5;
            if penalty > -15 {
                m.best = m.best + penalty;
            } else {
                m.best = m.best - 15;
            }
        }
        match m.score.checked_add(m.best) {
            None => {
                return false;
            },
            Some(t) => {
                m.score = t;
            },
        }
        m.matched.push(m.mi as usize);
        m.best = -1;
        m.mi = -1;
        m.pi = m.pi + 1;
    }
    m.last_index = j as i64;
    m.last = Some(c);
    proof {
        let ns = step(st, runes@, c, j as int, nextc);
        assert(m@.matched =~= ns.matched);
        assert(m@ == ns);
    }
    true
}

/// Matches `runes` against the characters `cs`: the byte offsets of the
/// banked matches and the score with one point off per unmatched byte, or
/// `None` where a score leaves `i64`.
fn match_chars(runes: &Vec<char>, cs: &Vec<char>) -> (r: Option<(Vec<usize>, i64)>)
    requires
        measurable(cs@),
    ensures
        ({
            let st = run(runes@, cs@, cs@.len() as int);
            let total = st.score + st.matched.len() - byte_off(cs@, cs@.len() as int);
            &&& r is Some <==> (run_fits(runes@, cs@, cs@.len() as int) && in_i64(total))
            &&& r matches Some(p) ==> p.0@.map_values(|i: usize| i as int) == st.matched
                && p.1 as int == total
        }),
{
    let mut m = Matcher {
        pi: 0,
        score: 0,
        best: -1,
        mi: -1,
        bonus: 0,
        last: None,
        last_index: 0,
        matched: Vec::new(),
    };
    let mut j: usize = 0;
    let mut n: usize = 0;
    proof {
        assert(m.matched@.map_values(|i: usize| i as int) =~= Seq::<int>::empty());
        assert(m@ =~= run(runes@, cs@, 0));
    }
    while n < cs.len()
        invariant
            n <= cs.len(),
            measurable(cs@),
            j == byte_off(cs@, n as int),
            m@ == run(runes@, cs@, n as int),
            run_fits(runes@, cs@, n as int),
            shaped(m@, runes.len() as int),
            m@.pi <= n,
            m@.last is Some ==> m@.last_index < j,
        decreases cs.len() - n,
    {
        proof {
            lemma_byte_off_mono(cs@, n + 1, cs.len() as int);
        }
        let c = cs[n];
        let nextc = if n + 1 < cs.len() {
            cs[n + 1]
        } else {
            '\0'
        };
        let ok = advance(&mut m, runes, c, j, nextc);
        if !ok {
            proof {
                assert(!run_fits(runes@, cs@, n + 1));
                if run_fits(runes@, cs@, cs@.len() as int) {
                    lemma_run_fits_prefix(runes@, cs@, n + 1, cs@.len() as int);
                }
            }
            return None;
        }
        let w = utf8_len_exec(c);
        assert(byte_off(cs@, n + 1) == j + w);
        j = j + w;
        n = n + 1;
    }
    proof {
        lemma_byte_off(cs@, n as int);
    }
    let d = m.matched.len() as i64 - j as i64;
    match m.score.checked_add(d) {
        None => None,
        Some(total) => Some((m.matched, total)),
    }
}

/// `s` up to its first NUL, which the matcher treats as the end.
fn clean_chars(all: &Vec<char>) -> (r: Vec<char>)
    ensures
        r@ == clean(all@, 0),
        byte_len(r@) <= byte_len(all@),
{
    let mut k: usize = 0;
    while k < all.len() && all[k] != '\0'
        invariant
            k <= all.len(),
            clean(all@, 0) == clean(all@, k as int),
        decreases all.len() - k,
    {
        k += 1;
    }
    let mut r: Vec<char> = Vec::new();
    let mut t: usize = 0;
    while t < k
        invariant
            t <= k <= all.len(),
            r@ == all@.take(t as int),
        decreases k - t,
    {
        r.push(all[t]);
        t += 1;
        assert(r@ =~= all@.take(t as int));
    }
    proof {
        if k == all.len() {
            assert(all@.take(k as int) =~= all@);
        }
        lemma_byte_off_take(all@, k as int, k as int);
        lemma_byte_off_mono(all@, k as int, all@.len() as int);
    }
    r
}

proof fn lemma_byte_off_take(s: Seq<char>, k: int, i: int)
    requires
        0 <= i <= k <= s.len(),
    ensures
        byte_off(s.take(k), i) == byte_off(s, i),
    decreases i,
{
    if i > 0 {
        lemma_byte_off_take(s, k, i - 1);
    }
}

/// The matches of `runes` in `data`, in input order, or `None` where a
/// string's score leaves `i64`.
fn collect(runes: &Vec<char>, data: &[String]) -> (r: Option<Vec<Match>>)
    requires
        runes.len() > 0,
        forall|i: int| 0 <= i < data@.len() ==> measurable(#[trigger] data@[i]@),
    ensures
        r is Some <==> forall|i: int| 0 <= i < data@.len() ==> match_fits(runes@, #[trigger] data@[i]@),
        r matches Some(v) ==> v@.map_values(|m: Match| m@) == find_spec(
            runes@,
            data@.map_values(|s: String| s@),
            data@.len() as int,
        ),
{
    let ghost dv = data@.map_values(|s: String| s@);
    let mut out: Vec<Match> = Vec::new();
    let mut i: usize = 0;
    assert(out@.map_values(|m: Match| m@) =~= find_spec(runes@, dv, 0));
    while i < data.len()
        invariant
            i <= data@.len(),
            runes.len() > 0,
            dv == data@.map_values(|s: String| s@),
            forall|k: int| 0 <= k < data@.len() ==> measurable(#[trigger] data@[k]@),
            forall|k: int| 0 <= k < i ==> match_fits(runes@, #[trigger] data@[k]@),
            out@.map_values(|m: Match| m@) == find_spec(runes@, dv, i as int),
        decreases data@.len() - i,
    {
        let s = &data[i];
        let all = chars_of(s.as_str());
        let cs = clean_chars(&all);
        assert(measurable(data@[i as int]@));
        match match_chars(runes, &cs) {
            None => {
                assert(!match_fits(runes@, data@[i as int]@));
                return None;
            },
            Some((idx, score)) => {
                let ghost before = out@.map_values(|m: Match| m@);
                assert(idx@.map_values(|k: usize| k as int).len() == idx@.len());
                if idx.len() == runes.len() {
                    out.push(Match { str: s.clone(), index: i, matched_indexes: idx, score });
                    assert(out@.map_values(|m: Match| m@) =~= before.push(out@.last()@));
                }
            },
        }
        i += 1;
        assert(out@.map_values(|m: Match| m@) =~= find_spec(runes@, dv, i as int));
    }
    assert(data@.len() == i);
    Some(out)
}

/// Looks `pattern` up in `data`, in input order.
///
/// Matching stops at a string's first NUL. Every score must fit an `i64`,
/// which only a long run of adjacent matches can break.
pub fn find_no_sort(pattern: &str, data: &[String]) -> (r: Vec<Match>)
    requires
        forall|i: int| 0 <= i < data@.len() ==> measurable(#[trigger] data@[i]@),
        pattern@.len() > 0 ==> forall|i: int|
            0 <= i < data@.len() ==> match_fits(pattern@, #[trigger] data@[i]@),
    ensures
        r@.map_values(|m: Match| m@) == find_spec(
            pattern@,
            data@.map_values(|s: String| s@),
            data@.len() as int,
        ),
{
    let runes = chars_of(pattern);
    if runes.len() == 0 {
        let out: Vec<Match> = Vec::new();
        assert(out@.map_values(|m: Match| m@) =~= find_spec(
            pattern@,
            data@.map_values(|s: String| s@),
            data@.len() as int,
        ));
        return out;
    }
    match collect(&runes, data) {
        Some(v) => v,
        None => {
            assert(false);
            Vec::new()
        },
    }
}

/// The first position from `i` on whose match scores below `score`, or the
/// end.
pub open spec fn desc_pos(sorted: Seq<MatchView>, score: int, i: int) -> int
    decreases sorted.len() - i,
{
    if i < 0 || i >= sorted.len() {
        sorted.len() as int
    } else if sorted[i].score < score {
        i
    } else {
        desc_pos(sorted, score, i + 1)
    }
}

/// `s` sorted by score, best first, equal scores keeping their order.
pub open spec fn sort_desc(s: Seq<MatchView>) -> Seq<MatchView>
    decreases s.len(),
{
    if s.len() == 0 {
        s
    } else {
        let sorted = sort_desc(s.drop_last());
        sorted.insert(desc_pos(sorted, s.last().score, 0), s.last())
    }
}

/// Orders `found` best first, equal scores in the order they came.
fn rank(found: Vec<Match>) -> (r: Vec<Match>)
    ensures
        r@.map_values(|m: Match| m@) == sort_desc(found@.map_values(|m: Match| m@)),
{
    let mut rest = found;
    let ghost all = rest@.map_values(|m: Match| m@);
    let mut out: Vec<Match> = Vec::new();
    let ghost mut k: int = 0;
    assert(out@.map_values(|m: Match| m@) =~= sort_desc(all.take(0)));
    while rest.len() > 0
        invariant
            0 <= k <= all.len(),
            rest@.map_values(|m: Match| m@) == all.skip(k),
            out@.map_values(|m: Match| m@) == sort_desc(all.take(k)),
        decreases rest.len(),
    {
        let ghost sorted = out@.map_values(|m: Match| m@);
        proof {
            assert(rest@.map_values(|m: Match| m@).len() == rest@.len());
            assert(k < all.len());
            assert(rest@.map_values(|m: Match| m@)[0] == rest@[0]@);
            assert(all.skip(k)[0] == all[k]);
        }
        let ghost rv = rest@;
        let m = rest.remove(0);
        proof {
            assert(rest@ =~= rv.skip(1));
        }
        let mut p: usize = 0;
        while p < out.len() && out[p].score >= m.score
            invariant
                p <= out.len(),
                sorted == out@.map_values(|g: Match| g@),
                desc_pos(sorted, m@.score, 0) == desc_pos(sorted, m@.score, p as int),
            decreases out.len() - p,
        {
            proof {
                assert(sorted[p as int] == out@[p as int]@);
            }
            p += 1;
        }
        proof {
            if p < out.len() {
                assert(sorted[p as int] == out@[p as int]@);
            }
            let t = all.take(k + 1);
            assert(t.drop_last() =~= all.take(k));
            assert(t.last() == m@);
        }
        let ghost mv = m@;
        out.insert(p, m);
        proof {
            assert(out@.map_values(|g: Match| g@) =~= sorted.insert(p as int, mv));
            let rm = rv.map_values(|g: Match| g@);
            assert(rm == all.skip(k));
            let nm = rest@.map_values(|g: Match| g@);
            assert forall|q: int| 0 <= q < rest@.len() implies #[trigger] nm[q]
                == all.skip(k + 1)[q] by {
                assert(rest@[q] == rv[q + 1]);
                assert(rm[q + 1] == rv[q + 1]@);
                assert(all.skip(k)[q + 1] == all[k + 1 + q]);
            }
            assert(nm =~= all.skip(k + 1));
            k = k + 1;
        }
    }
    assert(all.take(k) =~= all);
    out
}

/// Looks `pattern` up in `data`, best match first.
///
/// The sort is stable, so equally-scored entries keep their input order.
pub fn find(pattern: &str, data: &[String]) -> (r: Vec<Match>)
    requires
        forall|i: int| 0 <= i < data@.len() ==> measurable(#[trigger] data@[i]@),
        pattern@.len() > 0 ==> forall|i: int|
            0 <= i < data@.len() ==> match_fits(pattern@, #[trigger] data@[i]@),
    ensures
        r@.map_values(|m: Match| m@) == sort_desc(
            find_spec(pattern@, data@.map_values(|s: String| s@), data@.len() as int),
        ),
{
    rank(find_no_sort(pattern, data))
}

/// Looks `pattern` up in `data` as [`find`] does, or gives `None` where a
/// string's score would leave `i64`.
pub fn try_find(pattern: &str, data: &[String]) -> (r: Option<Vec<Match>>)
    requires
        forall|i: int| 0 <= i < data@.len() ==> measurable(#[trigger] data@[i]@),
    ensures
        r is Some <==> (pattern@.len() == 0 || forall|i: int|
            0 <= i < data@.len() ==> match_fits(pattern@, #[trigger] data@[i]@)),
        r matches Some(v) ==> v@.map_values(|m: Match| m@) == sort_desc(
            find_spec(pattern@, data@.map_values(|s: String| s@), data@.len() as int),
        ),
{
    let runes = chars_of(pattern);
    if runes.len() == 0 {
        return Some(find(pattern, data));
    }
    match collect(&runes, data) {
        Some(v) => Some(rank(v)),
        None => None,
    }
}

/// Whether the matches in `s` come in strictly increasing input order.
pub open spec fn in_input_order(s: Seq<MatchView>) -> bool {
    forall|i: int, j: int| 0 <= i < j < s.len() ==> s[i].index < s[j].index
}

/// Whether `r` ranks best first, equal scores in input order.
pub open spec fn ranked(r: Seq<MatchView>) -> bool {
    forall|i: int, j: int|
        0 <= i < j < r.len() ==> r[i].score >= r[j].score && (r[i].score == r[j].score
            ==> r[i].index < r[j].index)
}

proof fn lemma_find_spec_order(runes: Seq<char>, data: Seq<Seq<char>>, n: int)
    ensures
        in_input_order(find_spec(runes, data, n)),
        forall|i: int|
            0 <= i < find_spec(runes, data, n).len() ==> #[trigger] find_spec(runes, data, n)[i].index
                < n,
    decreases n,
{
    if n > 0 && runes.len() > 0 {
        lemma_find_spec_order(runes, data, n - 1);
    }
}

proof fn lemma_desc_pos(sorted: Seq<MatchView>, score: int, i: int)
    requires
        0 <= i <= sorted.len(),
        forall|q: int| 0 <= q < i ==> #[trigger] sorted[q].score >= score,
    ensures
        0 <= desc_pos(sorted, score, i) <= sorted.len(),
        forall|q: int| 0 <= q < desc_pos(sorted, score, i) ==> #[trigger] sorted[q].score >= score,
        desc_pos(sorted, score, i) < sorted.len() ==> sorted[desc_pos(sorted, score, i)].score
            < score,
    decreases sorted.len() - i,
{
    if i < sorted.len() && sorted[i].score >= score {
        lemma_desc_pos(sorted, score, i + 1);
    }
}

proof fn lemma_sort_desc(s: Seq<MatchView>)
    requires
        in_input_order(s),
    ensures
        sort_desc(s).len() == s.len(),
        forall|i: int|
            0 <= i < s.len() ==> exists|j: int| 0 <= j < s.len() && #[trigger] sort_desc(s)[i] == s[j],
        ranked(sort_desc(s)),
    decreases s.len(),
{
    if s.len() > 0 {
        let init = s.drop_last();
        let x = s.last();
        assert(in_input_order(init));
        lemma_sort_desc(init);
        let sorted = sort_desc(init);
        lemma_desc_pos(sorted, x.score, 0);
        let p = desc_pos(sorted, x.score, 0);
        let r = sorted.insert(p, x);
        assert(r == sort_desc(s));
        assert forall|i: int| 0 <= i < sorted.len() implies #[trigger] sorted[i].index < x.index by {
            let j = choose|j: int| 0 <= j < init.len() && sorted[i] == init[j];
            assert(init[j] == s[j]);
        }
        assert forall|i: int| 0 <= i < s.len() implies exists|j: int|
            0 <= j < s.len() && #[trigger] r[i] == s[j] by {
            if i < p {
                assert(r[i] == sorted[i]);
                let j = choose|j: int| 0 <= j < init.len() && sorted[i] == init[j];
                assert(init[j] == s[j]);
            } else if i == p {
                assert(r[i] == s[s.len() - 1]);
            } else {
                assert(r[i] == sorted[i - 1]);
                let j = choose|j: int| 0 <= j < init.len() && sorted[i - 1] == init[j];
                assert(init[j] == s[j]);
            }
        }
        assert forall|i: int, j: int| 0 <= i < j < r.len() implies r[i].score >= r[j].score && (
        r[i].score == r[j].score ==> r[i].index < r[j].index) by {
            if j < p {
                assert(r[i] == sorted[i] && r[j] == sorted[j]);
            } else if j == p {
                assert(r[i] == sorted[i]);
            } else if i < p {
                assert(r[i] == sorted[i] && r[j] == sorted[j - 1]);
                assert(sorted[p].score < x.score);
            } else if i == p {
                assert(r[j] == sorted[j - 1]);
                assert(sorted[p].score < x.score);
            } else {
                assert(r[i] == sorted[i - 1] && r[j] == sorted[j - 1]);
            }
        }
    }
}

/// `find` ranks the matches of `find_no_sort` best first, and matches of
/// equal score keep their input order: the sort is stable.
pub proof fn lemma_find_is_stable(runes: Seq<char>, data: Seq<Seq<char>>)
    ensures
        ({
            let found = find_spec(runes, data, data.len() as int);
            let r = sort_desc(found);
            &&& ranked(r)
            &&& r.len() == found.len()
            &&& forall|i: int|
                0 <= i < r.len() ==> exists|j: int| 0 <= j < found.len() && #[trigger] r[i] == found[j]
        }),
{
    lemma_find_spec_order(runes, data, data.len() as int);
    lemma_sort_desc(find_spec(runes, data, data.len() as int));
}

/// What a matcher state says of the characters behind it: each banked
/// offset is that of a character equal, folding case, to its pattern
/// character; the offsets increase; and the candidate being weighed is a
/// later such character.
spec fn sound(st: FState, runes: Seq<char>, cs: Seq<char>, n: int) -> bool {
    &&& st.matched.len() == st.pi
    &&& forall|k: int|
        0 <= k < st.matched.len() ==> exists|t: int|
            0 <= t < n && #[trigger] st.matched[k] == byte_off(cs, t) && equal_fold(cs[t], runes[k])
    &&& forall|a: int, b: int| 0 <= a < b < st.matched.len() ==> st.matched[a] < st.matched[b]
    &&& st.matched.len() > 0 ==> st.matched.last() < byte_off(cs, n)
    &&& st.matched_index != -1 ==> {
        &&& 0 <= st.pi < runes.len()
        &&& exists|t: int|
            0 <= t < n && st.matched_index == byte_off(cs, t) && equal_fold(cs[t], runes[st.pi])
        &&& st.matched.len() > 0 ==> st.matched.last() < st.matched_index
    }
}

proof fn lemma_byte_off_strict(s: Seq<char>, a: int, b: int)
    requires
        0 <= a < b,
    ensures
        byte_off(s, a) < byte_off(s, b),
    decreases b,
{
    if a < b - 1 {
        lemma_byte_off_strict(s, a, b - 1);
    }
}

proof fn lemma_run_sound(runes: Seq<char>, cs: Seq<char>, n: int)
    requires
        0 <= n,
    ensures
        sound(run(runes, cs, n), runes, cs, n),
    decreases n,
{
    if n > 0 {
        lemma_run_sound(runes, cs, n - 1);
        let st = run(runes, cs, n - 1);
        let c = cs[n - 1];
        let j = byte_off(cs, n - 1);
        let nextc = if n < cs.len() { cs[n] } else { '\0' };
        let ns = step(st, runes, c, j, nextc);
        assert(ns == run(runes, cs, n));
        lemma_byte_off_strict(cs, n - 1, n);
        assert forall|t: int| 0 <= t < n - 1 implies #[trigger] byte_off(cs, t) < j by {
            lemma_byte_off_strict(cs, t, n - 1);
        }
        let hit = 0 <= st.pi < runes.len() && equal_fold(c, runes[st.pi]);
        let b = if hit { adjacent_bonus(st.matched, st.last_index, st.bonus) } else { 0 };
        let s1 = base_score(st.last, c, j) + b;
        let mi = if hit && s1 > st.best { j } else { st.matched_index };
        if mi != -1 {
            if hit && s1 > st.best {
                assert(mi == byte_off(cs, n - 1) && equal_fold(cs[n - 1], runes[st.pi]));
            } else {
                let t = choose|t: int|
                    0 <= t < n - 1 && st.matched_index == byte_off(cs, t) && equal_fold(
                        cs[t],
                        runes[st.pi],
                    );
                assert(mi == byte_off(cs, t));
            }
            assert(exists|t: int| 0 <= t < n && mi == byte_off(cs, t) && equal_fold(cs[t], runes[st.pi]));
            assert(st.matched.len() > 0 ==> st.matched.last() < mi);
        }
        assert forall|k: int| 0 <= k < st.matched.len() implies exists|t: int|
            0 <= t < n && #[trigger] st.matched[k] == byte_off(cs, t) && equal_fold(cs[t], runes[k]) by {
            let t = choose|t: int|
                0 <= t < n - 1 && st.matched[k] == byte_off(cs, t) && equal_fold(cs[t], runes[k]);
        }
        if ns.pi == st.pi + 1 {
            let m2 = st.matched.push(mi);
            assert(ns.matched == m2);
            assert forall|k: int| 0 <= k < m2.len() implies exists|t: int|
                0 <= t < n && #[trigger] m2[k] == byte_off(cs, t) && equal_fold(cs[t], runes[k]) by {
                if k < st.matched.len() {
                    assert(m2[k] == st.matched[k]);
                } else {
                    assert(m2[k] == mi);
                }
            }
        }
    }
}

/// A match is sequential and case-insensitive: its offsets increase, one
/// per pattern character, each that of a character of the string (up to
/// its first NUL) equal to the pattern character, folding case.
pub proof fn lemma_matches_are_sequential(runes: Seq<char>, s: Seq<char>)
    requires
        match_spec(runes, s) is Some,
    ensures
        ({
            let idx = (match_spec(runes, s)->0).0;
            let cs = clean(s, 0);
            &&& idx.len() == runes.len()
            &&& forall|a: int, b: int| 0 <= a < b < idx.len() ==> idx[a] < idx[b]
            &&& forall|k: int|
                0 <= k < idx.len() ==> exists|t: int|
                    0 <= t < cs.len() && #[trigger] idx[k] == byte_off(cs, t) && equal_fold(
                        cs[t],
                        runes[k],
                    )
        }),
{
    let cs = clean(s, 0);
    lemma_run_sound(runes, cs, cs.len() as int);
}

} // verus!
