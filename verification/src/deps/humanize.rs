//! Human-friendly durations and plurals.
use vstd::prelude::*;
use crate::text::{
    chars_of, decimal_int, decimal_of_i128, decimal_of_i64, ends_with, eq_str, extend_chars,
    extend_str, has_suffix, replace_all, replace_pat, slice_chars, string_of,
};

verus! {

broadcast use vstd::string::group_string_axioms;

/// A relative time point at which the format switches.
///
/// `d` is the upper bound of the magnitude, `format` may carry a `%d` for the
/// quantity and a `%s` for the label, and `div_by` is what the difference is
/// divided by to produce that quantity.
pub struct RelTimeMagnitude {
    /// Upper bound, in nanoseconds.
    pub d: i128,
    /// Format string.
    pub format: &'static str,
    /// Divisor, in nanoseconds.
    pub div_by: i128,
}

/// A second, in nanoseconds.
pub const SECOND: i128 = 1_000_000_000;
/// A minute.
pub const MINUTE: i128 = 60 * SECOND;
/// An hour.
pub const HOUR: i128 = 60 * MINUTE;
/// A day.
pub const DAY: i128 = 24 * HOUR;
/// A week.
pub const WEEK: i128 = 7 * DAY;
/// A month, counted as thirty days.
pub const MONTH: i128 = 30 * DAY;
/// A year, counted as twelve months.
pub const YEAR: i128 = 12 * MONTH;
/// The point past which durations stop being counted in years.
pub const LONG_TIME: i128 = 37 * YEAR;

fn mag(d: i128, format: &'static str, div_by: i128) -> (r: RelTimeMagnitude)
    ensures
        r.d == d && r.format == format && r.div_by == div_by,
{
    RelTimeMagnitude { d, format, div_by }
}

/// The default magnitude table: each bound, the wording used below it, and
/// the unit the wording counts in.
pub open spec fn magnitudes_spec() -> Seq<RelTimeMagnitude> {
    seq![
        RelTimeMagnitude { d: SECOND, format: "now", div_by: SECOND },
        RelTimeMagnitude { d: (2 * SECOND) as i128, format: "1 second %s", div_by: 1 },
        RelTimeMagnitude { d: MINUTE, format: "%d seconds %s", div_by: SECOND },
        RelTimeMagnitude { d: (2 * MINUTE) as i128, format: "1 minute %s", div_by: 1 },
        RelTimeMagnitude { d: HOUR, format: "%d minutes %s", div_by: MINUTE },
        RelTimeMagnitude { d: (2 * HOUR) as i128, format: "1 hour %s", div_by: 1 },
        RelTimeMagnitude { d: DAY, format: "%d hours %s", div_by: HOUR },
        RelTimeMagnitude { d: (2 * DAY) as i128, format: "1 day %s", div_by: 1 },
        RelTimeMagnitude { d: WEEK, format: "%d days %s", div_by: DAY },
        RelTimeMagnitude { d: (2 * WEEK) as i128, format: "1 week %s", div_by: 1 },
        RelTimeMagnitude { d: MONTH, format: "%d weeks %s", div_by: WEEK },
        RelTimeMagnitude { d: (2 * MONTH) as i128, format: "1 month %s", div_by: 1 },
        RelTimeMagnitude { d: YEAR, format: "%d months %s", div_by: MONTH },
        RelTimeMagnitude { d: (18 * MONTH) as i128, format: "1 year %s", div_by: 1 },
        RelTimeMagnitude { d: (2 * YEAR) as i128, format: "2 years %s", div_by: 1 },
        RelTimeMagnitude { d: LONG_TIME, format: "%d years %s", div_by: YEAR },
        RelTimeMagnitude { d: 9223372036854775807i128, format: "a long while %s", div_by: 1 },
    ]
}

/// The default magnitude table.
pub fn magnitudes() -> (r: Vec<RelTimeMagnitude>)
    ensures
        r@ == magnitudes_spec(),
        r.len() == 17,
        forall|i: int| 0 <= i < r.len() ==> (#[trigger] r@[i]).div_by >= 1,
        r@[16].d == i64::MAX,
{
    let mut v: Vec<RelTimeMagnitude> = Vec::new();
    v.push(mag(SECOND, "now", SECOND));
    v.push(mag(2 * SECOND, "1 second %s", 1));
    v.push(mag(MINUTE, "%d seconds %s", SECOND));
    v.push(mag(2 * MINUTE, "1 minute %s", 1));
    v.push(mag(HOUR, "%d minutes %s", MINUTE));
    v.push(mag(2 * HOUR, "1 hour %s", 1));
    v.push(mag(DAY, "%d hours %s", HOUR));
    v.push(mag(2 * DAY, "1 day %s", 1));
    v.push(mag(WEEK, "%d days %s", DAY));
    v.push(mag(2 * WEEK, "1 week %s", 1));
    v.push(mag(MONTH, "%d weeks %s", WEEK));
    v.push(mag(2 * MONTH, "1 month %s", 1));
    v.push(mag(YEAR, "%d months %s", MONTH));
    v.push(mag(18 * MONTH, "1 year %s", 1));
    v.push(mag(2 * YEAR, "2 years %s", 1));
    v.push(mag(LONG_TIME, "%d years %s", YEAR));
    v.push(mag(9223372036854775807i128, "a long while %s", 1));
    assert(v@ =~= magnitudes_spec());
    v
}

/// The index of the first magnitude whose bound exceeds `diff`, or the last.
pub open spec fn pick_from(mags: Seq<RelTimeMagnitude>, diff: int, i: int) -> int
    decreases mags.len() - i,
{
    if i >= mags.len() - 1 {
        mags.len() - 1
    } else if mags[i].d > diff {
        i
    } else {
        pick_from(mags, diff, i + 1)
    }
}

/// Integer division of a non-negative `a`, rounding toward zero.
pub open spec fn quotient(a: int, b: int) -> int {
    if b > 0 {
        a / b
    } else {
        -(a / (-b))
    }
}

/// `"%d"`.
pub open spec fn pct_d() -> Seq<char> {
    seq!['%', 'd']
}

/// `"%s"`.
pub open spec fn pct_s() -> Seq<char> {
    seq!['%', 's']
}

/// The relative-time wording for a signed difference in nanoseconds: the
/// first magnitude whose bound exceeds the size of the difference, with the
/// quotient for `%d` and the label for `%s`.
pub open spec fn rel_time(diff_ns: int, a: Seq<char>, b: Seq<char>, mags: Seq<RelTimeMagnitude>) -> Seq<char> {
    let label = if diff_ns < 0 { b } else { a };
    let diff = if diff_ns < 0 { -diff_ns } else { diff_ns };
    let m = mags[pick_from(mags, diff, 0)];
    replace_pat(replace_pat(m.format@, pct_d(), decimal_int(quotient(diff, m.div_by as int))), pct_s(), label)
}

/// Formats the signed difference between two instants, in nanoseconds, using
/// `a_label` when `a` is the earlier one and `b_label` when it is not.
pub fn custom_rel_time(diff_ns: i128, a_label: &str, b_label: &str, magnitudes: &[RelTimeMagnitude]) -> (r: String)
    requires
        diff_ns > i128::MIN,
        magnitudes@.len() >= 1,
        forall|i: int| 0 <= i < magnitudes@.len() ==> (#[trigger] magnitudes@[i]).div_by != 0,
    ensures
        r@ == rel_time(diff_ns as int, a_label@, b_label@, magnitudes@),
{
    let (label, diff) = if diff_ns < 0 {
        (b_label, -diff_ns)
    } else {
        (a_label, diff_ns)
    };
    let last = magnitudes.len() - 1;
    let mut n: usize = 0;
    while n < last && !(magnitudes[n].d > diff)
        invariant
            n <= last,
            last == magnitudes@.len() - 1,
            pick_from(magnitudes@, diff as int, 0) == pick_from(magnitudes@, diff as int, n as int),
        decreases last - n,
    {
        n += 1;
    }
    let m = &magnitudes[n];
    let du = diff as u128;
    let digits = if m.div_by > 0 {
        let q = du / (m.div_by as u128);
        decimal_of_i128(q as i128)
    } else {
        let b: u128 = if m.div_by == i128::MIN {
            170141183460469231731687303715884105728u128
        } else {
            (-m.div_by) as u128
        };
        let q = du / b;
        decimal_of_i128(-(q as i128))
    };
    let fmt = chars_of(m.format);
    let mut pd: Vec<char> = Vec::new();
    pd.push('%');
    pd.push('d');
    let mut ps: Vec<char> = Vec::new();
    ps.push('%');
    ps.push('s');
    assert(pd@ =~= pct_d());
    assert(ps@ =~= pct_s());
    let a = replace_all(&fmt, &pd, &digits);
    let lab = chars_of(label);
    let b = replace_all(&a, &ps, &lab);
    string_of(&b)
}

/// Whether a byte is an ASCII vowel.
pub open spec fn is_vowel(c: char) -> bool {
    c == 'A' || c == 'E' || c == 'I' || c == 'O' || c == 'U' || c == 'a' || c == 'e' || c == 'i'
        || c == 'o' || c == 'u'
}

/// The irregular plural of a word, if it is one of the special three.
pub open spec fn special_plural(s: Seq<char>) -> Option<Seq<char>> {
    if s == seq!['i', 'n', 'd', 'e', 'x'] {
        Some(seq!['i', 'n', 'd', 'i', 'c', 'e', 's'])
    } else if s == seq!['m', 'a', 't', 'r', 'i', 'x'] {
        Some(seq!['m', 'a', 't', 'r', 'i', 'c', 'e', 's'])
    } else if s == seq!['v', 'e', 'r', 't', 'e', 'x'] {
        Some(seq!['v', 'e', 'r', 't', 'i', 'c', 'e', 's'])
    } else {
        None
    }
}

/// `english.PluralWord`: the singular, the given plural, or a guessed one.
pub open spec fn plural_word_spec(quantity: int, singular: Seq<char>, plural: Seq<char>) -> Seq<char> {
    let l = singular.len();
    if quantity == 1 {
        singular
    } else if plural.len() > 0 {
        plural
    } else if special_plural(singular) is Some {
        special_plural(singular)->0
    } else if has_suffix(singular, seq!['s']) || has_suffix(singular, seq!['s', 'h'])
        || has_suffix(singular, seq!['t', 'c', 'h']) || has_suffix(singular, seq!['x']) {
        singular + seq!['e', 's']
    } else if l >= 2 && singular[l - 1] == 'o' && !is_vowel(singular[l - 2]) {
        singular + seq!['e', 's']
    } else if l >= 2 && singular[l - 1] == 'y' && !is_vowel(singular[l - 2]) {
        singular.take(l - 1) + seq!['i', 'e', 's']
    } else {
        singular.push('s')
    }
}

fn is_vowel_char(c: char) -> (r: bool)
    ensures
        r == is_vowel(c),
{
    c == 'A' || c == 'E' || c == 'I' || c == 'O' || c == 'U' || c == 'a' || c == 'e' || c == 'i'
        || c == 'o' || c == 'u'
}

fn special(s: &Vec<char>) -> (r: Option<Vec<char>>)
    ensures
        r matches Some(p) ==> special_plural(s@) == Some(p@),
        r is None ==> special_plural(s@) is None,
{
    proof {
        reveal_strlit("index");
        reveal_strlit("matrix");
        reveal_strlit("vertex");
    }
    if eq_str(s, "index") {
        assert("index"@ =~= seq!['i', 'n', 'd', 'e', 'x']);
        let p = chars_of("indices");
        proof {
            reveal_strlit("indices");
        }
        assert(p@ =~= seq!['i', 'n', 'd', 'i', 'c', 'e', 's']);
        Some(p)
    } else if eq_str(s, "matrix") {
        assert("matrix"@ =~= seq!['m', 'a', 't', 'r', 'i', 'x']);
        let p = chars_of("matrices");
        proof {
            reveal_strlit("matrices");
        }
        assert(p@ =~= seq!['m', 'a', 't', 'r', 'i', 'c', 'e', 's']);
        Some(p)
    } else if eq_str(s, "vertex") {
        assert("vertex"@ =~= seq!['v', 'e', 'r', 't', 'e', 'x']);
        let p = chars_of("vertices");
        proof {
            reveal_strlit("vertices");
        }
        assert(p@ =~= seq!['v', 'e', 'r', 't', 'i', 'c', 'e', 's']);
        Some(p)
    } else {
        assert("index"@ =~= seq!['i', 'n', 'd', 'e', 'x']);
        assert("matrix"@ =~= seq!['m', 'a', 't', 'r', 'i', 'x']);
        assert("vertex"@ =~= seq!['v', 'e', 'r', 't', 'e', 'x']);
        None
    }
}

fn suffix_lit(v: &Vec<char>, s: &str) -> (r: bool)
    ensures
        r == has_suffix(v@, s@),
{
    ends_with(v, s)
}

fn plural_word_chars(quantity: i64, singular: &Vec<char>, plural: &Vec<char>) -> (r: Vec<char>)
    ensures
        r@ == plural_word_spec(quantity as int, singular@, plural@),
{
    if quantity == 1 {
        return slice_chars(singular, 0, singular.len());
    }
    if plural.len() > 0 {
        return slice_chars(plural, 0, plural.len());
    }
    match special(singular) {
        Some(p) => {
            return p;
        },
        None => {},
    }
    proof {
        reveal_strlit("s");
        reveal_strlit("sh");
        reveal_strlit("tch");
        reveal_strlit("x");
        assert("s"@ =~= seq!['s']);
        assert("sh"@ =~= seq!['s', 'h']);
        assert("tch"@ =~= seq!['t', 'c', 'h']);
        assert("x"@ =~= seq!['x']);
    }
    let l = singular.len();
    if suffix_lit(singular, "s") || suffix_lit(singular, "sh") || suffix_lit(singular, "tch")
        || suffix_lit(singular, "x") {
        let mut r = slice_chars(singular, 0, l);
        r.push('e');
        r.push('s');
        assert(r@ =~= singular@ + seq!['e', 's']);
        return r;
    }
    if l >= 2 && singular[l - 1] == 'o' && !is_vowel_char(singular[l - 2]) {
        let mut r = slice_chars(singular, 0, l);
        r.push('e');
        r.push('s');
        assert(r@ =~= singular@ + seq!['e', 's']);
        return r;
    }
    if l >= 2 && singular[l - 1] == 'y' && !is_vowel_char(singular[l - 2]) {
        let mut r = slice_chars(singular, 0, l - 1);
        r.push('i');
        r.push('e');
        r.push('s');
        assert(r@ =~= singular@.take(l - 1) + seq!['i', 'e', 's']);
        return r;
    }
    let mut r = slice_chars(singular, 0, l);
    r.push('s');
    assert(singular@.subrange(0, l as int) =~= singular@);
    r
}

/// `english.PluralWord`: the singular or the guessed plural.
pub fn plural_word(quantity: i64, singular: &str, plural_form: &str) -> (r: String)
    ensures
        r@ == plural_word_spec(quantity as int, singular@, plural_form@),
        quantity == 1 ==> r@ == singular@,
{
    let s = chars_of(singular);
    let p = chars_of(plural_form);
    let w = plural_word_chars(quantity, &s, &p);
    string_of(&w)
}

/// `english.Plural`: the quantity followed by the right form of the word.
pub fn plural(quantity: i64, singular: &str, plural_form: &str) -> (r: String)
    ensures
        r@ == decimal_int(quantity as int) + seq![' '] + plural_word_spec(quantity as int, singular@, plural_form@),
{
    let mut v = decimal_of_i64(quantity);
    v.push(' ');
    let s = chars_of(singular);
    let p = chars_of(plural_form);
    let w = plural_word_chars(quantity, &s, &p);
    extend_chars(&mut v, &w);
    string_of(&v)
}

} // verus!
