//! Character-level text helpers shared by every renderer in the crate.
//!
//! Text is modelled as `Seq<char>` (the view of `String` and `&str`); the
//! executable helpers here build and inspect text with contracts stated over
//! that model.
use vstd::prelude::*;

verus! {

broadcast use vstd::string::group_string_axioms;

// ---------------------------------------------------------------------------
// Specifications
// ---------------------------------------------------------------------------

/// `n` copies of `c`.
pub open spec fn repeat(c: char, n: nat) -> Seq<char> {
    Seq::new(n, |_i: int| c)
}

/// Whether `s` begins with `p`.
pub open spec fn has_prefix(s: Seq<char>, p: Seq<char>) -> bool {
    p.len() <= s.len() && s.take(p.len() as int) == p
}

/// Whether `s` ends with `p`.
pub open spec fn has_suffix(s: Seq<char>, p: Seq<char>) -> bool {
    p.len() <= s.len() && s.skip(s.len() - p.len()) == p
}

/// Whether `c` occurs anywhere in `s`.
pub open spec fn has_char(s: Seq<char>, c: char) -> bool {
    exists|i: int| 0 <= i < s.len() && s[i] == c
}

/// The index of the first `c` in `s` at or after `from`, if any.
pub open spec fn find_from(s: Seq<char>, c: char, from: int) -> Option<int>
    decreases s.len() - from,
{
    if from < 0 || from >= s.len() {
        None
    } else if s[from] == c {
        Some(from)
    } else {
        find_from(s, c, from + 1)
    }
}

/// The index of the first `c` in `s`.
pub open spec fn find_char(s: Seq<char>, c: char) -> Option<int> {
    find_from(s, c, 0)
}

/// The index of the last `c` in `s` before `upto`.
pub open spec fn rfind_before(s: Seq<char>, c: char, upto: int) -> Option<int>
    decreases upto,
{
    if upto <= 0 || upto > s.len() {
        None
    } else if s[upto - 1] == c {
        Some(upto - 1)
    } else {
        rfind_before(s, c, upto - 1)
    }
}

/// The index of the last `c` in `s`.
pub open spec fn rfind_char(s: Seq<char>, c: char) -> Option<int> {
    rfind_before(s, c, s.len() as int)
}

/// Splitting on a separator, folded over a prefix: the finished pieces and
/// the piece still being built.
pub open spec fn split_acc(s: Seq<char>, sep: char) -> (Seq<Seq<char>>, Seq<char>)
    decreases s.len(),
{
    if s.len() == 0 {
        (Seq::empty(), Seq::empty())
    } else {
        let (done, cur) = split_acc(s.drop_last(), sep);
        if s.last() == sep {
            (done.push(cur), Seq::empty())
        } else {
            (done, cur.push(s.last()))
        }
    }
}

/// `s.split(sep)`: the pieces between separators; always at least one.
pub open spec fn split(s: Seq<char>, sep: char) -> Seq<Seq<char>> {
    let (done, cur) = split_acc(s, sep);
    done.push(cur)
}

/// The pieces joined with `sep` between neighbours.
pub open spec fn join(parts: Seq<Seq<char>>, sep: Seq<char>) -> Seq<char>
    decreases parts.len(),
{
    if parts.len() == 0 {
        Seq::empty()
    } else if parts.len() == 1 {
        parts[0]
    } else {
        join(parts.drop_last(), sep) + sep + parts.last()
    }
}

/// A digit's character.
pub open spec fn digit_char(d: nat) -> char {
    ((d % 10) + 48) as char
}

/// Decimal rendering of a natural number, without leading zeros.
pub open spec fn decimal(n: nat) -> Seq<char>
    decreases n,
{
    if n < 10 {
        seq![digit_char(n)]
    } else {
        decimal(n / 10).push(digit_char(n % 10))
    }
}

/// Decimal rendering of an integer, with a leading `-` when negative.
pub open spec fn decimal_int(n: int) -> Seq<char> {
    if n < 0 {
        seq!['-'] + decimal((-n) as nat)
    } else {
        decimal(n as nat)
    }
}

/// Whether `c` is an ASCII decimal digit.
pub open spec fn is_digit(c: char) -> bool {
    '0' <= c <= '9'
}

/// The value of an ASCII digit.
pub open spec fn digit_value(c: char) -> nat {
    (c as int - 48) as nat
}

/// The value of a string of ASCII digits.
pub open spec fn digits_value(s: Seq<char>) -> nat
    decreases s.len(),
{
    if s.len() == 0 {
        0
    } else {
        digits_value(s.drop_last()) * 10 + digit_value(s.last())
    }
}

/// Whether every character of `s` is an ASCII digit.
pub open spec fn all_digits(s: Seq<char>) -> bool {
    forall|i: int| 0 <= i < s.len() ==> is_digit(#[trigger] s[i])
}

/// `str::parse::<u64>`: an optional `+`, then one or more ASCII digits whose
/// value fits in a `u64`.
pub open spec fn parse_u64_spec(s: Seq<char>) -> Option<u64> {
    let body = if s.len() > 0 && s[0] == '+' { s.skip(1) } else { s };
    if body.len() > 0 && all_digits(body) && digits_value(body) <= u64::MAX {
        Some(digits_value(body) as u64)
    } else {
        None
    }
}

/// Whether `c` is an ASCII letter.
pub open spec fn is_ascii_alpha(c: char) -> bool {
    ('a' <= c <= 'z') || ('A' <= c <= 'Z')
}

/// Whether `c` is an ASCII letter or digit.
pub open spec fn is_ascii_alnum(c: char) -> bool {
    is_ascii_alpha(c) || is_digit(c)
}

/// `char::is_control`: the Unicode `Cc` category.
pub open spec fn is_control(c: char) -> bool {
    (c as u32) < 0x20 || (0x7f <= (c as u32) && (c as u32) < 0xa0)
}

/// `char::is_whitespace`: the Unicode `White_Space` property.
pub open spec fn is_whitespace(c: char) -> bool {
    let n = c as u32;
    (0x09 <= n && n <= 0x0d) || n == 0x20 || n == 0x85 || n == 0xa0 || n == 0x1680 || (0x2000
        <= n && n <= 0x200a) || n == 0x2028 || n == 0x2029 || n == 0x202f || n == 0x205f || n
        == 0x3000
}

/// ASCII lower-casing of one character.
pub open spec fn ascii_lower(c: char) -> char {
    if 'A' <= c <= 'Z' {
        ((c as u32) + 32) as char
    } else {
        c
    }
}

/// ASCII upper-casing of one character.
pub open spec fn ascii_upper(c: char) -> char {
    if 'a' <= c <= 'z' {
        ((c as u32) - 32) as char
    } else {
        c
    }
}

/// ASCII lower-casing of a string.
pub open spec fn lower_ascii(s: Seq<char>) -> Seq<char> {
    s.map_values(|c: char| ascii_lower(c))
}

/// Leading whitespace removed.
pub open spec fn trim_start_ws(s: Seq<char>) -> Seq<char>
    decreases s.len(),
{
    if s.len() > 0 && is_whitespace(s[0]) {
        trim_start_ws(s.skip(1))
    } else {
        s
    }
}

/// Trailing whitespace removed.
pub open spec fn trim_end_ws(s: Seq<char>) -> Seq<char>
    decreases s.len(),
{
    if s.len() > 0 && is_whitespace(s.last()) {
        trim_end_ws(s.drop_last())
    } else {
        s
    }
}

/// `str::trim`: Unicode whitespace removed from both ends.
pub open spec fn trim(s: Seq<char>) -> Seq<char> {
    trim_end_ws(trim_start_ws(s))
}

/// Every occurrence of `from` replaced by `to`.
pub open spec fn replace_char(s: Seq<char>, from: char, to: Seq<char>) -> Seq<char>
    decreases s.len(),
{
    if s.len() == 0 {
        Seq::empty()
    } else if s.last() == from {
        replace_char(s.drop_last(), from, to) + to
    } else {
        replace_char(s.drop_last(), from, to).push(s.last())
    }
}

// ---------------------------------------------------------------------------
// Lemmas
// ---------------------------------------------------------------------------

/// Taking one more element of a prefix pushes that element.
pub proof fn lemma_take_push<A>(s: Seq<A>, i: int)
    requires
        0 <= i < s.len(),
    ensures
        s.take(i + 1) == s.take(i).push(s[i]),
        s.take(i + 1).drop_last() == s.take(i),
        s.take(i + 1).last() == s[i],
{
    assert(s.take(i + 1) =~= s.take(i).push(s[i]));
}

/// The decimal rendering is never empty and never starts with a zero unless
/// it is exactly "0".
pub proof fn lemma_decimal_len(n: nat)
    ensures
        decimal(n).len() >= 1,
    decreases n,
{
    if n >= 10 {
        lemma_decimal_len(n / 10);
    }
}

/// `join` reassembles what `split` took apart.
pub proof fn lemma_split_join(s: Seq<char>, sep: char)
    ensures
        join(split(s, sep), seq![sep]) == s,
    decreases s.len(),
{
    lemma_split_acc_join(s, sep);
}

proof fn lemma_split_acc_join(s: Seq<char>, sep: char)
    ensures
        join(split_acc(s, sep).0.push(split_acc(s, sep).1), seq![sep]) == s,
    decreases s.len(),
{
    if s.len() == 0 {
        assert(split_acc(s, sep).0.push(split_acc(s, sep).1) =~= seq![Seq::<char>::empty()]);
    } else {
        let (done, cur) = split_acc(s.drop_last(), sep);
        lemma_split_acc_join(s.drop_last(), sep);
        let prev = done.push(cur);
        assert(join(prev, seq![sep]) == s.drop_last());
        if s.last() == sep {
            let now = done.push(cur).push(Seq::<char>::empty());
            assert(now.drop_last() =~= prev);
            assert(join(now, seq![sep]) =~= join(prev, seq![sep]) + seq![sep] + Seq::<char>::empty());
            assert(s =~= s.drop_last() + seq![sep]);
        } else {
            let now = done.push(cur.push(s.last()));
            if done.len() == 0 {
                assert(prev =~= seq![cur]);
                assert(now =~= seq![cur.push(s.last())]);
                assert(s =~= s.drop_last().push(s.last()));
            } else {
                assert(now.drop_last() =~= done);
                assert(prev.drop_last() =~= done);
                assert(join(now, seq![sep]) == join(done, seq![sep]) + seq![sep] + cur.push(s.last()));
                assert(join(prev, seq![sep]) == join(done, seq![sep]) + seq![sep] + cur);
                assert(s =~= s.drop_last().push(s.last()));
                assert(join(now, seq![sep]) =~= join(prev, seq![sep]).push(s.last()));
            }
        }
    }
}

// ---------------------------------------------------------------------------
// Executable helpers
// ---------------------------------------------------------------------------

/// `String::push`.
#[verifier::external_body]
pub fn push_char(s: &mut String, c: char)
    ensures
        final(s)@ == old(s)@.push(c),
{
    s.push(c)
}

/// The characters of `s`, in order.
pub fn chars_of(s: &str) -> (r: Vec<char>)
    ensures
        r@ == s@,
{
    let mut out: Vec<char> = Vec::new();
    for c in it: s.chars()
        invariant
            out@ == it.seq().take(it.index() as int),
    {
        out.push(c);
    }
    out
}

/// Appends the characters of `v` to `s`.
pub fn push_chars(s: &mut String, v: &Vec<char>)
    ensures
        final(s)@ == old(s)@ + v@,
{
    let ghost start = s@;
    let mut i: usize = 0;
    while i < v.len()
        invariant
            i <= v.len(),
            s@ == start + v@.take(i as int),
        decreases v.len() - i,
    {
        proof {
            lemma_take_push(v@, i as int);
        }
        push_char(s, v[i]);
        i += 1;
    }
    assert(v@.take(v.len() as int) =~= v@);
}

/// A `String` holding the characters of `v`.
pub fn string_of(v: &Vec<char>) -> (r: String)
    ensures
        r@ == v@,
{
    let mut s = String::new();
    push_chars(&mut s, v);
    assert(Seq::<char>::empty() + v@ =~= v@);
    s
}

/// Appends the characters of `t` to `v`.
pub fn extend_str(v: &mut Vec<char>, t: &str)
    ensures
        final(v)@ == old(v)@ + t@,
{
    let tv = chars_of(t);
    extend_chars(v, &tv);
}

/// Appends the characters of `t` to `v`.
pub fn extend_chars(v: &mut Vec<char>, t: &Vec<char>)
    ensures
        final(v)@ == old(v)@ + t@,
{
    let ghost start = v@;
    let mut i: usize = 0;
    while i < t.len()
        invariant
            i <= t.len(),
            v@ == start + t@.take(i as int),
        decreases t.len() - i,
    {
        proof {
            lemma_take_push(t@, i as int);
        }
        v.push(t[i]);
        i += 1;
    }
    assert(t@.take(t.len() as int) =~= t@);
}

/// A copy of `v[from..to]`.
pub fn slice_chars(v: &Vec<char>, from: usize, to: usize) -> (r: Vec<char>)
    requires
        from <= to <= v.len(),
    ensures
        r@ == v@.subrange(from as int, to as int),
{
    let mut out: Vec<char> = Vec::new();
    let mut i = from;
    while i < to
        invariant
            from <= i <= to <= v.len(),
            out@ == v@.subrange(from as int, i as int),
        decreases to - i,
    {
        out.push(v[i]);
        i += 1;
        assert(out@ =~= v@.subrange(from as int, i as int));
    }
    out
}

/// `n` copies of `c`.
pub fn repeat_char(c: char, n: usize) -> (r: Vec<char>)
    ensures
        r@ == repeat(c, n as nat),
{
    let mut out: Vec<char> = Vec::new();
    let mut i: usize = 0;
    while i < n
        invariant
            i <= n,
            out@ == repeat(c, i as nat),
        decreases n - i,
    {
        out.push(c);
        i += 1;
        assert(out@ =~= repeat(c, i as nat));
    }
    out
}

/// Character equality of two strings.
pub fn chars_eq(a: &Vec<char>, b: &Vec<char>) -> (r: bool)
    ensures
        r == (a@ == b@),
{
    if a.len() != b.len() {
        return false;
    }
    let mut i: usize = 0;
    while i < a.len()
        invariant
            i <= a.len() == b.len(),
            forall|j: int| 0 <= j < i ==> a@[j] == b@[j],
        decreases a.len() - i,
    {
        if a[i] != b[i] {
            return false;
        }
        i += 1;
    }
    assert(a@ =~= b@);
    true
}

/// Whether `v` equals the string `s`.
pub fn eq_str(v: &Vec<char>, s: &str) -> (r: bool)
    ensures
        r == (v@ == s@),
{
    let w = chars_of(s);
    chars_eq(v, &w)
}

/// Whether `v[at..]` begins with `p`.
pub fn has_prefix_at(v: &Vec<char>, at: usize, p: &Vec<char>) -> (r: bool)
    requires
        at <= v.len(),
    ensures
        r == has_prefix(v@.skip(at as int), p@),
{
    if p.len() > v.len() - at {
        return false;
    }
    let mut i: usize = 0;
    while i < p.len()
        invariant
            at <= v.len(),
            p.len() <= v.len() - at,
            i <= p.len(),
            forall|j: int| 0 <= j < i ==> v@[at + j] == p@[j],
        decreases p.len() - i,
    {
        if v[at + i] != p[i] {
            assert(v@.skip(at as int).take(p.len() as int)[i as int] != p@[i as int]);
            return false;
        }
        i += 1;
    }
    assert(v@.skip(at as int).take(p.len() as int) =~= p@);
    true
}

/// Whether `v` begins with `p`.
pub fn starts_with(v: &Vec<char>, p: &str) -> (r: bool)
    ensures
        r == has_prefix(v@, p@),
{
    let pv = chars_of(p);
    assert(v@.skip(0) =~= v@);
    has_prefix_at(v, 0, &pv)
}

/// Whether `v` ends with `p`.
pub fn ends_with(v: &Vec<char>, p: &str) -> (r: bool)
    ensures
        r == has_suffix(v@, p@),
{
    let pv = chars_of(p);
    if pv.len() > v.len() {
        return false;
    }
    let at = v.len() - pv.len();
    let r = has_prefix_at(v, at, &pv);
    assert(v@.skip(at as int).take(pv@.len() as int) =~= v@.skip(at as int));
    r
}

/// Whether `c` occurs in `v`.
pub fn contains_char(v: &Vec<char>, c: char) -> (r: bool)
    ensures
        r == has_char(v@, c),
{
    let mut i: usize = 0;
    while i < v.len()
        invariant
            i <= v.len(),
            forall|j: int| 0 <= j < i ==> v@[j] != c,
        decreases v.len() - i,
    {
        if v[i] == c {
            return true;
        }
        i += 1;
    }
    false
}

/// Whether the string `s` contains `c`.
pub fn str_has_char(s: &str, c: char) -> (r: bool)
    ensures
        r == has_char(s@, c),
{
    let v = chars_of(s);
    contains_char(&v, c)
}

/// No `c` at or after `from` means none is found.
pub proof fn lemma_find_from_none(s: Seq<char>, c: char, from: int)
    requires
        0 <= from,
        forall|j: int| from <= j < s.len() ==> s[j] != c,
    ensures
        find_from(s, c, from) == None::<int>,
    decreases s.len() - from,
{
    if from < s.len() {
        lemma_find_from_none(s, c, from + 1);
    }
}

/// No `c` between `from` and `k` means the search may start at `k`.
pub proof fn lemma_find_from_skip(s: Seq<char>, c: char, from: int, k: int)
    requires
        0 <= from <= k <= s.len(),
        forall|j: int| from <= j < k ==> s[j] != c,
    ensures
        find_from(s, c, from) == find_from(s, c, k),
    decreases k - from,
{
    if from < k {
        lemma_find_from_skip(s, c, from + 1, k);
    }
}

/// The index of the first `c` in `v` at or after `from`.
pub fn find_char_from(v: &Vec<char>, c: char, from: usize) -> (r: Option<usize>)
    ensures
        r matches Some(i) ==> find_from(v@, c, from as int) == Some(i as int),
        r matches Some(i) ==> from <= i < v@.len() && v@[i as int] == c,
        r is None ==> find_from(v@, c, from as int) is None,
{
    let mut i = from;
    while i < v.len()
        invariant
            from <= i,
            forall|j: int| from <= j < i && j < v.len() ==> v@[j] != c,
        decreases v.len() - i,
    {
        if v[i] == c {
            proof {
                lemma_find_from_skip(v@, c, from as int, i as int);
            }
            return Some(i);
        }
        i += 1;
    }
    proof {
        lemma_find_from_none(v@, c, from as int);
    }
    None
}

proof fn lemma_rfind_none(s: Seq<char>, c: char, upto: int)
    requires
        upto <= s.len(),
        forall|j: int| 0 <= j < upto ==> s[j] != c,
    ensures
        rfind_before(s, c, upto) == None::<int>,
    decreases upto,
{
    if upto > 0 {
        lemma_rfind_none(s, c, upto - 1);
    }
}

/// The index of the last `c` in `v`.
pub fn rfind_char_in(v: &Vec<char>, c: char) -> (r: Option<usize>)
    ensures
        r matches Some(i) ==> rfind_char(v@, c) == Some(i as int),
        r matches Some(i) ==> i < v@.len() && v@[i as int] == c,
        r is None ==> rfind_char(v@, c) is None,
{
    let mut i = v.len();
    while i > 0
        invariant
            i <= v.len(),
            rfind_char(v@, c) == rfind_before(v@, c, i as int),
        decreases i,
    {
        if v[i - 1] == c {
            return Some(i - 1);
        }
        i -= 1;
    }
    None
}

/// `s.split(sep)`.
pub fn split_chars(v: &Vec<char>, sep: char) -> (r: Vec<Vec<char>>)
    ensures
        r@.map_values(|p: Vec<char>| p@) == split(v@, sep),
        r.len() >= 1,
{
    let mut done: Vec<Vec<char>> = Vec::new();
    let mut cur: Vec<char> = Vec::new();
    let mut i: usize = 0;
    while i < v.len()
        invariant
            i <= v.len(),
            (done@.map_values(|p: Vec<char>| p@), cur@) == split_acc(v@.take(i as int), sep),
        decreases v.len() - i,
    {
        proof {
            lemma_take_push(v@, i as int);
        }
        if v[i] == sep {
            let piece = cur;
            cur = Vec::new();
            done.push(piece);
            assert(done@.map_values(|p: Vec<char>| p@) =~= split_acc(v@.take(i as int), sep).0.push(piece@));
        } else {
            cur.push(v[i]);
        }
        i += 1;
    }
    assert(v@.take(v.len() as int) =~= v@);
    let ghost d = done@;
    done.push(cur);
    assert(done@.map_values(|p: Vec<char>| p@) =~= d.map_values(|p: Vec<char>| p@).push(cur@));
    done
}

/// The pieces joined with `sep`.
pub fn join_chars(parts: &Vec<Vec<char>>, sep: &Vec<char>) -> (r: Vec<char>)
    ensures
        r@ == join(parts@.map_values(|p: Vec<char>| p@), sep@),
{
    let ghost views = parts@.map_values(|p: Vec<char>| p@);
    let mut out: Vec<char> = Vec::new();
    let mut i: usize = 0;
    while i < parts.len()
        invariant
            i <= parts.len(),
            views == parts@.map_values(|p: Vec<char>| p@),
            out@ == join(views.take(i as int), sep@),
        decreases parts.len() - i,
    {
        proof {
            lemma_take_push(views, i as int);
        }
        if i > 0 {
            extend_chars(&mut out, sep);
        } else {
            assert(views.take(1) =~= seq![views[0]]);
        }
        extend_chars(&mut out, &parts[i]);
        i += 1;
    }
    assert(views.take(parts.len() as int) =~= views);
    out
}

/// Decimal digits of `n`.
pub fn decimal_of(n: u64) -> (r: Vec<char>)
    ensures
        r@ == decimal(n as nat),
    decreases n,
{
    if n < 10 {
        let mut v: Vec<char> = Vec::new();
        let d = n as u8;
        v.push(((d + 48u8) as char));
        assert(v@ =~= decimal(n as nat));
        v
    } else {
        let mut v = decimal_of(n / 10);
        let d = (n % 10) as u8;
        v.push(((d + 48u8) as char));
        v
    }
}

/// Decimal digits of a signed `n`.
pub fn decimal_of_i64(n: i64) -> (r: Vec<char>)
    ensures
        r@ == decimal_int(n as int),
{
    if n < 0 {
        let m: u64 = if n == i64::MIN {
            9223372036854775808u64
        } else {
            (-n) as u64
        };
        let mut v: Vec<char> = Vec::new();
        v.push('-');
        let d = decimal_of(m);
        extend_chars(&mut v, &d);
        v
    } else {
        decimal_of(n as u64)
    }
}

/// `str::parse::<u64>`.
pub fn parse_u64(v: &Vec<char>) -> (r: Option<u64>)
    ensures
        r == parse_u64_spec(v@),
{
    let start: usize = if v.len() > 0 && v[0] == '+' {
        1
    } else {
        0
    };
    let ghost body = if v@.len() > 0 && v@[0] == '+' {
        v@.skip(1)
    } else {
        v@
    };
    assert(body =~= v@.skip(start as int));
    if start >= v.len() {
        return None;
    }
    let mut acc: u64 = 0;
    let mut i = start;
    while i < v.len()
        invariant
            start <= i <= v.len(),
            body == v@.skip(start as int),
            body == (if v@.len() > 0 && v@[0] == '+' { v@.skip(1) } else { v@ }),
            all_digits(v@.subrange(start as int, i as int)),
            acc as nat == digits_value(v@.subrange(start as int, i as int)),
        decreases v.len() - i,
    {
        let c = v[i];
        let ghost pre = v@.subrange(start as int, i as int);
        let ghost next = v@.subrange(start as int, i + 1);
        assert(next.drop_last() =~= pre);
        assert(next.last() == c);
        if !('0' <= c && c <= '9') {
            assert(body[i - start] == c);
            assert(!is_digit(body[(i - start) as int]));
            assert(!all_digits(body));
            assert(parse_u64_spec(v@) is None);
            return None;
        }
        let d = (c as u32 - 48) as u64;
        if acc > (u64::MAX - d) / 10 {
            proof {
                assert(digits_value(next) == acc * 10 + d);
                assert(acc * 10 + d > u64::MAX) by (nonlinear_arith)
                    requires
                        acc > (u64::MAX - d) / 10,
                        d <= 9,
                ;
                assert(digit_value(c) == d);
                assert(digits_value(next) == digits_value(pre) * 10 + digit_value(c));
                if all_digits(body) {
                    assert(body.take((i - start + 1) as int) =~= next);
                    lemma_digits_prefix_mono(body, (i - start + 1) as int);
                    assert(digits_value(body) > u64::MAX);
                }
                assert(parse_u64_spec(v@) is None);
            }
            return None;
        }
        acc = acc * 10 + d;
        i += 1;
    }
    assert(v@.subrange(start as int, v.len() as int) =~= body);
    Some(acc)
}

/// A prefix of a digit string never has a larger value than the whole.
pub proof fn lemma_digits_prefix_mono(s: Seq<char>, k: int)
    requires
        0 <= k <= s.len(),
        all_digits(s),
    ensures
        digits_value(s.take(k)) <= digits_value(s),
    decreases s.len() - k,
{
    if k < s.len() {
        lemma_digits_prefix_mono(s, k + 1);
        assert(s.take(k + 1).drop_last() =~= s.take(k));
        assert(is_digit(s[k]));
    } else {
        assert(s.take(k) =~= s);
    }
}

/// ASCII lower-casing.
pub fn to_lower_ascii(v: &Vec<char>) -> (r: Vec<char>)
    ensures
        r@ == lower_ascii(v@),
{
    let mut out: Vec<char> = Vec::new();
    let mut i: usize = 0;
    while i < v.len()
        invariant
            i <= v.len(),
            out@ == lower_ascii(v@.take(i as int)),
        decreases v.len() - i,
    {
        let c = v[i];
        let l = if 'A' <= c && c <= 'Z' {
            ((c as u8) + 32u8) as char
        } else {
            c
        };
        out.push(l);
        i += 1;
        assert(out@ =~= lower_ascii(v@.take(i as int)));
    }
    assert(v@.take(v.len() as int) =~= v@);
    out
}

/// Every `from` replaced by `to`.
pub fn replace_char_with(v: &Vec<char>, from: char, to: &Vec<char>) -> (r: Vec<char>)
    ensures
        r@ == replace_char(v@, from, to@),
{
    let mut out: Vec<char> = Vec::new();
    let mut i: usize = 0;
    while i < v.len()
        invariant
            i <= v.len(),
            out@ == replace_char(v@.take(i as int), from, to@),
        decreases v.len() - i,
    {
        proof {
            lemma_take_push(v@, i as int);
        }
        if v[i] == from {
            extend_chars(&mut out, to);
        } else {
            out.push(v[i]);
        }
        i += 1;
    }
    assert(v@.take(v.len() as int) =~= v@);
    out
}

/// Whether `c` is Unicode whitespace.
pub fn is_whitespace_char(c: char) -> (r: bool)
    ensures
        r == is_whitespace(c),
{
    let n = c as u32;
    (0x09 <= n && n <= 0x0d) || n == 0x20 || n == 0x85 || n == 0xa0 || n == 0x1680 || (0x2000
        <= n && n <= 0x200a) || n == 0x2028 || n == 0x2029 || n == 0x202f || n == 0x205f || n
        == 0x3000
}

/// Whether `c` is a control character.
pub fn is_control_char(c: char) -> (r: bool)
    ensures
        r == is_control(c),
{
    let n = c as u32;
    n < 0x20 || (0x7f <= n && n < 0xa0)
}

/// `str::trim`.
pub fn trim_chars(v: &Vec<char>) -> (r: Vec<char>)
    ensures
        r@ == trim(v@),
{
    let mut a: usize = 0;
    assert(v@.skip(0) =~= v@);
    while a < v.len() && is_whitespace_char(v[a])
        invariant
            a <= v.len(),
            trim_start_ws(v@) == trim_start_ws(v@.skip(a as int)),
        decreases v.len() - a,
    {
        assert(v@.skip(a as int).skip(1) =~= v@.skip(a + 1));
        a += 1;
    }
    let ghost left = v@.skip(a as int);
    assert(v@.subrange(a as int, v.len() as int) =~= left);
    assert(v@.skip(0) =~= v@);
    assert(trim_start_ws(v@) == left);
    let mut b: usize = v.len();
    while b > a && is_whitespace_char(v[b - 1])
        invariant
            a <= b <= v.len(),
            left == v@.skip(a as int),
            trim(v@) == trim_end_ws(v@.subrange(a as int, b as int)),
        decreases b,
    {
        assert(v@.subrange(a as int, b as int).drop_last() =~= v@.subrange(a as int, b - 1));
        b -= 1;
    }
    assert(v@.subrange(a as int, b as int) =~= v@.subrange(a as int, b as int));
    slice_chars(v, a, b)
}

/// Whether `p` occurs somewhere in `s`.
pub open spec fn has_infix(s: Seq<char>, p: Seq<char>) -> bool {
    exists|i: int| 0 <= i <= s.len() - p.len() && #[trigger] s.subrange(i, i + p.len()) == p
}

/// `str::contains` with a string pattern.
pub fn contains_str(v: &Vec<char>, p: &str) -> (r: bool)
    ensures
        r == has_infix(v@, p@),
{
    let pv = chars_of(p);
    if pv.len() > v.len() {
        return false;
    }
    let n = v.len() - pv.len();
    let mut i: usize = 0;
    while i < n
        invariant
            pv@ == p@,
            n == v@.len() - pv@.len(),
            i <= n,
            forall|j: int| 0 <= j < i ==> #[trigger] v@.subrange(j, j + pv@.len()) != pv@,
        decreases n - i,
    {
        assert(v@.skip(i as int).take(pv@.len() as int) =~= v@.subrange(i as int, i + pv@.len()));
        if has_prefix_at(v, i, &pv) {
            return true;
        }
        i += 1;
    }
    assert(v@.skip(n as int).take(pv@.len() as int) =~= v@.subrange(n as int, n + pv@.len()));
    if has_prefix_at(v, n, &pv) {
        return true;
    }
    proof {
        if has_infix(v@, p@) {
            let j = choose|j: int| 0 <= j <= v@.len() - p@.len() && #[trigger] v@.subrange(j, j + p@.len()) == p@;
            assert(j <= n);
        }
    }
    false
}

/// `str::trim_end`: trailing Unicode whitespace removed.
pub fn trim_end_chars(v: &Vec<char>) -> (r: Vec<char>)
    ensures
        r@ == trim_end_ws(v@),
{
    let mut b: usize = v.len();
    assert(v@.subrange(0, b as int) =~= v@);
    while b > 0 && is_whitespace_char(v[b - 1])
        invariant
            b <= v.len(),
            trim_end_ws(v@) == trim_end_ws(v@.subrange(0, b as int)),
        decreases b,
    {
        assert(v@.subrange(0, b as int).drop_last() =~= v@.subrange(0, b - 1));
        b -= 1;
    }
    slice_chars(v, 0, b)
}

} // verus!

verus! {

// ---------------------------------------------------------------------------
// Unicode case mappings (standard library)
// ---------------------------------------------------------------------------

/// The full Unicode upper-case mapping of a string.
pub uninterp spec fn upper_case(s: Seq<char>) -> Seq<char>;

/// The full Unicode lower-case mapping of a string.
pub uninterp spec fn lower_case(s: Seq<char>) -> Seq<char>;

/// Calls `str::to_uppercase` on the text of `v`.
#[verifier::external_body]
pub fn to_upper(v: &Vec<char>) -> (r: Vec<char>)
    ensures
        r@ == upper_case(v@),
{
    let s: String = v.iter().collect();
    s.to_uppercase().chars().collect()
}

/// Calls `str::to_lowercase` on the text of `v`.
#[verifier::external_body]
pub fn to_lower(v: &Vec<char>) -> (r: Vec<char>)
    ensures
        r@ == lower_case(v@),
{
    let s: String = v.iter().collect();
    s.to_lowercase().chars().collect()
}

/// Whether `c` has the Unicode `Lowercase` property.
pub uninterp spec fn is_lower(c: char) -> bool;

/// Whether `c` has the Unicode `Uppercase` property.
pub uninterp spec fn is_upper(c: char) -> bool;

/// The Unicode lower-case mapping of one character.
pub uninterp spec fn char_lower(c: char) -> Seq<char>;

/// Calls `char::is_lowercase`.
#[verifier::external_body]
pub fn char_is_lowercase(c: char) -> (r: bool)
    ensures
        r == is_lower(c),
{
    c.is_lowercase()
}

/// Calls `char::is_uppercase`.
#[verifier::external_body]
pub fn char_is_uppercase(c: char) -> (r: bool)
    ensures
        r == is_upper(c),
{
    c.is_uppercase()
}

/// Whether a character is alphabetic or numeric in the Unicode sense.
pub uninterp spec fn is_alnum_unicode(c: char) -> bool;

/// Calls `char::is_alphanumeric`.
#[verifier::external_body]
pub fn char_is_alphanumeric(c: char) -> (r: bool)
    ensures
        r == is_alnum_unicode(c),
{
    c.is_alphanumeric()
}

/// The Unicode upper-case mapping of one character.
pub uninterp spec fn char_upper(c: char) -> Seq<char>;

/// Calls `char::to_uppercase`, collecting the characters it yields.
#[verifier::external_body]
pub fn char_to_uppercase(c: char) -> (r: Vec<char>)
    ensures
        r@ == char_upper(c),
{
    c.to_uppercase().collect()
}

/// Calls `char::to_lowercase`, collecting the characters it yields.
#[verifier::external_body]
pub fn char_to_lowercase(c: char) -> (r: Vec<char>)
    ensures
        r@ == char_lower(c),
{
    c.to_lowercase().collect()
}

} // verus!

verus! {

/// Every non-overlapping occurrence of `pat`, scanning left to right,
/// replaced by `rep`.
pub open spec fn replace_pat(s: Seq<char>, pat: Seq<char>, rep: Seq<char>) -> Seq<char>
    decreases s.len(),
{
    if s.len() == 0 {
        Seq::empty()
    } else if pat.len() > 0 && has_prefix(s, pat) {
        rep + replace_pat(s.skip(pat.len() as int), pat, rep)
    } else {
        seq![s[0]] + replace_pat(s.skip(1), pat, rep)
    }
}

/// `str::replace`: every non-overlapping occurrence of a non-empty `pat`
/// replaced by `rep`.
pub fn replace_all(v: &Vec<char>, pat: &Vec<char>, rep: &Vec<char>) -> (r: Vec<char>)
    requires
        pat.len() > 0,
    ensures
        r@ == replace_pat(v@, pat@, rep@),
{
    let mut out: Vec<char> = Vec::new();
    let mut i: usize = 0;
    assert(v@.skip(0) =~= v@);
    while i < v.len()
        invariant
            i <= v.len(),
            pat.len() > 0,
            out@ + replace_pat(v@.skip(i as int), pat@, rep@) == replace_pat(v@, pat@, rep@),
        decreases v.len() - i,
    {
        let ghost rest = v@.skip(i as int);
        if has_prefix_at(v, i, pat) {
            extend_chars(&mut out, rep);
            assert(rest.skip(pat.len() as int) =~= v@.skip(i + pat.len()));
            i = i + pat.len();
        } else {
            out.push(v[i]);
            assert(rest.skip(1) =~= v@.skip(i + 1));
            i += 1;
        }
        assert(out@ + replace_pat(v@.skip(i as int), pat@, rep@) =~= replace_pat(v@, pat@, rep@));
    }
    assert(v@.skip(v.len() as int) =~= Seq::<char>::empty());
    assert(out@ + Seq::<char>::empty() =~= out@);
    out
}

/// `str::replacen(pat, rep, 1)`: the first occurrence of a non-empty `pat`
/// replaced by `rep`.
pub open spec fn replace_first(s: Seq<char>, pat: Seq<char>, rep: Seq<char>) -> Seq<char>
    decreases s.len(),
{
    if s.len() == 0 {
        Seq::empty()
    } else if pat.len() > 0 && has_prefix(s, pat) {
        rep + s.skip(pat.len() as int)
    } else {
        seq![s[0]] + replace_first(s.skip(1), pat, rep)
    }
}

/// The first occurrence of a non-empty `pat` in `v` replaced by `rep`.
pub fn replace_first_exec(v: &Vec<char>, pat: &Vec<char>, rep: &Vec<char>) -> (r: Vec<char>)
    requires
        pat.len() > 0,
    ensures
        r@ == replace_first(v@, pat@, rep@),
{
    let mut out: Vec<char> = Vec::new();
    let mut i: usize = 0;
    assert(v@.skip(0) =~= v@);
    while i < v.len()
        invariant
            i <= v.len(),
            pat.len() > 0,
            out@ + replace_first(v@.skip(i as int), pat@, rep@) == replace_first(v@, pat@, rep@),
        decreases v.len() - i,
    {
        let ghost rest = v@.skip(i as int);
        if has_prefix_at(v, i, pat) {
            extend_chars(&mut out, rep);
            let mut k: usize = i + pat.len();
            let ghost tail_start = k;
            assert(rest.skip(pat.len() as int) =~= v@.skip(i + pat.len()));
            while k < v.len()
                invariant
                    tail_start <= k <= v.len(),
                    out@ + v@.skip(k as int) == replace_first(v@, pat@, rep@),
                decreases v.len() - k,
            {
                assert(v@.skip(k as int) =~= seq![v@[k as int]] + v@.skip(k + 1));
                out.push(v[k]);
                k += 1;
                assert(out@ + v@.skip(k as int) =~= replace_first(v@, pat@, rep@));
            }
            assert(v@.skip(k as int) =~= Seq::<char>::empty());
            assert(out@ + Seq::<char>::empty() =~= out@);
            return out;
        } else {
            out.push(v[i]);
            assert(rest.skip(1) =~= v@.skip(i + 1));
            i += 1;
        }
        assert(out@ + replace_first(v@.skip(i as int), pat@, rep@) =~= replace_first(v@, pat@, rep@));
    }
    assert(v@.skip(v.len() as int) =~= Seq::<char>::empty());
    assert(out@ + Seq::<char>::empty() =~= out@);
    out
}

/// Decimal digits of a 128-bit `n`.
pub fn decimal_of_u128(n: u128) -> (r: Vec<char>)
    ensures
        r@ == decimal(n as nat),
    decreases n,
{
    if n < 10 {
        let mut v: Vec<char> = Vec::new();
        let d = n as u8;
        v.push(((d + 48u8) as char));
        assert(v@ =~= decimal(n as nat));
        v
    } else {
        let mut v = decimal_of_u128(n / 10);
        let d = (n % 10) as u8;
        v.push(((d + 48u8) as char));
        v
    }
}

/// Decimal digits of a signed 128-bit `n`.
pub fn decimal_of_i128(n: i128) -> (r: Vec<char>)
    ensures
        r@ == decimal_int(n as int),
{
    if n < 0 {
        let m: u128 = if n == i128::MIN {
            170141183460469231731687303715884105728u128
        } else {
            (-n) as u128
        };
        let mut v: Vec<char> = Vec::new();
        v.push('-');
        let d = decimal_of_u128(m);
        extend_chars(&mut v, &d);
        v
    } else {
        decimal_of_u128(n as u128)
    }
}

} // verus!

verus! {

/// The `Debug` rendering of a string: quoted, with escapes.
pub uninterp spec fn debug_quoted(s: Seq<char>) -> Seq<char>;

/// Calls `<str as Debug>::fmt` on the text of `v`, through `format!("{:?}")`.
#[verifier::external_body]
pub fn quote_debug(v: &Vec<char>) -> (r: Vec<char>)
    ensures
        r@ == debug_quoted(v@),
{
    let s: String = v.iter().collect();
    format!("{:?}", s).chars().collect()
}

/// All leading occurrences of `c` removed.
pub open spec fn trim_start_char(s: Seq<char>, c: char) -> Seq<char>
    decreases s.len(),
{
    if s.len() > 0 && s[0] == c {
        trim_start_char(s.skip(1), c)
    } else {
        s
    }
}

/// `str::trim_start_matches(c)`.
pub fn trim_start_char_exec(v: &Vec<char>, c: char) -> (r: Vec<char>)
    ensures
        r@ == trim_start_char(v@, c),
{
    let mut a: usize = 0;
    assert(v@.skip(0) =~= v@);
    while a < v.len() && v[a] == c
        invariant
            a <= v.len(),
            trim_start_char(v@, c) == trim_start_char(v@.skip(a as int), c),
        decreases v.len() - a,
    {
        assert(v@.skip(a as int).skip(1) =~= v@.skip(a + 1));
        a += 1;
    }
    let r = slice_chars(v, a, v.len());
    assert(r@ =~= v@.skip(a as int));
    r
}

/// All trailing occurrences of `c` removed.
pub open spec fn trim_end_char(s: Seq<char>, c: char) -> Seq<char>
    decreases s.len(),
{
    if s.len() > 0 && s.last() == c {
        trim_end_char(s.drop_last(), c)
    } else {
        s
    }
}

/// `str::trim_end_matches(c)`.
pub fn trim_end_char_exec(v: &Vec<char>, c: char) -> (r: Vec<char>)
    ensures
        r@ == trim_end_char(v@, c),
{
    let mut b: usize = v.len();
    assert(v@.subrange(0, v.len() as int) =~= v@);
    while b > 0 && v[b - 1] == c
        invariant
            b <= v.len(),
            trim_end_char(v@, c) == trim_end_char(v@.subrange(0, b as int), c),
        decreases b,
    {
        assert(v@.subrange(0, b as int).drop_last() =~= v@.subrange(0, b - 1));
        b -= 1;
    }
    slice_chars(v, 0, b)
}

} // verus!
