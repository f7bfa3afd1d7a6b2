//! The renderer's text helpers: hyperlinks, link hosts, escapes, HTML
//! sanitising and title case.
use vstd::prelude::*;
use crate::deps::url::{hostname_spec, parse_spec, resolve_reference, resolve_reference_spec, Url, UrlModel};
use crate::text::{
    char_is_alphanumeric, char_lower, char_to_lowercase, char_to_uppercase, char_upper, chars_of, decimal, decimal_of,
    extend_chars, extend_str, is_alnum_unicode, replace_all, replace_pat, string_of, trim, trim_chars,
};

verus! {

broadcast use vstd::string::group_string_axioms;

/// The UTF-8 encoding of `c`.
pub open spec fn utf8_bytes(c: char) -> Seq<u8> {
    let n = c as u32 as int;
    if n < 0x80 {
        seq![n as u8]
    } else if n < 0x800 {
        seq![(0xC0 + n / 64) as u8, (0x80 + n % 64) as u8]
    } else if n < 0x10000 {
        seq![(0xE0 + n / 4096) as u8, (0x80 + (n / 64) % 64) as u8, (0x80 + n % 64) as u8]
    } else {
        seq![(0xF0 + n / 262144) as u8, (0x80 + (n / 4096) % 64) as u8, (0x80 + (n / 64) % 64) as u8, (0x80 + n % 64) as u8]
    }
}

/// The UTF-8 encoding of `s`.
pub open spec fn utf8(s: Seq<char>) -> Seq<u8>
    decreases s.len(),
{
    if s.len() == 0 {
        Seq::empty()
    } else {
        utf8(s.drop_last()) + utf8_bytes(s.last())
    }
}

/// The 32-bit FNV-1a hash of `bytes`, from the offset basis.
pub open spec fn fnv1a(bytes: Seq<u8>) -> u32
    decreases bytes.len(),
{
    if bytes.len() == 0 {
        2166136261
    } else {
        (((fnv1a(bytes.drop_last()) ^ (bytes.last() as u32)) as int * 16777619) % 0x1_0000_0000) as u32
    }
}

/// The UTF-8 encoding of one character.
pub(crate) fn encode_char(c: char) -> (r: Vec<u8>)
    ensures
        r@ == utf8_bytes(c),
{
    let n = c as u32;
    let mut r: Vec<u8> = Vec::new();
    if n < 0x80 {
        r.push(n as u8);
    } else if n < 0x800 {
        r.push((0xC0 + n / 64) as u8);
        r.push((0x80 + n % 64) as u8);
    } else if n < 0x10000 {
        r.push((0xE0 + n / 4096) as u8);
        r.push((0x80 + (n / 64) % 64) as u8);
        r.push((0x80 + n % 64) as u8);
    } else {
        assert(n <= 0x10FFFF);
        r.push((0xF0 + n / 262144) as u8);
        r.push((0x80 + (n / 4096) % 64) as u8);
        r.push((0x80 + (n / 64) % 64) as u8);
        r.push((0x80 + n % 64) as u8);
    }
    assert(r@ =~= utf8_bytes(c));
    r
}

/// The FNV-1a hash of the UTF-8 text of `s`.
fn fnv1a32(s: &str) -> (r: u32)
    ensures
        r == fnv1a(utf8(s@)),
{
    let v = chars_of(s);
    let mut hash: u32 = 2166136261;
    let mut i: usize = 0;
    while i < v.len()
        invariant
            i <= v.len(),
            v@ == s@,
            hash == fnv1a(utf8(v@.take(i as int))),
        decreases v.len() - i,
    {
        let bytes = encode_char(v[i]);
        let ghost before = utf8(v@.take(i as int));
        let mut k: usize = 0;
        while k < bytes.len()
            invariant
                k <= bytes.len(),
                hash == fnv1a(before + bytes@.take(k as int)),
            decreases bytes.len() - k,
        {
            let ghost prefix = before + bytes@.take(k as int);
            hash = (hash ^ bytes[k] as u32).wrapping_mul(16777619);
            proof {
                let next = before + bytes@.take(k + 1);
                assert(next.drop_last() =~= prefix);
                assert(next.last() == bytes@[k as int]);
            }
            k += 1;
        }
        proof {
            assert(bytes@.take(k as int) =~= bytes@);
            assert(v@.take(i + 1).drop_last() =~= v@.take(i as int));
        }
        i += 1;
    }
    assert(v@.take(i as int) =~= s@);
    hash
}

/// Whether `link` parses and is more than a fragment of the page.
pub open spec fn hyperlinkable(link: Seq<char>) -> bool {
    match parse_spec(link) {
        Ok(u) => seq!['#'] + u.fragment != link,
        Err(_) => false,
    }
}

/// The OSC 8 sequence that opens a hyperlink to `link`, its id the FNV-1a
/// hash of the link.
pub open spec fn hyperlink_open(link: Seq<char>) -> Seq<char> {
    "\u{1b}]8;id="@ + decimal(fnv1a(utf8(link)) as nat) + seq![';'] + link + seq!['\u{7}']
}

/// Builds the OSC 8 open/close pair for a URL, and whether it is one: a
/// link that does not parse, or is only a fragment, is not hyperlinked.
pub fn make_hyperlink(link: &str) -> (r: (String, String, bool))
    ensures
        r.2 == hyperlinkable(link@),
        r.2 ==> r.0@ == hyperlink_open(link@) && r.1@ == "\u{1b}]8;;\u{7}"@,
        !r.2 ==> r.0@.len() == 0 && r.1@.len() == 0,
{
    let valid = match Url::parse(link) {
        Ok(u) => {
            let mut f: Vec<char> = Vec::new();
            f.push('#');
            extend_str(&mut f, u.fragment());
            !crate::text::eq_str(&f, link)
        },
        Err(_) => false,
    };
    if !valid {
        proof {
            reveal_strlit("");
        }
        return (String::new(), String::new(), false);
    }
    let id = fnv1a32(link);
    let mut open: Vec<char> = Vec::new();
    extend_str(&mut open, "\u{1b}]8;id=");
    let digits = decimal_of(id as u64);
    extend_chars(&mut open, &digits);
    open.push(';');
    extend_str(&mut open, link);
    open.push('\u{7}');
    (string_of(&open), "\u{1b}]8;;\u{7}".to_owned(), true)
}

/// The host of a URL, or `link` when it does not parse.
pub fn link_domain(href: &str) -> (r: String)
    ensures
        r@ == match parse_spec(href@) {
            Ok(u) => hostname_spec(u.host),
            Err(_) => "link"@,
        },
{
    match Url::parse(href) {
        Ok(u) => u.hostname(),
        Err(_) => "link".to_owned(),
    }
}

/// Resolves `rel` against `base`, leaving absolute URLs alone.
pub fn resolve_relative_url(base: &str, rel: &str) -> (r: String)
    ensures
        r@ == resolve_reference_spec(base@, rel@),
{
    resolve_reference(base, rel)
}

/// The characters a backslash escapes in markdown.
pub open spec fn escapable(c: char) -> bool {
    "\\`*_{}[]<>()#+-.!|"@.contains(c)
}

/// `s` with each backslash before an escapable character dropped.
pub open spec fn unescape_spec(s: Seq<char>) -> Seq<char>
    decreases s.len(),
{
    if s.len() == 0 {
        s
    } else if s.len() >= 2 && s[0] == '\\' && escapable(s[1]) {
        seq![s[1]] + unescape_spec(s.skip(2))
    } else {
        seq![s[0]] + unescape_spec(s.skip(1))
    }
}

/// Whether `c` is one of the characters a backslash escapes.
fn is_escapable(c: char) -> (r: bool)
    ensures
        r == escapable(c),
{
    let set = chars_of("\\`*_{}[]<>()#+-.!|");
    let mut i: usize = 0;
    while i < set.len()
        invariant
            i <= set.len(),
            set@ == "\\`*_{}[]<>()#+-.!|"@,
            forall|k: int| 0 <= k < i ==> set@[k] != c,
        decreases set.len() - i,
    {
        if set[i] == c {
            return true;
        }
        i += 1;
    }
    false
}

/// Undoes markdown backslash escapes.
pub fn unescape_markdown(s: &str) -> (r: String)
    ensures
        r@ == unescape_spec(s@),
{
    let v = chars_of(s);
    let mut out: Vec<char> = Vec::new();
    let mut i: usize = 0;
    assert(v@.skip(0) =~= s@);
    assert(out@ + unescape_spec(v@.skip(0)) =~= unescape_spec(s@));
    while i < v.len()
        invariant
            i <= v.len(),
            v@ == s@,
            out@ + unescape_spec(v@.skip(i as int)) == unescape_spec(s@),
        decreases v.len() - i,
    {
        let ghost rest = v@.skip(i as int);
        if v[i] == '\\' && i + 1 < v.len() && is_escapable(v[i + 1]) {
            out.push(v[i + 1]);
            proof {
                assert(rest.skip(2) =~= v@.skip(i + 2));
                assert(out@ + unescape_spec(v@.skip(i + 2)) =~= unescape_spec(s@));
            }
            i += 2;
        } else {
            out.push(v[i]);
            proof {
                assert(rest.skip(1) =~= v@.skip(i + 1));
                assert(out@ + unescape_spec(v@.skip(i + 1)) =~= unescape_spec(s@));
            }
            i += 1;
        }
    }
    assert(v@.skip(i as int) =~= Seq::<char>::empty());
    assert(out@ =~= unescape_spec(s@));
    string_of(&out)
}

/// Expands a `format` template; only `{{.text}}` is substituted.
pub fn format_token(format: &str, token: &str) -> (r: String)
    ensures
        r@ == replace_pat(format@, "{{.text}}"@, token@),
{
    proof {
        reveal_strlit("{{.text}}");
    }
    let out = replace_all(&chars_of(format), &chars_of("{{.text}}"), &chars_of(token));
    string_of(&out)
}

/// `s` without its tags: characters between `<` and the matching `>` are
/// dropped, nesting counted, a stray `>` ignored.
pub open spec fn strip_tags(s: Seq<char>, depth: int) -> Seq<char>
    decreases s.len(),
{
    if s.len() == 0 {
        s
    } else {
        let c = s[0];
        if c == '<' {
            strip_tags(s.skip(1), depth + 1)
        } else if c == '>' {
            strip_tags(s.skip(1), if depth > 0 { depth - 1 } else { 0 })
        } else if depth == 0 {
            seq![c] + strip_tags(s.skip(1), depth)
        } else {
            strip_tags(s.skip(1), depth)
        }
    }
}

/// What an entity's name (between `&` and `;`) stands for, among those
/// glow's documents use, and numeric ones.
pub open spec fn named_entity(inner: Seq<char>) -> Option<char> {
    if inner == "amp"@ {
        Some('&')
    } else if inner == "lt"@ {
        Some('<')
    } else if inner == "gt"@ {
        Some('>')
    } else if inner == "quot"@ {
        Some('"')
    } else if inner == "apos"@ {
        Some('\'')
    } else if inner == "nbsp"@ {
        Some('\u{00A0}')
    } else if inner == "hellip"@ {
        Some('…')
    } else if inner == "mdash"@ {
        Some('—')
    } else if inner == "ndash"@ {
        Some('–')
    } else if inner == "copy"@ {
        Some('©')
    } else if inner == "reg"@ {
        Some('®')
    } else if inner == "trade"@ {
        Some('™')
    } else {
        None
    }
}

/// Whether `code` is a Unicode scalar value.
pub open spec fn scalar(code: u32) -> bool {
    code < 0xD800 || (0xE000 <= code && code <= 0x10FFFF)
}

/// Calls `char::from_u32`.
#[verifier::external_body]
fn char_from_code(code: u32) -> (r: Option<char>)
    ensures
        r == if scalar(code) {
            Some(code as char)
        } else {
            None::<char>
        },
{
    char::from_u32(code)
}

/// The value of `c` as a digit in `radix` (10 or 16).
pub open spec fn digit_in(c: char, radix: int) -> Option<int> {
    if '0' <= c <= '9' {
        Some(c as int - 48)
    } else if radix == 16 && 'a' <= c <= 'f' {
        Some(c as int - 87)
    } else if radix == 16 && 'A' <= c <= 'F' {
        Some(c as int - 55)
    } else {
        None
    }
}

/// The value of the digits of `s` in `radix`, if all are digits.
pub open spec fn digits_in(s: Seq<char>, radix: int) -> Option<int>
    decreases s.len(),
{
    if s.len() == 0 {
        Some(0)
    } else {
        match (digits_in(s.drop_last(), radix), digit_in(s.last(), radix)) {
            (Some(a), Some(d)) => Some(a * radix + d),
            _ => None,
        }
    }
}

/// `u32::from_str_radix`: an optional `+`, at least one digit, and a
/// value that fits in 32 bits.
pub open spec fn parse_u32_spec(s: Seq<char>, radix: int) -> Option<u32> {
    let body = if s.len() > 0 && s[0] == '+' {
        s.skip(1)
    } else {
        s
    };
    if body.len() == 0 {
        None
    } else {
        match digits_in(body, radix) {
            Some(v) => if v <= u32::MAX {
                Some(v as u32)
            } else {
                None
            },
            None => None,
        }
    }
}

/// What the text of an entity between `&` and `;` stands for: a named
/// one glow knows, or a decimal (`#`) or hexadecimal (`#x`) code of a
/// Unicode scalar value.
pub open spec fn entity_spec(inner: Seq<char>) -> Option<char> {
    if inner.len() > 0 && inner[0] == '#' {
        let num = inner.skip(1);
        let code = if num.len() > 0 && (num[0] == 'x' || num[0] == 'X') {
            parse_u32_spec(num.skip(1), 16)
        } else {
            parse_u32_spec(num, 10)
        };
        match code {
            Some(c) => if scalar(c) {
                Some(c as char)
            } else {
                None
            },
            None => None,
        }
    } else {
        named_entity(inner)
    }
}

/// The position of the first `;` in `s`.
pub open spec fn first_semi(s: Seq<char>, i: int) -> Option<int>
    decreases s.len() - i,
{
    if i < 0 || i >= s.len() {
        None
    } else if s[i] == ';' {
        Some(i)
    } else {
        first_semi(s, i + 1)
    }
}

/// `s` with each entity glow knows replaced by its character: an `&`
/// up to the first `;` after it.
pub open spec fn unescape_entities_spec(s: Seq<char>) -> Seq<char>
    decreases s.len(),
{
    if s.len() == 0 {
        s
    } else {
        match first_semi(s, 0) {
            Some(e) if 0 <= e < s.len() && s[0] == '&' && entity_spec(s.subrange(1, e)) is Some => seq![
                entity_spec(s.subrange(1, e))->0,
            ] + unescape_entities_spec(s.skip(e + 1)),
            _ => seq![s[0]] + unescape_entities_spec(s.skip(1)),
        }
    }
}

/// Parses an unsigned 32-bit number in `radix`.
fn parse_u32(s: &Vec<char>, radix: u32) -> (r: Option<u32>)
    requires
        radix == 10 || radix == 16,
    ensures
        r == parse_u32_spec(s@, radix as int),
{
    let mut i: usize = 0;
    if s.len() > 0 && s[0] == '+' {
        i = 1;
    }
    let ghost body = if s@.len() > 0 && s@[0] == '+' {
        s@.skip(1)
    } else {
        s@
    };
    assert(body =~= s@.skip(i as int));
    if i >= s.len() {
        return None;
    }
    let mut v: u64 = 0;
    let start = i;
    assert(parse_u32_spec(s@, radix as int) == match digits_in(s@.skip(start as int), radix as int) {
        Some(x) => if x <= u32::MAX {
            Some(x as u32)
        } else {
            None
        },
        None => None,
    });
    while i < s.len()
        invariant
            start <= i <= s.len(),
            body =~= s@.skip(start as int),
            parse_u32_spec(s@, radix as int) == match digits_in(s@.skip(start as int), radix as int) {
                Some(x) => if x <= u32::MAX {
                    Some(x as u32)
                } else {
                    None
                },
                None => None,
            },
            radix == 10 || radix == 16,
            digits_in(s@.subrange(start as int, i as int), radix as int) == Some(v as int),
            v <= u32::MAX,
        decreases s.len() - i,
    {
        let c = s[i];
        let d: u64 = if '0' <= c && c <= '9' {
            (c as u64) - 48
        } else if radix == 16 && 'a' <= c && c <= 'f' {
            (c as u64) - 87
        } else if radix == 16 && 'A' <= c && c <= 'F' {
            (c as u64) - 55
        } else {
            proof {
                lemma_digits_fail(s@, start as int, i as int, radix as int);
                assert(s@.skip(start as int) =~= s@.subrange(start as int, s@.len() as int));
            }
            return None;
        };
        proof {
            assert(s@.subrange(start as int, i + 1).drop_last() =~= s@.subrange(start as int, i as int));
        }
        assert(v * (radix as u64) <= 0xFFFF_FFFF * 16) by (nonlinear_arith)
            requires
                v <= 0xFFFF_FFFF,
                radix <= 16,
        ;
        let next = v * (radix as u64) + d;
        if next > u32::MAX as u64 {
            proof {
                lemma_digits_grow(s@, start as int, i + 1, radix as int);
                assert(s@.skip(start as int) =~= s@.subrange(start as int, s@.len() as int));
            }
            return None;
        }
        v = next;
        i += 1;
    }
    assert(s@.subrange(start as int, i as int) =~= body);
    Some(v as u32)
}

/// A non-digit anywhere makes the whole run fail.
proof fn lemma_digits_fail(s: Seq<char>, start: int, i: int, radix: int)
    requires
        0 <= start <= i < s.len(),
        digit_in(s[i], radix) is None,
    ensures
        digits_in(s.subrange(start, s.len() as int), radix) is None,
    decreases s.len() - i,
{
    lemma_digits_none_extends(s, start, i + 1, s.len() as int, radix);
}

/// Once the digits up to `j` fail, every longer run fails.
proof fn lemma_digits_none_extends(s: Seq<char>, start: int, j: int, k: int, radix: int)
    requires
        0 <= start < j <= k <= s.len(),
        digits_in(s.subrange(start, j), radix) is None || digit_in(s[j - 1], radix) is None,
    ensures
        digits_in(s.subrange(start, k), radix) is None,
    decreases k - j,
{
    assert(s.subrange(start, j).drop_last() =~= s.subrange(start, j - 1));
    assert(s.subrange(start, j).last() == s[j - 1]);
    assert(digits_in(s.subrange(start, j), radix) is None);
    if k > j {
        assert(s.subrange(start, j + 1).drop_last() =~= s.subrange(start, j));
        assert(digits_in(s.subrange(start, j + 1), radix) is None);
        lemma_digits_none_extends(s, start, j + 1, k, radix);
    }
}

/// Once the digits up to `j` exceed 32 bits, every longer run does too.
proof fn lemma_digits_grow(s: Seq<char>, start: int, j: int, radix: int)
    requires
        0 <= start < j <= s.len(),
        radix == 10 || radix == 16,
        digits_in(s.subrange(start, j), radix) matches Some(v) && v > u32::MAX,
    ensures
        !(digits_in(s.subrange(start, s.len() as int), radix) matches Some(v) && v <= u32::MAX),
    decreases s.len() - j,
{
    if j < s.len() {
        assert(s.subrange(start, j + 1).drop_last() =~= s.subrange(start, j));
        let a = digits_in(s.subrange(start, j), radix)->0;
        match digit_in(s[j], radix) {
            Some(d) => {
                assert(a * radix + d >= a) by (nonlinear_arith)
                    requires
                        a >= 0,
                        radix >= 10,
                        d >= 0,
                ;
                lemma_digits_grow(s, start, j + 1, radix);
            },
            None => {
                lemma_digits_none_extends(s, start, j + 1, s.len() as int, radix);
            },
        }
    }
}

/// What an entity's text stands for.
fn entity_value(inner: &Vec<char>) -> (r: Option<char>)
    ensures
        r == entity_spec(inner@),
{
    if inner.len() > 0 && inner[0] == '#' {
        let num = crate::text::slice_chars(inner, 1, inner.len());
        assert(num@ =~= inner@.skip(1));
        let code = if num.len() > 0 && (num[0] == 'x' || num[0] == 'X') {
            let hex = crate::text::slice_chars(&num, 1, num.len());
            assert(hex@ =~= num@.skip(1));
            parse_u32(&hex, 16)
        } else {
            parse_u32(&num, 10)
        };
        return match code {
            Some(c) => char_from_code(c),
            None => None,
        };
    }
    if crate::text::eq_str(inner, "amp") {
        Some('&')
    } else if crate::text::eq_str(inner, "lt") {
        Some('<')
    } else if crate::text::eq_str(inner, "gt") {
        Some('>')
    } else if crate::text::eq_str(inner, "quot") {
        Some('"')
    } else if crate::text::eq_str(inner, "apos") {
        Some('\'')
    } else if crate::text::eq_str(inner, "nbsp") {
        Some('\u{00A0}')
    } else if crate::text::eq_str(inner, "hellip") {
        Some('…')
    } else if crate::text::eq_str(inner, "mdash") {
        Some('—')
    } else if crate::text::eq_str(inner, "ndash") {
        Some('–')
    } else if crate::text::eq_str(inner, "copy") {
        Some('©')
    } else if crate::text::eq_str(inner, "reg") {
        Some('®')
    } else if crate::text::eq_str(inner, "trade") {
        Some('™')
    } else {
        None
    }
}

/// Replaces each entity glow knows by its character.
pub fn unescape_entities(s: &str) -> (r: String)
    ensures
        r@ == unescape_entities_spec(s@),
{
    let v = chars_of(s);
    let mut out: Vec<char> = Vec::new();
    let mut i: usize = 0;
    assert(v@.skip(0) =~= s@);
    assert(out@ + unescape_entities_spec(v@.skip(0)) =~= unescape_entities_spec(s@));
    while i < v.len()
        invariant
            i <= v.len(),
            v@ == s@,
            out@ + unescape_entities_spec(v@.skip(i as int)) == unescape_entities_spec(s@),
        decreases v.len() - i,
    {
        let ghost rest = v@.skip(i as int);
        let mut e = i;
        while e < v.len() && v[e] != ';'
            invariant
                i <= e <= v.len(),
                rest == v@.skip(i as int),
                first_semi(rest, 0) == first_semi(rest, e - i),
            decreases v.len() - e,
        {
            e += 1;
        }
        let mut replaced = false;
        if v[i] == '&' && e < v.len() {
            let inner = crate::text::slice_chars(&v, i + 1, e);
            assert(inner@ =~= rest.subrange(1, (e - i) as int));
            match entity_value(&inner) {
                Some(c) => {
                    out.push(c);
                    proof {
                        assert(rest.skip(e - i + 1) =~= v@.skip(e + 1));
                        assert(out@ + unescape_entities_spec(v@.skip(e + 1)) =~= unescape_entities_spec(s@));
                    }
                    i = e + 1;
                    replaced = true;
                },
                None => {},
            }
        }
        if !replaced {
            proof {
                if e == v.len() {
                    assert(first_semi(rest, (e - i) as int) is None);
                }
            }
            out.push(v[i]);
            proof {
                assert(rest.skip(1) =~= v@.skip(i + 1));
                assert(out@ + unescape_entities_spec(v@.skip(i + 1)) =~= unescape_entities_spec(s@));
            }
            i += 1;
        }
    }
    assert(v@.skip(i as int) =~= Seq::<char>::empty());
    assert(out@ =~= unescape_entities_spec(s@));
    string_of(&out)
}

/// HTML made plain: tags dropped, entities replaced, and surrounding
/// white space trimmed when asked.
pub open spec fn sanitize_spec(s: Seq<char>, trim_spaces: bool) -> Seq<char> {
    let out = unescape_entities_spec(strip_tags(s, 0));
    if trim_spaces {
        trim(out)
    } else {
        out
    }
}

/// Strips tags from HTML and unescapes entities.
pub fn sanitize_html(s: &str, trim_spaces: bool) -> (r: String)
    ensures
        r@ == sanitize_spec(s@, trim_spaces),
{
    let v = chars_of(s);
    let mut out: Vec<char> = Vec::new();
    let mut depth: usize = 0;
    let mut i: usize = 0;
    assert(v@.skip(0) =~= s@);
    while i < v.len()
        invariant
            i <= v.len(),
            v@ == s@,
            depth <= i,
            out@ + strip_tags(v@.skip(i as int), depth as int) == strip_tags(s@, 0),
        decreases v.len() - i,
    {
        let c = v[i];
        let ghost rest = v@.skip(i as int);
        assert(rest.skip(1) =~= v@.skip(i + 1));
        if c == '<' {
            depth += 1;
        } else if c == '>' {
            if depth > 0 {
                depth -= 1;
            }
        } else if depth == 0 {
            out.push(c);
            assert(out@ + strip_tags(v@.skip(i + 1), depth as int) =~= strip_tags(s@, 0));
        }
        i += 1;
    }
    assert(v@.skip(i as int) =~= Seq::<char>::empty());
    assert(out@ =~= strip_tags(s@, 0));
    let plain = string_of(&out);
    let unescaped = unescape_entities(plain.as_str());
    if trim_spaces {
        let t = trim_chars(&chars_of(unescaped.as_str()));
        string_of(&t)
    } else {
        unescaped
    }
}

/// Title-cases each word: the first letter or digit after anything else
/// is upper case, the ones after it lower case.
pub open spec fn title_spec(s: Seq<char>, start: bool) -> Seq<char>
    decreases s.len(),
{
    if s.len() == 0 {
        s
    } else if is_alnum_unicode(s[0]) {
        (if start {
            char_upper(s[0])
        } else {
            char_lower(s[0])
        }) + title_spec(s.skip(1), false)
    } else {
        seq![s[0]] + title_spec(s.skip(1), true)
    }
}

/// Title-cases each word.
pub fn title_case(s: &str) -> (r: String)
    ensures
        r@ == title_spec(s@, true),
{
    let v = chars_of(s);
    let mut out: Vec<char> = Vec::new();
    let mut start = true;
    let mut i: usize = 0;
    assert(v@.skip(0) =~= s@);
    while i < v.len()
        invariant
            i <= v.len(),
            v@ == s@,
            out@ + title_spec(v@.skip(i as int), start) == title_spec(s@, true),
        decreases v.len() - i,
    {
        let c = v[i];
        let ghost rest = v@.skip(i as int);
        assert(rest.skip(1) =~= v@.skip(i + 1));
        if char_is_alphanumeric(c) {
            let mapped = if start {
                char_to_uppercase(c)
            } else {
                char_to_lowercase(c)
            };
            extend_chars(&mut out, &mapped);
            start = false;
        } else {
            out.push(c);
            start = true;
        }
        assert(out@ + title_spec(v@.skip(i + 1), start) =~= title_spec(s@, true));
        i += 1;
    }
    assert(v@.skip(i as int) =~= Seq::<char>::empty());
    assert(out@ =~= title_spec(s@, true));
    string_of(&out)
}

} // verus!
