//! What a copy to the clipboard writes to the terminal: an OSC 52 sequence
//! carrying the text in standard base64.
use vstd::prelude::*;
use crate::deps::glamour::render::{encode_char, utf8, utf8_bytes};
use crate::text::{chars_of, string_of};

verus! {

broadcast use vstd::string::group_string_axioms;

/// The base64 digit for `v`, which is below 64.
pub open spec fn b64_digit(v: int) -> char {
    if v < 26 {
        (65 + v) as char
    } else if v < 52 {
        (97 + v - 26) as char
    } else if v < 62 {
        (48 + v - 52) as char
    } else if v == 62 {
        '+'
    } else {
        '/'
    }
}

/// The four digits of one group of one to three bytes, `=`-padded.
pub open spec fn b64_group(g: Seq<u8>) -> Seq<char> {
    let b1: int = if g.len() > 1 { g[1] as int } else { 0 };
    let b2: int = if g.len() > 2 { g[2] as int } else { 0 };
    let n = g[0] as int * 65536 + b1 * 256 + b2;
    seq![
        b64_digit(n / 262144),
        b64_digit((n / 4096) % 64),
        if g.len() > 1 { b64_digit((n / 64) % 64) } else { '=' },
        if g.len() > 2 { b64_digit(n % 64) } else { '=' },
    ]
}

/// Standard base64 of `d`, three bytes to four digits.
pub open spec fn base64_spec(d: Seq<u8>) -> Seq<char>
    decreases d.len(),
{
    if d.len() == 0 {
        Seq::empty()
    } else if d.len() <= 3 {
        b64_group(d)
    } else {
        b64_group(d.take(3)) + base64_spec(d.skip(3))
    }
}

/// The sequence that puts `s` on the terminal's clipboard.
pub open spec fn osc52_spec(s: Seq<char>) -> Seq<char> {
    seq!['\u{1b}', ']', '5', '2', ';', 'c', ';'] + base64_spec(utf8(s)) + seq!['\u{7}']
}

fn b64_digit_exec(v: u32) -> (c: char)
    requires
        v < 64,
    ensures
        c == b64_digit(v as int),
{
    if v < 26 {
        ((65 + v) as u8) as char
    } else if v < 52 {
        ((97 + v - 26) as u8) as char
    } else if v < 62 {
        ((48 + v - 52) as u8) as char
    } else if v == 62 {
        '+'
    } else {
        '/'
    }
}

/// Standard base64, which is what OSC 52 payloads use.
pub fn base64(data: &[u8]) -> (r: String)
    ensures
        r@ == base64_spec(data@),
{
    let d = data;
    let mut out: Vec<char> = Vec::new();
    let mut i: usize = 0;
    assert(d@.skip(0) =~= d@);
    assert(out@ + base64_spec(d@) =~= base64_spec(d@));
    while i < d.len()
        invariant
            i <= d@.len(),
            out@ + base64_spec(d@.skip(i as int)) == base64_spec(d@),
        decreases d@.len() - i,
    {
        let ghost rest = d@.skip(i as int);
        let left = d.len() - i;
        let b0 = d[i] as u32;
        let b1: u32 = if left > 1 {
            d[i + 1] as u32
        } else {
            0
        };
        let b2: u32 = if left > 2 {
            d[i + 2] as u32
        } else {
            0
        };
        let n: u32 = b0 * 65536 + b1 * 256 + b2;
        let ghost before = out@;
        out.push(b64_digit_exec(n / 262144));
        out.push(b64_digit_exec((n / 4096) % 64));
        if left > 1 {
            out.push(b64_digit_exec((n / 64) % 64));
        } else {
            out.push('=');
        }
        if left > 2 {
            out.push(b64_digit_exec(n % 64));
        } else {
            out.push('=');
        }
        let step: usize = if left > 3 {
            3
        } else {
            left
        };
        proof {
            let g = rest.take(step as int);
            if left <= 3 {
                assert(g =~= rest);
            } else {
                assert(rest.skip(3) =~= d@.skip(i + 3));
            }
            assert(g.len() == step);
            assert(g[0] == d@[i as int]);
            if left > 1 {
                assert(g[1] == d@[i + 1]);
            }
            if left > 2 {
                assert(g[2] == d@[i + 2]);
            }
            assert(out@ =~= before + b64_group(g));
            if left <= 3 {
                assert(d@.skip(i + step) =~= Seq::<u8>::empty());
            }
        }
        i = i + step;
    }
    assert(d@.skip(i as int) =~= Seq::<u8>::empty());
    assert(out@ =~= base64_spec(d@));
    string_of(&out)
}

/// The UTF-8 bytes of `s`.
fn utf8_of(s: &str) -> (r: Vec<u8>)
    ensures
        r@ == utf8(s@),
{
    let v = chars_of(s);
    let mut out: Vec<u8> = Vec::new();
    let mut i: usize = 0;
    while i < v.len()
        invariant
            i <= v.len(),
            v@ == s@,
            out@ == utf8(v@.take(i as int)),
        decreases v.len() - i,
    {
        let b = encode_char(v[i]);
        let ghost before = out@;
        let mut k: usize = 0;
        while k < b.len()
            invariant
                k <= b.len(),
                out@ == before + b@.take(k as int),
            decreases b.len() - k,
        {
            out.push(b[k]);
            assert(out@ =~= before + b@.take(k + 1));
            k += 1;
        }
        proof {
            assert(b@.take(k as int) =~= b@);
            let t = v@.take(i + 1);
            assert(t.drop_last() =~= v@.take(i as int));
            assert(t.last() == v@[i as int]);
        }
        i += 1;
    }
    assert(v@.take(i as int) =~= v@);
    out
}

/// The OSC 52 sequence that writes `s` to the terminal's clipboard.
pub fn osc52_sequence(s: &str) -> (r: String)
    ensures
        r@ == osc52_spec(s@),
{
    let bytes = utf8_of(s);
    let encoded = base64(bytes.as_slice());
    let mut out: Vec<char> = Vec::new();
    out.push('\u{1b}');
    out.push(']');
    out.push('5');
    out.push('2');
    out.push(';');
    out.push('c');
    out.push(';');
    let ev = chars_of(encoded.as_str());
    let mut k: usize = 0;
    let ghost head = out@;
    while k < ev.len()
        invariant
            k <= ev.len(),
            out@ == head + ev@.take(k as int),
        decreases ev.len() - k,
    {
        out.push(ev[k]);
        assert(out@ =~= head + ev@.take(k + 1));
        k += 1;
    }
    out.push('\u{7}');
    assert(ev@.take(k as int) =~= ev@);
    assert(out@ =~= osc52_spec(s@));
    string_of(&out)
}

} // verus!
