//! URL parsing with Go `net/url` semantics: permissive relative references,
//! request-URI checks, host names, path joining and reference resolution.
use vstd::prelude::*;
use vstd::string::StringSliceAdditionalSpecFns;
use crate::text::{
    all_digits, chars_of, contains_char, debug_quoted, extend_chars, extend_str, find_char, find_char_from,
    find_from, has_char, has_prefix, has_suffix, is_ascii_alnum, is_ascii_alpha, is_control,
    is_control_char, is_digit, join, join_chars, lemma_take_push, lower_ascii, quote_debug,
    rfind_char, rfind_char_in, slice_chars, split, split_chars, string_of, to_lower_ascii,
    trim_start_char, trim_start_char_exec,
};

verus! {

broadcast use vstd::string::group_string_axioms;

/// A parse failure, carrying Go's message shape.
#[derive(Debug, Clone, PartialEq, Eq)]
pub struct ParseError(pub String);

/// The parts of a URL.
pub struct UrlModel {
    pub scheme: Seq<char>,
    pub host: Seq<char>,
    pub path: Seq<char>,
    pub raw_query: Seq<char>,
    pub fragment: Seq<char>,
    pub has_authority: bool,
}

/// A parsed URL.
#[derive(Debug, Clone, Default, PartialEq, Eq)]
pub struct Url {
    /// Scheme, without the `:`.
    pub scheme: String,
    /// Authority: host and port.
    pub host: String,
    /// Path, kept as written.
    pub path: String,
    /// Query string without the `?`.
    pub raw_query: String,
    /// Fragment without the `#`.
    pub fragment: String,
    /// Whether the URL had a `//` authority component.
    pub has_authority: bool,
}

impl View for Url {
    type V = UrlModel;

    open spec fn view(&self) -> UrlModel {
        UrlModel {
            scheme: self.scheme@,
            host: self.host@,
            path: self.path@,
            raw_query: self.raw_query@,
            fragment: self.fragment@,
            has_authority: self.has_authority,
        }
    }
}

/// Whether `s` is a scheme: `ALPHA *( ALPHA / DIGIT / "+" / "-" / "." )`.
pub open spec fn is_scheme(s: Seq<char>) -> bool {
    s.len() > 0 && is_ascii_alpha(s[0]) && forall|i: int| 1 <= i < s.len() ==> {
        let c = #[trigger] s[i];
        is_ascii_alnum(c) || c == '+' || c == '-' || c == '.'
    }
}

/// The port part of a host, if it has one.
pub open spec fn port_of(host: Seq<char>) -> Option<Seq<char>> {
    if host.len() > 0 && host[0] == '[' {
        match find_char(host, ']') {
            Some(e) => {
                let after = host.skip(e + 1);
                if after.len() > 0 && after[0] == ':' {
                    Some(after.skip(1))
                } else {
                    None
                }
            },
            None => None,
        }
    } else {
        match rfind_char(host, ':') {
            Some(i) => Some(host.skip(i + 1)),
            None => None,
        }
    }
}

/// Whether some character of `s` is a control character.
pub open spec fn has_control(s: Seq<char>) -> bool {
    exists|i: int| 0 <= i < s.len() && is_control(#[trigger] s[i])
}

/// `"parse "` followed by the quoted input and `": "`.
pub open spec fn parse_prefix(raw: Seq<char>) -> Seq<char> {
    seq!['p', 'a', 'r', 's', 'e', ' '] + debug_quoted(raw) + seq![':', ' ']
}

/// The parts of `s` before and after the first `c`, when it has one.
pub open spec fn cut_at(s: Seq<char>, c: char) -> (Seq<char>, Option<Seq<char>>) {
    match find_char(s, c) {
        Some(i) => (s.take(i), Some(s.skip(i + 1))),
        None => (s, None),
    }
}

/// `url.Parse`: accepts relative references as readily as absolute URLs.
pub open spec fn parse_spec(raw: Seq<char>) -> Result<UrlModel, Seq<char>> {
    if has_control(raw) {
        Err(parse_prefix(raw) + "net/url: invalid control character in URL"@)
    } else {
        let (r1, frag) = cut_at(raw, '#');
        let (r2, query) = cut_at(r1, '?');
        let (scheme, r3) = match find_char(r2, ':') {
            Some(i) => if is_scheme(r2.take(i)) {
                (lower_ascii(r2.take(i)), r2.skip(i + 1))
            } else {
                (Seq::empty(), r2)
            },
            None => (Seq::empty(), r2),
        };
        let auth = has_prefix(r3, seq!['/', '/']);
        let after = r3.skip(2);
        let end = match find_char(after, '/') {
            Some(e) => e,
            None => after.len() as int,
        };
        let host = if auth { after.take(end) } else { Seq::empty() };
        let path = if auth { after.skip(end) } else { r3 };
        let bad_port = match port_of(host) {
            Some(p) => p.len() > 0 && !all_digits(p),
            None => false,
        };
        if auth && bad_port {
            Err(parse_prefix(raw) + "invalid port \":"@ + port_of(host)->0 + "\" after host"@)
        } else {
            Ok(UrlModel {
                scheme,
                host,
                path,
                raw_query: match query { Some(q) => q, None => Seq::empty() },
                fragment: match frag { Some(f) => f, None => Seq::empty() },
                has_authority: auth,
            })
        }
    }
}

/// How a URL is written out.
pub open spec fn display(u: UrlModel) -> Seq<char> {
    (if u.scheme.len() > 0 { u.scheme.push(':') } else { Seq::empty() }) + (if u.has_authority
        || u.host.len() > 0 {
        seq!['/', '/'] + u.host
    } else {
        Seq::empty()
    }) + u.path + (if u.raw_query.len() > 0 {
        seq!['?'] + u.raw_query
    } else {
        Seq::empty()
    }) + (if u.fragment.len() > 0 {
        seq!['#'] + u.fragment
    } else {
        Seq::empty()
    })
}

/// The host without its port, and without IPv6 brackets.
pub open spec fn hostname_spec(host: Seq<char>) -> Seq<char> {
    if host.len() > 0 && host[0] == '[' && find_char(host.skip(1), ']') is Some {
        host.skip(1).take(find_char(host.skip(1), ']')->0)
    } else {
        match rfind_char(host, ':') {
            Some(i) => if !has_char(host.skip(i + 1), ']') {
                host.take(i)
            } else {
                host
            },
            None => host,
        }
    }
}

/// One path segment applied to the resolved stack.
pub open spec fn seg_step(stack: Seq<Seq<char>>, seg: Seq<char>) -> Seq<Seq<char>> {
    if seg.len() == 0 || seg == seq!['.'] {
        stack
    } else if seg == seq!['.', '.'] {
        if stack.len() > 0 { stack.drop_last() } else { stack }
    } else {
        stack.push(seg)
    }
}

/// Segments folded onto a stack.
pub open spec fn seg_fold(segs: Seq<Seq<char>>) -> Seq<Seq<char>>
    decreases segs.len(),
{
    if segs.len() == 0 {
        Seq::empty()
    } else {
        seg_step(seg_fold(segs.drop_last()), segs.last())
    }
}

/// Merges a reference path onto a base path and removes `.` and `..`.
pub open spec fn resolve_path(base: Seq<char>, reference: Seq<char>) -> Seq<char> {
    let full = if reference.len() == 0 {
        base
    } else if reference[0] == '/' {
        reference
    } else {
        match rfind_char(base, '/') {
            Some(i) => base.take(i + 1) + reference,
            None => reference,
        }
    };
    let trailing = has_suffix(full, seq!['/']) || has_suffix(full, seq!['/', '.'])
        || has_suffix(full, seq!['/', '.', '.']);
    let path = seq!['/'] + join(seg_fold(split(full, '/')), seq!['/']);
    if trailing && !has_suffix(path, seq!['/']) {
        path.push('/')
    } else {
        path
    }
}

/// `URL.ResolveReference`.
pub open spec fn resolve_spec(base: UrlModel, r: UrlModel) -> UrlModel {
    if r.scheme.len() > 0 {
        r
    } else if r.has_authority {
        UrlModel {
            raw_query: r.raw_query,
            fragment: r.fragment,
            host: r.host,
            has_authority: true,
            path: resolve_path(r.path, Seq::empty()),
            ..base
        }
    } else if r.path.len() == 0 {
        UrlModel {
            raw_query: if r.raw_query.len() == 0 { base.raw_query } else { r.raw_query },
            fragment: r.fragment,
            ..base
        }
    } else {
        UrlModel {
            raw_query: r.raw_query,
            fragment: r.fragment,
            path: resolve_path(base.path, r.path),
            ..base
        }
    }
}

/// Resolving a reference always gives the reference's fragment: a link to
/// `#usage` lands on `#usage` of the base document, and a link with no
/// fragment drops the base's. A fragment-only reference keeps everything
/// else of the base but the query, which it replaces only when it has one;
/// a relative reference keeps the base's scheme, and its host unless it
/// names one; an absolute one stands as it is.
pub proof fn lemma_resolve_takes_the_fragment(base: UrlModel, r: UrlModel)
    ensures
        resolve_spec(base, r).fragment == r.fragment,
        r.scheme.len() == 0 && !r.has_authority && r.path.len() == 0 ==> {
            let u = resolve_spec(base, r);
            &&& u.scheme == base.scheme
            &&& u.host == base.host
            &&& u.path == base.path
            &&& u.has_authority == base.has_authority
            &&& u.raw_query == (if r.raw_query.len() == 0 { base.raw_query } else { r.raw_query })
        },
        r.scheme.len() > 0 ==> resolve_spec(base, r) == r,
        r.scheme.len() == 0 ==> resolve_spec(base, r).scheme == base.scheme,
        r.scheme.len() == 0 && r.has_authority ==> resolve_spec(base, r).host == r.host,
        r.scheme.len() == 0 && !r.has_authority ==> resolve_spec(base, r).host == base.host
            && resolve_spec(base, r).has_authority == base.has_authority,
        r.scheme.len() == 0 && r.path.len() > 0 ==> resolve_spec(base, r).raw_query == r.raw_query,
{
}

/// `URL.JoinPath`.
pub open spec fn join_path_spec(u: UrlModel, elems: Seq<char>) -> UrlModel {
    let p = if !has_suffix(u.path, seq!['/']) && elems.len() > 0 { u.path.push('/') } else { u.path };
    UrlModel { path: p + trim_start_char(elems, '/'), ..u }
}

fn has_control_exec(v: &Vec<char>) -> (r: bool)
    ensures
        r == has_control(v@),
{
    let mut i: usize = 0;
    while i < v.len()
        invariant
            i <= v.len(),
            forall|j: int| 0 <= j < i ==> !is_control(#[trigger] v@[j]),
        decreases v.len() - i,
    {
        if is_control_char(v[i]) {
            return true;
        }
        i += 1;
    }
    false
}

fn is_scheme_exec(v: &Vec<char>) -> (r: bool)
    ensures
        r == is_scheme(v@),
{
    if v.len() == 0 {
        return false;
    }
    let c0 = v[0];
    if !(('a' <= c0 && c0 <= 'z') || ('A' <= c0 && c0 <= 'Z')) {
        return false;
    }
    let mut i: usize = 1;
    while i < v.len()
        invariant
            1 <= i <= v.len(),
            forall|j: int| 1 <= j < i ==> {
                let c = #[trigger] v@[j];
                is_ascii_alnum(c) || c == '+' || c == '-' || c == '.'
            },
        decreases v.len() - i,
    {
        let c = v[i];
        let ok = ('a' <= c && c <= 'z') || ('A' <= c && c <= 'Z') || ('0' <= c && c <= '9')
            || c == '+' || c == '-' || c == '.';
        if !ok {
            return false;
        }
        i += 1;
    }
    true
}

pub(crate) fn cut_at_exec(v: &Vec<char>, c: char) -> (r: (Vec<char>, Option<Vec<char>>))
    ensures
        r.0@ == cut_at(v@, c).0,
        r.1 matches Some(a) ==> cut_at(v@, c).1 == Some(a@),
        r.1 is None ==> cut_at(v@, c).1 is None,
{
    match find_char_from(v, c, 0) {
        Some(i) => {
            assert(i < v.len());
            (slice_chars(v, 0, i), Some(slice_chars(v, i + 1, v.len())))
        },
        None => (slice_chars(v, 0, v.len()), None),
    }
}

fn all_digits_exec(v: &Vec<char>) -> (r: bool)
    ensures
        r == all_digits(v@),
{
    let mut i: usize = 0;
    while i < v.len()
        invariant
            i <= v.len(),
            forall|k: int| 0 <= k < i ==> is_digit(#[trigger] v@[k]),
        decreases v.len() - i,
    {
        if !('0' <= v[i] && v[i] <= '9') {
            return false;
        }
        i += 1;
    }
    true
}

fn port_of_exec(host: &Vec<char>) -> (r: Option<Vec<char>>)
    ensures
        r matches Some(p) ==> port_of(host@) == Some(p@),
        r is None ==> port_of(host@) is None,
{
    if host.len() > 0 && host[0] == '[' {
        match find_char_from(host, ']', 0) {
            Some(e) => {
                let after = slice_chars(host, e + 1, host.len());
                assert(after@ =~= host@.skip(e + 1));
                if after.len() > 0 && after[0] == ':' {
                    let p = slice_chars(&after, 1, after.len());
                    assert(p@ =~= after@.skip(1));
                    Some(p)
                } else {
                    None
                }
            },
            None => None,
        }
    } else {
        match rfind_char_in(host, ':') {
            Some(i) => {
                assert(i < host.len());
                let p = slice_chars(host, i + 1, host.len());
                assert(p@ =~= host@.skip(i + 1));
                Some(p)
            },
            None => None,
        }
    }
}

fn lit(s: &str) -> (r: Vec<char>)
    ensures
        r@ == s@,
{
    chars_of(s)
}

fn prefix_msg(raw: &Vec<char>) -> (r: Vec<char>)
    ensures
        r@ == parse_prefix(raw@),
{
    let mut m: Vec<char> = Vec::new();
    m.push('p');
    m.push('a');
    m.push('r');
    m.push('s');
    m.push('e');
    m.push(' ');
    let q = quote_debug(raw);
    extend_chars(&mut m, &q);
    m.push(':');
    m.push(' ');
    assert(m@ =~= parse_prefix(raw@));
    m
}

impl Url {
    /// Parses a URL, accepting relative references as Go's `url.Parse` does.
    pub fn parse_chars(raw: &Vec<char>) -> (r: Result<Url, ParseError>)
        ensures
            r matches Ok(u) ==> parse_spec(raw@) == Ok::<UrlModel, Seq<char>>(u@),
            r matches Err(e) ==> parse_spec(raw@) == Err::<UrlModel, Seq<char>>(e.0@),
    {
        if has_control_exec(raw) {
            let mut m = prefix_msg(raw);
            extend_str(&mut m, "net/url: invalid control character in URL");
            return Err(ParseError(string_of(&m)));
        }
        let (r1, frag) = cut_at_exec(raw, '#');
        let (r2, query) = cut_at_exec(&r1, '?');
        let mut scheme: Vec<char> = Vec::new();
        let mut r3 = slice_chars(&r2, 0, r2.len());
        assert(r3@ =~= r2@);
        match find_char_from(&r2, ':', 0) {
            Some(i) => {
                let cand = slice_chars(&r2, 0, i);
                if is_scheme_exec(&cand) {
                    scheme = to_lower_ascii(&cand);
                    r3 = slice_chars(&r2, i + 1, r2.len());
                }
            },
            None => {},
        }
        let auth = r3.len() >= 2 && r3[0] == '/' && r3[1] == '/';
        proof {
            if r3@.len() >= 2 {
                if auth {
                    assert(r3@.take(2) =~= seq!['/', '/']);
                } else {
                    assert(r3@.take(2)[0] == r3@[0]);
                    assert(r3@.take(2)[1] == r3@[1]);
                }
            }
        }
        let mut host: Vec<char> = Vec::new();
        let mut path = slice_chars(&r3, 0, r3.len());
        assert(path@ =~= r3@);
        if auth {
            let after = slice_chars(&r3, 2, r3.len());
            assert(after@ =~= r3@.skip(2));
            let end = match find_char_from(&after, '/', 0) {
                Some(e) => e,
                None => after.len(),
            };
            host = slice_chars(&after, 0, end);
            path = slice_chars(&after, end, after.len());
            assert(path@ =~= after@.skip(end as int));
            match port_of_exec(&host) {
                Some(p) => {
                    if p.len() > 0 && !all_digits_exec(&p) {
                        let mut m = prefix_msg(raw);
                        extend_str(&mut m, "invalid port \":");
                        extend_chars(&mut m, &p);
                        extend_str(&mut m, "\" after host");
                        return Err(ParseError(string_of(&m)));
                    }
                },
                None => {},
            }
        }
        let q = match query {
            Some(q) => q,
            None => Vec::new(),
        };
        let f = match frag {
            Some(f) => f,
            None => Vec::new(),
        };
        Ok(Url {
            scheme: string_of(&scheme),
            host: string_of(&host),
            path: string_of(&path),
            raw_query: string_of(&q),
            fragment: string_of(&f),
            has_authority: auth,
        })
    }

    /// Parses a URL, accepting relative references as Go's `url.Parse` does.
    pub fn parse(raw: &str) -> (r: Result<Url, ParseError>)
        ensures
            r matches Ok(u) ==> parse_spec(raw@) == Ok::<UrlModel, Seq<char>>(u@),
            r matches Err(e) ==> parse_spec(raw@) == Err::<UrlModel, Seq<char>>(e.0@),
    {
        let v = chars_of(raw);
        Url::parse_chars(&v)
    }

    /// Parses an absolute URL or an absolute path, as `url.ParseRequestURI`
    /// does: a relative path or any fragment is refused.
    pub fn parse_request_uri(raw: &str) -> (r: Result<Url, ParseError>)
        ensures
            r matches Ok(u) ==> parse_spec(raw@) == Ok::<UrlModel, Seq<char>>(u@) && (u@.scheme.len()
                > 0 || has_prefix(u@.path, seq!['/'])) && u@.fragment.len() == 0 && !has_char(raw@, '#'),
            r is Err ==> (match parse_spec(raw@) {
                Ok(u) => !((u.scheme.len() > 0 || has_prefix(u.path, seq!['/'])) && u.fragment.len() == 0
                    && !has_char(raw@, '#')),
                Err(_) => true,
            }),
            r is Ok <==> (parse_spec(raw@) matches Ok(u) && (u.scheme.len() > 0 || has_prefix(u.path, seq!['/']))
                && !has_char(raw@, '#')),
    {
        proof {
            if !has_char(raw@, '#') {
                crate::text::lemma_find_from_none(raw@, '#', 0);
            }
        }
        let v = chars_of(raw);
        let u = Url::parse_chars(&v)?;
        let path = chars_of(u.path.as_str());
        let scheme_empty = u.scheme.as_str().is_empty();
        let frag_empty = u.fragment.as_str().is_empty();
        let abs_path = path.len() > 0 && path[0] == '/';
        proof {
            if path@.len() > 0 {
                if abs_path {
                    assert(path@.take(1) =~= seq!['/']);
                } else {
                    assert(path@.take(1)[0] == path@[0]);
                }
            }
        }
        if (scheme_empty && !abs_path) || !frag_empty || contains_char(&v, '#') {
            let mut m = prefix_msg(&v);
            extend_str(&mut m, "invalid URI for request");
            return Err(ParseError(string_of(&m)));
        }
        Ok(u)
    }

    /// The host without its port, and without IPv6 brackets.
    pub fn hostname(&self) -> (r: String)
        ensures
            r@ == hostname_spec(self.host@),
    {
        let host = chars_of(self.host.as_str());
        if host.len() > 0 && host[0] == '[' {
            let stripped = slice_chars(&host, 1, host.len());
            assert(stripped@ =~= host@.skip(1));
            match find_char_from(&stripped, ']', 0) {
                Some(i) => {
                    let h = slice_chars(&stripped, 0, i);
                    return string_of(&h);
                },
                None => {},
            }
        }
        match rfind_char_in(&host, ':') {
            Some(i) => {
                assert(i < host.len());
                let tail = slice_chars(&host, i + 1, host.len());
                assert(tail@ =~= host@.skip(i + 1));
                if !contains_char(&tail, ']') {
                    let h = slice_chars(&host, 0, i);
                    string_of(&h)
                } else {
                    string_of(&host)
                }
            },
            None => string_of(&host),
        }
    }

    /// The fragment, without its `#`.
    pub fn fragment(&self) -> (r: &str)
        ensures
            r@ == self.fragment@,
    {
        self.fragment.as_str()
    }

    /// True when the URL carries a scheme.
    pub fn is_abs(&self) -> (r: bool)
        ensures
            r == (self.scheme@.len() > 0),
    {
        !self.scheme.as_str().is_empty()
    }

    fn copy(&self) -> (r: Url)
        ensures
            r@ == self@,
    {
        Url {
            scheme: self.scheme.clone(),
            host: self.host.clone(),
            path: self.path.clone(),
            raw_query: self.raw_query.clone(),
            fragment: self.fragment.clone(),
            has_authority: self.has_authority,
        }
    }

    /// Appends path elements, as `URL.JoinPath` does.
    pub fn join_path(&self, elems: &str) -> (r: Url)
        ensures
            r@ == join_path_spec(self@, elems@),
    {
        let mut u = self.copy();
        let mut path = chars_of(self.path.as_str());
        let e = chars_of(elems);
        let ends = path.len() > 0 && path[path.len() - 1] == '/';
        proof {
            if path@.len() > 0 {
                if ends {
                    assert(path@.skip(path@.len() - 1) =~= seq!['/']);
                } else {
                    assert(path@.skip(path@.len() - 1)[0] == path@[path@.len() - 1]);
                }
            }
        }
        if !ends && e.len() > 0 {
            path.push('/');
        }
        let t = trim_start_char_exec(&e, '/');
        extend_chars(&mut path, &t);
        u.path = string_of(&path);
        u
    }

    /// Resolves `reference` against this URL, as `URL.ResolveReference` does.
    pub fn resolve_reference(&self, reference: &Url) -> (r: Url)
        ensures
            r@ == resolve_spec(self@, reference@),
    {
        if reference.is_abs() {
            return reference.copy();
        }
        let mut out = self.copy();
        out.raw_query = reference.raw_query.clone();
        out.fragment = reference.fragment.clone();
        if reference.has_authority {
            out.host = reference.host.clone();
            out.has_authority = true;
            let p = chars_of(reference.path.as_str());
            let empty: Vec<char> = Vec::new();
            let rp = resolve_path_exec(&p, &empty);
            out.path = string_of(&rp);
            return out;
        }
        if reference.path.as_str().is_empty() {
            if reference.raw_query.as_str().is_empty() {
                out.raw_query = self.raw_query.clone();
            }
            return out;
        }
        let b = chars_of(self.path.as_str());
        let p = chars_of(reference.path.as_str());
        let rp = resolve_path_exec(&b, &p);
        out.path = string_of(&rp);
        out
    }

    /// The URL written out.
    pub fn to_string(&self) -> (r: String)
        ensures
            r@ == display(self@),
    {
        let mut v: Vec<char> = Vec::new();
        if !self.scheme.as_str().is_empty() {
            extend_str(&mut v, self.scheme.as_str());
            v.push(':');
        }
        if self.has_authority || !self.host.as_str().is_empty() {
            v.push('/');
            v.push('/');
            extend_str(&mut v, self.host.as_str());
        }
        extend_str(&mut v, self.path.as_str());
        if !self.raw_query.as_str().is_empty() {
            v.push('?');
            extend_str(&mut v, self.raw_query.as_str());
        }
        if !self.fragment.as_str().is_empty() {
            v.push('#');
            extend_str(&mut v, self.fragment.as_str());
        }
        assert(v@ =~= display(self@));
        string_of(&v)
    }
}

fn suffix_is(v: &Vec<char>, s: &Vec<char>) -> (r: bool)
    ensures
        r == has_suffix(v@, s@),
{
    if s.len() > v.len() {
        return false;
    }
    let at = v.len() - s.len();
    let r = crate::text::has_prefix_at(v, at, s);
    assert(v@.skip(at as int).take(s@.len() as int) =~= v@.skip(at as int));
    r
}

fn resolve_path_exec(base: &Vec<char>, reference: &Vec<char>) -> (r: Vec<char>)
    ensures
        r@ == resolve_path(base@, reference@),
{
    let full: Vec<char> = if reference.len() == 0 {
        slice_chars(base, 0, base.len())
    } else if reference[0] == '/' {
        slice_chars(reference, 0, reference.len())
    } else {
        match rfind_char_in(base, '/') {
            Some(i) => {
                assert(i < base.len());
                let mut f = slice_chars(base, 0, i + 1);
                extend_chars(&mut f, reference);
                f
            },
            None => slice_chars(reference, 0, reference.len()),
        }
    };
    assert(base@.subrange(0, base@.len() as int) =~= base@);
    assert(reference@.subrange(0, reference@.len() as int) =~= reference@);
    let mut s1: Vec<char> = Vec::new();
    s1.push('/');
    let mut s2: Vec<char> = Vec::new();
    s2.push('/');
    s2.push('.');
    let mut s3: Vec<char> = Vec::new();
    s3.push('/');
    s3.push('.');
    s3.push('.');
    assert(s1@ =~= seq!['/']);
    assert(s2@ =~= seq!['/', '.']);
    assert(s3@ =~= seq!['/', '.', '.']);
    let trailing = suffix_is(&full, &s1) || suffix_is(&full, &s2) || suffix_is(&full, &s3);
    let segs = split_chars(&full, '/');
    let ghost views = segs@.map_values(|q: Vec<char>| q@);
    let mut stack: Vec<Vec<char>> = Vec::new();
    let mut i: usize = 0;
    assert(views.take(0) =~= Seq::<Seq<char>>::empty());
    while i < segs.len()
        invariant
            i <= segs.len(),
            views == segs@.map_values(|q: Vec<char>| q@),
            stack@.map_values(|q: Vec<char>| q@) == seg_fold(views.take(i as int)),
        decreases segs.len() - i,
    {
        assert(views.take(i + 1).drop_last() =~= views.take(i as int));
        assert(views[i as int] == segs@[i as int]@);
        let seg = &segs[i];
        let ghost before = stack@.map_values(|q: Vec<char>| q@);
        let is_dot = seg.len() == 1 && seg[0] == '.';
        let is_dotdot = seg.len() == 2 && seg[0] == '.' && seg[1] == '.';
        proof {
            if is_dot {
                assert(seg@ =~= seq!['.']);
            }
            if is_dotdot {
                assert(seg@ =~= seq!['.', '.']);
            }
            if seg@ == seq!['.'] {
                assert(seg@.len() == 1 && seg@[0] == '.');
            }
            if seg@ == seq!['.', '.'] {
                assert(seg@.len() == 2 && seg@[0] == '.' && seg@[1] == '.');
            }
        }
        if seg.len() == 0 || is_dot {
        } else if is_dotdot {
            if stack.len() > 0 {
                stack.pop();
                assert(stack@.map_values(|q: Vec<char>| q@) =~= before.drop_last());
            }
        } else {
            let c = slice_chars(seg, 0, seg.len());
            stack.push(c);
            assert(c@ =~= seg@);
            assert(stack@.map_values(|q: Vec<char>| q@) =~= before.push(seg@));
        }
        i += 1;
    }
    assert(views.take(segs.len() as int) =~= views);
    let mut path: Vec<char> = Vec::new();
    path.push('/');
    let joined = join_chars(&stack, &s1);
    extend_chars(&mut path, &joined);
    let ends = suffix_is(&path, &s1);
    if trailing && !ends {
        path.push('/');
    }
    path
}

/// Resolves `rel` against `base`, as a document's relative links are: an
/// absolute or unparseable reference is returned unchanged, and a leading `/`
/// on the reference is ignored.
pub open spec fn resolve_reference_spec(base: Seq<char>, rel: Seq<char>) -> Seq<char> {
    match parse_spec(rel) {
        Err(_) => rel,
        Ok(u) => if u.scheme.len() > 0 {
            rel
        } else {
            match parse_spec(base) {
                Err(_) => rel,
                Ok(b) => display(resolve_spec(b, UrlModel { path: trim_start_char(u.path, '/'), ..u })),
            }
        },
    }
}

/// Resolves `rel` against `base`.
pub fn resolve_reference(base: &str, rel: &str) -> (r: String)
    ensures
        r@ == resolve_reference_spec(base@, rel@),
{
    let mut u = match Url::parse(rel) {
        Ok(u) => u,
        Err(_) => {
            return string_of(&chars_of(rel));
        },
    };
    if u.is_abs() {
        return string_of(&chars_of(rel));
    }
    let p = chars_of(u.path.as_str());
    let t = trim_start_char_exec(&p, '/');
    u.path = string_of(&t);
    let b = match Url::parse(base) {
        Ok(b) => b,
        Err(_) => {
            return string_of(&chars_of(rel));
        },
    };
    b.resolve_reference(&u).to_string()
}

/// Whether a byte is left as is by query escaping.
pub open spec fn unreserved(b: u8) -> bool {
    (65 <= b <= 90) || (97 <= b <= 122) || (48 <= b <= 57) || b == 45 || b == 95 || b == 46 || b
        == 126
}

/// An upper-case hex digit.
pub open spec fn hex_upper(d: u8) -> char {
    if d < 10 {
        (d + 48) as char
    } else {
        (d + 55) as char
    }
}

/// One byte of a query-escaped string.
pub open spec fn escape_byte(b: u8) -> Seq<char> {
    if unreserved(b) {
        seq![b as char]
    } else if b == 32 {
        seq!['+']
    } else {
        seq!['%', hex_upper(b / 16), hex_upper(b % 16)]
    }
}

/// Query escaping of a byte string.
pub open spec fn query_escape_spec(bytes: Seq<u8>) -> Seq<char>
    decreases bytes.len(),
{
    if bytes.len() == 0 {
        Seq::empty()
    } else {
        query_escape_spec(bytes.drop_last()) + escape_byte(bytes.last())
    }
}

fn hex_upper_exec(d: u8) -> (r: char)
    requires
        d < 16,
    ensures
        r == hex_upper(d),
{
    if d < 10 {
        (d + 48) as char
    } else {
        (d + 55) as char
    }
}

/// Percent-encodes a string's UTF-8 bytes for use in a query.
pub fn query_escape(s: &str) -> (r: String)
    ensures
        r@ == query_escape_spec(s.spec_bytes()),
{
    let bytes = s.as_bytes();
    let mut out: Vec<char> = Vec::new();
    let mut i: usize = 0;
    while i < bytes.len()
        invariant
            i <= bytes@.len(),
            bytes@ == s.spec_bytes(),
            out@ == query_escape_spec(bytes@.take(i as int)),
        decreases bytes.len() - i,
    {
        let b = bytes[i];
        assert(bytes@.take(i + 1).drop_last() =~= bytes@.take(i as int));
        assert(bytes@.take(i + 1).last() == b);
        if (65 <= b && b <= 90) || (97 <= b && b <= 122) || (48 <= b && b <= 57) || b == 45 || b
            == 95 || b == 46 || b == 126 {
            out.push(b as char);
        } else if b == 32 {
            out.push('+');
        } else {
            out.push('%');
            out.push(hex_upper_exec(b / 16));
            out.push(hex_upper_exec(b % 16));
        }
        i += 1;
    }
    assert(bytes@.take(bytes@.len() as int) =~= bytes@);
    string_of(&out)
}

/// `filepath.Dir` on a slash-separated path.
pub open spec fn dir_spec(path: Seq<char>) -> Seq<char> {
    match rfind_char(path, '/') {
        Some(i) => if i == 0 { seq!['/'] } else { path.take(i) },
        None => seq!['.'],
    }
}

/// The directory part of a path.
pub fn dir(path: &str) -> (r: String)
    ensures
        r@ == dir_spec(path@),
{
    let v = chars_of(path);
    let mut out: Vec<char> = Vec::new();
    match rfind_char_in(&v, '/') {
        Some(i) => {
            assert(i < v.len());
            if i == 0 {
                out.push('/');
            } else {
                out = slice_chars(&v, 0, i);
            }
        },
        None => {
            out.push('.');
        },
    }
    proof {
        if out@.len() == 1 {
        }
    }
    assert(out@ =~= dir_spec(path@));
    string_of(&out)
}

} // verus!
