//! POSIX shell field splitting, as used to split a pager command: single
//! quotes, double quotes, backslash escapes and parameter expansion, with the
//! result of an unquoted expansion split on `IFS` whitespace.
use vstd::prelude::*;
use crate::text::{chars_of, eq_str, is_ascii_alnum, is_ascii_alpha, slice_chars, string_of};

verus! {

broadcast use vstd::string::group_string_axioms;

/// Why a command line could not be split.
#[derive(Debug, Clone, PartialEq, Eq)]
pub struct SyntaxError(pub String);

/// The fields so far, the field being built, and whether anything at all
/// has been written to it (an empty quoted string is still a field).
pub type SplitState = (Seq<Seq<char>>, Seq<char>, bool);

/// The value of variable `name`: the first entry for it, or empty when unset.
pub open spec fn env_lookup(env: Seq<(Seq<char>, Seq<char>)>, name: Seq<char>) -> Seq<char>
    decreases env.len(),
{
    if env.len() == 0 {
        Seq::empty()
    } else if env[0].0 == name {
        env[0].1
    } else {
        env_lookup(env.drop_first(), name)
    }
}

/// Closing the current field, if one was started.
pub open spec fn flush(st: SplitState) -> SplitState {
    if st.2 {
        (st.0.push(st.1), Seq::empty(), false)
    } else {
        st
    }
}

/// Whether `c` is `IFS` whitespace.
pub open spec fn is_ifs(c: char) -> bool {
    c == ' ' || c == '\t' || c == '\n'
}

/// The text of an unquoted expansion added to the state: each `IFS`
/// character closes the current field, everything else extends it.
pub open spec fn split_into(v: Seq<char>, st: SplitState) -> SplitState
    decreases v.len(),
{
    if v.len() == 0 {
        st
    } else {
        let s = split_into(v.drop_last(), st);
        if is_ifs(v.last()) {
            flush(s)
        } else {
            (s.0, s.1.push(v.last()), true)
        }
    }
}

/// Where the first `}` from `j` on is.
pub open spec fn brace_end(c: Seq<char>, j: int) -> Option<int>
    decreases c.len() - j,
{
    if j < 0 || j >= c.len() {
        None
    } else if c[j] == '}' {
        Some(j)
    } else {
        brace_end(c, j + 1)
    }
}

/// Where the variable name that continues at `j` ends.
pub open spec fn name_end(c: Seq<char>, j: int) -> int
    decreases c.len() - j,
{
    if 0 <= j < c.len() && (is_ascii_alnum(c[j]) || c[j] == '_') {
        name_end(c, j + 1)
    } else {
        j
    }
}

/// The parameter reference at `i` (on a `$`) expanded, and where the text
/// goes on. A `$` that starts no name is literal.
pub open spec fn expand_spec(c: Seq<char>, i: int, env: Seq<(Seq<char>, Seq<char>)>) -> Result<(Seq<char>, int), Seq<char>> {
    if i + 1 < c.len() && c[i + 1] == '{' {
        match brace_end(c, i + 2) {
            None => Err("reached EOF without matching { with }"@),
            Some(e) => Ok((env_lookup(env, c.subrange(i + 2, e)), e + 1)),
        }
    } else if i + 1 < c.len() && (is_ascii_alpha(c[i + 1]) || c[i + 1] == '_') {
        let e = name_end(c, i + 1);
        Ok((env_lookup(env, c.subrange(i + 1, e)), e))
    } else {
        Ok((seq!['$'], i + 1))
    }
}

/// Where the single-quoted text from `j` on ends.
pub open spec fn quote_end(c: Seq<char>, j: int) -> Option<int>
    decreases c.len() - j,
{
    if j < 0 || j >= c.len() {
        None
    } else if c[j] == '\'' {
        Some(j)
    } else {
        quote_end(c, j + 1)
    }
}

/// The double-quoted text from `j` on appended to `acc`, and where the text
/// goes on after the closing quote.
pub open spec fn dquote_spec(c: Seq<char>, j: int, env: Seq<(Seq<char>, Seq<char>)>, acc: Seq<char>) -> Result<(Seq<char>, int), Seq<char>>
    decreases c.len() - j,
{
    if j < 0 || j >= c.len() {
        Err("reached EOF without closing quote \""@)
    } else if c[j] == '"' {
        Ok((acc, j + 1))
    } else if c[j] == '\\' {
        if j + 1 < c.len() && (c[j + 1] == '$' || c[j + 1] == '`' || c[j + 1] == '"' || c[j + 1]
            == '\\') {
            dquote_spec(c, j + 2, env, acc.push(c[j + 1]))
        } else if j + 1 < c.len() && c[j + 1] == '\n' {
            dquote_spec(c, j + 2, env, acc)
        } else {
            dquote_spec(c, j + 1, env, acc.push('\\'))
        }
    } else if c[j] == '$' {
        match expand_spec(c, j, env) {
            Err(m) => Err(m),
            Ok((v, n)) => if j < n <= c.len() {
                dquote_spec(c, n, env, acc + v)
            } else {
                Err(Seq::empty())
            },
        }
    } else {
        dquote_spec(c, j + 1, env, acc.push(c[j]))
    }
}

/// Splitting the text from `i` on, given the state so far.
pub open spec fn fields_from(c: Seq<char>, i: int, env: Seq<(Seq<char>, Seq<char>)>, st: SplitState) -> Result<Seq<Seq<char>>, Seq<char>>
    decreases c.len() - i,
{
    if i < 0 || i >= c.len() {
        Ok(flush(st).0)
    } else if is_ifs(c[i]) {
        fields_from(c, i + 1, env, flush(st))
    } else if c[i] == '\'' {
        match quote_end(c, i + 1) {
            None => Err("reached EOF without closing quote '"@),
            Some(e) => if i < e < c.len() {
                fields_from(c, e + 1, env, (st.0, st.1 + c.subrange(i + 1, e), true))
            } else {
                Err(Seq::empty())
            },
        }
    } else if c[i] == '"' {
        match dquote_spec(c, i + 1, env, st.1) {
            Err(m) => Err(m),
            Ok((cur, n)) => if i < n <= c.len() {
                fields_from(c, n, env, (st.0, cur, true))
            } else {
                Err(Seq::empty())
            },
        }
    } else if c[i] == '\\' {
        if i + 1 >= c.len() {
            Err("reached EOF without closing quote \\"@)
        } else if c[i + 1] == '\n' {
            fields_from(c, i + 2, env, (st.0, st.1, true))
        } else {
            fields_from(c, i + 2, env, (st.0, st.1.push(c[i + 1]), true))
        }
    } else if c[i] == '$' {
        match expand_spec(c, i, env) {
            Err(m) => Err(m),
            Ok((v, n)) => if i < n <= c.len() {
                fields_from(c, n, env, split_into(v, st))
            } else {
                Err(Seq::empty())
            },
        }
    } else {
        fields_from(c, i + 1, env, (st.0, st.1.push(c[i]), true))
    }
}

/// `s.split` on `IFS` whitespace, folded over a prefix: the finished
/// pieces and the piece being read.
pub open spec fn ifs_pieces_acc(s: Seq<char>) -> (Seq<Seq<char>>, Seq<char>)
    decreases s.len(),
{
    if s.len() == 0 {
        (Seq::empty(), Seq::empty())
    } else {
        let (done, cur) = ifs_pieces_acc(s.drop_last());
        if is_ifs(s.last()) {
            (done.push(cur), Seq::empty())
        } else {
            (done, cur.push(s.last()))
        }
    }
}

/// The pieces of `s` between `IFS` characters, empty ones included.
pub open spec fn ifs_pieces(s: Seq<char>) -> Seq<Seq<char>> {
    ifs_pieces_acc(s).0.push(ifs_pieces_acc(s).1)
}

/// Whether a piece is non-empty.
pub open spec fn nonempty() -> spec_fn(Seq<char>) -> bool {
    |w: Seq<char>| w.len() > 0
}

/// Whether `c` holds no quote, backslash or `$`.
pub open spec fn plain(c: Seq<char>) -> bool {
    forall|i: int| 0 <= i < c.len() ==> #[trigger] c[i] != '\'' && c[i] != '"' && c[i] != '\\' && c[i] != '$'
}

proof fn lemma_split_into_plain(v: Seq<char>)
    ensures
        split_into(v, (Seq::empty(), Seq::empty(), false)) == (
            ifs_pieces_acc(v).0.filter(nonempty()),
            ifs_pieces_acc(v).1,
            ifs_pieces_acc(v).1.len() > 0,
        ),
    decreases v.len(),
{
    reveal_with_fuel(Seq::filter, 2);
    if v.len() > 0 {
        lemma_split_into_plain(v.drop_last());
        let (d, c) = ifs_pieces_acc(v.drop_last());
        assert(d.push(c).drop_last() =~= d);
        if !is_ifs(v.last()) {
            assert(c.push(v.last()).len() > 0);
        } else if c.len() == 0 {
            assert(c =~= Seq::<char>::empty());
        }
    } else {
        assert(Seq::<Seq<char>>::empty().filter(nonempty()) =~= Seq::<Seq<char>>::empty());
    }
}

proof fn lemma_split_into_append(a: Seq<char>, b: Seq<char>, st: SplitState)
    ensures
        split_into(a + b, st) == split_into(b, split_into(a, st)),
    decreases b.len(),
{
    if b.len() == 0 {
        assert(a + b =~= a);
    } else {
        lemma_split_into_append(a, b.drop_last(), st);
        assert((a + b).drop_last() =~= a + b.drop_last());
        assert((a + b).last() == b.last());
    }
}

proof fn lemma_fields_plain_from(c: Seq<char>, i: int, env: Seq<(Seq<char>, Seq<char>)>, st: SplitState)
    requires
        0 <= i <= c.len(),
        plain(c),
    ensures
        fields_from(c, i, env, st) == Ok::<Seq<Seq<char>>, Seq<char>>(flush(split_into(c.skip(i), st)).0),
    decreases c.len() - i,
{
    if i == c.len() {
        assert(c.skip(i) =~= Seq::<char>::empty());
    } else {
        let x = c[i];
        assert(x != '\'' && x != '"' && x != '\\' && x != '$');
        lemma_fields_plain_from(c, i + 1, env, split_into(seq![x], st));
        assert(c.skip(i) =~= seq![x] + c.skip(i + 1));
        lemma_split_into_append(seq![x], c.skip(i + 1), st);
        assert(seq![x].drop_last() =~= Seq::<char>::empty());
        assert(split_into(Seq::<char>::empty(), st) == st);
    }
}

/// Text with no quote, backslash or `$` is split on `IFS` whitespace alone:
/// the fields are the non-empty pieces between spaces, tabs and newlines,
/// and the environment is never consulted.
pub proof fn lemma_plain_fields_split(c: Seq<char>, env: Seq<(Seq<char>, Seq<char>)>)
    requires
        plain(c),
    ensures
        fields_from(c, 0, env, (Seq::empty(), Seq::empty(), false)) == Ok::<Seq<Seq<char>>, Seq<char>>(
            ifs_pieces(c).filter(nonempty()),
        ),
{
    lemma_fields_plain_from(c, 0, env, (Seq::empty(), Seq::empty(), false));
    assert(c.skip(0) =~= c);
    lemma_split_into_plain(c);
    let (d, cur) = ifs_pieces_acc(c);
    reveal_with_fuel(Seq::filter, 2);
    assert(d.push(cur).drop_last() =~= d);
    if cur.len() == 0 {
        assert(cur =~= Seq::<char>::empty());
    }
}

/// The view of a table of variables.
pub open spec fn env_view(env: Seq<(&str, &str)>) -> Seq<(Seq<char>, Seq<char>)> {
    env.map_values(|e: (&str, &str)| (e.0@, e.1@))
}

fn lookup_exec(env: &[(&str, &str)], name: &Vec<char>) -> (r: Vec<char>)
    ensures
        r@ == env_lookup(env_view(env@), name@),
{
    let ghost ev = env_view(env@);
    let mut i: usize = 0;
    assert(ev.skip(0) =~= ev);
    while i < env.len()
        invariant
            i <= env.len(),
            ev == env_view(env@),
            env_lookup(ev, name@) == env_lookup(ev.skip(i as int), name@),
        decreases env.len() - i,
    {
        assert(ev.skip(i as int).drop_first() =~= ev.skip(i + 1));
        assert(ev.skip(i as int)[0] == (env@[i as int].0@, env@[i as int].1@));
        if eq_str(name, env[i].0) {
            return chars_of(env[i].1);
        }
        i += 1;
    }
    Vec::new()
}

fn expand(c: &Vec<char>, i: usize, env: &[(&str, &str)]) -> (r: Result<(Vec<char>, usize), SyntaxError>)
    requires
        i < c.len(),
    ensures
        match expand_spec(c@, i as int, env_view(env@)) {
            Ok((v, n)) => r matches Ok((w, m)) && w@ == v && m as int == n && i < m <= c.len(),
            Err(e) => r matches Err(x) && x.0@ == e,
        },
{
    if i + 1 < c.len() && c[i + 1] == '{' {
        let mut j = i + 2;
        while j < c.len() && c[j] != '}'
            invariant
                i + 2 <= j <= c.len(),
                brace_end(c@, i + 2) == brace_end(c@, j as int),
            decreases c.len() - j,
        {
            j += 1;
        }
        if j >= c.len() {
            return Err(SyntaxError("reached EOF without matching { with }".to_owned()));
        }
        let name = slice_chars(c, i + 2, j);
        return Ok((lookup_exec(env, &name), j + 1));
    }
    if i + 1 < c.len() && (('a' <= c[i + 1] && c[i + 1] <= 'z') || ('A' <= c[i + 1] && c[i + 1]
        <= 'Z') || c[i + 1] == '_') {
        let mut j = i + 1;
        while j < c.len() && (('a' <= c[j] && c[j] <= 'z') || ('A' <= c[j] && c[j] <= 'Z') || (
        '0' <= c[j] && c[j] <= '9') || c[j] == '_')
            invariant
                i + 1 <= j <= c.len(),
                name_end(c@, i + 1) == name_end(c@, j as int),
            decreases c.len() - j,
        {
            j += 1;
        }
        let name = slice_chars(c, i + 1, j);
        return Ok((lookup_exec(env, &name), j));
    }
    let mut d: Vec<char> = Vec::new();
    d.push('$');
    assert(d@ =~= seq!['$']);
    Ok((d, i + 1))
}

fn dquote(c: &Vec<char>, j_start: usize, env: &[(&str, &str)], acc_start: Vec<char>) -> (r: Result<(Vec<char>, usize), SyntaxError>)
    requires
        j_start <= c.len(),
    ensures
        match dquote_spec(c@, j_start as int, env_view(env@), acc_start@) {
            Ok((v, n)) => r matches Ok((w, m)) && w@ == v && m as int == n && j_start < m <= c.len(),
            Err(e) => r matches Err(x) && x.0@ == e,
        },
{
    let mut acc = acc_start;
    let mut j = j_start;
    let ghost j0 = j as int;
    let ghost acc0 = acc@;
    while j < c.len() && c[j] != '"'
        invariant
            j_start <= j <= c.len(),
            j0 == j_start,
            acc0 == acc_start@,
            dquote_spec(c@, j0, env_view(env@), acc0) == dquote_spec(c@, j as int, env_view(env@), acc@),
        decreases c.len() - j,
    {
        if c[j] == '\\' {
            if j + 1 < c.len() && (c[j + 1] == '$' || c[j + 1] == '`' || c[j + 1] == '"' || c[j + 1]
                == '\\') {
                acc.push(c[j + 1]);
                j += 2;
            } else if j + 1 < c.len() && c[j + 1] == '\n' {
                j += 2;
            } else {
                acc.push('\\');
                j += 1;
            }
        } else if c[j] == '$' {
            let ex = expand(c, j, env);
            proof {
                assert(c@[j as int] != '\\');
                assert(c@[j as int] == '$');
            }
            match ex {
                Err(e) => {
                    return Err(e);
                },
                Ok((v, n)) => {
                    let ghost before = acc@;
                    crate::text::extend_chars(&mut acc, &v);
                    j = n;
                },
            }
        } else {
            acc.push(c[j]);
            j += 1;
        }
    }
    if j >= c.len() {
        return Err(SyntaxError("reached EOF without closing quote \"".to_owned()));
    }
    Ok((acc, j + 1))
}

/// Splits `s` into fields, expanding variables from `env`, a table of
/// names and values in which the first entry for a name counts; an unset
/// variable expands to nothing.
pub fn fields(s: &str, env: &[(&str, &str)]) -> (r: Result<Vec<String>, SyntaxError>)
    ensures
        match fields_from(s@, 0, env_view(env@), (Seq::empty(), Seq::empty(), false)) {
            Ok(fs) => r matches Ok(v) && v@.map_values(|x: String| x@) == fs,
            Err(m) => r matches Err(e) && e.0@ == m,
        },
{
    let c = chars_of(s);
    let ghost ev = env_view(env@);
    let mut out: Vec<String> = Vec::new();
    let mut cur: Vec<char> = Vec::new();
    let mut started = false;
    let mut i: usize = 0;
    proof {
        assert(out@.map_values(|x: String| x@) =~= Seq::<Seq<char>>::empty());
        assert(cur@ =~= Seq::<char>::empty());
    }
    while i < c.len()
        invariant
            i <= c.len(),
            c@ == s@,
            ev == env_view(env@),
            fields_from(s@, 0, ev, (Seq::empty(), Seq::empty(), false)) == fields_from(
                c@,
                i as int,
                ev,
                (out@.map_values(|x: String| x@), cur@, started),
            ),
        decreases c.len() - i,
    {
        let ch = c[i];
        if ch == ' ' || ch == '\t' || ch == '\n' {
            if started {
                let ghost before = out@;
                let t = string_of(&cur);
                out.push(t);
                proof {
                    assert(out@.map_values(|x: String| x@) =~= before.map_values(|x: String| x@).push(
                        t@,
                    ));
                }
                cur = Vec::new();
                started = false;
                assert(cur@ =~= Seq::<char>::empty());
            }
            i += 1;
        } else if ch == '\'' {
            let mut e = i + 1;
            while e < c.len() && c[e] != '\''
                invariant
                    i + 1 <= e <= c.len(),
                    quote_end(c@, i + 1) == quote_end(c@, e as int),
                decreases c.len() - e,
            {
                e += 1;
            }
            if e >= c.len() {
                return Err(SyntaxError("reached EOF without closing quote '".to_owned()));
            }
            let q = slice_chars(&c, i + 1, e);
            crate::text::extend_chars(&mut cur, &q);
            started = true;
            i = e + 1;
        } else if ch == '"' {
            let mut taken: Vec<char> = Vec::new();
            std::mem::swap(&mut taken, &mut cur);
            match dquote(&c, i + 1, env, taken) {
                Err(e) => {
                    return Err(e);
                },
                Ok((v, n)) => {
                    cur = v;
                    started = true;
                    i = n;
                },
            }
        } else if ch == '\\' {
            if i + 1 >= c.len() {
                return Err(SyntaxError("reached EOF without closing quote \\".to_owned()));
            }
            started = true;
            if c[i + 1] != '\n' {
                cur.push(c[i + 1]);
            }
            i += 2;
        } else if ch == '$' {
            match expand(&c, i, env) {
                Err(e) => {
                    return Err(e);
                },
                Ok((v, n)) => {
                    let mut k: usize = 0;
                    let ghost st0 = (out@.map_values(|x: String| x@), cur@, started);
                    while k < v.len()
                        invariant
                            k <= v.len(),
                            (out@.map_values(|x: String| x@), cur@, started) == split_into(
                                v@.take(k as int),
                                st0,
                            ),
                        decreases v.len() - k,
                    {
                        proof {
                            assert(v@.take(k + 1).drop_last() =~= v@.take(k as int));
                        }
                        let d = v[k];
                        if d == ' ' || d == '\t' || d == '\n' {
                            if started {
                                let ghost before = out@;
                                let t = string_of(&cur);
                                out.push(t);
                                proof {
                                    assert(out@.map_values(|x: String| x@) =~= before.map_values(
                                        |x: String| x@,
                                    ).push(t@));
                                }
                                cur = Vec::new();
                                started = false;
                                assert(cur@ =~= Seq::<char>::empty());
                            }
                        } else {
                            cur.push(d);
                            started = true;
                        }
                        k += 1;
                    }
                    assert(v@.take(v@.len() as int) =~= v@);
                    i = n;
                },
            }
        } else {
            cur.push(ch);
            started = true;
            i += 1;
        }
    }
    if started {
        let ghost before = out@;
        let t = string_of(&cur);
        out.push(t);
        proof {
            assert(out@.map_values(|x: String| x@) =~= before.map_values(|x: String| x@).push(t@));
        }
    }
    Ok(out)
}

} // verus!
