//! The command tree glow builds on top of its own commands, and path
//! cleaning as Go's `path.Clean` does it.
use vstd::prelude::*;
use crate::deps::cobra::{effective, find_flag, new_flag, parse_flags_spec, App, Args, Command, Error, Flag, FlagSet, FlagView, ValueView};
use crate::deps::glamour::styles::NOTTY_STYLE;
use crate::deps::viper::{as_bool_spec, as_string_spec, as_uint_spec, get_spec, put, Value, ValueView as Setting, Viper, ViperView};
use crate::text::lower_case;
use crate::style::{keyword, keyword_spec, paragraph, paragraph_spec};
use crate::text::{chars_of, extend_chars, extend_str, has_prefix, join, join_chars, slice_chars, split, split_acc, split_chars, string_of};

verus! {

broadcast use vstd::string::group_string_axioms;

/// One path element applied to the cleaned elements so far.
pub open spec fn clean_step(out: Seq<Seq<char>>, part: Seq<char>, rooted: bool) -> Seq<Seq<char>> {
    if part.len() == 0 || part == seq!['.'] {
        out
    } else if part == seq!['.', '.'] {
        if out.len() > 0 && out.last() != seq!['.', '.'] {
            out.drop_last()
        } else if !rooted {
            out.push(part)
        } else {
            out
        }
    } else {
        out.push(part)
    }
}

/// The first `n` elements cleaned.
pub open spec fn clean_fold(parts: Seq<Seq<char>>, n: int, rooted: bool) -> Seq<Seq<char>>
    decreases n,
{
    if n <= 0 {
        Seq::empty()
    } else {
        clean_step(clean_fold(parts, n - 1, rooted), parts[n - 1], rooted)
    }
}

/// `path.Clean`: empty and `.` elements dropped, `..` resolved against the
/// element before it, a rooted path kept rooted, and `.` for nothing.
pub open spec fn clean_spec(path: Seq<char>) -> Seq<char> {
    let rooted = has_prefix(path, seq!['/']);
    let parts = split(path, '/');
    let joined = join(clean_fold(parts, parts.len() as int, rooted), seq!['/']);
    if rooted {
        seq!['/'] + joined
    } else if joined.len() == 0 {
        seq!['.']
    } else {
        joined
    }
}

proof fn lemma_split_acc_plain(a: Seq<char>, b: Seq<char>, sep: char)
    requires
        !b.contains(sep),
    ensures
        split_acc(a + b, sep) == (split_acc(a, sep).0, split_acc(a, sep).1 + b),
    decreases b.len(),
{
    if b.len() == 0 {
        assert(a + b =~= a);
        assert(split_acc(a, sep).1 + b =~= split_acc(a, sep).1);
    } else {
        assert(!b.drop_last().contains(sep)) by {
            if b.drop_last().contains(sep) {
                let i = choose|i: int| 0 <= i < b.drop_last().len() && b.drop_last()[i] == sep;
                assert(b[i] == sep);
            }
        }
        if b.last() == sep {
            assert(b[b.len() - 1] == sep);
        }
        lemma_split_acc_plain(a, b.drop_last(), sep);
        assert((a + b).drop_last() =~= a + b.drop_last());
        assert(b.last() == b[b.len() - 1]);
        assert((a + b).last() == b.last());
        assert(split_acc(a, sep).1 + b =~= (split_acc(a, sep).1 + b.drop_last()).push(b.last()));
    }
}

proof fn lemma_split_join(pre: Seq<char>, f: Seq<Seq<char>>)
    requires
        f.len() > 0,
        forall|i: int| 0 <= i < f.len() ==> !(#[trigger] f[i]).contains('/'),
    ensures
        split(pre + join(f, seq!['/']), '/') == split_acc(pre, '/').0 + seq![split_acc(pre, '/').1 + f[0]]
            + f.skip(1),
    decreases f.len(),
{
    let (d, c) = split_acc(pre, '/');
    if f.len() == 1 {
        lemma_split_acc_plain(pre, f[0], '/');
        assert(f.skip(1) =~= Seq::<Seq<char>>::empty());
        assert(split(pre + join(f, seq!['/']), '/') =~= d + seq![c + f[0]] + f.skip(1));
    } else {
        let g = f.drop_last();
        assert(g[0] == f[0]);
        assert forall|i: int| 0 <= i < g.len() implies !(#[trigger] g[i]).contains('/') by {
            assert(g[i] == f[i]);
        }
        lemma_split_join(pre, g);
        let x = pre + join(g, seq!['/']);
        let y = x + seq!['/'];
        assert(pre + join(f, seq!['/']) =~= y + f.last());
        assert(y.drop_last() =~= x);
        assert(split_acc(y, '/') == (split(x, '/'), Seq::<char>::empty()));
        assert(!f[f.len() - 1].contains('/'));
        lemma_split_acc_plain(y, f.last(), '/');
        assert(Seq::<char>::empty() + f.last() =~= f.last());
        assert(g.skip(1).push(f.last()) =~= f.skip(1));
        assert(split(pre + join(f, seq!['/']), '/') =~= d + seq![c + f[0]] + f.skip(1));
    }
}

proof fn lemma_split_pieces(s: Seq<char>, sep: char)
    ensures
        forall|i: int| 0 <= i < split_acc(s, sep).0.len() ==> !(#[trigger] split_acc(s, sep).0[i]).contains(sep),
        !split_acc(s, sep).1.contains(sep),
    decreases s.len(),
{
    if s.len() > 0 {
        lemma_split_pieces(s.drop_last(), sep);
        let (d, c) = split_acc(s.drop_last(), sep);
        if s.last() != sep {
            assert forall|k: int| 0 <= k < c.push(s.last()).len() implies c.push(s.last())[k] != sep by {
                if k < c.len() {
                    assert(c.push(s.last())[k] == c[k]);
                }
            }
        } else {
            assert forall|i: int| 0 <= i < d.push(c).len() implies !(#[trigger] d.push(c)[i]).contains(sep) by {
                if i < d.len() {
                    assert(d.push(c)[i] == d[i]);
                }
            }
        }
    }
}

/// Whether `f` is what cleaning leaves: no empty or `.` element, no `/`
/// inside one, and `..` only at the front of an unrooted path.
spec fn cleaned(f: Seq<Seq<char>>, rooted: bool) -> bool {
    &&& forall|i: int| 0 <= i < f.len() ==> (#[trigger] f[i]).len() > 0 && f[i] != seq!['.'] && !f[i].contains('/')
    &&& forall|i: int, j: int| 0 <= j < i < f.len() && #[trigger] f[i] == seq!['.', '.'] ==> #[trigger] f[j] == seq!['.', '.']
    &&& rooted ==> forall|i: int| 0 <= i < f.len() ==> #[trigger] f[i] != seq!['.', '.']
}

proof fn lemma_fold_cleaned(parts: Seq<Seq<char>>, n: int, rooted: bool)
    requires
        0 <= n <= parts.len(),
        forall|i: int| 0 <= i < parts.len() ==> !(#[trigger] parts[i]).contains('/'),
    ensures
        cleaned(clean_fold(parts, n, rooted), rooted),
    decreases n,
{
    if n > 0 {
        lemma_fold_cleaned(parts, n - 1, rooted);
        let out = clean_fold(parts, n - 1, rooted);
        let part = parts[n - 1];
        let r = clean_fold(parts, n, rooted);
        if part.len() == 0 || part == seq!['.'] {
        } else if part == seq!['.', '.'] {
            if out.len() > 0 && out.last() != seq!['.', '.'] {
                assert(r =~= out.drop_last());
                assert forall|i: int, j: int| 0 <= j < i < r.len() && #[trigger] r[i] == seq!['.', '.'] implies #[trigger] r[j] == seq!['.', '.'] by {
                    assert(r[i] == out[i] && r[j] == out[j]);
                }
            } else if !rooted {
                assert(r == out.push(part));
                assert forall|i: int, j: int| 0 <= j < i < r.len() && #[trigger] r[i] == seq!['.', '.'] implies #[trigger] r[j] == seq!['.', '.'] by {
                    if i < out.len() {
                        assert(r[i] == out[i] && r[j] == out[j]);
                    } else {
                        assert(r[j] == out[j]);
                        assert(out[out.len() - 1] == out.last());
                        if j < out.len() - 1 {
                            assert(out[out.len() - 1] == seq!['.', '.']);
                        }
                    }
                }
            }
        } else {
            assert(r == out.push(part));
            assert forall|i: int, j: int| 0 <= j < i < r.len() && #[trigger] r[i] == seq!['.', '.'] implies #[trigger] r[j] == seq!['.', '.'] by {
                if i < out.len() {
                    assert(r[i] == out[i] && r[j] == out[j]);
                }
            }
        }
    }
}

proof fn lemma_fold_keeps(parts: Seq<Seq<char>>, f: Seq<Seq<char>>, off: int, k: int, rooted: bool)
    requires
        0 <= off,
        0 <= k <= f.len(),
        parts.len() == off + f.len(),
        forall|i: int| 0 <= i < off ==> (#[trigger] parts[i]).len() == 0,
        forall|i: int| 0 <= i < f.len() ==> parts[off + i] == #[trigger] f[i],
        cleaned(f, rooted),
    ensures
        clean_fold(parts, off + k, rooted) == f.take(k),
    decreases off + k,
{
    if k == 0 {
        lemma_fold_empty_prefix(parts, off, rooted);
        assert(f.take(0) =~= Seq::<Seq<char>>::empty());
    } else {
        lemma_fold_keeps(parts, f, off, k - 1, rooted);
        let out = f.take(k - 1);
        let part = f[k - 1];
        assert(parts[off + k - 1] == part);
        if part == seq!['.', '.'] {
            assert forall|j: int| 0 <= j < out.len() implies out[j] == seq!['.', '.'] by {
                assert(out[j] == f[j]);
            }
            if out.len() > 0 {
                assert(out.last() == out[out.len() - 1]);
            }
        }
        assert(f.take(k) =~= out.push(part));
    }
}

proof fn lemma_fold_empty_prefix(parts: Seq<Seq<char>>, m: int, rooted: bool)
    requires
        0 <= m <= parts.len(),
        forall|i: int| 0 <= i < m ==> (#[trigger] parts[i]).len() == 0,
    ensures
        clean_fold(parts, m, rooted) == Seq::<Seq<char>>::empty(),
    decreases m,
{
    if m > 0 {
        lemma_fold_empty_prefix(parts, m - 1, rooted);
        assert(parts[m - 1].len() == 0);
    }
}

/// Whether the segments of a cleaned path are tidy: none is empty or `.`,
/// the `..` segments all come first, and a rooted path has none.
pub open spec fn tidy_segments(segs: Seq<Seq<char>>, rooted: bool) -> bool {
    &&& forall|i: int| 0 <= i < segs.len() ==> (#[trigger] segs[i]).len() > 0 && segs[i] != seq!['.']
    &&& forall|i: int, j: int| 0 <= i < j < segs.len() && segs[j] == seq!['.', '.'] ==> segs[i] == seq!['.', '.']
    &&& rooted ==> forall|i: int| 0 <= i < segs.len() ==> #[trigger] segs[i] != seq!['.', '.']
}

proof fn lemma_clean_step_tidy(out: Seq<Seq<char>>, part: Seq<char>, rooted: bool)
    requires
        tidy_segments(out, rooted),
    ensures
        tidy_segments(clean_step(out, part, rooted), rooted),
{
    let n = clean_step(out, part, rooted);
    if part.len() == 0 || part == seq!['.'] {
    } else if part == seq!['.', '.'] {
        if out.len() > 0 && out.last() != seq!['.', '.'] {
            assert forall|i: int| 0 <= i < n.len() implies (#[trigger] n[i]).len() > 0 && n[i] != seq!['.'] by {
                assert(n[i] == out[i]);
            }
            assert forall|i: int, j: int| 0 <= i < j < n.len() && n[j] == seq!['.', '.'] implies n[i] == seq!['.', '.'] by {
                assert(n[i] == out[i]);
                assert(n[j] == out[j]);
            }
            assert forall|i: int| rooted && 0 <= i < n.len() implies #[trigger] n[i] != seq!['.', '.'] by {
                assert(n[i] == out[i]);
            }
        } else if !rooted {
            assert forall|i: int| 0 <= i < n.len() implies (#[trigger] n[i]).len() > 0 && n[i] != seq!['.'] by {
                if i < out.len() {
                    assert(n[i] == out[i]);
                } else {
                    assert(n[i] == part);
                }
            }
            assert forall|i: int, j: int| 0 <= i < j < n.len() && n[j] == seq!['.', '.'] implies n[i] == seq!['.', '.'] by {
                assert(n[i] == out[i]);
                if j < out.len() {
                    assert(n[j] == out[j]);
                } else if out.len() > 0 {
                    assert(out.last() == seq!['.', '.']);
                    assert(out[out.len() - 1] == seq!['.', '.']);
                    if i < out.len() - 1 {
                        assert(out[i] == seq!['.', '.']);
                    }
                }
            }
        }
    } else {
        assert forall|i: int| 0 <= i < n.len() implies (#[trigger] n[i]).len() > 0 && n[i] != seq!['.'] by {
            if i < out.len() {
                assert(n[i] == out[i]);
            }
        }
        assert forall|i: int, j: int| 0 <= i < j < n.len() && n[j] == seq!['.', '.'] implies n[i] == seq!['.', '.'] by {
            assert(n[i] == out[i]);
            if j < out.len() {
                assert(n[j] == out[j]);
            }
        }
        assert forall|i: int| rooted && 0 <= i < n.len() implies #[trigger] n[i] != seq!['.', '.'] by {
            if i < out.len() {
                assert(n[i] == out[i]);
            }
        }
    }
}

proof fn lemma_clean_fold_tidy(parts: Seq<Seq<char>>, n: int, rooted: bool)
    ensures
        tidy_segments(clean_fold(parts, n, rooted), rooted),
    decreases n,
{
    if n > 0 {
        lemma_clean_fold_tidy(parts, n - 1, rooted);
        lemma_clean_step_tidy(clean_fold(parts, n - 1, rooted), parts[n - 1], rooted);
    }
}

/// A cleaned path is its tidy segments joined by `/`: none of them empty or
/// `.`, every `..` at the front, and none at all below the root; `/` goes
/// before a rooted path, and an empty relative one is `.`.
pub proof fn lemma_clean_is_tidy(path: Seq<char>)
    ensures
        ({
            let rooted = has_prefix(path, seq!['/']);
            let segs = clean_fold(split(path, '/'), split(path, '/').len() as int, rooted);
            &&& tidy_segments(segs, rooted)
            &&& clean_spec(path) == if rooted {
                seq!['/'] + join(segs, seq!['/'])
            } else if join(segs, seq!['/']).len() == 0 {
                seq!['.']
            } else {
                join(segs, seq!['/'])
            }
        }),
{
    let rooted = has_prefix(path, seq!['/']);
    let parts = split(path, '/');
    lemma_clean_fold_tidy(parts, parts.len() as int, rooted);
}

/// Cleaning is idempotent: a cleaned path is already clean.
pub proof fn lemma_clean_is_idempotent(path: Seq<char>)
    ensures
        clean_spec(clean_spec(path)) == clean_spec(path),
{
    let rooted = has_prefix(path, seq!['/']);
    let parts = split(path, '/');
    lemma_split_pieces(path, '/');
    assert forall|i: int| 0 <= i < parts.len() implies !(#[trigger] parts[i]).contains('/') by {
        let (d, c) = split_acc(path, '/');
        if i < d.len() {
            assert(parts[i] == d[i]);
        }
    }
    let f = clean_fold(parts, parts.len() as int, rooted);
    lemma_fold_cleaned(parts, parts.len() as int, rooted);
    let c = clean_spec(path);
    reveal_with_fuel(split_acc, 3);
    if f.len() == 0 {
        if rooted {
            assert(join(f, seq!['/']) =~= Seq::<char>::empty());
            assert(c =~= seq!['/']);
            assert(split(c, '/') =~= seq![Seq::<char>::empty(), Seq::<char>::empty()]);
            reveal_with_fuel(clean_fold, 3);
            assert(c.take(1) =~= seq!['/']);
            assert(clean_fold(split(c, '/'), 2, true) =~= Seq::<Seq<char>>::empty());
            assert(join(Seq::<Seq<char>>::empty(), seq!['/']) =~= Seq::<char>::empty());
            assert(clean_spec(c) =~= c);
        } else {
            assert(c =~= seq!['.']);
            assert(split(c, '/') =~= seq![seq!['.']]);
            reveal_with_fuel(clean_fold, 2);
            assert(c.take(1) =~= seq!['.']);
            assert(!has_prefix(c, seq!['/']));
            assert(clean_fold(split(c, '/'), 1, false) =~= Seq::<Seq<char>>::empty());
            assert(join(Seq::<Seq<char>>::empty(), seq!['/']) =~= Seq::<char>::empty());
            assert(clean_spec(c) =~= c);
        }
    } else {
        let j = join(f, seq!['/']);
        assert forall|i: int| 0 <= i < f.len() implies !(#[trigger] f[i]).contains('/') by {}
        if rooted {
            lemma_split_join(seq!['/'], f);
            assert(split_acc(seq!['/'], '/') == (seq![Seq::<char>::empty()], Seq::<char>::empty()));
            let ps = split(c, '/');
            assert(c =~= seq!['/'] + j);
            assert(seq![Seq::<char>::empty() + f[0]] + f.skip(1) =~= f);
            assert(ps =~= seq![Seq::<char>::empty()] + f);
            assert(c.take(1) =~= seq!['/']);
            assert(has_prefix(c, seq!['/']));
            lemma_fold_keeps(ps, f, 1, f.len() as int, true);
            assert(f.take(f.len() as int) =~= f);
            assert(clean_fold(ps, ps.len() as int, true) == f);
            assert(clean_spec(c) =~= c);
        } else {
            lemma_split_join(Seq::<char>::empty(), f);
            assert(Seq::<char>::empty() + j =~= j);
            assert(seq![Seq::<char>::empty() + f[0]] + f.skip(1) =~= f);
            assert(split_acc(Seq::<char>::empty(), '/').0 + f =~= f);
            lemma_join_head(f);
            assert(j.len() > 0 && j[0] == f[0][0]);
            if f[0][0] == '/' {
                assert(f[0].contains('/'));
            }
            if has_prefix(c, seq!['/']) {
                assert(c.take(1)[0] == c[0]);
            }
            assert(!has_prefix(c, seq!['/']));
            lemma_fold_keeps(split(c, '/'), f, 0, f.len() as int, false);
            assert(f.take(f.len() as int) =~= f);
            assert(clean_fold(split(c, '/'), f.len() as int, false) == f);
            assert(clean_spec(c) =~= c);
        }
    }
}

proof fn lemma_join_head(f: Seq<Seq<char>>)
    requires
        f.len() > 0,
        f[0].len() > 0,
    ensures
        join(f, seq!['/']).len() >= f[0].len(),
        join(f, seq!['/'])[0] == f[0][0],
    decreases f.len(),
{
    if f.len() > 1 {
        lemma_join_head(f.drop_last());
        assert(f.drop_last()[0] == f[0]);
    }
}

/// `path.Clean`: the shortest path equivalent to `path`, processed purely
/// lexically.
pub fn clean(path: &str) -> (r: String)
    ensures
        r@ == clean_spec(path@),
{
    let v = chars_of(path);
    let rooted = v.len() > 0 && v[0] == '/';
    proof {
        if v@.len() > 0 {
            if rooted {
                assert(v@.take(1) =~= seq!['/']);
            } else {
                assert(v@.take(1)[0] == v@[0]);
            }
        }
    }
    let parts = split_chars(&v, '/');
    let ghost pv = parts@.map_values(|q: Vec<char>| q@);
    let mut out: Vec<Vec<char>> = Vec::new();
    let mut i: usize = 0;
    assert(out@.map_values(|q: Vec<char>| q@) =~= Seq::<Seq<char>>::empty());
    while i < parts.len()
        invariant
            i <= parts.len(),
            pv == parts@.map_values(|q: Vec<char>| q@),
            out@.map_values(|q: Vec<char>| q@) == clean_fold(pv, i as int, rooted),
        decreases parts.len() - i,
    {
        let part = &parts[i];
        let ghost before = out@.map_values(|q: Vec<char>| q@);
        proof {
            assert(pv[i as int] == part@);
        }
        let is_dot = part.len() == 1 && part[0] == '.';
        let is_dotdot = part.len() == 2 && part[0] == '.' && part[1] == '.';
        proof {
            if part@.len() == 1 {
                if is_dot {
                    assert(part@ =~= seq!['.']);
                } else {
                    assert(part@ != seq!['.']);
                }
            }
            if part@.len() == 2 {
                if is_dotdot {
                    assert(part@ =~= seq!['.', '.']);
                } else {
                    assert(part@[0] != '.' || part@[1] != '.');
                    assert(part@ != seq!['.', '.']);
                }
            }
        }
        if part.len() == 0 || is_dot {
        } else if is_dotdot {
            let n = out.len();
            let last_is_dotdot = n > 0 && out[n - 1].len() == 2 && out[n - 1][0] == '.' && out[n
                - 1][1] == '.';
            proof {
                if n > 0 {
                    assert(before.last() == out@[n - 1]@);
                    if last_is_dotdot {
                        assert(out@[n - 1]@ =~= seq!['.', '.']);
                    } else if out@[n - 1]@.len() == 2 {
                        assert(out@[n - 1]@ != seq!['.', '.']);
                    }
                }
            }
            if n > 0 && !last_is_dotdot {
                out.pop();
                proof {
                    assert(out@.map_values(|q: Vec<char>| q@) =~= before.drop_last());
                }
            } else if !rooted {
                let mut d: Vec<char> = Vec::new();
                d.push('.');
                d.push('.');
                out.push(d);
                proof {
                    assert(d@ =~= part@);
                    assert(out@.map_values(|q: Vec<char>| q@) =~= before.push(part@));
                }
            }
        } else {
            let mut c: Vec<char> = Vec::new();
            crate::text::extend_chars(&mut c, part);
            out.push(c);
            proof {
                assert(c@ =~= part@);
                assert(out@.map_values(|q: Vec<char>| q@) =~= before.push(part@));
            }
        }
        i += 1;
    }
    let mut sep: Vec<char> = Vec::new();
    sep.push('/');
    assert(sep@ =~= seq!['/']);
    let joined = join_chars(&out, &sep);
    if rooted {
        let mut r: Vec<char> = Vec::new();
        r.push('/');
        crate::text::extend_chars(&mut r, &joined);
        assert(r@ =~= seq!['/'] + joined@);
        string_of(&r)
    } else if joined.len() == 0 {
        let mut r: Vec<char> = Vec::new();
        r.push('.');
        assert(r@ =~= seq!['.']);
        string_of(&r)
    } else {
        string_of(&joined)
    }
}

/// Whether `c` is one of the generated shell completion commands: named
/// `name`, with its description, no arguments, and the help and
/// no-descriptions flags.
pub open spec fn completion_child(c: Command, name: Seq<char>, short: Seq<char>, long: Seq<char>, flags_in_use_line: bool) -> bool {
    &&& c.use_line@ == name
    &&& c.short@ == short
    &&& c.long@ == long
    &&& c.args == Args::NoArgs
    &&& c.disable_flags_in_use_line == !flags_in_use_line
    &&& c.runnable
    &&& !c.hidden
    &&& c.children@.len() == 0
    &&& c.flags@ == seq![
        new_flag("help"@, "h"@, ValueView::Bool(false), "help for "@ + name),
        new_flag("no-descriptions"@, ""@, ValueView::Bool(false), "disable completion descriptions"@),
    ]
}

/// One generated shell completion command.
fn shell_completion(id: &'static str, name: &str, short: &str, long: &str, flags_in_use_line: bool) -> (r: Command)
    ensures
        r.id == id,
        completion_child(r, name@, short@, long@, flags_in_use_line),
{
    let mut c = Command::new(id, name, short);
    c.long = long.to_owned();
    c.args = Args::NoArgs;
    c.disable_flags_in_use_line = !flags_in_use_line;
    let mut usage: Vec<char> = Vec::new();
    extend_str(&mut usage, "help for ");
    extend_str(&mut usage, name);
    let u = string_of(&usage);
    c.flags.add(Flag::bool("help", "h", false, u.as_str()));
    c.flags.add(Flag::bool("no-descriptions", "", false, "disable completion descriptions"));
    assert(c.flags@ =~= seq![
        new_flag("help"@, "h"@, ValueView::Bool(false), "help for "@ + name@),
        new_flag("no-descriptions"@, ""@, ValueView::Bool(false), "disable completion descriptions"@),
    ]);
    c
}

/// The generated `completion` command: not runnable itself, with a child
/// per shell (bash, fish, powershell, zsh, in that order).
pub fn completion_command() -> (r: Command)
    ensures
        r.id == "completion",
        r.use_line@ == "completion"@,
        r.short@ == "Generate the autocompletion script for the specified shell"@,
        r.long@ == "Generate the autocompletion script for glow for the specified shell.\nSee each sub-command's help for details on how to use the generated script.\n"@,
        !r.runnable,
        r.flags@ == seq![new_flag("help"@, "h"@, ValueView::Bool(false), "help for completion"@)],
        r.children@.len() == 4,
        r.children@[0].id == "completion-bash",
        completion_child(
            r.children@[0],
            "bash"@,
            "Generate the autocompletion script for bash"@,
            "Generate the autocompletion script for the bash shell.\n\nThis script depends on the 'bash-completion' package.\nIf it is not installed already, you can install it via your OS's package manager.\n\nTo load completions in your current shell session:\n\n\tsource <(glow completion bash)\n\nTo load completions for every new session, execute once:\n\n#### Linux:\n\n\tglow completion bash > /etc/bash_completion.d/glow\n\n#### macOS:\n\n\tglow completion bash > $(brew --prefix)/etc/bash_completion.d/glow\n\nYou will need to start a new shell for this setup to take effect.\n"@,
            false,
        ),
        r.children@[1].id == "completion-fish",
        completion_child(
            r.children@[1],
            "fish"@,
            "Generate the autocompletion script for fish"@,
            "Generate the autocompletion script for the fish shell.\n\nTo load completions in your current shell session:\n\n\tglow completion fish | source\n\nTo load completions for every new session, execute once:\n\n\tglow completion fish > ~/.config/fish/completions/glow.fish\n\nYou will need to start a new shell for this setup to take effect.\n"@,
            true,
        ),
        r.children@[2].id == "completion-powershell",
        completion_child(
            r.children@[2],
            "powershell"@,
            "Generate the autocompletion script for powershell"@,
            "Generate the autocompletion script for powershell.\n\nTo load completions in your current shell session:\n\n\tglow completion powershell | Out-String | Invoke-Expression\n\nTo load completions for every new session, add the output of the above command\nto your powershell profile.\n"@,
            true,
        ),
        r.children@[3].id == "completion-zsh",
        completion_child(
            r.children@[3],
            "zsh"@,
            "Generate the autocompletion script for zsh"@,
            "Generate the autocompletion script for the zsh shell.\n\nIf shell completion is not already enabled in your environment you will need\nto enable it.  You can execute the following once:\n\n\techo \"autoload -U compinit; compinit\" >> ~/.zshrc\n\nTo load completions in your current shell session:\n\n\tsource <(glow completion zsh)\n\nTo load completions for every new session, execute once:\n\n#### Linux:\n\n\tglow completion zsh > \"${fpath[1]}/_glow\"\n\n#### macOS:\n\n\tglow completion zsh > $(brew --prefix)/share/zsh/site-functions/_glow\n\nYou will need to start a new shell for this setup to take effect.\n"@,
            true,
        ),
{
    let mut completion = Command::new(
        "completion",
        "completion",
        "Generate the autocompletion script for the specified shell",
    );
    completion.long = "Generate the autocompletion script for glow for the specified shell.\nSee each sub-command's help for details on how to use the generated script.\n".to_owned();
    completion.runnable = false;
    completion.flags.add(Flag::bool("help", "h", false, "help for completion"));
    assert(completion.flags@ =~= seq![new_flag("help"@, "h"@, ValueView::Bool(false), "help for completion"@)]);
    let bash = shell_completion(
        "completion-bash",
        "bash",
        "Generate the autocompletion script for bash",
        "Generate the autocompletion script for the bash shell.\n\nThis script depends on the 'bash-completion' package.\nIf it is not installed already, you can install it via your OS's package manager.\n\nTo load completions in your current shell session:\n\n\tsource <(glow completion bash)\n\nTo load completions for every new session, execute once:\n\n#### Linux:\n\n\tglow completion bash > /etc/bash_completion.d/glow\n\n#### macOS:\n\n\tglow completion bash > $(brew --prefix)/etc/bash_completion.d/glow\n\nYou will need to start a new shell for this setup to take effect.\n",
        false,
    );
    let fish = shell_completion(
        "completion-fish",
        "fish",
        "Generate the autocompletion script for fish",
        "Generate the autocompletion script for the fish shell.\n\nTo load completions in your current shell session:\n\n\tglow completion fish | source\n\nTo load completions for every new session, execute once:\n\n\tglow completion fish > ~/.config/fish/completions/glow.fish\n\nYou will need to start a new shell for this setup to take effect.\n",
        true,
    );
    let powershell = shell_completion(
        "completion-powershell",
        "powershell",
        "Generate the autocompletion script for powershell",
        "Generate the autocompletion script for powershell.\n\nTo load completions in your current shell session:\n\n\tglow completion powershell | Out-String | Invoke-Expression\n\nTo load completions for every new session, add the output of the above command\nto your powershell profile.\n",
        true,
    );
    let zsh = shell_completion(
        "completion-zsh",
        "zsh",
        "Generate the autocompletion script for zsh",
        "Generate the autocompletion script for the zsh shell.\n\nIf shell completion is not already enabled in your environment you will need\nto enable it.  You can execute the following once:\n\n\techo \"autoload -U compinit; compinit\" >> ~/.zshrc\n\nTo load completions in your current shell session:\n\n\tsource <(glow completion zsh)\n\nTo load completions for every new session, execute once:\n\n#### Linux:\n\n\tglow completion zsh > \"${fpath[1]}/_glow\"\n\n#### macOS:\n\n\tglow completion zsh > $(brew --prefix)/share/zsh/site-functions/_glow\n\nYou will need to start a new shell for this setup to take effect.\n",
        true,
    );
    let mut children: Vec<Command> = Vec::new();
    children.push(bash);
    children.push(fish);
    children.push(powershell);
    children.push(zsh);
    completion.children = children;
    completion
}

/// The generated `help` command.
pub fn help_command() -> (r: Command)
    ensures
        r.id == "help",
        r.use_line@ == "help [command]"@,
        r.short@ == "Help about any command"@,
        r.long@ == "Help provides help for any command in the application.\nSimply type glow help [path to command] for full details."@,
        r.runnable,
        r.args == Args::Arbitrary,
        r.children@.len() == 0,
        r.flags@ == seq![new_flag("help"@, "h"@, ValueView::Bool(false), "help for help"@)],
{
    let mut help = Command::new("help", "help [command]", "Help about any command");
    help.long = "Help provides help for any command in the application.\nSimply type glow help [path to command] for full details.".to_owned();
    help.flags.add(Flag::bool("help", "h", false, "help for help"));
    assert(help.flags@ =~= seq![new_flag("help"@, "h"@, ValueView::Bool(false), "help for help"@)]);
    help
}

/// The root command's own flags, in the order they are declared.
pub open spec fn root_flags() -> Seq<FlagView> {
    seq![
        new_flag("pager"@, "p"@, ValueView::Bool(false), "display with pager"@),
        new_flag("tui"@, "t"@, ValueView::Bool(false), "display with tui"@),
        new_flag("style"@, "s"@, ValueView::Str("auto"@), "style name or JSON path"@),
        new_flag("width"@, "w"@, ValueView::Uint(0), "word-wrap at width (set to 0 to disable)"@),
        new_flag("all"@, "a"@, ValueView::Bool(false), "show system files and directories (TUI-mode only)"@),
        new_flag("line-numbers"@, "l"@, ValueView::Bool(false), "show line numbers (TUI-mode only)"@),
        new_flag("preserve-new-lines"@, "n"@, ValueView::Bool(false), "preserve newlines in the output"@),
        FlagView { hidden: true, ..new_flag("mouse"@, "m"@, ValueView::Bool(false), "enable mouse wheel (TUI-mode only)"@) },
        new_flag("help"@, "h"@, ValueView::Bool(false), "help for glow"@),
        new_flag("version"@, "v"@, ValueView::Bool(false), "version for glow"@),
    ]
}

/// Adds a flag to a set.
fn add_flag(set: &mut FlagSet, f: Flag)
    ensures
        final(set)@ == old(set)@.push(f@),
{
    set.add(f);
}

/// The root command, `glow [SOURCE|DIR]`: at most one argument, the
/// persistent `--config` flag whose note names `config_used`, the display
/// flags, and the completion, config, help and man commands in the order
/// they are listed.
pub fn root_command(config_used: &str) -> (r: Command)
    ensures
        r.id == "root",
        r.use_line@ == "glow [SOURCE|DIR]"@,
        r.short@ == "Render markdown on the CLI, with pizzazz!"@,
        r.long@ == paragraph_spec("\nRender markdown on the CLI, "@ + keyword_spec("with pizzazz"@) + "!"@),
        r.args == Args::MaximumN(1),
        r.runnable,
        r.persistent_flags@ == seq![
            new_flag("config"@, ""@, ValueView::Str(""@), "config file (default "@ + config_used@ + ")"@),
        ],
        r.flags@ == root_flags(),
        r.children@.len() == 4,
        r.children@[0].id == "completion",
        r.children@[1].id == "config",
        r.children@[2].id == "help",
        r.children@[3].id == "man",
{
    let mut root = Command::new("root", "glow [SOURCE|DIR]", "Render markdown on the CLI, with pizzazz!");
    let kw = keyword("with pizzazz");
    let mut long: Vec<char> = Vec::new();
    extend_str(&mut long, "\nRender markdown on the CLI, ");
    extend_str(&mut long, kw.as_str());
    extend_str(&mut long, "!");
    let long_s = string_of(&long);
    root.long = paragraph(long_s.as_str());
    root.args = Args::MaximumN(1);
    let mut note: Vec<char> = Vec::new();
    extend_str(&mut note, "config file (default ");
    extend_str(&mut note, config_used);
    extend_str(&mut note, ")");
    let note_s = string_of(&note);
    add_flag(&mut root.persistent_flags, Flag::string("config", "", "", note_s.as_str()));
    add_flag(&mut root.flags, Flag::bool("pager", "p", false, "display with pager"));
    add_flag(&mut root.flags, Flag::bool("tui", "t", false, "display with tui"));
    add_flag(&mut root.flags, Flag::string("style", "s", "auto", "style name or JSON path"));
    add_flag(&mut root.flags, Flag::uint("width", "w", 0, "word-wrap at width (set to 0 to disable)"));
    add_flag(&mut root.flags, Flag::bool("all", "a", false, "show system files and directories (TUI-mode only)"));
    add_flag(&mut root.flags, Flag::bool("line-numbers", "l", false, "show line numbers (TUI-mode only)"));
    add_flag(&mut root.flags, Flag::bool("preserve-new-lines", "n", false, "preserve newlines in the output"));
    add_flag(&mut root.flags, Flag::bool("mouse", "m", false, "enable mouse wheel (TUI-mode only)").hidden());
    add_flag(&mut root.flags, Flag::bool("help", "h", false, "help for glow"));
    add_flag(&mut root.flags, Flag::bool("version", "v", false, "version for glow"));
    assert(root.flags@ =~= root_flags());
    assert(root.persistent_flags@ =~= seq![
        new_flag("config"@, ""@, ValueView::Str(""@), "config file (default "@ + config_used@ + ")"@),
    ]);
    root.children.push(completion_command());
    root.children.push(crate::config_cmd::command());
    root.children.push(help_command());
    root.children.push(crate::man_cmd::command());
    root
}

/// The version glow reports: the one it was released as, or a note that
/// it was built from source.
pub fn version_string(released: Option<&str>) -> (r: String)
    ensures
        r@ == match released {
            Some(v) if v@.len() > 0 => v@,
            _ => "unknown (built from source)"@,
        },
{
    match released {
        Some(v) => {
            let c = chars_of(v);
            if c.len() > 0 {
                return string_of(&c);
            }
            "unknown (built from source)".to_owned()
        },
        None => "unknown (built from source)".to_owned(),
    }
}

/// The template `--version` prints: with the commit's first seven
/// characters after the version when a commit of at least seven is known.
pub fn version_template(commit: Option<&str>) -> (r: String)
    ensures
        r@ == match commit {
            Some(sha) if sha@.len() >= 7 => "glow version {{.Version}} ("@ + sha@.take(7) + ")\n"@,
            _ => "glow version {{.Version}}\n"@,
        },
{
    match commit {
        Some(sha) => {
            let c = chars_of(sha);
            if c.len() >= 7 {
                let mut t: Vec<char> = Vec::new();
                extend_str(&mut t, "glow version {{.Version}} (");
                let head = slice_chars(&c, 0, 7);
                extend_chars(&mut t, &head);
                extend_str(&mut t, ")\n");
                assert(c@.subrange(0, 7) =~= sha@.take(7));
                return string_of(&t);
            }
            "glow version {{.Version}}\n".to_owned()
        },
        None => "glow version {{.Version}}\n".to_owned(),
    }
}

/// The configuration keys and the flags they are bound to.
pub open spec fn key_bindings() -> Seq<(Seq<char>, Seq<char>)> {
    seq![
        ("pager"@, "pager"@),
        ("tui"@, "tui"@),
        ("style"@, "style"@),
        ("width"@, "width"@),
        ("mouse"@, "mouse"@),
        ("preserveNewLines"@, "preserve-new-lines"@),
        ("showLineNumbers"@, "line-numbers"@),
        ("all"@, "all"@),
    ]
}

/// The bindings of the first `n` keys put into `b`, in order.
pub open spec fn bound(b: Seq<(Seq<char>, Seq<char>)>, n: int) -> Seq<(Seq<char>, Seq<char>)>
    decreases n,
{
    if n <= 0 {
        b
    } else {
        let k = key_bindings()[n - 1];
        put(bound(b, n - 1), lower_case(k.0), k.1)
    }
}

/// Binds the configuration keys to their flags and sets their defaults:
/// the `auto` style, no wrapping, and every file shown.
pub fn configure(v: &mut Viper)
    ensures
        final(v)@ == (ViperView {
            bindings: bound(old(v)@.bindings, 8),
            defaults: put(
                put(put(old(v)@.defaults, lower_case("style"@), Setting::Str("auto"@)), lower_case("width"@), Setting::Int(0)),
                lower_case("all"@),
                Setting::Bool(true),
            ),
            ..old(v)@
        }),
{
    v.bind_pflag("pager", "pager");
    v.bind_pflag("tui", "tui");
    v.bind_pflag("style", "style");
    v.bind_pflag("width", "width");
    v.bind_pflag("mouse", "mouse");
    v.bind_pflag("preserveNewLines", "preserve-new-lines");
    v.bind_pflag("showLineNumbers", "line-numbers");
    v.bind_pflag("all", "all");
    v.set_default("style", Value::Str("auto".to_owned()));
    v.set_default("width", Value::Int(0));
    v.set_default("all", Value::Bool(true));
    proof {
        reveal_with_fuel(bound, 9);
        let kb = key_bindings();
        assert(kb[0] == ("pager"@, "pager"@) && kb[1] == ("tui"@, "tui"@) && kb[2] == ("style"@, "style"@) && kb[3] == (
        "width"@, "width"@) && kb[4] == ("mouse"@, "mouse"@) && kb[5] == ("preserveNewLines"@, "preserve-new-lines"@)
            && kb[6] == ("showLineNumbers"@, "line-numbers"@) && kb[7] == ("all"@, "all"@));
    }
}

/// A boolean flag's value: set to true, or not.
pub open spec fn flag_bool(fs: Seq<FlagView>, name: Seq<char>) -> bool {
    find_flag(fs, name) matches Some(i) && fs[i].value == ValueView::Bool(true)
}

/// A string flag's value, or empty.
pub open spec fn flag_str(fs: Seq<FlagView>, name: Seq<char>) -> Seq<char> {
    match find_flag(fs, name) {
        Some(i) => match fs[i].value {
            ValueView::Str(s) => s,
            _ => Seq::empty(),
        },
        None => Seq::empty(),
    }
}

/// An unsigned flag's value, or zero.
pub open spec fn flag_uint(fs: Seq<FlagView>, name: Seq<char>) -> u64 {
    match find_flag(fs, name) {
        Some(i) => match fs[i].value {
            ValueView::Uint(u) => u,
            _ => 0,
        },
        None => 0,
    }
}

/// A setting as a boolean, `false` when unset.
pub open spec fn setting_bool(v: ViperView, fs: Seq<FlagView>, key: Seq<char>) -> bool {
    match get_spec(v, fs, key) {
        Some(x) => as_bool_spec(x),
        None => false,
    }
}

/// A setting as an unsigned integer, zero when unset.
pub open spec fn setting_uint(v: ViperView, fs: Seq<FlagView>, key: Seq<char>) -> u64 {
    match get_spec(v, fs, key) {
        Some(x) => as_uint_spec(x),
        None => 0,
    }
}

/// A setting as a string, empty when unset.
pub open spec fn setting_str(v: ViperView, fs: Seq<FlagView>, key: Seq<char>) -> Seq<char> {
    match get_spec(v, fs, key) {
        Some(x) => as_string_spec(x),
        None => Seq::empty(),
    }
}

/// Glow's state: the command tree, the configuration registry and the
/// option values the commands read.
pub struct Glow {
    /// The command tree.
    pub app: App,
    /// The configuration registry.
    pub viper: Viper,
    /// Path of the configuration file, from `--config` or the search path.
    pub config_file: String,
    /// Whether to display through a pager.
    pub pager: bool,
    /// Whether to display through the TUI.
    pub tui: bool,
    /// Style name or JSON path.
    pub style: String,
    /// Word-wrap column.
    pub width: u64,
    /// Whether the TUI lists system files.
    pub show_all_files: bool,
    /// Whether the pager numbers lines.
    pub show_line_numbers: bool,
    /// Whether soft line breaks survive rendering.
    pub preserve_new_lines: bool,
    /// Whether the TUI tracks the mouse wheel.
    pub mouse: bool,
}

impl Glow {
    /// Glow around a loaded configuration registry: the command tree (its
    /// `--config` note naming the file the registry loaded), the registry's
    /// bindings and defaults, the version strings, and every option off.
    pub fn assemble(viper: Viper, config_file: String, released: Option<&str>, commit: Option<&str>) -> (r: Glow)
        ensures
            r.app.root.id == "root",
            r.app.root.persistent_flags@ == seq![
                new_flag("config"@, ""@, ValueView::Str(""@), "config file (default "@ + viper@.config_file_used + ")"@),
            ],
            r.app.root.flags@ == root_flags(),
            r.app.version@ == match released {
                Some(v) if v@.len() > 0 => v@,
                _ => "unknown (built from source)"@,
            },
            r.app.version_template@ == match commit {
                Some(sha) if sha@.len() >= 7 => "glow version {{.Version}} ("@ + sha@.take(7) + ")\n"@,
                _ => "glow version {{.Version}}\n"@,
            },
            r.viper@ == (ViperView {
                bindings: bound(viper@.bindings, 8),
                defaults: put(
                    put(put(viper@.defaults, lower_case("style"@), Setting::Str("auto"@)), lower_case("width"@), Setting::Int(0)),
                    lower_case("all"@),
                    Setting::Bool(true),
                ),
                ..viper@
            }),
            r.config_file == config_file,
            !r.pager && !r.tui && !r.show_all_files && !r.show_line_numbers && !r.preserve_new_lines && !r.mouse,
            r.style@.len() == 0,
            r.width == 0,
    {
        let mut viper = viper;
        let root = root_command(viper.config_file_used());
        configure(&mut viper);
        let version = version_string(released);
        let version_template = version_template(commit);
        Glow {
            app: App { root, version, version_template },
            viper,
            config_file,
            pager: false,
            tui: false,
            style: String::new(),
            width: 0,
            show_all_files: false,
            show_line_numbers: false,
            preserve_new_lines: false,
            mouse: false,
        }
    }

    /// Copies the flags' values into the options, the way pflag writes
    /// straight into its variables.
    pub fn mirror_flags(&mut self, flags: &FlagSet)
        ensures
            final(self).config_file@ == flag_str(flags@, "config"@),
            final(self).pager == flag_bool(flags@, "pager"@),
            final(self).tui == flag_bool(flags@, "tui"@),
            final(self).style@ == flag_str(flags@, "style"@),
            final(self).width == flag_uint(flags@, "width"@),
            final(self).show_all_files == flag_bool(flags@, "all"@),
            final(self).show_line_numbers == flag_bool(flags@, "line-numbers"@),
            final(self).preserve_new_lines == flag_bool(flags@, "preserve-new-lines"@),
            final(self).mouse == flag_bool(flags@, "mouse"@),
            final(self).app == old(self).app,
            final(self).viper == old(self).viper,
    {
        self.config_file = flags.string("config");
        self.pager = flags.bool("pager");
        self.tui = flags.bool("tui");
        self.style = flags.string("style");
        self.width = flags.uint("width");
        self.show_all_files = flags.bool("all");
        self.show_line_numbers = flags.bool("line-numbers");
        self.preserve_new_lines = flags.bool("preserve-new-lines");
        self.mouse = flags.bool("mouse");
    }

    /// Parses `argv` against the root command's flags and copies the
    /// results into the options.
    pub fn parse_flags(&mut self, argv: &[String]) -> (r: Result<FlagSet, Error>)
        ensures
            match parse_flags_spec(
                effective(old(self).app.root, Seq::empty()),
                argv@.map_values(|s: String| s@),
                0,
                Seq::empty(),
            ) {
                Ok((fs, _)) => r matches Ok(f) && f@ == fs && final(self).pager == flag_bool(fs, "pager"@)
                    && final(self).tui == flag_bool(fs, "tui"@) && final(self).style@ == flag_str(fs, "style"@)
                    && final(self).width == flag_uint(fs, "width"@) && final(self).config_file@ == flag_str(fs, "config"@)
                    && final(self).show_all_files == flag_bool(fs, "all"@) && final(self).show_line_numbers
                    == flag_bool(fs, "line-numbers"@) && final(self).preserve_new_lines == flag_bool(
                    fs,
                    "preserve-new-lines"@,
                ) && final(self).mouse == flag_bool(fs, "mouse"@),
                Err(m) => r matches Err(e) && e.0@ == m && *final(self) == *old(self),
            },
            final(self).app == old(self).app,
            final(self).viper == old(self).viper,
    {
        let flags = match self.app.parse_root_flags(argv) {
            Ok(f) => f,
            Err(e) => return Err(e),
        };
        self.mirror_flags(&flags);
        Ok(flags)
    }

    /// Resolves every option from the configuration registry, and refuses
    /// the pager and the TUI together. The style still has to be checked
    /// against the built-in names and the disk.
    pub fn resolve_options(&mut self, flags: &FlagSet) -> (r: Result<(), String>)
        ensures
            final(self).width == setting_uint(old(self).viper@, flags@, "width"@),
            final(self).mouse == setting_bool(old(self).viper@, flags@, "mouse"@),
            final(self).pager == setting_bool(old(self).viper@, flags@, "pager"@),
            final(self).tui == setting_bool(old(self).viper@, flags@, "tui"@),
            final(self).show_all_files == setting_bool(old(self).viper@, flags@, "all"@),
            final(self).preserve_new_lines == setting_bool(old(self).viper@, flags@, "preserveNewLines"@),
            final(self).show_line_numbers == setting_bool(old(self).viper@, flags@, "showLineNumbers"@),
            r is Err <==> final(self).pager && final(self).tui,
            r matches Err(e) ==> e@ == "cannot use both pager and tui"@ && final(self).style == old(self).style,
            r is Ok ==> final(self).style@ == setting_str(old(self).viper@, flags@, "style"@),
            final(self).app == old(self).app,
            final(self).viper == old(self).viper,
            final(self).config_file == old(self).config_file,
    {
        self.width = self.viper.get_uint("width", flags);
        self.mouse = self.viper.get_bool("mouse", flags);
        self.pager = self.viper.get_bool("pager", flags);
        self.tui = self.viper.get_bool("tui", flags);
        self.show_all_files = self.viper.get_bool("all", flags);
        self.preserve_new_lines = self.viper.get_bool("preserveNewLines", flags);
        self.show_line_numbers = self.viper.get_bool("showLineNumbers", flags);
        if self.pager && self.tui {
            return Err("cannot use both pager and tui".to_owned());
        }
        self.style = self.viper.get_string("style", flags);
        Ok(())
    }

    /// Fits the options to the output: a style that was not asked for
    /// becomes the no-TTY one off a terminal; a width that was not asked
    /// for comes from the terminal (at most 120) when it is one and none
    /// was configured, and is 80 when still unknown.
    pub fn fit_to_terminal(&mut self, flags: &FlagSet, is_terminal: bool, term_width: Option<u16>)
        ensures
            final(self).style@ == if !is_terminal && !(find_flag(flags@, "style"@) matches Some(i) && flags@[i].changed) {
                NOTTY_STYLE@
            } else {
                old(self).style@
            },
            final(self).width == if find_flag(flags@, "width"@) matches Some(i) && flags@[i].changed {
                old(self).width
            } else {
                fitted_width(old(self).width, is_terminal, term_width)
            },
            final(self).app == old(self).app,
            final(self).viper == old(self).viper,
            final(self).pager == old(self).pager,
            final(self).tui == old(self).tui,
    {
        if !is_terminal && !flags.changed("style") {
            self.style = NOTTY_STYLE.to_owned();
        }
        if !flags.changed("width") {
            if is_terminal && self.width == 0 {
                if let Some(w) = term_width {
                    self.width = w as u64;
                }
                if self.width > 120 {
                    self.width = 120;
                }
            }
            if self.width == 0 {
                self.width = 80;
            }
        }
    }
}

/// The word-wrap width when none was asked for on the command line: the
/// terminal's (at most 120) when output is a terminal and none was
/// configured, and 80 when that leaves none.
pub open spec fn fitted_width(configured: u64, is_terminal: bool, term_width: Option<u16>) -> u64 {
    let w = if is_terminal && configured == 0 {
        let t = match term_width {
            Some(tw) => tw as u64,
            None => configured,
        };
        if t > 120 {
            120
        } else {
            t
        }
    } else {
        configured
    };
    if w == 0 {
        80
    } else {
        w
    }
}

} // verus!
