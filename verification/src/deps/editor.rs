//! Resolving the user's editor: the `$EDITOR` lookup with its `nano`
//! fallback, and the per-editor line-number options.
//!
//! The environment is read by the caller and handed in, so the resolution
//! itself is a function of its arguments.
use vstd::prelude::*;
use crate::text::{
    chars_of, decimal, decimal_of, eq_str, extend_chars, extend_str, is_whitespace, is_whitespace_char,
    rfind_char, rfind_char_in, slice_chars, string_of,
};

verus! {

broadcast use vstd::string::group_string_axioms;

/// An editor invocation option.
#[derive(Debug, Clone, Copy, PartialEq, Eq)]
pub enum Opt {
    /// Open the file at a line number, where the editor supports it.
    LineNumber(u64),
}

/// The editor used where `$EDITOR` names none.
pub const DEFAULT_EDITOR: &'static str = "nano";

/// The whitespace-separated words of `s`, folded over a prefix: the
/// finished words and the word still being read.
pub open spec fn words_acc(s: Seq<char>) -> (Seq<Seq<char>>, Seq<char>)
    decreases s.len(),
{
    if s.len() == 0 {
        (Seq::empty(), Seq::empty())
    } else {
        let (ws, cur) = words_acc(s.drop_last());
        if is_whitespace(s.last()) {
            if cur.len() > 0 {
                (ws.push(cur), Seq::empty())
            } else {
                (ws, Seq::empty())
            }
        } else {
            (ws, cur.push(s.last()))
        }
    }
}

/// `str::split_whitespace`: the non-empty runs of non-whitespace.
pub open spec fn words(s: Seq<char>) -> Seq<Seq<char>> {
    let (ws, cur) = words_acc(s);
    if cur.len() > 0 {
        ws.push(cur)
    } else {
        ws
    }
}

/// The editors that take a `+N` argument for the line to open at.
pub open spec fn plus_line_editor(name: Seq<char>) -> bool {
    name == "vi"@ || name == "vim"@ || name == "nvim"@ || name == "nano"@ || name == "emacs"@
        || name == "kak"@ || name == "gedit"@
}

/// What `opt` adds for `editor` editing `filename`: extra arguments, and
/// whether the path is already among them.
pub open spec fn apply_spec(opt: Opt, editor: Seq<char>, filename: Seq<char>) -> (Seq<Seq<char>>, bool) {
    match opt {
        Opt::LineNumber(n) => if plus_line_editor(editor) {
            (seq!["+"@ + decimal(n as nat)], false)
        } else if editor == "code"@ {
            (seq!["--goto"@, filename + ":"@ + decimal(n as nat)], true)
        } else {
            (Seq::empty(), false)
        },
    }
}

/// The arguments that the first `k` options add, and whether one of them
/// placed the path.
pub open spec fn options_spec(opts: Seq<Opt>, editor: Seq<char>, filename: Seq<char>, k: int) -> (Seq<Seq<char>>, bool)
    decreases k,
{
    if k <= 0 {
        (Seq::empty(), false)
    } else {
        let (args, placed) = options_spec(opts, editor, filename, k - 1);
        let (more, here) = apply_spec(opts[k - 1], editor, filename);
        (args + more, placed || here)
    }
}

/// The last `/`-separated component of `path`.
pub open spec fn base_name_spec(path: Seq<char>) -> Seq<char> {
    match rfind_char(path, '/') {
        Some(i) => path.skip(i + 1),
        None => path,
    }
}

/// `$EDITOR` split into a program and its arguments, or `nano`.
pub open spec fn editor_spec(raw: Seq<char>) -> (Seq<char>, Seq<Seq<char>>) {
    let ws = words(raw);
    if ws.len() == 0 {
        (DEFAULT_EDITOR@, Seq::empty())
    } else {
        (ws[0], ws.skip(1))
    }
}

/// The refusal under Snap, whose sandbox cannot start an editor.
pub open spec fn snap_message(app: Seq<char>) -> Seq<char> {
    "Did you install with Snap? "@ + app
        + " is sandboxed and unable to open an editor. Please install "@ + app
        + " with Go or another package manager to enable editing."@
}

/// The program and arguments that edit `path`, given `$SNAP_REVISION` and
/// `$EDITOR`.
pub open spec fn command_line_spec(
    app: Seq<char>,
    path: Seq<char>,
    opts: Seq<Opt>,
    snap_revision: Option<Seq<char>>,
    editor_var: Seq<char>,
) -> Result<Seq<Seq<char>>, Seq<char>> {
    if snap_revision matches Some(v) && v.len() > 0 {
        Err(snap_message(app))
    } else {
        let (editor, args) = editor_spec(editor_var);
        let (more, placed) = options_spec(opts, base_name_spec(editor), path, opts.len() as int);
        let tail = if placed { Seq::empty() } else { seq![path] };
        Ok(seq![editor] + args + more + tail)
    }
}

/// The views of some strings.
pub open spec fn views(v: Seq<String>) -> Seq<Seq<char>> {
    v.map_values(|s: String| s@)
}

/// `str::split_whitespace`, collected.
fn split_words(s: &str) -> (r: Vec<Vec<char>>)
    ensures
        r@.map_values(|w: Vec<char>| w@) == words(s@),
{
    let v = chars_of(s);
    let mut out: Vec<Vec<char>> = Vec::new();
    let mut cur: Vec<char> = Vec::new();
    let mut i: usize = 0;
    while i < v.len()
        invariant
            i <= v.len(),
            v@ == s@,
            (out@.map_values(|w: Vec<char>| w@), cur@) == words_acc(v@.take(i as int)),
        decreases v.len() - i,
    {
        let c = v[i];
        let ghost before = out@.map_values(|w: Vec<char>| w@);
        assert(v@.take(i + 1).drop_last() =~= v@.take(i as int));
        if is_whitespace_char(c) {
            if cur.len() > 0 {
                let ghost cv = cur@;
                out.push(cur);
                cur = Vec::new();
                assert(out@.map_values(|w: Vec<char>| w@) =~= before.push(cv));
            }
        } else {
            cur.push(c);
        }
        i += 1;
    }
    assert(v@.take(i as int) =~= v@);
    if cur.len() > 0 {
        let ghost before = out@.map_values(|w: Vec<char>| w@);
        let ghost cv = cur@;
        out.push(cur);
        assert(out@.map_values(|w: Vec<char>| w@) =~= before.push(cv));
    }
    out
}

/// `filepath.Base` restricted to what an editor path needs.
fn base_name(path: &Vec<char>) -> (r: Vec<char>)
    ensures
        r@ == base_name_spec(path@),
{
    match rfind_char_in(path, '/') {
        Some(i) => {
            let n = path.len();
            assert(i < n);
            let r = slice_chars(path, i + 1, n);
            assert(r@ =~= path@.skip(i + 1));
            r
        },
        None => {
            let r = slice_chars(path, 0, path.len());
            assert(r@ =~= path@);
            r
        },
    }
}

/// A copy of `v`.
fn copy_chars(v: &Vec<char>) -> (r: Vec<char>)
    ensures
        r@ == v@,
{
    let r = slice_chars(v, 0, v.len());
    assert(r@ =~= v@);
    r
}

/// The view of an optional string.
pub open spec fn opt_view(o: Option<&str>) -> Option<Seq<char>> {
    match o {
        Some(v) => Some(v@),
        None => None,
    }
}

/// Whether `name` is one of the editors that take `+N`.
fn is_plus_line_editor(name: &Vec<char>) -> (r: bool)
    ensures
        r == plus_line_editor(name@),
{
    proof {
        reveal_strlit("vi");
        reveal_strlit("vim");
        reveal_strlit("nvim");
        reveal_strlit("nano");
        reveal_strlit("emacs");
        reveal_strlit("kak");
        reveal_strlit("gedit");
    }
    eq_str(name, "vi") || eq_str(name, "vim") || eq_str(name, "nvim") || eq_str(name, "nano")
        || eq_str(name, "emacs") || eq_str(name, "kak") || eq_str(name, "gedit")
}

impl Opt {
    /// What this option adds for `editor` editing `filename`: extra
    /// arguments, and whether the path is already among them.
    pub fn apply(&self, editor: &Vec<char>, filename: &str) -> (r: (Vec<Vec<char>>, bool))
        ensures
            r.0@.map_values(|w: Vec<char>| w@) == apply_spec(*self, editor@, filename@).0,
            r.1 == apply_spec(*self, editor@, filename@).1,
    {
        match self {
            Opt::LineNumber(n) => {
                let digits = decimal_of(*n);
                if is_plus_line_editor(editor) {
                    let mut a: Vec<char> = Vec::new();
                    a.push('+');
                    extend_chars(&mut a, &digits);
                    let mut out: Vec<Vec<char>> = Vec::new();
                    let ghost av = a@;
                    out.push(a);
                    proof {
                        reveal_strlit("+");
                        assert(av =~= "+"@ + decimal(*n as nat));
                        assert(out@.map_values(|w: Vec<char>| w@) =~= seq![av]);
                    }
                    return (out, false);
                }
                if eq_str(editor, "code") {
                    let goto = chars_of("--goto");
                    let mut target = chars_of(filename);
                    target.push(':');
                    extend_chars(&mut target, &digits);
                    let ghost gv = goto@;
                    let ghost tv = target@;
                    let mut out: Vec<Vec<char>> = Vec::new();
                    out.push(goto);
                    out.push(target);
                    proof {
                        reveal_strlit(":");
                        assert(tv =~= filename@ + ":"@ + decimal(*n as nat));
                        assert(out@.map_values(|w: Vec<char>| w@) =~= seq![gv, tv]);
                    }
                    return (out, true);
                }
                let out: Vec<Vec<char>> = Vec::new();
                assert(out@.map_values(|w: Vec<char>| w@) =~= Seq::<Seq<char>>::empty());
                (out, false)
            },
        }
    }
}

/// The program and arguments that edit `path`, given the values of
/// `$SNAP_REVISION` (where it is set) and `$EDITOR` (empty where unset).
pub fn command_line(
    app: &str,
    path: &str,
    options: &[Opt],
    snap_revision: Option<&str>,
    editor_var: &str,
) -> (r: Result<Vec<String>, String>)
    ensures
        match command_line_spec(app@, path@, options@, opt_view(snap_revision), editor_var@) {
            Ok(line) => r matches Ok(v) && views(v@) == line,
            Err(msg) => r matches Err(e) && e@ == msg,
        },
{
    if let Some(v) = snap_revision {
        if chars_of(v).len() > 0 {
            let mut m: Vec<char> = Vec::new();
            extend_str(&mut m, "Did you install with Snap? ");
            extend_str(&mut m, app);
            extend_str(&mut m, " is sandboxed and unable to open an editor. Please install ");
            extend_str(&mut m, app);
            extend_str(&mut m, " with Go or another package manager to enable editing.");
            return Err(string_of(&m));
        }
    }
    let ws = split_words(editor_var);
    let ghost wv = ws@.map_values(|w: Vec<char>| w@);
    let mut line: Vec<Vec<char>> = Vec::new();
    let editor: Vec<char> = if ws.len() == 0 {
        chars_of(DEFAULT_EDITOR)
    } else {
        copy_chars(&ws[0])
    };
    line.push(copy_chars(&editor));
    if ws.len() > 0 {
        assert(editor@ == wv[0]);
        let mut k: usize = 1;
        while k < ws.len()
            invariant
                1 <= k <= ws.len(),
                wv == ws@.map_values(|w: Vec<char>| w@),
                line@.map_values(|w: Vec<char>| w@) == seq![wv[0]] + wv.subrange(1, k as int),
            decreases ws.len() - k,
        {
            let ghost before = line@.map_values(|w: Vec<char>| w@);
            let w = copy_chars(&ws[k]);
            assert(w@ == wv[k as int]);
            let ghost wl = w@;
            line.push(w);
            assert(line@.map_values(|w: Vec<char>| w@) =~= before.push(wl));
            assert(seq![wv[0]] + wv.subrange(1, k + 1) =~= (seq![wv[0]] + wv.subrange(1, k as int)).push(wl));
            k += 1;
        }
        assert(wv.subrange(1, k as int) =~= wv.skip(1));
    }
    let ghost (ed, args) = editor_spec(editor_var@);
    assert(editor@ == ed);
    let ghost head = line@.map_values(|w: Vec<char>| w@);
    assert(head =~= seq![ed] + args);
    let name = base_name(&editor);
    let mut placed = false;
    let mut i: usize = 0;
    while i < options.len()
        invariant
            i <= options.len(),
            name@ == base_name_spec(ed),
            line@.map_values(|w: Vec<char>| w@) == head + options_spec(options@, name@, path@, i as int).0,
            placed == options_spec(options@, name@, path@, i as int).1,
        decreases options.len() - i,
    {
        let (more, here) = options[i].apply(&name, path);
        let ghost mv = more@.map_values(|w: Vec<char>| w@);
        let ghost before = line@.map_values(|w: Vec<char>| w@);
        if here {
            placed = true;
        }
        let mut t: usize = 0;
        while t < more.len()
            invariant
                t <= more.len(),
                mv == more@.map_values(|w: Vec<char>| w@),
                line@.map_values(|w: Vec<char>| w@) == before + mv.take(t as int),
            decreases more.len() - t,
        {
            let w = copy_chars(&more[t]);
            assert(w@ == mv[t as int]);
            let ghost prev = line@.map_values(|w: Vec<char>| w@);
            let ghost wl = w@;
            line.push(w);
            assert(line@.map_values(|w: Vec<char>| w@) =~= prev.push(wl));
            assert(before + mv.take(t + 1) =~= (before + mv.take(t as int)).push(wl));
            t += 1;
        }
        assert(mv.take(t as int) =~= mv);
        assert(before + mv =~= head + options_spec(options@, name@, path@, i + 1).0);
        i += 1;
    }
    if !placed {
        let ghost before = line@.map_values(|w: Vec<char>| w@);
        line.push(chars_of(path));
        assert(line@.map_values(|w: Vec<char>| w@) =~= before.push(path@));
    }
    let ghost lv = line@.map_values(|w: Vec<char>| w@);
    let mut out: Vec<String> = Vec::new();
    let mut q: usize = 0;
    while q < line.len()
        invariant
            q <= line.len(),
            lv == line@.map_values(|w: Vec<char>| w@),
            views(out@) == lv.take(q as int),
        decreases line.len() - q,
    {
        let s = string_of(&line[q]);
        let ghost before = views(out@);
        out.push(s);
        assert(views(out@) =~= before.push(lv[q as int]));
        assert(lv.take(q + 1) =~= lv.take(q as int).push(lv[q as int]));
        q += 1;
    }
    assert(lv.take(q as int) =~= lv);
    proof {
        let (more, pl) = options_spec(options@, name@, path@, options@.len() as int);
        let tail = if pl { Seq::<Seq<char>>::empty() } else { seq![path@] };
        assert(lv =~= seq![ed] + args + more + tail);
    }
    Ok(out)
}

} // verus!
