//! Command-line parsing, dispatch and help rendering: POSIX/GNU flag parsing,
//! argument validation, the `help` command, and the help and usage text with
//! its aligned flag column.
use vstd::prelude::*;
use crate::deps::url::{cut_at, cut_at_exec};
use crate::text::{
    chars_of, debug_quoted, decimal, decimal_of, eq_str, extend_chars, extend_str, has_char, has_prefix, has_suffix, trim_end_ws, trim_start_ws, trim_end_chars, ends_with,
    is_whitespace, is_whitespace_char, join, parse_u64, parse_u64_spec, quote_debug, repeat,
    chars_eq, contains_char, join_chars, repeat_char, replace_all, replace_pat, slice_chars, starts_with, string_of,
};

verus! {

broadcast use vstd::string::group_string_axioms;

/// The value a flag holds.
#[derive(Debug, Clone, PartialEq, Eq)]
pub enum Value {
    /// A boolean flag.
    Bool(bool),
    /// A string flag.
    Str(String),
    /// An unsigned integer flag.
    Uint(u64),
}

/// What a flag value is.
pub enum ValueView {
    Bool(bool),
    Str(Seq<char>),
    Uint(u64),
}

impl View for Value {
    type V = ValueView;

    open spec fn view(&self) -> ValueView {
        match self {
            Value::Bool(b) => ValueView::Bool(*b),
            Value::Str(s) => ValueView::Str(s@),
            Value::Uint(u) => ValueView::Uint(*u),
        }
    }
}

/// Whether a value is its type's zero value.
pub open spec fn value_is_zero(v: ValueView) -> bool {
    match v {
        ValueView::Bool(b) => !b,
        ValueView::Str(s) => s.len() == 0,
        ValueView::Uint(u) => u == 0,
    }
}

/// How a default value is written in help output.
pub open spec fn def_string(v: ValueView) -> Seq<char> {
    match v {
        ValueView::Bool(b) => if b { "true"@ } else { "false"@ },
        ValueView::Str(s) => s,
        ValueView::Uint(u) => decimal(u as nat),
    }
}

/// Whether a value is boolean, so that its flag takes no separate argument.
pub open spec fn is_bool_value(v: ValueView) -> bool {
    v is Bool
}

fn copy_value(v: &Value) -> (r: Value)
    ensures
        r@ == v@,
{
    match v {
        Value::Bool(b) => Value::Bool(*b),
        Value::Str(s) => Value::Str(s.clone()),
        Value::Uint(u) => Value::Uint(*u),
    }
}

impl Value {
    fn to_def_string(&self) -> (r: Vec<char>)
        ensures
            r@ == def_string(self@),
    {
        match self {
            Value::Bool(b) => if *b {
                chars_of("true")
            } else {
                chars_of("false")
            },
            Value::Str(s) => chars_of(s.as_str()),
            Value::Uint(u) => decimal_of(*u),
        }
    }

    fn is_zero(&self) -> (r: bool)
        ensures
            r == value_is_zero(self@),
    {
        match self {
            Value::Bool(b) => !*b,
            Value::Str(s) => s.as_str().is_empty(),
            Value::Uint(u) => *u == 0,
        }
    }
}

/// One command-line flag.
#[derive(Debug, Clone)]
pub struct Flag {
    /// Long name, without the leading dashes.
    pub name: String,
    /// Single-character shorthand, or empty.
    pub shorthand: String,
    /// Help text.
    pub usage: String,
    /// Current value.
    pub value: Value,
    /// The value as it was before any parsing, for the `(default …)` note.
    pub default: Value,
    /// Whether the flag appeared on the command line.
    pub changed: bool,
    /// Whether the flag is omitted from help output.
    pub hidden: bool,
}

/// What a flag is.
pub struct FlagView {
    pub name: Seq<char>,
    pub shorthand: Seq<char>,
    pub usage: Seq<char>,
    pub value: ValueView,
    pub default: ValueView,
    pub changed: bool,
    pub hidden: bool,
}

impl View for Flag {
    type V = FlagView;

    open spec fn view(&self) -> FlagView {
        FlagView {
            name: self.name@,
            shorthand: self.shorthand@,
            usage: self.usage@,
            value: self.value@,
            default: self.default@,
            changed: self.changed,
            hidden: self.hidden,
        }
    }
}

/// A freshly declared flag: its value is its default and it is unchanged.
pub open spec fn new_flag(name: Seq<char>, shorthand: Seq<char>, default: ValueView, usage: Seq<char>) -> FlagView {
    FlagView {
        name,
        shorthand,
        usage,
        value: default,
        default,
        changed: false,
        hidden: false,
    }
}

fn copy_flag(f: &Flag) -> (r: Flag)
    ensures
        r@ == f@,
{
    Flag {
        name: f.name.clone(),
        shorthand: f.shorthand.clone(),
        usage: f.usage.clone(),
        value: copy_value(&f.value),
        default: copy_value(&f.default),
        changed: f.changed,
        hidden: f.hidden,
    }
}

impl Flag {
    /// A boolean flag.
    pub fn bool(name: &str, shorthand: &str, default: bool, usage: &str) -> (r: Flag)
        ensures
            r@ == new_flag(name@, shorthand@, ValueView::Bool(default), usage@),
    {
        Flag::new(name, shorthand, Value::Bool(default), usage)
    }

    /// A string flag.
    pub fn string(name: &str, shorthand: &str, default: &str, usage: &str) -> (r: Flag)
        ensures
            r@ == new_flag(name@, shorthand@, ValueView::Str(default@), usage@),
    {
        Flag::new(name, shorthand, Value::Str(default.to_owned()), usage)
    }

    /// An unsigned integer flag.
    pub fn uint(name: &str, shorthand: &str, default: u64, usage: &str) -> (r: Flag)
        ensures
            r@ == new_flag(name@, shorthand@, ValueView::Uint(default), usage@),
    {
        Flag::new(name, shorthand, Value::Uint(default), usage)
    }

    fn new(name: &str, shorthand: &str, default: Value, usage: &str) -> (r: Flag)
        ensures
            r@ == new_flag(name@, shorthand@, default@, usage@),
    {
        let value = copy_value(&default);
        Flag {
            name: name.to_owned(),
            shorthand: shorthand.to_owned(),
            usage: usage.to_owned(),
            value,
            default,
            changed: false,
            hidden: false,
        }
    }

    /// Marks the flag hidden.
    pub fn hidden(self) -> (r: Flag)
        ensures
            r@ == (FlagView { hidden: true, ..self@ }),
    {
        let mut f = self;
        f.hidden = true;
        f
    }

    fn is_bool(&self) -> (r: bool)
        ensures
            r == is_bool_value(self.value@),
    {
        match self.value {
            Value::Bool(_) => true,
            _ => false,
        }
    }
}

/// The index of the first flag named `name`, from `i` on.
pub open spec fn find_flag_from(fs: Seq<FlagView>, name: Seq<char>, i: int) -> Option<int>
    decreases fs.len() - i,
{
    if i < 0 || i >= fs.len() {
        None
    } else if fs[i].name == name {
        Some(i)
    } else {
        find_flag_from(fs, name, i + 1)
    }
}

/// The index of the first flag named `name`.
pub open spec fn find_flag(fs: Seq<FlagView>, name: Seq<char>) -> Option<int> {
    find_flag_from(fs, name, 0)
}

/// Whether a flag's shorthand starts with `c`.
pub open spec fn has_shorthand(f: FlagView, c: char) -> bool {
    f.shorthand.len() > 0 && f.shorthand[0] == c
}

/// The index of the first flag whose shorthand starts with `c`, from `i` on.
pub open spec fn find_short_from(fs: Seq<FlagView>, c: char, i: int) -> Option<int>
    decreases fs.len() - i,
{
    if i < 0 || i >= fs.len() {
        None
    } else if has_shorthand(fs[i], c) {
        Some(i)
    } else {
        find_short_from(fs, c, i + 1)
    }
}

/// The index of the first flag whose shorthand starts with `c`.
pub open spec fn find_short(fs: Seq<FlagView>, c: char) -> Option<int> {
    find_short_from(fs, c, 0)
}

/// The flags whose names are not among `names`, in order.
pub open spec fn flags_without(fs: Seq<FlagView>, names: Seq<Seq<char>>) -> Seq<FlagView>
    decreases fs.len(),
{
    if fs.len() == 0 {
        fs
    } else if names.contains(fs.last().name) {
        flags_without(fs.drop_last(), names)
    } else {
        flags_without(fs.drop_last(), names).push(fs.last())
    }
}

/// Whether some flag is not hidden.
pub open spec fn any_visible(fs: Seq<FlagView>) -> bool {
    exists|i: int| 0 <= i < fs.len() && !(#[trigger] fs[i]).hidden
}

/// Whether `a` sorts strictly before `b`, character by character.
pub open spec fn name_lt(a: Seq<char>, b: Seq<char>) -> bool
    decreases a.len(),
{
    if a.len() == 0 {
        b.len() > 0
    } else if b.len() == 0 {
        false
    } else if a[0] != b[0] {
        a[0] < b[0]
    } else {
        name_lt(a.drop_first(), b.drop_first())
    }
}

/// The first position from `i` on whose flag sorts after `name`, or the end.
pub open spec fn insert_pos(sorted: Seq<FlagView>, name: Seq<char>, i: int) -> int
    decreases sorted.len() - i,
{
    if i < 0 || i >= sorted.len() {
        sorted.len() as int
    } else if name_lt(name, sorted[i].name) {
        i
    } else {
        insert_pos(sorted, name, i + 1)
    }
}

/// `s` sorted by name, equal names keeping their order.
pub open spec fn sort_by_name(s: Seq<FlagView>) -> Seq<FlagView>
    decreases s.len(),
{
    if s.len() == 0 {
        s
    } else {
        let sorted = sort_by_name(s.drop_last());
        sorted.insert(insert_pos(sorted, s.last().name, 0), s.last())
    }
}

/// The flags that are not hidden, in order.
pub open spec fn visible(fs: Seq<FlagView>) -> Seq<FlagView>
    decreases fs.len(),
{
    if fs.len() == 0 {
        fs
    } else if fs.last().hidden {
        visible(fs.drop_last())
    } else {
        visible(fs.drop_last()).push(fs.last())
    }
}

/// The placeholder after a flag that takes a value.
pub open spec fn varname(v: ValueView) -> Seq<char> {
    match v {
        ValueView::Bool(_) => Seq::empty(),
        ValueView::Str(_) => "string"@,
        ValueView::Uint(_) => "uint"@,
    }
}

/// The left column of a flag's usage line.
pub open spec fn usage_head(f: FlagView) -> Seq<char> {
    (if f.shorthand.len() == 0 {
        "      --"@ + f.name
    } else {
        "  -"@ + f.shorthand + ", --"@ + f.name
    }) + (if varname(f.value).len() > 0 {
        seq![' '] + varname(f.value)
    } else {
        Seq::empty()
    })
}

/// The right column: the help text and, for a non-zero default, a note.
pub open spec fn usage_tail(f: FlagView) -> Seq<char> {
    f.usage + (if value_is_zero(f.default) {
        Seq::empty()
    } else if f.default is Str {
        " (default "@ + debug_quoted(def_string(f.default)) + ")"@
    } else {
        " (default "@ + def_string(f.default) + ")"@
    })
}

/// The widest left column plus one, over `ls`.
pub open spec fn usage_width(ls: Seq<FlagView>) -> int
    decreases ls.len(),
{
    if ls.len() == 0 {
        0
    } else {
        let w = usage_head(ls.last()).len() as int + 1;
        let m = usage_width(ls.drop_last());
        if w > m { w } else { m }
    }
}

/// The usage lines of `ls`, aligned on `width`.
pub open spec fn usage_lines(ls: Seq<FlagView>, width: int) -> Seq<char>
    decreases ls.len(),
{
    if ls.len() == 0 {
        Seq::empty()
    } else {
        let f = ls.last();
        usage_lines(ls.drop_last(), width) + usage_head(f) + seq![' ']
            + repeat(' ', (width - usage_head(f).len()) as nat) + seq![' '] + usage_tail(f)
            + seq!['\n']
    }
}

/// pflag's `FlagUsages`: the visible flags sorted by name, one per line, with
/// the help text aligned one column past the widest flag.
pub open spec fn flag_usages_spec(fs: Seq<FlagView>) -> Seq<char> {
    let ls = sort_by_name(visible(fs));
    usage_lines(ls, usage_width(ls))
}

/// Whether `a` sorts strictly before `b`, character by character.
pub fn chars_lt(a: &Vec<char>, b: &Vec<char>) -> (r: bool)
    ensures
        r == name_lt(a@, b@),
{
    let mut k: usize = 0;
    assert(a@.skip(0) =~= a@);
    assert(b@.skip(0) =~= b@);
    while k < a.len() && k < b.len() && a[k] == b[k]
        invariant
            k <= a.len(),
            k <= b.len(),
            name_lt(a@, b@) == name_lt(a@.skip(k as int), b@.skip(k as int)),
        decreases a.len() - k,
    {
        assert(a@.skip(k as int).drop_first() =~= a@.skip(k + 1));
        assert(b@.skip(k as int).drop_first() =~= b@.skip(k + 1));
        k += 1;
    }
    if k == a.len() {
        k < b.len()
    } else if k == b.len() {
        false
    } else {
        a[k] < b[k]
    }
}

fn head_of(f: &Flag) -> (r: Vec<char>)
    ensures
        r@ == usage_head(f@),
{
    let mut h: Vec<char> = Vec::new();
    if f.shorthand.as_str().is_empty() {
        extend_str(&mut h, "      --");
        extend_str(&mut h, f.name.as_str());
    } else {
        extend_str(&mut h, "  -");
        extend_str(&mut h, f.shorthand.as_str());
        extend_str(&mut h, ", --");
        extend_str(&mut h, f.name.as_str());
    }
    let ghost left = h@;
    match f.value {
        Value::Bool(_) => {},
        Value::Str(_) => {
            h.push(' ');
            extend_str(&mut h, "string");
        },
        Value::Uint(_) => {
            h.push(' ');
            extend_str(&mut h, "uint");
        },
    }
    proof {
        reveal_strlit("string");
        reveal_strlit("uint");
        assert(h@ =~= usage_head(f@));
    }
    h
}

fn tail_of(f: &Flag) -> (r: Vec<char>)
    ensures
        r@ == usage_tail(f@),
{
    let mut t = chars_of(f.usage.as_str());
    if !f.default.is_zero() {
        let d = f.default.to_def_string();
        extend_str(&mut t, " (default ");
        match f.default {
            Value::Str(_) => {
                let q = quote_debug(&d);
                extend_chars(&mut t, &q);
            },
            _ => extend_chars(&mut t, &d),
        }
        extend_str(&mut t, ")");
    }
    proof {
        assert(t@ =~= usage_tail(f@));
    }
    t
}

/// A user-facing failure, printed as `Error: <message>`.
#[derive(Debug, Clone)]
pub struct Error(pub String);

/// Go's `strconv.ParseBool` spellings.
pub open spec fn parse_bool_spec(raw: Seq<char>) -> Option<bool> {
    if raw == "1"@ || raw == "t"@ || raw == "T"@ || raw == "true"@ || raw == "TRUE"@ || raw
        == "True"@ {
        Some(true)
    } else if raw == "0"@ || raw == "f"@ || raw == "F"@ || raw == "false"@ || raw == "FALSE"@
        || raw == "False"@ {
        Some(false)
    } else {
        None
    }
}

/// How an error message names a flag: by its own definition, whichever
/// spelling was used.
pub open spec fn flag_display(f: FlagView) -> Seq<char> {
    if f.shorthand.len() == 0 {
        "--"@ + f.name
    } else {
        "-"@ + f.shorthand + ", --"@ + f.name
    }
}

/// The message for a value that does not parse as the flag's type.
pub open spec fn invalid_argument(raw: Seq<char>, f: FlagView, parser: Seq<char>) -> Seq<char> {
    "invalid argument "@ + debug_quoted(raw) + " for \""@ + flag_display(f) + "\" flag: "@
        + parser + ": parsing "@ + debug_quoted(raw) + ": invalid syntax"@
}

/// The flag with a new value, marked as given.
pub open spec fn with_value(f: FlagView, v: ValueView) -> FlagView {
    FlagView { value: v, changed: true, ..f }
}

/// Setting the flag named `name` from the text `raw`.
pub open spec fn set_flag_spec(fs: Seq<FlagView>, name: Seq<char>, raw: Seq<char>) -> Result<Seq<FlagView>, Seq<char>> {
    match find_flag(fs, name) {
        None => Err("unknown flag: --"@ + name),
        Some(i) => {
            let f = fs[i];
            match f.value {
                ValueView::Bool(_) => match parse_bool_spec(raw) {
                    Some(b) => Ok(fs.update(i, with_value(f, ValueView::Bool(b)))),
                    None => Err(invalid_argument(raw, f, "strconv.ParseBool"@)),
                },
                ValueView::Str(_) => Ok(fs.update(i, with_value(f, ValueView::Str(raw)))),
                ValueView::Uint(_) => match parse_u64_spec(raw) {
                    Some(u) => Ok(fs.update(i, with_value(f, ValueView::Uint(u)))),
                    None => Err(invalid_argument(raw, f, "strconv.ParseUint"@)),
                },
            }
        },
    }
}

/// A run of shorthand flags such as `-abc` or `-w40`, from position `j` of
/// `arg`: the flags afterwards, and whether the value came from the next
/// argument `next`.
pub open spec fn shorts_spec(fs: Seq<FlagView>, arg: Seq<char>, j: int, next: Option<Seq<char>>) -> Result<(Seq<FlagView>, bool), Seq<char>>
    decreases arg.len() - j,
{
    if j < 1 || j >= arg.len() {
        Ok((fs, false))
    } else {
        let c = arg[j];
        match find_short(fs, c) {
            None => Err("unknown shorthand flag: '"@ + seq![c] + "' in "@ + arg),
            Some(k) => {
                let name = fs[k].name;
                if is_bool_value(fs[k].value) {
                    match set_flag_spec(fs, name, "true"@) {
                        Ok(fs2) => shorts_spec(fs2, arg, j + 1, next),
                        Err(e) => Err(e),
                    }
                } else {
                    let rest = arg.skip(j + 1);
                    let value = if rest.len() > 0 && rest[0] == '=' {
                        Some(rest.skip(1))
                    } else if rest.len() > 0 {
                        Some(rest)
                    } else {
                        next
                    };
                    match value {
                        None => Err("flag needs an argument: '"@ + seq![c] + "' in "@ + arg),
                        Some(v) => match set_flag_spec(fs, name, v) {
                            Ok(fs2) => Ok((fs2, rest.len() == 0)),
                            Err(e) => Err(e),
                        },
                    }
                }
            },
        }
    }
}

/// A long flag `--name`, `--name=value` or `--name value`: the flags
/// afterwards, and whether the value came from the next argument `next`.
pub open spec fn long_spec(fs: Seq<FlagView>, arg: Seq<char>, next: Option<Seq<char>>) -> Result<(Seq<FlagView>, bool), Seq<char>> {
    let (name, inline) = cut_at(arg.skip(2), '=');
    match find_flag(fs, name) {
        None => Err("unknown flag: --"@ + name),
        Some(k) => {
            let value = match inline {
                Some(v) => Some(v),
                None => if is_bool_value(fs[k].value) {
                    Some("true"@)
                } else {
                    next
                },
            };
            match value {
                None => Err("flag needs an argument: --"@ + name),
                Some(v) => match set_flag_spec(fs, name, v) {
                    Ok(fs2) => Ok((fs2, inline is None && !is_bool_value(fs[k].value))),
                    Err(e) => Err(e),
                },
            }
        },
    }
}

/// pflag's parsing loop over `argv` from position `i`: long flags with or
/// without `=`, shorthand runs, and `--`; everything else is positional.
pub open spec fn parse_flags_spec(fs: Seq<FlagView>, argv: Seq<Seq<char>>, i: int, pos: Seq<Seq<char>>) -> Result<(Seq<FlagView>, Seq<Seq<char>>), Seq<char>>
    decreases argv.len() + 1 - i,
{
    if i < 0 || i >= argv.len() {
        Ok((fs, pos))
    } else {
        let arg = argv[i];
        let next = if i + 1 < argv.len() {
            Some(argv[i + 1])
        } else {
            None
        };
        if arg == "--"@ {
            Ok((fs, pos + argv.skip(i + 1)))
        } else if has_prefix(arg, "--"@) {
            match long_spec(fs, arg, next) {
                Ok((fs2, took)) => parse_flags_spec(fs2, argv, if took { i + 2 } else { i + 1 }, pos),
                Err(e) => Err(e),
            }
        } else if arg.len() > 1 && arg[0] == '-' {
            match shorts_spec(fs, arg, 1, next) {
                Ok((fs2, took)) => parse_flags_spec(fs2, argv, if took { i + 2 } else { i + 1 }, pos),
                Err(e) => Err(e),
            }
        } else {
            parse_flags_spec(fs, argv, i + 1, pos.push(arg))
        }
    }
}

/// Parsing does not depend on what came before: the arguments after a
/// prefix `p` parse from where `p` ends exactly as they parse on their own.
#[verifier::spinoff_prover]
#[verifier::rlimit(60)]
proof fn lemma_parse_shift(fs: Seq<FlagView>, p: Seq<Seq<char>>, xs: Seq<Seq<char>>, i: int, pos: Seq<Seq<char>>)
    requires
        0 <= i,
    ensures
        parse_flags_spec(fs, p + xs, p.len() + i, pos) == parse_flags_spec(fs, xs, i, pos),
    decreases xs.len() + 1 - i,
{
    let argv = p + xs;
    if i < xs.len() {
        assert(argv[p.len() + i] == xs[i]);
        if i + 1 < xs.len() {
            assert(argv[p.len() + i + 1] == xs[i + 1]);
        }
        assert(argv.skip(p.len() + i + 1) =~= xs.skip(i + 1));
        let arg = xs[i];
        let next = if i + 1 < xs.len() { Some(xs[i + 1]) } else { None };
        if arg == "--"@ {
        } else if has_prefix(arg, "--"@) {
            match long_spec(fs, arg, next) {
                Ok((fs2, took)) => lemma_parse_shift(fs2, p, xs, if took { i + 2 } else { i + 1 }, pos),
                Err(_) => {},
            }
        } else if arg.len() > 1 && arg[0] == '-' {
            match shorts_spec(fs, arg, 1, next) {
                Ok((fs2, took)) => lemma_parse_shift(fs2, p, xs, if took { i + 2 } else { i + 1 }, pos),
                Err(_) => {},
            }
        } else {
            lemma_parse_shift(fs, p, xs, i + 1, pos.push(arg));
        }
    }
}

/// A shorthand flag that takes a value reads it the same in every spelling:
/// `-w=40`, `-w40` and `-w 40` set the flag to `40` alike, and the
/// arguments after it parse the same.
pub proof fn lemma_short_flag_value_spellings(
    fs: Seq<FlagView>,
    c: char,
    v: Seq<char>,
    xs: Seq<Seq<char>>,
    pos: Seq<Seq<char>>,
)
    requires
        c != '-',
        find_short(fs, c) matches Some(k) && !is_bool_value(fs[k].value),
    ensures
        parse_flags_spec(fs, seq![seq!['-', c, '='] + v] + xs, 0, pos)
            == parse_flags_spec(fs, seq![seq!['-', c], v] + xs, 0, pos),
        v.len() > 0 && v[0] != '=' ==> parse_flags_spec(fs, seq![seq!['-', c] + v] + xs, 0, pos)
            == parse_flags_spec(fs, seq![seq!['-', c], v] + xs, 0, pos),
{
    reveal_strlit("--");
    let k = find_short(fs, c)->0;
    let name = fs[k].name;
    let eq = seq!['-', c, '='] + v;
    let two = seq![seq!['-', c], v];
    let a1 = seq![eq] + xs;
    let a2 = two + xs;
    assert(a1[0] == eq);
    assert(a2[0] == seq!['-', c]);
    assert(a2[1] == v);
    assert(eq != "--"@) by {
        assert(eq.len() >= 3);
    }
    assert(!has_prefix(eq, "--"@)) by {
        assert(eq.take(2)[1] == c);
    }
    assert(seq!['-', c] != "--"@) by {
        assert(seq!['-', c][1] == c);
    }
    assert(!has_prefix(seq!['-', c], "--"@)) by {
        assert(seq!['-', c].take(2)[1] == c);
    }
    assert(eq[1] == c);
    assert(eq.skip(2) =~= seq!['='] + v);
    assert((seq!['='] + v).skip(1) =~= v);
    match set_flag_spec(fs, name, v) {
        Ok(fs2) => {
            lemma_parse_shift(fs2, seq![eq], xs, 0, pos);
            lemma_parse_shift(fs2, two, xs, 0, pos);
        },
        Err(_) => {},
    }
    if v.len() > 0 && v[0] != '=' {
        let att = seq!['-', c] + v;
        let a3 = seq![att] + xs;
        assert(a3[0] == att);
        assert(att[1] == c);
        assert(att != "--"@) by {
            if att.len() == 2 {
                assert(att[1] == c);
            }
        }
        assert(!has_prefix(att, "--"@)) by {
            assert(att.take(2)[1] == c);
        }
        assert(att.skip(2) =~= v);
        match set_flag_spec(fs, name, v) {
            Ok(fs2) => {
                lemma_parse_shift(fs2, seq![att], xs, 0, pos);
            },
            Err(_) => {},
        }
    }
}

/// A long flag that takes a value reads it the same in both spellings:
/// `--width=40` and `--width 40` set the flag to `40` alike, and the
/// arguments after it parse the same.
pub proof fn lemma_long_flag_value_spellings(
    fs: Seq<FlagView>,
    name: Seq<char>,
    v: Seq<char>,
    xs: Seq<Seq<char>>,
    pos: Seq<Seq<char>>,
)
    requires
        name.len() > 0,
        forall|i: int| 0 <= i < name.len() ==> name[i] != '=',
        find_flag(fs, name) matches Some(k) && !is_bool_value(fs[k].value),
    ensures
        parse_flags_spec(fs, seq![seq!['-', '-'] + name + seq!['='] + v] + xs, 0, pos)
            == parse_flags_spec(fs, seq![seq!['-', '-'] + name, v] + xs, 0, pos),
{
    reveal_strlit("--");
    let joined = seq!['-', '-'] + name + seq!['='] + v;
    let bare = seq!['-', '-'] + name;
    let two = seq![bare, v];
    let a1 = seq![joined] + xs;
    let a2 = two + xs;
    assert(a1[0] == joined);
    assert(a2[0] == bare);
    assert(a2[1] == v);
    assert(joined != "--"@) by {
        assert(joined.len() > 2);
    }
    assert(bare != "--"@) by {
        assert(bare.len() > 2);
    }
    assert(joined.take(2) =~= "--"@);
    assert(bare.take(2) =~= "--"@);
    let t1 = joined.skip(2);
    assert(t1 =~= name + seq!['='] + v);
    assert forall|i: int| 0 <= i < name.len() implies t1[i] != '=' by {
        assert(t1[i] == name[i]);
    }
    crate::text::lemma_find_from_skip(t1, '=', 0, name.len() as int);
    assert(t1[name.len() as int] == '=');
    assert(t1.take(name.len() as int) =~= name);
    assert(t1.skip(name.len() as int + 1) =~= v);
    assert(cut_at(t1, '=') == (name, Some(v)));
    let t2 = bare.skip(2);
    assert(t2 =~= name);
    crate::text::lemma_find_from_none(t2, '=', 0);
    assert(cut_at(t2, '=') == (name, None::<Seq<char>>));
    match set_flag_spec(fs, name, v) {
        Ok(fs2) => {
            lemma_parse_shift(fs2, seq![joined], xs, 0, pos);
            lemma_parse_shift(fs2, two, xs, 0, pos);
        },
        Err(_) => {},
    }
}

/// Whether `arg` reads as a word rather than a flag: `-` itself, or
/// anything that does not start with `-`.
pub open spec fn is_plain_word(arg: Seq<char>) -> bool {
    !(arg.len() > 1 && arg[0] == '-')
}

/// Everything after `--` is positional: words before it are kept in order,
/// and no argument after it is read as a flag, whatever it looks like; the
/// flags are left as they were.
pub proof fn lemma_double_dash_ends_flags(
    fs: Seq<FlagView>,
    xs: Seq<Seq<char>>,
    ys: Seq<Seq<char>>,
    i: int,
    pos: Seq<Seq<char>>,
)
    requires
        0 <= i <= xs.len(),
        forall|k: int| 0 <= k < xs.len() ==> is_plain_word(#[trigger] xs[k]),
    ensures
        parse_flags_spec(fs, xs + seq!["--"@] + ys, i, pos) == Ok::<(Seq<FlagView>, Seq<Seq<char>>), Seq<char>>(
            (fs, pos + xs.skip(i) + ys),
        ),
    decreases xs.len() - i,
{
    reveal_strlit("--");
    let argv = xs + seq!["--"@] + ys;
    if i == xs.len() {
        assert(argv[i] == "--"@);
        assert(argv.skip(i + 1) =~= ys);
        assert(xs.skip(i) =~= Seq::<Seq<char>>::empty());
        assert(pos + xs.skip(i) + ys =~= pos + ys);
    } else {
        let arg = argv[i];
        assert(arg == xs[i]);
        assert(is_plain_word(arg));
        assert(arg != "--"@);
        assert(!has_prefix(arg, "--"@)) by {
            if has_prefix(arg, "--"@) {
                assert(arg.take(2)[0] == arg[0]);
            }
        }
        lemma_double_dash_ends_flags(fs, xs, ys, i + 1, pos.push(arg));
        assert(pos.push(arg) + xs.skip(i + 1) =~= pos + xs.skip(i));
    }
}

/// Whether `arg`, which starts with `-`, swallows the argument after it when
/// sub-commands are looked for: a flag never heard of is assumed to take a
/// value.
pub open spec fn swallows_next(arg: Seq<char>, fs: Seq<FlagView>) -> bool {
    if has_prefix(arg, "--"@) {
        let name = arg.skip(2);
        if has_char(name, '=') {
            false
        } else {
            !(find_flag(fs, name) matches Some(k) && is_bool_value(fs[k].value))
        }
    } else if arg.len() == 2 && (arg[1] as u32) < 0x80 && arg[1] != '=' {
        !(find_short(fs, arg[1]) matches Some(k) && is_bool_value(fs[k].value))
    } else {
        false
    }
}

/// One level's parsed flags folded into what the caller sees: a flag given
/// at that level overrides, one not seen before is added.
pub open spec fn merge_flags(dst: Seq<FlagView>, src: Seq<FlagView>) -> Seq<FlagView>
    decreases src.len(),
{
    if src.len() == 0 {
        dst
    } else {
        let d = merge_flags(dst, src.drop_last());
        let f = src.last();
        match find_flag(d, f.name) {
            Some(k) => if f.changed {
                d.update(k, with_value(d[k], f.value))
            } else {
                d
            },
            None => d.push(f),
        }
    }
}

/// The views of a vector of character vectors.
pub open spec fn views(v: Seq<Vec<char>>) -> Seq<Seq<char>> {
    v.map_values(|x: Vec<char>| x@)
}

fn msg2(a: &str, b: &Vec<char>) -> (r: Error)
    ensures
        r.0@ == a@ + b@,
{
    let mut m = chars_of(a);
    extend_chars(&mut m, b);
    Error(string_of(&m))
}

fn short_msg(a: &str, c: char, arg: &Vec<char>) -> (r: Error)
    ensures
        r.0@ == a@ + seq![c] + "' in "@ + arg@,
{
    let mut m = chars_of(a);
    m.push(c);
    extend_str(&mut m, "' in ");
    extend_chars(&mut m, arg);
    proof {
        assert(m@ =~= a@ + seq![c] + "' in "@ + arg@);
    }
    Error(string_of(&m))
}

fn parse_bool_exec(raw: &Vec<char>) -> (r: Option<bool>)
    ensures
        r == parse_bool_spec(raw@),
{
    if eq_str(raw, "1") || eq_str(raw, "t") || eq_str(raw, "T") || eq_str(raw, "true") || eq_str(
        raw,
        "TRUE",
    ) || eq_str(raw, "True") {
        Some(true)
    } else if eq_str(raw, "0") || eq_str(raw, "f") || eq_str(raw, "F") || eq_str(raw, "false")
        || eq_str(raw, "FALSE") || eq_str(raw, "False") {
        Some(false)
    } else {
        None
    }
}

fn invalid_argument_msg(raw: &Vec<char>, f: &Flag, parser: &str) -> (r: Error)
    ensures
        r.0@ == invalid_argument(raw@, f@, parser@),
{
    let q = quote_debug(raw);
    let mut m = chars_of("invalid argument ");
    extend_chars(&mut m, &q);
    extend_str(&mut m, " for \"");
    if f.shorthand.as_str().is_empty() {
        extend_str(&mut m, "--");
    } else {
        extend_str(&mut m, "-");
        extend_str(&mut m, f.shorthand.as_str());
        extend_str(&mut m, ", --");
    }
    extend_str(&mut m, f.name.as_str());
    extend_str(&mut m, "\" flag: ");
    extend_str(&mut m, parser);
    extend_str(&mut m, ": parsing ");
    extend_chars(&mut m, &q);
    extend_str(&mut m, ": invalid syntax");
    proof {
        assert(m@ =~= invalid_argument(raw@, f@, parser@));
    }
    Error(string_of(&m))
}

/// Where the first whitespace character of `t` is, from `i` on.
pub open spec fn word_end(t: Seq<char>, i: int) -> int
    decreases t.len() - i,
{
    if i < 0 || i >= t.len() {
        t.len() as int
    } else if is_whitespace(t[i]) {
        i
    } else {
        word_end(t, i + 1)
    }
}

/// The first whitespace-separated word of `s`, or nothing.
pub open spec fn first_word(s: Seq<char>) -> Seq<char> {
    let t = trim_start_ws(s);
    t.take(word_end(t, 0))
}

/// How many positional arguments a command accepts.
#[derive(Debug, Clone, Copy, PartialEq, Eq, Structural)]
pub enum Args {
    /// Any number.
    Arbitrary,
    /// None at all.
    NoArgs,
    /// At most `n`.
    MaximumN(usize),
    /// Exactly `n`.
    ExactArgs(usize),
}

/// A command in the tree.
#[derive(Debug)]
pub struct Command {
    /// Stable identifier used by the caller to dispatch.
    pub id: &'static str,
    /// The `Use` line: name plus argument placeholders.
    pub use_line: String,
    /// One-line description.
    pub short: String,
    /// Long description shown above the usage block.
    pub long: String,
    /// Example block.
    pub example: String,
    /// Whether the command is omitted from the command list.
    pub hidden: bool,
    /// Whether the command can run itself.
    pub runnable: bool,
    /// Whether `[flags]` is kept off the use line.
    pub disable_flags_in_use_line: bool,
    /// Positional-argument rule.
    pub args: Args,
    /// Flags local to this command.
    pub flags: FlagSet,
    /// Flags inherited by every descendant.
    pub persistent_flags: FlagSet,
    /// Sub-commands, in declaration order.
    pub children: Vec<Command>,
}

impl Command {
    /// A runnable command with no flags, accepting any arguments.
    pub fn new(id: &'static str, use_line: &str, short: &str) -> (r: Command)
        ensures
            r.id == id,
            r.use_line@ == use_line@,
            r.short@ == short@,
            r.long@.len() == 0,
            r.example@.len() == 0,
            !r.hidden,
            r.runnable,
            !r.disable_flags_in_use_line,
            r.args == Args::Arbitrary,
            r.flags@.len() == 0,
            r.persistent_flags@.len() == 0,
            r.children@.len() == 0,
    {
        Command {
            id,
            use_line: use_line.to_owned(),
            short: short.to_owned(),
            long: String::new(),
            example: String::new(),
            hidden: false,
            runnable: true,
            disable_flags_in_use_line: false,
            args: Args::Arbitrary,
            flags: FlagSet::new(),
            persistent_flags: FlagSet::new(),
            children: Vec::new(),
        }
    }

    /// The first word of the use line.
    pub fn name(&self) -> (r: String)
        ensures
            r@ == first_word(self.use_line@),
    {
        string_of(&first_word_exec(&chars_of(self.use_line.as_str())))
    }
}

fn first_word_exec(v: &Vec<char>) -> (r: Vec<char>)
    ensures
        r@ == first_word(v@),
{
    let mut a: usize = 0;
    assert(v@.skip(0) =~= v@);
    while a < v.len() && is_whitespace_char(v[a])
        invariant
            a <= v.len(),
            trim_start_ws(v@) == trim_start_ws(v@.skip(a as int)),
        decreases v.len() - a,
    {
        assert(v@.skip(a as int).skip(1) =~= v@.skip(a + 1));
        a += 1;
    }
    let ghost t = v@.skip(a as int);
    assert(trim_start_ws(v@) == t);
    let mut b: usize = a;
    while b < v.len() && !is_whitespace_char(v[b])
        invariant
            a <= b <= v.len(),
            t == v@.skip(a as int),
            word_end(t, 0) == word_end(t, b - a),
        decreases v.len() - b,
    {
        b += 1;
    }
    let r = slice_chars(v, a, b);
    assert(r@ =~= t.take(b - a));
    r
}

/// The child `i` of `c`, or `c` itself when there is none.
pub open spec fn child_of(c: Command, i: int) -> Command {
    if 0 <= i < c.children@.len() {
        c.children@[i]
    } else {
        c
    }
}

/// The command reached by following `path` from `root`.
pub open spec fn cmd_at(root: Command, path: Seq<usize>) -> Command
    decreases path.len(),
{
    if path.len() == 0 {
        root
    } else {
        child_of(cmd_at(root, path.drop_last()), path.last() as int)
    }
}

/// Whether every step of `path` names an existing child.
pub open spec fn valid_path(root: Command, path: Seq<usize>) -> bool
    decreases path.len(),
{
    path.len() == 0 || (valid_path(root, path.drop_last()) && path.last() < cmd_at(
        root,
        path.drop_last(),
    ).children@.len())
}

proof fn lemma_valid_prefix(root: Command, p: Seq<usize>, k: int)
    requires
        valid_path(root, p),
        0 <= k < p.len(),
    ensures
        valid_path(root, p.take(k)),
        p[k] < cmd_at(root, p.take(k)).children@.len(),
        cmd_at(root, p.take(k + 1)) == child_of(cmd_at(root, p.take(k)), p[k] as int),
        valid_path(root, p.take(k + 1)),
    decreases p.len(),
{
    assert(p.take(k + 1).drop_last() =~= p.take(k));
    if k == p.len() - 1 {
        assert(p.take(k) =~= p.drop_last());
        assert(p.take(k + 1) =~= p);
    } else {
        lemma_valid_prefix(root, p.drop_last(), k);
        assert(p.drop_last().take(k) =~= p.take(k));
        assert(p.drop_last().take(k + 1) =~= p.take(k + 1));
    }
}

/// The persistent flags of every command from the root down to `path`.
pub open spec fn persistent_chain(root: Command, path: Seq<usize>) -> Seq<FlagView>
    decreases path.len(),
{
    if path.len() == 0 {
        root.persistent_flags@
    } else {
        persistent_chain(root, path.drop_last()) + cmd_at(root, path).persistent_flags@
    }
}

/// The flags a command inherits from its ancestors.
pub open spec fn inherited(root: Command, path: Seq<usize>) -> Seq<FlagView> {
    if path.len() == 0 {
        Seq::empty()
    } else {
        persistent_chain(root, path.drop_last())
    }
}

/// All flags a command accepts: its own, then everything inherited or
/// persistent on the way down.
pub open spec fn effective(root: Command, path: Seq<usize>) -> Seq<FlagView> {
    cmd_at(root, path).flags@ + persistent_chain(root, path)
}

/// The command names from the root down to `path`.
pub open spec fn path_names(root: Command, path: Seq<usize>) -> Seq<Seq<char>>
    decreases path.len(),
{
    if path.len() == 0 {
        seq![first_word(root.use_line@)]
    } else {
        path_names(root, path.drop_last()).push(first_word(cmd_at(root, path).use_line@))
    }
}

/// The space-separated command names down to `path`.
pub open spec fn command_path_spec(root: Command, path: Seq<usize>) -> Seq<char> {
    join(path_names(root, path), seq![' '])
}

/// The use line, prefixed with the parent's path and suffixed with `[flags]`
/// when the command has flags to show.
pub open spec fn use_line_spec(root: Command, path: Seq<usize>) -> Seq<char> {
    let c = cmd_at(root, path);
    let line = if path.len() == 0 {
        c.use_line@
    } else {
        command_path_spec(root, path.drop_last()) + seq![' '] + c.use_line@
    };
    if !c.disable_flags_in_use_line && !has_suffix(line, "[flags]"@) && (any_visible(c.flags@)
        || any_visible(inherited(root, path)) || (path.len() == 0 && any_visible(
        c.persistent_flags@,
    ))) {
        line + " [flags]"@
    } else {
        line
    }
}

/// Whether a command lists any sub-command.
pub open spec fn has_available(c: Command) -> bool {
    exists|i: int| 0 <= i < c.children@.len() && !(#[trigger] c.children@[i]).hidden
}

/// The widest name among the listed children.
pub open spec fn name_width(cs: Seq<Command>) -> int
    decreases cs.len(),
{
    if cs.len() == 0 {
        0
    } else {
        let w = if cs.last().hidden {
            0
        } else {
            first_word(cs.last().use_line@).len() as int
        };
        let m = name_width(cs.drop_last());
        if w > m { w } else { m }
    }
}

/// The name column's width: the widest name, and at least eleven.
pub open spec fn name_padding(c: Command) -> int {
    let w = name_width(c.children@);
    if w > 11 { w } else { 11 }
}

/// `s` padded with spaces to `n` characters.
pub open spec fn pad_right(s: Seq<char>, n: int) -> Seq<char> {
    if s.len() < n {
        s + repeat(' ', (n - s.len()) as nat)
    } else {
        s
    }
}

/// The "Available Commands" lines.
pub open spec fn command_list(cs: Seq<Command>, pad: int) -> Seq<char>
    decreases cs.len(),
{
    if cs.len() == 0 {
        Seq::empty()
    } else {
        command_list(cs.drop_last(), pad) + if cs.last().hidden {
            Seq::empty()
        } else {
            "\n  "@ + pad_right(first_word(cs.last().use_line@), pad) + seq![' ']
                + cs.last().short@
        }
    }
}

/// Whether `c` is a space, a newline or a tab.
pub open spec fn is_blank(c: char) -> bool {
    c == ' ' || c == '\n' || c == '\t'
}

/// Trailing spaces, newlines and tabs removed.
pub open spec fn trim_blank_end(s: Seq<char>) -> Seq<char>
    decreases s.len(),
{
    if s.len() > 0 && is_blank(s.last()) {
        trim_blank_end(s.drop_last())
    } else {
        s
    }
}

/// The flags listed under "Flags": the command's own, and at the root its
/// persistent ones too.
pub open spec fn local_flags(root: Command, path: Seq<usize>) -> Seq<FlagView> {
    let c = cmd_at(root, path);
    if path.len() == 0 {
        c.flags@ + c.persistent_flags@
    } else {
        c.flags@
    }
}

/// The first half of the usage template: the use lines, the examples and the
/// sub-command list.
pub open spec fn usage_top(root: Command, path: Seq<usize>) -> Seq<char> {
    let c = cmd_at(root, path);
    let cp = command_path_spec(root, path);
    "Usage:"@ + (if c.runnable {
        "\n  "@ + use_line_spec(root, path)
    } else {
        Seq::empty()
    }) + (if has_available(c) {
        "\n  "@ + cp + " [command]"@
    } else {
        Seq::empty()
    }) + (if c.example@.len() > 0 {
        "\n\nExamples:\n"@ + c.example@
    } else {
        Seq::empty()
    }) + (if has_available(c) {
        "\n\nAvailable Commands:"@ + command_list(c.children@, name_padding(c))
    } else {
        Seq::empty()
    })
}

/// The second half of the usage template: the local and inherited flags and
/// the closing hint.
pub open spec fn usage_bottom(root: Command, path: Seq<usize>) -> Seq<char> {
    let c = cmd_at(root, path);
    let cp = command_path_spec(root, path);
    (if any_visible(c.flags@) || (path.len() == 0 && any_visible(c.persistent_flags@)) {
        "\n\nFlags:\n"@ + trim_blank_end(flag_usages_spec(local_flags(root, path)))
    } else {
        Seq::empty()
    }) + (if path.len() > 0 && any_visible(inherited(root, path)) {
        "\n\nGlobal Flags:\n"@ + trim_blank_end(flag_usages_spec(inherited(root, path)))
    } else {
        Seq::empty()
    }) + (if has_available(c) {
        "\n\nUse \""@ + cp + " [command] --help\" for more information about a command."@
    } else {
        Seq::empty()
    }) + seq!['\n']
}

/// cobra's usage template.
pub open spec fn usage_spec(root: Command, path: Seq<usize>) -> Seq<char> {
    usage_top(root, path) + usage_bottom(root, path)
}

/// cobra's help template: the long description (or the short one), then
/// the usage.
pub open spec fn help_spec(root: Command, path: Seq<usize>) -> Seq<char> {
    let c = cmd_at(root, path);
    let long = if c.long@.len() == 0 {
        c.short@
    } else {
        c.long@
    };
    (if long.len() > 0 {
        trim_end_ws(long) + "\n\n"@
    } else {
        Seq::empty()
    }) + usage_spec(root, path)
}

/// A set of flags, in declaration order.
#[derive(Debug, Clone, Default)]
pub struct FlagSet {
    flags: Vec<Flag>,
}

impl View for FlagSet {
    type V = Seq<FlagView>;

    closed spec fn view(&self) -> Seq<FlagView> {
        self.flags@.map_values(|f: Flag| f@)
    }
}

impl FlagSet {
    /// An empty set.
    pub fn new() -> (r: FlagSet)
        ensures
            r@ == Seq::<FlagView>::empty(),
    {
        let r = FlagSet { flags: Vec::new() };
        assert(r@ =~= Seq::<FlagView>::empty());
        r
    }

    /// Adds a flag.
    pub fn add(&mut self, flag: Flag)
        ensures
            final(self)@ == old(self)@.push(flag@),
    {
        self.flags.push(flag);
        assert(self@ =~= old(self)@.push(flag@));
    }

    fn copy(&self) -> (r: FlagSet)
        ensures
            r@ == self@,
    {
        let mut out = FlagSet::new();
        let mut i: usize = 0;
        while i < self.flags.len()
            invariant
                i <= self.flags.len(),
                out@ == self@.take(i as int),
            decreases self.flags.len() - i,
        {
            out.add(copy_flag(&self.flags[i]));
            proof {
                assert(self@.take(i + 1) =~= self@.take(i as int).push(self.flags@[i as int]@));
            }
            i += 1;
        }
        assert(self@.take(self@.len() as int) =~= self@);
        out
    }

    /// A copy of the set without the named flags.
    pub fn without(&self, names: &[&str]) -> (r: FlagSet)
        ensures
            r@ == flags_without(self@, names@.map_values(|s: &str| s@)),
    {
        let ghost ns = names@.map_values(|s: &str| s@);
        let mut out = FlagSet::new();
        let mut i: usize = 0;
        while i < self.flags.len()
            invariant
                i <= self.flags.len(),
                ns == names@.map_values(|s: &str| s@),
                out@ == flags_without(self@.take(i as int), ns),
            decreases self.flags.len() - i,
        {
            let f = &self.flags[i];
            let mut listed = false;
            let mut k: usize = 0;
            let name = chars_of(f.name.as_str());
            while k < names.len()
                invariant
                    k <= names.len(),
                    ns == names@.map_values(|s: &str| s@),
                    name@ == f.name@,
                    listed == (exists|m: int| 0 <= m < k && ns[m] == name@),
                decreases names.len() - k,
            {
                let hit = eq_str(&name, names[k]);
                proof {
                    assert(ns[k as int] == names@[k as int]@);
                    if hit {
                        assert(ns[k as int] == name@);
                    } else if listed {
                        let m = choose|m: int| 0 <= m < k && ns[m] == name@;
                        assert(0 <= m < k + 1 && ns[m] == name@);
                    } else {
                        assert forall|m: int| 0 <= m < k + 1 implies ns[m] != name@ by {
                            if m < k {
                                assert(!(0 <= m < k && ns[m] == name@));
                            }
                        }
                    }
                }
                if hit {
                    listed = true;
                }
                k += 1;
            }
            proof {
                let t = self@.take(i + 1);
                assert(t.drop_last() =~= self@.take(i as int));
                assert(t.last() == f@);
                assert(listed == ns.contains(f@.name)) by {
                    if ns.contains(f@.name) {
                        let m = choose|m: int| 0 <= m < ns.len() && ns[m] == f@.name;
                        assert(0 <= m < k);
                    }
                }
            }
            if !listed {
                out.add(copy_flag(f));
            }
            i += 1;
        }
        assert(self@.take(self@.len() as int) =~= self@);
        out
    }

    /// The flags, in declaration order.
    pub fn iter(&self) -> (r: std::slice::Iter<'_, Flag>)
        ensures
            vstd::std_specs::slice::into_iter_elts(r).map_values(|f: Flag| f@) == self@,
    {
        broadcast use vstd::std_specs::slice::axiom_spec_slice_iter;
        let r = self.flags.iter();
        assert(vstd::std_specs::iter::IteratorSpec::remaining(&r).unref() =~= self.flags@);
        r
    }

    /// How many flags the set holds.
    pub fn len(&self) -> (r: usize)
        ensures
            r == self@.len(),
    {
        self.flags.len()
    }

    /// The flag at position `i`, in declaration order.
    pub fn at(&self, i: usize) -> (r: &Flag)
        requires
            i < self@.len(),
        ensures
            r@ == self@[i as int],
    {
        &self.flags[i]
    }

    /// Looks a flag up by long name.
    pub fn lookup(&self, name: &str) -> (r: Option<&Flag>)
        ensures
            r matches Some(f) ==> find_flag(self@, name@) matches Some(i) && f@ == self@[i],
            r is None ==> find_flag(self@, name@) is None,
    {
        match self.index_of(&chars_of(name)) {
            Some(i) => Some(&self.flags[i]),
            None => None,
        }
    }

    fn index_of(&self, key: &Vec<char>) -> (r: Option<usize>)
        ensures
            r matches Some(i) ==> find_flag(self@, key@) == Some(i as int) && i < self@.len(),
            r is None ==> find_flag(self@, key@) is None,
    {
        let ghost name = key@;
        let mut i: usize = 0;
        while i < self.flags.len()
            invariant
                i <= self.flags.len(),
                name == key@,
                find_flag(self@, name) == find_flag_from(self@, name, i as int),
            decreases self.flags.len() - i,
        {
            if eq_str(key, self.flags[i].name.as_str()) {
                return Some(i);
            }
            i += 1;
        }
        None
    }

    fn index_of_short(&self, c: char) -> (r: Option<usize>)
        ensures
            r matches Some(i) ==> find_short(self@, c) == Some(i as int) && i < self@.len(),
            r is None ==> find_short(self@, c) is None,
    {
        let mut i: usize = 0;
        while i < self.flags.len()
            invariant
                i <= self.flags.len(),
                find_short(self@, c) == find_short_from(self@, c, i as int),
            decreases self.flags.len() - i,
        {
            let sh = chars_of(self.flags[i].shorthand.as_str());
            if sh.len() > 0 && sh[0] == c {
                return Some(i);
            }
            i += 1;
        }
        None
    }

    /// Whether the named flag was given on the command line.
    pub fn changed(&self, name: &str) -> (r: bool)
        ensures
            r == (find_flag(self@, name@) matches Some(i) && self@[i].changed),
    {
        match self.lookup(name) {
            Some(f) => f.changed,
            None => false,
        }
    }

    /// The current value of a boolean flag; `false` for a flag that is
    /// missing or not boolean.
    pub fn bool(&self, name: &str) -> (r: bool)
        ensures
            r == (find_flag(self@, name@) matches Some(i) && self@[i].value == ValueView::Bool(true)),
    {
        match self.lookup(name) {
            Some(f) => match &f.value {
                Value::Bool(b) => *b,
                _ => false,
            },
            None => false,
        }
    }

    /// The current value of a string flag; empty for a flag that is missing
    /// or not a string.
    pub fn string(&self, name: &str) -> (r: String)
        ensures
            r@ == (match find_flag(self@, name@) {
                Some(i) => match self@[i].value {
                    ValueView::Str(s) => s,
                    _ => Seq::<char>::empty(),
                },
                None => Seq::<char>::empty(),
            }),
    {
        match self.lookup(name) {
            Some(f) => match &f.value {
                Value::Str(s) => s.clone(),
                _ => String::new(),
            },
            None => String::new(),
        }
    }

    /// The current value of a uint flag; zero for a flag that is missing or
    /// not a uint.
    pub fn uint(&self, name: &str) -> (r: u64)
        ensures
            r == (match find_flag(self@, name@) {
                Some(i) => match self@[i].value {
                    ValueView::Uint(u) => u,
                    _ => 0,
                },
                None => 0,
            }),
    {
        match self.lookup(name) {
            Some(f) => match &f.value {
                Value::Uint(u) => *u,
                _ => 0,
            },
            None => 0,
        }
    }

    fn visible_sorted(&self) -> (r: Vec<Flag>)
        ensures
            r@.map_values(|f: Flag| f@) == sort_by_name(visible(self@)),
    {
        let mut out: Vec<Flag> = Vec::new();
        let mut i: usize = 0;
        while i < self.flags.len()
            invariant
                i <= self.flags.len(),
                out@.map_values(|f: Flag| f@) == sort_by_name(visible(self@.take(i as int))),
            decreases self.flags.len() - i,
        {
            let f = &self.flags[i];
            let ghost before = out@.map_values(|g: Flag| g@);
            proof {
                let t = self@.take(i + 1);
                assert(t.drop_last() =~= self@.take(i as int));
                assert(t.last() == f@);
            }
            if !f.hidden {
                let name = chars_of(f.name.as_str());
                let mut p: usize = 0;
                while p < out.len()
                    invariant
                        p <= out.len(),
                        name@ == f@.name,
                        before == out@.map_values(|g: Flag| g@),
                        insert_pos(before, f@.name, 0) == insert_pos(before, f@.name, p as int),
                    ensures
                        p <= out.len(),
                        insert_pos(before, f@.name, 0) == p,
                    decreases out.len() - p,
                {
                    let other = chars_of(out[p].name.as_str());
                    proof {
                        assert(before[p as int] == out@[p as int]@);
                    }
                    if chars_lt(&name, &other) {
                        break;
                    }
                    p += 1;
                }
                out.insert(p, copy_flag(f));
                proof {
                    assert(out@.map_values(|g: Flag| g@) =~= before.insert(p as int, f@));
                    let v = visible(self@.take(i as int));
                    assert(visible(self@.take(i + 1)) == v.push(f@));
                    assert(v.push(f@).drop_last() =~= v);
                }
            }
            i += 1;
        }
        assert(self@.take(self@.len() as int) =~= self@);
        out
    }

    /// pflag's `FlagUsages`: two-space indent, aligned usage column, and a
    /// `(default …)` note for any flag whose default is not the zero value.
    pub fn flag_usages(&self) -> (r: String)
        ensures
            r@ == flag_usages_spec(self@),
    {
        let sorted = self.visible_sorted();
        let ghost ls = sorted@.map_values(|f: Flag| f@);
        let mut heads: Vec<Vec<char>> = Vec::new();
        let mut widest: usize = 0;
        let mut i: usize = 0;
        while i < sorted.len()
            invariant
                i <= sorted.len(),
                ls == sorted@.map_values(|f: Flag| f@),
                heads.len() == i,
                forall|j: int| 0 <= j < i ==> (#[trigger] heads@[j])@ == usage_head(ls[j]),
                i > 0 ==> widest + 1 == usage_width(ls.take(i as int)),
                i == 0 ==> widest == 0,
                forall|j: int| 0 <= j < i ==> (#[trigger] heads@[j]).len() <= widest,
            decreases sorted.len() - i,
        {
            let h = head_of(&sorted[i]);
            proof {
                assert(ls[i as int] == sorted@[i as int]@);
                let t = ls.take(i + 1);
                assert(t.drop_last() =~= ls.take(i as int));
                assert(t.last() == ls[i as int]);
            }
            proof {
                let w = h@.len() as int + 1;
                let m = usage_width(ls.take(i as int));
                assert(usage_width(ls.take(i + 1)) == (if w > m { w } else { m }));
                if i == 0 {
                    assert(ls.take(0).len() == 0);
                    assert(m == 0);
                }
            }
            if h.len() > widest {
                widest = h.len();
            }
            heads.push(h);
            i += 1;
        }
        assert(ls.take(ls.len() as int) =~= ls);
        let mut out: Vec<char> = Vec::new();
        let mut k: usize = 0;
        while k < sorted.len()
            invariant
                k <= sorted.len(),
                ls == sorted@.map_values(|f: Flag| f@),
                heads.len() == sorted.len(),
                forall|j: int| 0 <= j < sorted.len() ==> (#[trigger] heads@[j])@ == usage_head(ls[j]),
                forall|j: int| 0 <= j < sorted.len() ==> (#[trigger] heads@[j]).len() <= widest,
                sorted.len() > 0 ==> widest + 1 == usage_width(ls),
                out@ == usage_lines(ls.take(k as int), usage_width(ls)),
            decreases sorted.len() - k,
        {
            let h = &heads[k];
            let ghost before = out@;
            proof {
                assert(ls[k as int] == sorted@[k as int]@);
            }
            extend_chars(&mut out, h);
            out.push(' ');
            out.push(' ');
            let pad = repeat_char(' ', widest - h.len());
            extend_chars(&mut out, &pad);
            out.push(' ');
            let t = tail_of(&sorted[k]);
            extend_chars(&mut out, &t);
            out.push('\n');
            proof {
                let tk = ls.take(k + 1);
                assert(tk.drop_last() =~= ls.take(k as int));
                assert(tk.last() == ls[k as int]);
                let w = usage_width(ls);
                let n = (w - usage_head(ls[k as int]).len()) as nat;
                assert(seq![' '] + pad@ =~= repeat(' ', n));
                assert(out@ =~= before + usage_head(ls[k as int]) + seq![' '] + repeat(' ', n)
                    + seq![' '] + usage_tail(ls[k as int]) + seq!['\n']);
            }
            k += 1;
        }
        assert(ls.take(ls.len() as int) =~= ls);
        string_of(&out)
    }

    fn set_flag(&mut self, name: &Vec<char>, raw: &Vec<char>) -> (r: Result<(), Error>)
        ensures
            match set_flag_spec(old(self)@, name@, raw@) {
                Ok(fs) => r is Ok && final(self)@ == fs,
                Err(m) => r matches Err(e) && e.0@ == m && final(self)@ == old(self)@,
            },
    {
        let i = match self.index_of(name) {
            Some(i) => i,
            None => {
                return Err(msg2("unknown flag: --", name));
            },
        };
        let mut f = copy_flag(&self.flags[i]);
        let ghost fv = self@[i as int];
        let v = match &f.value {
            Value::Bool(_) => match parse_bool_exec(raw) {
                Some(b) => Value::Bool(b),
                None => {
                    return Err(invalid_argument_msg(raw, &f, "strconv.ParseBool"));
                },
            },
            Value::Str(_) => Value::Str(string_of(raw)),
            Value::Uint(_) => match parse_u64(raw) {
                Some(u) => Value::Uint(u),
                None => {
                    return Err(invalid_argument_msg(raw, &f, "strconv.ParseUint"));
                },
            },
        };
        f.value = v;
        f.changed = true;
        self.flags.set(i, f);
        proof {
            assert(self@ =~= old(self)@.update(i as int, f@));
        }
        Ok(())
    }

    fn parse_long(&mut self, arg: &Vec<char>, next: Option<&Vec<char>>) -> (r: Result<bool, Error>)
        requires
            has_prefix(arg@, "--"@),
        ensures
            match long_spec(old(self)@, arg@, match next { Some(v) => Some(v@), None => None }) {
                Ok((fs, took)) => r == Ok::<bool, Error>(took) && final(self)@ == fs,
                Err(m) => r matches Err(e) && e.0@ == m,
            },
            r matches Ok(t) ==> (t ==> next is Some),
    {
        proof {
            reveal_strlit("--");
        }
        let body = slice_chars(arg, 2, arg.len());
        assert(body@ =~= arg@.skip(2));
        let (name, inline) = cut_at_exec(&body, '=');
        let k = match self.index_of(&name) {
            Some(k) => k,
            None => {
                return Err(msg2("unknown flag: --", &name));
            },
        };
        let is_bool = self.flags[k].is_bool();
        let took = inline.is_none() && !is_bool;
        let value = match inline {
            Some(v) => v,
            None => if is_bool {
                chars_of("true")
            } else {
                match next {
                    Some(v) => slice_chars(v, 0, v.len()),
                    None => {
                        return Err(msg2("flag needs an argument: --", &name));
                    },
                }
            },
        };
        proof {
            if let Some(v) = next {
                assert(v@.subrange(0, v@.len() as int) =~= v@);
            }
        }
        match self.set_flag(&name, &value) {
            Ok(()) => Ok(took),
            Err(e) => Err(e),
        }
    }

    fn parse_shorts(&mut self, arg: &Vec<char>, next: Option<&Vec<char>>) -> (r: Result<bool, Error>)
        ensures
            match shorts_spec(old(self)@, arg@, 1, match next { Some(v) => Some(v@), None => None }) {
                Ok((fs, took)) => r == Ok::<bool, Error>(took) && final(self)@ == fs,
                Err(m) => r matches Err(e) && e.0@ == m,
            },
            r matches Ok(t) ==> (t ==> next is Some),
    {
        let ghost nv = match next { Some(v) => Some(v@), None => None::<Seq<char>> };
        let mut j: usize = 1;
        while j < arg.len()
            invariant
                1 <= j,
                nv == match next { Some(v) => Some(v@), None => None::<Seq<char>> },
                shorts_spec(old(self)@, arg@, 1, nv) == shorts_spec(self@, arg@, j as int, nv),
            decreases arg.len() - j,
        {
            let c = arg[j];
            let k = match self.index_of_short(c) {
                Some(k) => k,
                None => {
                    return Err(short_msg("unknown shorthand flag: '", c, arg));
                },
            };
            let name = chars_of(self.flags[k].name.as_str());
            if self.flags[k].is_bool() {
                let t = chars_of("true");
                match self.set_flag(&name, &t) {
                    Ok(()) => {},
                    Err(e) => {
                        return Err(e);
                    },
                }
                j += 1;
            } else {
                let rest = slice_chars(arg, j + 1, arg.len());
                assert(rest@ =~= arg@.skip(j + 1));
                let value = if rest.len() > 0 && rest[0] == '=' {
                    let v = slice_chars(&rest, 1, rest.len());
                    assert(v@ =~= rest@.skip(1));
                    v
                } else if rest.len() > 0 {
                    rest
                } else {
                    match next {
                        Some(v) => slice_chars(v, 0, v.len()),
                        None => {
                            return Err(short_msg("flag needs an argument: '", c, arg));
                        },
                    }
                };
                proof {
                    if let Some(v) = next {
                        assert(v@.subrange(0, v@.len() as int) =~= v@);
                    }
                }
                let took = arg.len() == j + 1;
                match self.set_flag(&name, &value) {
                    Ok(()) => {},
                    Err(e) => {
                        return Err(e);
                    },
                }
                return Ok(took);
            }
        }
        Ok(false)
    }

    fn parse_flags(&mut self, argv: &Vec<Vec<char>>) -> (r: Result<Vec<Vec<char>>, Error>)
        ensures
            match parse_flags_spec(old(self)@, views(argv@), 0, Seq::empty()) {
                Ok((fs, pos)) => r matches Ok(p) && views(p@) == pos && final(self)@ == fs,
                Err(m) => r matches Err(e) && e.0@ == m,
            },
    {
        let ghost av = views(argv@);
        let mut positional: Vec<Vec<char>> = Vec::new();
        assert(views(positional@) =~= Seq::<Seq<char>>::empty());
        let mut i: usize = 0;
        while i < argv.len()
            invariant
                av == views(argv@),
                i <= argv.len(),
                parse_flags_spec(old(self)@, av, 0, Seq::empty())
                    == parse_flags_spec(self@, av, i as int, views(positional@)),
            decreases argv.len() - i,
        {
            let arg = &argv[i];
            proof {
                assert(av[i as int] == arg@);
                if i + 1 < argv.len() {
                    assert(av[i + 1] == argv@[i + 1]@);
                }
            }
            if eq_str(arg, "--") {
                let ghost pos0 = views(positional@);
                let mut k = i + 1;
                while k < argv.len()
                    invariant
                        i + 1 <= k <= argv.len(),
                        av == views(argv@),
                        views(positional@) == pos0 + av.subrange(i + 1, k as int),
                    decreases argv.len() - k,
                {
                    let a = slice_chars(&argv[k], 0, argv[k].len());
                    proof {
                        assert(a@ =~= av[k as int]);
                    }
                    let ghost old_pos = positional@;
                    positional.push(a);
                    proof {
                        assert(positional@ == old_pos.push(a));
                        assert(views(positional@) =~= views(old_pos).push(a@));
                        assert(av.subrange(i + 1, k + 1) =~= av.subrange(i + 1, k as int).push(av[k as int]));
                    }
                    proof {
                        assert(views(positional@) =~= pos0 + av.subrange(i + 1, k + 1));
                    }
                    k += 1;
                }
                proof {
                    assert(av.subrange(i + 1, argv.len() as int) =~= av.skip(i + 1));
                }
                return Ok(positional);
            }
            let next = if i + 1 < argv.len() {
                Some(&argv[i + 1])
            } else {
                None
            };
            proof {
                assert((match next { Some(v) => Some(v@), None => None::<Seq<char>> }) == (if i + 1
                    < av.len() {
                    Some(av[i + 1])
                } else {
                    None
                }));
            }
            if starts_with(arg, "--") {
                let took = match self.parse_long(arg, next) {
                    Ok(t) => t,
                    Err(e) => {
                        return Err(e);
                    },
                };
                i = if took { i + 2 } else { i + 1 };
            } else if arg.len() > 1 && arg[0] == '-' {
                let took = match self.parse_shorts(arg, next) {
                    Ok(t) => t,
                    Err(e) => {
                        return Err(e);
                    },
                };
                i = if took { i + 2 } else { i + 1 };
            } else {
                let a = slice_chars(arg, 0, arg.len());
                let ghost old_pos = positional@;
                positional.push(a);
                proof {
                    assert(a@ =~= arg@);
                    assert(views(positional@) =~= views(old_pos).push(arg@));
                }
                i += 1;
            }
        }
        Ok(positional)
    }

    fn append_all(&mut self, other: &FlagSet)
        ensures
            final(self)@ == old(self)@ + other@,
    {
        let mut i: usize = 0;
        while i < other.flags.len()
            invariant
                i <= other.flags.len(),
                self@ == old(self)@ + other@.take(i as int),
            decreases other.flags.len() - i,
        {
            self.add(copy_flag(&other.flags[i]));
            proof {
                assert(old(self)@ + other@.take(i + 1) =~= (old(self)@ + other@.take(i as int)).push(
                    other.flags@[i as int]@,
                ));
            }
            i += 1;
        }
        assert(other@.take(other@.len() as int) =~= other@);
    }

    fn has_visible(&self) -> (r: bool)
        ensures
            r == any_visible(self@),
    {
        let mut i: usize = 0;
        while i < self.flags.len()
            invariant
                i <= self.flags.len(),
                forall|j: int| 0 <= j < i ==> (#[trigger] self@[j]).hidden,
            decreases self.flags.len() - i,
        {
            if !self.flags[i].hidden {
                assert(!self@[i as int].hidden);
                return true;
            }
            i += 1;
        }
        false
    }
}

/// The root of a command tree, with the version metadata.
pub struct App {
    /// The command tree.
    pub root: Command,
    /// Version string reported by `--version`.
    pub version: String,
    /// Template used to render the version, with `{{.Version}}` substituted.
    pub version_template: String,
}

fn has_available_exec(c: &Command) -> (r: bool)
    ensures
        r == has_available(*c),
{
    let mut i: usize = 0;
    while i < c.children.len()
        invariant
            i <= c.children.len(),
            forall|j: int| 0 <= j < i ==> (#[trigger] c.children@[j]).hidden,
        decreases c.children.len() - i,
    {
        if !c.children[i].hidden {
            assert(!c.children@[i as int].hidden);
            return true;
        }
        i += 1;
    }
    false
}

fn name_padding_exec(c: &Command) -> (r: usize)
    ensures
        r == name_padding(*c),
{
    let mut w: usize = 0;
    let mut i: usize = 0;
    while i < c.children.len()
        invariant
            i <= c.children.len(),
            w == name_width(c.children@.take(i as int)),
        decreases c.children.len() - i,
    {
        let ch = &c.children[i];
        proof {
            let t = c.children@.take(i + 1);
            assert(t.drop_last() =~= c.children@.take(i as int));
            assert(t.last() == *ch);
        }
        if !ch.hidden {
            let n = first_word_exec(&chars_of(ch.use_line.as_str())).len();
            if n > w {
                w = n;
            }
        }
        i += 1;
    }
    assert(c.children@.take(c.children@.len() as int) =~= c.children@);
    if w > 11 {
        w
    } else {
        11
    }
}

fn command_list_exec(c: &Command, pad: usize) -> (r: Vec<char>)
    ensures
        r@ == command_list(c.children@, pad as int),
{
    let mut out: Vec<char> = Vec::new();
    let mut i: usize = 0;
    while i < c.children.len()
        invariant
            i <= c.children.len(),
            out@ == command_list(c.children@.take(i as int), pad as int),
        decreases c.children.len() - i,
    {
        let ch = &c.children[i];
        proof {
            let t = c.children@.take(i + 1);
            assert(t.drop_last() =~= c.children@.take(i as int));
            assert(t.last() == *ch);
        }
        let ghost before = out@;
        if !ch.hidden {
            let name = first_word_exec(&chars_of(ch.use_line.as_str()));
            extend_str(&mut out, "\n  ");
            extend_chars(&mut out, &name);
            if name.len() < pad {
                let sp = repeat_char(' ', pad - name.len());
                extend_chars(&mut out, &sp);
            }
            out.push(' ');
            extend_str(&mut out, ch.short.as_str());
            proof {
                assert(out@ =~= before + ("\n  "@ + pad_right(name@, pad as int) + seq![' ']
                    + ch.short@));
            }
        } else {
            assert(out@ =~= before + Seq::<char>::empty());
        }
        i += 1;
    }
    assert(c.children@.take(c.children@.len() as int) =~= c.children@);
    out
}

fn trim_blank_exec(v: &Vec<char>) -> (r: Vec<char>)
    ensures
        r@ == trim_blank_end(v@),
{
    let mut b: usize = v.len();
    assert(v@.subrange(0, b as int) =~= v@);
    while b > 0 && (v[b - 1] == ' ' || v[b - 1] == '\n' || v[b - 1] == '\t')
        invariant
            b <= v.len(),
            trim_blank_end(v@) == trim_blank_end(v@.subrange(0, b as int)),
        decreases b,
    {
        assert(v@.subrange(0, b as int).drop_last() =~= v@.subrange(0, b - 1));
        b -= 1;
    }
    slice_chars(v, 0, b)
}

fn chars_of_flag_usages(fs: &FlagSet) -> (r: Vec<char>)
    ensures
        r@ == flag_usages_spec(fs@),
{
    let u = fs.flag_usages();
    chars_of(u.as_str())
}

impl App {
    /// The command reached by following `path` from the root.
    pub fn command_at(&self, path: &[usize]) -> (r: &Command)
        requires
            valid_path(self.root, path@),
        ensures
            *r == cmd_at(self.root, path@),
    {
        let mut cmd = &self.root;
        let mut k: usize = 0;
        assert(path@.take(0) =~= Seq::<usize>::empty());
        while k < path.len()
            invariant
                k <= path.len(),
                valid_path(self.root, path@),
                *cmd == cmd_at(self.root, path@.take(k as int)),
            decreases path.len() - k,
        {
            proof {
                lemma_valid_prefix(self.root, path@, k as int);
            }
            cmd = &cmd.children[path[k]];
            k += 1;
        }
        assert(path@.take(path.len() as int) =~= path@);
        cmd
    }

    fn inherited_flags(&self, path: &[usize]) -> (r: FlagSet)
        requires
            valid_path(self.root, path@),
        ensures
            r@ == inherited(self.root, path@),
    {
        let mut set = FlagSet::new();
        if path.len() == 0 {
            return set;
        }
        let mut cmd = &self.root;
        let mut k: usize = 0;
        assert(path@.take(0) =~= Seq::<usize>::empty());
        while k + 1 < path.len()
            invariant
                k < path.len(),
                valid_path(self.root, path@),
                *cmd == cmd_at(self.root, path@.take(k as int)),
                k == 0 ==> set@ == Seq::<FlagView>::empty(),
                k > 0 ==> set@ == persistent_chain(self.root, path@.take(k - 1)),
            decreases path.len() - k,
        {
            proof {
                lemma_valid_prefix(self.root, path@, k as int);
            }
            set.append_all(&cmd.persistent_flags);
            proof {
                if k > 0 {
                    assert(path@.take(k as int).drop_last() =~= path@.take(k - 1));
                } else {
                    assert(set@ =~= persistent_chain(self.root, path@.take(0)));
                }
            }
            cmd = &cmd.children[path[k]];
            k += 1;
        }
        proof {
            if k > 0 {
                assert(path@.take(k as int).drop_last() =~= path@.take(k - 1));
            }
            assert(path@.drop_last() =~= path@.take(k as int));
        }
        set.append_all(&cmd.persistent_flags);
        proof {
            if k == 0 {
                assert(set@ =~= persistent_chain(self.root, path@.take(0)));
            }
        }
        set
    }

    fn effective_flags(&self, path: &[usize]) -> (r: FlagSet)
        requires
            valid_path(self.root, path@),
        ensures
            r@ == effective(self.root, path@),
    {
        let mut set = self.command_at(path).flags.copy();
        let ghost own = set@;
        let mut cmd = &self.root;
        let mut k: usize = 0;
        assert(path@.take(0) =~= Seq::<usize>::empty());
        set.append_all(&cmd.persistent_flags);
        assert(set@ =~= own + persistent_chain(self.root, path@.take(0)));
        while k < path.len()
            invariant
                k <= path.len(),
                valid_path(self.root, path@),
                own == cmd_at(self.root, path@).flags@,
                *cmd == cmd_at(self.root, path@.take(k as int)),
                set@ == own + persistent_chain(self.root, path@.take(k as int)),
            decreases path.len() - k,
        {
            proof {
                lemma_valid_prefix(self.root, path@, k as int);
            }
            cmd = &cmd.children[path[k]];
            k += 1;
            set.append_all(&cmd.persistent_flags);
            proof {
                assert(path@.take(k as int).drop_last() =~= path@.take(k - 1));
                assert(set@ =~= own + persistent_chain(self.root, path@.take(k as int)));
            }
        }
        assert(path@.take(path.len() as int) =~= path@);
        set
    }

    /// The space-separated path of command names down to `path`.
    pub fn command_path(&self, path: &[usize]) -> (r: String)
        requires
            valid_path(self.root, path@),
        ensures
            r@ == command_path_spec(self.root, path@),
    {
        string_of(&self.command_path_chars(path))
    }

    fn command_path_chars(&self, path: &[usize]) -> (r: Vec<char>)
        requires
            valid_path(self.root, path@),
        ensures
            r@ == command_path_spec(self.root, path@),
    {
        let mut parts: Vec<Vec<char>> = Vec::new();
        parts.push(first_word_exec(&chars_of(self.root.use_line.as_str())));
        let mut cmd = &self.root;
        let mut k: usize = 0;
        assert(path@.take(0) =~= Seq::<usize>::empty());
        assert(views(parts@) =~= path_names(self.root, path@.take(0)));
        while k < path.len()
            invariant
                k <= path.len(),
                valid_path(self.root, path@),
                *cmd == cmd_at(self.root, path@.take(k as int)),
                views(parts@) == path_names(self.root, path@.take(k as int)),
            decreases path.len() - k,
        {
            proof {
                lemma_valid_prefix(self.root, path@, k as int);
            }
            cmd = &cmd.children[path[k]];
            k += 1;
            let w = first_word_exec(&chars_of(cmd.use_line.as_str()));
            let ghost before = parts@;
            parts.push(w);
            proof {
                assert(path@.take(k as int).drop_last() =~= path@.take(k - 1));
                assert(views(parts@) =~= views(before).push(w@));
            }
        }
        assert(path@.take(path.len() as int) =~= path@);
        let mut sep: Vec<char> = Vec::new();
        sep.push(' ');
        assert(sep@ =~= seq![' ']);
        join_chars(&parts, &sep)
    }

    fn use_line(&self, path: &[usize]) -> (r: Vec<char>)
        requires
            valid_path(self.root, path@),
        ensures
            r@ == use_line_spec(self.root, path@),
    {
        let cmd = self.command_at(path);
        let mut line = if path.len() == 0 {
            chars_of(cmd.use_line.as_str())
        } else {
            let parent = &path[0..path.len() - 1];
            proof {
                assert(parent@ =~= path@.drop_last());
            }
            let mut l = self.command_path_chars(parent);
            l.push(' ');
            extend_str(&mut l, cmd.use_line.as_str());
            l
        };
        let ghost l0 = line@;
        assert(l0 == (if path@.len() == 0 {
            cmd.use_line@
        } else {
            command_path_spec(self.root, path@.drop_last()) + seq![' '] + cmd.use_line@
        }));
        if !cmd.disable_flags_in_use_line && !ends_with(&line, "[flags]") {
            let has_flags = cmd.flags.has_visible() || self.inherited_flags(path).has_visible() || (
            path.len() == 0 && cmd.persistent_flags.has_visible());
            if has_flags {
                extend_str(&mut line, " [flags]");
            }
        }
        line
    }

    /// Renders the usage block for the command reached by `path`.
    pub fn usage(&self, path: &[usize]) -> (r: String)
        requires
            valid_path(self.root, path@),
        ensures
            r@ == usage_spec(self.root, path@),
    {
        string_of(&self.usage_chars(path))
    }

    fn usage_chars(&self, path: &[usize]) -> (r: Vec<char>)
        requires
            valid_path(self.root, path@),
        ensures
            r@ == usage_spec(self.root, path@),
    {
        let mut out = self.usage_top_chars(path);
        let b = self.usage_bottom_chars(path);
        extend_chars(&mut out, &b);
        out
    }

    fn usage_top_chars(&self, path: &[usize]) -> (r: Vec<char>)
        requires
            valid_path(self.root, path@),
        ensures
            r@ == usage_top(self.root, path@),
    {
        let cmd = self.command_at(path);
        let cp = self.command_path_chars(path);
        let avail = has_available_exec(cmd);
        let mut out = chars_of("Usage:");
        if cmd.runnable {
            extend_str(&mut out, "\n  ");
            let u = self.use_line(path);
            extend_chars(&mut out, &u);
        }
        if avail {
            extend_str(&mut out, "\n  ");
            extend_chars(&mut out, &cp);
            extend_str(&mut out, " [command]");
        }
        if !cmd.example.as_str().is_empty() {
            extend_str(&mut out, "\n\nExamples:\n");
            extend_str(&mut out, cmd.example.as_str());
        }
        if avail {
            extend_str(&mut out, "\n\nAvailable Commands:");
            let pad = name_padding_exec(cmd);
            let list = command_list_exec(cmd, pad);
            extend_chars(&mut out, &list);
        }
        proof {
            assert(out@ =~= usage_top(self.root, path@));
        }
        out
    }

    fn usage_bottom_chars(&self, path: &[usize]) -> (r: Vec<char>)
        requires
            valid_path(self.root, path@),
        ensures
            r@ == usage_bottom(self.root, path@),
    {
        let cmd = self.command_at(path);
        let cp = self.command_path_chars(path);
        let avail = has_available_exec(cmd);
        let mut out: Vec<char> = Vec::new();
        if cmd.flags.has_visible() || (path.len() == 0 && cmd.persistent_flags.has_visible()) {
            let mut local = cmd.flags.copy();
            if path.len() == 0 {
                local.append_all(&cmd.persistent_flags);
            }
            extend_str(&mut out, "\n\nFlags:\n");
            let u = trim_blank_exec(&chars_of_flag_usages(&local));
            extend_chars(&mut out, &u);
        }
        let ghost p1 = out@;
        if path.len() > 0 {
            let inherited = self.inherited_flags(path);
            if inherited.has_visible() {
                extend_str(&mut out, "\n\nGlobal Flags:\n");
                let u = trim_blank_exec(&chars_of_flag_usages(&inherited));
                extend_chars(&mut out, &u);
            }
        }
        let ghost p2 = out@;
        if avail {
            extend_str(&mut out, "\n\nUse \"");
            extend_chars(&mut out, &cp);
            extend_str(&mut out, " [command] --help\" for more information about a command.");
        }
        out.push('\n');
        proof {
            assert(out@ =~= usage_bottom(self.root, path@));
        }
        out
    }

    /// Renders the help text for the command reached by `path`.
    pub fn help(&self, path: &[usize]) -> (r: String)
        requires
            valid_path(self.root, path@),
        ensures
            r@ == help_spec(self.root, path@),
    {
        let cmd = self.command_at(path);
        let long = if cmd.long.as_str().is_empty() {
            chars_of(cmd.short.as_str())
        } else {
            chars_of(cmd.long.as_str())
        };
        let mut out: Vec<char> = Vec::new();
        if long.len() > 0 {
            let t = trim_end_chars(&long);
            extend_chars(&mut out, &t);
            extend_str(&mut out, "\n\n");
        }
        let u = self.usage_chars(path);
        extend_chars(&mut out, &u);
        proof {
            assert(out@ =~= help_spec(self.root, path@));
        }
        string_of(&out)
    }
}

/// The first index of `x` in `names`, from `i` on.
pub open spec fn index_in(names: Seq<Seq<char>>, x: Seq<char>, i: int) -> Option<int>
    decreases names.len() - i,
{
    if i < 0 || i >= names.len() {
        None
    } else if names[i] == x {
        Some(i)
    } else {
        index_in(names, x, i + 1)
    }
}

/// The names of a command's children.
pub open spec fn child_names(c: Command) -> Seq<Seq<char>> {
    c.children@.map_values(|k: Command| first_word(k.use_line@))
}

/// The first argument from `i` on that is neither a flag nor a flag's value,
/// when it names a sub-command: its position and the child's index.
pub open spec fn boundary_from(rest: Seq<Seq<char>>, i: int, fs: Seq<FlagView>, names: Seq<Seq<char>>) -> Option<(int, int)>
    decreases rest.len() + 1 - i,
{
    if i < 0 || i >= rest.len() {
        None
    } else if rest[i] == "--"@ {
        None
    } else if has_prefix(rest[i], "-"@) {
        boundary_from(rest, if swallows_next(rest[i], fs) { i + 2 } else { i + 1 }, fs, names)
    } else {
        match index_in(names, rest[i], 0) {
            Some(ci) => Some((i, ci)),
            None => None,
        }
    }
}

/// The flags that traversal does not know about yet.
pub open spec fn traversal_hidden() -> Seq<Seq<char>> {
    seq!["help"@, "version"@]
}

/// Walking down the tree: at each level the arguments before a sub-command's
/// name are that level's flags, and those after it belong to the sub-command.
/// The command reached, the merged flags and the positional arguments.
pub open spec fn descend(root: Command, path: Seq<usize>, rest: Seq<Seq<char>>, flags: Seq<FlagView>) -> Result<(Seq<usize>, Seq<FlagView>, Seq<Seq<char>>), Seq<char>>
    decreases rest.len(),
{
    let level = effective(root, path);
    let b = boundary_from(
        rest,
        0,
        flags_without(level, traversal_hidden()),
        child_names(cmd_at(root, path)),
    );
    let head = match b {
        Some((i, _)) => rest.take(i),
        None => rest,
    };
    match parse_flags_spec(level, head, 0, Seq::empty()) {
        Err(e) => Err(e),
        Ok((parsed, pos)) => {
            let merged = merge_flags(flags, parsed);
            match b {
                Some((i, ci)) => if 0 <= i < rest.len() {
                    descend(root, path.push(ci as usize), rest.skip(i + 1), merged)
                } else {
                    Ok((path, merged, pos))
                },
                None => Ok((path, merged, pos)),
            }
        },
    }
}

/// The target of `help [command]`: as far down as the names lead.
pub open spec fn help_target(root: Command, names: Seq<Seq<char>>, k: int, target: Seq<usize>) -> Seq<usize>
    decreases names.len() - k,
{
    if k < 0 || k >= names.len() {
        target
    } else {
        match index_in(child_names(cmd_at(root, target)), names[k], 0) {
            Some(i) => help_target(root, names, k + 1, target.push(i as usize)),
            None => target,
        }
    }
}

/// Why the positional arguments are refused, if they are.
pub open spec fn validate_spec(args: Args, pos: Seq<Seq<char>>, cp: Seq<char>) -> Option<Seq<char>> {
    match args {
        Args::Arbitrary => None,
        Args::NoArgs => if pos.len() > 0 {
            Some("unknown command "@ + debug_quoted(pos[0]) + " for \""@ + cp + "\""@)
        } else {
            None
        },
        Args::MaximumN(n) => if pos.len() > n {
            Some("accepts at most "@ + decimal(n as nat) + " arg(s), received "@ + decimal(pos.len()))
        } else {
            None
        },
        Args::ExactArgs(n) => if pos.len() != n {
            Some("accepts "@ + decimal(n as nat) + " arg(s), received "@ + decimal(pos.len()))
        } else {
            None
        },
    }
}

/// Whether the named flag is a boolean that is set.
pub open spec fn flag_true(fs: Seq<FlagView>, name: Seq<char>) -> bool {
    find_flag(fs, name) matches Some(i) && fs[i].value == ValueView::Bool(true)
}

/// What an invocation means.
pub enum OutcomeView {
    Print(Seq<char>),
    Run(Seq<char>, Seq<Seq<char>>),
}

/// What `argv` resolves to: text to print, or a command to run with its
/// arguments, together with the resolved flags.
pub open spec fn parse_spec(app: App, argv: Seq<Seq<char>>) -> Result<(OutcomeView, Seq<FlagView>), Seq<char>> {
    let root = app.root;
    match descend(root, Seq::empty(), argv, effective(root, Seq::empty())) {
        Err(e) => Err(e),
        Ok((path, flags, pos)) => {
            let cmd = cmd_at(root, path);
            if flag_true(flags, "help"@) {
                Ok((OutcomeView::Print(help_spec(root, path)), flags))
            } else if path.len() == 0 && flag_true(flags, "version"@) {
                Ok((OutcomeView::Print(replace_pat(app.version_template@, "{{.Version}}"@, app.version@)), flags))
            } else if cmd.id@ == "help"@ {
                Ok((OutcomeView::Print(help_spec(root, help_target(root, pos, 0, Seq::empty()))), flags))
            } else {
                match validate_spec(cmd.args, pos, command_path_spec(root, path)) {
                    Some(m) => Err(m),
                    None => Ok((OutcomeView::Run(cmd.id@, pos), flags)),
                }
            }
        },
    }
}

/// What `parse` decided the invocation means.
#[derive(Debug)]
pub enum Outcome {
    /// Print this text on stdout and exit 0.
    Print(String),
    /// Run the identified command.
    Run {
        /// Identifier of the command to run.
        id: &'static str,
        /// Positional arguments.
        args: Vec<String>,
    },
}

impl View for Outcome {
    type V = OutcomeView;

    open spec fn view(&self) -> OutcomeView {
        match self {
            Outcome::Print(s) => OutcomeView::Print(s@),
            Outcome::Run { id, args } => OutcomeView::Run(id@, args@.map_values(|a: String| a@)),
        }
    }
}

/// The parsed command line: which command to run and the resolved flags.
#[derive(Debug)]
pub struct Parsed {
    /// What to do.
    pub outcome: Outcome,
    /// Flags visible to the resolved command, merged local-then-inherited.
    pub flags: FlagSet,
}

fn vec_views_of(argv: &[String]) -> (r: Vec<Vec<char>>)
    ensures
        views(r@) == argv@.map_values(|s: String| s@),
{
    let mut out: Vec<Vec<char>> = Vec::new();
    let mut i: usize = 0;
    while i < argv.len()
        invariant
            i <= argv.len(),
            views(out@) == argv@.take(i as int).map_values(|s: String| s@),
        decreases argv.len() - i,
    {
        let ghost before = out@;
        let c = chars_of(argv[i].as_str());
        out.push(c);
        proof {
            assert(out@ == before.push(c));
            assert(views(out@) =~= views(before).push(c@));
            assert(argv@.take(i + 1) =~= argv@.take(i as int).push(argv@[i as int]));
            assert(argv@.take(i + 1).map_values(|s: String| s@) =~= argv@.take(i as int).map_values(
                |s: String| s@,
            ).push(argv@[i as int]@));
        }
        i += 1;
    }
    assert(argv@.take(argv@.len() as int) =~= argv@);
    out
}

fn strings_of(v: &Vec<Vec<char>>) -> (r: Vec<String>)
    ensures
        r@.map_values(|s: String| s@) == views(v@),
{
    let mut out: Vec<String> = Vec::new();
    let mut i: usize = 0;
    while i < v.len()
        invariant
            i <= v.len(),
            out@.map_values(|s: String| s@) == views(v@.take(i as int)),
        decreases v.len() - i,
    {
        let ghost before = out@;
        let t = string_of(&v[i]);
        out.push(t);
        proof {
            assert(out@ == before.push(t));
            assert(out@.map_values(|s: String| s@) =~= before.map_values(|s: String| s@).push(t@));
            assert(v@.take(i + 1) =~= v@.take(i as int).push(v@[i as int]));
            assert(views(v@.take(i + 1)) =~= views(v@.take(i as int)).push(v@[i as int]@));
        }
        i += 1;
    }
    assert(v@.take(v@.len() as int) =~= v@);
    out
}

fn copy_rows(v: &Vec<Vec<char>>, from: usize, to: usize) -> (r: Vec<Vec<char>>)
    requires
        from <= to <= v.len(),
    ensures
        views(r@) == views(v@).subrange(from as int, to as int),
{
    let mut out: Vec<Vec<char>> = Vec::new();
    let mut i: usize = from;
    while i < to
        invariant
            from <= i <= to <= v.len(),
            views(out@) == views(v@).subrange(from as int, i as int),
        decreases to - i,
    {
        let ghost before = out@;
        let t = slice_chars(&v[i], 0, v[i].len());
        out.push(t);
        proof {
            assert(t@ =~= v@[i as int]@);
            assert(out@ == before.push(t));
            assert(views(out@) =~= views(before).push(t@));
            assert(views(v@).subrange(from as int, i + 1) =~= views(v@).subrange(from as int, i as int).push(
                views(v@)[i as int],
            ));
        }
        i += 1;
    }
    out
}

fn swallows_next_exec(arg: &Vec<char>, fs: &FlagSet) -> (r: bool)
    ensures
        r == swallows_next(arg@, fs@),
{
    proof {
        reveal_strlit("--");
    }
    if starts_with(arg, "--") {
        let name = slice_chars(arg, 2, arg.len());
        assert(name@ =~= arg@.skip(2));
        if contains_char(&name, '=') {
            return false;
        }
        return match fs.index_of(&name) {
            Some(k) => !fs.flags[k].is_bool(),
            None => true,
        };
    }
    if arg.len() == 2 && (arg[1] as u32) < 0x80 && arg[1] != '=' {
        return match fs.index_of_short(arg[1]) {
            Some(k) => !fs.flags[k].is_bool(),
            None => true,
        };
    }
    false
}

fn child_index(cmd: &Command, name: &Vec<char>) -> (r: Option<usize>)
    ensures
        r matches Some(i) ==> index_in(child_names(*cmd), name@, 0) == Some(i as int) && i
            < cmd.children@.len(),
        r is None ==> index_in(child_names(*cmd), name@, 0) is None,
{
    let ghost names = child_names(*cmd);
    let mut i: usize = 0;
    while i < cmd.children.len()
        invariant
            i <= cmd.children.len(),
            names == child_names(*cmd),
            index_in(names, name@, 0) == index_in(names, name@, i as int),
        decreases cmd.children.len() - i,
    {
        let w = first_word_exec(&chars_of(cmd.children[i].use_line.as_str()));
        proof {
            assert(names[i as int] == w@);
        }
        if chars_eq(&w, name) {
            return Some(i);
        }
        i += 1;
    }
    None
}

fn find_boundary(rest: &Vec<Vec<char>>, fs: &FlagSet, cmd: &Command) -> (r: Option<(usize, usize)>)
    ensures
        r matches Some((i, ci)) ==> boundary_from(views(rest@), 0, fs@, child_names(*cmd)) == Some(
            (i as int, ci as int),
        ) && i < rest.len() && ci < cmd.children@.len(),
        r is None ==> boundary_from(views(rest@), 0, fs@, child_names(*cmd)) is None,
{
    let ghost rv = views(rest@);
    let mut i: usize = 0;
    while i < rest.len()
        invariant
            i <= rest.len(),
            rv == views(rest@),
            boundary_from(rv, 0, fs@, child_names(*cmd)) == boundary_from(
                rv,
                i as int,
                fs@,
                child_names(*cmd),
            ),
        decreases rest.len() + 1 - i,
    {
        let arg = &rest[i];
        proof {
            assert(rv[i as int] == arg@);
            reveal_strlit("-");
        }
        if eq_str(arg, "--") {
            return None;
        }
        if starts_with(arg, "-") {
            let sw = swallows_next_exec(arg, fs);
            proof {
                if sw && i + 1 >= rest.len() {
                    assert(boundary_from(rv, i + 2, fs@, child_names(*cmd)) is None);
                    assert(boundary_from(rv, i + 1, fs@, child_names(*cmd)) is None);
                }
            }
            i = if sw && i + 1 < rest.len() {
                i + 2
            } else {
                i + 1
            };
        } else {
            return match child_index(cmd, arg) {
                Some(ci) => Some((i, ci)),
                None => None,
            };
        }
    }
    None
}

fn validate_args(cmd: &Command, args: &Vec<Vec<char>>, cp: &Vec<char>) -> (r: Result<(), Error>)
    ensures
        match validate_spec(cmd.args, views(args@), cp@) {
            Some(m) => r matches Err(e) && e.0@ == m,
            None => r is Ok,
        },
{
    match cmd.args {
        Args::Arbitrary => Ok(()),
        Args::NoArgs => {
            if args.len() > 0 {
                let mut m = chars_of("unknown command ");
                let q = quote_debug(&args[0]);
                extend_chars(&mut m, &q);
                extend_str(&mut m, " for \"");
                extend_chars(&mut m, cp);
                extend_str(&mut m, "\"");
                proof {
                    assert(views(args@)[0] == args@[0]@);
                    assert(m@ =~= "unknown command "@ + debug_quoted(views(args@)[0]) + " for \""@
                        + cp@ + "\""@);
                }
                Err(Error(string_of(&m)))
            } else {
                Ok(())
            }
        },
        Args::MaximumN(n) => {
            if args.len() > n {
                let mut m = chars_of("accepts at most ");
                extend_chars(&mut m, &decimal_of(n as u64));
                extend_str(&mut m, " arg(s), received ");
                extend_chars(&mut m, &decimal_of(args.len() as u64));
                Err(Error(string_of(&m)))
            } else {
                Ok(())
            }
        },
        Args::ExactArgs(n) => {
            if args.len() != n {
                let mut m = chars_of("accepts ");
                extend_chars(&mut m, &decimal_of(n as u64));
                extend_str(&mut m, " arg(s), received ");
                extend_chars(&mut m, &decimal_of(args.len() as u64));
                Err(Error(string_of(&m)))
            } else {
                Ok(())
            }
        },
    }
}

fn merge_parsed(dst: &mut FlagSet, src: &FlagSet)
    ensures
        final(dst)@ == merge_flags(old(dst)@, src@),
{
    let mut i: usize = 0;
    while i < src.flags.len()
        invariant
            i <= src.flags.len(),
            dst@ == merge_flags(old(dst)@, src@.take(i as int)),
        decreases src.flags.len() - i,
    {
        let f = &src.flags[i];
        proof {
            let t = src@.take(i + 1);
            assert(t.drop_last() =~= src@.take(i as int));
            assert(t.last() == f@);
        }
        let name = chars_of(f.name.as_str());
        match dst.index_of(&name) {
            Some(k) => {
                if f.changed {
                    let mut g = copy_flag(&dst.flags[k]);
                    g.value = copy_value(&f.value);
                    g.changed = true;
                    let ghost before = dst@;
                    dst.flags.set(k, g);
                    proof {
                        assert(dst@ =~= before.update(k as int, with_value(before[k as int], f@.value)));
                    }
                }
            },
            None => {
                dst.add(copy_flag(f));
            },
        }
        i += 1;
    }
    assert(src@.take(src@.len() as int) =~= src@);
}

impl App {
    /// pflag's `ParseFlags`: parses `argv` against the root command's flags,
    /// with no sub-command dispatch and no positional-argument validation.
    pub fn parse_root_flags(&self, argv: &[String]) -> (r: Result<FlagSet, Error>)
        ensures
            match parse_flags_spec(
                effective(self.root, Seq::empty()),
                argv@.map_values(|s: String| s@),
                0,
                Seq::empty(),
            ) {
                Ok((fs, _)) => r matches Ok(f) && f@ == fs,
                Err(m) => r matches Err(e) && e.0@ == m,
            },
    {
        let root_path: Vec<usize> = Vec::new();
        proof {
            assert(root_path@ =~= Seq::<usize>::empty());
        }
        let mut flags = self.effective_flags(root_path.as_slice());
        let av = vec_views_of(argv);
        match flags.parse_flags(&av) {
            Ok(_) => Ok(flags),
            Err(e) => Err(e),
        }
    }

    fn descend_exec(&self, argv: &Vec<Vec<char>>) -> (r: Result<(Vec<usize>, FlagSet, Vec<Vec<char>>), Error>)
        ensures
            match descend(self.root, Seq::empty(), views(argv@), effective(self.root, Seq::empty())) {
                Ok((path, fs, pos)) => r matches Ok((p, f, q)) && p@ == path && f@ == fs && views(q@)
                    == pos && valid_path(self.root, path),
                Err(m) => r matches Err(e) && e.0@ == m,
            },
    {
        let ghost a = views(argv@);
        let mut path: Vec<usize> = Vec::new();
        proof {
            assert(path@ =~= Seq::<usize>::empty());
        }
        let mut rest = copy_rows(argv, 0, argv.len());
        assert(views(argv@).subrange(0, argv@.len() as int) =~= a);
        let mut flags = self.effective_flags(path.as_slice());
        let ghost eff0 = flags@;
        let mut pos: Vec<Vec<char>> = Vec::new();
        let mut names: Vec<&str> = Vec::new();
        names.push("help");
        names.push("version");
        assert(names@.map_values(|s: &str| s@) =~= traversal_hidden());
        let mut going = true;
        while going
            invariant
                a == views(argv@),
                names@.map_values(|s: &str| s@) == traversal_hidden(),
                valid_path(self.root, path@),
                eff0 == effective(self.root, Seq::empty()),
                going ==> descend(self.root, Seq::empty(), a, eff0) == descend(
                    self.root,
                    path@,
                    views(rest@),
                    flags@,
                ),
                !going ==> descend(self.root, Seq::empty(), a, eff0) == Ok::<
                    (Seq<usize>, Seq<FlagView>, Seq<Seq<char>>),
                    Seq<char>,
                >((path@, flags@, views(pos@))),
            decreases rest.len() + if going { 1int } else { 0int },
        {
            let level = self.effective_flags(path.as_slice());
            let cmd = self.command_at(path.as_slice());
            let trav = level.without(names.as_slice());
            let b = find_boundary(&rest, &trav, cmd);
            let head = match b {
                Some((i, _)) => copy_rows(&rest, 0, i),
                None => copy_rows(&rest, 0, rest.len()),
            };
            proof {
                match b {
                    Some((i, _)) => {
                        assert(views(rest@).subrange(0, i as int) =~= views(rest@).take(i as int));
                    },
                    None => {
                        assert(views(rest@).subrange(0, rest@.len() as int) =~= views(rest@));
                    },
                }
            }
            let ghost lv = level@;
            let ghost bs = boundary_from(
                views(rest@),
                0,
                flags_without(lv, traversal_hidden()),
                child_names(cmd_at(self.root, path@)),
            );
            let ghost hs = match bs {
                Some((i, _)) => views(rest@).take(i),
                None => views(rest@),
            };
            assert(views(head@) == hs);
            let mut parsed = level;
            let p = match parsed.parse_flags(&head) {
                Ok(p) => p,
                Err(e) => {
                    proof {
                        assert(parse_flags_spec(lv, hs, 0, Seq::empty()) == Err::<
                            (Seq<FlagView>, Seq<Seq<char>>),
                            Seq<char>,
                        >(e.0@));
                        assert(descend(self.root, path@, views(rest@), flags@) == Err::<
                            (Seq<usize>, Seq<FlagView>, Seq<Seq<char>>),
                            Seq<char>,
                        >(e.0@));
                    }
                    return Err(e);
                },
            };
            merge_parsed(&mut flags, &parsed);
            match b {
                Some((i, ci)) => {
                    let next_rest = copy_rows(&rest, i + 1, rest.len());
                    proof {
                        assert(views(rest@).subrange(i + 1, rest@.len() as int) =~= views(rest@).skip(
                            i + 1,
                        ));
                    }
                    rest = next_rest;
                    let ghost old_path = path@;
                    path.push(ci);
                    proof {
                        assert(path@.drop_last() =~= old_path);
                    }
                },
                None => {
                    pos = p;
                    going = false;
                },
            }
        }
        Ok((path, flags, pos))
    }

    /// Resolves an argument vector into a command and its flags.
    ///
    /// The root command traverses its children, so the arguments are split at
    /// each sub-command name: what comes before a name belongs to the command
    /// above it and what comes after belongs to the command itself.
    pub fn parse(&self, argv: &[String]) -> (r: Result<Parsed, Error>)
        ensures
            match parse_spec(*self, argv@.map_values(|s: String| s@)) {
                Ok((o, fs)) => r matches Ok(p) && p.outcome@ == o && p.flags@ == fs,
                Err(m) => r matches Err(e) && e.0@ == m,
            },
    {
        let av = vec_views_of(argv);
        let (path, flags, pos) = match self.descend_exec(&av) {
            Ok(t) => t,
            Err(e) => {
                return Err(e);
            },
        };
        let cmd = self.command_at(path.as_slice());
        if flags.bool("help") {
            let text = self.help(path.as_slice());
            return Ok(Parsed { outcome: Outcome::Print(text), flags });
        }
        if path.len() == 0 && flags.bool("version") {
            let pat = chars_of("{{.Version}}");
            proof {
                reveal_strlit("{{.Version}}");
            }
            let text = replace_all(
                &chars_of(self.version_template.as_str()),
                &pat,
                &chars_of(self.version.as_str()),
            );
            return Ok(Parsed { outcome: Outcome::Print(string_of(&text)), flags });
        }
        if eq_str(&chars_of(cmd.id), "help") {
            let ghost names = views(pos@);
            let mut target: Vec<usize> = Vec::new();
            let mut node = &self.root;
            let mut k: usize = 0;
            let mut stop = false;
            proof {
                assert(target@ =~= Seq::<usize>::empty());
            }
            while k < pos.len() && !stop
                invariant
                    k <= pos.len(),
                    names == views(pos@),
                    valid_path(self.root, target@),
                    *node == cmd_at(self.root, target@),
                    help_target(self.root, names, 0, Seq::empty()) == help_target(
                        self.root,
                        names,
                        k as int,
                        target@,
                    ),
                    stop ==> k < names.len() && index_in(
                        child_names(cmd_at(self.root, target@)),
                        names[k as int],
                        0,
                    ) is None,
                decreases pos.len() - k + if stop { 0int } else { 1int },
            {
                proof {
                    assert(names[k as int] == pos@[k as int]@);
                }
                match child_index(node, &pos[k]) {
                    Some(i) => {
                        let ghost old_target = target@;
                        target.push(i);
                        proof {
                            assert(target@.drop_last() =~= old_target);
                        }
                        node = &node.children[i];
                        k += 1;
                    },
                    None => {
                        stop = true;
                    },
                }
            }
            let text = self.help(target.as_slice());
            return Ok(Parsed { outcome: Outcome::Print(text), flags });
        }
        let cp = self.command_path_chars(path.as_slice());
        match validate_args(cmd, &pos, &cp) {
            Ok(()) => {},
            Err(e) => {
                return Err(e);
            },
        }
        let args = strings_of(&pos);
        Ok(Parsed { outcome: Outcome::Run { id: cmd.id, args }, flags })
    }
}

} // verus!
