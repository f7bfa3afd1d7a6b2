//! Man page generation from a command tree: the command and flag model,
//! ordered by name, the section order, and the roff each part emits.
use vstd::prelude::*;
use crate::deps::cobra;
use crate::deps::cobra::{first_word, name_lt};
use crate::deps::roff::{
    heading_line, indent_end_macro, indent_macro, section_macro, tagged_macro, text_spec,
    write_spec, writeln_spec, Document,
};
use crate::text::{chars_of, eq_str, extend_str, has_prefix, replace_char, replace_char_with, string_of};

verus! {

broadcast use vstd::string::group_string_axioms;

/// Entries kept in order of their names, each name once; the first entry
/// added under a name is the one kept.
#[derive(Debug, Clone)]
pub struct NameMap<T> {
    entries: Vec<(String, T)>,
}

impl<T> NameMap<T> {
    /// The names, in order.
    pub closed spec fn names(&self) -> Seq<Seq<char>> {
        self.entries@.map_values(|e: (String, T)| e.0@)
    }

    /// The entries, in order.
    pub closed spec fn values(&self) -> Seq<T> {
        self.entries@.map_values(|e: (String, T)| e.1)
    }

    /// An empty map.
    pub fn new() -> (r: NameMap<T>)
        ensures
            r.names().len() == 0,
            r.values().len() == 0,
    {
        let r = NameMap { entries: Vec::new() };
        proof {
            assert(r.names() =~= Seq::<Seq<char>>::empty());
            assert(r.values() =~= Seq::<T>::empty());
        }
        r
    }

    /// How many entries there are.
    pub fn len(&self) -> (r: usize)
        ensures
            r == self.names().len(),
            r == self.values().len(),
    {
        self.entries.len()
    }

    /// Whether there are no entries.
    pub fn is_empty(&self) -> (r: bool)
        ensures
            r == (self.names().len() == 0),
    {
        self.entries.len() == 0
    }

    /// Whether an entry is kept under `name`.
    pub fn contains_key(&self, name: &str) -> (r: bool)
        ensures
            r == self.names().contains(name@),
    {
        let k = chars_of(name);
        let mut i: usize = 0;
        while i < self.entries.len()
            invariant
                i <= self.entries.len(),
                k@ == name@,
                forall|j: int| 0 <= j < i ==> self.names()[j] != name@,
            decreases self.entries.len() - i,
        {
            if eq_str(&k, self.entries[i].0.as_str()) {
                assert(self.names()[i as int] == name@);
                return true;
            }
            i += 1;
        }
        false
    }

    /// The entry at position `i`.
    pub fn value_at(&self, i: usize) -> (r: &T)
        requires
            i < self.values().len(),
        ensures
            *r == self.values()[i as int],
    {
        &self.entries[i].1
    }

    /// Adds `value` under `name` at its place in name order, unless an entry
    /// is already kept under that name.
    pub fn insert(&mut self, name: &str, value: T)
        ensures
            old(self).names().contains(name@) ==> final(self).names() == old(self).names()
                && final(self).values() == old(self).values(),
            !old(self).names().contains(name@) ==> final(self).names() == old(self).names().insert(
                insert_at(old(self).names(), name@, 0),
                name@,
            ) && final(self).values() == old(self).values().insert(
                insert_at(old(self).names(), name@, 0),
                value,
            ),
    {
        if self.contains_key(name) {
            return;
        }
        let k = chars_of(name);
        let ghost ns = self.names();
        let ghost vs = self.values();
        let mut p: usize = 0;
        while p < self.entries.len()
            invariant
                p <= self.entries.len(),
                k@ == name@,
                ns == self.names(),
                insert_at(ns, name@, 0) == insert_at(ns, name@, p as int),
            ensures
                p <= self.entries.len(),
                insert_at(ns, name@, 0) == p,
            decreases self.entries.len() - p,
        {
            let other = chars_of(self.entries[p].0.as_str());
            proof {
                assert(ns[p as int] == other@);
            }
            if chars_lt(&k, &other) {
                break;
            }
            p += 1;
        }
        let ghost before = self.entries@;
        let e = (name.to_owned(), value);
        self.entries.insert(p, e);
        proof {
            assert(self.entries@ == before.insert(p as int, e));
            assert(self.names() =~= ns.insert(p as int, name@));
            assert(self.values() =~= vs.insert(p as int, e.1));
        }
    }
}

/// Sub-commands kept in order of their names, each name once; the first
/// one added under a name is the one kept.
#[derive(Debug)]
pub struct CommandMap {
    entries: Vec<(String, Command)>,
}

impl CommandMap {
    /// The names, in order.
    pub closed spec fn names(&self) -> Seq<Seq<char>> {
        self.entries@.map_values(|e: (String, Command)| e.0@)
    }

    /// The entries, in order.
    pub closed spec fn values(&self) -> Seq<Command> {
        self.entries@.map_values(|e: (String, Command)| e.1)
    }

    /// An empty map.
    pub fn new() -> (r: CommandMap)
        ensures
            r.names().len() == 0,
            r.values().len() == 0,
    {
        let r = CommandMap { entries: Vec::new() };
        proof {
            assert(r.names() =~= Seq::<Seq<char>>::empty());
            assert(r.values() =~= Seq::<Command>::empty());
        }
        r
    }

    /// How many entries there are.
    pub fn len(&self) -> (r: usize)
        ensures
            r == self.names().len(),
            r == self.values().len(),
    {
        self.entries.len()
    }

    /// Whether there are no entries.
    pub fn is_empty(&self) -> (r: bool)
        ensures
            r == (self.names().len() == 0),
    {
        self.entries.len() == 0
    }

    /// Whether an entry is kept under `name`.
    pub fn contains_key(&self, name: &str) -> (r: bool)
        ensures
            r == self.names().contains(name@),
    {
        let k = chars_of(name);
        let mut i: usize = 0;
        while i < self.entries.len()
            invariant
                i <= self.entries.len(),
                k@ == name@,
                forall|j: int| 0 <= j < i ==> self.names()[j] != name@,
            decreases self.entries.len() - i,
        {
            if eq_str(&k, self.entries[i].0.as_str()) {
                assert(self.names()[i as int] == name@);
                return true;
            }
            i += 1;
        }
        false
    }

    /// The entry at position `i`.
    pub fn value_at(&self, i: usize) -> (r: &Command)
        requires
            i < self.values().len(),
        ensures
            *r == self.values()[i as int],
    {
        &self.entries[i].1
    }

    /// Adds `value` under `name` at its place in name order, unless an entry
    /// is already kept under that name.
    pub fn insert(&mut self, name: &str, value: Command)
        ensures
            old(self).names().contains(name@) ==> final(self).names() == old(self).names()
                && final(self).values() == old(self).values(),
            !old(self).names().contains(name@) ==> final(self).names() == old(self).names().insert(
                insert_at(old(self).names(), name@, 0),
                name@,
            ) && final(self).values() == old(self).values().insert(
                insert_at(old(self).names(), name@, 0),
                value,
            ),
    {
        if self.contains_key(name) {
            return;
        }
        let k = chars_of(name);
        let ghost ns = self.names();
        let ghost vs = self.values();
        let mut p: usize = 0;
        while p < self.entries.len()
            invariant
                p <= self.entries.len(),
                k@ == name@,
                ns == self.names(),
                insert_at(ns, name@, 0) == insert_at(ns, name@, p as int),
            ensures
                p <= self.entries.len(),
                insert_at(ns, name@, 0) == p,
            decreases self.entries.len() - p,
        {
            let other = chars_of(self.entries[p].0.as_str());
            proof {
                assert(ns[p as int] == other@);
            }
            if chars_lt(&k, &other) {
                break;
            }
            p += 1;
        }
        let ghost before = self.entries@;
        let e = (name.to_owned(), value);
        self.entries.insert(p, e);
        proof {
            assert(self.entries@ == before.insert(p as int, e));
            assert(self.names() =~= ns.insert(p as int, name@));
            assert(self.values() =~= vs.insert(p as int, e.1));
        }
    }
}

/// The position in `names` from `i` on before which `name` sorts.
pub open spec fn insert_at(names: Seq<Seq<char>>, name: Seq<char>, i: int) -> int
    decreases names.len() - i,
{
    if i < 0 || i >= names.len() {
        names.len() as int
    } else if name_lt(name, names[i]) {
        i
    } else {
        insert_at(names, name, i + 1)
    }
}

fn chars_lt(a: &Vec<char>, b: &Vec<char>) -> (r: bool)
    ensures
        r == name_lt(a@, b@),
{
    let mut k: usize = 0;
    assert(a@.skip(0) =~= a@);
    assert(b@.skip(0) =~= b@);
    while k < a.len() && k < b.len() && a[k] == b[k]
        invariant
            k <= a.len(),
            k <= b.len(),
            name_lt(a@, b@) == name_lt(a@.skip(k as int), b@.skip(k as int)),
        decreases a.len() - k,
    {
        assert(a@.skip(k as int).drop_first() =~= a@.skip(k + 1));
        assert(b@.skip(k as int).drop_first() =~= b@.skip(k + 1));
        k += 1;
    }
    if k == a.len() {
        k < b.len()
    } else if k == b.len() {
        false
    } else {
        a[k] < b[k]
    }
}

/// Whether the names are in strictly increasing order.
pub open spec fn strictly_sorted(names: Seq<Seq<char>>) -> bool {
    forall|i: int, j: int| 0 <= i < j < names.len() ==> name_lt(#[trigger] names[i], #[trigger] names[j])
}

proof fn lemma_name_lt_irreflexive(a: Seq<char>)
    ensures
        !name_lt(a, a),
    decreases a.len(),
{
    if a.len() > 0 {
        lemma_name_lt_irreflexive(a.drop_first());
    }
}

proof fn lemma_name_lt_transitive(a: Seq<char>, b: Seq<char>, c: Seq<char>)
    requires
        name_lt(a, b),
        name_lt(b, c),
    ensures
        name_lt(a, c),
    decreases a.len(),
{
    if a.len() > 0 && b.len() > 0 && c.len() > 0 && a[0] == b[0] && b[0] == c[0] {
        lemma_name_lt_transitive(a.drop_first(), b.drop_first(), c.drop_first());
    }
}

proof fn lemma_name_lt_total(a: Seq<char>, b: Seq<char>)
    ensures
        a == b || name_lt(a, b) || name_lt(b, a),
    decreases a.len(),
{
    if a.len() > 0 && b.len() > 0 && a[0] == b[0] {
        lemma_name_lt_total(a.drop_first(), b.drop_first());
        if a.drop_first() == b.drop_first() {
            assert forall|i: int| 0 <= i < a.len() implies a[i] == b[i] by {
                if i > 0 {
                    assert(a[i] == a.drop_first()[i - 1]);
                    assert(b[i] == b.drop_first()[i - 1]);
                }
            }
            assert(a =~= b);
        }
    }
}

proof fn lemma_insert_at_bounds(names: Seq<Seq<char>>, name: Seq<char>, i: int)
    requires
        0 <= i <= names.len(),
    ensures
        i <= insert_at(names, name, i) <= names.len(),
        forall|j: int| i <= j < insert_at(names, name, i) ==> !name_lt(name, #[trigger] names[j]),
        insert_at(names, name, i) < names.len() ==> name_lt(name, names[insert_at(names, name, i)]),
    decreases names.len() - i,
{
    if i < names.len() && !name_lt(name, names[i]) {
        lemma_insert_at_bounds(names, name, i + 1);
    }
}

/// Adding a name at its place keeps a strictly sorted list of names strictly
/// sorted: whatever the adds, the names stay ordered and distinct.
pub proof fn lemma_insert_keeps_sorted(names: Seq<Seq<char>>, name: Seq<char>)
    requires
        strictly_sorted(names),
        !names.contains(name),
    ensures
        strictly_sorted(names.insert(insert_at(names, name, 0), name)),
{
    lemma_insert_at_bounds(names, name, 0);
    let p = insert_at(names, name, 0);
    let r = names.insert(p, name);
    assert forall|i: int, j: int| 0 <= i < j < r.len() implies name_lt(#[trigger] r[i], #[trigger] r[j]) by {
        if i < p && j < p {
            assert(r[i] == names[i] && r[j] == names[j]);
        } else if i < p && j == p {
            assert(r[i] == names[i] && r[j] == name);
            assert(!name_lt(name, names[i]));
            lemma_name_lt_total(name, names[i]);
        } else if i < p && j > p {
            assert(r[i] == names[i] && r[j] == names[j - 1]);
        } else if i == p {
            assert(r[i] == name && r[j] == names[j - 1]);
            assert(name_lt(name, names[p]));
            if j - 1 > p {
                lemma_name_lt_transitive(name, names[p], names[j - 1]);
            }
        } else {
            assert(r[i] == names[i - 1] && r[j] == names[j - 1]);
        }
    }
}

/// A command-line flag as the man page sees it.
#[derive(Debug, Clone)]
pub struct Flag {
    /// Long name, without dashes.
    pub name: String,
    /// Single-character shorthand, or empty.
    pub short: String,
    /// Help text.
    pub usage: String,
    /// Whether the flag uses the `--` long-form prefix.
    pub pflag: bool,
}

/// A command in the man page's tree.
#[derive(Debug)]
pub struct Command {
    /// Command name.
    pub name: String,
    /// One-line description.
    pub short: String,
    /// The `Use` line.
    pub usage: String,
    /// Example block.
    pub example: String,
    /// Flags, ordered by name.
    pub flags: NameMap<Flag>,
    /// Sub-commands, ordered by name.
    pub commands: CommandMap,
}

impl Command {
    /// A command with no flags or children.
    pub fn new(name: &str, short: &str, usage: &str) -> (r: Command)
        ensures
            r.name@ == name@,
            r.short@ == short@,
            r.usage@ == usage@,
            r.example@.len() == 0,
            r.flags.names().len() == 0,
            r.commands.names().len() == 0,
    {
        Command {
            name: name.to_owned(),
            short: short.to_owned(),
            usage: usage.to_owned(),
            example: String::new(),
            flags: NameMap::new(),
            commands: CommandMap::new(),
        }
    }

    /// Adds a flag, keeping the first definition of a name.
    pub fn add_flag(&mut self, f: Flag)
        ensures
            final(self).name == old(self).name,
            final(self).short == old(self).short,
            final(self).usage == old(self).usage,
            final(self).example == old(self).example,
            final(self).commands == old(self).commands,
            old(self).flags.names().contains(f.name@) ==> final(self).flags.names() == old(
                self,
            ).flags.names() && final(self).flags.values() == old(self).flags.values(),
            !old(self).flags.names().contains(f.name@) ==> final(self).flags.names() == old(
                self,
            ).flags.names().insert(insert_at(old(self).flags.names(), f.name@, 0), f.name@)
                && final(self).flags.values() == old(self).flags.values().insert(
                insert_at(old(self).flags.names(), f.name@, 0),
                f,
            ),
    {
        let name = f.name.clone();
        self.flags.insert(name.as_str(), f);
    }

    /// Adds a sub-command, keeping the first definition of a name.
    pub fn add_command(&mut self, c: Command)
        ensures
            final(self).name == old(self).name,
            final(self).short == old(self).short,
            final(self).usage == old(self).usage,
            final(self).example == old(self).example,
            final(self).flags == old(self).flags,
            old(self).commands.names().contains(c.name@) ==> final(self).commands.names() == old(
                self,
            ).commands.names() && final(self).commands.values() == old(self).commands.values(),
            !old(self).commands.names().contains(c.name@) ==> final(self).commands.names() == old(
                self,
            ).commands.names().insert(insert_at(old(self).commands.names(), c.name@, 0), c.name@)
                && final(self).commands.values() == old(self).commands.values().insert(
                insert_at(old(self).commands.names(), c.name@, 0),
                c,
            ),
    {
        let name = c.name.clone();
        self.commands.insert(name.as_str(), c);
    }
}

/// An extra section appended after the generated ones.
#[derive(Debug, Clone)]
pub struct Section {
    /// Section heading.
    pub name: String,
    /// Section body.
    pub text: String,
}

/// A man page generator.
#[derive(Debug)]
pub struct ManPage {
    /// The root command.
    pub root: Command,
    /// Manual section number.
    pub section: u32,
    /// The one-line description used in the heading and `NAME`.
    pub description: String,
    /// The body of `DESCRIPTION`.
    pub long_description: String,
    /// Extra sections.
    pub sections: Vec<Section>,
}

/// `\fB`, the text, `\fP`.
pub open spec fn bold_spec(buf: Seq<char>, t: Seq<char>) -> Seq<char> {
    write_spec(text_spec(write_spec(buf, seq!['\\', 'f', 'B']), t), seq!['\\', 'f', 'P'])
}

/// `\fI`, the text, `\fP`.
pub open spec fn italic_spec(buf: Seq<char>, t: Seq<char>) -> Seq<char> {
    write_spec(text_spec(write_spec(buf, seq!['\\', 'f', 'I']), t), seq!['\\', 'f', 'P'])
}

/// How a flag is named in an options list.
pub open spec fn flag_label(f: Flag) -> Seq<char> {
    let prefix = if f.pflag { "--"@ } else { "-"@ };
    if f.short@.len() == 0 {
        prefix + f.name@
    } else {
        seq!['-'] + f.short@ + ", "@ + prefix + f.name@
    }
}

/// The first `k` flags of an options list written out.
pub open spec fn options_spec(buf: Seq<char>, fs: Seq<Flag>, k: int) -> Seq<char>
    decreases k,
{
    if k <= 0 {
        buf
    } else {
        let b = options_spec(buf, fs, k - 1);
        let f = fs[k - 1];
        let b1 = if k - 1 > 0 { writeln_spec(b, tagged_macro(-1)) } else { b };
        text_spec(
            writeln_spec(bold_spec(b1, flag_label(f)), Seq::empty()),
            replace_char(f.usage@, '\n', seq![' ']),
        )
    }
}

/// What follows a sub-command's name in its heading: the use line without
/// the name in front.
pub open spec fn use_rest(c: Command) -> Seq<char> {
    if has_prefix(c.usage@, c.name@) {
        c.usage@.skip(c.name@.len() as int)
    } else {
        c.usage@
    }
}

/// Opening a part of a command: a section at the root, an indented block
/// titled `title` below it.
pub open spec fn open_part(buf: Seq<char>, is_root: bool, section: Seq<char>, title: Seq<char>) -> Seq<char> {
    if is_root {
        writeln_spec(writeln_spec(buf, section_macro(section)), tagged_macro(-1))
    } else {
        writeln_spec(bold_spec(writeln_spec(buf, tagged_macro(-1)), title), indent_macro(4))
    }
}

/// The options, commands and examples of command `c`, nested commands
/// included.
pub closed spec fn command_spec(buf: Seq<char>, c: Command, root_name: Seq<char>) -> Seq<char>
    decreases c, 0int,
{
    let is_root = c.name@ == root_name;
    let fs = c.flags.values();
    let b1 = if fs.len() > 0 {
        let o = options_spec(open_part(buf, is_root, "Options"@, "OPTIONS"@), fs, fs.len() as int);
        if is_root { o } else { writeln_spec(o, indent_end_macro()) }
    } else {
        buf
    };
    let cs = c.commands.entries@;
    let b2 = if cs.len() > 0 {
        proof {
            assert(decreases_to!(c => c.commands));
            assert(decreases_to!(c.commands => c.commands.entries));
            assert(decreases_to!(c.commands.entries => c.commands.entries@));
        }
        let s = subcommands_spec(open_part(b1, is_root, "Commands"@, "COMMANDS"@), cs, cs.len() as int, root_name);
        if is_root { s } else { writeln_spec(s, indent_end_macro()) }
    } else {
        b1
    };
    if c.example@.len() > 0 {
        let e = text_spec(open_part(b2, is_root, "Examples"@, "EXAMPLES"@), c.example@);
        if is_root { writeln_spec(e, Seq::empty()) } else { writeln_spec(e, indent_end_macro()) }
    } else {
        b2
    }
}

/// A sub-command's heading: its name in bold, the rest of its use line,
/// and its description indented; after the first, a new tagged paragraph.
pub open spec fn sub_heading(buf: Seq<char>, sub: Command, later: bool) -> Seq<char> {
    let b1 = if later { writeln_spec(buf, tagged_macro(-1)) } else { buf };
    let b2 = bold_spec(b1, sub.name@);
    let b3 = if sub.usage@.len() > 0 { text_spec(b2, use_rest(sub)) } else { b2 };
    writeln_spec(
        text_spec(writeln_spec(b3, indent_macro(4)), replace_char(sub.short@, '\n', seq![' '])),
        indent_end_macro(),
    )
}

/// The first `k` sub-commands written out, each with its own parts.
pub closed spec fn subcommands_spec(buf: Seq<char>, cs: Seq<(String, Command)>, k: int, root_name: Seq<char>) -> Seq<char>
    decreases cs, k,
{
    if k <= 0 || k > cs.len() {
        buf
    } else {
        let b = subcommands_spec(buf, cs, k - 1, root_name);
        let sub = cs[k - 1].1;
        proof {
            assert(decreases_to!(cs => cs[k - 1]));
            assert(decreases_to!(cs[k - 1] => cs[k - 1].1));
        }
        command_spec(sub_heading(b, sub, k - 1 > 0), sub, root_name)
    }
}

/// The extra sections, the first `k` of them.
pub open spec fn sections_spec(buf: Seq<char>, ss: Seq<Section>, k: int) -> Seq<char>
    decreases k,
{
    if k <= 0 {
        buf
    } else {
        text_spec(writeln_spec(sections_spec(buf, ss, k - 1), section_macro(ss[k - 1].name@)), ss[k - 1].text@)
    }
}

/// The whole page: heading, name, synopsis, description, the command tree,
/// and the extra sections.
pub open spec fn build_spec(page: ManPage, date: Seq<char>) -> Seq<char> {
    let name = page.root.name@;
    let b0 = write_spec(Seq::empty(), heading_line(page.section as nat, name, page.description@, date));
    let b1 = text_spec(writeln_spec(b0, section_macro("Name"@)), name + " - "@ + page.description@);
    let b2 = bold_spec(writeln_spec(b1, section_macro("Synopsis"@)), name);
    let b3 = text_spec(italic_spec(text_spec(b2, " ["@), "options..."@), "] ["@);
    let b4 = text_spec(italic_spec(b3, "argument..."@), "]"@);
    let b5 = text_spec(writeln_spec(b4, section_macro("Description"@)), page.long_description@);
    let b6 = command_spec(b5, page.root, name);
    sections_spec(b6, page.sections@, page.sections@.len() as int)
}

fn bold(w: &mut Document, t: &Vec<char>)
    ensures
        final(w)@ == bold_spec(old(w)@, t@),
{
    w.text_bold(string_of(t).as_str());
}

fn open_part_exec(w: &mut Document, is_root: bool, section: &str, title: &str)
    ensures
        final(w)@ == open_part(old(w)@, is_root, section@, title@),
{
    if is_root {
        w.section(section);
        w.tagged_paragraph(-1);
    } else {
        w.tagged_paragraph(-1);
        w.text_bold(title);
        w.indent(4);
    }
}

fn one_line(s: &str) -> (r: String)
    ensures
        r@ == replace_char(s@, '\n', seq![' ']),
{
    let mut sp: Vec<char> = Vec::new();
    sp.push(' ');
    assert(sp@ =~= seq![' ']);
    string_of(&replace_char_with(&chars_of(s), '\n', &sp))
}

fn options_exec(w: &mut Document, fs: &NameMap<Flag>)
    ensures
        final(w)@ == options_spec(old(w)@, fs.values(), fs.values().len() as int),
{
    let mut i: usize = 0;
    while i < fs.len()
        invariant
            i <= fs.values().len(),
            w@ == options_spec(old(w)@, fs.values(), i as int),
        decreases fs.values().len() - i,
    {
        let f = fs.value_at(i);
        if i > 0 {
            w.tagged_paragraph(-1);
        }
        let mut label: Vec<char> = Vec::new();
        if !f.short.as_str().is_empty() {
            label.push('-');
            extend_str(&mut label, f.short.as_str());
            extend_str(&mut label, ", ");
        }
        if f.pflag {
            extend_str(&mut label, "--");
        } else {
            extend_str(&mut label, "-");
        }
        extend_str(&mut label, f.name.as_str());
        proof {
            assert(label@ =~= flag_label(*f));
        }
        bold(w, &label);
        w.end_section();
        w.text(one_line(f.usage.as_str()).as_str());
        i += 1;
    }
}

fn sub_heading_exec(w: &mut Document, sub: &Command, later: bool)
    ensures
        final(w)@ == sub_heading(old(w)@, *sub, later),
{
    if later {
        w.tagged_paragraph(-1);
    }
    w.text_bold(sub.name.as_str());
    if !sub.usage.as_str().is_empty() {
        let u = chars_of(sub.usage.as_str());
        let n = chars_of(sub.name.as_str());
        let rest = if crate::text::starts_with(&u, sub.name.as_str()) {
            crate::text::slice_chars(&u, n.len(), u.len())
        } else {
            crate::text::slice_chars(&u, 0, u.len())
        };
        proof {
            if has_prefix(sub.usage@, sub.name@) {
                assert(rest@ =~= sub.usage@.skip(sub.name@.len() as int));
            } else {
                assert(rest@ =~= sub.usage@);
            }
        }
        w.text(string_of(&rest).as_str());
    }
    w.indent(4);
    w.text(one_line(sub.short.as_str()).as_str());
    w.indent_end();
}

impl ManPage {
    /// A generator for `title`, described by `description`.
    pub fn new(section: u32, title: &str, description: &str) -> (r: ManPage)
        ensures
            r.root.name@ == title@,
            r.root.short@.len() == 0,
            r.root.usage@.len() == 0,
            r.root.example@.len() == 0,
            r.root.flags.names().len() == 0,
            r.root.commands.names().len() == 0,
            r.section == section,
            r.description@ == description@,
            r.long_description@.len() == 0,
            r.sections@.len() == 0,
    {
        proof {
            reveal_strlit("");
        }
        ManPage {
            root: Command::new(title, "", ""),
            section,
            description: description.to_owned(),
            long_description: String::new(),
            sections: Vec::new(),
        }
    }

    /// Sets the `DESCRIPTION` body.
    pub fn with_long_description(self, desc: &str) -> (r: ManPage)
        ensures
            r.long_description@ == desc@,
            r.root == self.root,
            r.section == self.section,
            r.description == self.description,
            r.sections == self.sections,
    {
        let mut p = self;
        p.long_description = desc.to_owned();
        p
    }

    /// Renders the man page, dated `date` (`YYYY-MM-DD`).
    pub fn build(&self, date: &str) -> (r: String)
        ensures
            r@ == build_spec(*self, date@),
    {
        let mut w = Document::new();
        w.heading(self.section, self.root.name.as_str(), self.description.as_str(), date);
        w.section("Name");
        let mut nm = chars_of(self.root.name.as_str());
        extend_str(&mut nm, " - ");
        extend_str(&mut nm, self.description.as_str());
        w.text(string_of(&nm).as_str());
        w.section("Synopsis");
        w.text_bold(self.root.name.as_str());
        w.text(" [");
        w.text_italic("options...");
        w.text("] [");
        w.text_italic("argument...");
        w.text("]");
        w.section("Description");
        w.text(self.long_description.as_str());
        self.build_command(&mut w, &self.root);
        let mut i: usize = 0;
        while i < self.sections.len()
            invariant
                i <= self.sections@.len(),
                w@ == sections_spec(
                    command_spec(
                        text_spec(
                            writeln_spec(
                                text_spec(
                                    italic_spec(
                                        text_spec(
                                            italic_spec(
                                                text_spec(
                                                    bold_spec(
                                                        writeln_spec(
                                                            text_spec(
                                                                writeln_spec(
                                                                    write_spec(
                                                                        Seq::empty(),
                                                                        heading_line(
                                                                            self.section as nat,
                                                                            self.root.name@,
                                                                            self.description@,
                                                                            date@,
                                                                        ),
                                                                    ),
                                                                    section_macro("Name"@),
                                                                ),
                                                                self.root.name@ + " - "@
                                                                    + self.description@,
                                                            ),
                                                            section_macro("Synopsis"@),
                                                        ),
                                                        self.root.name@,
                                                    ),
                                                    " ["@,
                                                ),
                                                "options..."@,
                                            ),
                                            "] ["@,
                                        ),
                                        "argument..."@,
                                    ),
                                    "]"@,
                                ),
                                section_macro("Description"@),
                            ),
                            self.long_description@,
                        ),
                        self.root,
                        self.root.name@,
                    ),
                    self.sections@,
                    i as int,
                ),
            decreases self.sections@.len() - i,
        {
            w.section(self.sections[i].name.as_str());
            w.text(self.sections[i].text.as_str());
            i += 1;
        }
        w.to_string()
    }

    fn build_command(&self, w: &mut Document, c: &Command)
        ensures
            final(w)@ == command_spec(old(w)@, *c, self.root.name@),
        decreases c, 0int,
    {
        let is_root = eq_str(&chars_of(c.name.as_str()), self.root.name.as_str());
        if !c.flags.is_empty() {
            open_part_exec(w, is_root, "Options", "OPTIONS");
            options_exec(w, &c.flags);
            if !is_root {
                w.indent_end();
            }
        }
        if !c.commands.is_empty() {
            open_part_exec(w, is_root, "Commands", "COMMANDS");
            proof {
                assert(decreases_to!(*c => c.commands));
                assert(decreases_to!(c.commands => c.commands.entries));
                assert(decreases_to!(c.commands.entries => c.commands.entries@));
            }
            self.build_subcommands(w, &c.commands);
            if !is_root {
                w.indent_end();
            }
        }
        if !c.example.as_str().is_empty() {
            open_part_exec(w, is_root, "Examples", "EXAMPLES");
            w.text(c.example.as_str());
            if is_root {
                w.end_section();
            } else {
                w.indent_end();
            }
        }
    }

    fn build_subcommands(&self, w: &mut Document, cs: &CommandMap)
        ensures
            final(w)@ == subcommands_spec(old(w)@, cs.entries@, cs.entries@.len() as int, self.root.name@),
        decreases cs.entries@, cs.entries@.len(),
    {
        let mut i: usize = 0;
        while i < cs.entries.len()
            invariant
                i <= cs.entries@.len(),
                w@ == subcommands_spec(old(w)@, cs.entries@, i as int, self.root.name@),
            decreases cs.entries@.len() - i,
        {
            let sub = &cs.entries[i].1;
            sub_heading_exec(w, sub, i > 0);
            proof {
                assert(decreases_to!(cs.entries@ => cs.entries@[i as int]));
                assert(decreases_to!(cs.entries@[i as int] => cs.entries@[i as int].1));
            }
            self.build_command(w, sub);
            i += 1;
        }
    }
}

} // verus!

verus! {

/// The names in `names` after adding each of `adds` in turn, the first
/// addition of a name winning.
pub open spec fn names_after(names: Seq<Seq<char>>, adds: Seq<Seq<char>>) -> Seq<Seq<char>>
    decreases adds.len(),
{
    if adds.len() == 0 {
        names
    } else {
        let ns = names_after(names, adds.drop_last());
        let n = adds.last();
        if ns.contains(n) {
            ns
        } else {
            ns.insert(insert_at(ns, n, 0), n)
        }
    }
}

/// The position of the first flag named `name`.
pub open spec fn first_flag(fs: Seq<cobra::FlagView>, name: Seq<char>) -> int
    decreases fs.len(),
{
    if fs.len() == 0 {
        0
    } else if fs[0].name == name {
        0
    } else {
        1 + first_flag(fs.drop_first(), name)
    }
}

/// The flags of a command that its man page lists: its own and its
/// persistent ones, without `help` and `version`, which are added only to
/// the command being run.
pub open spec fn page_flags(c: cobra::Command) -> Seq<cobra::FlagView> {
    (c.flags@ + c.persistent_flags@).filter(listed_pred())
}

/// Whether a flag is listed on a man page: all but `help` and `version`.
pub open spec fn listed_pred() -> spec_fn(cobra::FlagView) -> bool {
    |f: cobra::FlagView| f.name != "help"@ && f.name != "version"@
}

/// The sub-commands that a man page lists: the ones not hidden.
pub open spec fn page_children(c: cobra::Command) -> Seq<cobra::Command> {
    c.children@.filter(|k: cobra::Command| !k.hidden)
}

/// A man-page flag map built from `fs`: its names are the flag names added
/// in order, the first definition winning, and each entry carries that
/// first definition's shorthand and help text.
pub open spec fn flags_from(m: NameMap<Flag>, fs: Seq<cobra::FlagView>) -> bool {
    &&& m.names() == names_after(Seq::empty(), fs.map_values(|f: cobra::FlagView| f.name))
    &&& m.names().len() == m.values().len()
    &&& forall|j: int| 0 <= j < m.values().len() ==> entry_from(#[trigger] m.values()[j], m.names()[j], fs)
}

/// A man-page flag filed under `name` that is the first definition of that
/// name in `fs`.
pub open spec fn entry_from(v: Flag, name: Seq<char>, fs: Seq<cobra::FlagView>) -> bool {
    let k = first_flag(fs, name);
    &&& 0 <= k < fs.len()
    &&& v.name@ == name
    &&& v.short@ == fs[k].shorthand
    &&& v.usage@ == fs[k].usage
    &&& v.pflag
}

} // verus!

verus! {

proof fn lemma_first_flag_push(fs: Seq<cobra::FlagView>, x: cobra::FlagView, n: Seq<char>)
    ensures
        fs.map_values(|f: cobra::FlagView| f.name).contains(n) ==> first_flag(fs.push(x), n)
            == first_flag(fs, n) && 0 <= first_flag(fs, n) < fs.len() && fs[first_flag(fs, n)].name == n,
        !fs.map_values(|f: cobra::FlagView| f.name).contains(n) && x.name == n ==> first_flag(
            fs.push(x),
            n,
        ) == fs.len(),
    decreases fs.len(),
{
    let names = fs.map_values(|f: cobra::FlagView| f.name);
    if fs.len() > 0 {
        let rest = fs.drop_first();
        assert(fs.push(x).drop_first() =~= rest.push(x));
        lemma_first_flag_push(rest, x, n);
        let rn = rest.map_values(|f: cobra::FlagView| f.name);
        if fs[0].name != n {
            if names.contains(n) {
                let i = choose|i: int| 0 <= i < names.len() && names[i] == n;
                assert(i > 0);
                assert(rn[i - 1] == n);
            }
            if rn.contains(n) {
                let i = choose|i: int| 0 <= i < rn.len() && rn[i] == n;
                assert(names[i + 1] == n);
            }
        } else {
            assert(names[0] == n);
        }
    } else {
        assert(fs.push(x) =~= seq![x]);
    }
}

fn add_page_flag(item: &mut NameMap<Flag>, f: &cobra::Flag, Ghost(seen): Ghost<Seq<cobra::FlagView>>)
    requires
        flags_from(*old(item), seen),
    ensures
        flags_from(*final(item), seen.push(f@)),
{
    let g = Flag {
        name: f.name.clone(),
        short: f.shorthand.clone(),
        usage: f.usage.clone(),
        pflag: true,
    };
    let ghost old_names = item.names();
    let ghost old_values = item.values();
    let ghost sn = seen.map_values(|h: cobra::FlagView| h.name);
    proof {
        assert(seen.push(f@).map_values(|h: cobra::FlagView| h.name) =~= sn.push(f@.name));
        assert(sn.push(f@.name).drop_last() =~= sn);
        lemma_first_flag_push(seen, f@, f@.name);
        assert forall|j: int| 0 <= j < old_values.len() implies first_flag(seen.push(f@), #[trigger] old_names[j]) == first_flag(seen, old_names[j]) by {
            lemma_names_after_from(sn, old_names[j], j);
            lemma_first_flag_push(seen, f@, old_names[j]);
        }
    }
    item.insert(f.name.as_str(), g);
    proof {
        assert(names_after(Seq::empty(), sn.push(f@.name)) == (if old_names.contains(f@.name) {
            old_names
        } else {
            old_names.insert(insert_at(old_names, f@.name, 0), f@.name)
        }));
        assert(item.names() == names_after(Seq::empty(), seen.push(f@).map_values(|h: cobra::FlagView| h.name)));
        assert(item.names().len() == item.values().len());
        if old_names.contains(f@.name) {
            assert forall|j: int| 0 <= j < item.values().len() implies entry_from(#[trigger] item.values()[j], item.names()[j], seen.push(f@)) by {
                assert(item.values()[j] == old_values[j]);
                assert(item.names()[j] == old_names[j]);
                assert(first_flag(seen.push(f@), old_names[j]) == first_flag(seen, old_names[j]));
                assert(entry_from(old_values[j], old_names[j], seen));
                let k = first_flag(seen, old_names[j]);
                assert(seen.push(f@)[k] == seen[k]);
            }
            assert(flags_from(*item, seen.push(f@)));
        }
        if !old_names.contains(f@.name) {
            lemma_names_after_in(sn);
            assert(!sn.contains(f@.name));
            let p = insert_at(old_names, f@.name, 0);
            lemma_insert_at_bounds(old_names, f@.name, 0);
            assert forall|j: int| 0 <= j < item.values().len() implies entry_from(#[trigger] item.values()[j], item.names()[j], seen.push(f@)) by {
                if j < p {
                    assert(item.values()[j] == old_values[j]);
                    assert(item.names()[j] == old_names[j]);
                    assert(entry_from(old_values[j], old_names[j], seen));
                    assert(first_flag(seen.push(f@), old_names[j]) == first_flag(seen, old_names[j]));
                    let k = first_flag(seen, old_names[j]);
                    assert(seen.push(f@)[k] == seen[k]);
                } else if j == p {
                    assert(item.names()[j] == f@.name);
                } else {
                    assert(item.values()[j] == old_values[j - 1]);
                    assert(item.names()[j] == old_names[j - 1]);
                    assert(entry_from(old_values[j - 1], old_names[j - 1], seen));
                    assert(first_flag(seen.push(f@), old_names[j - 1]) == first_flag(seen, old_names[j - 1]));
                    let k = first_flag(seen, old_names[j - 1]);
                    assert(seen.push(f@)[k] == seen[k]);
                }
            }
            assert(flags_from(*item, seen.push(f@)));
        }
    }
}

proof fn lemma_names_after_in(adds: Seq<Seq<char>>)
    ensures
        forall|n: Seq<char>| names_after(Seq::empty(), adds).contains(n) <==> adds.contains(n),
    decreases adds.len(),
{
    if adds.len() > 0 {
        lemma_names_after_in(adds.drop_last());
        let ns = names_after(Seq::empty(), adds.drop_last());
        let x = adds.last();
        assert forall|n: Seq<char>| names_after(Seq::empty(), adds).contains(n) <==> adds.contains(n) by {
            if adds.contains(n) {
                let i = choose|i: int| 0 <= i < adds.len() && adds[i] == n;
                if i < adds.len() - 1 {
                    assert(adds.drop_last()[i] == n);
                }
            }
            if adds.drop_last().contains(n) {
                let i = choose|i: int| 0 <= i < adds.drop_last().len() && adds.drop_last()[i] == n;
                assert(adds[i] == n);
            }
            if !ns.contains(x) {
                lemma_insert_at_bounds(ns, x, 0);
                let p = insert_at(ns, x, 0);
                let r = ns.insert(p, x);
                if r.contains(n) {
                    let i = choose|i: int| 0 <= i < r.len() && r[i] == n;
                    if i < p {
                        assert(ns[i] == n);
                    } else if i > p {
                        assert(ns[i - 1] == n);
                    }
                }
                if ns.contains(n) {
                    let i = choose|i: int| 0 <= i < ns.len() && ns[i] == n;
                    if i < p {
                        assert(r[i] == n);
                    } else {
                        assert(r[i + 1] == n);
                    }
                }
                assert(r[p] == x);
            }
        }
    }
}

proof fn lemma_names_after_from(adds: Seq<Seq<char>>, n: Seq<char>, j: int)
    requires
        0 <= j < names_after(Seq::empty(), adds).len(),
        names_after(Seq::empty(), adds)[j] == n,
    ensures
        adds.contains(n),
{
    lemma_names_after_in(adds);
    assert(names_after(Seq::empty(), adds).contains(n));
}

} // verus!

verus! {

/// The names of the commands of `cs` that are not hidden, in order.
pub open spec fn visible_names(cs: Seq<cobra::Command>) -> Seq<Seq<char>>
    decreases cs.len(),
{
    if cs.len() == 0 {
        Seq::empty()
    } else if cs.last().hidden {
        visible_names(cs.drop_last())
    } else {
        visible_names(cs.drop_last()).push(first_word(cs.last().use_line@))
    }
}

/// The position of the first command of `cs` that is not hidden and is
/// named `name`, or the length when there is none.
pub open spec fn first_visible(cs: Seq<cobra::Command>, name: Seq<char>) -> int
    decreases cs.len(),
{
    if cs.len() == 0 {
        0
    } else if !cs[0].hidden && first_word(cs[0].use_line@) == name {
        0
    } else {
        1 + first_visible(cs.drop_first(), name)
    }
}

/// A man-page command made from cobra command `c`: named by the first word
/// of its use line, carrying (below the root) its description and use line,
/// its example, its listed flags, and its visible sub-commands made the same
/// way.
pub open spec fn converted(m: Command, c: cobra::Command, is_root: bool) -> bool
    decreases c, 4int,
{
    &&& m.name@ == first_word(c.use_line@)
    &&& m.short@ == (if is_root { Seq::empty() } else { c.short@ })
    &&& m.usage@ == (if is_root { Seq::empty() } else { c.use_line@ })
    &&& m.example@ == c.example@
    &&& flags_from(m.flags, page_flags(c))
    &&& commands_of(m.commands, c)
}

/// The sub-commands of a man-page command made from those of `c`.
pub open spec fn commands_of(m: CommandMap, c: cobra::Command) -> bool
    decreases c, 3int,
{
    proof {
        assert(decreases_to!(c => c.children));
        assert(decreases_to!(c.children => c.children@));
    }
    commands_in(m, c.children@)
}

/// A man-page command map made from the commands `cs`: the visible ones are
/// added in order, the first of a name winning, each made from that first
/// one.
pub open spec fn commands_in(m: CommandMap, cs: Seq<cobra::Command>) -> bool
    decreases cs, 2int,
{
    &&& m.names() == names_after(Seq::empty(), visible_names(cs))
    &&& m.names().len() == m.values().len()
    &&& forall|j: int| 0 <= j < m.values().len() ==> command_entry(#[trigger] m.values()[j], m.names()[j], cs)
}

/// A man-page command filed under `name` that is made from the first visible
/// command of `cs` with that name.
pub open spec fn command_entry(v: Command, name: Seq<char>, cs: Seq<cobra::Command>) -> bool
    decreases cs, 1int,
{
    let k = first_visible(cs, name);
    0 <= k < cs.len() && {
        proof {
            assert(decreases_to!(cs => cs[k]));
        }
        converted(v, cs[k], false)
    }
}

} // verus!

verus! {

fn add_listed(item: &mut NameMap<Flag>, fs: &cobra::FlagSet, Ghost(before): Ghost<Seq<cobra::FlagView>>)
    requires
        flags_from(*old(item), before.filter(listed_pred())),
    ensures
        flags_from(*final(item), (before + fs@).filter(listed_pred())),
{
    let ghost all = before + fs@;
    assert(all.take(before.len() as int) =~= before);
    let mut i: usize = 0;
    while i < fs.len()
        invariant
            all == before + fs@,
            i <= fs@.len(),
            flags_from(*item, all.take(before.len() + i as int).filter(listed_pred())),
        decreases fs@.len() - i,
    {
        let f = fs.at(i);
        let ghost t = all.take(before.len() + i as int + 1);
        proof {
            assert(f@ == all[before.len() + i as int]);
            assert(t.drop_last() =~= all.take(before.len() + i as int));
            assert(t.last() == f@);
        }
        let name = chars_of(f.name.as_str());
        if !eq_str(&name, "help") && !eq_str(&name, "version") {
            proof {
                assert(listed_pred()(f@));
            }
            add_page_flag(item, f, Ghost(all.take(before.len() + i as int).filter(listed_pred())));
            proof {
                reveal(Seq::filter);
                assert(t.filter(listed_pred()) == t.drop_last().filter(listed_pred()).push(t.last()));
            }
        } else {
            proof {
                assert(!listed_pred()(f@));
                reveal(Seq::filter);
                assert(t.filter(listed_pred()) == t.drop_last().filter(listed_pred()));
            }
        }
        i += 1;
    }
    assert(all.take((before.len() + fs@.len()) as int) =~= all);
}

fn add_flags(item: &mut NameMap<Flag>, c: &cobra::Command)
    requires
        old(item).names().len() == 0,
        old(item).values().len() == 0,
    ensures
        flags_from(*final(item), page_flags(*c)),
{
    proof {
        reveal(Seq::filter);
        assert(Seq::<cobra::FlagView>::empty().filter(listed_pred()) =~= Seq::<cobra::FlagView>::empty());
        assert(Seq::<cobra::FlagView>::empty().map_values(|h: cobra::FlagView| h.name) =~= Seq::<Seq<char>>::empty());
        assert(item.names() =~= names_after(Seq::empty(), Seq::empty()));
    }
    add_listed(item, &c.flags, Ghost(Seq::empty()));
    assert(Seq::<cobra::FlagView>::empty() + c.flags@ =~= c.flags@);
    add_listed(item, &c.persistent_flags, Ghost(c.flags@));
}

proof fn lemma_first_visible_push(cs: Seq<cobra::Command>, x: cobra::Command, n: Seq<char>)
    ensures
        visible_names(cs).contains(n) ==> first_visible(cs.push(x), n) == first_visible(cs, n)
            && 0 <= first_visible(cs, n) < cs.len(),
        !visible_names(cs).contains(n) && !x.hidden && first_word(x.use_line@) == n ==> first_visible(
            cs.push(x),
            n,
        ) == cs.len(),
    decreases cs.len(),
{
    if cs.len() > 0 {
        let rest = cs.drop_first();
        assert(cs.push(x).drop_first() =~= rest.push(x));
        lemma_first_visible_push(rest, x, n);
        lemma_visible_names_first(cs);
        let head = if cs[0].hidden {
            Seq::<Seq<char>>::empty()
        } else {
            seq![first_word(cs[0].use_line@)]
        };
        let vr = visible_names(rest);
        assert(visible_names(cs) == head + vr);
        if !cs[0].hidden && first_word(cs[0].use_line@) == n {
            assert(visible_names(cs)[0] == n);
        } else {
            if vr.contains(n) {
                let i = choose|i: int| 0 <= i < vr.len() && vr[i] == n;
                assert(visible_names(cs)[head.len() + i] == n);
            }
            if visible_names(cs).contains(n) {
                let i = choose|i: int| 0 <= i < visible_names(cs).len() && visible_names(cs)[i] == n;
                if head.len() > 0 {
                    assert(i > 0);
                }
                assert(vr[i - head.len()] == n);
            }
        }
    } else {
        assert(cs.push(x) =~= seq![x]);
        assert(visible_names(cs) =~= Seq::<Seq<char>>::empty());
    }
}

proof fn lemma_visible_names_first(cs: Seq<cobra::Command>)
    requires
        cs.len() > 0,
    ensures
        visible_names(cs) == (if cs[0].hidden {
            Seq::<Seq<char>>::empty()
        } else {
            seq![first_word(cs[0].use_line@)]
        }) + visible_names(cs.drop_first()),
    decreases cs.len(),
{
    if cs.len() == 1 {
        assert(cs.drop_last() =~= Seq::<cobra::Command>::empty());
        assert(cs.drop_first() =~= Seq::<cobra::Command>::empty());
    } else {
        lemma_visible_names_first(cs.drop_last());
        assert(cs.drop_last().drop_first() =~= cs.drop_first().drop_last());
        assert(cs.drop_first().last() == cs.last());
        assert(cs.drop_last()[0] == cs[0]);
    }
}

} // verus!

verus! {

fn add_subcommand(item: &mut CommandMap, x: Command, Ghost(seen): Ghost<Seq<cobra::Command>>, Ghost(src): Ghost<cobra::Command>)
    requires
        commands_in(*old(item), seen),
        converted(x, src, false),
        !src.hidden,
    ensures
        commands_in(*final(item), seen.push(src)),
{
    let ghost old_names = item.names();
    let ghost old_values = item.values();
    let ghost vn = visible_names(seen);
    let ghost n = x.name@;
    proof {
        assert(seen.push(src).drop_last() =~= seen);
        assert(visible_names(seen.push(src)) == vn.push(n));
        assert(vn.push(n).drop_last() =~= vn);
        lemma_first_visible_push(seen, src, n);
        assert forall|j: int| 0 <= j < old_values.len() implies first_visible(seen.push(src), #[trigger] old_names[j]) == first_visible(seen, old_names[j]) by {
            lemma_names_after_from(vn, old_names[j], j);
            lemma_first_visible_push(seen, src, old_names[j]);
        }
    }
    let name = x.name.clone();
    item.insert(name.as_str(), x);
    proof {
        assert(item.names() == names_after(Seq::empty(), visible_names(seen.push(src))));
        if old_names.contains(n) {
            assert forall|j: int| 0 <= j < item.values().len() implies command_entry(#[trigger] item.values()[j], item.names()[j], seen.push(src)) by {
                assert(item.values()[j] == old_values[j]);
                assert(item.names()[j] == old_names[j]);
                assert(command_entry(old_values[j], old_names[j], seen));
                let k = first_visible(seen, old_names[j]);
                assert(seen.push(src)[k] == seen[k]);
            }
            assert(commands_in(*item, seen.push(src)));
        } else {
            lemma_names_after_in(vn);
            let p = insert_at(old_names, n, 0);
            lemma_insert_at_bounds(old_names, n, 0);
            assert forall|j: int| 0 <= j < item.values().len() implies command_entry(#[trigger] item.values()[j], item.names()[j], seen.push(src)) by {
                if j < p {
                    assert(item.values()[j] == old_values[j]);
                    assert(item.names()[j] == old_names[j]);
                    assert(command_entry(old_values[j], old_names[j], seen));
                    let k = first_visible(seen, old_names[j]);
                    assert(seen.push(src)[k] == seen[k]);
                } else if j == p {
                    assert(item.names()[j] == n);
                    assert(seen.push(src)[seen.len() as int] == src);
                } else {
                    assert(item.values()[j] == old_values[j - 1]);
                    assert(item.names()[j] == old_names[j - 1]);
                    assert(command_entry(old_values[j - 1], old_names[j - 1], seen));
                    let k = first_visible(seen, old_names[j - 1]);
                    assert(seen.push(src)[k] == seen[k]);
                }
            }
            assert(commands_in(*item, seen.push(src)));
        }
    }
}

fn fill_commands(item: &mut CommandMap, c: &cobra::Command)
    requires
        old(item).names().len() == 0,
        old(item).values().len() == 0,
    ensures
        commands_in(*final(item), c.children@),
    decreases *c, 0int,
{
    let ghost cs = c.children@;
    proof {
        assert(cs.take(0) =~= Seq::<cobra::Command>::empty());
        assert(visible_names(Seq::<cobra::Command>::empty()) =~= Seq::<Seq<char>>::empty());
        assert(item.names() =~= names_after(Seq::empty(), Seq::empty()));
    }
    let mut i: usize = 0;
    while i < c.children.len()
        invariant
            cs == c.children@,
            i <= cs.len(),
            commands_in(*item, cs.take(i as int)),
        decreases cs.len() - i,
    {
        let child = &c.children[i];
        let ghost t = cs.take(i + 1);
        proof {
            assert(t.drop_last() =~= cs.take(i as int));
            assert(t =~= cs.take(i as int).push(*child));
        }
        if !child.hidden {
            proof {
                assert(decreases_to!(*c => c.children));
                assert(decreases_to!(c.children => c.children@));
                assert(decreases_to!(c.children@ => c.children@[i as int]));
            }
            let sub = sub_command(child);
            add_subcommand(item, sub, Ghost(cs.take(i as int)), Ghost(*child));
        } else {
            proof {
                let seen = cs.take(i as int);
                assert(visible_names(t) == visible_names(seen));
                assert forall|j: int| 0 <= j < item.values().len() implies command_entry(#[trigger] item.values()[j], item.names()[j], t) by {
                    lemma_names_after_from(visible_names(seen), item.names()[j], j);
                    lemma_first_visible_push(seen, *child, item.names()[j]);
                    assert(command_entry(item.values()[j], item.names()[j], seen));
                    let k = first_visible(seen, item.names()[j]);
                    assert(t[k] == seen[k]);
                }
                assert(commands_in(*item, t));
            }
        }
        i += 1;
    }
    assert(cs.take(cs.len() as int) =~= cs);
}

fn convert(c: &cobra::Command, is_root: bool) -> (r: Command)
    ensures
        converted(r, *c, is_root),
    decreases *c, 1int,
{
    let name = c.name();
    let mut item = if is_root {
        Command::new(name.as_str(), "", "")
    } else {
        Command::new(name.as_str(), c.short.as_str(), c.use_line.as_str())
    };
    proof {
        reveal_strlit("");
        if is_root {
            assert(item.short@ =~= Seq::<char>::empty());
            assert(item.usage@ =~= Seq::<char>::empty());
        }
    }
    item.example = c.example.clone();
    add_flags(&mut item.flags, c);
    fill_commands(&mut item.commands, c);
    assert(commands_of(item.commands, *c));
    item
}

fn sub_command(c: &cobra::Command) -> (r: Command)
    ensures
        converted(r, *c, false),
    decreases *c, 2int,
{
    convert(c, false)
}

/// Builds a man page generator from a cobra command tree.
///
/// Hidden sub-commands are skipped. The `help` and `version` flags are
/// skipped too: they are added only to the command about to be executed, so
/// the root never carries them while the man page is being generated.
pub fn from_cobra(section: u32, root: &cobra::Command) -> (r: ManPage)
    ensures
        converted(r.root, *root, true),
        r.section == section,
        r.description@ == root.short@,
        r.long_description@ == root.long@,
        r.sections@.len() == 0,
{
    let name = root.name();
    let page = ManPage::new(section, name.as_str(), root.short.as_str());
    let mut page = page.with_long_description(root.long.as_str());
    page.root = convert(root, true);
    page
}

} // verus!
