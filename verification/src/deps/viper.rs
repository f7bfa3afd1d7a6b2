//! Layered configuration: defaults, a configuration file, environment
//! overrides and flags bound to keys, resolved in the precedence order flag,
//! environment, file, default, with keys folded to lower case.
use vstd::prelude::*;
use crate::deps::cobra::{find_flag, FlagSet, FlagView, ValueView as FlagValueView, Value as FlagValue};
use crate::text::{
    chars_of, decimal_int, eq_str, extend_chars, extend_str, lower_case, parse_u64,
    parse_u64_spec, string_of, to_lower, to_upper, trim, trim_chars, trim_end_char,
    trim_end_char_exec, upper_case, decimal_of_i64,
};

verus! {

broadcast use vstd::string::group_string_axioms;

/// A configuration value.
#[derive(Debug, Clone, PartialEq)]
pub enum Value {
    /// A boolean.
    Bool(bool),
    /// An integer.
    Int(i64),
    /// A string.
    Str(String),
}

/// What a configuration value is.
pub enum ValueView {
    Bool(bool),
    Int(i64),
    Str(Seq<char>),
}

impl View for Value {
    type V = ValueView;

    open spec fn view(&self) -> ValueView {
        match self {
            Value::Bool(b) => ValueView::Bool(*b),
            Value::Int(i) => ValueView::Int(*i),
            Value::Str(s) => ValueView::Str(s@),
        }
    }
}

/// `cast.ToBool`.
pub open spec fn as_bool_spec(v: ValueView) -> bool {
    match v {
        ValueView::Bool(b) => b,
        ValueView::Int(i) => i != 0,
        ValueView::Str(s) => s == "1"@ || s == "t"@ || s == "T"@ || s == "true"@ || s == "TRUE"@
            || s == "True"@,
    }
}

/// `cast.ToUint`: a value that will not convert becomes zero.
pub open spec fn as_uint_spec(v: ValueView) -> u64 {
    match v {
        ValueView::Bool(b) => if b { 1 } else { 0 },
        ValueView::Int(i) => if i < 0 { 0 } else { i as u64 },
        ValueView::Str(s) => match parse_u64_spec(trim(s)) {
            Some(u) => u,
            None => 0,
        },
    }
}

/// `cast.ToString`.
pub open spec fn as_string_spec(v: ValueView) -> Seq<char> {
    match v {
        ValueView::Bool(b) => if b { "true"@ } else { "false"@ },
        ValueView::Int(i) => decimal_int(i as int),
        ValueView::Str(s) => s,
    }
}

fn copy_value(v: &Value) -> (r: Value)
    ensures
        r@ == v@,
{
    match v {
        Value::Bool(b) => Value::Bool(*b),
        Value::Int(i) => Value::Int(*i),
        Value::Str(s) => Value::Str(s.clone()),
    }
}

impl Value {
    /// `cast.ToBool` semantics.
    pub fn as_bool(&self) -> (r: bool)
        ensures
            r == as_bool_spec(self@),
    {
        match self {
            Value::Bool(b) => *b,
            Value::Int(i) => *i != 0,
            Value::Str(s) => {
                let v = chars_of(s.as_str());
                eq_str(&v, "1") || eq_str(&v, "t") || eq_str(&v, "T") || eq_str(&v, "true")
                    || eq_str(&v, "TRUE") || eq_str(&v, "True")
            },
        }
    }

    /// `cast.ToUint` semantics; a value that will not convert becomes zero.
    pub fn as_uint(&self) -> (r: u64)
        ensures
            r == as_uint_spec(self@),
    {
        match self {
            Value::Bool(b) => if *b {
                1
            } else {
                0
            },
            Value::Int(i) => if *i < 0 {
                0
            } else {
                *i as u64
            },
            Value::Str(s) => match parse_u64(&trim_chars(&chars_of(s.as_str()))) {
                Some(u) => u,
                None => 0,
            },
        }
    }

    /// `cast.ToString` semantics.
    pub fn as_string(&self) -> (r: String)
        ensures
            r@ == as_string_spec(self@),
    {
        match self {
            Value::Bool(b) => if *b {
                "true".to_owned()
            } else {
                "false".to_owned()
            },
            Value::Int(i) => string_of(&decimal_of_i64(*i)),
            Value::Str(s) => s.clone(),
        }
    }
}

/// The value stored under `k`: the first entry with that key.
pub open spec fn lookup<V>(entries: Seq<(Seq<char>, V)>, k: Seq<char>) -> Option<V>
    decreases entries.len(),
{
    if entries.len() == 0 {
        None
    } else if entries[0].0 == k {
        Some(entries[0].1)
    } else {
        lookup(entries.drop_first(), k)
    }
}

/// The position of the first entry with key `k`.
pub open spec fn position<V>(entries: Seq<(Seq<char>, V)>, k: Seq<char>) -> Option<int>
    decreases entries.len(),
{
    if entries.len() == 0 {
        None
    } else if entries[0].0 == k {
        Some(0)
    } else {
        match position(entries.drop_first(), k) {
            Some(i) => Some(i + 1),
            None => None,
        }
    }
}

/// Storing `v` under `k`: the entry with that key is replaced, or one is
/// added at the end.
pub open spec fn put<V>(entries: Seq<(Seq<char>, V)>, k: Seq<char>, v: V) -> Seq<(Seq<char>, V)> {
    match position(entries, k) {
        Some(i) => entries.update(i, (k, v)),
        None => entries.push((k, v)),
    }
}

proof fn lemma_position<V>(entries: Seq<(Seq<char>, V)>, k: Seq<char>)
    ensures
        position(entries, k) matches Some(i) ==> 0 <= i < entries.len() && entries[i].0 == k
            && lookup(entries, k) == Some(entries[i].1) && forall|j: int| 0 <= j < i ==> (
        #[trigger] entries[j]).0 != k,
        position(entries, k) is None ==> lookup(entries, k) is None && forall|j: int|
            0 <= j < entries.len() ==> (#[trigger] entries[j]).0 != k,
    decreases entries.len(),
{
    if entries.len() > 0 {
        lemma_position(entries.drop_first(), k);
        if entries[0].0 != k {
            assert forall|j: int| 0 < j < entries.len() implies #[trigger] entries[j] == entries.drop_first()[j - 1] by {}
        }
    }
}

proof fn lemma_lookup_first<V>(entries: Seq<(Seq<char>, V)>, k: Seq<char>, i: int)
    requires
        0 <= i < entries.len(),
        entries[i].0 == k,
        forall|j: int| 0 <= j < i ==> (#[trigger] entries[j]).0 != k,
    ensures
        lookup(entries, k) == Some(entries[i].1),
        position(entries, k) == Some(i),
    decreases i,
{
    if i > 0 {
        assert forall|j: int| 0 <= j < i - 1 implies (#[trigger] entries.drop_first()[j]).0 != k by {
            assert(entries.drop_first()[j] == entries[j + 1]);
        }
        lemma_lookup_first(entries.drop_first(), k, i - 1);
    }
}

/// A read of a key gives back the last value put under it, and putting under
/// one key leaves every other key's value as it was.
pub proof fn lemma_put_then_lookup<V>(entries: Seq<(Seq<char>, V)>, k: Seq<char>, v: V, other: Seq<char>)
    ensures
        lookup(put(entries, k, v), k) == Some(v),
        other != k ==> lookup(put(entries, k, v), other) == lookup(entries, other),
{
    lemma_position(entries, k);
    let p = put(entries, k, v);
    match position(entries, k) {
        Some(i) => {
            assert forall|j: int| 0 <= j < i implies (#[trigger] p[j]).0 != k by {
                assert(p[j] == entries[j]);
            }
            lemma_lookup_first(p, k, i);
        },
        None => {
            assert forall|j: int| 0 <= j < entries.len() implies (#[trigger] p[j]).0 != k by {
                assert(p[j] == entries[j]);
            }
            lemma_lookup_first(p, k, entries.len() as int);
        },
    }
    if other != k {
        lemma_position(entries, other);
        lemma_position(p, other);
        match position(entries, other) {
            Some(i) => {
                assert forall|j: int| 0 <= j < i implies (#[trigger] p[j]).0 != other by {
                    if position(entries, k) == Some(j) {
                    } else {
                        assert(p[j] == entries[j]);
                    }
                }
                assert(p[i] == entries[i]);
                lemma_lookup_first(p, other, i);
            },
            None => {
                if lookup(p, other) is Some {
                    let m = position(p, other)->0;
                    if position(entries, k) != Some(m) && m < entries.len() {
                        assert(p[m] == entries[m]);
                    }
                }
            },
        }
    }
}

fn find_key<V>(entries: &Vec<(String, V)>, k: &Vec<char>) -> (r: Option<usize>)
    ensures
        r matches Some(i) ==> i < entries@.len() && entries@[i as int].0@ == k@ && forall|j: int|
            0 <= j < i ==> (#[trigger] entries@[j]).0@ != k@,
        r is None ==> forall|j: int| 0 <= j < entries@.len() ==> (#[trigger] entries@[j]).0@ != k@,
{
    let mut i: usize = 0;
    while i < entries.len()
        invariant
            i <= entries.len(),
            forall|j: int| 0 <= j < i ==> (#[trigger] entries@[j]).0@ != k@,
        decreases entries.len() - i,
    {
        if eq_str(k, entries[i].0.as_str()) {
            return Some(i);
        }
        i += 1;
    }
    None
}

/// Where `k` is found in `es`, given what a search of the entries found.
proof fn lemma_found<V>(es: Seq<(Seq<char>, V)>, k: Seq<char>, r: Option<usize>)
    requires
        r matches Some(i) ==> i < es.len() && es[i as int].0 == k && forall|j: int| 0 <= j < i ==> (#[trigger] es[j]).0 != k,
        r is None ==> forall|j: int| 0 <= j < es.len() ==> (#[trigger] es[j]).0 != k,
    ensures
        r matches Some(i) ==> position(es, k) == Some(i as int) && lookup(es, k) == Some(es[i as int].1),
        r is None ==> position(es, k) is None && lookup(es, k) is None,
{
    lemma_position(es, k);
    match r {
        Some(i) => {
            lemma_lookup_first(es, k, i as int);
        },
        None => {
            if position(es, k) is Some {
                let m = position(es, k)->0;
                assert(es[m].0 != k);
            }
        },
    }
}

/// Why reading a configuration file failed.
#[derive(Debug)]
pub enum ReadError {
    /// No configuration file was found in any search path.
    NotFound,
    /// A file was found but could not be parsed.
    Parse(String),
}

/// The configuration registry.
#[derive(Debug, Default)]
pub struct Viper {
    defaults: Vec<(String, Value)>,
    config: Vec<(String, Value)>,
    bindings: Vec<(String, String)>,
    environment: Vec<(String, String)>,
    env_prefix: String,
    automatic_env: bool,
    config_paths: Vec<String>,
    config_name: String,
    config_type: String,
    config_file_used: String,
}

/// What the registry holds.
pub struct ViperView {
    pub defaults: Seq<(Seq<char>, ValueView)>,
    pub config: Seq<(Seq<char>, ValueView)>,
    pub bindings: Seq<(Seq<char>, Seq<char>)>,
    pub environment: Seq<(Seq<char>, Seq<char>)>,
    pub env_prefix: Seq<char>,
    pub automatic_env: bool,
    pub config_paths: Seq<Seq<char>>,
    pub config_name: Seq<char>,
    pub config_type: Seq<char>,
    pub config_file_used: Seq<char>,
}

impl View for Viper {
    type V = ViperView;

    closed spec fn view(&self) -> ViperView {
        ViperView {
            defaults: self.defaults@.map_values(|e: (String, Value)| (e.0@, e.1@)),
            config: self.config@.map_values(|e: (String, Value)| (e.0@, e.1@)),
            bindings: self.bindings@.map_values(|e: (String, String)| (e.0@, e.1@)),
            environment: self.environment@.map_values(|e: (String, String)| (e.0@, e.1@)),
            env_prefix: self.env_prefix@,
            automatic_env: self.automatic_env,
            config_paths: self.config_paths@.map_values(|p: String| p@),
            config_name: self.config_name@,
            config_type: self.config_type@,
            config_file_used: self.config_file_used@,
        }
    }
}

/// A flag's value as a configuration value; a uint becomes an integer.
pub open spec fn flag_value_spec(v: FlagValueView) -> ValueView {
    match v {
        FlagValueView::Bool(b) => ValueView::Bool(b),
        FlagValueView::Str(s) => ValueView::Str(s),
        FlagValueView::Uint(u) => ValueView::Int(u as i64),
    }
}

fn flag_value(v: &FlagValue) -> (r: Value)
    ensures
        r@ == flag_value_spec(v@),
{
    match v {
        FlagValue::Bool(b) => Value::Bool(*b),
        FlagValue::Str(s) => Value::Str(s.clone()),
        FlagValue::Uint(u) => Value::Int(*u as i64),
    }
}

/// The environment variable consulted for a lower-cased key.
pub open spec fn env_key_spec(prefix: Seq<char>, key: Seq<char>) -> Seq<char> {
    if prefix.len() == 0 {
        upper_case(key)
    } else {
        upper_case(prefix) + seq!['_'] + upper_case(key)
    }
}

/// The flag bound to `key`, when it is one of `flags`.
pub open spec fn bound_flag(v: ViperView, flags: Seq<FlagView>, key: Seq<char>) -> Option<FlagView> {
    match lookup(v.bindings, key) {
        Some(name) => match find_flag(flags, name) {
            Some(i) => Some(flags[i]),
            None => None,
        },
        None => None,
    }
}

/// Resolution in precedence order: a flag given on the command line, then a
/// non-empty environment variable, then the configuration file, then the
/// default, and last the bound flag's own default.
pub open spec fn get_spec(v: ViperView, flags: Seq<FlagView>, key: Seq<char>) -> Option<ValueView> {
    let k = lower_case(key);
    let bound = bound_flag(v, flags, k);
    let env = if v.automatic_env {
        lookup(v.environment, env_key_spec(v.env_prefix, k))
    } else {
        None
    };
    if bound matches Some(f) && f.changed {
        Some(flag_value_spec(bound->0.value))
    } else if env matches Some(e) && e.len() > 0 {
        Some(ValueView::Str(env->0))
    } else if lookup(v.config, k) is Some {
        lookup(v.config, k)
    } else if lookup(v.defaults, k) is Some {
        lookup(v.defaults, k)
    } else if bound is Some {
        Some(flag_value_spec(bound->0.default))
    } else {
        None
    }
}

/// Where a configuration file is looked for, in order: each search
/// directory with each extension, then without one when a type is set.
pub open spec fn candidates_in(dir: Seq<char>, name: Seq<char>, ty: Seq<char>) -> Seq<Seq<char>> {
    let base = trim_end_char(dir, '/') + seq!['/'] + name;
    seq![
        base + seq!['.'] + "json"@,
        base + seq!['.'] + "toml"@,
        base + seq!['.'] + "yaml"@,
        base + seq!['.'] + "yml"@,
    ] + if ty.len() > 0 {
        seq![base]
    } else {
        Seq::empty()
    }
}

/// The candidates of the first `n` search directories.
pub open spec fn candidates_spec(dirs: Seq<Seq<char>>, n: int, name: Seq<char>, ty: Seq<char>) -> Seq<Seq<char>>
    decreases n,
{
    if n <= 0 {
        Seq::empty()
    } else {
        candidates_spec(dirs, n - 1, name, ty) + candidates_in(dirs[n - 1], name, ty)
    }
}

fn copy_entries(v: &Vec<(String, Value)>) -> (r: Vec<(String, Value)>)
    ensures
        r@.map_values(|e: (String, Value)| (e.0@, e.1@)) == v@.map_values(
            |e: (String, Value)| (e.0@, e.1@),
        ),
{
    let mut out: Vec<(String, Value)> = Vec::new();
    let mut i: usize = 0;
    while i < v.len()
        invariant
            i <= v.len(),
            out@.map_values(|e: (String, Value)| (e.0@, e.1@)) == v@.take(i as int).map_values(
                |e: (String, Value)| (e.0@, e.1@),
            ),
        decreases v.len() - i,
    {
        let e = (v[i].0.clone(), copy_value(&v[i].1));
        let ghost before = out@;
        out.push(e);
        proof {
            assert(out@ == before.push(e));
            assert(out@.map_values(|e: (String, Value)| (e.0@, e.1@)) =~= before.map_values(
                |e: (String, Value)| (e.0@, e.1@),
            ).push((e.0@, e.1@)));
            assert(v@.take(i + 1) =~= v@.take(i as int).push(v@[i as int]));
            assert(v@.take(i + 1).map_values(|e: (String, Value)| (e.0@, e.1@)) =~= v@.take(
                i as int,
            ).map_values(|e: (String, Value)| (e.0@, e.1@)).push((v@[i as int].0@, v@[i as int].1@)));
            assert(out@.map_values(|e: (String, Value)| (e.0@, e.1@)) =~= v@.take(i + 1).map_values(
                |e: (String, Value)| (e.0@, e.1@),
            ));
        }
        i += 1;
    }
    assert(v@.take(v@.len() as int) =~= v@);
    out
}

fn push_candidate(out: &mut Vec<String>, base: &Vec<char>, ext: &str)
    ensures
        final(out)@.map_values(|p: String| p@) == old(out)@.map_values(|p: String| p@).push(
            base@ + seq!['.'] + ext@,
        ),
{
    let mut c: Vec<char> = Vec::new();
    extend_chars(&mut c, base);
    c.push('.');
    extend_str(&mut c, ext);
    let s = string_of(&c);
    out.push(s);
    proof {
        assert(c@ =~= base@ + seq!['.'] + ext@);
        assert(final(out)@.map_values(|p: String| p@) =~= old(out)@.map_values(|p: String| p@).push(
            c@,
        ));
    }
}

impl Viper {
    /// An empty registry.
    pub fn new() -> (r: Viper)
        ensures
            r@.defaults.len() == 0,
            r@.config.len() == 0,
            r@.bindings.len() == 0,
            r@.environment.len() == 0,
            r@.env_prefix.len() == 0,
            !r@.automatic_env,
            r@.config_paths.len() == 0,
            r@.config_name.len() == 0,
            r@.config_type.len() == 0,
            r@.config_file_used.len() == 0,
    {
        let r = Viper {
            defaults: Vec::new(),
            config: Vec::new(),
            bindings: Vec::new(),
            environment: Vec::new(),
            env_prefix: String::new(),
            automatic_env: false,
            config_paths: Vec::new(),
            config_name: String::new(),
            config_type: String::new(),
            config_file_used: String::new(),
        };
        proof {
            assert(r@.defaults =~= Seq::empty());
            assert(r@.config =~= Seq::empty());
            assert(r@.bindings =~= Seq::empty());
            assert(r@.environment =~= Seq::empty());
            assert(r@.config_paths =~= Seq::empty());
        }
        r
    }

    /// Appends a directory to the configuration search path; an empty one is
    /// ignored.
    pub fn add_config_path(&mut self, path: &str)
        ensures
            final(self)@ == (ViperView {
                config_paths: if path@.len() == 0 {
                    old(self)@.config_paths
                } else {
                    old(self)@.config_paths.push(path@)
                },
                ..old(self)@
            }),
    {
        if !path.is_empty() {
            self.config_paths.push(path.to_owned());
            proof {
                assert(self@.config_paths =~= old(self)@.config_paths.push(path@));
            }
        }
        assert(self@ == (ViperView {
            config_paths: self@.config_paths,
            ..old(self)@
        }));
    }

    /// Sets the base name of the configuration file.
    pub fn set_config_name(&mut self, name: &str)
        ensures
            final(self)@ == (ViperView { config_name: name@, ..old(self)@ }),
    {
        self.config_name = name.to_owned();
    }

    /// Sets the expected configuration format.
    pub fn set_config_type(&mut self, ty: &str)
        ensures
            final(self)@ == (ViperView { config_type: ty@, ..old(self)@ }),
    {
        self.config_type = ty.to_owned();
    }

    /// Sets the prefix used for environment lookups.
    pub fn set_env_prefix(&mut self, prefix: &str)
        ensures
            final(self)@ == (ViperView { env_prefix: prefix@, ..old(self)@ }),
    {
        self.env_prefix = prefix.to_owned();
    }

    /// Enables environment lookups for every key.
    pub fn automatic_env(&mut self)
        ensures
            final(self)@ == (ViperView { automatic_env: true, ..old(self)@ }),
    {
        self.automatic_env = true;
    }

    /// Records the value of an environment variable, as the process sees it,
    /// for the lookups that `automatic_env` enables.
    pub fn set_env_var(&mut self, name: &str, value: &str)
        ensures
            final(self)@ == (ViperView {
                environment: put(old(self)@.environment, name@, value@),
                ..old(self)@
            }),
    {
        let k = chars_of(name);
        let ghost es = self.environment@.map_values(|e: (String, String)| (e.0@, e.1@));
        assert(es == old(self)@.environment);
        let found = find_key(&self.environment, &k);
        proof {
            lemma_found(es, k@, found);
        }
        match found {
            Some(i) => {
                let ghost before = self.environment@;
                let t = (name.to_owned(), value.to_owned());
                                self.environment.set(i, t);
                proof {
                    assert(self.environment@ == before.update(i as int, t));
                    assert(self@.environment =~= put(es, name@, value@));
                }
            },
            None => {
                let ghost before = self.environment@;
                let t = (name.to_owned(), value.to_owned());
                self.environment.push(t);
                proof {
                    assert(self.environment@ == before.push(t));
                    assert(self@.environment =~= put(es, name@, value@));
                }
            },
        }
    }

    /// Sets a default for `key`, folded to lower case.
    pub fn set_default(&mut self, key: &str, value: Value)
        ensures
            final(self)@ == (ViperView {
                defaults: put(old(self)@.defaults, lower_case(key@), value@),
                ..old(self)@
            }),
    {
        let k = to_lower(&chars_of(key));
        let ghost es = self.defaults@.map_values(|e: (String, Value)| (e.0@, e.1@));
        let ghost vv = value@;
        let found = find_key(&self.defaults, &k);
        proof {
            lemma_found(es, k@, found);
        }
        match found {
            Some(i) => {
                let ghost before = self.defaults@;
                let t = (string_of(&k), value);
                                self.defaults.set(i, t);
                proof {
                    assert(self.defaults@ == before.update(i as int, t));
                    assert(self@.defaults =~= put(es, k@, vv));
                }
            },
            None => {
                let ghost before = self.defaults@;
                let t = (string_of(&k), value);
                self.defaults.push(t);
                proof {
                    assert(self.defaults@ == before.push(t));
                    assert(self@.defaults =~= put(es, k@, vv));
                }
            },
        }
    }

    /// Stores a value read from the configuration file under `key`, folded
    /// to lower case.
    fn set_config(&mut self, key: &str, value: Value)
        ensures
            final(self)@ == (ViperView {
                config: put(old(self)@.config, lower_case(key@), value@),
                ..old(self)@
            }),
    {
        let k = to_lower(&chars_of(key));
        let ghost es = self.config@.map_values(|e: (String, Value)| (e.0@, e.1@));
        let ghost vv = value@;
        let found = find_key(&self.config, &k);
        proof {
            lemma_found(es, k@, found);
        }
        match found {
            Some(i) => {
                let ghost before = self.config@;
                let t = (string_of(&k), value);
                                self.config.set(i, t);
                proof {
                    assert(self.config@ == before.update(i as int, t));
                    assert(self@.config =~= put(es, k@, vv));
                }
            },
            None => {
                let ghost before = self.config@;
                let t = (string_of(&k), value);
                self.config.push(t);
                proof {
                    assert(self.config@ == before.push(t));
                    assert(self@.config =~= put(es, k@, vv));
                }
            },
        }
    }

    /// Binds a configuration key, folded to lower case, to a flag name.
    pub fn bind_pflag(&mut self, key: &str, flag: &str)
        ensures
            final(self)@ == (ViperView {
                bindings: put(old(self)@.bindings, lower_case(key@), flag@),
                ..old(self)@
            }),
    {
        let k = to_lower(&chars_of(key));
        let ghost es = self.bindings@.map_values(|e: (String, String)| (e.0@, e.1@));
        let found = find_key(&self.bindings, &k);
        proof {
            lemma_found(es, k@, found);
        }
        match found {
            Some(i) => {
                let ghost before = self.bindings@;
                let t = (string_of(&k), flag.to_owned());
                                self.bindings.set(i, t);
                proof {
                    assert(self.bindings@ == before.update(i as int, t));
                    assert(self@.bindings =~= put(es, k@, flag@));
                }
            },
            None => {
                let ghost before = self.bindings@;
                let t = (string_of(&k), flag.to_owned());
                self.bindings.push(t);
                proof {
                    assert(self.bindings@ == before.push(t));
                    assert(self@.bindings =~= put(es, k@, flag@));
                }
            },
        }
    }

    /// The path of the configuration file that was read, or an empty string.
    pub fn config_file_used(&self) -> (r: &str)
        ensures
            r@ == self@.config_file_used,
    {
        self.config_file_used.as_str()
    }

    /// The files a configuration is looked for in, in the order they are
    /// probed: in each search directory `<name>.json`, `.toml`, `.yaml`,
    /// `.yml`, and then `<name>` alone when a type is set.
    pub fn config_candidates(&self) -> (r: Vec<String>)
        ensures
            r@.map_values(|p: String| p@) == candidates_spec(
                self@.config_paths,
                self@.config_paths.len() as int,
                self@.config_name,
                self@.config_type,
            ),
    {
        let ghost dirs = self@.config_paths;
        let mut out: Vec<String> = Vec::new();
        let mut i: usize = 0;
        while i < self.config_paths.len()
            invariant
                i <= self.config_paths.len(),
                dirs == self@.config_paths,
                out@.map_values(|p: String| p@) == candidates_spec(
                    dirs,
                    i as int,
                    self@.config_name,
                    self@.config_type,
                ),
            decreases self.config_paths.len() - i,
        {
            let dir = chars_of(self.config_paths[i].as_str());
            let mut base = trim_end_char_exec(&dir, '/');
            base.push('/');
            extend_str(&mut base, self.config_name.as_str());
            let ghost before = out@.map_values(|p: String| p@);
            assert(base@ == trim_end_char(dir@, '/') + seq!['/'] + self@.config_name);
            push_candidate(&mut out, &base, "json");
            push_candidate(&mut out, &base, "toml");
            push_candidate(&mut out, &base, "yaml");
            push_candidate(&mut out, &base, "yml");
            assert(out@.map_values(|p: String| p@) =~= before + seq![
                base@ + seq!['.'] + "json"@,
                base@ + seq!['.'] + "toml"@,
                base@ + seq!['.'] + "yaml"@,
                base@ + seq!['.'] + "yml"@,
            ]);
            if !self.config_type.as_str().is_empty() {
                let ghost pre = out@;
                let s = string_of(&base);
                out.push(s);
                proof {
                    assert(out@ == pre.push(s));
                    assert(out@.map_values(|p: String| p@) =~= pre.map_values(|p: String| p@).push(base@));
                }
            }
            proof {
                assert(dirs[i as int] == dir@);
                assert(out@.map_values(|p: String| p@) =~= before + candidates_in(
                    dir@,
                    self@.config_name,
                    self@.config_type,
                ));
                assert(out@.map_values(|p: String| p@) =~= candidates_spec(
                    dirs,
                    i + 1,
                    self@.config_name,
                    self@.config_type,
                ));
            }
            i += 1;
        }
        out
    }

    /// Loads the entries of the configuration file at `file`: each value is
    /// stored under its key folded to lower case, later entries winning.
    pub fn load_config(&mut self, file: &str, entries: Vec<(String, Value)>)
        ensures
            final(self)@ == (ViperView {
                config: load_spec(old(self)@.config, entries@.map_values(|e: (String, Value)| (e.0@, e.1@)), entries@.len() as int),
                config_file_used: file@,
                ..old(self)@
            }),
    {
        let ghost ev = entries@.map_values(|e: (String, Value)| (e.0@, e.1@));
        let mut i: usize = 0;
        while i < entries.len()
            invariant
                i <= entries.len(),
                ev == entries@.map_values(|e: (String, Value)| (e.0@, e.1@)),
                self@ == (ViperView { config: load_spec(old(self)@.config, ev, i as int), ..old(self)@ }),
            decreases entries.len() - i,
        {
            let v = copy_value(&entries[i].1);
            self.set_config(entries[i].0.as_str(), v);
            i += 1;
        }
        self.config_file_used = file.to_owned();
    }

    /// Resolves `key` in precedence order: a flag given on the command line,
    /// a non-empty environment variable (when enabled), the configuration
    /// file, the default, and last the bound flag's own default.
    pub fn get(&self, key: &str, flags: &FlagSet) -> (r: Option<Value>)
        ensures
            match get_spec(self@, flags@, key@) {
                Some(v) => r matches Some(w) && w@ == v,
                None => r is None,
            },
    {
        let k = to_lower(&chars_of(key));
        let ghost v = self@;
        let bi = find_key(&self.bindings, &k);
        proof {
            lemma_found(v.bindings, k@, bi);
        }
        let bound: Option<&crate::deps::cobra::Flag> = match bi {
            Some(i) => flags.lookup(self.bindings[i].1.as_str()),
            None => None,
        };
        assert(match bound {
            Some(f) => bound_flag(v, flags@, k@) == Some(f@),
            None => bound_flag(v, flags@, k@) is None,
        });
        match bound {
            Some(f) => {
                if f.changed {
                    return Some(flag_value(&f.value));
                }
            },
            None => {},
        }
        if self.automatic_env {
            let up = to_upper(&k);
            let ek = if self.env_prefix.as_str().is_empty() {
                up
            } else {
                let mut e = to_upper(&chars_of(self.env_prefix.as_str()));
                e.push('_');
                extend_chars(&mut e, &up);
                e
            };
            assert(ek@ == env_key_spec(v.env_prefix, k@));
            let ei = find_key(&self.environment, &ek);
            proof {
                lemma_found(v.environment, ek@, ei);
            }
            match ei {
                Some(i) => {
                    if !self.environment[i].1.as_str().is_empty() {
                        return Some(Value::Str(self.environment[i].1.clone()));
                    }
                },
                None => {},
            }
        }
        let ci = find_key(&self.config, &k);
        proof {
            lemma_found(v.config, k@, ci);
        }
        match ci {
            Some(i) => {
                return Some(copy_value(&self.config[i].1));
            },
            None => {},
        }
        let di = find_key(&self.defaults, &k);
        proof {
            lemma_found(v.defaults, k@, di);
        }
        match di {
            Some(i) => {
                return Some(copy_value(&self.defaults[i].1));
            },
            None => {},
        }
        match bound {
            Some(f) => Some(flag_value(&f.default)),
            None => None,
        }
    }

    /// `key` as a boolean; `false` when unset.
    pub fn get_bool(&self, key: &str, flags: &FlagSet) -> (r: bool)
        ensures
            r == match get_spec(self@, flags@, key@) {
                Some(v) => as_bool_spec(v),
                None => false,
            },
    {
        match self.get(key, flags) {
            Some(v) => v.as_bool(),
            None => false,
        }
    }

    /// `key` as an unsigned integer; zero when unset.
    pub fn get_uint(&self, key: &str, flags: &FlagSet) -> (r: u64)
        ensures
            r == match get_spec(self@, flags@, key@) {
                Some(v) => as_uint_spec(v),
                None => 0,
            },
    {
        match self.get(key, flags) {
            Some(v) => v.as_uint(),
            None => 0,
        }
    }

    /// `key` as a string; empty when unset.
    pub fn get_string(&self, key: &str, flags: &FlagSet) -> (r: String)
        ensures
            r@ == match get_spec(self@, flags@, key@) {
                Some(v) => as_string_spec(v),
                None => Seq::empty(),
            },
    {
        match self.get(key, flags) {
            Some(v) => v.as_string(),
            None => String::new(),
        }
    }
}

/// The configuration after storing the first `n` file entries.
pub open spec fn load_spec(config: Seq<(Seq<char>, ValueView)>, entries: Seq<(Seq<char>, ValueView)>, n: int) -> Seq<(Seq<char>, ValueView)>
    decreases n,
{
    if n <= 0 {
        config
    } else {
        put(load_spec(config, entries, n - 1), lower_case(entries[n - 1].0), entries[n - 1].1)
    }
}

} // verus!
