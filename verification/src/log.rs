//! Log records: the level, the message and `key=value` fields, with a value
//! quoted unless it is a bare word, and the log file's place in the cache.
use vstd::prelude::*;
use crate::text::{
    chars_of, char_is_alphanumeric, debug_quoted, extend_chars, extend_str, is_alnum_unicode,
    quote_debug, string_of,
};

verus! {

broadcast use vstd::string::group_string_axioms;

/// Whether a character may stand in a bare-word value.
pub open spec fn is_word_char(c: char) -> bool {
    is_alnum_unicode(c) || c == '-' || c == '_' || c == '.' || c == '/' || c == '@' || c == '+'
        || c == ':'
}

/// A value as it is written in a record: bare when it is a non-empty word,
/// quoted otherwise.
pub open spec fn quote_spec(v: Seq<char>) -> Seq<char> {
    if v.len() > 0 && forall|i: int| 0 <= i < v.len() ==> is_word_char(#[trigger] v[i]) {
        v
    } else {
        debug_quoted(v)
    }
}

/// The fields of a record, each as ` key=value`.
pub open spec fn fields_text(fields: Seq<(Seq<char>, Seq<char>)>) -> Seq<char>
    decreases fields.len(),
{
    if fields.len() == 0 {
        Seq::empty()
    } else {
        fields_text(fields.drop_last()) + seq![' '] + fields.last().0 + seq!['='] + quote_spec(
            fields.last().1,
        )
    }
}

/// One record: the level, the message, the fields, and a newline.
pub open spec fn record_spec(level: Seq<char>, message: Seq<char>, fields: Seq<(Seq<char>, Seq<char>)>) -> Seq<char> {
    level + seq![' '] + message + fields_text(fields) + seq!['\n']
}

fn quote(v: &Vec<char>) -> (r: Vec<char>)
    ensures
        r@ == quote_spec(v@),
{
    let mut plain = v.len() > 0;
    let mut i: usize = 0;
    while i < v.len()
        invariant
            i <= v.len(),
            plain == (v@.len() > 0 && forall|j: int| 0 <= j < i ==> is_word_char(#[trigger] v@[j])),
        decreases v.len() - i,
    {
        let c = v[i];
        let ok = char_is_alphanumeric(c) || c == '-' || c == '_' || c == '.' || c == '/' || c == '@'
            || c == '+' || c == ':';
        if !ok {
            plain = false;
        }
        i += 1;
    }
    if plain {
        let mut out: Vec<char> = Vec::new();
        extend_chars(&mut out, v);
        out
    } else {
        quote_debug(v)
    }
}

/// Formats one log record.
pub fn record(level: &str, message: &str, fields: &[(&str, String)]) -> (r: String)
    ensures
        r@ == record_spec(level@, message@, fields@.map_values(|f: (&str, String)| (f.0@, f.1@))),
{
    let ghost fv = fields@.map_values(|f: (&str, String)| (f.0@, f.1@));
    let mut line = chars_of(level);
    line.push(' ');
    extend_str(&mut line, message);
    let ghost head = line@;
    let mut i: usize = 0;
    while i < fields.len()
        invariant
            i <= fields.len(),
            fv == fields@.map_values(|f: (&str, String)| (f.0@, f.1@)),
            line@ == head + fields_text(fv.take(i as int)),
        decreases fields.len() - i,
    {
        line.push(' ');
        extend_str(&mut line, fields[i].0);
        line.push('=');
        let q = quote(&chars_of(fields[i].1.as_str()));
        extend_chars(&mut line, &q);
        proof {
            assert(fv.take(i + 1).drop_last() =~= fv.take(i as int));
            assert(fv[i as int] == (fields@[i as int].0@, fields@[i as int].1@));
        }
        i += 1;
    }
    assert(fv.take(fv.len() as int) =~= fv);
    line.push('\n');
    string_of(&line)
}

/// The log file inside the cache directory, or why there is none.
pub fn log_file_path_in(cache_dir: Result<String, String>) -> (r: Result<String, String>)
    ensures
        match cache_dir {
            Ok(d) => r matches Ok(p) && p@ == d@ + "/glow.log"@,
            Err(e) => r matches Err(m) && m@ == "unable to get cache dir: "@ + e@,
        },
{
    match cache_dir {
        Ok(d) => {
            let mut v = chars_of(d.as_str());
            extend_str(&mut v, "/glow.log");
            Ok(string_of(&v))
        },
        Err(e) => {
            let mut v = chars_of("unable to get cache dir: ");
            extend_str(&mut v, e.as_str());
            Err(string_of(&v))
        },
    }
}

} // verus!
