//! The interface's configuration, assembled from the environment and the
//! resolved command-line options.
use vstd::prelude::*;
use crate::text::{chars_of, eq_str, extend_str, string_of};

verus! {

broadcast use vstd::string::group_string_axioms;

/// Configuration for the interface.
#[derive(Debug, Clone)]
pub struct Config {
    /// List system files and directories.
    pub show_all_files: bool,
    /// Number every line in the pager.
    pub show_line_numbers: bool,
    /// `$GOPATH`, skipped while walking for documents.
    pub gopath: String,
    /// `$HOME`, used to skip `~/Library` on macOS.
    pub home_dir: String,
    /// Upper bound on the render width.
    pub glamour_max_width: u64,
    /// `$GLAMOUR_STYLE`, when the environment names one.
    pub glamour_style: String,
    /// Track the mouse wheel.
    pub enable_mouse: bool,
    /// Keep soft line breaks when rendering.
    pub preserve_new_lines: bool,
    /// Working directory or file path.
    pub path: String,
    /// Render through Glamour at all; the environment can turn it off while
    /// debugging the interface.
    pub glamour_enabled: bool,
}

impl Default for Config {
    fn default() -> (r: Config)
        ensures
            !r.show_all_files,
            !r.show_line_numbers,
            r.gopath@.len() == 0,
            r.home_dir@.len() == 0,
            r.glamour_max_width == 0,
            r.glamour_style@.len() == 0,
            !r.enable_mouse,
            !r.preserve_new_lines,
            r.path@.len() == 0,
            r.glamour_enabled,
    {
        Config {
            show_all_files: false,
            show_line_numbers: false,
            gopath: String::new(),
            home_dir: String::new(),
            glamour_max_width: 0,
            glamour_style: String::new(),
            enable_mouse: false,
            preserve_new_lines: false,
            path: String::new(),
            glamour_enabled: true,
        }
    }
}

/// The spellings of true a boolean variable accepts.
pub open spec fn is_true_word(s: Seq<char>) -> bool {
    s == "1"@ || s == "t"@ || s == "T"@ || s == "true"@ || s == "TRUE"@ || s == "True"@
}

/// The spellings of false a boolean variable accepts.
pub open spec fn is_false_word(s: Seq<char>) -> bool {
    s == "0"@ || s == "f"@ || s == "F"@ || s == "false"@ || s == "FALSE"@ || s == "False"@
}

/// The error a malformed boolean variable reports.
pub open spec fn bool_error(field: Seq<char>, raw: Seq<char>) -> Seq<char> {
    "env: parse error on field \""@ + field + "\" of type \"bool\": strconv.ParseBool: parsing \""@
        + raw + "\": invalid syntax"@
}

/// A boolean environment variable's value: the default when it is unset or
/// empty, the value it spells, or the error naming the field.
pub open spec fn parse_bool_spec(raw: Option<Seq<char>>, field: Seq<char>, default: bool) -> Result<bool, Seq<char>> {
    match raw {
        None => Ok(default),
        Some(v) => if v.len() == 0 {
            Ok(default)
        } else if is_true_word(v) {
            Ok(true)
        } else if is_false_word(v) {
            Ok(false)
        } else {
            Err(bool_error(field, v))
        },
    }
}

/// Parses a boolean environment variable's value, given whether and how it
/// is set.
pub fn parse_bool_env(raw: Option<&str>, field: &str, default: bool) -> (r: Result<bool, String>)
    ensures
        match (r, parse_bool_spec(
            match raw {
                Some(v) => Some(v@),
                None => None,
            },
            field@,
            default,
        )) {
            (Ok(a), Ok(b)) => a == b,
            (Err(a), Err(b)) => a@ == b,
            _ => false,
        },
{
    let v = match raw {
        None => {
            return Ok(default);
        },
        Some(v) => chars_of(v),
    };
    if v.len() == 0 {
        return Ok(default);
    }
    if eq_str(&v, "1") || eq_str(&v, "t") || eq_str(&v, "T") || eq_str(&v, "true") || eq_str(&v, "TRUE")
        || eq_str(&v, "True") {
        return Ok(true);
    }
    if eq_str(&v, "0") || eq_str(&v, "f") || eq_str(&v, "F") || eq_str(&v, "false") || eq_str(&v, "FALSE")
        || eq_str(&v, "False") {
        return Ok(false);
    }
    let mut msg: Vec<char> = Vec::new();
    extend_str(&mut msg, "env: parse error on field \"");
    extend_str(&mut msg, field);
    extend_str(&mut msg, "\" of type \"bool\": strconv.ParseBool: parsing \"");
    crate::text::extend_chars(&mut msg, &v);
    extend_str(&mut msg, "\": invalid syntax");
    Err(string_of(&msg))
}

impl Config {
    /// The configuration the environment gives: `GOPATH`, `HOME`,
    /// `GLAMOUR_STYLE` and `GLOW_ENABLE_GLAMOUR` as they are set, or unset;
    /// everything else at its default.
    pub fn from_vars(
        gopath: Option<&str>,
        home: Option<&str>,
        glamour_style: Option<&str>,
        enable_glamour: Option<&str>,
    ) -> (r: Result<Config, String>)
        ensures
            match parse_bool_spec(
                match enable_glamour {
                    Some(v) => Some(v@),
                    None => None,
                },
                "GlamourEnabled"@,
                true,
            ) {
                Ok(b) => r matches Ok(c) && c.glamour_enabled == b && c.gopath@ == (match gopath {
                    Some(v) => v@,
                    None => Seq::empty(),
                }) && c.home_dir@ == (match home {
                    Some(v) => v@,
                    None => Seq::empty(),
                }) && c.glamour_style@ == (match glamour_style {
                    Some(v) => v@,
                    None => Seq::empty(),
                }) && !c.show_all_files && !c.show_line_numbers && c.glamour_max_width == 0 && !c.enable_mouse
                    && !c.preserve_new_lines && c.path@.len() == 0,
                Err(e) => r matches Err(m) && m@ == e,
            },
    {
        let enabled = match parse_bool_env(enable_glamour, "GlamourEnabled", true) {
            Ok(b) => b,
            Err(e) => {
                return Err(e);
            },
        };
        let text = |o: Option<&str>| -> (s: String)
            ensures
                s@ == (match o {
                    Some(v) => v@,
                    None => Seq::empty(),
                }),
            {
                match o {
                    Some(v) => v.to_owned(),
                    None => String::new(),
                }
            };
        Ok(Config {
            gopath: text(gopath),
            home_dir: text(home),
            glamour_style: text(glamour_style),
            glamour_enabled: enabled,
            ..Config::default()
        })
    }
}

} // verus!
