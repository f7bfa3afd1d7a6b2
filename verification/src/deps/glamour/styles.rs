//! The names of the built-in stylesheets.
use vstd::prelude::*;
use crate::deps::glamour::style::StyleConfig;
use crate::text::{chars_of, eq_str};

verus! {

/// Style name: plain ASCII, no colour.
pub const ASCII_STYLE: &'static str = "ascii";
/// Style name: the default dark theme.
pub const DARK_STYLE: &'static str = "dark";
/// Style name: Dracula.
pub const DRACULA_STYLE: &'static str = "dracula";
/// Style name: Tokyo Night.
pub const TOKYO_NIGHT_STYLE: &'static str = "tokyo-night";
/// Style name: the default light theme.
pub const LIGHT_STYLE: &'static str = "light";
/// Style name: no terminal styling at all.
pub const NOTTY_STYLE: &'static str = "notty";
/// Style name: pink.
pub const PINK_STYLE: &'static str = "pink";

/// The names of every built-in style, in registry order.
pub open spec fn default_style_names() -> Seq<Seq<char>> {
    seq!["ascii"@, "dark"@, "light"@, "notty"@, "pink"@, "dracula"@, "tokyo-night"@]
}

/// Whether `name` is one of the built-in styles.
pub fn is_default_style(name: &str) -> (r: bool)
    ensures
        r == default_style_names().contains(name@),
{
    let v = chars_of(name);
    let r = eq_str(&v, "ascii") || eq_str(&v, "dark") || eq_str(&v, "light") || eq_str(&v, "notty")
        || eq_str(&v, "pink") || eq_str(&v, "dracula") || eq_str(&v, "tokyo-night");
    proof {
        let names = default_style_names();
        if names.contains(name@) {
            let i = choose|i: int| 0 <= i < names.len() && names[i] == name@;
            assert(i == 0 || i == 1 || i == 2 || i == 3 || i == 4 || i == 5 || i == 6);
        }
        if r {
            if v@ == "ascii"@ {
                assert(names[0] == name@);
            } else if v@ == "dark"@ {
                assert(names[1] == name@);
            } else if v@ == "light"@ {
                assert(names[2] == name@);
            } else if v@ == "notty"@ {
                assert(names[3] == name@);
            } else if v@ == "pink"@ {
                assert(names[4] == name@);
            } else if v@ == "dracula"@ {
                assert(names[5] == name@);
            } else {
                assert(names[6] == name@);
            }
        }
    }
    r
}

/// How a renderer obtains its stylesheet.
#[derive(Debug, Clone)]
pub enum StyleSource {
    /// One of the built-in styles, by name.
    Standard(String),
    /// A path that is first tried as a built-in name, then as a JSON file.
    Path(String),
    /// A JSON stylesheet file.
    JsonFile(String),
    /// The built-in style of this name with its code-block margin removed,
    /// for rendering a file of code.
    Code(String),
    /// An already-built stylesheet.
    Config(Box<StyleConfig>),
}

/// The built-in style a code file renders with, by the configured name.
pub open spec fn code_style_name(style: Seq<char>, dark_background: bool) -> Option<Seq<char>> {
    if style == "auto"@ {
        Some(if dark_background { "dark"@ } else { "light"@ })
    } else if style == "dark"@ || style == "light"@ || style == "pink"@ || style == "notty"@ || style
        == "dracula"@ {
        Some(style)
    } else if style == "tokyo-night"@ {
        Some("dracula"@)
    } else {
        None
    }
}

/// Resolves the configured `style` into a stylesheet source for a markdown
/// document or, with `is_code`, a file of code. `auto` is the dark style for
/// prose and follows the terminal's background for code; Tokyo Night code
/// uses the Dracula sheet.
pub fn glamour_style(style: &str, is_code: bool, dark_background: bool) -> (r: StyleSource)
    ensures
        !is_code && style@ == "auto"@ ==> (r matches StyleSource::Standard(n) && n@ == "dark"@),
        !is_code && style@ != "auto"@ ==> (r matches StyleSource::Path(p) && p@ == style@),
        is_code ==> match code_style_name(style@, dark_background) {
            Some(n) => r matches StyleSource::Code(m) && m@ == n,
            None => r matches StyleSource::JsonFile(p) && p@ == style@,
        },
{
    proof {
        reveal_strlit("auto");
        reveal_strlit("dark");
        reveal_strlit("light");
        reveal_strlit("pink");
        reveal_strlit("notty");
        reveal_strlit("dracula");
        reveal_strlit("tokyo-night");
    }
    let v = chars_of(style);
    if !is_code {
        if eq_str(&v, "auto") {
            return StyleSource::Standard(DARK_STYLE.to_string());
        }
        return StyleSource::Path(style.to_string());
    }
    if eq_str(&v, "auto") {
        if dark_background {
            StyleSource::Code(DARK_STYLE.to_string())
        } else {
            StyleSource::Code(LIGHT_STYLE.to_string())
        }
    } else if eq_str(&v, "dark") || eq_str(&v, "light") || eq_str(&v, "pink") || eq_str(&v, "notty") || eq_str(
        &v,
        "dracula",
    ) {
        StyleSource::Code(style.to_string())
    } else if eq_str(&v, "tokyo-night") {
        StyleSource::Code(DRACULA_STYLE.to_string())
    } else {
        StyleSource::JsonFile(style.to_string())
    }
}

/// `config` prepared for a file of code: the code block keeps no margin, so
/// the fenced file is not indented twice.
pub fn for_code(config: StyleConfig) -> (r: StyleConfig)
    ensures
        r == (StyleConfig { code_block: crate::deps::glamour::style::StyleCodeBlock {
            block: crate::deps::glamour::style::StyleBlock { margin: Some(0u32), ..config.code_block.block },
            ..config.code_block
        }, ..config }),
{
    let mut c = config;
    c.code_block.block.margin = Some(0);
    c
}

} // verus!
