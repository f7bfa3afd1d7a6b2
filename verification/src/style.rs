//! The two styles of glow's own text: the keyword green and the indented
//! paragraph.
use vstd::prelude::*;
use crate::deps::lipgloss::{render_spec, Color, Style, StyleModel};

verus! {

/// The style with nothing set.
pub open spec fn plain() -> StyleModel {
    StyleModel {
        value: Seq::empty(),
        fg: None,
        bg: None,
        bold: false,
        italic: false,
        underline: false,
        strikethrough: false,
        reverse: false,
        width: 0,
        height: 0,
        padding_left: 0,
        padding_right: 0,
        margin_right: 0,
        max_width: 0,
        has_props: false,
    }
}

/// `s` in glow's keyword green.
pub open spec fn keyword_spec(s: Seq<char>) -> Seq<char> {
    render_spec(StyleModel { fg: Some(Color::Rgb(4, 181, 117)), has_props: true, ..plain() }, s)
}

/// `s` as a 78-column paragraph with a two-space left pad.
pub open spec fn paragraph_spec(s: Seq<char>) -> Seq<char> {
    render_spec(StyleModel { width: 78, padding_left: 2, has_props: true, ..plain() }, s)
}

/// Renders `s` in glow's keyword green, `#04B575`.
pub fn keyword(s: &str) -> (r: String)
    ensures
        r@ == render_spec(StyleModel { fg: Some(Color::Rgb(4, 181, 117)), has_props: true, ..plain() }, s@),
{
    Style::new().foreground(Color::Rgb(4, 181, 117)).render(s)
}

/// Renders `s` as a 78-column paragraph with a two-space left pad.
pub fn paragraph(s: &str) -> (r: String)
    ensures
        r@ == render_spec(StyleModel { width: 78, padding_left: 2, has_props: true, ..plain() }, s@),
{
    Style::new().width(78).padding(0, 0, 0, 2).render(s)
}

} // verus!
