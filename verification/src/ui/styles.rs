//! Every style the interface uses, resolved for the terminal's background.
use vstd::prelude::*;
use crate::deps::lipgloss::{geometry_ok, parse_color, Color, LightDark, Style, StyleModel};
use crate::style::plain;

verus! {

broadcast use vstd::string::group_string_axioms;

/// The styles the interface draws with, resolved from light and dark
/// variants by the terminal's background; until it is known, the dark ones.
#[derive(Debug, Clone)]
pub struct Styles {
    /// The terminal background the styles were resolved for.
    pub light_dark: LightDark,
    /// The fuchsia used for selections and the logo background.
    pub fuchsia: Color,
    /// Dimmed body text.
    pub dim_normal_fg: Style,
    /// Bright grey.
    pub bright_gray_fg: Style,
    /// Dimmed bright grey.
    pub dim_bright_gray_fg: Style,
    /// Grey.
    pub gray_fg: Style,
    /// Mid grey.
    pub mid_gray_fg: Style,
    /// Dark grey.
    pub dark_gray_fg: Style,
    /// Green.
    pub green_fg: Style,
    /// Semi-dimmed green.
    pub semi_dim_green_fg: Style,
    /// Dimmed green.
    pub dim_green_fg: Style,
    /// Fuchsia.
    pub fuchsia_fg: Style,
    /// Dimmed fuchsia.
    pub dim_fuchsia_fg: Style,
    /// Dull fuchsia.
    pub dull_fuchsia_fg: Style,
    /// Dimmed dull fuchsia.
    pub dim_dull_fuchsia_fg: Style,
    /// Red.
    pub red_fg: Style,
    /// An unselected section tab.
    pub tab_style: Style,
    /// The selected section tab.
    pub selected_tab_style: Style,
    /// The `ERROR` badge.
    pub error_title_style: Style,
    /// Subtle text.
    pub subtle_style: Style,
    /// The pagination indicator.
    pub pagination_style: Style,
    /// The scroll position in the status bar.
    pub status_bar_scroll_pos_style: Style,
    /// The note in the status bar.
    pub status_bar_note_style: Style,
    /// The help hint in the status bar.
    pub status_bar_help_style: Style,
    /// A status message in the status bar.
    pub status_bar_message_style: Style,
    /// The scroll position while a status message shows.
    pub status_bar_message_scroll_pos_style: Style,
    /// The help hint while a status message shows.
    pub status_bar_message_help_style: Style,
    /// The expanded help view.
    pub help_view_style: Style,
    /// Line numbers in the pager.
    pub line_number_style: Style,
    /// The ` • ` divider.
    pub divider_dot: Style,
    /// The ` │ ` divider.
    pub divider_bar: Style,
    /// The ` Glow ` logo.
    pub logo_style: Style,
    /// The loading spinner.
    pub stash_spinner_style: Style,
    /// The filter input's prompt.
    pub stash_input_prompt_style: Style,
}

/// What a set of styles is.
pub struct StylesView {
    pub is_dark: bool,
    pub fuchsia: Color,
    pub dim_normal_fg: StyleModel,
    pub bright_gray_fg: StyleModel,
    pub dim_bright_gray_fg: StyleModel,
    pub gray_fg: StyleModel,
    pub mid_gray_fg: StyleModel,
    pub dark_gray_fg: StyleModel,
    pub green_fg: StyleModel,
    pub semi_dim_green_fg: StyleModel,
    pub dim_green_fg: StyleModel,
    pub fuchsia_fg: StyleModel,
    pub dim_fuchsia_fg: StyleModel,
    pub dull_fuchsia_fg: StyleModel,
    pub dim_dull_fuchsia_fg: StyleModel,
    pub red_fg: StyleModel,
    pub tab_style: StyleModel,
    pub selected_tab_style: StyleModel,
    pub error_title_style: StyleModel,
    pub subtle_style: StyleModel,
    pub pagination_style: StyleModel,
    pub status_bar_scroll_pos_style: StyleModel,
    pub status_bar_note_style: StyleModel,
    pub status_bar_help_style: StyleModel,
    pub status_bar_message_style: StyleModel,
    pub status_bar_message_scroll_pos_style: StyleModel,
    pub status_bar_message_help_style: StyleModel,
    pub help_view_style: StyleModel,
    pub line_number_style: StyleModel,
    pub divider_dot: StyleModel,
    pub divider_bar: StyleModel,
    pub logo_style: StyleModel,
    pub stash_spinner_style: StyleModel,
    pub stash_input_prompt_style: StyleModel,
}

/// The dark variant on a dark background, else the light one.
pub open spec fn pick(is_dark: bool, light: Color, dark: Color) -> Color {
    if is_dark {
        dark
    } else {
        light
    }
}

/// The styles for a dark (`d`) or light background.
pub open spec fn styles_spec(d: bool) -> StylesView {
    StylesView {
        is_dark: d,
        fuchsia: pick(d, Color::Rgb(238, 111, 248), Color::Rgb(238, 111, 248)),
        dim_normal_fg: StyleModel { fg: Some(pick(d, Color::Rgb(164, 159, 165), Color::Rgb(119, 119, 119))), has_props: true, ..plain() },
        bright_gray_fg: StyleModel { fg: Some(pick(d, Color::Rgb(132, 122, 133), Color::Rgb(151, 151, 151))), has_props: true, ..plain() },
        dim_bright_gray_fg: StyleModel { fg: Some(pick(d, Color::Rgb(194, 184, 194), Color::Rgb(77, 77, 77))), has_props: true, ..plain() },
        gray_fg: StyleModel { fg: Some(pick(d, Color::Rgb(144, 144, 144), Color::Rgb(98, 98, 98))), has_props: true, ..plain() },
        mid_gray_fg: StyleModel { fg: Some(pick(d, Color::Rgb(178, 178, 178), Color::Rgb(74, 74, 74))), has_props: true, ..plain() },
        dark_gray_fg: StyleModel { fg: Some(pick(d, Color::Rgb(221, 218, 218), Color::Rgb(60, 60, 60))), has_props: true, ..plain() },
        green_fg: StyleModel { fg: Some(Color::Rgb(4, 181, 117)), has_props: true, ..plain() },
        semi_dim_green_fg: StyleModel { fg: Some(pick(d, Color::Rgb(53, 215, 156), Color::Rgb(3, 107, 70))), has_props: true, ..plain() },
        dim_green_fg: StyleModel { fg: Some(pick(d, Color::Rgb(114, 210, 176), Color::Rgb(11, 81, 55))), has_props: true, ..plain() },
        fuchsia_fg: StyleModel { fg: Some(pick(d, Color::Rgb(238, 111, 248), Color::Rgb(238, 111, 248))), has_props: true, ..plain() },
        dim_fuchsia_fg: StyleModel { fg: Some(pick(d, Color::Rgb(241, 168, 255), Color::Rgb(153, 81, 158))), has_props: true, ..plain() },
        dull_fuchsia_fg: StyleModel { fg: Some(pick(d, Color::Rgb(247, 147, 255), Color::Rgb(173, 88, 180))), has_props: true, ..plain() },
        dim_dull_fuchsia_fg: StyleModel { fg: Some(pick(d, Color::Rgb(246, 201, 255), Color::Rgb(123, 67, 128))), has_props: true, ..plain() },
        red_fg: StyleModel { fg: Some(pick(d, Color::Rgb(255, 70, 114), Color::Rgb(237, 86, 122))), has_props: true, ..plain() },
        tab_style: StyleModel { fg: Some(pick(d, Color::Rgb(144, 144, 144), Color::Rgb(98, 98, 98))), has_props: true, ..plain() },
        selected_tab_style: StyleModel { fg: Some(pick(d, Color::Rgb(51, 51, 51), Color::Rgb(151, 151, 151))), has_props: true, ..plain() },
        error_title_style: StyleModel { fg: Some(pick(d, Color::Rgb(255, 253, 245), Color::Rgb(255, 253, 245))), bg: Some(pick(d, Color::Rgb(255, 70, 114), Color::Rgb(237, 86, 122))), padding_left: 1, padding_right: 1, has_props: true, ..plain() },
        subtle_style: StyleModel { fg: Some(pick(d, Color::Rgb(155, 155, 155), Color::Rgb(92, 92, 92))), has_props: true, ..plain() },
        pagination_style: StyleModel { fg: Some(pick(d, Color::Rgb(155, 155, 155), Color::Rgb(92, 92, 92))), has_props: true, ..plain() },
        status_bar_scroll_pos_style: StyleModel { fg: Some(pick(d, Color::Rgb(148, 148, 148), Color::Rgb(90, 90, 90))), bg: Some(pick(d, Color::Rgb(230, 230, 230), Color::Rgb(36, 36, 36))), has_props: true, ..plain() },
        status_bar_note_style: StyleModel { fg: Some(pick(d, Color::Rgb(101, 101, 101), Color::Rgb(125, 125, 125))), bg: Some(pick(d, Color::Rgb(230, 230, 230), Color::Rgb(36, 36, 36))), has_props: true, ..plain() },
        status_bar_help_style: StyleModel { fg: Some(pick(d, Color::Rgb(101, 101, 101), Color::Rgb(125, 125, 125))), bg: Some(pick(d, Color::Rgb(220, 220, 220), Color::Rgb(50, 50, 50))), has_props: true, ..plain() },
        status_bar_message_style: StyleModel { fg: Some(pick(d, Color::Rgb(137, 240, 203), Color::Rgb(137, 240, 203))), bg: Some(pick(d, Color::Rgb(28, 135, 96), Color::Rgb(28, 135, 96))), has_props: true, ..plain() },
        status_bar_message_scroll_pos_style: StyleModel { fg: Some(pick(d, Color::Rgb(137, 240, 203), Color::Rgb(137, 240, 203))), bg: Some(pick(d, Color::Rgb(28, 135, 96), Color::Rgb(28, 135, 96))), has_props: true, ..plain() },
        status_bar_message_help_style: StyleModel { fg: Some(Color::Rgb(182, 255, 228)), bg: Some(Color::Rgb(4, 181, 117)), has_props: true, ..plain() },
        help_view_style: StyleModel { fg: Some(pick(d, Color::Rgb(101, 101, 101), Color::Rgb(125, 125, 125))), bg: Some(pick(d, Color::Rgb(242, 242, 242), Color::Rgb(27, 27, 27))), has_props: true, ..plain() },
        line_number_style: StyleModel { fg: Some(pick(d, Color::Rgb(101, 101, 101), Color::Rgb(125, 125, 125))), has_props: true, ..plain() },
        divider_dot: StyleModel { fg: Some(pick(d, Color::Rgb(221, 218, 218), Color::Rgb(60, 60, 60))), value: " • "@, has_props: true, ..plain() },
        divider_bar: StyleModel { fg: Some(pick(d, Color::Rgb(221, 218, 218), Color::Rgb(60, 60, 60))), value: " │ "@, has_props: true, ..plain() },
        logo_style: StyleModel { fg: Some(Color::Rgb(236, 253, 101)), bg: Some(pick(d, Color::Rgb(238, 111, 248), Color::Rgb(238, 111, 248))), bold: true, has_props: true, ..plain() },
        stash_spinner_style: StyleModel { fg: Some(pick(d, Color::Rgb(144, 144, 144), Color::Rgb(98, 98, 98))), has_props: true, ..plain() },
        stash_input_prompt_style: StyleModel { fg: Some(pick(d, Color::Rgb(4, 181, 117), Color::Rgb(236, 253, 101))), margin_right: 1, has_props: true, ..plain() },
    }
}

/// Whether every style's geometry fits its arithmetic.
pub open spec fn styles_ok(v: StylesView) -> bool {
    &&& geometry_ok(v.dim_normal_fg)
    &&& geometry_ok(v.bright_gray_fg)
    &&& geometry_ok(v.dim_bright_gray_fg)
    &&& geometry_ok(v.gray_fg)
    &&& geometry_ok(v.mid_gray_fg)
    &&& geometry_ok(v.dark_gray_fg)
    &&& geometry_ok(v.green_fg)
    &&& geometry_ok(v.semi_dim_green_fg)
    &&& geometry_ok(v.dim_green_fg)
    &&& geometry_ok(v.fuchsia_fg)
    &&& geometry_ok(v.dim_fuchsia_fg)
    &&& geometry_ok(v.dull_fuchsia_fg)
    &&& geometry_ok(v.dim_dull_fuchsia_fg)
    &&& geometry_ok(v.red_fg)
    &&& geometry_ok(v.tab_style)
    &&& geometry_ok(v.selected_tab_style)
    &&& geometry_ok(v.error_title_style)
    &&& geometry_ok(v.subtle_style)
    &&& geometry_ok(v.pagination_style)
    &&& geometry_ok(v.status_bar_scroll_pos_style)
    &&& geometry_ok(v.status_bar_note_style)
    &&& geometry_ok(v.status_bar_help_style)
    &&& geometry_ok(v.status_bar_message_style)
    &&& geometry_ok(v.status_bar_message_scroll_pos_style)
    &&& geometry_ok(v.status_bar_message_help_style)
    &&& geometry_ok(v.help_view_style)
    &&& geometry_ok(v.line_number_style)
    &&& geometry_ok(v.divider_dot)
    &&& geometry_ok(v.divider_bar)
    &&& geometry_ok(v.logo_style)
    &&& geometry_ok(v.stash_spinner_style)
    &&& geometry_ok(v.stash_input_prompt_style)
}

/// The built styles all have geometry that fits.
pub proof fn lemma_styles_spec_ok(d: bool)
    ensures
        styles_ok(styles_spec(d)),
{
}

impl Styles {
    /// What these styles are.
    pub open spec fn view(&self) -> StylesView {
        StylesView {
            is_dark: self.light_dark.0,
            fuchsia: self.fuchsia,
            dim_normal_fg: self.dim_normal_fg@,
            bright_gray_fg: self.bright_gray_fg@,
            dim_bright_gray_fg: self.dim_bright_gray_fg@,
            gray_fg: self.gray_fg@,
            mid_gray_fg: self.mid_gray_fg@,
            dark_gray_fg: self.dark_gray_fg@,
            green_fg: self.green_fg@,
            semi_dim_green_fg: self.semi_dim_green_fg@,
            dim_green_fg: self.dim_green_fg@,
            fuchsia_fg: self.fuchsia_fg@,
            dim_fuchsia_fg: self.dim_fuchsia_fg@,
            dull_fuchsia_fg: self.dull_fuchsia_fg@,
            dim_dull_fuchsia_fg: self.dim_dull_fuchsia_fg@,
            red_fg: self.red_fg@,
            tab_style: self.tab_style@,
            selected_tab_style: self.selected_tab_style@,
            error_title_style: self.error_title_style@,
            subtle_style: self.subtle_style@,
            pagination_style: self.pagination_style@,
            status_bar_scroll_pos_style: self.status_bar_scroll_pos_style@,
            status_bar_note_style: self.status_bar_note_style@,
            status_bar_help_style: self.status_bar_help_style@,
            status_bar_message_style: self.status_bar_message_style@,
            status_bar_message_scroll_pos_style: self.status_bar_message_scroll_pos_style@,
            status_bar_message_help_style: self.status_bar_message_help_style@,
            help_view_style: self.help_view_style@,
            line_number_style: self.line_number_style@,
            divider_dot: self.divider_dot@,
            divider_bar: self.divider_bar@,
            logo_style: self.logo_style@,
            stash_spinner_style: self.stash_spinner_style@,
            stash_input_prompt_style: self.stash_input_prompt_style@,
        }
    }

    /// Builds every style for the given terminal background.
    pub fn new(is_dark: bool) -> (r: Styles)
        ensures
            r.view() == styles_spec(is_dark),
    {
        let ld = LightDark(is_dark);
        Styles {
            light_dark: ld,
            fuchsia: ld.pick(Color::Rgb(238, 111, 248), Color::Rgb(238, 111, 248)),
            dim_normal_fg: Style::new().foreground(ld.pick(Color::Rgb(164, 159, 165), Color::Rgb(119, 119, 119))),
            bright_gray_fg: Style::new().foreground(ld.pick(Color::Rgb(132, 122, 133), Color::Rgb(151, 151, 151))),
            dim_bright_gray_fg: Style::new().foreground(ld.pick(Color::Rgb(194, 184, 194), Color::Rgb(77, 77, 77))),
            gray_fg: Style::new().foreground(ld.pick(Color::Rgb(144, 144, 144), Color::Rgb(98, 98, 98))),
            mid_gray_fg: Style::new().foreground(ld.pick(Color::Rgb(178, 178, 178), Color::Rgb(74, 74, 74))),
            dark_gray_fg: Style::new().foreground(ld.pick(Color::Rgb(221, 218, 218), Color::Rgb(60, 60, 60))),
            green_fg: Style::new().foreground(Color::Rgb(4, 181, 117)),
            semi_dim_green_fg: Style::new().foreground(ld.pick(Color::Rgb(53, 215, 156), Color::Rgb(3, 107, 70))),
            dim_green_fg: Style::new().foreground(ld.pick(Color::Rgb(114, 210, 176), Color::Rgb(11, 81, 55))),
            fuchsia_fg: Style::new().foreground(ld.pick(Color::Rgb(238, 111, 248), Color::Rgb(238, 111, 248))),
            dim_fuchsia_fg: Style::new().foreground(ld.pick(Color::Rgb(241, 168, 255), Color::Rgb(153, 81, 158))),
            dull_fuchsia_fg: Style::new().foreground(ld.pick(Color::Rgb(247, 147, 255), Color::Rgb(173, 88, 180))),
            dim_dull_fuchsia_fg: Style::new().foreground(ld.pick(Color::Rgb(246, 201, 255), Color::Rgb(123, 67, 128))),
            red_fg: Style::new().foreground(ld.pick(Color::Rgb(255, 70, 114), Color::Rgb(237, 86, 122))),
            tab_style: Style::new().foreground(ld.pick(Color::Rgb(144, 144, 144), Color::Rgb(98, 98, 98))),
            selected_tab_style: Style::new().foreground(ld.pick(Color::Rgb(51, 51, 51), Color::Rgb(151, 151, 151))),
            error_title_style: Style::new().foreground(ld.pick(Color::Rgb(255, 253, 245), Color::Rgb(255, 253, 245))).background(ld.pick(Color::Rgb(255, 70, 114), Color::Rgb(237, 86, 122))).padding(0, 1, 0, 1),
            subtle_style: Style::new().foreground(ld.pick(Color::Rgb(155, 155, 155), Color::Rgb(92, 92, 92))),
            pagination_style: Style::new().foreground(ld.pick(Color::Rgb(155, 155, 155), Color::Rgb(92, 92, 92))),
            status_bar_scroll_pos_style: Style::new().foreground(ld.pick(Color::Rgb(148, 148, 148), Color::Rgb(90, 90, 90))).background(ld.pick(Color::Rgb(230, 230, 230), Color::Rgb(36, 36, 36))),
            status_bar_note_style: Style::new().foreground(ld.pick(Color::Rgb(101, 101, 101), Color::Rgb(125, 125, 125))).background(ld.pick(Color::Rgb(230, 230, 230), Color::Rgb(36, 36, 36))),
            status_bar_help_style: Style::new().foreground(ld.pick(Color::Rgb(101, 101, 101), Color::Rgb(125, 125, 125))).background(ld.pick(Color::Rgb(220, 220, 220), Color::Rgb(50, 50, 50))),
            status_bar_message_style: Style::new().foreground(ld.pick(Color::Rgb(137, 240, 203), Color::Rgb(137, 240, 203))).background(ld.pick(Color::Rgb(28, 135, 96), Color::Rgb(28, 135, 96))),
            status_bar_message_scroll_pos_style: Style::new().foreground(ld.pick(Color::Rgb(137, 240, 203), Color::Rgb(137, 240, 203))).background(ld.pick(Color::Rgb(28, 135, 96), Color::Rgb(28, 135, 96))),
            status_bar_message_help_style: Style::new().foreground(Color::Rgb(182, 255, 228)).background(Color::Rgb(4, 181, 117)),
            help_view_style: Style::new().foreground(ld.pick(Color::Rgb(101, 101, 101), Color::Rgb(125, 125, 125))).background(ld.pick(Color::Rgb(242, 242, 242), Color::Rgb(27, 27, 27))),
            line_number_style: Style::new().foreground(ld.pick(Color::Rgb(101, 101, 101), Color::Rgb(125, 125, 125))),
            divider_dot: Style::new().foreground(ld.pick(Color::Rgb(221, 218, 218), Color::Rgb(60, 60, 60))).set_string(" • "),
            divider_bar: Style::new().foreground(ld.pick(Color::Rgb(221, 218, 218), Color::Rgb(60, 60, 60))).set_string(" │ "),
            logo_style: Style::new().foreground(Color::Rgb(236, 253, 101)).background(ld.pick(Color::Rgb(238, 111, 248), Color::Rgb(238, 111, 248))).bold(true),
            stash_spinner_style: Style::new().foreground(ld.pick(Color::Rgb(144, 144, 144), Color::Rgb(98, 98, 98))),
            stash_input_prompt_style: Style::new().foreground(ld.pick(Color::Rgb(4, 181, 117), Color::Rgb(236, 253, 101))).margin_right(1),
        }
    }

    /// Picks between a light and a dark variant, each given as a colour
    /// string, for this background.
    pub fn adaptive(&self, light: &str, dark: &str) -> (r: Color)
        requires
            parse_color(light@) is Some,
            parse_color(dark@) is Some,
        ensures
            r == pick(self.view().is_dark, parse_color(light@)->0, parse_color(dark@)->0),
    {
        let l = Color::parse(light);
        let d = Color::parse(dark);
        match (l, d) {
            (Some(l), Some(d)) => self.light_dark.pick(l, d),
            _ => {
                proof {
                    assert(false);
                }
                Color::Basic(0)
            },
        }
    }
}

impl Default for Styles {
    /// The styles for a dark background.
    fn default() -> (r: Styles)
        ensures
            r.view() == styles_spec(true),
    {
        Styles::new(true)
    }
}

} // verus!
