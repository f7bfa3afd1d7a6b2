use glow::deps::ansi;
use glow::deps::lipgloss::{Color, LightDark, Pen, Sgr, Style};

#[test]
fn color_parses_hex_and_index() {
    assert_eq!(Color::parse("#04B575"), Some(Color::Rgb(4, 181, 117)));
    assert_eq!(Color::parse("252"), Some(Color::Ansi256(252)));
    assert_eq!(Color::parse("7"), Some(Color::Basic(7)));
    assert_eq!(Color::parse("nope"), None);
}

#[test]
fn sgr_orders_params_like_x_ansi() {
    let s = Sgr::new()
        .foreground(&Color::Ansi256(228))
        .background(&Color::Ansi256(63))
        .bold();
    assert_eq!(s.styled("x"), "\u{1b}[38;5;228;48;5;63;1mx\u{1b}[m");
}

#[test]
fn empty_sgr_is_transparent() {
    assert_eq!(Sgr::new().styled("x"), "x");
}

#[test]
fn keyword_style_wraps_in_truecolor() {
    let s = Style::new().foreground(Color::parse("#04B575").unwrap());
    assert_eq!(
        s.render("with pizzazz"),
        "\u{1b}[38;2;4;181;117mwith pizzazz\u{1b}[m"
    );
}

#[test]
fn paragraph_style_pads_every_line_to_width() {
    let s = Style::new().width(78).padding(0, 0, 0, 2);
    let out = s.render("\nRender markdown on the CLI, with pizzazz!");
    let lines: Vec<&str> = out.split('\n').collect();
    assert_eq!(lines.len(), 2);
    assert_eq!(lines[0].len(), 78);
    assert_eq!(ansi::string_width(lines[1]), 78);
    assert!(lines[1].starts_with("  Render markdown on the CLI,"));
}

#[test]
fn short_hex_doubles_each_digit() {
    assert_eq!(Color::parse("#fff"), Some(Color::Rgb(255, 255, 255)));
    assert_eq!(Color::parse(" #0a0 "), Some(Color::Rgb(0, 170, 0)));
    assert_eq!(Color::parse("#12345"), None);
    assert_eq!(Color::parse("256"), None);
}

#[test]
fn basic_colors_use_the_short_codes() {
    assert_eq!(Sgr::new().foreground(&Color::Basic(1)).sequence(), "\u{1b}[31m");
    assert_eq!(Sgr::new().background(&Color::Basic(9)).sequence(), "\u{1b}[101m");
    assert_eq!(Sgr::new().sequence(), "");
}

#[test]
fn light_dark_picks_by_background() {
    assert_eq!(LightDark(true).pick(Color::Basic(1), Color::Basic(2)), Color::Basic(2));
    assert_eq!(LightDark(false).pick(Color::Basic(1), Color::Basic(2)), Color::Basic(1));
}

#[test]
fn the_pen_tracks_sgr_state() {
    let mut pen = Pen::new();
    assert!(pen.is_zero());
    pen.advance("\u{1b}[1;38;5;200m");
    assert!(!pen.is_zero());
    assert_eq!(pen.sequence(), "\u{1b}[1;38;5;200m");
    pen.advance("\u{1b}[0m");
    assert!(pen.is_zero());
    assert_eq!(pen.sequence(), "\u{1b}[m");
    assert!(!pen.link_is_zero(), "no hyperlink is open yet");
    pen.advance("\u{1b}]8;;https://x.example\u{7}");
    assert!(pen.link_is_zero(), "a hyperlink is open");
}

#[test]
fn wrap_reopens_the_style_after_a_newline() {
    let out = glow::deps::lipgloss::wrap("\u{1b}[1mhello world\u{1b}[m", 5, "");
    assert_eq!(out, "\u{1b}[1mhello\u{1b}[m\n\u{1b}[1mworld\u{1b}[m");
}

#[test]
fn margins_and_max_width_apply_per_line() {
    let s = Style::new().margin_right(2);
    assert_eq!(s.render("ab"), "ab  ");
    let s = Style::new().max_width(3);
    assert_eq!(s.render("abcdef\nxy"), "abc\nxy ");
}

#[test]
fn a_colour_only_style_renders_as_its_sgr_list() {
    let style = Style::new().bold(true).underline(true).foreground(Color::Basic(1)).strikethrough(true);
    let sgr = Sgr::new().bold().underline().foreground(&Color::Basic(1)).crossed_out();
    assert_eq!(style.render("one line"), sgr.styled("one line"));
    assert_eq!(Style::new().render("plain"), "plain");
}

#[test]
fn plain_text_wraps_as_the_ansi_wrap_does() {
    let s = "the quick brown fox jumps over the lazy dog";
    for width in [0i64, 4, 9, 20] {
        assert_eq!(glow::deps::lipgloss::wrap(s, width, ""), ansi::wrap(s, width, ""));
    }
}
