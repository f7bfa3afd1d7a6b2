//! Rendering one entry of the file listing, and the listing around it.
use vstd::prelude::*;
use crate::deps::ansi::{truncate_spec, truncate_with_tail};
use crate::deps::bubbles::paginator::{items_spec, view_spec as pages_view_spec};
use crate::deps::bubbles::spinner;
use crate::deps::bubbles::textinput::{view_spec as input_view_spec, window_ok};
use crate::deps::bubbles::paginator;
use crate::deps::glamour::table::sw;
use crate::deps::humanize::{plural, plural_word_spec};
use crate::deps::lipgloss::{geometry_ok, render_spec, Color, Style, StyleModel};
use crate::style::plain;
use crate::text::{chars_of, decimal, decimal_int, decimal_of, extend_chars, extend_str, join, join_chars, push_chars, repeat, repeat_char, string_of};
use crate::ui::markdown::Markdown;
use crate::ui::stash::{
    cur, filtered_text_spec, has_section, style_filtered_text, visible_spec, FilterState, SectionKey, StashModel,
    StashViewState, StatusMessage, StatusMessageType, STASH_INDENT, STASH_VIEW_BOTTOM_PADDING,
    STASH_VIEW_HORIZONTAL_PADDING, STASH_VIEW_ITEM_HEIGHT, STASH_VIEW_TOP_PADDING,
};
use crate::ui::stashhelp::{count_newlines, help_spec, newlines};
use crate::ui::styles::{pick, styles_ok, Styles, StylesView};
use crate::ui::{error_view, error_view_spec, indent, indent_spec, CommonModel, ELLIPSIS};

verus! {

broadcast use vstd::string::group_string_axioms;

/// The gutter drawn beside the selected entry.
pub const VERTICAL_LINE: &'static str = "│";

/// Whether the listing is showing that a document is being stashed.
pub open spec fn stashing(m: &StashModel) -> bool {
    &&& m.show_status_message
    &&& m.status_message.status == StatusMessageType::Normal
    &&& m.status_message.message@ == "Stashing..."@
}

/// Fuchsia text, for the matches in a selected entry.
pub open spec fn fuchsia_text(st: StylesView) -> StyleModel {
    StyleModel { fg: Some(st.fuchsia), has_props: true, ..plain() }
}

/// Near-black or near-white text, for the matches in other entries.
pub open spec fn entry_text(st: StylesView) -> StyleModel {
    StyleModel {
        fg: Some(pick(st.is_dark, Color::Rgb(0x1a, 0x1a, 0x1a), Color::Rgb(0xdd, 0xdd, 0xdd))),
        has_props: true,
        ..plain()
    }
}

/// `s`, underlined.
pub open spec fn underlined(s: StyleModel) -> StyleModel {
    StyleModel { underline: true, has_props: true, ..s }
}

/// The drawn parts of an entry.
pub struct ItemParts {
    pub gutter: Seq<char>,
    pub icon: Seq<char>,
    pub separator: Seq<char>,
    pub title: Seq<char>,
    pub date: Seq<char>,
}

/// How the entry at row `index` of the page is drawn. The selected row,
/// or the only filtered result, gets a gutter and fuchsia (green while a
/// document is stashed), with the filter's matches highlighted when its
/// results are shown. Other rows are green while stashing, dimmed while an
/// empty filter is typed, and otherwise plain with the matches underlined.
pub open spec fn item_parts(m: &StashModel, st: StylesView, index: int, title: Seq<char>, date: Seq<char>) -> ItemParts {
    let filtering = m.filter_state == FilterState::Filtering;
    let single = filtering && visible_spec(m).len() == 1;
    let query = m.filter_input.state().value;
    let e: Seq<char> = Seq::empty();
    if (index == cur(m).cursor && !filtering) || single {
        if stashing(m) {
            ItemParts {
                gutter: render_spec(st.green_fg, "│"@),
                icon: render_spec(st.dim_green_fg, e),
                separator: render_spec(st.semi_dim_green_fg, e),
                title: render_spec(st.green_fg, title),
                date: render_spec(st.semi_dim_green_fg, date),
            }
        } else if (cur(m).key == SectionKey::Filter && m.filter_state == FilterState::FilterApplied) || single {
            ItemParts {
                gutter: render_spec(st.dull_fuchsia_fg, "│"@),
                icon: e,
                separator: render_spec(st.dull_fuchsia_fg, e),
                title: filtered_text_spec(title, query, fuchsia_text(st), underlined(fuchsia_text(st))),
                date: render_spec(st.dim_fuchsia_fg, date),
            }
        } else {
            ItemParts {
                gutter: render_spec(st.dull_fuchsia_fg, "│"@),
                icon: render_spec(st.fuchsia_fg, e),
                separator: render_spec(st.dull_fuchsia_fg, e),
                title: render_spec(st.fuchsia_fg, title),
                date: render_spec(st.dim_fuchsia_fg, date),
            }
        }
    } else if stashing(m) {
        ItemParts {
            gutter: seq![' '],
            icon: render_spec(st.dim_green_fg, e),
            separator: render_spec(st.semi_dim_green_fg, e),
            title: render_spec(st.green_fg, title),
            date: render_spec(st.semi_dim_green_fg, date),
        }
    } else if filtering && query.len() == 0 {
        ItemParts {
            gutter: seq![' '],
            icon: render_spec(st.dim_green_fg, e),
            separator: render_spec(st.dim_bright_gray_fg, e),
            title: render_spec(st.dim_normal_fg, title),
            date: render_spec(st.dim_bright_gray_fg, date),
        }
    } else {
        ItemParts {
            gutter: seq![' '],
            icon: render_spec(st.green_fg, e),
            separator: render_spec(st.bright_gray_fg, e),
            title: filtered_text_spec(title, query, entry_text(st), underlined(entry_text(st))),
            date: render_spec(st.gray_fg, date),
        }
    }
}

/// An entry: the note, cut to the width beside the padding, over its
/// date, each line behind the gutter.
pub open spec fn item_spec(m: &StashModel, st: StylesView, width: int, index: int, note: Seq<char>, date: Seq<char>) -> Seq<char> {
    let limit = if width > 2 * STASH_VIEW_HORIZONTAL_PADDING {
        width - 2 * STASH_VIEW_HORIZONTAL_PADDING
    } else {
        0
    };
    let p = item_parts(m, st, index, truncate_spec(note, limit, "…"@), date);
    p.gutter + seq![' '] + p.icon + p.separator + p.separator + p.title + seq!['\n'] + p.gutter + seq![' '] + p.date
}

/// Renders the entry at row `index` of the page, for `md` touched at
/// `date`, into `b`.
#[verifier::spinoff_prover]
#[verifier::rlimit(60)]
pub fn stash_item_view(b: &mut String, m: &StashModel, common: &CommonModel, index: usize, md: &Markdown, date: &str)
    requires
        has_section(m),
        styles_ok(common.styles.view()),
        index <= i64::MAX,
    ensures
        final(b)@ == old(b)@ + item_spec(m, common.styles.view(), common.width as int, index as int, md.note@, date@),
{
    let styles = &common.styles;
    let ghost st = styles.view();
    let limit = if common.width > 2 * STASH_VIEW_HORIZONTAL_PADDING {
        common.width - 2 * STASH_VIEW_HORIZONTAL_PADDING
    } else {
        0
    };
    let title = truncate_with_tail(md.note.as_str(), limit, ELLIPSIS);
    let filtering = m.filter_state == FilterState::Filtering;
    let single = filtering && m.visible_markdowns().len() == 1;
    let is_selected = index as i64 == m.cursor();
    let stashing_now = m.show_status_message && m.status_message.status == StatusMessageType::Normal
        && crate::text::eq_str(&chars_of(m.status_message.message.as_str()), "Stashing...");
    let query = m.filter_input.value();
    let query_empty = chars_of(query.as_str()).len() == 0;
    let empty = "";
    proof {
        reveal_strlit("");
        assert(empty@ =~= Seq::<char>::empty());
    }
    proof {
        reveal_strlit(" ");
        reveal_strlit("│");
    }
    let ghost parts = item_parts(m, st, index as int, title@, date@);
    assert(is_selected == (index as int == cur(m).cursor));
    assert(single == (filtering && visible_spec(m).len() == 1));
    assert(stashing_now == stashing(m));
    assert(query@ == m.filter_input.state().value);
    let (gutter_s, icon_s, sep_s, title_s, date_s) = if (is_selected && !filtering) || single {
        if stashing_now {
            let r = (
                styles.green_fg.render(VERTICAL_LINE),
                styles.dim_green_fg.render(empty),
                styles.semi_dim_green_fg.render(empty),
                styles.green_fg.render(title.as_str()),
                styles.semi_dim_green_fg.render(date),
            );
            assert(r.0@ == parts.gutter && r.1@ == parts.icon && r.2@ == parts.separator && r.3@ == parts.title && r.4@ == parts.date);
            r
        } else if (m.current_section().key == SectionKey::Filter && m.filter_state == FilterState::FilterApplied)
            || single {
            let s = Style::new().foreground(common.styles.fuchsia);
            let u = s.copy().underline(true);
            let r = (
                styles.dull_fuchsia_fg.render(VERTICAL_LINE),
                empty.to_owned(),
                styles.dull_fuchsia_fg.render(empty),
                style_filtered_text(title.as_str(), query.as_str(), &s, &u),
                styles.dim_fuchsia_fg.render(date),
            );
            assert(r.0@ == parts.gutter && r.1@ == parts.icon && r.2@ == parts.separator && r.3@ == parts.title && r.4@ == parts.date);
            r
        } else {
            let r = (
                styles.dull_fuchsia_fg.render(VERTICAL_LINE),
                styles.fuchsia_fg.render(empty),
                styles.dull_fuchsia_fg.render(empty),
                styles.fuchsia_fg.render(title.as_str()),
                styles.dim_fuchsia_fg.render(date),
            );
            assert(r.0@ == parts.gutter && r.1@ == parts.icon && r.2@ == parts.separator && r.3@ == parts.title && r.4@ == parts.date);
            r
        }
    } else if stashing_now {
        let r = (
            " ".to_owned(),
            styles.dim_green_fg.render(empty),
            styles.semi_dim_green_fg.render(empty),
            styles.green_fg.render(title.as_str()),
            styles.semi_dim_green_fg.render(date),
        );
        assert(r.0@ =~= parts.gutter && r.1@ == parts.icon && r.2@ == parts.separator && r.3@ == parts.title && r.4@ == parts.date);
        r
    } else if filtering && query_empty {
        let r = (
            " ".to_owned(),
            styles.dim_green_fg.render(empty),
            styles.dim_bright_gray_fg.render(empty),
            styles.dim_normal_fg.render(title.as_str()),
            styles.dim_bright_gray_fg.render(date),
        );
        assert(r.0@ =~= parts.gutter && r.1@ == parts.icon && r.2@ == parts.separator && r.3@ == parts.title && r.4@ == parts.date);
        r
    } else {
        let s = Style::new().foreground(styles.light_dark.pick(Color::Rgb(0x1a, 0x1a, 0x1a), Color::Rgb(0xdd, 0xdd, 0xdd)));
        let u = s.copy().underline(true);
        let r = (
            " ".to_owned(),
            styles.green_fg.render(empty),
            styles.bright_gray_fg.render(empty),
            style_filtered_text(title.as_str(), query.as_str(), &s, &u),
            styles.gray_fg.render(date),
        );
        assert(r.0@ =~= parts.gutter && r.1@ == parts.icon && r.2@ == parts.separator && r.3@ == parts.title && r.4@ == parts.date);
        r
    };
    let mut v: Vec<char> = Vec::new();
    extend_str(&mut v, gutter_s.as_str());
    v.push(' ');
    extend_str(&mut v, icon_s.as_str());
    extend_str(&mut v, sep_s.as_str());
    extend_str(&mut v, sep_s.as_str());
    extend_str(&mut v, title_s.as_str());
    v.push('\n');
    extend_str(&mut v, gutter_s.as_str());
    v.push(' ');
    extend_str(&mut v, date_s.as_str());
    assert(v@ =~= item_spec(m, st, common.width as int, index as int, md.note@, date@));
    push_chars(b, &v);
}

/// The ` Glow ` logo.
pub fn glow_logo_view(styles: &Styles) -> (r: String)
    requires
        styles_ok(styles.view()),
    ensures
        r@ == render_spec(styles.view().logo_style, " Glow "@),
{
    styles.logo_style.render(" Glow ")
}

/// The text of tab `i`: the document count, or the filter's result count
/// and its query in quotes.
pub open spec fn tab_text(m: &StashModel, i: int) -> Seq<char> {
    let local = m.markdowns@.len() as int;
    match m.sections@[i].key {
        SectionKey::Documents => decimal_int(local) + seq![' '] + plural_word_spec(local, "document"@, Seq::empty()),
        SectionKey::Filter => decimal(m.filtered_markdowns@.len()) + " “"@ + m.filter_input.state().value + "”"@,
    }
}

/// Tab `i`, drawn selected when it is the current one of several.
pub open spec fn tab_spec(m: &StashModel, st: StylesView, i: int) -> Seq<char> {
    if m.section_index == i && m.sections@.len() > 1 {
        render_spec(st.selected_tab_style, tab_text(m, i))
    } else {
        render_spec(st.tab_style, tab_text(m, i))
    }
}

/// The line above the listing: while a filter is typed, how many local
/// documents there are (or that there are none); else the tabs, a bar
/// between each.
pub open spec fn header_spec(m: &StashModel, st: StylesView) -> Seq<char> {
    let local = m.markdowns@.len();
    if m.filter_state == FilterState::Filtering {
        if local == 0 {
            render_spec(st.gray_fg, "Nothing found."@)
        } else {
            render_spec(st.gray_fg, decimal(local) + " local"@)
        }
    } else {
        join(
            Seq::new(m.sections@.len(), |i: int| tab_spec(m, st, i)),
            render_spec(st.divider_bar, Seq::empty()),
        )
    }
}

/// The rows of the current page: the visible documents from the page's
/// first, each with its date, two blank-separated lines apiece.
pub open spec fn page_rows(m: &StashModel, st: StylesView, width: int, dates: Seq<Seq<char>>) -> Seq<char> {
    let mds = visible_spec(m);
    let p = cur(m).paginator;
    let start = p.page * p.per_page;
    let end = if start + p.per_page < mds.len() {
        start + p.per_page
    } else {
        mds.len() as int
    };
    join(
        Seq::new((end - start) as nat, |i: int| item_spec(m, st, width, i, mds[start + i].note@, dates[start + i])),
        "\n\n"@,
    )
}

/// The entries of the current page, padded with line feeds to a full page:
/// a note while the listing is empty, and nothing for an empty filter.
pub open spec fn populated_spec(m: &StashModel, st: StylesView, width: int, dates: Seq<Seq<char>>) -> Seq<char> {
    let mds = visible_spec(m);
    let p = cur(m).paginator;
    if mds.len() == 0 && cur(m).key == SectionKey::Filter {
        Seq::empty()
    } else {
        let head = if mds.len() == 0 {
            "  "@ + render_spec(
                st.gray_fg,
                if m.loaded {
                    "No files found."@
                } else {
                    "Looking for local files..."@
                },
            )
        } else {
            page_rows(m, st, width, dates)
        };
        let items = items_spec(p, mds.len() as int);
        let pad = if items < p.per_page {
            let n = (p.per_page - items) * STASH_VIEW_ITEM_HEIGHT;
            if mds.len() == 0 {
                n - (STASH_VIEW_ITEM_HEIGHT - 1)
            } else {
                n
            }
        } else {
            0
        };
        head + repeat('\n', pad as nat)
    }
}

impl StashModel {
    /// The counts and tabs above the listing.
    pub fn header_view(&self, common: &CommonModel) -> (r: String)
        requires
            styles_ok(common.styles.view()),
            self.markdowns@.len() <= i64::MAX,
        ensures
            r@ == header_spec(self, common.styles.view()),
    {
        let styles = &common.styles;
        let local = self.markdowns.len();
        if self.filter_state == FilterState::Filtering {
            if local == 0 {
                return styles.gray_fg.render("Nothing found.");
            }
            let mut t = decimal_of(local as u64);
            extend_str(&mut t, " local");
            let ts = string_of(&t);
            return styles.gray_fg.render(ts.as_str());
        }
        let mut tabs: Vec<Vec<char>> = Vec::new();
        let mut i: usize = 0;
        while i < self.sections.len()
            invariant
                i <= self.sections@.len(),
                styles == &common.styles,
                styles_ok(common.styles.view()),
                self.markdowns@.len() <= i64::MAX,
                local == self.markdowns@.len(),
                tabs@.map_values(|p: Vec<char>| p@) == Seq::new(i as nat, |k: int| tab_spec(self, common.styles.view(), k)),
            decreases self.sections@.len() - i,
        {
            let text = match self.sections[i].key {
                SectionKey::Documents => plural(local as i64, "document", ""),
                SectionKey::Filter => {
                    let mut t = decimal_of(self.filtered_markdowns.len() as u64);
                    extend_str(&mut t, " “");
                    let q = self.filter_input.value();
                    extend_str(&mut t, q.as_str());
                    extend_str(&mut t, "”");
                    string_of(&t)
                },
            };
            proof {
                reveal_strlit("");
            }
            assert(text@ == tab_text(self, i as int));
            let drawn = if self.section_index == i && self.sections.len() > 1 {
                styles.selected_tab_style.render(text.as_str())
            } else {
                styles.tab_style.render(text.as_str())
            };
            let ghost before = tabs@.map_values(|p: Vec<char>| p@);
            tabs.push(chars_of(drawn.as_str()));
            assert(tabs@.map_values(|p: Vec<char>| p@) =~= before.push(drawn@));
            i += 1;
            assert(tabs@.map_values(|p: Vec<char>| p@) =~= Seq::new(i as nat, |k: int| tab_spec(self, common.styles.view(), k)));
        }
        let bar = styles.divider_bar.string();
        let out = join_chars(&tabs, &chars_of(bar.as_str()));
        string_of(&out)
    }

    /// The entries on the current page, padded out to a full page; `dates`
    /// holds, for each visible document, when it was last touched.
    pub fn populated_view(&self, common: &CommonModel, dates: &Vec<String>) -> (r: String)
        requires
            has_section(self),
            styles_ok(common.styles.view()),
            dates@.len() == visible_spec(self).len(),
            cur(self).paginator.page * cur(self).paginator.per_page + cur(self).paginator.per_page <= usize::MAX,
            cur(self).paginator.per_page <= i64::MAX,
            visible_spec(self).len() > 0 ==> cur(self).paginator.page * cur(self).paginator.per_page
                <= visible_spec(self).len(),
            (cur(self).paginator.per_page as int) * STASH_VIEW_ITEM_HEIGHT <= usize::MAX,
        ensures
            r@ == populated_spec(self, common.styles.view(), common.width as int, dates@.map_values(|d: String| d@)),
    {
        let ghost st = common.styles.view();
        let ghost dv = dates@.map_values(|d: String| d@);
        let mds = self.visible_markdowns();
        let p = self.paginator();
        if mds.len() == 0 && self.sections[self.section_index].key == SectionKey::Filter {
            proof {
                reveal_strlit("");
            }
            return String::new();
        }
        let mut b: Vec<char> = Vec::new();
        if mds.len() == 0 {
            extend_str(&mut b, "  ");
            let text = if self.loading_done() {
                "No files found."
            } else {
                "Looking for local files..."
            };
            let t = common.styles.gray_fg.render(text);
            extend_str(&mut b, t.as_str());
        } else {
            let (start, end) = p.slice_bounds(mds.len());
            let n = end - start;
            let ghost rows = Seq::new(
                n as nat,
                |i: int| item_spec(self, st, common.width as int, i, visible_spec(self)[start + i].note@, dv[start + i]),
            );
            let mut s = String::new();
            let mut i: usize = 0;
            while i < n
                invariant
                    i <= n,
                    n == end - start,
                    start <= end <= mds.len(),
                    mds@.len() == visible_spec(self).len(),
                    forall|k: int| 0 <= k < mds@.len() ==> *#[trigger] mds@[k] == visible_spec(self)[k],
                    has_section(self),
                    styles_ok(common.styles.view()),
                    dates@.len() == mds.len(),
                    dv == dates@.map_values(|d: String| d@),
                    st == common.styles.view(),
                    rows == Seq::new(
                        n as nat,
                        |i: int| item_spec(self, st, common.width as int, i, visible_spec(self)[start + i].note@, dv[start + i]),
                    ),
                    cur(self).paginator.per_page <= i64::MAX,
                    n <= cur(self).paginator.per_page,
                    i == 0 ==> s@.len() == 0,
                    i > 0 ==> s@ == join(rows.take(i as int), "\n\n"@) + if i < n { "\n\n"@ } else { Seq::empty() },
                decreases n - i,
            {
                let ghost before = s@;
                assert(dv[start + i] == dates@[start + i]@);
                stash_item_view(&mut s, self, common, i, mds[start + i], dates[start + i].as_str());
                proof {
                    assert(rows.take(i + 1).drop_last() =~= rows.take(i as int));
                    if i == 0 {
                        assert(rows.take(1) =~= seq![rows[0]]);
                    }
                }
                if i != n - 1 {
                    let mut sep: Vec<char> = Vec::new();
                    sep.push('\n');
                    sep.push('\n');
                    push_chars(&mut s, &sep);
                    proof {
                        reveal_strlit("\n\n");
                        assert(sep@ =~= "\n\n"@);
                    }
                }
                i += 1;
            }
            proof {
                assert(rows.take(i as int) =~= rows);
                reveal_strlit("\n\n");
            }
            assert(rows == Seq::new(
                n as nat,
                |i: int| item_spec(self, st, common.width as int, i, visible_spec(self)[start + i].note@, dv[start + i]),
            ));
            extend_str(&mut b, s.as_str());
            assert(b@ == page_rows(self, st, common.width as int, dv));
        }
        let items = p.items_on_page(mds.len());
        if items < p.per_page {
            let mut n = (p.per_page - items) * STASH_VIEW_ITEM_HEIGHT;
            if mds.len() == 0 {
                n = n - (STASH_VIEW_ITEM_HEIGHT - 1);
            }
            let mut k: usize = 0;
            let ghost head = b@;
            while k < n
                invariant
                    k <= n,
                    b@ == head + repeat('\n', k as nat),
                decreases n - k,
            {
                b.push('\n');
                k += 1;
                assert(b@ =~= head + repeat('\n', k as nat));
            }
        }
        proof {
            reveal_strlit("  ");
        }
        string_of(&b)
    }
}

/// The spinner's current frame, drawn.
pub open spec fn spinner_spec(s: spinner::Model) -> Seq<char> {
    if s.frame() < s.frames().len() {
        render_spec(s.style_view(), s.frames()[s.frame() as int]@)
    } else {
        Seq::empty()
    }
}

/// A status message, drawn: green, dim green when subtle, red for an error.
pub open spec fn status_spec(msg: StatusMessage, st: StylesView) -> Seq<char> {
    render_spec(
        match msg.status {
            StatusMessageType::Subtle => st.dim_green_fg,
            StatusMessageType::Error => st.red_fg,
            StatusMessageType::Normal => st.green_fg,
        },
        msg.message@,
    )
}

/// The top line after the spinner: the status message or the filter input
/// while a filter is typed, else the logo and any status message.
pub open spec fn logo_or_filter_spec(m: &StashModel, st: StylesView) -> Seq<char> {
    let rest = if m.show_status_message && m.filter_state == FilterState::Filtering {
        status_spec(m.status_message, st)
    } else if m.filter_state == FilterState::Filtering {
        input_view_spec(m.filter_input.prompt_view(), m.filter_input.styles_view(), m.filter_input.state())
    } else if m.show_status_message {
        render_spec(st.logo_style, " Glow "@) + "  "@ + status_spec(m.status_message, st)
    } else {
        render_spec(st.logo_style, " Glow "@)
    };
    seq![' '] + rest
}

/// The pagination under the listing, when there are several pages: the
/// dots, or the page count when the dots would not fit the width.
pub open spec fn pagination_spec(p: paginator::Model, st: StylesView, width: int) -> Seq<char> {
    if p.total_pages > 1 {
        let dots = pages_view_spec(p);
        if sw(dots) > (if width > STASH_VIEW_HORIZONTAL_PADDING { width - STASH_VIEW_HORIZONTAL_PADDING } else { 0 }) {
            render_spec(st.pagination_style, pages_view_spec(paginator::Model { kind: paginator::Type::Arabic, ..p }))
        } else {
            dots
        }
    } else {
        Seq::empty()
    }
}

/// The ready listing, before it is indented: spinner, logo or filter (cut
/// to the width), header, entries, blank lines down to the footer,
/// pagination and help.
pub open spec fn ready_spec(m: &StashModel, st: StylesView, width: int, height: int, dates: Seq<Seq<char>>) -> Seq<char> {
    let loading = if !m.loaded || m.view_state == StashViewState::LoadingDocument {
        spinner_spec(m.spinner)
    } else {
        seq![' ']
    };
    let top = truncate_spec(logo_or_filter_spec(m, st), if width > 1 { width - 1 } else { 0 }, "…"@);
    let help = help_spec(m, st, width);
    let populated = populated_spec(m, st, width, dates);
    let avail = height - STASH_VIEW_TOP_PADDING - (newlines(populated) + 2) - help.1 - STASH_VIEW_BOTTOM_PADDING;
    let blank = repeat('\n', if avail > 0 { avail as nat } else { 0 });
    loading + top + "\n\n  "@ + header_spec(m, st) + "\n\n"@ + populated + "\n\n"@ + blank + "  "@ + pagination_spec(
        cur(m).paginator,
        st,
        width,
    ) + "\n\n"@ + help.0
}

/// The whole listing: the error screen, the loading line, or the ready
/// listing, each of the latter indented by one under a blank line.
pub open spec fn listing_spec(m: &StashModel, st: StylesView, width: int, height: int, dates: Seq<Seq<char>>) -> Seq<char> {
    match m.view_state {
        StashViewState::ShowingError => error_view_spec(
            st,
            match m.err {
                Some(e) => e@,
                None => Seq::empty(),
            },
            false,
        ),
        StashViewState::LoadingDocument => seq!['\n'] + indent_spec(
            " "@ + spinner_spec(m.spinner) + " Loading document..."@,
            STASH_INDENT as nat,
        ),
        StashViewState::Ready => seq!['\n'] + indent_spec(ready_spec(m, st, width, height, dates), STASH_INDENT as nat),
    }
}

/// Whether the filter input can be drawn.
pub open spec fn input_drawable(m: &StashModel) -> bool {
    &&& window_ok(m.filter_input.state())
    &&& m.filter_input.state().width < usize::MAX
    &&& geometry_ok(m.filter_input.styles_view().0)
    &&& geometry_ok(m.filter_input.styles_view().1)
    &&& geometry_ok(m.filter_input.styles_view().2)
}

/// The pagination under the listing.
fn pagination_view(p: &paginator::Model, styles: &Styles, width: usize) -> (r: String)
    requires
        styles_ok(styles.view()),
        p.page < usize::MAX,
    ensures
        r@ == pagination_spec(*p, styles.view(), width as int),
{
    if p.total_pages > 1 {
        let dots = p.view();
        let room = if width > STASH_VIEW_HORIZONTAL_PADDING {
            width - STASH_VIEW_HORIZONTAL_PADDING
        } else {
            0
        };
        if crate::deps::ansi::string_width(dots.as_str()) > room {
            let mut q = p.copy();
            q.kind = paginator::Type::Arabic;
            let pv = q.view();
            styles.pagination_style.render(pv.as_str())
        } else {
            dots
        }
    } else {
        proof {
            reveal_strlit("");
        }
        String::new()
    }
}

impl StashModel {
    /// The top line: the logo or the filter, cut to the width.
    fn top_line(&self, common: &CommonModel) -> (r: String)
        requires
            styles_ok(common.styles.view()),
            input_drawable(self),
        ensures
            r@ == truncate_spec(
                logo_or_filter_spec(self, common.styles.view()),
                if common.width > 1 { common.width - 1 } else { 0 },
                "…"@,
            ),
    {
        let styles = &common.styles;
        let mut top: Vec<char> = Vec::new();
        top.push(' ');
        if self.show_status_message && self.filter_state == FilterState::Filtering {
            let t = self.status_message.render(styles);
            extend_str(&mut top, t.as_str());
        } else if self.filter_state == FilterState::Filtering {
            let t = self.filter_input.view();
            extend_str(&mut top, t.as_str());
        } else {
            let logo = glow_logo_view(styles);
            extend_str(&mut top, logo.as_str());
            if self.show_status_message {
                extend_str(&mut top, "  ");
                let t = self.status_message.render(styles);
                extend_str(&mut top, t.as_str());
            }
        }
        proof {
            reveal_strlit("  ");
            reveal_strlit(" Glow ");
        }
        assert(top@ =~= logo_or_filter_spec(self, styles.view()));
        let limit = if common.width > 1 {
            common.width - 1
        } else {
            0
        };
        let top_s = string_of(&top);
        proof {
            reveal_strlit("…");
        }
        truncate_with_tail(top_s.as_str(), limit, ELLIPSIS)
    }

    /// The ready listing, before it is indented.
    #[verifier::spinoff_prover]
    fn ready_view(&self, common: &CommonModel, dates: &Vec<String>) -> (r: String)
        requires
            has_section(self),
            styles_ok(common.styles.view()),
            geometry_ok(self.spinner.style_view()),
            input_drawable(self),
            self.markdowns@.len() <= i64::MAX,
            dates@.len() == visible_spec(self).len(),
            cur(self).paginator.page * cur(self).paginator.per_page + cur(self).paginator.per_page <= usize::MAX,
            cur(self).paginator.per_page <= i64::MAX,
            cur(self).paginator.page < usize::MAX,
            visible_spec(self).len() > 0 ==> cur(self).paginator.page * cur(self).paginator.per_page
                <= visible_spec(self).len(),
            (cur(self).paginator.per_page as int) * STASH_VIEW_ITEM_HEIGHT <= usize::MAX,
        ensures
            r@ == ready_spec(self, common.styles.view(), common.width as int, common.height as int, dates@.map_values(|d: String| d@)),
    {
        let styles = &common.styles;
        let loading = if self.should_spin() {
            self.spinner.view()
        } else {
            " ".to_owned()
        };
        let top = self.top_line(common);
        let header = self.header_view(common);
        let (help, help_height) = self.help_view(common);
        let populated = self.populated_view(common, dates);
        let lines = count_newlines(populated.as_str());
        let avail: i128 = common.height as i128 - STASH_VIEW_TOP_PADDING as i128 - (lines as i128 + 2)
            - help_height as i128 - STASH_VIEW_BOTTOM_PADDING as i128;
        let blank_count: usize = if avail > 0 {
            avail as usize
        } else {
            0
        };
        let blank = repeat_char('\n', blank_count);
        let pagination = pagination_view(self.paginator(), styles, common.width);
        let mut s: Vec<char> = Vec::new();
        extend_str(&mut s, loading.as_str());
        extend_str(&mut s, top.as_str());
        extend_str(&mut s, "\n\n  ");
        extend_str(&mut s, header.as_str());
        extend_str(&mut s, "\n\n");
        extend_str(&mut s, populated.as_str());
        extend_str(&mut s, "\n\n");
        extend_chars(&mut s, &blank);
        extend_str(&mut s, "  ");
        extend_str(&mut s, pagination.as_str());
        extend_str(&mut s, "\n\n");
        extend_str(&mut s, help.as_str());
        proof {
            reveal_strlit(" ");
        }
        assert(s@ =~= ready_spec(self, styles.view(), common.width as int, common.height as int, dates@.map_values(|d: String| d@)));
        string_of(&s)
    }

    /// Renders the whole listing; `dates` holds, for each visible document,
    /// when it was last touched.
    #[verifier::spinoff_prover]
    #[verifier::rlimit(60)]
    pub fn view(&self, common: &CommonModel, dates: &Vec<String>) -> (r: String)
        requires
            has_section(self),
            styles_ok(common.styles.view()),
            geometry_ok(self.spinner.style_view()),
            input_drawable(self),
            self.markdowns@.len() <= i64::MAX,
            dates@.len() == visible_spec(self).len(),
            cur(self).paginator.page * cur(self).paginator.per_page + cur(self).paginator.per_page <= usize::MAX,
            cur(self).paginator.per_page <= i64::MAX,
            cur(self).paginator.page < usize::MAX,
            visible_spec(self).len() > 0 ==> cur(self).paginator.page * cur(self).paginator.per_page
                <= visible_spec(self).len(),
            (cur(self).paginator.per_page as int) * STASH_VIEW_ITEM_HEIGHT <= usize::MAX,
        ensures
            r@ == listing_spec(self, common.styles.view(), common.width as int, common.height as int, dates@.map_values(|d: String| d@)),
    {
        let styles = &common.styles;
        let ghost st = styles.view();
        let mut s: Vec<char> = Vec::new();
        match self.view_state {
            StashViewState::ShowingError => {
                let e = match &self.err {
                    Some(e) => e.clone(),
                    None => String::new(),
                };
                proof {
                    reveal_strlit("");
                }
                return error_view(styles, e.as_str(), false);
            },
            StashViewState::LoadingDocument => {
                s.push(' ');
                let sp = self.spinner.view();
                extend_str(&mut s, sp.as_str());
                extend_str(&mut s, " Loading document...");
                proof {
                    reveal_strlit(" ");
                    assert(s@ =~= " "@ + spinner_spec(self.spinner) + " Loading document..."@);
                }
            },
            StashViewState::Ready => {
                let r = self.ready_view(common, dates);
                extend_str(&mut s, r.as_str());
            },
        }
        let body = string_of(&s);
        let indented = indent(body.as_str(), STASH_INDENT);
        let mut out: Vec<char> = Vec::new();
        out.push('\n');
        extend_str(&mut out, indented.as_str());
        assert(out@ =~= seq!['\n'] + indented@);
        string_of(&out)
    }
}

} // verus!
