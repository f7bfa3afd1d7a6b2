//! The file listing: its sections, pagination, selection and filtering.
use vstd::prelude::*;
use crate::deps::ansi::string_width;
use crate::deps::bubbles::paginator::{items_spec, pages_for};
use crate::deps::bubbles::textinput::{cursor_ok, overflow, set_cursor_spec, TextState};
use crate::deps::bubbles::{paginator, spinner, textinput};
use crate::deps::fuzzy::{
    byte_off, find, find_spec, lemma_byte_off_mono, match_fits, measurable, sort_desc, try_find, utf8_len_exec, Match,
    MatchView,
};
use crate::deps::glamour::table::sw;
use crate::deps::lipgloss::{geometry_ok, render_spec, Style, StyleModel};
use crate::text::{chars_of, extend_chars, string_of};
use crate::ui::markdown::{normalize, normalize_spec, Markdown};
use crate::ui::sort::{sort_by_note, sort_markdowns};
use crate::ui::stashhelp::stash_help;
use crate::ui::styles::{styles_ok, styles_spec, Styles, StylesView};
use crate::ui::CommonModel;

verus! {

broadcast use vstd::string::group_string_axioms;

/// Left indent of the whole listing.
pub const STASH_INDENT: usize = 1;
/// Height of one entry, including the gap under it.
pub const STASH_VIEW_ITEM_HEIGHT: usize = 3;
/// Logo, status bar and gaps above the entries.
pub const STASH_VIEW_TOP_PADDING: usize = 5;
/// Pagination and gaps below the entries, not counting help.
pub const STASH_VIEW_BOTTOM_PADDING: usize = 3;
/// Horizontal padding around the entries.
pub const STASH_VIEW_HORIZONTAL_PADDING: usize = 6;

/// The high-level state of the file listing.
#[derive(Debug, Clone, Copy, PartialEq, Eq, Structural)]
pub enum StashViewState {
    /// Showing the listing.
    Ready,
    /// Waiting for a document to load.
    LoadingDocument,
    /// Showing an error.
    ShowingError,
}

/// The kind of documents a section shows.
#[derive(Debug, Clone, Copy, PartialEq, Eq, Structural)]
pub enum SectionKey {
    /// Every document found.
    Documents,
    /// The current filter's results.
    Filter,
}

/// A tab and the state of its contents.
#[derive(Debug, Clone)]
pub struct Section {
    /// Which documents the section shows.
    pub key: SectionKey,
    /// Pagination state.
    pub paginator: paginator::Model,
    /// Selected row on the current page.
    pub cursor: i64,
}

impl Section {
    /// A section showing `key`, on its first page and row, paginated with
    /// dots.
    pub fn new(key: SectionKey) -> (r: Section)
        ensures
            r.key == key,
            r.cursor == 0,
            r.paginator.kind == paginator::Type::Dots,
            r.paginator.page == 0,
            r.paginator.per_page == 0,
            r.paginator.total_pages == 0,
    {
        Section { key, paginator: paginator::Model::dots(), cursor: 0 }
    }

    /// A copy of this section.
    pub fn copy(&self) -> (r: Section)
        ensures
            r == *self,
    {
        Section { key: self.key, paginator: self.paginator.copy(), cursor: self.cursor }
    }
}

/// Whether a filter is being typed, applied, or absent.
#[derive(Debug, Clone, Copy, PartialEq, Eq, Structural)]
pub enum FilterState {
    /// No filter set.
    Unfiltered,
    /// The user is typing a filter.
    Filtering,
    /// A filter is applied and the user is not editing it.
    FilterApplied,
}

/// How a status message should read.
#[derive(Debug, Clone, Copy, PartialEq, Eq, Structural)]
pub enum StatusMessageType {
    /// Ordinary.
    Normal,
    /// Quiet.
    Subtle,
    /// A failure.
    Error,
}

/// An ephemeral note shown in the listing's header.
#[derive(Debug, Clone)]
pub struct StatusMessage {
    /// How it reads.
    pub status: StatusMessageType,
    /// The text.
    pub message: String,
}

impl Default for StatusMessage {
    fn default() -> (r: StatusMessage)
        ensures
            r.status == StatusMessageType::Normal,
            r.message@.len() == 0,
    {
        StatusMessage { status: StatusMessageType::Normal, message: String::new() }
    }
}

/// The message shown while a document is being stashed.
pub fn stashing_status_message() -> (r: StatusMessage)
    ensures
        r.status == StatusMessageType::Normal,
        r.message@ == "Stashing..."@,
{
    StatusMessage { status: StatusMessageType::Normal, message: "Stashing...".to_owned() }
}

impl StatusMessage {
    /// Renders the message: green, dim green when subtle, red for an error.
    pub fn render(&self, styles: &Styles) -> (r: String)
        requires
            crate::ui::styles::styles_ok(styles.view()),
        ensures
            r@ == render_spec(
                match self.status {
                    StatusMessageType::Subtle => styles.view().dim_green_fg,
                    StatusMessageType::Error => styles.view().red_fg,
                    StatusMessageType::Normal => styles.view().green_fg,
                },
                self.message@,
            ),
    {
        match self.status {
            StatusMessageType::Subtle => styles.dim_green_fg.render(self.message.as_str()),
            StatusMessageType::Error => styles.red_fg.render(self.message.as_str()),
            StatusMessageType::Normal => styles.green_fg.render(self.message.as_str()),
        }
    }
}

/// The file listing.
pub struct StashModel {
    /// The last error, shown by `!`.
    pub err: Option<String>,
    /// The loading spinner.
    pub spinner: spinner::Model,
    /// The filter input.
    pub filter_input: textinput::Model,
    /// The listing's state.
    pub view_state: StashViewState,
    /// The filter's state.
    pub filter_state: FilterState,
    /// Whether the expanded help is shown.
    pub show_full_help: bool,
    /// Whether a status message is showing.
    pub show_status_message: bool,
    /// The status message.
    pub status_message: StatusMessage,
    /// Sections the user can cycle through, in order.
    pub sections: Vec<Section>,
    /// Index of the section being looked at.
    pub section_index: usize,
    /// Whether the document search has finished.
    pub loaded: bool,
    /// Every document found.
    pub markdowns: Vec<Markdown>,
    /// Indexes of the documents the filter currently selects.
    pub filtered_markdowns: Vec<usize>,
}

/// Whether the section being looked at exists.
pub open spec fn has_section(m: &StashModel) -> bool {
    m.section_index < m.sections@.len()
}

/// The section being looked at.
pub open spec fn cur(m: &StashModel) -> Section {
    m.sections@[m.section_index as int]
}

/// Whether the filter's results are what is shown.
pub open spec fn shows_filter(m: &StashModel) -> bool {
    m.filter_state == FilterState::Filtering || cur(m).key == SectionKey::Filter
}

/// The documents the first `n` filter indexes select, skipping any that
/// point past the end.
pub open spec fn picked(mds: Seq<Markdown>, idx: Seq<usize>, n: int) -> Seq<Markdown>
    decreases n,
{
    if n <= 0 {
        Seq::empty()
    } else {
        let prev = picked(mds, idx, n - 1);
        if idx[n - 1] < mds.len() {
            prev.push(mds[idx[n - 1] as int])
        } else {
            prev
        }
    }
}

/// The documents shown under filter state `fs` in a section of kind
/// `key`: the filter's picks while filtering or in the filter's section,
/// else every document.
pub open spec fn shown(fs: FilterState, key: SectionKey, mds: Seq<Markdown>, filtered: Seq<usize>) -> Seq<Markdown> {
    if fs == FilterState::Filtering || key == SectionKey::Filter {
        picked(mds, filtered, filtered.len() as int)
    } else {
        mds
    }
}

/// How many documents pagination counts under filter state `fs` in a
/// section of kind `key`: the filter's indexes, or every document.
pub open spec fn counted(fs: FilterState, key: SectionKey, num_mds: int, num_filtered: int) -> int {
    if fs == FilterState::Filtering || key == SectionKey::Filter {
        num_filtered
    } else {
        num_mds
    }
}

/// The documents that should currently be shown.
pub open spec fn visible_spec(m: &StashModel) -> Seq<Markdown> {
    shown(m.filter_state, cur(m).key, m.markdowns@, m.filtered_markdowns@)
}

/// How many documents pagination counts.
pub open spec fn visible_count_spec(m: &StashModel) -> int {
    counted(m.filter_state, cur(m).key, m.markdowns@.len() as int, m.filtered_markdowns@.len() as int)
}

/// The index, among the visible documents, of the selected row.
pub open spec fn markdown_index_spec(m: &StashModel) -> int {
    cur(m).paginator.page * cur(m).paginator.per_page + cur(m).cursor
}

/// Whether section `a` is section `b` with its paginator's dots from
/// `styles`.
pub open spec fn restyled(a: Section, b: Section, styles: crate::ui::styles::StylesView) -> bool {
    &&& a.key == b.key
    &&& a.cursor == b.cursor
    &&& a.paginator.active_dot@ == render_spec(styles.bright_gray_fg, "•"@)
    &&& a.paginator.inactive_dot@ == render_spec(styles.dark_gray_fg, "•"@)
    &&& a.paginator.kind == b.paginator.kind
    &&& a.paginator.page == b.paginator.page
    &&& a.paginator.per_page == b.paginator.per_page
    &&& a.paginator.total_pages == b.paginator.total_pages
    &&& a.paginator.arabic_format == b.paginator.arabic_format
}

impl StashModel {
    /// A listing with one section of documents and a focused filter input.
    pub fn new(styles: &Styles) -> (r: StashModel)
        requires
            crate::ui::styles::styles_ok(styles.view()),
        ensures
            r.err is None,
            r.view_state == StashViewState::Ready,
            r.filter_state == FilterState::Unfiltered,
            !r.show_full_help,
            !r.show_status_message,
            r.status_message.status == StatusMessageType::Normal,
            r.status_message.message@.len() == 0,
            r.sections@.len() == 1,
            r.sections@[0].key == SectionKey::Documents,
            r.sections@[0].cursor == 0,
            r.sections@[0].paginator.kind == paginator::Type::Dots,
            r.sections@[0].paginator.page == 0,
            r.sections@[0].paginator.per_page == 0,
            r.sections@[0].paginator.total_pages == 0,
            r.sections@[0].paginator.active_dot@ == render_spec(styles.view().bright_gray_fg, "•"@),
            r.sections@[0].paginator.inactive_dot@ == render_spec(styles.view().dark_gray_fg, "•"@),
            r.section_index == 0,
            !r.loaded,
            r.markdowns@.len() == 0,
            r.filtered_markdowns@.len() == 0,
            r.filter_input.prompt_view() == "Find:"@,
            r.filter_input.state().focus,
            !r.filter_input.state().blinked,
            r.filter_input.state().value.len() == 0,
            r.filter_input.state().pos == 0,
            r.filter_input.styles_view().0 == styles.view().stash_input_prompt_style,
            r.filter_input.styles_view().2 == (crate::deps::lipgloss::StyleModel {
                fg: Some(styles.view().fuchsia),
                has_props: true,
                ..crate::style::plain()
            }),
            r.spinner.style_view() == styles.view().stash_spinner_style,
            crate::deps::bubbles::spinner::line_frames(r.spinner.frames()),
    {
        let mut sp = spinner::Model::new();
        sp.set_style(styles.stash_spinner_style.copy());
        let mut si = textinput::Model::new();
        si.set_prompt("Find:");
        si.set_prompt_style(styles.stash_input_prompt_style.copy());
        si.set_cursor_style(Style::new().foreground(styles.fuchsia));
        si.focus();
        let mut sections: Vec<Section> = Vec::new();
        sections.push(Section::new(SectionKey::Documents));
        let mut m = StashModel {
            err: None,
            spinner: sp,
            filter_input: si,
            view_state: StashViewState::Ready,
            filter_state: FilterState::Unfiltered,
            show_full_help: false,
            show_status_message: false,
            status_message: StatusMessage::default(),
            sections,
            section_index: 0,
            loaded: false,
            markdowns: Vec::new(),
            filtered_markdowns: Vec::new(),
        };
        m.style_paginators(styles);
        m
    }

    /// Applies the styles' dots to every section's paginator.
    pub fn style_paginators(&mut self, styles: &Styles)
        requires
            crate::ui::styles::styles_ok(styles.view()),
        ensures
            final(self).sections@.len() == old(self).sections@.len(),
            forall|i: int|
                0 <= i < final(self).sections@.len() ==> restyled(
                    #[trigger] final(self).sections@[i],
                    old(self).sections@[i],
                    styles.view(),
                ),
            final(self).err == old(self).err,
            final(self).spinner == old(self).spinner,
            final(self).filter_input == old(self).filter_input,
            final(self).view_state == old(self).view_state,
            final(self).filter_state == old(self).filter_state,
            final(self).show_full_help == old(self).show_full_help,
            final(self).show_status_message == old(self).show_status_message,
            final(self).status_message == old(self).status_message,
            final(self).section_index == old(self).section_index,
            final(self).loaded == old(self).loaded,
            final(self).markdowns == old(self).markdowns,
            final(self).filtered_markdowns == old(self).filtered_markdowns,
    {
        let ghost before = self.sections@;
        let mut i: usize = 0;
        while i < self.sections.len()
            invariant
                i <= self.sections@.len(),
                self.sections@.len() == before.len(),
                crate::ui::styles::styles_ok(styles.view()),
                forall|k: int| 0 <= k < i ==> restyled(#[trigger] self.sections@[k], before[k], styles.view()),
                forall|k: int| i <= k < self.sections@.len() ==> #[trigger] self.sections@[k] == before[k],
                self.err == old(self).err,
                self.spinner == old(self).spinner,
                self.filter_input == old(self).filter_input,
                self.view_state == old(self).view_state,
                self.filter_state == old(self).filter_state,
                self.show_full_help == old(self).show_full_help,
                self.show_status_message == old(self).show_status_message,
                self.status_message == old(self).status_message,
                self.section_index == old(self).section_index,
                self.loaded == old(self).loaded,
                self.markdowns == old(self).markdowns,
                self.filtered_markdowns == old(self).filtered_markdowns,
            decreases self.sections@.len() - i,
        {
            let mut sec = self.sections[i].copy();
            sec.paginator.active_dot = styles.bright_gray_fg.render("•");
            sec.paginator.inactive_dot = styles.dark_gray_fg.render("•");
            self.sections.set(i, sec);
            i += 1;
        }
    }

    /// Whether the document search has finished.
    pub fn loading_done(&self) -> (r: bool)
        ensures
            r == self.loaded,
    {
        self.loaded
    }

    /// The section being looked at.
    pub fn current_section(&self) -> (r: &Section)
        requires
            has_section(self),
        ensures
            *r == cur(self),
    {
        &self.sections[self.section_index]
    }

    /// The current section's pagination.
    pub fn paginator(&self) -> (r: &paginator::Model)
        requires
            has_section(self),
        ensures
            *r == cur(self).paginator,
    {
        &self.sections[self.section_index].paginator
    }

    /// The selected row on the current page.
    pub fn cursor(&self) -> (r: i64)
        requires
            has_section(self),
        ensures
            r == cur(self).cursor,
    {
        self.sections[self.section_index].cursor
    }

    /// Selects a row on the current page.
    pub fn set_cursor(&mut self, i: i64)
        requires
            has_section(old(self)),
        ensures
            final(self).sections@ == old(self).sections@.update(
                old(self).section_index as int,
                Section { cursor: i, ..cur(old(self)) },
            ),
            final(self).section_index == old(self).section_index,
            final(self).markdowns == old(self).markdowns,
            final(self).filtered_markdowns == old(self).filtered_markdowns,
            final(self).filter_state == old(self).filter_state,
            final(self).filter_input == old(self).filter_input,
            final(self).show_full_help == old(self).show_full_help,
            final(self).err == old(self).err,
            final(self).view_state == old(self).view_state,
            final(self).loaded == old(self).loaded,
            final(self).show_status_message == old(self).show_status_message,
            final(self).status_message == old(self).status_message,
            final(self).spinner == old(self).spinner,
    {
        let k = self.section_index;
        let mut sec = self.sections[k].copy();
        sec.cursor = i;
        self.sections.set(k, sec);
    }

    /// Replaces the current section's pagination.
    fn set_paginator(&mut self, p: paginator::Model)
        requires
            has_section(old(self)),
        ensures
            final(self).sections@ == old(self).sections@.update(
                old(self).section_index as int,
                Section { paginator: p, ..cur(old(self)) },
            ),
            final(self).section_index == old(self).section_index,
            final(self).markdowns == old(self).markdowns,
            final(self).filtered_markdowns == old(self).filtered_markdowns,
            final(self).filter_state == old(self).filter_state,
            final(self).filter_input == old(self).filter_input,
            final(self).show_full_help == old(self).show_full_help,
            final(self).err == old(self).err,
            final(self).view_state == old(self).view_state,
            final(self).loaded == old(self).loaded,
            final(self).show_status_message == old(self).show_status_message,
            final(self).status_message == old(self).status_message,
            final(self).spinner == old(self).spinner,
    {
        let k = self.section_index;
        let mut sec = self.sections[k].copy();
        sec.paginator = p;
        self.sections.set(k, sec);
    }

    /// Whether the spinner should be animating: while the search runs, or
    /// while a document loads.
    pub fn should_spin(&self) -> (r: bool)
        ensures
            r == (!self.loaded || self.view_state == StashViewState::LoadingDocument),
    {
        !self.loading_done() || self.view_state == StashViewState::LoadingDocument
    }

    /// Whether a filter is in play.
    pub fn filter_applied(&self) -> (r: bool)
        ensures
            r == (self.filter_state != FilterState::Unfiltered),
    {
        self.filter_state != FilterState::Unfiltered
    }

    /// Whether the filter results need recomputing.
    pub fn should_update_filter(&self) -> (r: bool)
        ensures
            r == (self.filter_state != FilterState::Unfiltered),
    {
        self.filter_applied()
    }

    /// Hides the status message.
    pub fn hide_status_message(&mut self)
        ensures
            !final(self).show_status_message,
            final(self).status_message.status == StatusMessageType::Normal,
            final(self).status_message.message@.len() == 0,
            final(self).sections == old(self).sections,
            final(self).section_index == old(self).section_index,
            final(self).markdowns == old(self).markdowns,
            final(self).filtered_markdowns == old(self).filtered_markdowns,
            final(self).filter_state == old(self).filter_state,
            final(self).filter_input == old(self).filter_input,
            final(self).show_full_help == old(self).show_full_help,
            final(self).err == old(self).err,
            final(self).view_state == old(self).view_state,
            final(self).loaded == old(self).loaded,
            final(self).spinner == old(self).spinner,
    {
        self.show_status_message = false;
        self.status_message = StatusMessage::default();
    }

    /// How many documents pagination counts.
    pub fn visible_count(&self) -> (r: usize)
        requires
            has_section(self),
        ensures
            r == visible_count_spec(self),
    {
        if self.filter_state == FilterState::Filtering || self.sections[self.section_index].key == SectionKey::Filter {
            return self.filtered_markdowns.len();
        }
        self.markdowns.len()
    }

    /// The documents that should currently be shown: the filter's results
    /// while filtering or in the filter's section, else every document.
    pub fn visible_markdowns(&self) -> (r: Vec<&Markdown>)
        requires
            has_section(self),
        ensures
            r@.len() == visible_spec(self).len(),
            forall|i: int| 0 <= i < r@.len() ==> *#[trigger] r@[i] == visible_spec(self)[i],
    {
        let mut out: Vec<&Markdown> = Vec::new();
        if self.filter_state == FilterState::Filtering || self.sections[self.section_index].key == SectionKey::Filter {
            let mut k: usize = 0;
            while k < self.filtered_markdowns.len()
                invariant
                    k <= self.filtered_markdowns@.len(),
                    shows_filter(self),
                    out@.len() == picked(self.markdowns@, self.filtered_markdowns@, k as int).len(),
                    forall|i: int| 0 <= i < out@.len() ==> *#[trigger] out@[i] == picked(self.markdowns@, self.filtered_markdowns@, k as int)[i],
                decreases self.filtered_markdowns@.len() - k,
            {
                let idx = self.filtered_markdowns[k];
                if idx < self.markdowns.len() {
                    out.push(&self.markdowns[idx]);
                }
                k += 1;
            }
            return out;
        }
        let mut k: usize = 0;
        while k < self.markdowns.len()
            invariant
                k <= self.markdowns@.len(),
                !shows_filter(self),
                out@.len() == k,
                forall|i: int| 0 <= i < k ==> *#[trigger] out@[i] == self.markdowns@[i],
            decreases self.markdowns@.len() - k,
        {
            out.push(&self.markdowns[k]);
            k += 1;
        }
        out
    }

    /// The index, among the visible documents, of the selected row.
    pub fn markdown_index(&self) -> (r: i64)
        requires
            has_section(self),
            i64::MIN <= markdown_index_spec(self) <= i64::MAX,
            cur(self).paginator.page * cur(self).paginator.per_page <= i64::MAX,
            cur(self).paginator.page * cur(self).paginator.per_page <= usize::MAX,
        ensures
            r == markdown_index_spec(self),
    {
        let p = self.paginator();
        (p.page * p.per_page) as i64 + self.cursor()
    }
}

/// Whether `a` and `b` agree on everything but their sections.
pub open spec fn same_but_sections(a: &StashModel, b: &StashModel) -> bool {
    &&& a.err == b.err
    &&& a.spinner == b.spinner
    &&& a.filter_input == b.filter_input
    &&& a.view_state == b.view_state
    &&& a.filter_state == b.filter_state
    &&& a.show_full_help == b.show_full_help
    &&& a.show_status_message == b.show_status_message
    &&& a.status_message == b.status_message
    &&& a.section_index == b.section_index
    &&& a.loaded == b.loaded
    &&& a.markdowns == b.markdowns
    &&& a.filtered_markdowns == b.filtered_markdowns
}

/// Items per page for a terminal `height` tall under a help `help_height`
/// tall: the rows the padding and the help leave, an item to every three,
/// and at least one.
pub open spec fn per_page_for(height: int, help_height: int) -> int {
    let available = height - STASH_VIEW_TOP_PADDING - help_height - STASH_VIEW_BOTTOM_PADDING;
    if available >= STASH_VIEW_ITEM_HEIGHT {
        available / (STASH_VIEW_ITEM_HEIGHT as int)
    } else {
        1
    }
}

/// `p` repaginated for `visible` items at `per_page` a page: at least one
/// page, and the page pulled back to the last one when past it.
pub open spec fn repaged(p: paginator::Model, per_page: int, visible: int) -> paginator::Model {
    let total = if visible < 1 {
        1
    } else {
        pages_for(visible, per_page)
    };
    paginator::Model {
        per_page: per_page as usize,
        total_pages: total as usize,
        page: if p.page + 1 >= total {
            (total - 1) as usize
        } else {
            p.page
        },
        ..p
    }
}

/// The sections after pagination is recomputed for section `idx`, given
/// the rest of the listing's state: the help is laid out first, and the
/// rows it leaves decide the page size.
pub open spec fn paginate(
    st: StylesView,
    width: int,
    height: int,
    full: bool,
    fs: FilterState,
    has_err: bool,
    sections: Seq<Section>,
    idx: int,
    mds: Seq<Markdown>,
    filtered: Seq<usize>,
) -> Seq<Section> {
    let sec = sections[idx];
    let docs = shown(fs, sec.key, mds, filtered).len() as int;
    let visible = counted(fs, sec.key, mds.len() as int, filtered.len() as int);
    let help_height = stash_help(st, width, full, fs, docs, sections.len() as int, sec.paginator.total_pages as int, has_err).1;
    sections.update(
        idx,
        Section { paginator: repaged(sec.paginator, per_page_for(height, help_height), visible), ..sec },
    )
}

/// The sections without a trailing filter section.
pub open spec fn without_filter(sections: Seq<Section>) -> Seq<Section> {
    if sections.len() > 0 && sections.last().key == SectionKey::Filter {
        sections.drop_last()
    } else {
        sections
    }
}

/// Section `s` after the selection moves up: a row up, or the last row of
/// the page before from the top of a page, or the first row of the first
/// page.
pub open spec fn cursor_up(s: Section, visible: int) -> Section {
    let c = s.cursor - 1;
    if c >= 0 {
        Section { cursor: c as i64, ..s }
    } else if s.paginator.page == 0 {
        Section { cursor: 0, ..s }
    } else {
        let p = paginator::Model { page: (s.paginator.page - 1) as usize, ..s.paginator };
        Section { paginator: p, cursor: (items_spec(p, visible) - 1) as i64, ..s }
    }
}

/// Section `s` after the selection moves down: a row down, or the first
/// row of the next page from the end of a page. On the last page, a
/// cursor that overshot the page goes to the top, and one at its end
/// stays on the last row.
pub open spec fn cursor_down(s: Section, visible: int) -> Section {
    let items = items_spec(s.paginator, visible);
    let c = s.cursor + 1;
    if c < items {
        Section { cursor: c as i64, ..s }
    } else if s.paginator.page + 1 != s.paginator.total_pages {
        Section { paginator: paginator::Model { page: (s.paginator.page + 1) as usize, ..s.paginator }, cursor: 0, ..s }
    } else if c > items {
        Section { cursor: 0, ..s }
    } else {
        Section { cursor: (items - 1) as i64, ..s }
    }
}

/// Which items of `haystack` a highlight marks: character `i` is drawn
/// with `matched` when `idx` holds `i`, else with `plain`.
pub open spec fn highlight(haystack: Seq<char>, idx: Seq<int>, plain: StyleModel, matched: StyleModel) -> Seq<char>
    decreases haystack.len(),
{
    if haystack.len() == 0 {
        Seq::empty()
    } else {
        let i = haystack.len() - 1;
        let style = if idx.contains(i) {
            matched
        } else {
            plain
        };
        highlight(haystack.drop_last(), idx, plain, matched) + render_spec(style, seq![haystack[i]])
    }
}

/// `haystack` with the characters `needles` matches in its normalised form
/// highlighted; drawn plain throughout when nothing matches.
pub open spec fn filtered_text_spec(haystack: Seq<char>, needles: Seq<char>, plain: StyleModel, matched: StyleModel) -> Seq<char> {
    let norm = normalize_spec(haystack);
    let found = if measurable(norm) && match_fits(needles, norm) {
        sort_desc(find_spec(needles, seq![norm], 1))
    } else {
        Seq::empty()
    };
    if found.len() == 0 {
        render_spec(plain, haystack)
    } else {
        highlight(haystack, found[0].matched_indexes, plain, matched)
    }
}

/// Whether `s` is small enough for the matcher's byte offsets.
fn fits_matcher(s: &str) -> (r: bool)
    ensures
        r == measurable(s@),
{
    let v = chars_of(s);
    let mut total: u128 = 0;
    let mut i: usize = 0;
    while i < v.len()
        invariant
            i <= v.len(),
            v@ == s@,
            total == byte_off(v@, i as int),
            total < 0x1000_0000_0000_0000,
        decreases v.len() - i,
    {
        total = total + utf8_len_exec(v[i]) as u128;
        i += 1;
        if total >= 0x1000_0000_0000_0000 {
            proof {
                lemma_byte_off_mono(v@, i as int, v@.len() as int);
            }
            return false;
        }
    }
    total <= usize::MAX as u128
}

/// Whether `v` holds `x`.
fn holds_index(v: &Vec<usize>, x: usize) -> (r: bool)
    ensures
        r == v@.map_values(|i: usize| i as int).contains(x as int),
{
    let ghost w = v@.map_values(|i: usize| i as int);
    let mut i: usize = 0;
    while i < v.len()
        invariant
            i <= v.len(),
            w == v@.map_values(|i: usize| i as int),
            forall|k: int| 0 <= k < i ==> w[k] != x,
        decreases v.len() - i,
    {
        if v[i] == x {
            assert(w[i as int] == x);
            return true;
        }
        i += 1;
    }
    false
}

/// The values the filter matches the documents by.
pub open spec fn filter_values(mds: Seq<Markdown>) -> Seq<Seq<char>> {
    mds.map_values(|d: Markdown| d.filter_value@)
}

/// The documents the filter selects, as indexes: all of them in order when
/// no filter is applied or the query is empty, else the matches of the
/// query, best first.
pub open spec fn filtered_indexes_spec(query: Seq<char>, applied: bool, values: Seq<Seq<char>>) -> Seq<int> {
    if query.len() == 0 || !applied {
        Seq::new(values.len(), |i: int| i)
    } else {
        sort_desc(find_spec(query, values, values.len() as int)).map_values(|v: MatchView| v.index)
    }
}

/// Runs the filter over every document: the indexes it selects.
pub fn filter_markdowns(m: &StashModel) -> (r: Vec<usize>)
    requires
        forall|i: int| 0 <= i < m.markdowns@.len() ==> measurable(#[trigger] m.markdowns@[i].filter_value@),
        (m.filter_input.state().value.len() > 0 && m.filter_state != FilterState::Unfiltered) ==> forall|i: int|
            0 <= i < m.markdowns@.len() ==> match_fits(
                m.filter_input.state().value,
                #[trigger] m.markdowns@[i].filter_value@,
            ),
    ensures
        r@.map_values(|i: usize| i as int) == filtered_indexes_spec(
            m.filter_input.state().value,
            m.filter_state != FilterState::Unfiltered,
            filter_values(m.markdowns@),
        ),
{
    let query = m.filter_input.value();
    let applied = m.filter_applied();
    let count = m.markdowns.len();
    let ghost values = filter_values(m.markdowns@);
    let mut out: Vec<usize> = Vec::new();
    if query.as_str().is_empty() || !applied {
        let mut i: usize = 0;
        while i < count
            invariant
                i <= count,
                count == values.len(),
                out@.map_values(|k: usize| k as int) == Seq::new(i as nat, |k: int| k),
            decreases count - i,
        {
            let ghost before = out@.map_values(|k: usize| k as int);
            out.push(i);
            assert(out@.map_values(|k: usize| k as int) =~= before.push(i as int));
            assert(Seq::new((i + 1) as nat, |k: int| k) =~= Seq::new(i as nat, |k: int| k).push(i as int));
            i += 1;
        }
        proof {
            if query@.len() > 0 {
                assert(!applied);
            }
        }
        return out;
    }
    let mut targets: Vec<String> = Vec::new();
    let mut t: usize = 0;
    while t < count
        invariant
            t <= count,
            count == m.markdowns@.len(),
            values == filter_values(m.markdowns@),
            targets@.map_values(|s: String| s@) == values.take(t as int),
        decreases count - t,
    {
        let ghost before = targets@.map_values(|s: String| s@);
        let v = m.markdowns[t].filter_value.clone();
        assert(v@ == values[t as int]);
        targets.push(v);
        assert(targets@.map_values(|s: String| s@) =~= before.push(values[t as int]));
        assert(values.take(t + 1) =~= values.take(t as int).push(values[t as int]));
        t += 1;
    }
    assert(values.take(t as int) =~= values);
    assert(query@.len() > 0);
    assert forall|i: int| 0 <= i < targets@.len() implies #[trigger] targets@[i]@ == m.markdowns@[i].filter_value@ by {
        assert(targets@.map_values(|s: String| s@)[i] == targets@[i]@);
        assert(values[i] == m.markdowns@[i].filter_value@);
    }
    let ranks = find(query.as_str(), targets.as_slice());
    let ghost rv = ranks@.map_values(|x: Match| x@);
    let mut j: usize = 0;
    while j < ranks.len()
        invariant
            j <= ranks.len(),
            rv == ranks@.map_values(|x: Match| x@),
            out@.map_values(|k: usize| k as int) == rv.take(j as int).map_values(|v: MatchView| v.index),
        decreases ranks.len() - j,
    {
        let ghost before = out@.map_values(|k: usize| k as int);
        out.push(ranks[j].index);
        assert(rv[j as int] == ranks@[j as int]@);
        assert(out@.map_values(|k: usize| k as int) =~= before.push(rv[j as int].index));
        assert(rv.take(j + 1).map_values(|v: MatchView| v.index) =~= rv.take(j as int).map_values(
            |v: MatchView| v.index,
        ).push(rv[j as int].index));
        j += 1;
    }
    assert(rv.take(j as int) =~= rv);
    out
}

/// Runs the filter as [`filter_markdowns`] does, or gives `None` where a
/// document's text is too long for the matcher or its score would leave `i64`.
pub fn try_filter_markdowns(m: &StashModel) -> (r: Option<Vec<usize>>)
    ensures
        r is Some <==> ((forall|i: int| 0 <= i < m.markdowns@.len() ==> measurable(#[trigger] m.markdowns@[i].filter_value@))
            && ((m.filter_input.state().value.len() > 0 && m.filter_state != FilterState::Unfiltered) ==> forall|i: int|
            0 <= i < m.markdowns@.len() ==> match_fits(
                m.filter_input.state().value,
                #[trigger] m.markdowns@[i].filter_value@,
            ))),
        r matches Some(v) ==> v@.map_values(|i: usize| i as int) == filtered_indexes_spec(
            m.filter_input.state().value,
            m.filter_state != FilterState::Unfiltered,
            filter_values(m.markdowns@),
        ),
{
    let count = m.markdowns.len();
    let mut targets: Vec<String> = Vec::new();
    let mut t: usize = 0;
    while t < count
        invariant
            t <= count,
            count == m.markdowns@.len(),
            targets@.len() == t,
            forall|i: int| 0 <= i < t ==> #[trigger] targets@[i]@ == m.markdowns@[i].filter_value@,
            forall|i: int| 0 <= i < t ==> measurable(#[trigger] m.markdowns@[i].filter_value@),
        decreases count - t,
    {
        let v = m.markdowns[t].filter_value.clone();
        if !fits_matcher(v.as_str()) {
            return None;
        }
        targets.push(v);
        t += 1;
    }
    let query = m.filter_input.value();
    if query.as_str().is_empty() || !m.filter_applied() {
        return Some(filter_markdowns(m));
    }
    let found = try_find(query.as_str(), targets.as_slice());
    proof {
        assert(targets@.len() == m.markdowns@.len());
        assert forall|i: int| 0 <= i < m.markdowns@.len() implies match_fits(
            m.filter_input.state().value,
            #[trigger] m.markdowns@[i].filter_value@,
        ) == match_fits(query@, targets@[i]@) by {
            assert(targets@[i]@ == m.markdowns@[i].filter_value@);
        }
        if found is None {
            let i = choose|i: int| 0 <= i < targets@.len() && !match_fits(query@, #[trigger] targets@[i]@);
            assert(!match_fits(m.filter_input.state().value, m.markdowns@[i].filter_value@));
        }
    }
    match found {
        Some(_) => Some(filter_markdowns(m)),
        None => None,
    }
}

/// Highlights the characters of `haystack` that `needles` matched.
pub fn style_filtered_text(haystack: &str, needles: &str, plain: &Style, matched: &Style) -> (r: String)
    requires
        geometry_ok(plain@),
        geometry_ok(matched@),
    ensures
        r@ == filtered_text_spec(haystack@, needles@, plain@, matched@),
{
    let norm = normalize(haystack);
    let found: Vec<Match> = if fits_matcher(norm.as_str()) {
        let mut data: Vec<String> = Vec::new();
        data.push(norm);
        assert(data@.map_values(|s: String| s@) =~= seq![normalize_spec(haystack@)]);
        assert(data@[0]@ == normalize_spec(haystack@));
        match try_find(needles, data.as_slice()) {
            Some(v) => v,
            None => Vec::new(),
        }
    } else {
        Vec::new()
    };
    assert(found@.map_values(|m: Match| m@).len() == found@.len());
    if found.len() == 0 {
        return plain.render(haystack);
    }
    let ghost idx = found@.map_values(|m: Match| m@)[0].matched_indexes;
    assert(found@[0]@.matched_indexes == idx);
    let hv = chars_of(haystack);
    let mut out: Vec<char> = Vec::new();
    let mut i: usize = 0;
    while i < hv.len()
        invariant
            i <= hv.len(),
            hv@ == haystack@,
            found@.len() > 0,
            idx == found@[0]@.matched_indexes,
            geometry_ok(plain@),
            geometry_ok(matched@),
            out@ == highlight(hv@.take(i as int), idx, plain@, matched@),
        decreases hv.len() - i,
    {
        let mut one: Vec<char> = Vec::new();
        one.push(hv[i]);
        let hit = holds_index(&found[0].matched_indexes, i);
        let drawn = if hit {
            matched.render_chars(&one)
        } else {
            plain.render_chars(&one)
        };
        extend_chars(&mut out, &drawn);
        proof {
            let t = hv@.take(i + 1);
            assert(t.drop_last() =~= hv@.take(i as int));
            assert(one@ =~= seq![t[i as int]]);
        }
        i += 1;
    }
    assert(hv@.take(i as int) =~= haystack@);
    string_of(&out)
}

impl StashModel {
    /// Recomputes the current section's pagination: items per page from
    /// the rows left under the help, at least one page, and the page kept
    /// in bounds.
    pub fn update_pagination(&mut self, common: &CommonModel)
        requires
            has_section(old(self)),
            styles_ok(common.styles.view()),
        ensures
            final(self).sections@ == paginate(
                common.styles.view(),
                common.width as int,
                common.height as int,
                old(self).show_full_help,
                old(self).filter_state,
                old(self).err is Some,
                old(self).sections@,
                old(self).section_index as int,
                old(self).markdowns@,
                old(self).filtered_markdowns@,
            ),
            same_but_sections(final(self), old(self)),
    {
        let (_, help_height) = self.help_view(common);
        let available: i128 = common.height as i128 - STASH_VIEW_TOP_PADDING as i128 - help_height as i128
            - STASH_VIEW_BOTTOM_PADDING as i128;
        let per_page: usize = if available >= STASH_VIEW_ITEM_HEIGHT as i128 {
            (available / STASH_VIEW_ITEM_HEIGHT as i128) as usize
        } else {
            1
        };
        assert(per_page == per_page_for(common.height as int, help_height as int));
        let visible = self.visible_count();
        let mut p = self.paginator().copy();
        p.per_page = per_page;
        if visible < 1 {
            p.total_pages = 1;
        } else {
            p.set_total_pages(visible);
            assert(pages_for(visible as int, per_page as int) >= 1) by (nonlinear_arith)
                requires
                    visible >= 1,
                    per_page >= 1,
            ;
        }
        if p.page >= p.total_pages - 1 {
            p.page = p.total_pages - 1;
        }
        proof {
            let sec = cur(self);
            assert(p == repaged(sec.paginator, per_page as int, visible as int));
        }
        self.set_paginator(p);
    }

    /// Resizes the listing: the terminal size is recorded, the filter input
    /// is windowed to the width left beside the padding and its prompt, and
    /// pagination is recomputed.
    pub fn set_size(&mut self, common: &mut CommonModel, width: usize, height: usize)
        requires
            has_section(old(self)),
            cursor_ok(old(self).filter_input.state()),
            styles_ok(old(common).styles.view()),
            width <= i64::MAX,
            sw(old(self).filter_input.prompt_view()) <= i64::MAX,
            width - 2 * STASH_VIEW_HORIZONTAL_PADDING - sw(old(self).filter_input.prompt_view()) >= i64::MIN,
        ensures
            *final(common) == (CommonModel { width, height, ..*old(common) }),
            final(self).filter_input.state() == overflow(
                TextState {
                    width: if width - 2 * STASH_VIEW_HORIZONTAL_PADDING - sw(old(self).filter_input.prompt_view()) > 0 {
                        width - 2 * STASH_VIEW_HORIZONTAL_PADDING - sw(old(self).filter_input.prompt_view())
                    } else {
                        0
                    },
                    ..old(self).filter_input.state()
                },
            ),
            cursor_ok(final(self).filter_input.state()),
            final(self).filter_input.prompt_view() == old(self).filter_input.prompt_view(),
            final(self).filter_input.styles_view() == old(self).filter_input.styles_view(),
            final(self).sections@ == paginate(
                old(common).styles.view(),
                width as int,
                height as int,
                old(self).show_full_help,
                old(self).filter_state,
                old(self).err is Some,
                old(self).sections@,
                old(self).section_index as int,
                old(self).markdowns@,
                old(self).filtered_markdowns@,
            ),
            final(self).err == old(self).err,
            final(self).spinner == old(self).spinner,
            final(self).view_state == old(self).view_state,
            final(self).filter_state == old(self).filter_state,
            final(self).show_full_help == old(self).show_full_help,
            final(self).show_status_message == old(self).show_status_message,
            final(self).status_message == old(self).status_message,
            final(self).section_index == old(self).section_index,
            final(self).loaded == old(self).loaded,
            final(self).markdowns == old(self).markdowns,
            final(self).filtered_markdowns == old(self).filtered_markdowns,
    {
        common.width = width;
        common.height = height;
        let prompt_width = self.filter_input.prompt_width();
        let w: i64 = width as i64 - (STASH_VIEW_HORIZONTAL_PADDING * 2) as i64 - prompt_width as i64;
        self.filter_input.set_width(w);
        self.update_pagination(common);
    }

    /// Drops the filter and the section it created: the input is emptied,
    /// the documents sorted again, a trailing filter section removed, the
    /// section index kept in range, and pagination recomputed.
    pub fn reset_filtering(&mut self, common: &CommonModel)
        requires
            has_section(old(self)),
            without_filter(old(self).sections@).len() > 0,
            styles_ok(common.styles.view()),
        ensures
            final(self).filter_state == FilterState::Unfiltered,
            final(self).filter_input.state() == set_cursor_spec(
                TextState { value: Seq::empty(), ..old(self).filter_input.state() },
                0,
            ),
            cursor_ok(final(self).filter_input.state()),
            final(self).filter_input.prompt_view() == old(self).filter_input.prompt_view(),
            final(self).filter_input.styles_view() == old(self).filter_input.styles_view(),
            final(self).filtered_markdowns@.len() == 0,
            final(self).markdowns@ == sort_by_note(old(self).markdowns@),
            final(self).section_index == (if old(self).section_index >= without_filter(old(self).sections@).len() {
                0
            } else {
                old(self).section_index
            }),
            final(self).sections@ == paginate(
                common.styles.view(),
                common.width as int,
                common.height as int,
                old(self).show_full_help,
                FilterState::Unfiltered,
                old(self).err is Some,
                without_filter(old(self).sections@),
                final(self).section_index as int,
                sort_by_note(old(self).markdowns@),
                Seq::empty(),
            ),
            final(self).err == old(self).err,
            final(self).spinner == old(self).spinner,
            final(self).view_state == old(self).view_state,
            final(self).show_full_help == old(self).show_full_help,
            final(self).show_status_message == old(self).show_status_message,
            final(self).status_message == old(self).status_message,
            final(self).loaded == old(self).loaded,
    {
        self.filter_state = FilterState::Unfiltered;
        self.filter_input.reset();
        self.filtered_markdowns.clear();
        sort_markdowns(&mut self.markdowns);
        let n = self.sections.len();
        if n > 0 && self.sections[n - 1].key == SectionKey::Filter {
            self.sections.pop();
        }
        assert(self.sections@ =~= without_filter(old(self).sections@));
        if self.section_index > self.sections.len() - 1 {
            self.section_index = 0;
        }
        assert(self.filtered_markdowns@ =~= Seq::<usize>::empty());
        self.update_pagination(common);
    }

    /// The selected document, if the selection is on one.
    pub fn selected_markdown(&self) -> (r: Option<&Markdown>)
        requires
            has_section(self),
            i64::MIN <= markdown_index_spec(self) <= i64::MAX,
            cur(self).paginator.page * cur(self).paginator.per_page <= i64::MAX,
            cur(self).paginator.page * cur(self).paginator.per_page <= usize::MAX,
        ensures
            match r {
                Some(md) => 0 <= markdown_index_spec(self) < visible_spec(self).len() && *md
                    == visible_spec(self)[markdown_index_spec(self)],
                None => !(0 <= markdown_index_spec(self) < visible_spec(self).len()),
            },
    {
        let i = self.markdown_index();
        let visible = self.visible_markdowns();
        if i < 0 || visible.len() == 0 || visible.len() as i128 <= i as i128 {
            return None;
        }
        let md: &Markdown = visible[i as usize];
        Some(md)
    }

    /// Adds documents to the listing, sorting them all again unless a
    /// filter is in play, and recomputes pagination; no documents, no
    /// change.
    pub fn add_markdowns(&mut self, common: &CommonModel, mds: Vec<Markdown>)
        requires
            has_section(old(self)),
            styles_ok(common.styles.view()),
        ensures
            mds@.len() == 0 ==> *final(self) == *old(self),
            mds@.len() > 0 ==> {
                &&& final(self).markdowns@ == if old(self).filter_state == FilterState::Unfiltered {
                    sort_by_note(old(self).markdowns@ + mds@)
                } else {
                    old(self).markdowns@ + mds@
                }
                &&& final(self).sections@ == paginate(
                    common.styles.view(),
                    common.width as int,
                    common.height as int,
                    old(self).show_full_help,
                    old(self).filter_state,
                    old(self).err is Some,
                    old(self).sections@,
                    old(self).section_index as int,
                    final(self).markdowns@,
                    old(self).filtered_markdowns@,
                )
                &&& final(self).err == old(self).err
                &&& final(self).spinner == old(self).spinner
                &&& final(self).filter_input == old(self).filter_input
                &&& final(self).view_state == old(self).view_state
                &&& final(self).filter_state == old(self).filter_state
                &&& final(self).show_full_help == old(self).show_full_help
                &&& final(self).show_status_message == old(self).show_status_message
                &&& final(self).status_message == old(self).status_message
                &&& final(self).section_index == old(self).section_index
                &&& final(self).loaded == old(self).loaded
                &&& final(self).filtered_markdowns == old(self).filtered_markdowns
            },
    {
        if mds.len() == 0 {
            return;
        }
        let mut mds = mds;
        self.markdowns.append(&mut mds);
        if !self.filter_applied() {
            sort_markdowns(&mut self.markdowns);
        }
        self.update_pagination(common);
    }

    /// Moves the selection up a row, paging back at the top of a page.
    pub fn move_cursor_up(&mut self)
        requires
            has_section(old(self)),
            cur(old(self)).cursor > i64::MIN,
            cur(old(self)).paginator.page * cur(old(self)).paginator.per_page + cur(old(self)).paginator.per_page
                <= usize::MAX,
            visible_count_spec(old(self)) <= i64::MAX,
        ensures
            final(self).sections@ == old(self).sections@.update(
                old(self).section_index as int,
                cursor_up(cur(old(self)), visible_count_spec(old(self))),
            ),
            same_but_sections(final(self), old(self)),
    {
        let c = self.cursor() - 1;
        self.set_cursor(c);
        if c < 0 && self.paginator().page == 0 {
            self.set_cursor(0);
            return;
        }
        if c >= 0 {
            return;
        }
        let ghost page0 = cur(old(self)).paginator.page;
        let ghost per_page0 = cur(old(self)).paginator.per_page;
        let mut p = self.paginator().copy();
        p.prev_page();
        assert(p.page * p.per_page + p.per_page <= usize::MAX) by (nonlinear_arith)
            requires
                p.page < page0,
                p.per_page == per_page0,
                page0 * per_page0 + per_page0 <= usize::MAX,
        ;
        let items = p.items_on_page(self.visible_count()) as i64;
        self.set_paginator(p);
        self.set_cursor(items - 1);
    }

    /// Moves the selection down a row, paging forward at the end of a page.
    pub fn move_cursor_down(&mut self)
        requires
            has_section(old(self)),
            cur(old(self)).cursor < i64::MAX,
            cur(old(self)).paginator.page + 1 < usize::MAX,
            cur(old(self)).paginator.page * cur(old(self)).paginator.per_page + cur(old(self)).paginator.per_page
                <= usize::MAX,
            visible_count_spec(old(self)) <= i64::MAX,
        ensures
            final(self).sections@ == old(self).sections@.update(
                old(self).section_index as int,
                cursor_down(cur(old(self)), visible_count_spec(old(self))),
            ),
            same_but_sections(final(self), old(self)),
    {
        let items = self.paginator().items_on_page(self.visible_count()) as i64;
        let c = self.cursor() + 1;
        self.set_cursor(c);
        if c < items {
            return;
        }
        if !self.paginator().on_last_page() {
            let mut p = self.paginator().copy();
            p.next_page();
            self.set_paginator(p);
            self.set_cursor(0);
            return;
        }
        if c > items {
            self.set_cursor(0);
            return;
        }
        self.set_cursor(items - 1);
    }
}

/// What pagination keeps: at least one item a page, at least one page,
/// the current page among them, and room on them for every counted
/// document.
pub open spec fn pages_ok(p: paginator::Model, visible: int) -> bool {
    &&& p.per_page >= 1
    &&& p.total_pages >= 1
    &&& p.page < p.total_pages
    &&& p.total_pages * p.per_page >= visible
}

/// Pages for at least one item: at least one, no more than the items, and
/// room on them for every item.
proof fn lemma_pages_for(per_page: int, visible: int)
    requires
        per_page >= 1,
        visible >= 1,
    ensures
        pages_for(visible, per_page) * per_page >= visible,
        1 <= pages_for(visible, per_page) <= visible,
{
    let q = visible / per_page;
    let r = visible % per_page;
    assert(visible == q * per_page + r && 0 <= r < per_page && q >= 0) by (nonlinear_arith)
        requires
            per_page >= 1,
            visible >= 1,
            q == visible / per_page,
            r == visible % per_page,
    ;
    assert(pages_for(visible, per_page) * per_page >= visible) by (nonlinear_arith)
        requires
            visible == q * per_page + r,
            0 <= r < per_page,
            pages_for(visible, per_page) == q + if r > 0 { 1int } else { 0int },
    ;
    assert(1 <= pages_for(visible, per_page) <= visible) by (nonlinear_arith)
        requires
            visible == q * per_page + r,
            0 <= r < per_page,
            per_page >= 1,
            q >= 0,
            visible >= 1,
            pages_for(visible, per_page) == q + if r > 0 { 1int } else { 0int },
    ;
}

/// A page before the last starts before the last item.
proof fn lemma_page_starts_inside(page: int, per_page: int, visible: int)
    requires
        per_page >= 1,
        visible >= 1,
        0 <= page < pages_for(visible, per_page),
    ensures
        page * per_page < visible,
{
    let q = visible / per_page;
    let r = visible % per_page;
    assert(visible == q * per_page + r && 0 <= r < per_page && q >= 0) by (nonlinear_arith)
        requires
            per_page >= 1,
            visible >= 1,
            q == visible / per_page,
            r == visible % per_page,
    ;
    if page < q {
        assert(page * per_page < visible) by (nonlinear_arith)
            requires
                0 <= page < q,
                per_page >= 1,
                visible == q * per_page + r,
                r >= 0,
        ;
    } else {
        assert(page == q && r > 0);
        assert(page * per_page < visible);
    }
}

/// Repaginating, for any page size and count, leaves the pagination in
/// bounds.
pub proof fn lemma_repaged_ok(p: paginator::Model, per_page: int, visible: int)
    requires
        1 <= per_page <= usize::MAX,
        0 <= visible <= usize::MAX,
    ensures
        pages_ok(repaged(p, per_page, visible), visible),
{
    if visible >= 1 {
        lemma_pages_for(per_page, visible);
    }
}

/// Whatever the terminal size, the help and the documents, recomputing
/// pagination leaves at least one item a page, at least one page, the
/// current page among them, and room on them for every counted document.
pub proof fn lemma_pagination_in_bounds(
    st: StylesView,
    width: int,
    height: int,
    full: bool,
    fs: FilterState,
    has_err: bool,
    sections: Seq<Section>,
    idx: int,
    mds: Seq<Markdown>,
    filtered: Seq<usize>,
)
    requires
        0 <= idx < sections.len(),
        0 <= height <= usize::MAX,
        mds.len() <= usize::MAX,
        filtered.len() <= usize::MAX,
    ensures
        paginate(st, width, height, full, fs, has_err, sections, idx, mds, filtered)[idx].paginator.per_page
            == per_page_for(
            height,
            stash_help(
                st,
                width,
                full,
                fs,
                shown(fs, sections[idx].key, mds, filtered).len() as int,
                sections.len() as int,
                sections[idx].paginator.total_pages as int,
                has_err,
            ).1,
        ),
        pages_ok(
            paginate(st, width, height, full, fs, has_err, sections, idx, mds, filtered)[idx].paginator,
            counted(fs, sections[idx].key, mds.len() as int, filtered.len() as int),
        ),
{
    let sec = sections[idx];
    let docs = shown(fs, sec.key, mds, filtered).len() as int;
    let help_height = stash_help(st, width, full, fs, docs, sections.len() as int, sec.paginator.total_pages as int, has_err).1;
    assert(help_height >= 1);
    let per_page = per_page_for(height, help_height);
    assert(1 <= per_page <= usize::MAX);
    lemma_repaged_ok(sec.paginator, per_page, counted(fs, sec.key, mds.len() as int, filtered.len() as int));
}

/// Whether the selection of section `s` is on one of the `visible`
/// documents of its page.
pub open spec fn on_a_document(s: Section, visible: int) -> bool {
    0 <= s.cursor < items_spec(s.paginator, visible)
}

/// Whether `p` is paginated exactly for `visible` documents.
pub open spec fn paged_for(p: paginator::Model, visible: int) -> bool {
    &&& p.per_page >= 1
    &&& p.total_pages == if visible < 1 {
        1
    } else {
        pages_for(visible, p.per_page as int)
    }
    &&& p.page < p.total_pages
}

/// Moving the selection up or down from a document of the page lands on
/// a document of the page it ends on, in a pagination made for the
/// documents counted.
pub proof fn lemma_cursor_stays_on_a_document(s: Section, visible: int)
    requires
        paged_for(s.paginator, visible),
        0 <= visible <= i64::MAX,
        on_a_document(s, visible),
    ensures
        on_a_document(cursor_up(s, visible), visible),
        paged_for(cursor_up(s, visible).paginator, visible),
        on_a_document(cursor_down(s, visible), visible),
        paged_for(cursor_down(s, visible).paginator, visible),
{
    let p = s.paginator;
    let pp = p.per_page as int;
    assert(visible >= 1);
    lemma_pages_for(pp, visible);
    lemma_page_starts_inside(p.page as int, pp, visible);
    assert(p.page * pp + pp > p.page * pp) by (nonlinear_arith)
        requires
            pp >= 1,
    ;
    if s.cursor == 0 && p.page > 0 {
        let q = paginator::Model { page: (p.page - 1) as usize, ..p };
        lemma_page_starts_inside(p.page - 1, pp, visible);
        assert((p.page - 1) * pp + pp == p.page * pp) by (nonlinear_arith);
        assert(items_spec(q, visible) == pp);
    }
    if s.cursor + 1 >= items_spec(p, visible) && p.page + 1 != p.total_pages {
        let q = paginator::Model { page: (p.page + 1) as usize, ..p };
        lemma_page_starts_inside(p.page + 1, pp, visible);
        assert((p.page + 1) * pp == p.page * pp + pp) by (nonlinear_arith);
        assert(items_spec(q, visible) >= 1);
    }
}

} // verus!
