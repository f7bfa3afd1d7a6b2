//! Pagination state and its dot and arabic renderings.
use vstd::prelude::*;
use crate::text::{chars_of, decimal, decimal_of, extend_chars, replace_first, replace_first_exec, string_of};

verus! {

broadcast use vstd::string::group_string_axioms;

/// How pagination is rendered.
#[derive(Debug, Clone, Copy, PartialEq, Eq)]
pub enum Type {
    /// `1/4`.
    Arabic,
    /// `•○○○`.
    Dots,
}

impl Default for Type {
    fn default() -> (r: Type)
        ensures
            r == Type::Arabic,
    {
        Type::Arabic
    }
}

/// The paginator model. Its defaults are zero values: no pages, no items
/// per page, and empty markers.
#[derive(Debug, Clone)]
pub struct Model {
    /// How to render.
    pub kind: Type,
    /// Current page, zero-based.
    pub page: usize,
    /// Items per page.
    pub per_page: usize,
    /// Number of pages.
    pub total_pages: usize,
    /// Marker for the current page in dot mode.
    pub active_dot: String,
    /// Marker for other pages in dot mode.
    pub inactive_dot: String,
    /// Format for arabic mode; empty means `%d/%d`.
    pub arabic_format: String,
}

impl Default for Model {
    fn default() -> (r: Model)
        ensures
            r.kind == Type::Arabic,
            r.page == 0,
            r.per_page == 0,
            r.total_pages == 0,
            r.active_dot@.len() == 0,
            r.inactive_dot@.len() == 0,
            r.arabic_format@.len() == 0,
    {
        Model {
            kind: Type::Arabic,
            page: 0,
            per_page: 0,
            total_pages: 0,
            active_dot: String::new(),
            inactive_dot: String::new(),
            arabic_format: String::new(),
        }
    }
}

/// The number of pages `items` fill at `per_page` a page.
pub open spec fn pages_for(items: int, per_page: int) -> int {
    items / per_page + if items % per_page > 0 { 1int } else { 0int }
}

/// The dots for the first `n` pages, the current one marked active.
pub open spec fn dots_spec(page: int, active: Seq<char>, inactive: Seq<char>, n: int) -> Seq<char>
    decreases n,
{
    if n <= 0 {
        Seq::empty()
    } else {
        dots_spec(page, active, inactive, n - 1) + if n - 1 == page {
            active
        } else {
            inactive
        }
    }
}

/// The pagination as rendered.
pub open spec fn view_spec(m: Model) -> Seq<char> {
    match m.kind {
        Type::Dots => dots_spec(m.page as int, m.active_dot@, m.inactive_dot@, m.total_pages as int),
        Type::Arabic => {
            let format = if m.arabic_format@.len() == 0 {
                seq!['%', 'd', '/', '%', 'd']
            } else {
                m.arabic_format@
            };
            replace_first(
                replace_first(format, seq!['%', 'd'], decimal((m.page + 1) as nat)),
                seq!['%', 'd'],
                decimal(m.total_pages as nat),
            )
        },
    }
}

/// How many of `total_items` the current page of `m` holds.
pub open spec fn items_spec(m: Model, total_items: int) -> int {
    if total_items < 1 {
        0
    } else {
        let start = m.page * m.per_page;
        let end = if start + m.per_page < total_items {
            start + m.per_page
        } else {
            total_items
        };
        if end > start {
            end - start
        } else {
            0
        }
    }
}

impl Model {
    /// A copy of this paginator.
    pub fn copy(&self) -> (r: Model)
        ensures
            r == *self,
    {
        Model {
            kind: self.kind,
            page: self.page,
            per_page: self.per_page,
            total_pages: self.total_pages,
            active_dot: self.active_dot.clone(),
            inactive_dot: self.inactive_dot.clone(),
            arabic_format: self.arabic_format.clone(),
        }
    }

    /// A paginator rendered as dots.
    pub fn dots() -> (r: Model)
        ensures
            r.kind == Type::Dots,
            r.page == 0,
            r.per_page == 0,
            r.total_pages == 0,
            r.active_dot@.len() == 0,
            r.inactive_dot@.len() == 0,
            r.arabic_format@.len() == 0,
    {
        Model { kind: Type::Dots, ..Model::default() }
    }

    /// Recomputes the page count from an item count, and returns it. With
    /// no items, or no items per page, the count is left as it was.
    pub fn set_total_pages(&mut self, items: usize) -> (r: usize)
        ensures
            r == final(self).total_pages,
            items < 1 || old(self).per_page == 0 ==> *final(self) == *old(self),
            items >= 1 && old(self).per_page > 0 ==> {
                &&& final(self).total_pages == pages_for(items as int, old(self).per_page as int)
                &&& final(self).page == old(self).page
                &&& final(self).per_page == old(self).per_page
                &&& final(self).kind == old(self).kind
                &&& final(self).active_dot == old(self).active_dot
                &&& final(self).inactive_dot == old(self).inactive_dot
                &&& final(self).arabic_format == old(self).arabic_format
            },
    {
        if items < 1 || self.per_page == 0 {
            return self.total_pages;
        }
        let mut n = items / self.per_page;
        if items % self.per_page > 0 {
            assert(items / self.per_page < items) by (nonlinear_arith)
                requires
                    self.per_page > 0,
                    items % self.per_page > 0,
            ;
            n += 1;
        }
        self.total_pages = n;
        n
    }

    /// How many items the current page holds out of `total_items`.
    pub fn items_on_page(&self, total_items: usize) -> (r: usize)
        requires
            self.page * self.per_page + self.per_page <= usize::MAX,
        ensures
            r == items_spec(*self, total_items as int),
    {
        if total_items < 1 {
            return 0;
        }
        let (start, end) = self.slice_bounds(total_items);
        if end > start {
            end - start
        } else {
            0
        }
    }

    /// The half-open range of items the current page covers, cut at
    /// `length`.
    pub fn slice_bounds(&self, length: usize) -> (r: (usize, usize))
        requires
            self.page * self.per_page + self.per_page <= usize::MAX,
        ensures
            r.0 == self.page * self.per_page,
            r.1 == if self.page * self.per_page + self.per_page < length {
                self.page * self.per_page + self.per_page
            } else {
                length as int
            },
    {
        assert(self.page * self.per_page <= usize::MAX) by (nonlinear_arith)
            requires
                self.page * self.per_page + self.per_page <= usize::MAX,
                self.per_page >= 0,
        ;
        let start = self.page * self.per_page;
        let full = start + self.per_page;
        let end = if full < length {
            full
        } else {
            length
        };
        (start, end)
    }

    /// Moves back one page, stopping at the first.
    pub fn prev_page(&mut self)
        ensures
            *final(self) == (Model { page: if old(self).page > 0 { (old(self).page - 1) as usize } else { 0 }, ..*old(self) }),
    {
        if self.page > 0 {
            self.page -= 1;
        }
    }

    /// Moves forward one page, stopping at the last.
    pub fn next_page(&mut self)
        requires
            old(self).page + 1 < usize::MAX,
        ensures
            *final(self) == (Model {
                page: if old(self).page + 1 == old(self).total_pages { old(self).page } else { (old(self).page + 1) as usize },
                ..*old(self)
            }),
    {
        if !self.on_last_page() {
            self.page += 1;
        }
    }

    /// Whether the current page is the last one.
    pub fn on_last_page(&self) -> (r: bool)
        requires
            self.page < usize::MAX,
        ensures
            r == (self.page + 1 == self.total_pages),
    {
        self.page + 1 == self.total_pages
    }

    /// Renders the pagination: a dot per page, or the page and the count.
    pub fn view(&self) -> (r: String)
        requires
            self.page < usize::MAX,
        ensures
            r@ == view_spec(*self),
    {
        match self.kind {
            Type::Dots => {
                let active = chars_of(self.active_dot.as_str());
                let inactive = chars_of(self.inactive_dot.as_str());
                let mut out: Vec<char> = Vec::new();
                let mut i: usize = 0;
                while i < self.total_pages
                    invariant
                        i <= self.total_pages,
                        self.kind == Type::Dots,
                        active@ == self.active_dot@,
                        inactive@ == self.inactive_dot@,
                        out@ == dots_spec(self.page as int, active@, inactive@, i as int),
                    decreases self.total_pages - i,
                {
                    if i == self.page {
                        extend_chars(&mut out, &active);
                    } else {
                        extend_chars(&mut out, &inactive);
                    }
                    i += 1;
                }
                string_of(&out)
            },
            Type::Arabic => {
                let given = chars_of(self.arabic_format.as_str());
                let format: Vec<char> = if given.len() == 0 {
                    let mut f: Vec<char> = Vec::new();
                    f.push('%');
                    f.push('d');
                    f.push('/');
                    f.push('%');
                    f.push('d');
                    f
                } else {
                    given
                };
                assert(format@ =~= (if self.arabic_format@.len() == 0 {
                    seq!['%', 'd', '/', '%', 'd']
                } else {
                    self.arabic_format@
                }));
                let mut pat: Vec<char> = Vec::new();
                pat.push('%');
                pat.push('d');
                assert(pat@ =~= seq!['%', 'd']);
                let first = decimal_of((self.page + 1) as u64);
                let second = decimal_of(self.total_pages as u64);
                let once = replace_first_exec(&format, &pat, &first);
                let twice = replace_first_exec(&once, &pat, &second);
                string_of(&twice)
            },
        }
    }
}

} // verus!
