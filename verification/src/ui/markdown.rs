//! A markdown document in the file listing: the value filtering matches it
//! against, and how long ago it was touched.
use vstd::prelude::*;
use unicode_normalization::UnicodeNormalization;
use unicode_properties::{GeneralCategory, UnicodeGeneralCategory};
use crate::deps::humanize::{custom_rel_time, magnitudes, rel_time, MINUTE, WEEK};
use crate::text::{chars_of, string_of};

verus! {

broadcast use vstd::string::group_string_axioms;

/// What the listing shows for a document touched less than a minute ago.
pub const JUST_NOW: &'static str = "just now";

/// One markdown document.
#[derive(Debug, Clone)]
pub struct Markdown {
    /// Full path of the local file.
    pub local_path: String,
    /// The value filtering matches against. It is kept so filtered
    /// positions survive an edit to the note while a filter is active.
    pub filter_value: String,
    /// The document's contents.
    pub body: String,
    /// The name shown in the listing.
    pub note: String,
    /// Last modification time.
    pub modtime: Option<std::time::SystemTime>,
}

impl Default for Markdown {
    fn default() -> (r: Markdown)
        ensures
            r.local_path@.len() == 0,
            r.filter_value@.len() == 0,
            r.body@.len() == 0,
            r.note@.len() == 0,
            r.modtime is None,
    {
        Markdown {
            local_path: String::new(),
            filter_value: String::new(),
            body: String::new(),
            note: String::new(),
            modtime: None,
        }
    }
}

/// The canonical decomposition (NFD) of `s`.
pub uninterp spec fn nfd_of(s: Seq<char>) -> Seq<char>;

/// The canonical composition (NFC) of `s`.
pub uninterp spec fn nfc_of(s: Seq<char>) -> Seq<char>;

/// Whether `c` is a non-spacing mark (`General_Category=Mn`).
pub uninterp spec fn nonspacing_mark(c: char) -> bool;

/// Calls `UnicodeNormalization::nfd` on `s`: its canonical decomposition.
#[verifier::external_body]
fn nfd(s: &str) -> (r: Vec<char>)
    ensures
        r@ == nfd_of(s@),
{
    s.nfd().collect()
}

/// Calls `UnicodeNormalization::nfc` on the characters `v`: their canonical
/// composition.
#[verifier::external_body]
fn nfc(v: &Vec<char>) -> (r: Vec<char>)
    ensures
        r@ == nfc_of(v@),
{
    let s: String = v.iter().collect();
    s.as_str().nfc().collect()
}

/// Calls `UnicodeGeneralCategory::general_category` on `c`: whether its
/// category is `Mn`, a non-spacing mark.
#[verifier::external_body]
fn is_nonspacing_mark(c: char) -> (r: bool)
    ensures
        r == nonspacing_mark(c),
{
    match c.general_category() {
        GeneralCategory::NonspacingMark => true,
        _ => false,
    }
}

/// `s` without its non-spacing marks.
pub open spec fn drop_marks(s: Seq<char>) -> Seq<char>
    decreases s.len(),
{
    if s.len() == 0 {
        s
    } else if nonspacing_mark(s.last()) {
        drop_marks(s.drop_last())
    } else {
        drop_marks(s.drop_last()).push(s.last())
    }
}

/// The text filtering matches against: decomposed, stripped of its
/// non-spacing marks (`Mn`), and composed again, so `ö` becomes `o`.
pub open spec fn normalize_spec(s: Seq<char>) -> Seq<char> {
    nfc_of(drop_marks(nfd_of(s)))
}

/// Normalises text for filtering by removing diacritics, so `ö` becomes
/// `o`: canonical decomposition, then the `Mn` (non-spacing mark) category
/// dropped, then canonical composition.
pub fn normalize(input: &str) -> (r: String)
    ensures
        r@ == normalize_spec(input@),
{
    let d = nfd(input);
    let mut kept: Vec<char> = Vec::new();
    let mut i: usize = 0;
    while i < d.len()
        invariant
            i <= d.len(),
            kept@ == drop_marks(d@.take(i as int)),
        decreases d.len() - i,
    {
        let c = d[i];
        assert(d@.take(i + 1).drop_last() =~= d@.take(i as int));
        if !is_nonspacing_mark(c) {
            kept.push(c);
        }
        i += 1;
    }
    assert(d@.take(i as int) =~= d@);
    string_of(&nfc(&kept))
}

impl Markdown {
    /// Builds the value this document is filtered against from its note.
    pub fn build_filter_value(&mut self)
        ensures
            final(self).filter_value@ == normalize_spec(old(self).note@),
            final(self).note == old(self).note,
            final(self).local_path == old(self).local_path,
            final(self).body == old(self).body,
            final(self).modtime == old(self).modtime,
    {
        self.filter_value = normalize(self.note.as_str());
    }
}

/// What the listing says of a document touched `diff_ns` nanoseconds ago:
/// "just now" under a minute, the humanised time under a week (or in the
/// future), and nothing beyond, where an absolute date is shown instead.
pub fn relative_label(diff_ns: i128) -> (r: Option<String>)
    requires
        diff_ns > i128::MIN,
    ensures
        0 <= diff_ns < MINUTE ==> (r matches Some(s) && s@ == JUST_NOW@),
        !(0 <= diff_ns < MINUTE) && diff_ns < WEEK ==> (r matches Some(s) && s@ == rel_time(
            diff_ns as int,
            "ago"@,
            "from now"@,
            crate::deps::humanize::magnitudes_spec(),
        )),
        diff_ns >= WEEK ==> r is None,
{
    if 0 <= diff_ns && diff_ns < MINUTE {
        return Some(JUST_NOW.to_owned());
    }
    if diff_ns < WEEK {
        let mags = magnitudes();
        return Some(custom_rel_time(diff_ns, "ago", "from now", mags.as_slice()));
    }
    None
}

} // verus!
