//! Ordering for the file listing.
use vstd::prelude::*;
use crate::deps::cobra::{chars_lt, name_lt};
use crate::text::chars_of;
use crate::ui::markdown::Markdown;

verus! {

broadcast use vstd::string::group_string_axioms;

/// The first position from `i` on whose note sorts after `note`, or the end.
pub open spec fn note_pos(sorted: Seq<Markdown>, note: Seq<char>, i: int) -> int
    decreases sorted.len() - i,
{
    if i < 0 || i >= sorted.len() {
        sorted.len() as int
    } else if name_lt(note, sorted[i].note@) {
        i
    } else {
        note_pos(sorted, note, i + 1)
    }
}

/// `s` sorted by note, equal notes keeping their order.
pub open spec fn sort_by_note(s: Seq<Markdown>) -> Seq<Markdown>
    decreases s.len(),
{
    if s.len() == 0 {
        s
    } else {
        let sorted = sort_by_note(s.drop_last());
        sorted.insert(note_pos(sorted, s.last().note@, 0), s.last())
    }
}

/// Sorts documents by note, keeping the order of equal notes.
pub fn sort_markdowns(mds: &mut Vec<Markdown>)
    ensures
        final(mds)@ == sort_by_note(old(mds)@),
{
    let ghost all = mds@;
    let mut rest: Vec<Markdown> = Vec::new();
    std::mem::swap(&mut rest, mds);
    assert(rest@ == all);
    let mut out: Vec<Markdown> = Vec::new();
    let ghost mut k: int = 0;
    assert(out@ =~= sort_by_note(all.take(0)));
    while rest.len() > 0
        invariant
            0 <= k <= all.len(),
            rest@ == all.skip(k),
            out@ == sort_by_note(all.take(k)),
        decreases rest.len(),
    {
        let ghost sorted = out@;
        let ghost rv = rest@;
        assert(k < all.len());
        let m = rest.remove(0);
        assert(m == all[k]);
        let note = chars_of(m.note.as_str());
        let mut p: usize = 0;
        while p < out.len()
            invariant
                p <= out.len(),
                sorted == out@,
                note@ == m.note@,
                note_pos(sorted, m.note@, 0) == note_pos(sorted, m.note@, p as int),
            ensures
                p <= out.len(),
                note_pos(sorted, m.note@, 0) == p,
            decreases out.len() - p,
        {
            let other = chars_of(out[p].note.as_str());
            if chars_lt(&note, &other) {
                break;
            }
            p += 1;
        }
        proof {
            let t = all.take(k + 1);
            assert(t.drop_last() =~= all.take(k));
            assert(t.last() == m);
        }
        out.insert(p, m);
        assert(out@ =~= sorted.insert(p as int, m));
        proof {
            assert(rest@ =~= all.skip(k + 1));
            k = k + 1;
        }
    }
    assert(all.take(k) =~= all);
    *mds = out;
}


proof fn lemma_name_lt_irreflexive(a: Seq<char>)
    ensures
        !name_lt(a, a),
    decreases a.len(),
{
    if a.len() > 0 {
        lemma_name_lt_irreflexive(a.drop_first());
    }
}

proof fn lemma_name_lt_transitive(a: Seq<char>, b: Seq<char>, c: Seq<char>)
    requires
        name_lt(a, b),
        name_lt(b, c),
    ensures
        name_lt(a, c),
    decreases a.len(),
{
    if a.len() > 0 && b.len() > 0 && c.len() > 0 && a[0] == b[0] && b[0] == c[0] {
        lemma_name_lt_transitive(a.drop_first(), b.drop_first(), c.drop_first());
    }
}

/// Whether no note in `s` sorts before an earlier one.
pub open spec fn in_note_order(s: Seq<Markdown>) -> bool {
    forall|i: int, j: int| 0 <= i < j < s.len() ==> !name_lt(#[trigger] s[j].note@, #[trigger] s[i].note@)
}

/// Whether a document's note is `n`.
pub open spec fn has_note(n: Seq<char>) -> spec_fn(Markdown) -> bool {
    |m: Markdown| m.note@ == n
}

proof fn lemma_note_pos(sorted: Seq<Markdown>, note: Seq<char>, i: int)
    requires
        0 <= i <= sorted.len(),
    ensures
        i <= note_pos(sorted, note, i) <= sorted.len(),
        forall|k: int| i <= k < note_pos(sorted, note, i) ==> !name_lt(note, #[trigger] sorted[k].note@),
        note_pos(sorted, note, i) < sorted.len() ==> name_lt(note, sorted[note_pos(sorted, note, i)].note@),
    decreases sorted.len() - i,
{
    if i < sorted.len() && !name_lt(note, sorted[i].note@) {
        lemma_note_pos(sorted, note, i + 1);
    }
}

proof fn lemma_filter_none(s: Seq<Markdown>, p: spec_fn(Markdown) -> bool)
    requires
        forall|k: int| 0 <= k < s.len() ==> !p(#[trigger] s[k]),
    ensures
        s.filter(p) == Seq::<Markdown>::empty(),
    decreases s.len(),
{
    reveal(Seq::filter);
    if s.len() > 0 {
        lemma_filter_none(s.drop_last(), p);
    }
}

/// Sorting by note puts the documents in note order, and it is stable: the
/// documents that share a note come out in the order they went in, so the
/// result is a reordering of the input.
pub proof fn lemma_sort_by_note(s: Seq<Markdown>)
    ensures
        sort_by_note(s).len() == s.len(),
        in_note_order(sort_by_note(s)),
        forall|n: Seq<char>| #[trigger] sort_by_note(s).filter(has_note(n)) == s.filter(has_note(n)),
    decreases s.len(),
{
    if s.len() > 0 {
        let x = s.last();
        let rest = s.drop_last();
        lemma_sort_by_note(rest);
        let sorted = sort_by_note(rest);
        lemma_note_pos(sorted, x.note@, 0);
        let p = note_pos(sorted, x.note@, 0);
        let r = sorted.insert(p, x);
        assert(r == sort_by_note(s));
        assert forall|i: int, j: int| 0 <= i < j < r.len() implies !name_lt(
            #[trigger] r[j].note@,
            #[trigger] r[i].note@,
        ) by {
            if j < p {
                assert(r[i] == sorted[i] && r[j] == sorted[j]);
            } else if j == p {
                assert(r[i] == sorted[i] && r[j] == x);
            } else if i < p {
                assert(r[i] == sorted[i] && r[j] == sorted[j - 1]);
            } else if i == p {
                assert(r[i] == x && r[j] == sorted[j - 1]);
                if name_lt(sorted[j - 1].note@, x.note@) {
                    if j - 1 > p {
                        assert(!name_lt(sorted[j - 1].note@, sorted[p].note@));
                    }
                    lemma_name_lt_transitive(sorted[j - 1].note@, x.note@, sorted[p].note@);
                    if j - 1 == p {
                        lemma_name_lt_irreflexive(sorted[p].note@);
                    }
                }
            } else {
                assert(r[i] == sorted[i - 1] && r[j] == sorted[j - 1]);
            }
        }
        let front = sorted.take(p);
        let back = sorted.skip(p);
        assert(r =~= front + seq![x] + back);
        assert(sorted =~= front + back);
        assert forall|n: Seq<char>| #[trigger] r.filter(has_note(n)) == s.filter(has_note(n)) by {
            let pr = has_note(n);
            Seq::filter_distributes_over_add(front + seq![x], back, pr);
            Seq::filter_distributes_over_add(front, seq![x], pr);
            Seq::filter_distributes_over_add(front, back, pr);
            reveal_with_fuel(Seq::filter, 2);
            assert(s.filter(pr) == if pr(x) { rest.filter(pr).push(x) } else { rest.filter(pr) });
            if x.note@ == n {
                assert forall|k: int| 0 <= k < back.len() implies !pr(#[trigger] back[k]) by {
                    assert(back[k] == sorted[p + k]);
                    if sorted[p + k].note@ == x.note@ {
                        if k > 0 {
                            assert(!name_lt(sorted[p + k].note@, sorted[p].note@));
                        } else {
                            lemma_name_lt_irreflexive(x.note@);
                        }
                    }
                }
                lemma_filter_none(back, pr);
                assert(seq![x].filter(pr) =~= seq![x]);
                assert(back.filter(pr) + Seq::<Markdown>::empty() =~= back.filter(pr));
                assert(r.filter(pr) =~= front.filter(pr).push(x));
            } else {
                assert(seq![x].filter(pr) =~= Seq::<Markdown>::empty());
                assert(front.filter(pr) + Seq::<Markdown>::empty() =~= front.filter(pr));
            }
        }
    }
}

} // verus!
