//! Edits at several offsets at once. The offsets are taken in ascending order
//! and worked through from the last to the first, so that an edit never moves
//! the place of one that is still to come.

use crate::cursor::{cursor_ok, lemma_offset_in_text, offset_of, Cursor};
use crate::text::text_fits;
use vstd::prelude::*;
use vstd::relations::{sorted_by, total_ordering};
use vstd::seq_lib::lemma_sorted_unique;

verus! {

/// The order of offsets.
pub open spec fn leq() -> spec_fn(usize, usize) -> bool {
    |a: usize, b: usize| a <= b
}

/// `ps` in ascending order.
pub open spec fn ascending(ps: Seq<usize>) -> Seq<usize> {
    ps.sort_by(leq())
}

/// The offset of each cursor, in the order of the cursors.
pub open spec fn offsets(s: Seq<char>, cursors: Seq<Cursor>) -> Seq<usize> {
    Seq::new(cursors.len(), |i: int| offset_of(s, cursors[i]) as usize)
}

/// `s` after `ch` has been inserted at each offset of the ascending sequence
/// `ps`, the largest offset first. An offset that occurs twice gets two
/// characters.
pub open spec fn insert_desc(s: Seq<char>, ps: Seq<usize>, ch: char) -> Seq<char>
    decreases ps.len(),
{
    if ps.len() == 0 {
        s
    } else {
        insert_desc(s.insert(ps.last() as int, ch), ps.drop_last(), ch)
    }
}

/// `s` after the character in front of each offset of the ascending sequence
/// `ps` has been removed, the largest offset first. An offset that occurs more
/// than once counts once, and offset 0 has nothing in front of it.
pub open spec fn delete_desc(s: Seq<char>, ps: Seq<usize>) -> Seq<char>
    decreases ps.len(),
{
    if ps.len() == 0 {
        s
    } else {
        let p = ps.last();
        let rest = ps.drop_last();
        let repeated = rest.len() > 0 && rest.last() == p;
        if p > 0 && !repeated {
            delete_desc(s.remove(p - 1), rest)
        } else {
            delete_desc(s, rest)
        }
    }
}

/// `<[usize]>::sort_unstable`: the vector is put in ascending order; it holds
/// the same numbers as before, each as often as before. Not proved.
#[verifier::external_body]
pub(crate) fn sort_ascending(v: &mut Vec<usize>)
    ensures
        final(v)@.to_multiset() == old(v)@.to_multiset(),
        sorted_by(final(v)@, leq()),
{
    v.sort_unstable();
}

pub proof fn lemma_leq_is_total()
    ensures
        total_ordering(leq()),
{
}

/// A sequence in ascending order that holds the numbers of `orig` is
/// `ascending(orig)`.
pub proof fn lemma_sorted_is_ascending(v: Seq<usize>, orig: Seq<usize>)
    requires
        v.to_multiset() == orig.to_multiset(),
        sorted_by(v, leq()),
    ensures
        v == ascending(orig),
{
    lemma_leq_is_total();
    orig.lemma_sort_by_ensures(leq());
    lemma_sorted_unique(v, ascending(orig), leq());
}

/// Sorting keeps the length, and every number of the result was there before.
pub proof fn lemma_ascending_members(ps: Seq<usize>)
    ensures
        ascending(ps).len() == ps.len(),
        sorted_by(ascending(ps), leq()),
        forall|j: int|
            0 <= j < ascending(ps).len() ==> ps.contains(#[trigger] ascending(ps)[j]),
{
    broadcast use vstd::seq_lib::group_to_multiset_ensures;

    lemma_leq_is_total();
    ps.lemma_sort_by_ensures(leq());
    let a = ascending(ps);
    assert(a.len() == ps.len()) by {
        assert(a.to_multiset().len() == ps.to_multiset().len());
    }
    assert forall|j: int| 0 <= j < a.len() implies ps.contains(#[trigger] a[j]) by {
        assert(a.contains(a[j]));
    }
}

/// The offsets of valid cursors lie inside the text, its end included.
pub proof fn lemma_offsets_in_text(s: Seq<char>, cursors: Seq<Cursor>)
    requires
        text_fits(s),
        forall|i: int| 0 <= i < cursors.len() ==> cursor_ok(s, #[trigger] cursors[i]),
    ensures
        offsets(s, cursors).len() == cursors.len(),
        ascending(offsets(s, cursors)).len() == cursors.len(),
        forall|i: int|
            0 <= i < cursors.len() ==> (#[trigger] offsets(s, cursors)[i]) == offset_of(
                s,
                cursors[i],
            ) && offsets(s, cursors)[i] <= s.len(),
        forall|j: int|
            0 <= j < cursors.len() ==> (#[trigger] ascending(offsets(s, cursors))[j]) <= s.len(),
{
    let ps = offsets(s, cursors);
    assert forall|i: int| 0 <= i < cursors.len() implies (#[trigger] ps[i]) == offset_of(
        s,
        cursors[i],
    ) && ps[i] <= s.len() by {
        lemma_offset_in_text(s, cursors[i]);
    }
    lemma_ascending_members(ps);
    assert forall|j: int| 0 <= j < cursors.len() implies (#[trigger] ascending(ps)[j])
        <= s.len() by {
        let x = ascending(ps)[j];
        assert(ps.contains(x));
        let i = choose|i: int| 0 <= i < ps.len() && ps[i] == x;
        assert(ps[i] <= s.len());
    }
}

} // verus!
