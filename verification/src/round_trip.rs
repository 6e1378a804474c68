//! Typing a character and taking it back: what a character typed at several
//! cursors does to the lines of a text, and when a backspace right after it
//! undoes it. It does so exactly where no two cursors stand at one position
//! and in front of every cursor stand as many of the typed character as
//! cursors stand in front of it on its line.

use crate::cursor::{cursor_ok, lemma_offset_in_text, offset_of, Cursor};
use crate::editor::EditorView;
use crate::edits::{
    ascending, delete_desc, insert_desc, lemma_ascending_members, lemma_leq_is_total,
    lemma_offsets_in_text, leq, offsets,
};
use crate::text::{
    breaks_before, lemma_line_shape, lemma_line_start_from_witness, lemma_line_start_is_start,
    lemma_line_start_ordered, lemma_line_start_past_end, line_count, line_of, line_start,
    text_fits,
};
use vstd::prelude::*;
use vstd::relations::sorted_by;
use vstd::seq_lib::lemma_sorted_unique;

verus! {

/// Each number of `ps` is smaller than the next.
pub open spec fn strictly_ascending(ps: Seq<usize>) -> bool {
    forall|i: int, j: int| 0 <= i < j < ps.len() ==> (#[trigger] ps[i]) < (#[trigger] ps[j])
}

/// How many numbers of `ps` are smaller than `bound`.
pub open spec fn count_below(ps: Seq<usize>, bound: int) -> int
    decreases ps.len(),
{
    if ps.len() == 0 {
        0
    } else {
        count_below(ps.drop_last(), bound) + if ps.last() < bound {
            1int
        } else {
            0int
        }
    }
}

pub proof fn lemma_count_below_bounds(ps: Seq<usize>, bound: int)
    ensures
        0 <= count_below(ps, bound) <= ps.len(),
    decreases ps.len(),
{
    if ps.len() > 0 {
        lemma_count_below_bounds(ps.drop_last(), bound);
    }
}

/// Counting below a larger bound counts at least as many.
pub proof fn lemma_count_below_monotonic(ps: Seq<usize>, a: int, b: int)
    requires
        a <= b,
    ensures
        count_below(ps, a) <= count_below(ps, b),
    decreases ps.len(),
{
    if ps.len() > 0 {
        lemma_count_below_monotonic(ps.drop_last(), a, b);
    }
}

/// A number between two bounds is counted below the larger one only.
pub proof fn lemma_count_below_grows(ps: Seq<usize>, a: int, b: int, k: int)
    requires
        0 <= k < ps.len(),
        a <= ps[k] < b,
    ensures
        count_below(ps, a) < count_below(ps, b),
    decreases ps.len(),
{
    if k < ps.len() - 1 {
        lemma_count_below_grows(ps.drop_last(), a, b, k);
    } else {
        lemma_count_below_monotonic(ps.drop_last(), a, b);
    }
}

/// Where all numbers are below the bound, all are counted; where none is,
/// none.
pub proof fn lemma_count_below_all(ps: Seq<usize>, bound: int)
    ensures
        (forall|i: int| 0 <= i < ps.len() ==> (#[trigger] ps[i]) < bound) ==> count_below(ps, bound)
            == ps.len(),
        (forall|i: int| 0 <= i < ps.len() ==> (#[trigger] ps[i]) >= bound) ==> count_below(
            ps,
            bound,
        ) == 0,
    decreases ps.len(),
{
    if ps.len() > 0 {
        lemma_count_below_all(ps.drop_last(), bound);
        let init = ps.drop_last();
        if forall|i: int| 0 <= i < ps.len() ==> (#[trigger] ps[i]) < bound {
            assert forall|i: int| 0 <= i < init.len() implies (#[trigger] init[i]) < bound by {
                assert(init[i] == ps[i]);
            }
            assert(ps[ps.len() - 1] < bound);
        }
        if forall|i: int| 0 <= i < ps.len() ==> (#[trigger] ps[i]) >= bound {
            assert forall|i: int| 0 <= i < init.len() implies (#[trigger] init[i]) >= bound by {
                assert(init[i] == ps[i]);
            }
            assert(ps[ps.len() - 1] >= bound);
        }
    }
}

/// In a strictly ascending sequence, as many numbers lie below a member as
/// its index says.
pub proof fn lemma_count_below_member(ps: Seq<usize>, k: int)
    requires
        strictly_ascending(ps),
        0 <= k < ps.len(),
    ensures
        count_below(ps, ps[k] as int) == k,
    decreases ps.len(),
{
    let init = ps.drop_last();
    assert forall|i: int, j: int| 0 <= i < j < init.len() implies (#[trigger] init[i]) < (
    #[trigger] init[j]) by {
        assert(init[i] == ps[i] && init[j] == ps[j]);
    }
    if k < ps.len() - 1 {
        lemma_count_below_member(init, k);
        assert(ps[k] < ps[ps.len() - 1]);
    } else {
        assert forall|i: int| 0 <= i < init.len() implies (#[trigger] init[i]) < ps[k] by {
            assert(init[i] == ps[i]);
        }
        lemma_count_below_all(init, ps[k] as int);
    }
}

/// A character that is no line break, put in at `p`, leaves every count of
/// breaks as it was, but for the place that it takes.
pub proof fn lemma_insert_keeps_breaks(s: Seq<char>, p: int, ch: char, j: int)
    requires
        0 <= p <= s.len(),
        ch != '\n',
        0 <= j <= s.len() + 1,
    ensures
        breaks_before(s.insert(p, ch), j) == (if j <= p {
            breaks_before(s, j)
        } else {
            breaks_before(s, j - 1)
        }),
    decreases j,
{
    if j > 0 {
        lemma_insert_keeps_breaks(s, p, ch, j - 1);
    }
}

/// A character that is no line break, put in at `p`, keeps the number of
/// lines; a line that starts behind `p` starts one later, every other line
/// where it did.
pub proof fn lemma_insert_moves_lines(s: Seq<char>, p: int, ch: char, line: int)
    requires
        0 <= p <= s.len(),
        ch != '\n',
        0 <= line <= line_count(s),
    ensures
        line_count(s.insert(p, ch)) == line_count(s),
        line_start(s.insert(p, ch), line) == (if line_start(s, line) <= p && line < line_count(s) {
            line_start(s, line)
        } else {
            line_start(s, line) + 1
        }),
{
    let t = s.insert(p, ch);
    lemma_insert_keeps_breaks(s, p, ch, s.len() as int + 1);
    if line == line_count(s) {
        lemma_line_start_past_end(s, line);
        lemma_line_start_past_end(t, line);
    } else {
        let start = line_start(s, line);
        lemma_line_start_is_start(s, line);
        if start <= p {
            lemma_insert_keeps_breaks(s, p, ch, start);
            lemma_line_start_from_witness(t, line, start);
        } else {
            lemma_insert_keeps_breaks(s, p, ch, start + 1);
            lemma_line_start_from_witness(t, line, start + 1);
        }
    }
}

/// The offset up to which an insertion moves the start of `line`: the start
/// itself, and for the index one past the last line the place behind the end
/// of the text.
pub open spec fn line_bound(s: Seq<char>, line: int) -> int {
    if line < line_count(s) {
        line_start(s, line)
    } else {
        s.len() as int + 1
    }
}

/// What a character that is no line break does to the lines when it is put in
/// at each of the ascending offsets `ps`: the number of lines stays, and a
/// line starts later by the number of offsets in front of its old start.
pub proof fn lemma_insert_desc_lines(s: Seq<char>, ps: Seq<usize>, ch: char, line: int)
    requires
        ch != '\n',
        sorted_by(ps, leq()),
        forall|i: int| 0 <= i < ps.len() ==> (#[trigger] ps[i]) <= s.len(),
        0 <= line <= line_count(s),
    ensures
        insert_desc(s, ps, ch).len() == s.len() + ps.len(),
        line_count(insert_desc(s, ps, ch)) == line_count(s),
        line_start(insert_desc(s, ps, ch), line) == line_start(s, line) + count_below(
            ps,
            line_bound(s, line),
        ),
    decreases ps.len(),
{
    if ps.len() > 0 {
        let last = ps.last();
        let init = ps.drop_last();
        let s1 = s.insert(last as int, ch);
        assert(ps[ps.len() - 1] <= s.len());
        assert forall|i: int| 0 <= i < init.len() implies (#[trigger] init[i]) <= s1.len()
            && init[i] <= last by {
            assert(init[i] == ps[i]);
            assert(leq()(ps[i], ps[ps.len() - 1]));
        }
        assert(sorted_by(init, leq())) by {
            assert forall|i: int, j: int| 0 <= i < j < init.len() implies #[trigger] leq()(
                init[i],
                init[j],
            ) by {
                assert(leq()(ps[i], ps[j]));
            }
        }
        lemma_insert_moves_lines(s, last as int, ch, line);
        lemma_insert_desc_lines(s1, init, ch, line);
        lemma_line_start_ordered(s, line, line);
        if last < line_bound(s, line) {
            assert forall|i: int| 0 <= i < init.len() implies (#[trigger] init[i]) < line_bound(
                s,
                line,
            ) by {}
            lemma_count_below_all(init, line_bound(s, line));
            assert forall|i: int| 0 <= i < init.len() implies (#[trigger] init[i]) < line_bound(
                s1,
                line,
            ) by {}
            lemma_count_below_all(init, line_bound(s1, line));
        }
    }
}

/// A character put in at `p` can be taken out again behind characters that
/// were put in at offsets up to `p` after it.
pub proof fn lemma_insert_desc_commutes(s: Seq<char>, p: int, c: char, ps: Seq<usize>, ch: char)
    requires
        0 <= p <= s.len(),
        forall|i: int| 0 <= i < ps.len() ==> (#[trigger] ps[i]) <= p,
    ensures
        insert_desc(s.insert(p, c), ps, ch).len() == s.len() + 1 + ps.len(),
        insert_desc(s.insert(p, c), ps, ch).remove(p + ps.len()) == insert_desc(s, ps, ch),
    decreases ps.len(),
{
    if ps.len() == 0 {
        assert(s.insert(p, c).remove(p) =~= s);
    } else {
        let x = ps.last();
        let init = ps.drop_last();
        assert(ps[ps.len() - 1] <= p);
        let s2 = s.insert(x as int, ch);
        assert(s.insert(p, c).insert(x as int, ch) =~= s2.insert(p + 1, c));
        assert forall|i: int| 0 <= i < init.len() implies (#[trigger] init[i]) <= p + 1 by {
            assert(init[i] == ps[i]);
        }
        lemma_insert_desc_commutes(s2, p + 1, c, init, ch);
    }
}

/// A run of `ch` that ends in front of offset `p` is still there, as far
/// behind as characters were put in, after `ch` has been put in at offsets up
/// to `p`.
pub proof fn lemma_run_survives_inserts(t: Seq<char>, q: Seq<usize>, ch: char, p: int, run: int)
    requires
        0 <= run <= p <= t.len(),
        forall|i: int| 0 <= i < q.len() ==> (#[trigger] q[i]) <= p,
        forall|x: int| p - run <= x < p ==> (#[trigger] t[x]) == ch,
    ensures
        insert_desc(t, q, ch).len() == t.len() + q.len(),
        forall|x: int|
            p + q.len() - run <= x < p + q.len() ==> (#[trigger] insert_desc(t, q, ch)[x]) == ch,
    decreases q.len(),
{
    if q.len() > 0 {
        let at = q.last() as int;
        let init = q.drop_last();
        let t1 = t.insert(at, ch);
        assert(q[q.len() - 1] <= p);
        assert forall|i: int| 0 <= i < init.len() implies (#[trigger] init[i]) <= p + 1 by {
            assert(init[i] == q[i]);
        }
        assert forall|x: int| p + 1 - run <= x < p + 1 implies (#[trigger] t1[x]) == ch by {
            if x < at {
                assert(t1[x] == t[x]);
            } else if x > at {
                assert(t1[x] == t[x - 1]);
            }
        }
        lemma_run_survives_inserts(t1, init, ch, p + 1, run);
    }
}

/// Of a run of equal characters it does not matter which one is taken out.
pub proof fn lemma_remove_within_run(r: Seq<char>, d: int, e: int)
    requires
        0 <= d <= e < r.len(),
        forall|x: int| d <= x <= e ==> (#[trigger] r[x]) == r[e],
    ensures
        r.remove(d) == r.remove(e),
{
    assert forall|i: int| 0 <= i < r.len() - 1 implies r.remove(d)[i] == r.remove(e)[i] by {
        if d <= i < e {
            assert(r[i] == r[e]);
            assert(r[i + 1] == r[e]);
        }
    }
    assert(r.remove(d) =~= r.remove(e));
}

/// Where a backspace deletes after `ch` has been typed at the strictly
/// ascending offsets `q`: behind the typed character, less the number `lead`
/// of cursors that stand in front of the cursor on its line.
pub open spec fn targets(q: Seq<usize>, lead: Seq<int>) -> Seq<usize> {
    Seq::new(q.len(), |k: int| (q[k] + k + 1 - lead[k]) as usize)
}

/// Deleting in front of the targets gives the text back, where in front of
/// each offset stand as many `ch` as its lead says: each deletion then takes
/// a `ch` out of a run of them, which is as good as taking out the one that
/// was typed.
pub proof fn lemma_delete_undoes_insert(s: Seq<char>, q: Seq<usize>, lead: Seq<int>, ch: char)
    requires
        strictly_ascending(q),
        forall|i: int| 0 <= i < q.len() ==> (#[trigger] q[i]) <= s.len(),
        s.len() + q.len() <= usize::MAX,
        lead.len() == q.len(),
        forall|k: int| 0 <= k < q.len() ==> 0 <= (#[trigger] lead[k]) <= q[k],
        forall|k: int|
            0 <= k < q.len() - 1 ==> q[k] - (#[trigger] lead[k]) < q[k + 1] + 1 - lead[k + 1],
        forall|k: int, x: int|
            0 <= k < q.len() && q[k] - (#[trigger] lead[k]) <= x < q[k] ==> (#[trigger] s[x]) == ch,
    ensures
        delete_desc(insert_desc(s, q, ch), targets(q, lead)) == s,
    decreases q.len(),
{
    if q.len() > 0 {
        let n = q.len() as int;
        let last = q.last() as int;
        let run = lead[n - 1];
        let init = q.drop_last();
        let lead0 = lead.drop_last();
        let t = s.insert(last, ch);
        let r = insert_desc(s, q, ch);
        assert(q[n - 1] <= s.len());
        assert forall|i: int| 0 <= i < init.len() implies (#[trigger] init[i]) <= last + 1
            && init[i] <= last && init[i] <= s.len() by {
            assert(init[i] == q[i]);
            assert(q[i] < q[n - 1]);
        }
        assert(strictly_ascending(init)) by {
            assert forall|i: int, j: int| 0 <= i < j < init.len() implies (#[trigger] init[i]) < (
            #[trigger] init[j]) by {
                assert(init[i] == q[i] && init[j] == q[j]);
            }
        }
        // the typed character and the run in front of it are all `ch`
        assert forall|x: int| last + 1 - (run + 1) <= x < last + 1 implies (#[trigger] t[x])
            == ch by {
            if x < last {
                assert(t[x] == s[x]);
                assert(q[n - 1] - lead[n - 1] <= x < q[n - 1]);
            }
        }
        lemma_run_survives_inserts(t, init, ch, last + 1, run + 1);
        let d = last + n - 1 - run;
        let e = last + n - 1;
        assert forall|x: int| d <= x <= e implies (#[trigger] r[x]) == r[e] by {
            assert(r[x] == ch);
            assert(r[e] == ch);
        }
        lemma_remove_within_run(r, d, e);
        lemma_insert_desc_commutes(s, last, ch, init, ch);
        assert(r.remove(d) == insert_desc(s, init, ch));
        // what is left to delete
        let all = targets(q, lead);
        assert(all.drop_last() =~= targets(init, lead0));
        assert(all.last() == d + 1);
        if n > 1 {
            assert(targets(init, lead0).last() == q[n - 2] + n - 1 - lead[n - 2]);
            assert(q[n - 2] - lead[n - 2] < q[n - 2 + 1] + 1 - lead[n - 2 + 1]);
        }
        assert forall|k: int| 0 <= k < init.len() implies 0 <= (#[trigger] lead0[k]) <= init[k] by {
            assert(lead0[k] == lead[k]);
        }
        assert forall|k: int| 0 <= k < init.len() - 1 implies init[k] - (#[trigger] lead0[k])
            < init[k + 1] + 1 - lead0[k + 1] by {
            assert(lead0[k] == lead[k] && lead0[k + 1] == lead[k + 1]);
            assert(q[k] - lead[k] < q[k + 1] + 1 - lead[k + 1]);
        }
        assert forall|k: int, x: int|
            0 <= k < init.len() && init[k] - (#[trigger] lead0[k]) <= x < init[k] implies (
        #[trigger] s[x]) == ch by {
            assert(lead0[k] == lead[k]);
            assert(q[k] - lead[k] <= x < q[k]);
        }
        lemma_delete_undoes_insert(s, init, lead0, ch);
    }
}

/// The character `c` is `ch`, or it is one of the characters of `t` at the
/// offsets from `lo` up to but not including `hi`.
pub open spec fn typed_or_from(c: char, t: Seq<char>, ch: char, lo: int, hi: int) -> bool {
    c == ch || exists|x: int| lo <= x < hi && 0 <= x < t.len() && #[trigger] t[x] == c
}

/// After `ch` has been put in at offsets up to `p`, what stands at an offset
/// `y` of the new text in front of where `p` has gone is `ch` or a character
/// that stood at most as many places further to the front as characters were
/// put in.
pub proof fn lemma_inserted_text_elements(t: Seq<char>, q: Seq<usize>, ch: char, p: int)
    requires
        0 <= p <= t.len(),
        forall|i: int| 0 <= i < q.len() ==> (#[trigger] q[i]) <= p,
    ensures
        insert_desc(t, q, ch).len() == t.len() + q.len(),
        forall|y: int|
            0 <= y < p + q.len() ==> typed_or_from(
                #[trigger] insert_desc(t, q, ch)[y],
                t,
                ch,
                y - q.len(),
                if y + 1 < p {
                    y + 1
                } else {
                    p
                },
            ),
    decreases q.len(),
{
    let r = insert_desc(t, q, ch);
    if q.len() == 0 {
        assert forall|y: int| 0 <= y < p + q.len() implies typed_or_from(
            #[trigger] r[y],
            t,
            ch,
            y - q.len(),
            if y + 1 < p {
                y + 1
            } else {
                p
            },
        ) by {
            assert(t[y] == r[y]);
        }
    } else {
        let at = q.last() as int;
        let init = q.drop_last();
        let t1 = t.insert(at, ch);
        assert(q[q.len() - 1] <= p);
        assert forall|i: int| 0 <= i < init.len() implies (#[trigger] init[i]) <= p + 1 by {
            assert(init[i] == q[i]);
        }
        lemma_inserted_text_elements(t1, init, ch, p + 1);
        assert forall|y: int| 0 <= y < p + q.len() implies typed_or_from(
            #[trigger] r[y],
            t,
            ch,
            y - q.len(),
            if y + 1 < p {
                y + 1
            } else {
                p
            },
        ) by {
            let hi1 = if y + 1 < p + 1 {
                y + 1
            } else {
                p + 1
            };
            assert(typed_or_from(r[y], t1, ch, y - init.len(), hi1));
            if r[y] != ch {
                let x1 = choose|x: int|
                    y - init.len() <= x < hi1 && 0 <= x < t1.len() && #[trigger] t1[x] == r[y];
                if x1 < at {
                    assert(t[x1] == r[y]);
                } else {
                    assert(x1 > at);
                    assert(t[x1 - 1] == r[y]);
                }
            }
        }
    }
}

/// Deleting in front of strictly ascending offsets up to `bound` takes out
/// one character for each and leaves what stands from `bound` on as it is.
pub proof fn lemma_delete_desc_keeps_suffix(u: Seq<char>, m: Seq<usize>, bound: int)
    requires
        strictly_ascending(m),
        forall|k: int| 0 <= k < m.len() ==> 0 < (#[trigger] m[k]) <= bound,
        bound <= u.len(),
    ensures
        delete_desc(u, m).len() == u.len() - m.len(),
        forall|i: int|
            bound <= i < u.len() ==> (#[trigger] u[i]) == delete_desc(u, m)[i - m.len()],
    decreases m.len(),
{
    if m.len() > 0 {
        let last = m.last() as int;
        let init = m.drop_last();
        let u1 = u.remove(last - 1);
        assert(0 < m[m.len() - 1] <= bound);
        assert(strictly_ascending(init)) by {
            assert forall|i: int, j: int| 0 <= i < j < init.len() implies (#[trigger] init[i]) < (
            #[trigger] init[j]) by {
                assert(init[i] == m[i] && init[j] == m[j]);
            }
        }
        assert forall|k: int| 0 <= k < init.len() implies 0 < (#[trigger] init[k]) <= last
            - 1 by {
            assert(init[k] == m[k]);
            assert(m[k] < m[m.len() - 1]);
        }
        if init.len() > 0 {
            assert(init.last() == init[init.len() - 1]);
        }
        lemma_delete_desc_keeps_suffix(u1, init, last - 1);
        assert forall|i: int| bound <= i < u.len() implies (#[trigger] u[i]) == delete_desc(
            u,
            m,
        )[i - m.len()] by {
            assert(u1[i - 1] == u[i]);
        }
    }
}

/// Deleting in front of ascending offsets takes out one character for each
/// at most, and fewer where an offset occurs twice.
pub proof fn lemma_delete_desc_len(u: Seq<char>, m: Seq<usize>)
    requires
        sorted_by(m, leq()),
        forall|k: int| 0 <= k < m.len() ==> (#[trigger] m[k]) <= u.len(),
    ensures
        u.len() - m.len() <= delete_desc(u, m).len() <= u.len(),
        !strictly_ascending(m) ==> u.len() - m.len() < delete_desc(u, m).len(),
    decreases m.len(),
{
    if m.len() > 0 {
        let n = m.len() as int;
        let last = m.last();
        let init = m.drop_last();
        assert(m[n - 1] <= u.len());
        assert(sorted_by(init, leq())) by {
            assert forall|i: int, j: int| 0 <= i < j < init.len() implies #[trigger] leq()(
                init[i],
                init[j],
            ) by {
                assert(leq()(m[i], m[j]));
            }
        }
        let repeated = init.len() > 0 && init.last() == last;
        if last > 0 && !repeated {
            let u1 = u.remove(last - 1);
            assert forall|k: int| 0 <= k < init.len() implies (#[trigger] init[k]) <= u1.len() by {
                assert(init[k] == m[k]);
                assert(leq()(m[k], m[n - 2]));
                assert(leq()(m[n - 2], m[n - 1]));
                assert(init.last() == m[n - 2]);
            }
            lemma_delete_desc_len(u1, init);
        } else {
            assert forall|k: int| 0 <= k < init.len() implies (#[trigger] init[k]) <= u.len() by {
                assert(init[k] == m[k]);
                assert(leq()(m[k], m[n - 1]));
            }
            lemma_delete_desc_len(u, init);
        }
        if !strictly_ascending(m) && strictly_ascending(init) {
            let (a, b) = choose|a: int, b: int|
                0 <= a < b < m.len() && !((#[trigger] m[a]) < (#[trigger] m[b]));
            assert(leq()(m[a], m[b]));
            if b < n - 1 {
                assert(init[a] == m[a] && init[b] == m[b]);
                assert(init[a] < init[b]);
            } else {
                assert(n >= 2);
                if a < n - 2 {
                    assert(leq()(m[a], m[n - 2]));
                }
                assert(leq()(m[n - 2], m[n - 1]));
                assert(init.last() == m[n - 2]);
                assert(repeated);
            }
        }
    }
}

/// If deleting in front of the targets gives the text back, then in front of
/// each offset stand as many `ch` as its lead says.
pub proof fn lemma_delete_undoes_insert_only_if(
    s: Seq<char>,
    q: Seq<usize>,
    lead: Seq<int>,
    ch: char,
)
    requires
        strictly_ascending(q),
        forall|i: int| 0 <= i < q.len() ==> (#[trigger] q[i]) <= s.len(),
        s.len() + q.len() <= usize::MAX,
        lead.len() == q.len(),
        forall|k: int| 0 <= k < q.len() ==> 0 <= (#[trigger] lead[k]) <= q[k],
        forall|k: int|
            0 <= k < q.len() - 1 ==> q[k] - (#[trigger] lead[k]) < q[k + 1] + 1 - lead[k + 1],
        delete_desc(insert_desc(s, q, ch), targets(q, lead)) == s,
    ensures
        forall|k: int, x: int|
            0 <= k < q.len() && q[k] - (#[trigger] lead[k]) <= x < q[k] ==> (#[trigger] s[x]) == ch,
    decreases q.len(),
{
    if q.len() > 0 {
        let n = q.len() as int;
        let last = q.last() as int;
        let run = lead[n - 1];
        let init = q.drop_last();
        let lead0 = lead.drop_last();
        let t = s.insert(last, ch);
        let r = insert_desc(s, q, ch);
        let all = targets(q, lead);
        let m0 = targets(init, lead0);
        let d = last + n - 1 - run;
        let e = last + n - 1;
        assert(q[n - 1] <= s.len());
        assert(0 <= lead[n - 1] <= q[n - 1]);
        assert forall|i: int| 0 <= i < init.len() implies (#[trigger] init[i]) <= last + 1
            && init[i] <= last && init[i] <= s.len() by {
            assert(init[i] == q[i]);
            assert(q[i] < q[n - 1]);
        }
        assert(strictly_ascending(init)) by {
            assert forall|i: int, j: int| 0 <= i < j < init.len() implies (#[trigger] init[i]) < (
            #[trigger] init[j]) by {
                assert(init[i] == q[i] && init[j] == q[j]);
            }
        }
        assert forall|k: int| 0 <= k < init.len() implies 0 <= (#[trigger] lead0[k]) <= init[k] by {
            assert(lead0[k] == lead[k]);
        }
        assert forall|k: int| 0 <= k < init.len() - 1 implies init[k] - (#[trigger] lead0[k])
            < init[k + 1] + 1 - lead0[k + 1] by {
            assert(lead0[k] == lead[k] && lead0[k + 1] == lead[k + 1]);
            assert(q[k] - lead[k] < q[k + 1] + 1 - lead[k + 1]);
        }
        lemma_inserted_text_elements(t, init, ch, last + 1);
        lemma_run_survives_inserts(t, init, ch, last + 1, 1);
        assert(r[e] == ch);
        // the first deletion, and what it leaves behind the others
        assert(all.drop_last() =~= m0);
        assert(all.last() == d + 1);
        if n > 1 {
            assert(m0.last() == q[n - 2] + n - 1 - lead[n - 2]);
            assert(q[n - 2] - lead[n - 2] < q[n - 2 + 1] + 1 - lead[n - 2 + 1]);
        }
        let u = r.remove(d);
        assert(delete_desc(r, all) == delete_desc(u, m0));
        assert(strictly_ascending(m0) && forall|k: int|
            0 <= k < m0.len() ==> 0 < (#[trigger] m0[k]) <= d) by {
            assert forall|a: int, b: int| 0 <= a < b < m0.len() implies (#[trigger] m0[a]) < (
            #[trigger] m0[b]) by {
                lemma_targets_ascend(init, lead0, a, b);
            }
            assert forall|k: int| 0 <= k < m0.len() implies 0 < (#[trigger] m0[k]) <= d by {
                lemma_targets_ascend(init, lead0, k, n - 2);
                assert(lead0[k] == lead[k]);
            }
        }
        lemma_delete_desc_keeps_suffix(u, m0, d);
        assert forall|x: int| last - run <= x < s.len() implies (#[trigger] s[x]) == r[x + n] by {
            let i = x + n - 1;
            assert(u[i] == r[i + 1]);
            assert(u[i] == delete_desc(u, m0)[i - m0.len()]);
        }
        // so the run in front of the last offset is all `ch`, from its end on
        lemma_run_backwards(s, r, t, ch, last, n, last - run);
        // and the first deletion was as good as taking out what was typed
        assert forall|x: int| d <= x <= e implies (#[trigger] r[x]) == r[e] by {
            assert forall|x0: int| last + 1 - (run + 1) <= x0 < last + 1 implies (#[trigger] t[x0])
                == ch by {
                if x0 < last {
                    assert(t[x0] == s[x0]);
                }
            }
            lemma_run_survives_inserts(t, init, ch, last + 1, run + 1);
            assert(r[x] == ch);
        }
        lemma_remove_within_run(r, d, e);
        lemma_insert_desc_commutes(s, last, ch, init, ch);
        lemma_delete_undoes_insert_only_if(s, init, lead0, ch);
        assert forall|k: int, x: int|
            0 <= k < q.len() && q[k] - (#[trigger] lead[k]) <= x < q[k] implies (#[trigger] s[x])
            == ch by {
            if k < n - 1 {
                assert(lead0[k] == lead[k]);
                assert(init[k] - lead0[k] <= x < init[k]);
            }
        }
    }
}

/// Where the text `s` is, from offset `from` on, what the text `r` is `n`
/// places further on, and `r` is `s` with a `ch` put in at `last` and `n - 1`
/// more at offsets up to `last`, the characters of `s` from `from` up to
/// `last` are all `ch`.
pub proof fn lemma_run_backwards(
    s: Seq<char>,
    r: Seq<char>,
    t: Seq<char>,
    ch: char,
    last: int,
    n: int,
    from: int,
)
    requires
        0 <= from <= last <= s.len(),
        n >= 1,
        t == s.insert(last, ch),
        r.len() == s.len() + n,
        forall|x: int| from <= x < s.len() ==> (#[trigger] s[x]) == r[x + n],
        forall|y: int|
            0 <= y < last + n ==> typed_or_from(
                #[trigger] r[y],
                t,
                ch,
                y - (n - 1),
                if y + 1 < last + 1 {
                    y + 1
                } else {
                    last + 1
                },
            ),
    ensures
        forall|x: int| from <= x < last ==> (#[trigger] s[x]) == ch,
    decreases last - from,
{
    if from < last {
        lemma_run_backwards(s, r, t, ch, last, n, from + 1);
        let y = from + n;
        assert(s[from] == r[y]);
        let hi = if y + 1 < last + 1 {
            y + 1
        } else {
            last + 1
        };
        assert(typed_or_from(r[y], t, ch, y - (n - 1), hi));
        if r[y] != ch {
            let x1 = choose|x: int|
                y - (n - 1) <= x < hi && 0 <= x < t.len() && #[trigger] t[x] == r[y];
            if x1 < last {
                assert(t[x1] == s[x1]);
                assert(s[x1] == ch);
            } else {
                assert(t[x1] == ch);
            }
        }
    }
}

/// Taking a number out of a sequence takes it out of the count if it was
/// counted.
pub proof fn lemma_count_below_remove(ps: Seq<usize>, j: int, bound: int)
    requires
        0 <= j < ps.len(),
    ensures
        count_below(ps.remove(j), bound) == count_below(ps, bound) - if ps[j] < bound {
            1int
        } else {
            0int
        },
    decreases ps.len(),
{
    if j == ps.len() - 1 {
        assert(ps.remove(j) =~= ps.drop_last());
    } else {
        assert(ps.remove(j).drop_last() =~= ps.drop_last().remove(j));
        assert(ps.remove(j).last() == ps.last());
        lemma_count_below_remove(ps.drop_last(), j, bound);
    }
}

/// Two sequences that hold the same numbers equally often have as many
/// numbers below any bound.
pub proof fn lemma_count_below_same_numbers(a: Seq<usize>, b: Seq<usize>, bound: int)
    requires
        a.to_multiset() == b.to_multiset(),
    ensures
        count_below(a, bound) == count_below(b, bound),
    decreases a.len(),
{
    broadcast use vstd::seq_lib::group_to_multiset_ensures;

    vstd::seq_lib::to_multiset_len(a);
    vstd::seq_lib::to_multiset_len(b);
    if a.len() > 0 {
        let x = a.last();
        assert(a.contains(x)) by {
            assert(a[a.len() - 1] == x);
        }
        assert(b.to_multiset().count(x) > 0);
        assert(b.contains(x));
        let j = choose|j: int| 0 <= j < b.len() && b[j] == x;
        let a1 = a.drop_last();
        let b1 = b.remove(j);
        assert(a1 =~= a.remove(a.len() - 1));
        assert(a1.to_multiset() == b1.to_multiset());
        lemma_count_below_same_numbers(a1, b1, bound);
        lemma_count_below_remove(b, j, bound);
    }
}

/// Between two bounds lie no more numbers of a strictly ascending sequence
/// than there are numbers between the bounds.
pub proof fn lemma_count_between(ps: Seq<usize>, a: int, b: int)
    requires
        strictly_ascending(ps),
        a <= b,
    ensures
        count_below(ps, b) - count_below(ps, a) <= b - a,
    decreases ps.len(),
{
    if ps.len() > 0 {
        let init = ps.drop_last();
        let last = ps.last() as int;
        assert forall|i: int, j: int| 0 <= i < j < init.len() implies (#[trigger] init[i]) < (
        #[trigger] init[j]) by {
            assert(init[i] == ps[i] && init[j] == ps[j]);
        }
        if a <= last < b {
            assert forall|i: int| 0 <= i < init.len() implies (#[trigger] init[i]) < last by {
                assert(init[i] == ps[i]);
                assert(ps[i] < ps[ps.len() - 1]);
            }
            lemma_count_below_all(init, last);
            lemma_count_below_all(init, b);
            lemma_count_between(init, a, last);
        } else {
            lemma_count_between(init, a, b);
        }
    }
}

/// Two sequences that hold the same numbers equally often still do so after
/// every number has been put through one function.
pub proof fn lemma_map_multiset(a: Seq<usize>, b: Seq<usize>, f: spec_fn(usize) -> usize)
    requires
        a.to_multiset() == b.to_multiset(),
    ensures
        a.map_values(f).to_multiset() == b.map_values(f).to_multiset(),
    decreases a.len(),
{
    broadcast use vstd::seq_lib::group_to_multiset_ensures;

    vstd::seq_lib::to_multiset_len(a);
    vstd::seq_lib::to_multiset_len(b);
    if a.len() == 0 {
        assert(a.map_values(f) =~= b.map_values(f));
    } else {
        let x = a.last();
        assert(a.contains(x)) by {
            assert(a[a.len() - 1] == x);
        }
        assert(b.to_multiset().count(x) > 0);
        assert(b.contains(x));
        let j = choose|j: int| 0 <= j < b.len() && b[j] == x;
        let a1 = a.drop_last();
        let b1 = b.remove(j);
        assert(a1 =~= a.remove(a.len() - 1));
        assert(a1.to_multiset() == b1.to_multiset());
        lemma_map_multiset(a1, b1, f);
        assert(a.map_values(f) =~= a1.map_values(f).push(f(x)));
        assert(b.map_values(f) =~= b1.map_values(f).insert(j, f(x)));
    }
}

/// Where more numbers lie below `b` than below `a`, one of them lies between
/// the two.
pub proof fn lemma_count_below_witness(ps: Seq<usize>, a: int, b: int) -> (k: int)
    requires
        count_below(ps, a) < count_below(ps, b),
    ensures
        0 <= k < ps.len(),
        a <= ps[k] < b,
    decreases ps.len(),
{
    if ps.len() == 0 {
        0
    } else if a <= ps.last() < b {
        ps.len() - 1
    } else {
        lemma_count_below_witness(ps.drop_last(), a, b)
    }
}

/// The offsets of valid cursors of which no two stand at one position are all
/// different, and in ascending order each is smaller than the next.
pub proof fn lemma_offsets_strictly_ascending(s: Seq<char>, cursors: Seq<Cursor>)
    requires
        text_fits(s),
        forall|i: int| 0 <= i < cursors.len() ==> cursor_ok(s, #[trigger] cursors[i]),
        cursors.no_duplicates(),
    ensures
        strictly_ascending(ascending(offsets(s, cursors))),
{
    broadcast use vstd::seq_lib::group_to_multiset_ensures;

    let os = offsets(s, cursors);
    let q = ascending(os);
    lemma_offsets_in_text(s, cursors);
    assert(os.no_duplicates()) by {
        assert forall|i: int, j: int| 0 <= i < os.len() && 0 <= j < os.len() && i != j implies os[i]
            != os[j] by {
            lemma_offset_in_text(s, cursors[i]);
            lemma_offset_in_text(s, cursors[j]);
            if os[i] == os[j] {
                assert(cursors[i].line == cursors[j].line);
                assert(cursors[i].col == cursors[j].col);
                assert(cursors[i] == cursors[j]);
            }
        }
    }
    os.lemma_multiset_has_no_duplicates();
    lemma_leq_is_total();
    os.lemma_sort_by_ensures(leq());
    q.lemma_multiset_has_no_duplicates_conv();
    assert forall|i: int, j: int| 0 <= i < j < q.len() implies (#[trigger] q[i]) < (
    #[trigger] q[j]) by {
        assert(leq()(q[i], q[j]));
    }
}

/// How many of the offsets `os` lie on the line of offset `x` in front of
/// `x`.
pub open spec fn lead_of(s: Seq<char>, os: Seq<usize>, x: int) -> int {
    count_below(os, x) - count_below(os, line_start(s, line_of(s, x)))
}

impl EditorView {
    /// What a character that is no line break does to a cursor that it is
    /// typed at: the cursor moves one column on and needs no clamping, and
    /// its offset grows by one and by the number of offsets that lie in front
    /// of its line.
    pub proof fn lemma_typed_cursor(self, ch: char, i: int)
        requires
            self.wf(),
            text_fits(self.text_after_insert(ch)),
            ch != '\n',
            0 <= i < self.cursors.len(),
        ensures
            self.cursor_after_insert(self.cursors[i], ch) == (Cursor {
                line: self.cursors[i].line,
                col: (self.cursors[i].col + 1) as usize,
            }),
            self.cursors[i].col + 1 <= usize::MAX,
            cursor_ok(self.text_after_insert(ch), self.cursor_after_insert(self.cursors[i], ch)),
            offset_of(self.text_after_insert(ch), self.cursor_after_insert(self.cursors[i], ch))
                == offset_of(self.text, self.cursors[i]) + count_below(
                ascending(offsets(self.text, self.cursors)),
                line_start(self.text, self.cursors[i].line as int),
            ) + 1,
    {
        let s = self.text;
        let c = self.cursors[i];
        let l = c.line as int;
        let os = offsets(s, self.cursors);
        let q = ascending(os);
        let t = self.text_after_insert(ch);
        lemma_offsets_in_text(s, self.cursors);
        lemma_ascending_members(os);
        lemma_insert_desc_lines(s, q, ch, l);
        lemma_insert_desc_lines(s, q, ch, l + 1);
        lemma_line_shape(s, l);
        lemma_line_shape(t, l);
        lemma_offset_in_text(s, c);
        // the cursor's own offset is one of the offsets
        let p = os[i];
        assert(q.contains(p)) by {
            broadcast use vstd::seq_lib::group_to_multiset_ensures;

            lemma_leq_is_total();
            os.lemma_sort_by_ensures(leq());
            assert(os.contains(p));
            assert(os.to_multiset().count(p) > 0);
        }
        let k = choose|k: int| 0 <= k < q.len() && q[k] == p;
        lemma_count_below_grows(q, line_start(s, l), line_bound(s, l + 1), k);
        lemma_count_below_bounds(q, line_bound(s, l + 1));
    }

    /// The offsets of the cursors in ascending order.
    pub open spec fn offsets_in_order(self) -> Seq<usize> {
        ascending(offsets(self.text, self.cursors))
    }

    /// How many cursors stand on the line of cursor `i` in front of it.
    pub open spec fn cursors_in_front(self, i: int) -> int {
        lead_of(
            self.text,
            offsets(self.text, self.cursors),
            offset_of(self.text, self.cursors[i]),
        )
    }

    /// In front of every cursor stand as many `ch` in a row as cursors stand
    /// in front of it on its line. A cursor that is the first on its line
    /// asks for nothing.
    pub open spec fn typed_in_front(self, ch: char) -> bool {
        forall|i: int, x: int|
            0 <= i < self.cursors.len() && offset_of(self.text, #[trigger] self.cursors[i])
                - self.cursors_in_front(i) <= x < offset_of(self.text, self.cursors[i])
                ==> (#[trigger] self.text[x]) == ch
    }

    /// Where no two cursors are on one line, no cursor has another in front of
    /// it, so any character can be typed and taken back.
    pub proof fn lemma_one_cursor_to_a_line(self, ch: char)
        requires
            self.wf(),
            forall|i: int, j: int|
                0 <= i < self.cursors.len() && 0 <= j < self.cursors.len() && i != j ==> (
                #[trigger] self.cursors[i]).line != (#[trigger] self.cursors[j]).line,
        ensures
            self.cursors.no_duplicates(),
            self.typed_in_front(ch),
    {
        let s = self.text;
        let os = offsets(s, self.cursors);
        lemma_offsets_in_text(s, self.cursors);
        assert forall|i: int| 0 <= i < self.cursors.len() implies self.cursors_in_front(i)
            <= 0 by {
            let c = self.cursors[i];
            let start = line_start(s, c.line as int);
            let p = offset_of(s, c);
            lemma_offset_in_text(s, c);
            if count_below(os, start) < count_below(os, p) {
                let k = lemma_count_below_witness(os, start, p);
                lemma_offset_in_text(s, self.cursors[k]);
                lemma_line_shape(s, c.line as int);
                assert(breaks_before(s, os[k] as int) == c.line);
                assert(self.cursors[k].line == self.cursors[i].line);
            }
        }
    }

    /// What typing a character that is no line break and then a backspace do
    /// to the text, where no two cursors stand at one position: the character
    /// is put in at the offsets of the cursors, and the backspace deletes in
    /// front of the targets that the offsets and their leads give. Each cursor
    /// stands one column on in between.
    pub proof fn lemma_typed_then_deleted(self, ch: char)
        requires
            self.wf(),
            self.insert(ch).wf(),
            ch != '\n',
            self.cursors.no_duplicates(),
        ensures
            strictly_ascending(self.offsets_in_order()),
            self.offsets_in_order().len() == self.cursors.len(),
            forall|i: int|
                0 <= i < self.cursors.len() ==> (#[trigger] self.offsets_in_order()[i])
                    <= self.text.len(),
            self.text.len() + self.cursors.len() <= usize::MAX,
            forall|k: int|
                0 <= k < self.cursors.len() ==> 0 <= (#[trigger] leads(
                    self.text,
                    self.offsets_in_order(),
                )[k]) <= self.offsets_in_order()[k],
            forall|k: int|
                0 <= k < self.cursors.len() - 1 ==> self.offsets_in_order()[k] - (#[trigger] leads(
                    self.text,
                    self.offsets_in_order(),
                )[k]) < self.offsets_in_order()[k + 1] + 1 - leads(
                    self.text,
                    self.offsets_in_order(),
                )[k + 1],
            self.insert(ch).text_after_backspace() == delete_desc(
                insert_desc(self.text, self.offsets_in_order(), ch),
                targets(self.offsets_in_order(), leads(self.text, self.offsets_in_order())),
            ),
            forall|i: int|
                0 <= i < self.cursors.len() ==> (#[trigger] self.cursors[i]).col + 1 <= usize::MAX,
            forall|i: int|
                0 <= i < self.cursors.len() ==> (#[trigger] self.insert(ch).cursors[i]).line
                    == self.cursors[i].line && self.insert(ch).cursors[i].col
                    == self.cursors[i].col + 1,
    {
        let s = self.text;
        let cs = self.cursors;
        let n = cs.len() as int;
        let os = offsets(s, cs);
        let q = ascending(os);
        let mid = self.insert(ch);
        let t = mid.text;
        let os2 = offsets(t, mid.cursors);
        lemma_offsets_in_text(s, cs);
        lemma_ascending_members(os);
        lemma_offsets_strictly_ascending(s, cs);
        lemma_insert_desc_lines(s, q, ch, 0);
        lemma_leq_is_total();
        os.lemma_sort_by_ensures(leq());
        let f = |x: usize|
            (x + 1 + count_below(q, line_start(s, line_of(s, x as int)))) as usize;
        let lead = leads(s, q);
        // where each cursor goes
        assert forall|i: int| 0 <= i < n implies {
            &&& (#[trigger] mid.cursors[i]) == (Cursor { line: cs[i].line, col: (cs[i].col + 1) as usize })
            &&& cs[i].col + 1 <= usize::MAX
            &&& os2[i] == f(os[i])
        } by {
            self.lemma_typed_cursor(ch, i);
            lemma_offset_in_text(s, cs[i]);
            lemma_offset_in_text(t, mid.cursors[i]);
        }
        assert(os2 =~= os.map_values(f));
        assert forall|i: int| 0 <= i < n implies (#[trigger] cs[i]).col + 1 <= usize::MAX by {
            self.lemma_typed_cursor(ch, i);
        }
        // the offsets in order, each with its lead
        assert forall|k: int| 0 <= k < n implies {
            &&& 0 <= (#[trigger] lead[k]) <= q[k]
            &&& lead[k] == k - count_below(q, line_start(s, line_of(s, q[k] as int)))
            &&& targets(q, lead)[k] == f(q[k])
            &&& 0 <= line_start(s, line_of(s, q[k] as int)) <= q[k]
        } by {
            let x = q[k] as int;
            lemma_count_below_member(q, k);
            crate::text::lemma_line_of(s, x);
            let start = line_start(s, line_of(s, x));
            lemma_line_start_ordered(s, line_of(s, x), line_of(s, x));
            lemma_count_below_monotonic(q, start, x);
            lemma_count_between(q, start, x);
            lemma_count_below_bounds(q, start);
            assert(lead[k] == k - count_below(q, start));
            assert(q[k] + k + 1 - lead[k] <= s.len() + n);
            assert(targets(q, lead)[k] == f(q[k]));
        }
        assert(targets(q, lead) =~= q.map_values(f));
        assert forall|k: int| 0 <= k < n - 1 implies q[k] - (#[trigger] lead[k]) < q[k + 1] + 1
            - lead[k + 1] by {
            assert(q[k] < q[k + 1]);
            crate::text::lemma_breaks_before_monotonic(s, q[k] as int, q[k + 1] as int);
            crate::text::lemma_breaks_before_bounds(s, q[k] as int);
            lemma_line_start_ordered(s, line_of(s, q[k] as int), line_of(s, q[k + 1] as int));
            lemma_count_below_monotonic(
                q,
                line_start(s, line_of(s, q[k] as int)),
                line_start(s, line_of(s, q[k + 1] as int)),
            );
            assert(lead[k] == k - count_below(q, line_start(s, line_of(s, q[k] as int))));
            assert(lead[k + 1] == k + 1 - count_below(
                q,
                line_start(s, line_of(s, q[k + 1] as int)),
            ));
        }
        // the offsets after typing, in order, are the targets
        os2.lemma_sort_by_ensures(leq());
        lemma_map_multiset(os, q, f);
        assert(sorted_by(targets(q, lead), leq())) by {
            assert forall|a: int, b: int|
                0 <= a < b < targets(q, lead).len() implies #[trigger] leq()(
                targets(q, lead)[a],
                targets(q, lead)[b],
            ) by {
                lemma_targets_ascend(q, lead, a, b);
            }
        }
        lemma_sorted_unique(targets(q, lead), ascending(os2), leq());
    }

    /// The lead of a cursor's offset among the offsets in order is the number
    /// of cursors that stand in front of the cursor on its line.
    pub proof fn lemma_lead_of_cursor(self, i: int, k: int)
        requires
            self.wf(),
            0 <= i < self.cursors.len(),
            0 <= k < self.cursors.len(),
            ascending(offsets(self.text, self.cursors))[k] == offsets(self.text, self.cursors)[i],
        ensures
            leads(self.text, ascending(offsets(self.text, self.cursors)))[k]
                == self.cursors_in_front(i),
            ascending(offsets(self.text, self.cursors))[k] == offset_of(
                self.text,
                self.cursors[i],
            ),
    {
        let s = self.text;
        let os = offsets(s, self.cursors);
        let q = ascending(os);
        lemma_offsets_in_text(s, self.cursors);
        lemma_ascending_members(os);
        lemma_leq_is_total();
        os.lemma_sort_by_ensures(leq());
        lemma_offset_in_text(s, self.cursors[i]);
        lemma_count_below_same_numbers(os, q, q[k] as int);
        lemma_count_below_same_numbers(os, q, line_start(s, line_of(s, q[k] as int)));
    }

    /// Round trip: a character that is no line break, typed and at once taken
    /// back with a backspace, leaves the text and every cursor where they
    /// were, provided that no two cursors stand at one position and that in
    /// front of every cursor stand as many of that character as cursors stand
    /// in front of it on its line. With one cursor to a line nothing is asked
    /// of the text.
    pub proof fn lemma_insert_backspace_round_trip(self, ch: char)
        requires
            self.wf(),
            self.insert(ch).wf(),
            ch != '\n',
            self.cursors.no_duplicates(),
            self.typed_in_front(ch),
        ensures
            self.insert(ch).backspace().text == self.text,
            self.insert(ch).backspace().cursors == self.cursors,
    {
        let s = self.text;
        let os = offsets(s, self.cursors);
        let q = ascending(os);
        let lead = leads(s, q);
        let n = self.cursors.len() as int;
        self.lemma_typed_then_deleted(ch);
        lemma_ascending_members(os);
        assert forall|k: int, x: int|
            0 <= k < n && q[k] - (#[trigger] lead[k]) <= x < q[k] implies (#[trigger] s[x])
            == ch by {
            assert(os.contains(q[k]));
            let i = choose|i: int| 0 <= i < os.len() && os[i] == q[k];
            self.lemma_lead_of_cursor(i, k);
            assert(offset_of(s, self.cursors[i]) - self.cursors_in_front(i) <= x < offset_of(
                s,
                self.cursors[i],
            ));
        }
        lemma_delete_undoes_insert(s, q, lead, ch);
        assert(self.insert(ch).backspace().cursors =~= self.cursors);
    }

    /// The round trip holds in no other case: where typing a character that
    /// is no line break and a backspace give the text back, no two cursors
    /// stand at one position, and in front of every cursor stand as many of
    /// that character as cursors stand in front of it on its line.
    pub proof fn lemma_round_trip_only_so(self, ch: char)
        requires
            self.wf(),
            self.insert(ch).wf(),
            ch != '\n',
            self.insert(ch).backspace().text == self.text,
        ensures
            self.cursors.no_duplicates(),
            self.typed_in_front(ch),
    {
        let s = self.text;
        let cs = self.cursors;
        let n = cs.len() as int;
        let os = offsets(s, cs);
        let q = ascending(os);
        let mid = self.insert(ch);
        let t = mid.text;
        let os2 = offsets(t, mid.cursors);
        let m2 = ascending(os2);
        // as many characters are taken out as were put in, so no two cursors
        // delete at one offset
        lemma_offsets_in_text(s, cs);
        lemma_ascending_members(os);
        lemma_insert_desc_lines(s, q, ch, 0);
        lemma_offsets_in_text(t, mid.cursors);
        lemma_ascending_members(os2);
        lemma_delete_desc_len(t, m2);
        assert(strictly_ascending(m2));
        assert(cs.no_duplicates()) by {
            broadcast use vstd::seq_lib::group_to_multiset_ensures;

            lemma_leq_is_total();
            os2.lemma_sort_by_ensures(leq());
            assert(m2.no_duplicates());
            m2.lemma_multiset_has_no_duplicates();
            os2.lemma_multiset_has_no_duplicates_conv();
            assert forall|i: int, j: int| 0 <= i < n && 0 <= j < n && i != j implies cs[i]
                != cs[j] by {
                if cs[i] == cs[j] {
                    assert(mid.cursors[i] == mid.cursors[j]);
                    assert(os2[i] == os2[j]);
                }
            }
        }
        // and each deletion takes out a `ch`
        let lead = leads(s, q);
        self.lemma_typed_then_deleted(ch);
        lemma_delete_undoes_insert_only_if(s, q, lead, ch);
        assert forall|i: int, x: int|
            0 <= i < self.cursors.len() && offset_of(self.text, #[trigger] self.cursors[i])
                - self.cursors_in_front(i) <= x < offset_of(self.text, self.cursors[i]) implies (
        #[trigger] self.text[x]) == ch by {
            assert(os.contains(os[i]));
            lemma_leq_is_total();
            os.lemma_sort_by_ensures(leq());
            assert(q.contains(os[i])) by {
                broadcast use vstd::seq_lib::group_to_multiset_ensures;

                assert(os.to_multiset().count(os[i]) > 0);
            }
            let k = choose|k: int| 0 <= k < q.len() && q[k] == os[i];
            self.lemma_lead_of_cursor(i, k);
            assert(q[k] - lead[k] <= x < q[k]);
        }
    }
}

/// The lead of each of the offsets `q`: how many of them lie on its line in
/// front of it.
pub open spec fn leads(s: Seq<char>, q: Seq<usize>) -> Seq<int> {
    Seq::new(q.len(), |k: int| lead_of(s, q, q[k] as int))
}

/// Targets whose neighbours ascend ascend throughout.
pub proof fn lemma_targets_ascend(q: Seq<usize>, lead: Seq<int>, a: int, b: int)
    requires
        lead.len() == q.len(),
        0 <= a <= b < q.len(),
        forall|k: int| 0 <= k < q.len() ==> 0 <= (#[trigger] lead[k]) <= q[k],
        forall|k: int|
            0 <= k < q.len() - 1 ==> q[k] - (#[trigger] lead[k]) < q[k + 1] + 1 - lead[k + 1],
    ensures
        q[a] + a + 1 - lead[a] <= q[b] + b + 1 - lead[b],
        a < b ==> q[a] + a + 1 - lead[a] < q[b] + b + 1 - lead[b],
    decreases b - a,
{
    if a < b {
        lemma_targets_ascend(q, lead, a, b - 1);
        assert(q[b - 1] - lead[b - 1] < q[b - 1 + 1] + 1 - lead[b - 1 + 1]);
    }
}

} // verus!
