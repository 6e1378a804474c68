//! A map from panel ids to rectangles, kept as a list in which no id occurs
//! twice.

use crate::layout::Rect;
use vstd::prelude::*;

verus! {

/// The ids of a list of entries are all different.
pub open spec fn distinct_ids(entries: Seq<(String, Rect)>) -> bool {
    forall|i: int, j: int|
        0 <= i < entries.len() && 0 <= j < entries.len() && i != j ==> (#[trigger] entries[i]).0@
            != (#[trigger] entries[j]).0@
}

/// Whether some entry holds `id`.
pub open spec fn has_id(entries: Seq<(String, Rect)>, id: Seq<char>) -> bool {
    exists|i: int| 0 <= i < entries.len() && (#[trigger] entries[i]).0@ == id
}

/// The index of an entry that holds `id`.
pub open spec fn index_of(entries: Seq<(String, Rect)>, id: Seq<char>) -> int {
    choose|i: int| 0 <= i < entries.len() && (#[trigger] entries[i]).0@ == id
}

/// The map that a list of entries stands for.
pub open spec fn entries_map(entries: Seq<(String, Rect)>) -> Map<Seq<char>, Rect> {
    Map::new(|id: Seq<char>| has_id(entries, id), |id: Seq<char>| entries[index_of(entries, id)].1)
}

/// In a list with distinct ids, the entry at `i` is what the map holds for
/// its id.
pub proof fn lemma_entry_is_mapped(entries: Seq<(String, Rect)>, i: int)
    requires
        distinct_ids(entries),
        0 <= i < entries.len(),
    ensures
        entries_map(entries).dom().contains(entries[i].0@),
        entries_map(entries)[entries[i].0@] == entries[i].1,
        index_of(entries, entries[i].0@) == i,
{
    let id = entries[i].0@;
    assert(has_id(entries, id));
    let k = index_of(entries, id);
    if k != i {
        assert(entries[k].0@ != entries[i].0@);
    }
}

pub struct RectMap {
    entries: Vec<(String, Rect)>,
}

impl View for RectMap {
    type V = Map<Seq<char>, Rect>;

    closed spec fn view(&self) -> Map<Seq<char>, Rect> {
        entries_map(self.entries@)
    }
}

impl RectMap {
    /// No id is listed twice.
    pub closed spec fn wf(&self) -> bool {
        distinct_ids(self.entries@)
    }

    /// The ids and rectangles in the order in which the ids were first put
    /// in.
    pub closed spec fn entries(&self) -> Seq<(String, Rect)> {
        self.entries@
    }

    /// The empty map.
    pub fn new() -> (m: RectMap)
        ensures
            m.wf(),
            m@ == Map::<Seq<char>, Rect>::empty(),
            m.entries().len() == 0,
    {
        let m = RectMap { entries: Vec::new() };
        assert(m@ =~= Map::<Seq<char>, Rect>::empty());
        m
    }

    /// Number of ids in the map.
    pub fn len(&self) -> (n: usize)
        ensures
            n == self.entries().len(),
    {
        self.entries.len()
    }

    /// The index of the entry for `id`, if there is one.
    fn find(&self, id: &String) -> (r: Option<usize>)
        ensures
            match r {
                Some(i) => i < self.entries@.len() && self.entries@[i as int].0@ == id@,
                None => !has_id(self.entries@, id@),
            },
    {
        let mut i: usize = 0;
        while i < self.entries.len()
            invariant
                i <= self.entries.len(),
                forall|j: int| 0 <= j < i ==> (#[trigger] self.entries@[j]).0@ != id@,
            decreases self.entries.len() - i,
        {
            if self.entries[i].0 == *id {
                return Some(i);
            }
            i += 1;
        }
        None
    }

    /// Puts `rect` under `id`, in place of what was there.
    pub fn insert(&mut self, id: String, rect: Rect)
        requires
            old(self).wf(),
        ensures
            final(self).wf(),
            final(self)@ == old(self)@.insert(id@, rect),
    {
        let ghost before = self.entries@;
        match self.find(&id) {
            Some(i) => {
                self.entries[i] = (id, rect);
                proof {
                    let after = self.entries@;
                    assert(distinct_ids(after)) by {
                        assert forall|a: int, b: int|
                            0 <= a < after.len() && 0 <= b < after.len() && a != b implies (
                        #[trigger] after[a]).0@ != (#[trigger] after[b]).0@ by {
                            assert(before[a].0@ != before[b].0@);
                        }
                    }
                    assert forall|k: Seq<char>| has_id(after, k) == has_id(before, k) by {
                        if has_id(after, k) {
                            let a = index_of(after, k);
                            assert(before[a].0@ == k);
                        }
                        if has_id(before, k) {
                            let a = index_of(before, k);
                            assert(after[a].0@ == k);
                        }
                    }
                    assert forall|k: Seq<char>| has_id(after, k) implies entries_map(after)[k]
                        == entries_map(before).insert(id@, rect)[k] by {
                        let a = index_of(after, k);
                        lemma_entry_is_mapped(after, a);
                        lemma_entry_is_mapped(before, a);
                    }
                    assert(entries_map(after) =~= entries_map(before).insert(id@, rect));
                }
            },
            None => {
                self.entries.push((id, rect));
                proof {
                    let after = self.entries@;
                    let n = before.len() as int;
                    assert(distinct_ids(after)) by {
                        assert forall|a: int, b: int|
                            0 <= a < after.len() && 0 <= b < after.len() && a != b implies (
                        #[trigger] after[a]).0@ != (#[trigger] after[b]).0@ by {
                            if a < n && b < n {
                                assert(before[a].0@ != before[b].0@);
                            } else if a < n {
                                assert(before[a].0@ != id@);
                            } else {
                                assert(before[b].0@ != id@);
                            }
                        }
                    }
                    assert forall|k: Seq<char>| has_id(after, k) == (has_id(before, k) || k
                        == id@) by {
                        if has_id(after, k) {
                            let a = index_of(after, k);
                            if a < n {
                                assert(before[a].0@ == k);
                            }
                        }
                        if has_id(before, k) {
                            let a = index_of(before, k);
                            assert(after[a].0@ == k);
                        }
                        if k == id@ {
                            assert(after[n].0@ == k);
                        }
                    }
                    assert forall|k: Seq<char>| has_id(after, k) implies entries_map(after)[k]
                        == entries_map(before).insert(id@, rect)[k] by {
                        let a = index_of(after, k);
                        lemma_entry_is_mapped(after, a);
                        if a < n {
                            lemma_entry_is_mapped(before, a);
                        }
                    }
                    assert(entries_map(after) =~= entries_map(before).insert(id@, rect));
                }
            },
        }
    }

    /// The rectangle under `id`, if there is one.
    pub fn get(&self, id: &str) -> (r: Option<Rect>)
        requires
            self.wf(),
        ensures
            r == (if self@.dom().contains(id@) {
                Some(self@[id@])
            } else {
                None
            }),
    {
        let key = id.to_owned();
        match self.find(&key) {
            Some(i) => {
                proof {
                    lemma_entry_is_mapped(self.entries@, i as int);
                }
                Some(self.entries[i].1)
            },
            None => None,
        }
    }

    /// The id of the entry at `index`: an id of the map.
    pub fn id_at(&self, index: usize) -> (id: String)
        requires
            self.wf(),
            index < self.entries().len(),
        ensures
            id@ == self.entries()[index as int].0@,
            self@.dom().contains(id@),
    {
        proof {
            lemma_entry_is_mapped(self.entries@, index as int);
        }
        self.entries[index].0.clone()
    }

    /// The rectangle of the entry at `index`: what the map holds for the id
    /// at `index`.
    pub fn rect_at(&self, index: usize) -> (rect: Rect)
        requires
            self.wf(),
            index < self.entries().len(),
        ensures
            rect == self.entries()[index as int].1,
            rect == self@[self.entries()[index as int].0@],
    {
        proof {
            lemma_entry_is_mapped(self.entries@, index as int);
        }
        self.entries[index].1
    }
}

} // verus!
