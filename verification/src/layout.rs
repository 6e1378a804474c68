//! The tree of splits and leaves that divides the screen among panels.

use vstd::prelude::*;

verus! {

/// The axis along which a split lays out its children.
#[derive(Debug, Clone, Copy, PartialEq, Eq, Structural)]
pub enum SplitOrientation {
    /// The children are stacked, each below the one before.
    Horizontal,
    /// The children stand side by side, each right of the one before.
    Vertical,
}

/// Where a new panel goes in relation to an existing one.
#[derive(Debug, Clone, Copy, PartialEq, Eq, Structural)]
pub enum Placement {
    Top,
    Bottom,
    Left,
    Right,
    Replace,
}

/// A rectangle of screen cells.
#[derive(Debug, Clone, Copy, PartialEq, Eq, Structural)]
pub struct Rect {
    pub x: u16,
    pub y: u16,
    pub width: u16,
    pub height: u16,
}

/// A node of the layout tree. The weights of a split are whole numbers; a
/// child's share of the split is its weight over the sum of the weights.
#[derive(Debug)]
pub enum LayoutNode {
    Leaf { panel_id: String },
    Split { orientation: SplitOrientation, children: Vec<LayoutNode>, ratios: Vec<u32> },
}

/// A layout tree as mathematics.
pub enum Tree {
    Leaf { id: Seq<char> },
    Split { orientation: SplitOrientation, children: Seq<Tree>, ratios: Seq<u32> },
}

impl View for LayoutNode {
    type V = Tree;

    open spec fn view(&self) -> Tree
        decreases self,
    {
        match self {
            LayoutNode::Leaf { panel_id } => Tree::Leaf { id: panel_id@ },
            LayoutNode::Split { orientation, children, ratios } => Tree::Split {
                orientation: *orientation,
                children: Seq::new(
                    children.len() as nat,
                    |i: int|
                        if 0 <= i < children.len() {
                            children[i]@
                        } else {
                            Tree::Leaf { id: Seq::empty() }
                        },
                ),
                ratios: ratios@,
            },
        }
    }
}

/// The weight of each side of a fresh split.
pub const HALF: u32 = 50;

/// The weights of the split that takes a panel whose target was not found:
/// the old tree's, then the new panel's.
pub const FALLBACK_OLD: u32 = 80;

pub const FALLBACK_NEW: u32 = 20;

/// The orientation of the split that places a panel at `placement`.
pub open spec fn orientation_for(placement: Placement) -> SplitOrientation {
    match placement {
        Placement::Top | Placement::Bottom => SplitOrientation::Horizontal,
        _ => SplitOrientation::Vertical,
    }
}

/// The two-child split that puts `new` at `placement` beside `old`: the new
/// node first for `Top` and `Left`, the old one first for `Bottom` and
/// `Right`, each with half the space.
pub open spec fn split_of(old: Tree, new: Tree, placement: Placement) -> Tree {
    Tree::Split {
        orientation: orientation_for(placement),
        children: match placement {
            Placement::Top | Placement::Left => seq![new, old],
            _ => seq![old, new],
        },
        ratios: seq![HALF, HALF],
    }
}

impl Tree {
    /// Every split has a child, as many weights as children, and no weight
    /// of zero.
    pub open spec fn wf(self) -> bool
        decreases self,
    {
        match self {
            Tree::Leaf { .. } => true,
            Tree::Split { children, ratios, .. } => {
                &&& children.len() >= 1
                &&& ratios.len() == children.len()
                &&& forall|i: int| 0 <= i < ratios.len() ==> (#[trigger] ratios[i]) > 0
                &&& forall|i: int| 0 <= i < children.len() ==> (#[trigger] children[i]).wf()
            },
        }
    }

    /// Whether some leaf of the tree holds `id`.
    pub open spec fn has_leaf(self, id: Seq<char>) -> bool
        decreases self,
    {
        match self {
            Tree::Leaf { id: own } => own == id,
            Tree::Split { children, .. } => exists|i: int|
                0 <= i < children.len() && (#[trigger] children[i]).has_leaf(id),
        }
    }

    /// The tree after `new_id` has been placed relative to the first leaf, in
    /// depth-first order, that holds `target`. `Replace` gives that leaf the
    /// new id; any other placement turns it into a split of the leaf and a
    /// new leaf. A tree without such a leaf stays as it is.
    pub open spec fn add_relative(self, target: Seq<char>, new_id: Seq<char>, placement: Placement) -> Tree
        decreases self,
    {
        match self {
            Tree::Leaf { id } => {
                if id != target {
                    self
                } else if placement == Placement::Replace {
                    Tree::Leaf { id: new_id }
                } else {
                    split_of(self, Tree::Leaf { id: new_id }, placement)
                }
            },
            Tree::Split { orientation, children, ratios } => {
                let k = first_with_leaf(children, target);
                if self.has_leaf(target) && 0 <= k < children.len() {
                    Tree::Split {
                        orientation,
                        children: children.update(
                            k,
                            children[k].add_relative(target, new_id, placement),
                        ),
                        ratios,
                    }
                } else {
                    self
                }
            },
        }
    }
}

impl LayoutNode {
    /// Whether every split of the tree has a child, as many weights as
    /// children, and no weight of zero.
    pub fn is_well_formed(&self) -> (ok: bool)
        ensures
            ok == self@.wf(),
        decreases self@,
    {
        match self {
            LayoutNode::Leaf { .. } => true,
            LayoutNode::Split { children, ratios, .. } => {
                let ghost kids = self@->children;
                if children.len() == 0 || ratios.len() != children.len() {
                    return false;
                }
                let n = children.len();
                let mut i: usize = 0;
                while i < n
                    invariant
                        i <= n,
                        n == children.len(),
                        n == ratios.len(),
                        self@ is Split,
                        kids == self@->children,
                        self@->ratios == ratios@,
                        kids.len() == n,
                        forall|j: int| 0 <= j < n ==> (#[trigger] children@[j])@ == kids[j],
                        forall|j: int| 0 <= j < i ==> (#[trigger] ratios@[j]) > 0,
                        forall|j: int| 0 <= j < i ==> (#[trigger] kids[j]).wf(),
                    decreases n - i,
                {
                    if ratios[i] == 0 {
                        return false;
                    }
                    if !children[i].is_well_formed() {
                        assert(!kids[i as int].wf());
                        return false;
                    }
                    i += 1;
                }
                true
            },
        }
    }

    /// Places `new_id` relative to the first leaf, in depth-first order, that
    /// holds `target_id`, and tells whether there was such a leaf.
    pub fn add_relative(&mut self, target_id: &str, new_id: String, placement: Placement) -> (found:
        bool)
        ensures
            found == old(self)@.has_leaf(target_id@),
            final(self)@ == old(self)@.add_relative(target_id@, new_id@, placement),
            old(self)@.wf() ==> final(self)@.wf(),
    {
        let target = target_id.to_owned();
        self.add_relative_to(&target, new_id, placement)
    }

    fn add_relative_to(&mut self, target: &String, new_id: String, placement: Placement) -> (found:
        bool)
        ensures
            found == old(self)@.has_leaf(target@),
            final(self)@ == old(self)@.add_relative(target@, new_id@, placement),
            old(self)@.wf() ==> final(self)@.wf(),
        decreases old(self)@,
    {
        let ghost before = self@;
        let ghost node0 = *self;
        match self {
            LayoutNode::Leaf { panel_id } => {
                if *panel_id == *target {
                    if placement == Placement::Replace {
                        *panel_id = new_id;
                        return true;
                    }
                    let old = LayoutNode::Leaf { panel_id: panel_id.clone() };
                    let new_leaf = LayoutNode::Leaf { panel_id: new_id };
                    assert(old@ == before);
                    assert(new_leaf@ == Tree::Leaf { id: new_id@ });
                    let (orientation, children) = match placement {
                        Placement::Top => (SplitOrientation::Horizontal, vec![new_leaf, old]),
                        Placement::Bottom => (SplitOrientation::Horizontal, vec![old, new_leaf]),
                        Placement::Left => (SplitOrientation::Vertical, vec![new_leaf, old]),
                        _ => (SplitOrientation::Vertical, vec![old, new_leaf]),
                    };
                    let node = LayoutNode::Split { orientation, children, ratios: vec![HALF, HALF] };
                    proof {
                        let want = split_of(before, Tree::Leaf { id: new_id@ }, placement);
                        assert(node@->children =~= want->children);
                        assert(node@->ratios =~= want->ratios);
                        assert(want->children[0].wf() && want->children[1].wf());
                        assert(want.wf());
                        assert(node@ == want);
                        assert(want == before.add_relative(target@, new_id@, placement));
                    }
                    *self = node;
                    true
                } else {
                    false
                }
            },
            LayoutNode::Split { children, .. } => {
                let mut i: usize = 0;
                while i < children.len()
                    invariant
                        i <= children.len(),
                        before == old(self)@,
                        before is Split,
                        node0 is Split,
                        node0@ == before,
                        after_borrow(*self) == (LayoutNode::Split {
                            orientation: node0->orientation,
                            children: *final(children),
                            ratios: node0->ratios,
                        }),
                        children@.len() == before->children.len(),
                        forall|j: int|
                            0 <= j < children@.len() ==> (#[trigger] children@[j])@
                                == before->children[j],
                        forall|j: int|
                            0 <= j < i ==> !(#[trigger] before->children[j]).has_leaf(target@),
                    decreases children.len() - i,
                {
                    let ghost child = children@[i as int]@;
                    assert(child == before->children[i as int]);
                    if children[i].add_relative_to(target, new_id.clone(), placement) {
                        proof {
                            lemma_first_with_leaf(before->children, target@, i as int);
                            assert(before.has_leaf(target@));
                            let after = before.add_relative(target@, new_id@, placement);
                            assert(children@[i as int]@ == after->children[i as int]);
                            assert forall|j: int| 0 <= j < children@.len() implies (
                            #[trigger] children@[j])@ == after->children[j] by {}
                            if before.wf() {
                                assert forall|j: int| 0 <= j < after->children.len() implies (
                                #[trigger] after->children[j]).wf() by {
                                    if j != i {
                                        assert(before->children[j].wf());
                                    }
                                }
                                assert(after.wf());
                            }
                            let fin = LayoutNode::Split {
                                orientation: node0->orientation,
                                children: *children,
                                ratios: node0->ratios,
                            };
                            assert(fin@->children =~= after->children);
                            assert(fin@ == after);
                        }
                        return true;
                    }
                    proof {
                        child.lemma_add_relative_absent(target@, new_id@, placement);
                    }
                    i += 1;
                }
                proof {
                    let fin = LayoutNode::Split {
                        orientation: node0->orientation,
                        children: *children,
                        ratios: node0->ratios,
                    };
                    assert(fin@->children =~= before->children);
                    assert(fin@ == before);
                }
                false
            },
        }
    }
}

/// The first tree with a leaf for `id` is the one before which none has it.
pub proof fn lemma_first_with_leaf(trees: Seq<Tree>, id: Seq<char>, k: int)
    requires
        0 <= k < trees.len(),
        trees[k].has_leaf(id),
        forall|j: int| 0 <= j < k ==> !(#[trigger] trees[j]).has_leaf(id),
    ensures
        first_with_leaf(trees, id) == k,
{
    let f = first_with_leaf(trees, id);
    if f < k {
        assert(!trees[f].has_leaf(id));
    }
}

impl Tree {
    /// A tree without a leaf for the target is left as it is.
    pub proof fn lemma_add_relative_absent(self, target: Seq<char>, new_id: Seq<char>, placement: Placement)
        requires
            !self.has_leaf(target),
        ensures
            self.add_relative(target, new_id, placement) == self,
    {
    }
}

/// The index of the first tree of `trees` with a leaf that holds `id`.
pub open spec fn first_with_leaf(trees: Seq<Tree>, id: Seq<char>) -> int {
    choose|k: int|
        0 <= k < trees.len() && (#[trigger] trees[k]).has_leaf(id) && forall|j: int|
            0 <= j < k ==> !(#[trigger] trees[j]).has_leaf(id)
}

} // verus!
