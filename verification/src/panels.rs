//! The panels on screen and the layout tree that places them.

use crate::layout::{
    split_of, LayoutNode, Placement, Rect, SplitOrientation, Tree, FALLBACK_NEW, FALLBACK_OLD,
    HALF,
};
use crate::rect_map::RectMap;
use crate::resolve::{
    axis_len, axis_start, child_extent, child_offset, lemma_place_all_concat,
    lemma_share_bounds, lemma_weight_in_sum, place_all, placed_children, share, total_weight,
    weight_sum,
};
use vstd::prelude::*;

verus! {

/// What a panel shows.
#[derive(Debug, Clone, Copy, PartialEq, Eq, Structural)]
pub enum PanelChild {
    Editor,
    Explorer,
}

/// A panel: its id, what it shows, and the rectangle that the last layout
/// gave it.
#[derive(Debug)]
pub struct Panel {
    pub id: String,
    pub child: PanelChild,
    pub position: (u16, u16),
    pub size: (u16, u16),
}

/// A panel as mathematics.
pub struct PanelView {
    pub id: Seq<char>,
    pub child: PanelChild,
    pub position: (u16, u16),
    pub size: (u16, u16),
}

impl View for Panel {
    type V = PanelView;

    open spec fn view(&self) -> PanelView {
        PanelView { id: self.id@, child: self.child, position: self.position, size: self.size }
    }
}

impl Panel {
    /// A panel that no layout has placed yet.
    pub fn new(id: String, child: PanelChild) -> (p: Panel)
        ensures
            p@ == (PanelView { id: id@, child, position: (0, 0), size: (0, 0) }),
    {
        Panel { id, child, position: (0, 0), size: (0, 0) }
    }
}

impl PanelView {
    /// The panel with the rectangle that `m` holds for its id, if any.
    pub open spec fn resolved(self, m: Map<Seq<char>, Rect>) -> PanelView {
        if m.dom().contains(self.id) {
            let r = m[self.id];
            PanelView { position: (r.x, r.y), size: (r.width, r.height), ..self }
        } else {
            self
        }
    }
}

pub struct PanelHandler {
    pub panels: Vec<Panel>,
    pub root: Option<LayoutNode>,
}

/// What a [`PanelHandler`] holds, as mathematics.
pub struct PanelsView {
    pub panels: Seq<PanelView>,
    pub root: Option<Tree>,
}

impl View for PanelHandler {
    type V = PanelsView;

    open spec fn view(&self) -> PanelsView {
        PanelsView {
            panels: Seq::new(self.panels@.len(), |i: int| self.panels@[i]@),
            root: match self.root {
                Some(node) => Some(node@),
                None => None,
            },
        }
    }
}

impl PanelsView {
    /// The tree, if there is one, is well formed.
    pub open spec fn wf(self) -> bool {
        self.root matches Some(tree) ==> tree.wf()
    }

    /// The tree after a panel `new_id` has been added. The first panel
    /// becomes the root. With a target, the panel is placed relative to the
    /// target's leaf; if there is no such leaf, the old tree and the new panel
    /// stand side by side at 80 to 20. Without a target, the whole tree and
    /// the new panel are split by `placement`, and `Replace` leaves the new
    /// panel alone.
    pub open spec fn root_after_add(
        self,
        new_id: Seq<char>,
        target: Option<Seq<char>>,
        placement: Placement,
    ) -> Tree {
        let leaf = Tree::Leaf { id: new_id };
        match (self.root, target) {
            (None, _) => leaf,
            (Some(tree), Some(t)) => if tree.has_leaf(t) {
                tree.add_relative(t, new_id, placement)
            } else {
                Tree::Split {
                    orientation: SplitOrientation::Vertical,
                    children: seq![tree, leaf],
                    ratios: seq![FALLBACK_OLD, FALLBACK_NEW],
                }
            },
            (Some(tree), None) => if placement == Placement::Replace {
                leaf
            } else {
                split_of(tree, leaf, placement)
            },
        }
    }

    /// The rectangles of the panels when the tree is laid out over `full`.
    pub open spec fn layout(self, full: Rect) -> Map<Seq<char>, Rect> {
        match self.root {
            Some(tree) => place_all(Map::empty(), tree.placed(full)),
            None => Map::empty(),
        }
    }
}

/// The view of an optional string.
pub open spec fn opt_view(s: Option<&str>) -> Option<Seq<char>> {
    match s {
        Some(t) => Some(t@),
        None => None,
    }
}

impl PanelHandler {
    /// The invariant that adding panels keeps.
    pub open spec fn wf(&self) -> bool {
        self@.wf()
    }

    /// No panels, no tree.
    pub fn new() -> (h: PanelHandler)
        ensures
            h.wf(),
            h@ == (PanelsView { panels: Seq::empty(), root: None }),
    {
        let h = PanelHandler { panels: Vec::new(), root: None };
        assert(h@.panels =~= Seq::empty());
        h
    }

    /// The number of panels.
    pub fn panel_count(&self) -> (n: usize)
        ensures
            n == self@.panels.len(),
    {
        self.panels.len()
    }

    /// The panel at `index`, in the order in which the panels were added.
    pub fn panel(&self, index: usize) -> (p: &Panel)
        requires
            index < self@.panels.len(),
        ensures
            p@ == self@.panels[index as int],
    {
        &self.panels[index]
    }

    /// The index of the first panel with this id.
    pub fn find_panel_index(&self, id: &str) -> (r: Option<usize>)
        ensures
            match r {
                Some(i) => i < self@.panels.len() && self@.panels[i as int].id == id@ && forall|
                    j: int,
                | 0 <= j < i ==> (#[trigger] self@.panels[j]).id != id@,
                None => forall|j: int|
                    0 <= j < self@.panels.len() ==> (#[trigger] self@.panels[j]).id != id@,
            },
    {
        let key = id.to_owned();
        let mut i: usize = 0;
        while i < self.panels.len()
            invariant
                i <= self.panels.len(),
                key@ == id@,
                forall|j: int| 0 <= j < i ==> (#[trigger] self@.panels[j]).id != id@,
            decreases self.panels.len() - i,
        {
            if self.panels[i].id == key {
                return Some(i);
            }
            i += 1;
        }
        None
    }

    /// Adds a panel to the list and to the tree.
    pub fn add_panel(&mut self, new_panel: Panel, target_id: Option<&str>, placement: Placement)
        ensures
            final(self)@.panels == old(self)@.panels.push(new_panel@),
            final(self)@.root == Some(
                old(self)@.root_after_add(new_panel@.id, opt_view(target_id), placement),
            ),
            old(self).wf() ==> final(self).wf(),
    {
        let ghost before = self@;
        let new_id = new_panel.id.clone();
        self.panels.push(new_panel);
        assert(self@.panels =~= before.panels.push(new_panel@));
        let leaf = LayoutNode::Leaf { panel_id: new_id.clone() };
        let ghost leaf_view = leaf@;
        assert(leaf_view == Tree::Leaf { id: new_id@ });
        match self.root.take() {
            None => {
                self.root = Some(leaf);
            },
            Some(mut current) => {
                let ghost tree = current@;
                match target_id {
                    Some(tid) => {
                        if current.add_relative(tid, new_id, placement) {
                            self.root = Some(current);
                        } else {
                            proof {
                                tree.lemma_add_relative_absent(tid@, new_id@, placement);
                            }
                            let node = LayoutNode::Split {
                                orientation: SplitOrientation::Vertical,
                                children: vec![current, leaf],
                                ratios: vec![FALLBACK_OLD, FALLBACK_NEW],
                            };
                            proof {
                                let want = before.root_after_add(
                                    new_panel@.id,
                                    opt_view(target_id),
                                    placement,
                                );
                                assert(node@->children =~= want->children);
                                assert(node@->ratios =~= want->ratios);
                                if tree.wf() {
                                    assert(want->children[0].wf() && want->children[1].wf());
                                    assert(want.wf());
                                }
                            }
                            self.root = Some(node);
                        }
                    },
                    None => {
                        if placement == Placement::Replace {
                            self.root = Some(leaf);
                        } else {
                            let (orientation, children) = match placement {
                                Placement::Top => (
                                    SplitOrientation::Horizontal,
                                    vec![leaf, current],
                                ),
                                Placement::Bottom => (
                                    SplitOrientation::Horizontal,
                                    vec![current, leaf],
                                ),
                                Placement::Left => (SplitOrientation::Vertical, vec![leaf, current]),
                                _ => (SplitOrientation::Vertical, vec![current, leaf]),
                            };
                            let node = LayoutNode::Split {
                                orientation,
                                children,
                                ratios: vec![HALF, HALF],
                            };
                            proof {
                                let want = split_of(tree, leaf_view, placement);
                                assert(node@->children =~= want->children);
                                assert(node@->ratios =~= want->ratios);
                                if tree.wf() {
                                    assert(want->children[0].wf() && want->children[1].wf());
                                    assert(want.wf());
                                }
                            }
                            self.root = Some(node);
                        }
                    },
                }
            },
        }
    }

    /// The rectangle of every panel when the tree is laid out over `full`.
    /// Each panel of the list takes its rectangle from the result.
    pub fn compute_layout(&mut self, full: Rect) -> (map: RectMap)
        requires
            old(self).wf(),
        ensures
            final(self).wf(),
            map.wf(),
            map@ == old(self)@.layout(full),
            final(self)@.root == old(self)@.root,
            final(self)@.panels.len() == old(self)@.panels.len(),
            forall|i: int|
                0 <= i < old(self)@.panels.len() ==> (#[trigger] final(self)@.panels[i]) == old(
                    self,
                )@.panels[i].resolved(map@),
    {
        let ghost before = self@;
        let mut map = RectMap::new();
        match &self.root {
            Some(root) => {
                Self::layout_recursive(root, full, &mut map);
            },
            None => {},
        }
        let n = self.panels.len();
        let mut i: usize = 0;
        while i < n
            invariant
                i <= n,
                n == self.panels.len(),
                n == before.panels.len(),
                map.wf(),
                self@.root == before.root,
                forall|j: int|
                    0 <= j < i ==> (#[trigger] self@.panels[j]) == before.panels[j].resolved(map@),
                forall|j: int| i <= j < n ==> (#[trigger] self@.panels[j]) == before.panels[j],
            decreases n - i,
        {
            let ghost prev = self.panels@;
            let ghost prev_view = self@;
            assert(prev[i as int]@ == self@.panels[i as int]);
            let found = map.get(self.panels[i].id.as_str());
            match found {
                Some(r) => {
                    self.panels[i].position = (r.x, r.y);
                    self.panels[i].size = (r.width, r.height);
                },
                None => {},
            }
            proof {
                assert(self.panels@.len() == n);
                assert(self.panels@[i as int]@ == before.panels[i as int].resolved(map@));
                assert forall|j: int| 0 <= j < n && j != i implies self.panels@[j] == prev[j] by {}
                assert forall|j: int| 0 <= j < n && j != i implies (#[trigger] self@.panels[j])
                    == prev_view.panels[j] by {
                    assert(self.panels@[j] == prev[j]);
                }
            }
            i += 1;
        }
        map
    }

    /// The sum of the weights, and 1 where the sum is 0.
    fn sum_weights(ratios: &Vec<u32>) -> (total: u128)
        ensures
            total == total_weight(ratios@),
            1 <= total <= 0x1_0000_0000_0000_0000_0000_0000,
    {
        let mut sum: u128 = 0;
        let mut i: usize = 0;
        while i < ratios.len()
            invariant
                i <= ratios.len(),
                sum == weight_sum(ratios@.take(i as int)),
                sum <= i * u32::MAX,
            decreases ratios.len() - i,
        {
            proof {
                assert(ratios@.take(i + 1).drop_last() =~= ratios@.take(i as int));
                assert(i * u32::MAX + u32::MAX == (i + 1) * u32::MAX) by (nonlinear_arith);
                assert(i * u32::MAX <= 0xffff_ffff_ffff_ffff * 0xffff_ffff) by (nonlinear_arith)
                    requires
                        0 <= i <= 0xffff_ffff_ffff_ffff,
                ;
            }
            sum = sum + ratios[i] as u128;
            i += 1;
        }
        proof {
            assert(ratios@.take(ratios@.len() as int) =~= ratios@);
            assert(i * u32::MAX <= 0xffff_ffff_ffff_ffff * 0xffff_ffff) by (nonlinear_arith)
                requires
                    0 <= i <= 0xffff_ffff_ffff_ffff,
            ;
        }
        if sum < 1 {
            1
        } else {
            sum
        }
    }

    /// `weight / total` of `dim` cells, rounded to the nearest cell.
    fn round_share(weight: u32, dim: u16, total: u128) -> (cells: u32)
        requires
            weight <= total,
            1 <= total <= 0x1_0000_0000_0000_0000_0000_0000,
        ensures
            cells == share(weight as int, dim as int, total as int),
            cells <= dim,
    {
        proof {
            lemma_share_bounds(weight as int, dim as int, total as int);
            assert(2 * weight * dim <= 2 * 0xffff_ffff * 0xffff) by (nonlinear_arith)
                requires
                    0 <= weight <= 0xffff_ffff,
                    0 <= dim <= 0xffff,
            ;
        }
        let numerator: u128 = 2 * (weight as u128) * (dim as u128) + total;
        (numerator / (2 * total)) as u32
    }

    /// Lays `node` out over `rect` and puts the rectangle of each of its
    /// leaves into `out`. A split cuts its rectangle along its axis: each
    /// child but the last gets its rounded share, the last what is left.
    fn layout_recursive(node: &LayoutNode, rect: Rect, out: &mut RectMap)
        requires
            node@.wf(),
            old(out).wf(),
        ensures
            final(out).wf(),
            final(out)@ == place_all(old(out)@, node@.placed(rect)),
        decreases node@,
    {
        let ghost out0 = out@;
        match node {
            LayoutNode::Leaf { panel_id } => {
                out.insert(panel_id.clone(), rect);
                proof {
                    let ps = node@.placed(rect);
                    assert(ps.drop_last().len() == 0);
                    assert(place_all(out0, ps.drop_last()) == out0);
                }
            },
            LayoutNode::Split { orientation, children, ratios } => {
                let ghost kids = node@->children;
                let total = Self::sum_weights(ratios);
                let n = children.len();
                let (start, dim) = match orientation {
                    SplitOrientation::Horizontal => (rect.y, rect.height),
                    SplitOrientation::Vertical => (rect.x, rect.width),
                };
                let end: u32 = start as u32 + dim as u32;
                let mut pos: u32 = start as u32;
                let mut i: usize = 0;
                while i < n
                    invariant
                        i <= n,
                        n == children.len(),
                        n == ratios.len(),
                        n == kids.len(),
                        node@.wf(),
                        node@ == (Tree::Split {
                            orientation: *orientation,
                            children: kids,
                            ratios: ratios@,
                        }),
                        forall|j: int| 0 <= j < n ==> (#[trigger] children@[j])@ == kids[j],
                        total == total_weight(ratios@),
                        1 <= total <= 0x1_0000_0000_0000_0000_0000_0000,
                        start == axis_start(rect, *orientation),
                        dim == axis_len(rect, *orientation),
                        end == start + dim,
                        i < n ==> pos == child_offset(ratios@, dim as int, start as int, i as int),
                        start <= pos,
                        out.wf(),
                        out@ == place_all(
                            out0,
                            placed_children(kids, *orientation, ratios@, rect, i as int),
                        ),
                    decreases n - i,
                {
                    proof {
                        lemma_weight_in_sum(ratios@, i as int);
                    }
                    let mut size: u32 = Self::round_share(ratios[i], dim, total);
                    if i == n - 1 {
                        size = end.saturating_sub(pos);
                    }
                    assert(size == child_extent(ratios@, dim as int, start as int, i as int));
                    assert(size <= dim);
                    let child_rect = match orientation {
                        SplitOrientation::Horizontal => Rect {
                            x: rect.x,
                            y: #[verifier::truncate] (pos as u16),
                            width: rect.width,
                            height: size as u16,
                        },
                        SplitOrientation::Vertical => Rect {
                            x: #[verifier::truncate] (pos as u16),
                            y: rect.y,
                            width: size as u16,
                            height: rect.height,
                        },
                    };
                    assert(child_rect == crate::resolve::child_rect(
                        rect,
                        *orientation,
                        ratios@,
                        i as int,
                    ));
                    let ghost done = placed_children(kids, *orientation, ratios@, rect, i as int);
                    assert(kids[i as int].wf());
                    Self::layout_recursive(&children[i], child_rect, out);
                    proof {
                        lemma_place_all_concat(out0, done, kids[i as int].placed(child_rect));
                    }
                    pos = pos.saturating_add(size);
                    i += 1;
                }
            },
        }
    }
}

} // verus!
