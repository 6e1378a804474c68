//! The rectangles that a layout hands out tile the rectangle that it was
//! given: they cover every cell of it, none of them reaches outside, and no
//! two of them share a cell.

use crate::layout::{Rect, SplitOrientation, Tree};
use crate::resolve::{
    axis_len, axis_start, child_extent, child_offset, child_rect, lemma_share_bounds,
    lemma_weight_in_sum, place_all, placed_children, total_weight, Placed,
};
use vstd::prelude::*;

verus! {

/// Whether the cell in column `x` and row `y` belongs to `r`.
pub open spec fn in_rect(r: Rect, x: int, y: int) -> bool {
    r.x <= x < r.x + r.width && r.y <= y < r.y + r.height
}

/// The rectangle has no cells.
pub open spec fn is_empty(r: Rect) -> bool {
    r.width == 0 || r.height == 0
}

/// The rectangles of `placed` tile `rect`: none has a cell outside of it,
/// every cell of it is in one of them, and no cell is in two of them.
pub open spec fn tiles(rect: Rect, placed: Seq<Placed>) -> bool {
    &&& forall|i: int, x: int, y: int|
        0 <= i < placed.len() && in_rect((#[trigger] placed[i]).rect, x, y) ==> #[trigger] in_rect(
            rect,
            x,
            y,
        )
    &&& forall|x: int, y: int| #[trigger]
        in_rect(rect, x, y) ==> exists|i: int|
            0 <= i < placed.len() && in_rect((#[trigger] placed[i]).rect, x, y)
    &&& forall|i: int, j: int, x: int, y: int|
        0 <= i < j < placed.len() && #[trigger] in_rect(placed[i].rect, x, y) ==> !#[trigger] in_rect(
            placed[j].rect,
            x,
            y,
        )
}

impl Tree {
    /// Laid out over `rect`, every split of the tree that has cells to hand
    /// out can do so: the rounded shares of the children before the last leave
    /// the last child a start inside the split's rectangle, and that start is
    /// a coordinate of the screen.
    pub open spec fn fits(self, rect: Rect) -> bool
        decreases self,
    {
        match self {
            Tree::Leaf { .. } => true,
            Tree::Split { orientation, children, ratios } => {
                ||| is_empty(rect)
                ||| {
                    &&& child_offset(
                        ratios,
                        axis_len(rect, orientation),
                        axis_start(rect, orientation),
                        children.len() - 1,
                    ) <= axis_start(rect, orientation) + axis_len(rect, orientation)
                    &&& child_offset(
                        ratios,
                        axis_len(rect, orientation),
                        axis_start(rect, orientation),
                        children.len() - 1,
                    ) <= u16::MAX
                    &&& forall|i: int|
                        0 <= i < children.len() ==> (#[trigger] children[i]).fits(
                            child_rect(rect, orientation, ratios, i),
                        )
                }
            },
        }
    }

    /// Laid out over a rectangle without cells, no leaf gets a cell.
    pub proof fn lemma_empty_layout(self, rect: Rect)
        requires
            self.wf(),
            is_empty(rect),
        ensures
            forall|i: int, x: int, y: int|
                0 <= i < self.placed(rect).len() ==> !#[trigger] in_rect(
                    self.placed(rect)[i].rect,
                    x,
                    y,
                ),
        decreases self, 0nat,
    {
        match self {
            Tree::Leaf { id } => {
                let p = self.placed(rect);
                assert(p.len() == 1 && p[0].rect == rect);
            },
            Tree::Split { orientation, children, ratios } => {
                lemma_empty_children(children, orientation, ratios, rect, children.len() as int);
                assert(self.placed(rect) == placed_children(
                    children,
                    orientation,
                    ratios,
                    rect,
                    children.len() as int,
                ));
            },
        }
    }
}

/// Of a split over a rectangle without cells, no leaf gets a cell.
pub proof fn lemma_empty_children(
    children: Seq<Tree>,
    orientation: SplitOrientation,
    ratios: Seq<u32>,
    rect: Rect,
    n: int,
)
    requires
        0 <= n <= children.len(),
        (Tree::Split { orientation, children, ratios }).wf(),
        is_empty(rect),
    ensures
        forall|i: int, x: int, y: int|
            0 <= i < placed_children(children, orientation, ratios, rect, n).len()
                ==> !#[trigger] in_rect(
                placed_children(children, orientation, ratios, rect, n)[i].rect,
                x,
                y,
            ),
    decreases children, n,
{
    if n > 0 {
        let dim = axis_len(rect, orientation);
        let start = axis_start(rect, orientation);
        lemma_empty_children(children, orientation, ratios, rect, n - 1);
        let part = child_rect(rect, orientation, ratios, n - 1);
        lemma_weight_in_sum(ratios, n - 1);
        lemma_share_bounds(ratios[n - 1] as int, dim, total_weight(ratios));
        lemma_child_offset_ordered(ratios, dim, start, 0, n - 1);
        assert(is_empty(part));
        assert(children[n - 1].wf());
        children[n - 1].lemma_empty_layout(part);
        let before = placed_children(children, orientation, ratios, rect, n - 1);
        let here = children[n - 1].placed(part);
        let all = placed_children(children, orientation, ratios, rect, n);
        assert forall|i: int, x: int, y: int| 0 <= i < all.len() implies !#[trigger] in_rect(
            all[i].rect,
            x,
            y,
        ) by {
            if i < before.len() {
                assert(all[i] == before[i]);
            } else {
                assert(all[i] == here[i - before.len()]);
            }
        }
    }
}

/// The part of `rect` that the first `n` children of a split take.
pub open spec fn taken(rect: Rect, orientation: SplitOrientation, ratios: Seq<u32>, n: int) -> Rect {
    let dim = axis_len(rect, orientation);
    let start = axis_start(rect, orientation);
    let extent = if n <= 0 {
        0
    } else {
        child_offset(ratios, dim, start, n - 1) + child_extent(ratios, dim, start, n - 1) - start
    };
    match orientation {
        SplitOrientation::Horizontal => Rect { height: extent as u16, ..rect },
        SplitOrientation::Vertical => Rect { width: extent as u16, ..rect },
    }
}

/// A child never starts before the one before it.
pub proof fn lemma_child_offset_ordered(ratios: Seq<u32>, dim: int, start: int, i: int, j: int)
    requires
        0 <= i <= j <= ratios.len(),
        0 <= dim,
        0 <= start <= u32::MAX,
    ensures
        start <= child_offset(ratios, dim, start, i) <= child_offset(ratios, dim, start, j),
    decreases j,
{
    if i < j {
        lemma_child_offset_ordered(ratios, dim, start, i, j - 1);
        lemma_weight_in_sum(ratios, j - 1);
        lemma_share_bounds(ratios[j - 1] as int, dim, total_weight(ratios));
    } else if i > 0 {
        lemma_child_offset_ordered(ratios, dim, start, i - 1, i - 1);
        lemma_weight_in_sum(ratios, i - 1);
        lemma_share_bounds(ratios[i - 1] as int, dim, total_weight(ratios));
    }
}

/// Where the last child starts inside the rectangle, every child lies
/// inside it, and each child but the first starts where the one before it
/// ends.
pub proof fn lemma_children_in_line(ratios: Seq<u32>, dim: int, start: int, i: int)
    requires
        0 <= i < ratios.len(),
        0 <= dim <= u16::MAX,
        0 <= start <= u16::MAX,
        child_offset(ratios, dim, start, ratios.len() - 1) <= start + dim,
        child_offset(ratios, dim, start, ratios.len() - 1) <= u16::MAX,
    ensures
        start <= child_offset(ratios, dim, start, i) <= u16::MAX,
        child_extent(ratios, dim, start, i) <= dim,
        0 <= child_extent(ratios, dim, start, i),
        child_offset(ratios, dim, start, i) + child_extent(ratios, dim, start, i) <= start + dim,
        i + 1 < ratios.len() ==> child_offset(ratios, dim, start, i + 1) == child_offset(
            ratios,
            dim,
            start,
            i,
        ) + child_extent(ratios, dim, start, i),
        i + 1 == ratios.len() ==> child_offset(ratios, dim, start, i) + child_extent(
            ratios,
            dim,
            start,
            i,
        ) == start + dim,
{
    lemma_child_offset_ordered(ratios, dim, start, i, ratios.len() - 1);
    lemma_weight_in_sum(ratios, i);
    lemma_share_bounds(ratios[i] as int, dim, total_weight(ratios));
    if i + 1 < ratios.len() {
        lemma_child_offset_ordered(ratios, dim, start, i + 1, ratios.len() - 1);
    }
}

/// Two tilings of rectangles that share no cell make a tiling of what the two
/// rectangles cover together.
pub proof fn lemma_tiles_join(a: Rect, pa: Seq<Placed>, b: Rect, pb: Seq<Placed>, c: Rect)
    requires
        tiles(a, pa),
        tiles(b, pb),
        forall|x: int, y: int| #[trigger] in_rect(c, x, y) <==> in_rect(a, x, y) || in_rect(b, x, y),
        forall|x: int, y: int| #[trigger] in_rect(a, x, y) ==> !in_rect(b, x, y),
    ensures
        tiles(c, pa + pb),
{
    let p = pa + pb;
    assert forall|i: int, x: int, y: int|
        0 <= i < p.len() && in_rect((#[trigger] p[i]).rect, x, y) implies #[trigger] in_rect(
        c,
        x,
        y,
    ) by {
        if i < pa.len() {
            assert(p[i] == pa[i]);
            assert(in_rect(a, x, y));
        } else {
            assert(p[i] == pb[i - pa.len()]);
            assert(in_rect(b, x, y));
        }
    }
    assert forall|x: int, y: int| #[trigger] in_rect(c, x, y) implies exists|i: int|
        0 <= i < p.len() && in_rect((#[trigger] p[i]).rect, x, y) by {
        if in_rect(a, x, y) {
            let i = choose|i: int| 0 <= i < pa.len() && in_rect((#[trigger] pa[i]).rect, x, y);
            assert(p[i] == pa[i]);
        } else {
            assert(in_rect(b, x, y));
            let i = choose|i: int| 0 <= i < pb.len() && in_rect((#[trigger] pb[i]).rect, x, y);
            assert(p[i + pa.len()] == pb[i]);
        }
    }
    assert forall|i: int, j: int, x: int, y: int|
        0 <= i < j < p.len() && #[trigger] in_rect(p[i].rect, x, y) implies !#[trigger] in_rect(
        p[j].rect,
        x,
        y,
    ) by {
        if j < pa.len() {
            assert(p[i] == pa[i] && p[j] == pa[j]);
            assert(in_rect(pa[i].rect, x, y));
        } else if i >= pa.len() {
            assert(p[i] == pb[i - pa.len()] && p[j] == pb[j - pa.len()]);
            assert(in_rect(pb[i - pa.len()].rect, x, y));
        } else {
            assert(p[i] == pa[i] && p[j] == pb[j - pa.len()]);
            assert(in_rect(pa[i].rect, x, y));
            assert(in_rect(a, x, y));
            if in_rect(pb[j - pa.len()].rect, x, y) {
                assert(in_rect(b, x, y));
            }
        }
    }
}

impl Tree {
    /// Tiling: laid out over a rectangle, the leaves of a well formed tree get
    /// rectangles that tile it, whatever the weights and however deep the
    /// tree, provided that in no split the rounded shares add up to more than
    /// there is to share.
    pub proof fn lemma_layout_tiles(self, rect: Rect)
        requires
            self.wf(),
            self.fits(rect),
        ensures
            tiles(rect, self.placed(rect)),
        decreases self, 1nat,
    {
        match self {
            Tree::Leaf { id } => {
                let p = self.placed(rect);
                assert(p.len() == 1 && p[0].rect == rect);
            },
            Tree::Split { orientation, children, ratios } => {
                if is_empty(rect) {
                    self.lemma_empty_layout(rect);
                } else {
                    lemma_children_tile(
                        children,
                        orientation,
                        ratios,
                        rect,
                        children.len() as int,
                    );
                    let n = children.len() as int;
                    let dim = axis_len(rect, orientation);
                    let start = axis_start(rect, orientation);
                    lemma_children_in_line(ratios, dim, start, n - 1);
                    assert(taken(rect, orientation, ratios, n) == rect);
                }
            },
        }
    }
}

/// The leaves of the first `n` children of a split tile the part of the
/// split's rectangle that those children take.
pub proof fn lemma_children_tile(
    children: Seq<Tree>,
    orientation: SplitOrientation,
    ratios: Seq<u32>,
    rect: Rect,
    n: int,
)
    requires
        0 <= n <= children.len(),
        (Tree::Split { orientation, children, ratios }).wf(),
        !is_empty(rect),
        (Tree::Split { orientation, children, ratios }).fits(rect),
    ensures
        tiles(
            taken(rect, orientation, ratios, n),
            placed_children(children, orientation, ratios, rect, n),
        ),
    decreases children, n,
{
    let dim = axis_len(rect, orientation);
    let start = axis_start(rect, orientation);
    if n > 0 {
        lemma_children_tile(children, orientation, ratios, rect, n - 1);
        lemma_children_in_line(ratios, dim, start, n - 1);
        if n > 1 {
            lemma_children_in_line(ratios, dim, start, n - 2);
        }
        let part = child_rect(rect, orientation, ratios, n - 1);
        assert(children[n - 1].wf());
        assert(children[n - 1].fits(part));
        children[n - 1].lemma_layout_tiles(part);
        lemma_tiles_join(
            taken(rect, orientation, ratios, n - 1),
            placed_children(children, orientation, ratios, rect, n - 1),
            part,
            children[n - 1].placed(part),
            taken(rect, orientation, ratios, n),
        );
    }
}

/// No two of `placed` have the same id.
pub open spec fn distinct_panels(placed: Seq<Placed>) -> bool {
    forall|i: int, j: int|
        0 <= i < j < placed.len() ==> (#[trigger] placed[i]).id != (#[trigger] placed[j]).id
}

/// Where no id occurs twice, the map made of `placed` holds each leaf's
/// rectangle under the leaf's id, and nothing else.
pub proof fn lemma_map_of_distinct(placed: Seq<Placed>)
    requires
        distinct_panels(placed),
    ensures
        forall|i: int|
            0 <= i < placed.len() ==> place_all(Map::empty(), placed).dom().contains(
                (#[trigger] placed[i]).id,
            ) && place_all(Map::empty(), placed)[placed[i].id] == placed[i].rect,
        forall|id: Seq<char>| #[trigger]
            place_all(Map::empty(), placed).dom().contains(id) ==> exists|i: int|
                0 <= i < placed.len() && (#[trigger] placed[i]).id == id,
    decreases placed.len(),
{
    if placed.len() > 0 {
        let init = placed.drop_last();
        let last = placed.last();
        lemma_map_of_distinct(init);
        let m0 = place_all(Map::empty(), init);
        let m = place_all(Map::empty(), placed);
        assert(m == m0.insert(last.id, last.rect));
        assert forall|i: int| 0 <= i < placed.len() implies m.dom().contains(
            (#[trigger] placed[i]).id,
        ) && m[placed[i].id] == placed[i].rect by {
            if i < init.len() {
                assert(init[i] == placed[i]);
                assert(placed[i].id != placed[placed.len() - 1].id);
            }
        }
        assert forall|id: Seq<char>| #[trigger] m.dom().contains(id) implies exists|i: int|
            0 <= i < placed.len() && (#[trigger] placed[i]).id == id by {
            if id == last.id {
                assert(placed[placed.len() - 1].id == id);
            } else {
                assert(m0.dom().contains(id));
                let i = choose|i: int| 0 <= i < init.len() && (#[trigger] init[i]).id == id;
                assert(placed[i].id == id);
            }
        }
    }
}

impl Tree {
    /// Tiling, of the map that a layout returns: where no panel id occurs
    /// twice in the tree, the rectangles of the map lie inside the rectangle
    /// that was laid out, every cell of it is in the rectangle of some panel,
    /// and no cell is in the rectangles of two panels.
    pub proof fn lemma_layout_map_tiles(self, rect: Rect)
        requires
            self.wf(),
            self.fits(rect),
            distinct_panels(self.placed(rect)),
        ensures
            forall|id: Seq<char>, x: int, y: int|
                place_all(Map::empty(), self.placed(rect)).dom().contains(id) && #[trigger] in_rect(
                    place_all(Map::empty(), self.placed(rect))[id],
                    x,
                    y,
                ) ==> in_rect(rect, x, y),
            forall|x: int, y: int| #[trigger]
                in_rect(rect, x, y) ==> exists|id: Seq<char>|
                    place_all(Map::empty(), self.placed(rect)).dom().contains(id) && #[trigger] in_rect(
                        place_all(Map::empty(), self.placed(rect))[id],
                        x,
                        y,
                    ),
            forall|a: Seq<char>, b: Seq<char>, x: int, y: int|
                place_all(Map::empty(), self.placed(rect)).dom().contains(a) && place_all(
                    Map::empty(),
                    self.placed(rect),
                ).dom().contains(b) && a != b && #[trigger] in_rect(
                    place_all(Map::empty(), self.placed(rect))[a],
                    x,
                    y,
                ) ==> !#[trigger] in_rect(place_all(Map::empty(), self.placed(rect))[b], x, y),
    {
        let ps = self.placed(rect);
        let m = place_all(Map::empty(), ps);
        self.lemma_layout_tiles(rect);
        lemma_map_of_distinct(ps);
        assert forall|id: Seq<char>, x: int, y: int|
            m.dom().contains(id) && #[trigger] in_rect(m[id], x, y) implies in_rect(rect, x, y) by {
            let i = choose|i: int| 0 <= i < ps.len() && (#[trigger] ps[i]).id == id;
            assert(in_rect(ps[i].rect, x, y));
        }
        assert forall|x: int, y: int| #[trigger] in_rect(rect, x, y) implies exists|id: Seq<char>|
            m.dom().contains(id) && #[trigger] in_rect(m[id], x, y) by {
            let i = choose|i: int| 0 <= i < ps.len() && in_rect((#[trigger] ps[i]).rect, x, y);
            assert(m.dom().contains(ps[i].id) && in_rect(m[ps[i].id], x, y));
        }
        assert forall|a: Seq<char>, b: Seq<char>, x: int, y: int|
            m.dom().contains(a) && m.dom().contains(b) && a != b && #[trigger] in_rect(
                m[a],
                x,
                y,
            ) implies !#[trigger] in_rect(m[b], x, y) by {
            let i = choose|i: int| 0 <= i < ps.len() && (#[trigger] ps[i]).id == a;
            let j = choose|j: int| 0 <= j < ps.len() && (#[trigger] ps[j]).id == b;
            assert(in_rect(ps[i].rect, x, y));
            if in_rect(m[b], x, y) {
                assert(in_rect(ps[j].rect, x, y));
                if i < j {
                    assert(!in_rect(ps[j].rect, x, y));
                } else {
                    assert(!in_rect(ps[i].rect, x, y));
                }
            }
        }
    }
}

} // verus!
