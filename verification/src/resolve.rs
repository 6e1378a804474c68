//! How a layout tree divides a rectangle: each split cuts its rectangle along
//! one axis, in proportion to the weights of its children.

use crate::layout::{Rect, SplitOrientation, Tree};
use vstd::prelude::*;

verus! {

/// A panel id and the rectangle that it was given.
pub struct Placed {
    pub id: Seq<char>,
    pub rect: Rect,
}

/// The sum of the weights.
pub open spec fn weight_sum(ratios: Seq<u32>) -> int
    decreases ratios.len(),
{
    if ratios.len() == 0 {
        0
    } else {
        weight_sum(ratios.drop_last()) + ratios.last()
    }
}

/// What the weights are measured against: their sum, where that is not 0.
pub open spec fn total_weight(ratios: Seq<u32>) -> int {
    if weight_sum(ratios) < 1 {
        1
    } else {
        weight_sum(ratios)
    }
}

/// `weight / total` of `dim` cells, rounded to the nearest whole number of
/// cells, a half upwards.
pub open spec fn share(weight: int, dim: int, total: int) -> int {
    (2 * weight * dim + total) / (2 * total)
}

/// Where along its axis a split's rectangle starts.
pub open spec fn axis_start(rect: Rect, orientation: SplitOrientation) -> int {
    match orientation {
        SplitOrientation::Horizontal => rect.y as int,
        SplitOrientation::Vertical => rect.x as int,
    }
}

/// How many cells a split's rectangle has along its axis.
pub open spec fn axis_len(rect: Rect, orientation: SplitOrientation) -> int {
    match orientation {
        SplitOrientation::Horizontal => rect.height as int,
        SplitOrientation::Vertical => rect.width as int,
    }
}

/// Where child `i` starts along the axis: behind the shares of the children
/// before it. The count stops at the largest 32-bit number.
pub open spec fn child_offset(ratios: Seq<u32>, dim: int, start: int, i: int) -> int
    decreases i,
{
    if i <= 0 {
        start
    } else {
        let next = child_offset(ratios, dim, start, i - 1) + share(
            ratios[i - 1] as int,
            dim,
            total_weight(ratios),
        );
        if next > u32::MAX {
            u32::MAX as int
        } else {
            next
        }
    }
}

/// How many cells child `i` gets along the axis: its share, and for the last
/// child what is left of the rectangle behind the child's start (nothing, if
/// the shares before it have used up more than there was).
pub open spec fn child_extent(ratios: Seq<u32>, dim: int, start: int, i: int) -> int {
    if i == ratios.len() - 1 {
        let rest = start + dim - child_offset(ratios, dim, start, i);
        if rest < 0 {
            0
        } else {
            rest
        }
    } else {
        share(ratios[i] as int, dim, total_weight(ratios))
    }
}

/// The rectangle of child `i` of a split over `rect`.
pub open spec fn child_rect(
    rect: Rect,
    orientation: SplitOrientation,
    ratios: Seq<u32>,
    i: int,
) -> Rect {
    let dim = axis_len(rect, orientation);
    let start = axis_start(rect, orientation);
    let offset = child_offset(ratios, dim, start, i);
    let extent = child_extent(ratios, dim, start, i);
    match orientation {
        SplitOrientation::Horizontal => Rect {
            x: rect.x,
            y: offset as u16,
            width: rect.width,
            height: extent as u16,
        },
        SplitOrientation::Vertical => Rect {
            x: offset as u16,
            y: rect.y,
            width: extent as u16,
            height: rect.height,
        },
    }
}

impl Tree {
    /// The leaves of the tree in depth-first order, each with the rectangle
    /// that it gets when the tree is laid out over `rect`.
    pub open spec fn placed(self, rect: Rect) -> Seq<Placed>
        decreases self, 0nat,
    {
        match self {
            Tree::Leaf { id } => seq![Placed { id, rect }],
            Tree::Split { orientation, children, ratios } => placed_children(
                children,
                orientation,
                ratios,
                rect,
                children.len() as int,
            ),
        }
    }
}

/// The placed leaves of the first `n` children of a split over `rect`.
pub open spec fn placed_children(
    children: Seq<Tree>,
    orientation: SplitOrientation,
    ratios: Seq<u32>,
    rect: Rect,
    n: int,
) -> Seq<Placed>
    decreases children, n,
{
    if n <= 0 || n > children.len() {
        Seq::empty()
    } else {
        placed_children(children, orientation, ratios, rect, n - 1) + children[n - 1].placed(
            child_rect(rect, orientation, ratios, n - 1),
        )
    }
}

/// A weight is no more than the sum of the weights.
pub proof fn lemma_weight_in_sum(ratios: Seq<u32>, i: int)
    requires
        0 <= i < ratios.len(),
    ensures
        0 <= ratios[i] <= weight_sum(ratios),
        weight_sum(ratios) <= ratios.len() * u32::MAX,
    decreases ratios.len(),
{
    lemma_weight_sum_bounds(ratios);
    if i < ratios.len() - 1 {
        lemma_weight_in_sum(ratios.drop_last(), i);
    } else {
        lemma_weight_sum_bounds(ratios.drop_last());
    }
}

pub proof fn lemma_weight_sum_bounds(ratios: Seq<u32>)
    ensures
        0 <= weight_sum(ratios) <= ratios.len() * u32::MAX,
    decreases ratios.len(),
{
    if ratios.len() > 0 {
        lemma_weight_sum_bounds(ratios.drop_last());
        assert(weight_sum(ratios) <= (ratios.len() - 1) * u32::MAX + u32::MAX);
        assert((ratios.len() - 1) * u32::MAX + u32::MAX == ratios.len() * u32::MAX)
            by (nonlinear_arith);
    }
}

/// A share is never more than the whole, for a weight that is part of the
/// total.
pub proof fn lemma_share_bounds(weight: int, dim: int, total: int)
    requires
        0 <= weight <= total,
        1 <= total,
        0 <= dim,
    ensures
        0 <= share(weight, dim, total) <= dim,
{
    assert(0 <= 2 * weight * dim + total && 2 * weight * dim + total < (dim + 1) * (2 * total))
        by (nonlinear_arith)
        requires
            0 <= weight <= total,
            1 <= total,
            0 <= dim,
    ;
    vstd::arithmetic::div_mod::lemma_div_pos_is_pos(2 * weight * dim + total, 2 * total);
    vstd::arithmetic::div_mod::lemma_div_by_multiple_is_strongly_ordered(
        2 * weight * dim + total,
        (dim + 1) * (2 * total),
        dim + 1,
        2 * total,
    );
    vstd::arithmetic::div_mod::lemma_div_by_multiple(dim + 1, 2 * total);
}

/// The map after each of `placed` has been put in, in order: of two leaves
/// with one id the later one stays.
pub open spec fn place_all(m: Map<Seq<char>, Rect>, placed: Seq<Placed>) -> Map<Seq<char>, Rect>
    decreases placed.len(),
{
    if placed.len() == 0 {
        m
    } else {
        place_all(m, placed.drop_last()).insert(placed.last().id, placed.last().rect)
    }
}

/// Putting in two lists one after the other is putting in their
/// concatenation.
pub proof fn lemma_place_all_concat(m: Map<Seq<char>, Rect>, a: Seq<Placed>, b: Seq<Placed>)
    ensures
        place_all(place_all(m, a), b) == place_all(m, a + b),
    decreases b.len(),
{
    if b.len() == 0 {
        assert(a + b =~= a);
    } else {
        lemma_place_all_concat(m, a, b.drop_last());
        assert((a + b).drop_last() =~= a + b.drop_last());
        assert((a + b).last() == b.last());
    }
}

} // verus!
