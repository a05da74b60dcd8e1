//! The highlight pass: the points that the coming round will look at are
//! shown as candidates.

use vstd::prelude::*;

use crate::point::{
    ascending, lemma_unvisited_before_by_flags, same_but_visual, unvisited_before, Point, Visual,
};

verus! {

/// The `i`-th point is among the first `budget` unvisited points.
pub open spec fn is_candidate(points: Seq<Point>, budget: nat, i: int) -> bool {
    &&& 0 <= i < points.len()
    &&& !points[i].visited
    &&& unvisited_before(points, i) < budget
}

/// The points after a highlight pass: the first `budget` unvisited points
/// are shown as candidates, and nothing else changes.
pub open spec fn highlighted(points: Seq<Point>, budget: nat) -> Seq<Point> {
    Seq::new(
        points.len(),
        |i: int|
            if is_candidate(points, budget, i) {
                points[i].shown_as(Visual::Candidate)
            } else {
                points[i]
            },
    )
}

/// The points with every one of them shown in the default way.
pub open spec fn all_default(points: Seq<Point>) -> Seq<Point> {
    Seq::new(points.len(), |i: int| points[i].shown_as(Visual::Default))
}

/// Shows the first `budget` unvisited points as candidates.
pub fn highlight(points: &mut Vec<Point>, budget: usize)
    ensures
        final(points)@ == highlighted(old(points)@, budget as nat),
{
    let ghost before = points@;
    let mut seen: usize = 0;
    let mut i: usize = 0;
    while i < points.len()
        invariant
            i <= points.len(),
            points.len() == before.len(),
            seen == unvisited_before(before, i as int),
            seen <= i,
            forall|j: int| 0 <= j < i ==> points@[j] == highlighted(before, budget as nat)[j],
            forall|j: int| i <= j < points.len() ==> points@[j] == before[j],
        decreases points.len() - i,
    {
        let p: Point = points[i];
        if !p.visited {
            if seen < budget {
                points.set(i, Point { visual: Visual::Candidate, ..p });
            }
            seen = seen + 1;
        }
        i = i + 1;
    }
    assert(points@ =~= highlighted(before, budget as nat));
}

/// Shows every point in the default way.
pub fn reset_visuals(points: &mut Vec<Point>)
    ensures
        final(points)@ == all_default(old(points)@),
{
    let ghost before = points@;
    let mut i: usize = 0;
    while i < points.len()
        invariant
            i <= points.len(),
            points.len() == before.len(),
            forall|j: int| 0 <= j < i ==> points@[j] == before[j].shown_as(Visual::Default),
            forall|j: int| i <= j < points.len() ==> points@[j] == before[j],
        decreases points.len() - i,
    {
        let p: Point = points[i];
        points.set(i, Point { visual: Visual::Default, ..p });
        i = i + 1;
    }
    assert(points@ =~= all_default(before));
}

/// A highlight pass changes nothing but how points are shown, and keeps the
/// identities in order.
pub proof fn lemma_highlight_only_recolors(points: Seq<Point>, budget: nat)
    ensures
        same_but_visual(points, highlighted(points, budget)),
        ascending(points) ==> ascending(highlighted(points, budget)),
        forall|i: int|
            0 <= i < points.len() ==> (#[trigger] highlighted(points, budget)[i]).visual == (
            if is_candidate(points, budget, i) {
                Visual::Candidate
            } else {
                points[i].visual
            }),
{
}

/// A second highlight pass, with no other change between the two, changes
/// nothing more.
pub proof fn lemma_highlight_idempotent(points: Seq<Point>, budget: nat)
    ensures
        highlighted(highlighted(points, budget), budget) == highlighted(points, budget),
{
    let once = highlighted(points, budget);
    let twice = highlighted(once, budget);
    assert forall|i: int| 0 <= i < points.len() implies twice[i] == once[i] by {
        lemma_unvisited_before_by_flags(once, points, i);
        assert(is_candidate(once, budget, i) == is_candidate(points, budget, i));
    }
    assert(twice =~= once);
}

/// Setting every point to the default look changes nothing else.
pub proof fn lemma_reset_visuals_only_recolors(points: Seq<Point>)
    ensures
        same_but_visual(points, all_default(points)),
        ascending(points) ==> ascending(all_default(points)),
{
}

} // verus!
