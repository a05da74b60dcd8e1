//! Points: an identity, a fixed place on a grid, a visited flag and the way
//! the point is to be shown.

use vstd::prelude::*;

verus! {

/// A place in space, in hundredths of a unit along each axis.
#[derive(Clone, Copy, Debug, PartialEq, Eq, Structural)]
pub struct Position {
    pub x: i32,
    pub y: i32,
    pub z: i32,
}

/// How a point is to be shown.
#[derive(Clone, Copy, Debug, PartialEq, Eq, Structural)]
pub enum Visual {
    /// Nothing has singled the point out.
    Default,
    /// The point takes part in the coming elimination round.
    Candidate,
    /// A triangle round has visited the point and chosen against it.
    Eliminated,
    /// A triangle round has visited the point and kept it.
    Center,
}

/// A point of the set.
#[derive(Clone, Copy, Debug, PartialEq, Eq, Structural)]
pub struct Point {
    /// The identity of the point. It never changes and is never reused.
    pub id: u64,
    /// Where the point lies. It never changes.
    pub position: Position,
    /// Whether a triangle round has already picked the point.
    pub visited: bool,
    /// How the point is to be shown.
    pub visual: Visual,
}

impl Point {
    /// The same point, shown as `visual`.
    pub open spec fn shown_as(self, visual: Visual) -> Point {
        Point { visual, ..self }
    }

    /// The same point with its visited flag set to `visited`.
    pub open spec fn flagged(self, visited: bool) -> Point {
        Point { visited, ..self }
    }
}

/// The identities of a sequence of points, in the same order.
pub open spec fn ids_of(points: Seq<Point>) -> Seq<u64> {
    Seq::new(points.len(), |i: int| points[i].id)
}

/// The identities grow strictly along the sequence. This is what a point set
/// keeps: in particular no identity occurs twice.
pub open spec fn ascending(points: Seq<Point>) -> bool {
    forall|i: int, j: int| 0 <= i < j < points.len() ==> points[i].id < points[j].id
}

/// How many of the first `i` points are not visited.
pub open spec fn unvisited_before(points: Seq<Point>, i: int) -> nat
    decreases i,
{
    if i <= 0 {
        0
    } else if points[i - 1].visited {
        unvisited_before(points, i - 1)
    } else {
        unvisited_before(points, i - 1) + 1
    }
}

/// How many points are not visited.
pub open spec fn unvisited_count(points: Seq<Point>) -> nat {
    unvisited_before(points, points.len() as int)
}

/// Two sequences hold the same points up to how they are shown.
pub open spec fn same_but_visual(a: Seq<Point>, b: Seq<Point>) -> bool {
    &&& a.len() == b.len()
    &&& forall|i: int|
        0 <= i < a.len() ==> (#[trigger] a[i]).shown_as(Visual::Default) == b[i].shown_as(
            Visual::Default,
        )
}

/// The count of unvisited points grows along the sequence, by at most one
/// per point.
pub proof fn lemma_unvisited_before_grows(points: Seq<Point>, i: int, j: int)
    requires
        0 <= i <= j,
    ensures
        unvisited_before(points, i) <= unvisited_before(points, j) <= unvisited_before(points, i)
            + (j - i),
    decreases j - i,
{
    if i < j {
        lemma_unvisited_before_grows(points, i, j - 1);
    }
}

/// Visiting one unvisited point takes one off the count of unvisited points
/// from that point on, and leaves the count before it alone.
pub proof fn lemma_unvisited_before_visit(points: Seq<Point>, i: int, visited: Point, n: int)
    requires
        0 <= i < points.len(),
        0 <= n <= points.len(),
        !points[i].visited,
        visited.visited,
    ensures
        unvisited_before(points.update(i, visited), n) == if i < n {
            unvisited_before(points, n) - 1
        } else {
            unvisited_before(points, n) as int
        },
    decreases n,
{
    if n > 0 {
        lemma_unvisited_before_visit(points, i, visited, n - 1);
    }
}

/// The count of unvisited points looks at the visited flags only.
pub proof fn lemma_unvisited_before_by_flags(a: Seq<Point>, b: Seq<Point>, i: int)
    requires
        0 <= i <= a.len(),
        a.len() == b.len(),
        forall|k: int| 0 <= k < a.len() ==> a[k].visited == b[k].visited,
    ensures
        unvisited_before(a, i) == unvisited_before(b, i),
    decreases i,
{
    if i > 0 {
        lemma_unvisited_before_by_flags(a, b, i - 1);
    }
}

} // verus!
