//! Elimination by angle: the first three points not yet visited form a
//! triangle; the vertex with the largest interior angle is kept, and the
//! other two are eliminated.
//!
//! This rule never takes a point out of the set. The three points are marked
//! as visited, so that the next round looks at the next three, and the two
//! eliminated ones are reported and shown as such. Once fewer than three
//! points are unvisited the sweep starts over.

use vstd::prelude::*;

use crate::binary32::Binary32;
use crate::point::{
    ascending, lemma_unvisited_before_grows, lemma_unvisited_before_visit, unvisited_before,
    unvisited_count, Point, Visual,
};

verus! {

/// The interior angles of a triangle: `alpha` at its first vertex, `beta` at
/// the second, `gamma` at the third.
#[derive(Clone, Copy, Debug, PartialEq, Eq, Structural)]
pub struct Angles {
    pub alpha: Binary32,
    pub beta: Binary32,
    pub gamma: Binary32,
}

/// A vertex of a triangle, by its place among the three.
#[derive(Clone, Copy, Debug, PartialEq, Eq, Structural)]
pub enum Vertex {
    First,
    Second,
    Third,
}

impl Angles {
    /// The angle at vertex `v`.
    pub open spec fn at(self, v: Vertex) -> Binary32 {
        match v {
            Vertex::First => self.alpha,
            Vertex::Second => self.beta,
            Vertex::Third => self.gamma,
        }
    }

    /// The vertex with the largest angle in the total order. Where angles
    /// are equal the earlier vertex wins: `alpha` over `beta` and `gamma`,
    /// `beta` over `gamma`.
    pub open spec fn spec_largest(self) -> Vertex {
        if self.beta.key() <= self.alpha.key() && self.gamma.key() <= self.alpha.key() {
            Vertex::First
        } else if self.gamma.key() <= self.beta.key() {
            Vertex::Second
        } else {
            Vertex::Third
        }
    }

    /// The three angles, `alpha` first.
    pub fn new(alpha: Binary32, beta: Binary32, gamma: Binary32) -> (r: Angles)
        ensures
            r == (Angles { alpha, beta, gamma }),
    {
        Angles { alpha, beta, gamma }
    }

    /// The vertex with the largest angle; the earlier one among equals.
    pub fn largest(&self) -> (v: Vertex)
        ensures
            v == self.spec_largest(),
    {
        if self.beta.total_le(self.alpha) && self.gamma.total_le(self.alpha) {
            Vertex::First
        } else if self.gamma.total_le(self.beta) {
            Vertex::Second
        } else {
            Vertex::Third
        }
    }
}

/// The `i`-th point is unvisited, and `k` unvisited points come before it.
pub open spec fn is_nth_unvisited(points: Seq<Point>, k: nat, i: int) -> bool {
    &&& 0 <= i < points.len()
    &&& !points[i].visited
    &&& unvisited_before(points, i) == k
}

/// The place of the unvisited point before which `k` unvisited points come.
pub open spec fn nth_unvisited(points: Seq<Point>, k: nat) -> int {
    choose|i: int| is_nth_unvisited(points, k, i)
}

/// The points with every visited flag cleared.
pub open spec fn all_unvisited(points: Seq<Point>) -> Seq<Point> {
    Seq::new(points.len(), |i: int| points[i].flagged(false))
}

/// A point as a round leaves the vertex it keeps: visited, and shown as the
/// centre.
pub open spec fn survivor_of(p: Point) -> Point {
    Point { visited: true, visual: Visual::Center, ..p }
}

/// A point as a round leaves a vertex it eliminates: visited, and shown as
/// eliminated.
pub open spec fn eliminated_of(p: Point) -> Point {
    Point { visited: true, visual: Visual::Eliminated, ..p }
}

/// The set and the identities eliminated when, of the triangle at the places
/// `keep`, `first` and `second`, the vertex at `keep` is kept and the other
/// two are eliminated, `first` lying before `second`.
pub open spec fn keeping(points: Seq<Point>, keep: int, first: int, second: int) -> (
    Seq<Point>,
    Seq<u64>,
) {
    (
        points.update(keep, survivor_of(points[keep])).update(
            first,
            eliminated_of(points[first]),
        ).update(second, eliminated_of(points[second])),
        seq![points[first].id, points[second].id],
    )
}

/// The set after a round, and the identities eliminated by it.
///
/// With fewer than three unvisited points every visited flag is cleared and
/// nothing is eliminated. Otherwise the first three unvisited points are the
/// triangle, `angles` are its angles in that order, and all three are marked
/// as visited: the vertex with the largest angle as the one kept, the other
/// two as eliminated.
pub open spec fn round(points: Seq<Point>, angles: Angles) -> (Seq<Point>, Seq<u64>) {
    if unvisited_count(points) < 3 {
        (all_unvisited(points), Seq::empty())
    } else {
        let a = nth_unvisited(points, 0);
        let b = nth_unvisited(points, 1);
        let c = nth_unvisited(points, 2);
        match angles.spec_largest() {
            Vertex::First => keeping(points, a, b, c),
            Vertex::Second => keeping(points, b, a, c),
            Vertex::Third => keeping(points, c, a, b),
        }
    }
}

/// At most one place holds the unvisited point with `k` unvisited points
/// before it.
pub proof fn lemma_nth_unvisited_unique(points: Seq<Point>, k: nat, i: int, j: int)
    requires
        is_nth_unvisited(points, k, i),
        is_nth_unvisited(points, k, j),
    ensures
        i == j,
{
    if i < j {
        lemma_unvisited_before_grows(points, i + 1, j);
    } else if j < i {
        lemma_unvisited_before_grows(points, j + 1, i);
    }
}

/// The places of the first three unvisited points, in order; `None` where
/// fewer than three points are unvisited.
pub fn pick(points: &[Point]) -> (r: Option<(usize, usize, usize)>)
    ensures
        r is None <==> unvisited_count(points@) < 3,
        r matches Some((a, b, c)) ==> {
            &&& a < b < c < points.len()
            &&& a == nth_unvisited(points@, 0)
            &&& b == nth_unvisited(points@, 1)
            &&& c == nth_unvisited(points@, 2)
            &&& is_nth_unvisited(points@, 0, a as int)
            &&& is_nth_unvisited(points@, 1, b as int)
            &&& is_nth_unvisited(points@, 2, c as int)
        },
{
    let mut a: usize = 0;
    let mut b: usize = 0;
    let mut found: u8 = 0;
    let mut i: usize = 0;
    while i < points.len()
        invariant
            i <= points.len(),
            found <= 2,
            found == unvisited_before(points@, i as int),
            found >= 1 ==> a < i && is_nth_unvisited(points@, 0, a as int),
            found >= 2 ==> a < b < i && is_nth_unvisited(points@, 1, b as int),
        decreases points.len() - i,
    {
        if !points[i].visited {
            if found == 0 {
                a = i;
            } else if found == 1 {
                b = i;
            } else {
                proof {
                    lemma_unvisited_before_grows(points@, i as int + 1, points.len() as int);
                    assert(is_nth_unvisited(points@, 2, i as int));
                    lemma_nth_unvisited_unique(points@, 0, a as int, nth_unvisited(points@, 0));
                    lemma_nth_unvisited_unique(points@, 1, b as int, nth_unvisited(points@, 1));
                    lemma_nth_unvisited_unique(points@, 2, i as int, nth_unvisited(points@, 2));
                }
                return Some((a, b, i));
            }
            found = found + 1;
        }
        i = i + 1;
    }
    None
}

/// Clears every visited flag.
pub fn reset_visited(points: &mut Vec<Point>)
    ensures
        final(points)@ == all_unvisited(old(points)@),
{
    let ghost before = points@;
    let mut i: usize = 0;
    while i < points.len()
        invariant
            i <= points.len(),
            points.len() == before.len(),
            forall|j: int| 0 <= j < i ==> points@[j] == before[j].flagged(false),
            forall|j: int| i <= j < points.len() ==> points@[j] == before[j],
        decreases points.len() - i,
    {
        let p: Point = points[i];
        points.set(i, Point { visited: false, ..p });
        i = i + 1;
    }
    assert(points@ =~= all_unvisited(before));
}

/// Runs one round on `points`, with `angles` the interior angles of the
/// triangle of the first three unvisited points, and returns the identities
/// eliminated. The angles are not looked at where fewer than three points are
/// unvisited.
pub fn eliminate(points: &mut Vec<Point>, angles: &Angles) -> (removed: Vec<u64>)
    ensures
        final(points)@ == round(old(points)@, *angles).0,
        removed@ == round(old(points)@, *angles).1,
{
    match pick(points.as_slice()) {
        None => {
            reset_visited(points);
            Vec::new()
        },
        Some((a, b, c)) => {
            let (keep, first, second): (usize, usize, usize) = match angles.largest() {
                Vertex::First => (a, b, c),
                Vertex::Second => (b, a, c),
                Vertex::Third => (c, a, b),
            };
            let kept: Point = points[keep];
            let one: Point = points[first];
            let other: Point = points[second];
            points.set(keep, Point { visited: true, visual: Visual::Center, ..kept });
            points.set(first, Point { visited: true, visual: Visual::Eliminated, ..one });
            points.set(second, Point { visited: true, visual: Visual::Eliminated, ..other });
            let mut removed: Vec<u64> = Vec::new();
            removed.push(one.id);
            removed.push(other.id);
            assert(removed@ =~= seq![one.id, other.id]);
            removed
        },
    }
}

/// Among the first `n` points, the unvisited point with `k` unvisited points
/// before it exists as soon as more than `k` of them are unvisited.
proof fn lemma_nth_unvisited_within(points: Seq<Point>, k: nat, n: int)
    requires
        0 <= n <= points.len(),
        k < unvisited_before(points, n),
    ensures
        exists|i: int| i < n && is_nth_unvisited(points, k, i),
    decreases n,
{
    if !points[n - 1].visited && unvisited_before(points, n - 1) == k {
        assert(is_nth_unvisited(points, k, n - 1));
    } else {
        lemma_nth_unvisited_within(points, k, n - 1);
    }
}

/// With more than `k` unvisited points, `nth_unvisited` names the one with
/// `k` unvisited points before it.
pub proof fn lemma_nth_unvisited_exists(points: Seq<Point>, k: nat)
    requires
        k < unvisited_count(points),
    ensures
        is_nth_unvisited(points, k, nth_unvisited(points, k)),
{
    lemma_nth_unvisited_within(points, k, points.len() as int);
}

/// A round leaves every point in its place, with its identity and its
/// position: the set keeps its size and its order.
pub proof fn lemma_round_keeps_order(points: Seq<Point>, angles: Angles)
    ensures
        round(points, angles).0.len() == points.len(),
        forall|i: int|
            0 <= i < points.len() ==> (#[trigger] round(points, angles).0[i]).id == points[i].id
                && round(points, angles).0[i].position == points[i].position,
        ascending(points) ==> ascending(round(points, angles).0),
{
    if unvisited_count(points) >= 3 {
        lemma_round_keeps_largest(points, angles);
    }
}

/// The vertex that `spec_largest` names has an angle at least as large as
/// each of the three, and no earlier vertex has.
pub proof fn lemma_largest_is_first_maximum(angles: Angles)
    ensures
        angles.alpha.key() <= angles.at(angles.spec_largest()).key(),
        angles.beta.key() <= angles.at(angles.spec_largest()).key(),
        angles.gamma.key() <= angles.at(angles.spec_largest()).key(),
        angles.spec_largest() != Vertex::First ==> angles.alpha.key() < angles.at(
            angles.spec_largest(),
        ).key(),
        angles.spec_largest() == Vertex::Third ==> angles.beta.key() < angles.gamma.key(),
{
}

/// A round on a set with at least three unvisited points eliminates exactly
/// two points, both of the triangle, and keeps the vertex with the largest
/// angle. The three are visited afterwards, three fewer points are
/// unvisited, and no other point is touched.
pub proof fn lemma_round_keeps_largest(points: Seq<Point>, angles: Angles)
    requires
        unvisited_count(points) >= 3,
    ensures
        ({
            let a = nth_unvisited(points, 0);
            let b = nth_unvisited(points, 1);
            let c = nth_unvisited(points, 2);
            let keep = match angles.spec_largest() {
                Vertex::First => a,
                Vertex::Second => b,
                Vertex::Third => c,
            };
            let (after, removed) = round(points, angles);
            &&& 0 <= a < b < c < points.len()
            &&& is_nth_unvisited(points, 0, a)
            &&& is_nth_unvisited(points, 1, b)
            &&& is_nth_unvisited(points, 2, c)
            &&& removed.len() == 2
            &&& after.len() == points.len()
            &&& removed == match angles.spec_largest() {
                Vertex::First => seq![points[b].id, points[c].id],
                Vertex::Second => seq![points[a].id, points[c].id],
                Vertex::Third => seq![points[a].id, points[b].id],
            }
            &&& forall|i: int|
                (i == a || i == b || i == c) ==> #[trigger] after[i] == if i == keep {
                    survivor_of(points[i])
                } else {
                    eliminated_of(points[i])
                }
            &&& forall|i: int|
                0 <= i < points.len() && i != a && i != b && i != c ==> #[trigger] after[i]
                    == points[i]
            &&& unvisited_count(after) == unvisited_count(points) - 3
        }),
{
    let a = nth_unvisited(points, 0);
    let b = nth_unvisited(points, 1);
    let c = nth_unvisited(points, 2);
    lemma_nth_unvisited_exists(points, 0);
    lemma_nth_unvisited_exists(points, 1);
    lemma_nth_unvisited_exists(points, 2);
    if b <= a {
        lemma_unvisited_before_grows(points, b + 1, a);
    }
    if c <= b {
        lemma_unvisited_before_grows(points, c + 1, b);
    }
    let (keep, first, second) = match angles.spec_largest() {
        Vertex::First => (a, b, c),
        Vertex::Second => (b, a, c),
        Vertex::Third => (c, a, b),
    };
    let (after, removed) = round(points, angles);
    assert((after, removed) == keeping(points, keep, first, second));
    assert(removed[0] == points[first].id && removed[1] == points[second].id);
    let n = points.len() as int;
    let one = points.update(keep, survivor_of(points[keep]));
    let two = one.update(first, eliminated_of(points[first]));
    lemma_unvisited_before_visit(points, keep, survivor_of(points[keep]), n);
    lemma_unvisited_before_visit(one, first, eliminated_of(points[first]), n);
    lemma_unvisited_before_visit(two, second, eliminated_of(points[second]), n);
}

/// Where the three angles differ from each other, the angle at the vertex
/// that stays is strictly the largest.
pub proof fn lemma_largest_is_strict(angles: Angles, other: Vertex)
    requires
        angles.alpha != angles.beta,
        angles.beta != angles.gamma,
        angles.alpha != angles.gamma,
        other != angles.spec_largest(),
    ensures
        angles.at(other).key() < angles.at(angles.spec_largest()).key(),
{
}

/// A round on a set with fewer than three unvisited points clears every
/// visited flag, eliminates nothing and changes nothing else.
pub proof fn lemma_round_restarts(points: Seq<Point>, angles: Angles)
    requires
        unvisited_count(points) < 3,
    ensures
        round(points, angles) == (all_unvisited(points), Seq::<u64>::empty()),
        all_unvisited(points).len() == points.len(),
        forall|i: int|
            0 <= i < points.len() ==> #[trigger] all_unvisited(points)[i] == points[i].flagged(
                false,
            ),
        ascending(points) ==> ascending(all_unvisited(points)),
{
}

} // verus!
