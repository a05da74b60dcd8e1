//! Elimination by nearness to the centre: of a sample of points, the one with
//! the least mean distance to the others stays, and the others go.

use vstd::prelude::*;

use crate::binary32::Binary32;
use crate::point::{ascending, ids_of, Point, Position};

verus! {

/// A point of a sample, with the mean of its distances to the other points
/// of the same sample.
#[derive(Clone, Copy, Debug, PartialEq, Eq, Structural)]
pub struct Scored {
    pub id: u64,
    pub mean_distance: Binary32,
}

/// The identities of a scored sample, in the same order.
pub open spec fn scored_ids(values: Seq<Scored>) -> Seq<u64> {
    Seq::new(values.len(), |i: int| values[i].id)
}

/// The keys of the mean distances of a scored sample, in the same order.
pub open spec fn scored_keys(values: Seq<Scored>) -> Seq<int> {
    Seq::new(values.len(), |i: int| values[i].mean_distance.key())
}

/// `w` is the place of the least key, and of the first one where the least
/// key occurs more than once.
pub open spec fn is_first_minimum(keys: Seq<int>, w: int) -> bool {
    &&& 0 <= w < keys.len()
    &&& forall|j: int| 0 <= j < keys.len() ==> keys[w] <= #[trigger] keys[j]
    &&& forall|j: int| 0 <= j < w ==> keys[w] < #[trigger] keys[j]
}

/// The place of the first least key of a sequence that is not empty.
pub open spec fn first_minimum(keys: Seq<int>) -> int {
    choose|w: int| is_first_minimum(keys, w)
}

/// The identities other than `center`.
pub open spec fn other_than(center: u64) -> spec_fn(u64) -> bool {
    |id: u64| id != center
}

/// The points whose identity is not `id`.
pub open spec fn not_identified(id: u64) -> spec_fn(Point) -> bool {
    |p: Point| p.id != id
}

/// The positions of a sequence of points, in the same order.
pub open spec fn positions_of(points: Seq<Point>) -> Seq<Position> {
    Seq::new(points.len(), |i: int| points[i].position)
}

/// A sequence has at most one first minimum.
pub proof fn lemma_first_minimum_unique(keys: Seq<int>, a: int, b: int)
    requires
        is_first_minimum(keys, a),
        is_first_minimum(keys, b),
    ensures
        a == b,
{
    if a < b {
        assert(keys[b] < keys[a]);
        assert(keys[a] <= keys[b]);
    } else if b < a {
        assert(keys[a] < keys[b]);
        assert(keys[b] <= keys[a]);
    }
}

/// A sequence that is not empty has a first minimum, and `first_minimum`
/// names it.
pub proof fn lemma_first_minimum_exists(keys: Seq<int>)
    requires
        keys.len() > 0,
    ensures
        is_first_minimum(keys, first_minimum(keys)),
    decreases keys.len(),
{
    if keys.len() == 1 {
        assert(is_first_minimum(keys, 0));
    } else {
        let front = keys.drop_last();
        lemma_first_minimum_exists(front);
        let w = first_minimum(front);
        let last = keys.len() - 1;
        assert(forall|j: int| 0 <= j < front.len() ==> front[j] == keys[j]);
        if keys[last] < keys[w] {
            assert forall|j: int| 0 <= j < last implies keys[last] < #[trigger] keys[j] by {
                assert(front[w] <= front[j]);
            }
            assert(is_first_minimum(keys, last));
        } else {
            assert forall|j: int| 0 <= j < keys.len() implies keys[w] <= #[trigger] keys[j] by {
                if j < last {
                    assert(front[w] <= front[j]);
                }
            }
            assert forall|j: int| 0 <= j < w implies keys[w] < #[trigger] keys[j] by {
                assert(front[w] < front[j]);
            }
            assert(is_first_minimum(keys, w));
        }
    }
}

/// The place in `values` of the point with the least mean distance: the
/// first such place where several share the least. `None` for an empty
/// sample only.
pub fn center(values: &[Scored]) -> (r: Option<usize>)
    ensures
        values.len() == 0 ==> r is None,
        values.len() > 0 ==> r == Some(first_minimum(scored_keys(values@)) as usize),
        r matches Some(w) ==> is_first_minimum(scored_keys(values@), w as int),
{
    if values.len() == 0 {
        return None;
    }
    let ghost keys = scored_keys(values@);
    let mut best: usize = 0;
    let mut best_key: i32 = values[0].mean_distance.to_key();
    let mut i: usize = 1;
    while i < values.len()
        invariant
            1 <= i <= values.len(),
            keys == scored_keys(values@),
            best < i,
            best_key == keys[best as int],
            forall|j: int| 0 <= j < i ==> keys[best as int] <= #[trigger] keys[j],
            forall|j: int| 0 <= j < best ==> keys[best as int] < #[trigger] keys[j],
        decreases values.len() - i,
    {
        let key: i32 = values[i].mean_distance.to_key();
        if key < best_key {
            best = i;
            best_key = key;
        }
        i = i + 1;
    }
    proof {
        assert(is_first_minimum(keys, best as int));
        lemma_first_minimum_exists(keys);
        lemma_first_minimum_unique(keys, best as int, first_minimum(keys));
    }
    Some(best)
}

/// The elimination rule and its budget.
#[derive(Clone, Copy, Debug, PartialEq, Eq, Structural)]
pub struct FindCenter {
    /// How many points at most take part in one round.
    pub select: usize,
}

impl FindCenter {
    /// The identities that a round on the scored sample `values` removes: none
    /// where the sample has at most one point; else every identity but that
    /// of the point with the first least mean distance.
    pub open spec fn removal(values: Seq<Scored>) -> Seq<u64> {
        if values.len() <= 1 {
            Seq::empty()
        } else {
            let center = values[first_minimum(scored_keys(values))].id;
            scored_ids(values).filter(other_than(center))
        }
    }

    /// How many points take part in a round: the first points of the set, as
    /// many as the budget allows and as there are scores for.
    pub open spec fn sample_len(select: nat, points: Seq<Point>, scores: Seq<Binary32>) -> nat {
        if select <= points.len() && select <= scores.len() {
            select
        } else if points.len() <= scores.len() {
            points.len()
        } else {
            scores.len()
        }
    }

    /// The sample of a round: its `i`-th point is the `i`-th point of the
    /// set, and its mean distance is the `i`-th score.
    pub open spec fn scored_sample(select: nat, points: Seq<Point>, scores: Seq<Binary32>) -> Seq<
        Scored,
    > {
        Seq::new(
            Self::sample_len(select, points, scores),
            |i: int| Scored { id: points[i].id, mean_distance: scores[i] },
        )
    }

    /// The set after a round, and the identities removed by it. A sample of
    /// at most one point changes nothing. Otherwise the point with the first
    /// least mean distance stays, the rest of the sample goes, and the points
    /// beyond the sample follow. No point that stays is changed in any way.
    pub open spec fn round(select: nat, points: Seq<Point>, scores: Seq<Binary32>) -> (
        Seq<Point>,
        Seq<u64>,
    ) {
        let sample = Self::scored_sample(select, points, scores);
        if sample.len() <= 1 {
            (points, Seq::empty())
        } else {
            let w = first_minimum(scored_keys(sample));
            (
                seq![points[w]] + points.skip(sample.len() as int),
                Self::removal(sample),
            )
        }
    }

    /// A rule with the given budget.
    pub fn new(select: usize) -> (r: FindCenter)
        ensures
            r.select == select,
    {
        FindCenter { select }
    }

    /// The identities to remove from the scored sample `values`: all but the
    /// one of the point with the least mean distance, in the order of the
    /// sample. Nothing is removed from a sample of at most one point.
    pub fn remove(&self, values: &[Scored]) -> (removed: Vec<u64>)
        ensures
            removed@ == Self::removal(values@),
    {
        if values.len() <= 1 {
            return Vec::new();
        }
        match center(values) {
            Some(w) => {
                let e: u64 = values[w].id;
                let ghost ids = scored_ids(values@);
                let mut removed: Vec<u64> = Vec::new();
                let mut i: usize = 0;
                while i < values.len()
                    invariant
                        i <= values.len(),
                        ids == scored_ids(values@),
                        removed@ == ids.take(i as int).filter(other_than(e)),
                    decreases values.len() - i,
                {
                    proof {
                        assert(ids.take(i + 1) =~= ids.take(i as int).push(ids[i as int]));
                        ids.take(i as int).lemma_filter_push(ids[i as int], other_than(e));
                    }
                    if values[i].id != e {
                        removed.push(values[i].id);
                    }
                    i = i + 1;
                }
                assert(ids.take(values.len() as int) =~= ids);
                removed
            },
            None => Vec::new(),
        }
    }

    /// The first points of `points`, as many as the budget allows: the sample
    /// whose distances the next round wants measured.
    pub fn sample(&self, points: &[Point]) -> (sample: Vec<Point>)
        ensures
            sample@ == points@.take(
                if self.select <= points.len() {
                    self.select as int
                } else {
                    points.len() as int
                },
            ),
    {
        let n: usize = if self.select <= points.len() {
            self.select
        } else {
            points.len()
        };
        let mut sample: Vec<Point> = Vec::new();
        let mut i: usize = 0;
        while i < n
            invariant
                i <= n <= points.len(),
                sample@ == points@.take(i as int),
            decreases n - i,
        {
            sample.push(points[i]);
            i = i + 1;
            assert(sample@ =~= points@.take(i as int));
        }
        sample
    }

    /// The positions of the points of `sample` other than the one identified
    /// by `id`, in the order of the sample: the peers to which that point's
    /// distances are measured.
    pub fn others(sample: &[Point], id: u64) -> (others: Vec<Position>)
        ensures
            others@ == positions_of(sample@.filter(not_identified(id))),
    {
        let mut others: Vec<Position> = Vec::new();
        let mut i: usize = 0;
        while i < sample.len()
            invariant
                i <= sample.len(),
                others@ == positions_of(sample@.take(i as int).filter(not_identified(id))),
            decreases sample.len() - i,
        {
            proof {
                assert(sample@.take(i + 1) =~= sample@.take(i as int).push(sample@[i as int]));
                sample@.take(i as int).lemma_filter_push(sample@[i as int], not_identified(id));
            }
            if sample[i].id != id {
                others.push(sample[i].position);
            }
            i = i + 1;
            assert(others@ =~= positions_of(sample@.take(i as int).filter(not_identified(id))));
        }
        assert(sample@.take(sample.len() as int) =~= sample@);
        others
    }

    /// Runs one round on `points`, with `scores[i]` the mean distance of the
    /// `i`-th point to the other points of the sample, and returns the
    /// identities removed.
    pub fn eliminate(&self, points: &mut Vec<Point>, scores: &[Binary32]) -> (removed: Vec<u64>)
        ensures
            final(points)@ == Self::round(self.select as nat, old(points)@, scores@).0,
            removed@ == Self::round(self.select as nat, old(points)@, scores@).1,
    {
        let mut n: usize = self.select;
        if points.len() < n {
            n = points.len();
        }
        if scores.len() < n {
            n = scores.len();
        }
        let ghost sample = Self::scored_sample(self.select as nat, points@, scores@);
        assert(n == sample.len());
        if n <= 1 {
            return Vec::new();
        }
        let mut values: Vec<Scored> = Vec::new();
        let mut i: usize = 0;
        while i < n
            invariant
                i <= n,
                n <= points.len(),
                n <= scores.len(),
                n == sample.len(),
                sample == Self::scored_sample(self.select as nat, points@, scores@),
                values@ == sample.take(i as int),
            decreases n - i,
        {
            values.push(Scored { id: points[i].id, mean_distance: scores[i] });
            i = i + 1;
            assert(values@ =~= sample.take(i as int));
        }
        assert(values@ =~= sample);
        let removed: Vec<u64> = self.remove(values.as_slice());
        let w: usize = match center(values.as_slice()) {
            Some(w) => w,
            None => 0,
        };
        let survivor: Point = points[w];
        let mut kept: Vec<Point> = Vec::new();
        kept.push(survivor);
        let mut j: usize = n;
        while j < points.len()
            invariant
                n <= j <= points.len(),
                kept@ == seq![survivor] + points@.subrange(n as int, j as int),
            decreases points.len() - j,
        {
            kept.push(points[j]);
            j = j + 1;
            assert(kept@ =~= seq![survivor] + points@.subrange(n as int, j as int));
        }
        assert(points@.subrange(n as int, points.len() as int) =~= points@.skip(n as int));
        *points = kept;
        removed
    }
}

/// A filter that every item passes keeps the sequence as it is.
proof fn lemma_filter_keeps_all(ids: Seq<u64>, pred: spec_fn(u64) -> bool)
    requires
        forall|i: int| 0 <= i < ids.len() ==> pred(#[trigger] ids[i]),
    ensures
        ids.filter(pred) == ids,
    decreases ids.len(),
{
    reveal(Seq::filter);
    if ids.len() > 0 {
        lemma_filter_keeps_all(ids.drop_last(), pred);
        assert(ids.drop_last().push(ids.last()) =~= ids);
    }
}

/// Where no identity occurs twice, dropping the identity at place `w` drops
/// that one place.
proof fn lemma_filter_drops_one(ids: Seq<u64>, w: int)
    requires
        0 <= w < ids.len(),
        ids.no_duplicates(),
    ensures
        ids.filter(other_than(ids[w])) == ids.remove(w),
    decreases ids.len(),
{
    reveal(Seq::filter);
    let front = ids.drop_last();
    let last = ids.len() - 1;
    if w == last {
        lemma_filter_keeps_all(front, other_than(ids[w]));
        assert(ids.remove(w) =~= front);
    } else {
        lemma_filter_drops_one(front, w);
        assert(ids.remove(w) =~= front.remove(w).push(ids[last]));
    }
}

/// Where no identity occurs twice in a sample of more than one point, what
/// is removed is the sample without one place, that of the point with the
/// first least mean distance: all points but one.
pub proof fn lemma_removal_drops_center(values: Seq<Scored>)
    requires
        values.len() > 1,
        scored_ids(values).no_duplicates(),
    ensures
        is_first_minimum(scored_keys(values), first_minimum(scored_keys(values))),
        FindCenter::removal(values) == scored_ids(values).remove(
            first_minimum(scored_keys(values)),
        ),
        FindCenter::removal(values).len() == values.len() - 1,
{
    lemma_first_minimum_exists(scored_keys(values));
    lemma_filter_drops_one(scored_ids(values), first_minimum(scored_keys(values)));
}

/// A round leaves the identities in ascending order, and never adds a point.
pub proof fn lemma_round_keeps_order(select: nat, points: Seq<Point>, scores: Seq<Binary32>)
    requires
        ascending(points),
    ensures
        ascending(FindCenter::round(select, points, scores).0),
        FindCenter::round(select, points, scores).0.len() <= points.len(),
{
    let sample = FindCenter::scored_sample(select, points, scores);
    if sample.len() > 1 {
        lemma_first_minimum_exists(scored_keys(sample));
    }
}

/// A round changes no point: every point of the set after it stood in the
/// set before it, with the same position, visited flag and look.
pub proof fn lemma_round_changes_no_point(select: nat, points: Seq<Point>, scores: Seq<Binary32>)
    ensures
        forall|k: int|
            0 <= k < FindCenter::round(select, points, scores).0.len() ==> points.contains(
                #[trigger] FindCenter::round(select, points, scores).0[k],
            ),
{
    let sample = FindCenter::scored_sample(select, points, scores);
    let after = FindCenter::round(select, points, scores).0;
    if sample.len() > 1 {
        lemma_first_minimum_exists(scored_keys(sample));
        let w = first_minimum(scored_keys(sample));
        assert forall|k: int| 0 <= k < after.len() implies points.contains(#[trigger] after[k]) by {
            if k == 0 {
                assert(after[k] == points[w]);
            } else {
                assert(after[k] == points[sample.len() + k - 1]);
            }
        }
    }
}

/// A round on a sample of more than one point removes every point of the
/// sample but one, the point with the first least mean distance, and leaves
/// that point and the points beyond the sample as they were.
pub proof fn lemma_round_keeps_one_of_sample(
    select: nat,
    points: Seq<Point>,
    scores: Seq<Binary32>,
)
    requires
        ascending(points),
        FindCenter::sample_len(select, points, scores) > 1,
    ensures
        ({
            let n = FindCenter::sample_len(select, points, scores) as int;
            let w = first_minimum(scored_keys(FindCenter::scored_sample(select, points, scores)));
            let (after, removed) = FindCenter::round(select, points, scores);
            &&& 0 <= w < n <= points.len()
            &&& removed.len() == n - 1
            &&& removed == ids_of(points.take(n)).remove(w)
            &&& after.len() == points.len() - (n - 1)
            &&& after[0] == points[w]
            &&& after.skip(1) == points.skip(n)
            &&& forall|i: int|
                0 <= i < n ==> (ids_of(after).contains(#[trigger] points[i].id) <==> i == w)
            &&& forall|i: int|
                0 <= i < n ==> (removed.contains(#[trigger] points[i].id) <==> i != w)
        }),
{
    let n = FindCenter::sample_len(select, points, scores) as int;
    let sample = FindCenter::scored_sample(select, points, scores);
    let w = first_minimum(scored_keys(sample));
    let (after, removed) = FindCenter::round(select, points, scores);
    let ids = scored_ids(sample);
    assert(ids =~= ids_of(points.take(n)));
    assert(ids.no_duplicates());
    lemma_removal_drops_center(sample);
    assert(after.skip(1) =~= points.skip(n));
    assert(ids_of(after)[0] == points[w].id);
    assert forall|i: int| 0 <= i < n implies (ids_of(after).contains(#[trigger] points[i].id) <==> i
        == w) by {
        if ids_of(after).contains(points[i].id) {
            let k = choose|k: int| 0 <= k < after.len() && ids_of(after)[k] == points[i].id;
            if k > 0 {
                assert(after[k] == points[n + k - 1]);
            }
        }
    }
    assert forall|i: int| 0 <= i < n implies (removed.contains(#[trigger] points[i].id) <==> i
        != w) by {
        if i < w {
            assert(removed[i] == points[i].id);
        } else if i > w {
            assert(removed[i - 1] == points[i].id);
        } else if removed.contains(points[i].id) {
            let k = choose|k: int| 0 <= k < removed.len() && removed[k] == points[i].id;
            assert(removed[k] == if k < w {
                points[k].id
            } else {
                points[k + 1].id
            });
        }
    }
}

/// A round on a sample of at most one point leaves the set as it is and
/// removes nothing.
pub proof fn lemma_round_leaves_small_sample(
    select: nat,
    points: Seq<Point>,
    scores: Seq<Binary32>,
)
    requires
        FindCenter::sample_len(select, points, scores) <= 1,
    ensures
        FindCenter::round(select, points, scores) == (points, Seq::<u64>::empty()),
{
}

} // verus!
