//! A run: the point set, the tick driver, the phase and the budget, and the
//! passes that act on them when the countdown completes.

use vstd::prelude::*;

use crate::binary32::Binary32;
use crate::centroid;
use crate::centroid::FindCenter;
use crate::highlight::{
    all_default, highlight, highlighted, lemma_highlight_only_recolors,
    lemma_reset_visuals_only_recolors, reset_visuals,
};
use crate::point::{ascending, unvisited_count, Point, Position, Visual};
use crate::startup::{startup_of, startup_positions};
use crate::tick::{Phase, TickDriver, TickState};
use crate::triangle;
use crate::triangle::{is_nth_unvisited, nth_unvisited, Angles};

verus! {

/// How many points a run of the centroid rule starts with.
pub const CENTROID_POINTS: usize = 10_000;

/// How many points a run of the triangle rule starts with.
pub const TRIANGLE_POINTS: usize = 1_000;

/// The budget of a round: how many points at most it highlights or samples.
pub const SELECT: usize = 1_000;

/// What the host measured for the coming elimination round. The kind of
/// measurement chooses the rule of the round.
#[derive(Debug)]
pub enum Reading {
    /// For the centroid rule: for each point of the sample, in order, the
    /// mean of its distances to the other points of the sample.
    Distances(Vec<Binary32>),
    /// For the triangle rule: the interior angles of the triangle of the
    /// first three unvisited points.
    Angles(Angles),
}

/// What a run holds.
pub struct State {
    /// The live points, in iteration order.
    pub points: Seq<Point>,
    /// The countdown.
    pub timer: TickState,
    /// The phase of the next completed countdown.
    pub phase: Phase,
    /// The budget of a round.
    pub select: nat,
}

/// The points that a run starts with at the given positions: the identity
/// of each is its place, none is visited, all are shown in the default way.
pub open spec fn fresh(positions: Seq<Position>) -> Seq<Point> {
    Seq::new(
        positions.len(),
        |i: int|
            Point { id: i as u64, position: positions[i], visited: false, visual: Visual::Default },
    )
}

impl State {
    /// The state in which a run on `points` starts. The first completed
    /// countdown eliminates.
    pub open spec fn initial(points: Seq<Point>, select: nat) -> State {
        State {
            points,
            timer: TickState { elapsed: 0, finished: false },
            phase: Phase::Reduce,
            select,
        }
    }

    /// A pass is due: the latest advance completed the countdown.
    pub open spec fn due(self) -> bool {
        self.timer.finished
    }

    /// The state after the countdown was advanced by `delta` nanoseconds.
    pub open spec fn ticked(self, delta: nat) -> State {
        State { timer: self.timer.advanced(delta), ..self }
    }

    /// The state after the looks were reset: where a mark pass is due every
    /// point is shown in the default way, else nothing changes.
    pub open spec fn recolored(self) -> State {
        if self.due() && self.phase == Phase::Mark {
            State { points: all_default(self.points), ..self }
        } else {
            self
        }
    }

    /// The points after the elimination round that `reading` calls for, and
    /// the identities eliminated by it.
    pub open spec fn reduced(self, reading: Reading) -> (Seq<Point>, Seq<u64>) {
        match reading {
            Reading::Distances(scores) => FindCenter::round(self.select, self.points, scores@),
            Reading::Angles(angles) => triangle::round(self.points, angles),
        }
    }

    /// The state after the pass that is due, and the identities that it
    /// eliminated.
    ///
    /// Nothing happens unless the latest advance completed the countdown.
    /// Then exactly one pass acts: in the mark phase the highlight pass, in
    /// the reduce phase the elimination round; and the phase flips.
    pub open spec fn processed(self, reading: Reading) -> (State, Seq<u64>) {
        if !self.due() {
            (self, Seq::empty())
        } else {
            match self.phase {
                Phase::Mark => (
                    State {
                        points: highlighted(self.points, self.select),
                        phase: Phase::Reduce,
                        ..self
                    },
                    Seq::empty(),
                ),
                Phase::Reduce => (
                    State { points: self.reduced(reading).0, phase: Phase::Mark, ..self },
                    self.reduced(reading).1,
                ),
            }
        }
    }
}

/// A run.
#[derive(Debug)]
pub struct Simulation {
    points: Vec<Point>,
    timer: TickDriver,
    phase: Phase,
    find_center: FindCenter,
}

impl View for Simulation {
    type V = State;

    closed spec fn view(&self) -> State {
        State {
            points: self.points@,
            timer: self.timer@,
            phase: self.phase,
            select: self.find_center.select as nat,
        }
    }
}

impl Simulation {
    #[verifier::type_invariant]
    spec fn ids_ascend(self) -> bool {
        ascending(self.points@)
    }

    /// A run on points at the given positions, with the given budget.
    pub fn new(positions: &[Position], select: usize) -> (s: Simulation)
        ensures
            s@ == State::initial(fresh(positions@), select as nat),
            ascending(s@.points),
    {
        let mut points: Vec<Point> = Vec::new();
        let mut i: usize = 0;
        while i < positions.len()
            invariant
                i <= positions.len(),
                points@ == fresh(positions@.take(i as int)),
            decreases positions.len() - i,
        {
            points.push(
                Point {
                    id: i as u64,
                    position: positions[i],
                    visited: false,
                    visual: Visual::Default,
                },
            );
            i = i + 1;
            assert(points@ =~= fresh(positions@.take(i as int)));
        }
        assert(positions@.take(positions.len() as int) =~= positions@);
        Simulation {
            points,
            timer: TickDriver::new(),
            phase: Phase::Reduce,
            find_center: FindCenter::new(select),
        }
    }

    /// A run on `count` points at the positions that `seed` gives.
    pub fn startup(seed: u64, count: usize, select: usize) -> (s: Simulation)
        ensures
            s@ == State::initial(fresh(startup_of(seed, count as nat)), select as nat),
            ascending(s@.points),
    {
        let positions: Vec<Position> = startup_positions(seed, count);
        Simulation::new(positions.as_slice(), select)
    }

    /// The live points, in iteration order. No identity occurs twice.
    pub fn points(&self) -> (r: &Vec<Point>)
        ensures
            r@ == self@.points,
            ascending(r@),
    {
        proof {
            use_type_invariant(self);
        }
        &self.points
    }

    /// The phase of the next completed countdown.
    pub fn phase(&self) -> (r: Phase)
        ensures
            r == self@.phase,
    {
        self.phase
    }

    /// The budget of a round.
    pub fn select(&self) -> (r: usize)
        ensures
            r == self@.select,
    {
        self.find_center.select
    }

    /// Whether the latest advance completed the countdown.
    pub fn finished(&self) -> (r: bool)
        ensures
            r == self@.due(),
    {
        self.timer.finished()
    }

    /// Whether an elimination round is due, so that `process_spheres` will
    /// look at its reading.
    pub fn reduce_due(&self) -> (r: bool)
        ensures
            r == (self@.due() && self@.phase == Phase::Reduce),
    {
        self.timer.finished() && self.phase == Phase::Reduce
    }

    /// Advances the countdown by `delta_nanos`, the time since the previous
    /// advance.
    pub fn tick(&mut self, delta_nanos: u64)
        ensures
            final(self)@ == old(self)@.ticked(delta_nanos as nat),
    {
        proof {
            use_type_invariant(&*self);
        }
        let mut timer: TickDriver = self.timer;
        timer.tick(delta_nanos);
        self.timer = timer;
    }

    /// Where a mark pass is due, shows every point in the default way.
    pub fn turn_cyan(&mut self)
        ensures
            final(self)@ == old(self)@.recolored(),
    {
        proof {
            use_type_invariant(&*self);
        }
        if self.timer.finished() && self.phase == Phase::Mark {
            let mut points: Vec<Point> = Vec::new();
            std::mem::swap(&mut points, &mut self.points);
            proof {
                lemma_reset_visuals_only_recolors(points@);
            }
            reset_visuals(&mut points);
            self.points = points;
        }
    }

    /// The sample whose distances the centroid rule wants measured: the
    /// first points of the set, as many as the budget allows.
    pub fn sample(&self) -> (sample: Vec<Point>)
        ensures
            sample@ == self@.points.take(
                if self@.select <= self@.points.len() {
                    self@.select as int
                } else {
                    self@.points.len() as int
                },
            ),
    {
        self.find_center.sample(self.points.as_slice())
    }

    /// The triangle whose angles the triangle rule wants measured: the first
    /// three unvisited points; `None` where fewer than three are unvisited.
    pub fn triangle(&self) -> (r: Option<(Point, Point, Point)>)
        ensures
            r is None <==> unvisited_count(self@.points) < 3,
            r matches Some((a, b, c)) ==> {
                &&& a == self@.points[nth_unvisited(self@.points, 0)]
                &&& b == self@.points[nth_unvisited(self@.points, 1)]
                &&& c == self@.points[nth_unvisited(self@.points, 2)]
                &&& is_nth_unvisited(self@.points, 0, nth_unvisited(self@.points, 0))
                &&& is_nth_unvisited(self@.points, 1, nth_unvisited(self@.points, 1))
                &&& is_nth_unvisited(self@.points, 2, nth_unvisited(self@.points, 2))
            },
    {
        match triangle::pick(self.points.as_slice()) {
            Some((a, b, c)) => Some((self.points[a], self.points[b], self.points[c])),
            None => None,
        }
    }

    /// The position of the last point, once the set is down to one point.
    pub fn sole_survivor(&self) -> (r: Option<Position>)
        ensures
            r == if self@.points.len() == 1 {
                Some(self@.points[0].position)
            } else {
                None
            },
    {
        if self.points.len() == 1 {
            Some(self.points[0].position)
        } else {
            None
        }
    }

    /// Runs the pass that is due, if one is, and returns the identities of
    /// the points that it eliminated. Under the centroid rule these points
    /// have left the set. Under the triangle rule they stay in it, visited
    /// and shown as eliminated.
    pub fn process_spheres(&mut self, reading: &Reading) -> (removed: Vec<u64>)
        ensures
            final(self)@ == old(self)@.processed(*reading).0,
            removed@ == old(self)@.processed(*reading).1,
    {
        proof {
            use_type_invariant(&*self);
        }
        if !self.timer.finished() {
            return Vec::new();
        }
        let mut points: Vec<Point> = Vec::new();
        std::mem::swap(&mut points, &mut self.points);
        let removed: Vec<u64> = match self.phase {
            Phase::Mark => {
                proof {
                    lemma_highlight_only_recolors(points@, self.find_center.select as nat);
                }
                highlight(&mut points, self.find_center.select);
                Vec::new()
            },
            Phase::Reduce => match reading {
                Reading::Distances(scores) => {
                    proof {
                        centroid::lemma_round_keeps_order(
                            self.find_center.select as nat,
                            points@,
                            scores@,
                        );
                    }
                    self.find_center.eliminate(&mut points, scores.as_slice())
                },
                Reading::Angles(angles) => {
                    proof {
                        triangle::lemma_round_keeps_order(points@, *angles);
                    }
                    triangle::eliminate(&mut points, angles)
                },
            },
        };
        self.points = points;
        self.phase = self.phase.flipped();
        removed
    }
}

/// A pass never adds a point, keeps the identities apart, and leaves the
/// countdown and the budget alone. The phase flips exactly when a pass was due.
pub proof fn lemma_processed_never_grows(state: State, reading: Reading)
    requires
        ascending(state.points),
    ensures
        ascending(state.processed(reading).0.points),
        state.processed(reading).0.points.len() <= state.points.len(),
        state.processed(reading).0.timer == state.timer,
        state.processed(reading).0.select == state.select,
        state.processed(reading).0.phase == if state.due() {
            state.phase.spec_flipped()
        } else {
            state.phase
        },
        !state.due() ==> state.processed(reading) == (state, Seq::<u64>::empty()),
        state.due() && state.phase == Phase::Mark ==> state.processed(reading).1.len() == 0,
{
    if state.due() {
        match state.phase {
            Phase::Mark => {
                lemma_highlight_only_recolors(state.points, state.select);
            },
            Phase::Reduce => match reading {
                Reading::Distances(scores) => {
                    centroid::lemma_round_keeps_order(state.select, state.points, scores@);
                },
                Reading::Angles(angles) => {
                    triangle::lemma_round_keeps_order(state.points, angles);
                },
            },
        }
    }
}

} // verus!
