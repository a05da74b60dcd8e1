use point_cull::binary32::Binary32;
use point_cull::point::{Point, Position, Visual};
use point_cull::simulation::{Reading, Simulation, CENTROID_POINTS, SELECT, TRIANGLE_POINTS};
use point_cull::startup::startup_positions;
use point_cull::tick::{Phase, PERIOD_NANOS};
use point_cull::triangle::Angles;

fn at(x: i32, y: i32, z: i32) -> Position {
    Position { x, y, z }
}

fn row(count: i32) -> Vec<Position> {
    (0..count).map(|i| at(i, 0, 0)).collect()
}

fn scores(values: &[f32]) -> Reading {
    Reading::Distances(values.iter().map(|v| Binary32::from_bits(v.to_bits())).collect())
}

fn ids(points: &[Point]) -> Vec<u64> {
    points.iter().map(|p| p.id).collect()
}

fn looks(points: &[Point]) -> Vec<Visual> {
    points.iter().map(|p| p.visual).collect()
}

#[test]
fn run_starts_with_fresh_points() {
    let positions = [at(5, 6, 7), at(-1, -2, -3), at(0, 0, 0)];
    let run = Simulation::new(&positions, 2);
    assert_eq!(
        *run.points(),
        vec![
            Point { id: 0, position: at(5, 6, 7), visited: false, visual: Visual::Default },
            Point { id: 1, position: at(-1, -2, -3), visited: false, visual: Visual::Default },
            Point { id: 2, position: at(0, 0, 0), visited: false, visual: Visual::Default },
        ]
    );
    assert_eq!(run.select(), 2);
    assert_eq!(run.phase(), Phase::Reduce);
    assert!(!run.finished());
    assert!(!run.reduce_due());
}

#[test]
fn seeded_run_starts_at_the_seeded_positions() {
    let run = Simulation::startup(77, 300, 10);
    let positions: Vec<Position> = run.points().iter().map(|p| p.position).collect();
    assert_eq!(positions, startup_positions(77, 300));
    assert_eq!(ids(run.points()), (0..300).collect::<Vec<u64>>());
    assert_eq!(*Simulation::startup(77, 300, 10).points(), *run.points());
}

#[test]
fn sizes_of_the_two_demonstrations() {
    assert_eq!(CENTROID_POINTS, 10_000);
    assert_eq!(TRIANGLE_POINTS, 1_000);
    assert_eq!(SELECT, 1_000);
    let run = Simulation::startup(1, CENTROID_POINTS, SELECT);
    assert_eq!(run.points().len(), 10_000);
    assert_eq!(run.sample().len(), 1_000);
}

#[test]
fn nothing_happens_before_the_countdown_completes() {
    let mut run = Simulation::new(&row(4), 1000);
    run.tick(PERIOD_NANOS - 1);
    assert!(!run.finished());
    let removed = run.process_spheres(&scores(&[4.0, 1.0, 2.0, 3.0]));
    assert!(removed.is_empty());
    assert_eq!(ids(run.points()), vec![0, 1, 2, 3]);
    assert_eq!(run.phase(), Phase::Reduce);
    run.turn_cyan();
    assert_eq!(run.phase(), Phase::Reduce);
}

#[test]
fn phase_flips_with_every_completed_countdown() {
    let mut run = Simulation::new(&row(3), 1000);
    let mut phases = Vec::new();
    for _ in 0..5 {
        run.tick(PERIOD_NANOS);
        run.process_spheres(&scores(&[]));
        phases.push(run.phase());
    }
    assert_eq!(
        phases,
        vec![Phase::Mark, Phase::Reduce, Phase::Mark, Phase::Reduce, Phase::Mark]
    );
}

#[test]
fn phase_stays_between_completions() {
    let mut run = Simulation::new(&row(3), 1000);
    run.tick(PERIOD_NANOS);
    run.process_spheres(&scores(&[]));
    assert_eq!(run.phase(), Phase::Mark);
    run.tick(10);
    assert!(!run.finished());
    run.process_spheres(&scores(&[]));
    assert_eq!(run.phase(), Phase::Mark);
}

#[test]
fn mark_pass_highlights_and_removes_nothing() {
    let mut run = Simulation::new(&row(5), 3);
    run.tick(PERIOD_NANOS);
    run.process_spheres(&scores(&[]));
    run.tick(PERIOD_NANOS);
    assert!(run.finished());
    assert!(!run.reduce_due());
    let removed = run.process_spheres(&scores(&[9.0, 1.0, 5.0]));
    assert!(removed.is_empty());
    assert_eq!(ids(run.points()), vec![0, 1, 2, 3, 4]);
    assert_eq!(
        looks(run.points()),
        vec![
            Visual::Candidate,
            Visual::Candidate,
            Visual::Candidate,
            Visual::Default,
            Visual::Default,
        ]
    );
    assert_eq!(run.phase(), Phase::Reduce);
}

#[test]
fn reduce_pass_eliminates_and_highlights_nothing() {
    let mut run = Simulation::new(&row(5), 3);
    run.tick(PERIOD_NANOS);
    assert!(run.reduce_due());
    let removed = run.process_spheres(&scores(&[9.0, 1.0, 5.0]));
    assert_eq!(removed, vec![0, 2]);
    assert_eq!(ids(run.points()), vec![1, 3, 4]);
    assert_eq!(looks(run.points()), vec![Visual::Default, Visual::Default, Visual::Default]);
    assert!(run.points().iter().all(|p| !p.visited));
    assert_eq!(run.phase(), Phase::Mark);
}

#[test]
fn reduce_pass_keeps_the_looks_of_the_points_that_stay() {
    let mut run = Simulation::new(&row(6), 3);
    run.tick(PERIOD_NANOS);
    run.process_spheres(&scores(&[]));
    run.tick(PERIOD_NANOS);
    run.process_spheres(&scores(&[]));
    assert_eq!(
        looks(run.points()),
        vec![
            Visual::Candidate,
            Visual::Candidate,
            Visual::Candidate,
            Visual::Default,
            Visual::Default,
            Visual::Default,
        ]
    );
    run.tick(PERIOD_NANOS);
    assert!(run.reduce_due());
    let removed = run.process_spheres(&scores(&[9.0, 1.0, 5.0]));
    assert_eq!(removed, vec![0, 2]);
    assert_eq!(ids(run.points()), vec![1, 3, 4, 5]);
    assert_eq!(
        looks(run.points()),
        vec![Visual::Candidate, Visual::Default, Visual::Default, Visual::Default]
    );
}

/// A run of six points with a budget of three, after a mark pass and the
/// reduce pass that follows it: the point kept is still shown as a candidate.
fn after_mark_and_reduce() -> Simulation {
    let mut run = Simulation::new(&row(6), 3);
    run.tick(PERIOD_NANOS);
    run.process_spheres(&scores(&[]));
    run.tick(PERIOD_NANOS);
    run.process_spheres(&scores(&[]));
    run.tick(PERIOD_NANOS);
    run.process_spheres(&scores(&[9.0, 1.0, 5.0]));
    run
}

#[test]
fn looks_are_reset_when_a_mark_pass_is_due() {
    let mut run = after_mark_and_reduce();
    assert_eq!(run.points()[0].visual, Visual::Candidate);
    run.tick(PERIOD_NANOS);
    assert_eq!(run.phase(), Phase::Mark);
    run.turn_cyan();
    assert!(run.points().iter().all(|p| p.visual == Visual::Default));
    assert_eq!(run.phase(), Phase::Mark);
    assert_eq!(ids(run.points()), vec![1, 3, 4, 5]);
}

#[test]
fn looks_are_kept_when_no_mark_pass_is_due() {
    let mut run = after_mark_and_reduce();
    run.tick(1);
    assert!(!run.finished());
    run.turn_cyan();
    assert_eq!(run.points()[0].visual, Visual::Candidate);
    run.tick(PERIOD_NANOS);
    run.process_spheres(&scores(&[]));
    run.tick(PERIOD_NANOS);
    assert!(run.reduce_due());
    run.turn_cyan();
    assert_eq!(
        looks(run.points()),
        vec![Visual::Candidate, Visual::Candidate, Visual::Candidate, Visual::Default]
    );
}

#[test]
fn kind_of_reading_chooses_the_rule() {
    let one = Binary32::from_bits(1.0_f32.to_bits());
    let two = Binary32::from_bits(2.0_f32.to_bits());
    let mut by_distance = Simulation::new(&row(5), 1000);
    by_distance.tick(PERIOD_NANOS);
    assert_eq!(by_distance.process_spheres(&scores(&[2.0, 1.0, 2.0, 2.0, 2.0])), vec![0, 2, 3, 4]);
    let mut by_angle = Simulation::new(&row(5), 1000);
    by_angle.tick(PERIOD_NANOS);
    let reading = Reading::Angles(Angles::new(two, one, one));
    assert_eq!(by_angle.process_spheres(&reading), vec![1, 2]);
    assert_eq!(ids(by_angle.points()), vec![0, 1, 2, 3, 4]);
    assert_eq!(
        looks(by_angle.points()),
        vec![
            Visual::Center,
            Visual::Eliminated,
            Visual::Eliminated,
            Visual::Default,
            Visual::Default,
        ]
    );
    assert!(by_angle.points()[0].visited);
}

#[test]
fn last_point_is_reported_once_alone() {
    let mut run = Simulation::new(&[at(1, 1, 1), at(2, 2, 2)], 1000);
    assert_eq!(run.sole_survivor(), None);
    run.tick(PERIOD_NANOS);
    run.process_spheres(&scores(&[1.0, 0.5]));
    assert_eq!(run.sole_survivor(), Some(at(2, 2, 2)));
    assert_eq!(Simulation::new(&[], 1000).sole_survivor(), None);
    assert_eq!(Simulation::new(&[at(3, 3, 3)], 1000).sole_survivor(), Some(at(3, 3, 3)));
}

#[test]
fn set_never_grows() {
    let mut run = Simulation::startup(5, 200, 16);
    let mut size = run.points().len();
    for step in 0..60 {
        run.tick(30_000_000);
        let sample = run.sample();
        let values: Vec<f32> = sample.iter().map(|p| ((p.id * 7 + step) % 13) as f32).collect();
        let removed = run.process_spheres(&scores(&values));
        assert_eq!(run.points().len() + removed.len(), size);
        size = run.points().len();
        let listed = ids(run.points());
        assert!(listed.windows(2).all(|w| w[0] < w[1]));
    }
    assert!(size < 200);
}
