use nanorand::{Rng, WyRand};
use point_cull::point::Position;
use point_cull::startup::{
    coord_from_draw, random_coord, random_position, startup_positions, Generator,
};

fn in_cube(p: &Position) -> bool {
    [p.x, p.y, p.z].iter().all(|c| (-100..=100).contains(c))
}

#[test]
fn same_seed_gives_the_same_positions() {
    let first = startup_positions(0x5eed, 500);
    let second = startup_positions(0x5eed, 500);
    assert_eq!(first, second);
}

#[test]
fn shorter_run_is_a_prefix_of_a_longer_one() {
    let long = startup_positions(7, 300);
    let short = startup_positions(7, 120);
    assert_eq!(short[..], long[..120]);
}

#[test]
fn different_seeds_give_different_positions() {
    assert_ne!(startup_positions(1, 50), startup_positions(2, 50));
}

#[test]
fn as_many_positions_as_asked_for() {
    assert_eq!(startup_positions(3, 0).len(), 0);
    assert_eq!(startup_positions(3, 1).len(), 1);
    assert_eq!(startup_positions(3, 10_000).len(), 10_000);
}

#[test]
fn every_coordinate_lies_in_the_cube() {
    for seed in [0, 1, 42, u64::MAX] {
        let positions = startup_positions(seed, 10_000);
        assert!(positions.iter().all(in_cube));
    }
}

#[test]
fn coordinates_reach_both_ends_of_the_range() {
    let positions = startup_positions(11, 10_000);
    let all: Vec<i32> = positions.iter().flat_map(|p| [p.x, p.y, p.z]).collect();
    assert_eq!(all.iter().min(), Some(&-100));
    assert_eq!(all.iter().max(), Some(&100));
}

#[test]
fn positions_follow_the_generator_draw_by_draw() {
    let mut rng = WyRand::new_seed(42);
    let positions = startup_positions(42, 100);
    for p in positions {
        let x: u64 = rng.generate_range(0_u64..=200);
        let y: u64 = rng.generate_range(0_u64..=200);
        let z: u64 = rng.generate_range(0_u64..=200);
        assert_eq!(i64::from(p.x) + 100, i64::try_from(x).unwrap());
        assert_eq!(i64::from(p.y) + 100, i64::try_from(y).unwrap());
        assert_eq!(i64::from(p.z) + 100, i64::try_from(z).unwrap());
    }
}

#[test]
fn generator_draws_x_then_y_then_z() {
    let mut coords = Generator::from_seed(9);
    let mut whole = Generator::from_seed(9);
    for _ in 0..50 {
        let x = random_coord(&mut coords);
        let y = random_coord(&mut coords);
        let z = random_coord(&mut coords);
        assert_eq!(random_position(&mut whole), Position { x, y, z });
    }
}

#[test]
fn coordinate_is_the_drawn_number_less_a_hundred() {
    let mut rng = WyRand::new_seed(1234);
    let mut g = Generator::from_seed(1234);
    for _ in 0..200 {
        let drawn: u64 = rng.generate_range(0_u64..=200);
        let c = random_coord(&mut g);
        assert!((-100..=100).contains(&c));
        assert_eq!(i64::from(c) + 100, i64::try_from(drawn).unwrap());
    }
}

#[test]
fn drawn_numbers_cover_the_hundredths_of_the_cube() {
    assert_eq!(coord_from_draw(0), -100);
    assert_eq!(coord_from_draw(1), -99);
    assert_eq!(coord_from_draw(100), 0);
    assert_eq!(coord_from_draw(199), 99);
    assert_eq!(coord_from_draw(200), 100);
}

#[test]
fn coordinate_of_a_draw_is_what_the_generator_hands_out() {
    let mut rng = WyRand::new_seed(77);
    let mut g = Generator::from_seed(77);
    for _ in 0..100 {
        let drawn: u64 = rng.generate_range(0_u64..=200);
        assert_eq!(random_coord(&mut g), coord_from_draw(drawn));
    }
}
