//! Where the points start: coordinates drawn from a seeded generator.

use nanorand::Rng;
use nanorand::WyRand;
use vstd::prelude::*;

use crate::point::Position;

verus! {

/// nanorand's `WyRand` generator.
#[verifier::external_type_specification]
#[verifier::external_body]
pub struct ExWyRand(WyRand);

/// The seed that a `WyRand` holds: the one value its future output depends on.
pub uninterp spec fn wyrand_seed(rng: WyRand) -> u64;

/// What `generate_range` over `0..=200` does to a `WyRand` that holds `seed`:
/// the seed it holds afterwards, and the number it returns.
pub uninterp spec fn wyrand_draw(seed: u64) -> (u64, u64);

/// `WyRand::new_seed`: a generator that holds the given seed.
#[verifier::external_body]
fn wyrand_from_seed(seed: u64) -> (rng: WyRand)
    ensures
        wyrand_seed(rng) == seed,
{
    WyRand::new_seed(seed)
}

/// `Rng::generate_range` on a `WyRand`, for `u64` and the closed range from 0
/// to 200. The number returned lies in that range. It and the seed held
/// afterwards depend on nothing but the seed held before: the generator
/// computes with whole 64-bit words only.
#[verifier::external_body]
fn wyrand_index(rng: &mut WyRand) -> (index: u64)
    ensures
        index <= 200,
        index == wyrand_draw(wyrand_seed(*old(rng))).1,
        wyrand_seed(*final(rng)) == wyrand_draw(wyrand_seed(*old(rng))).0,
{
    rng.generate_range(0_u64..=200)
}

/// A source of coordinates.
pub struct Generator {
    rng: WyRand,
}

impl Generator {
    /// The seed that the generator holds.
    pub closed spec fn seed(self) -> u64 {
        wyrand_seed(self.rng)
    }

    /// A generator that holds `seed`.
    pub fn from_seed(seed: u64) -> (g: Generator)
        ensures
            g.seed() == seed,
    {
        Generator { rng: wyrand_from_seed(seed) }
    }
}

/// The seed held after one coordinate was drawn from a generator holding `seed`.
pub open spec fn seed_after_coord(seed: u64) -> u64 {
    wyrand_draw(seed).0
}

/// The coordinate drawn from a generator holding `seed`: the number drawn
/// from 0 to 200, moved down by 100.
pub open spec fn coord_of(seed: u64) -> int {
    wyrand_draw(seed).1 - 100
}

/// The seed held after one position was drawn from a generator holding
/// `seed`: a position takes three coordinates.
pub open spec fn seed_after_position(seed: u64) -> u64 {
    seed_after_coord(seed_after_coord(seed_after_coord(seed)))
}

/// The position drawn from a generator holding `seed`: `x` is drawn first,
/// then `y`, then `z`.
pub open spec fn position_of(seed: u64) -> Position {
    Position {
        x: coord_of(seed) as i32,
        y: coord_of(seed_after_coord(seed)) as i32,
        z: coord_of(seed_after_coord(seed_after_coord(seed))) as i32,
    }
}

/// The seed held after `count` positions were drawn, starting from `seed`.
pub open spec fn seed_after_positions(seed: u64, count: nat) -> u64
    decreases count,
{
    if count == 0 {
        seed
    } else {
        seed_after_position(seed_after_positions(seed, (count - 1) as nat))
    }
}

/// The first `count` positions that a generator seeded with `seed` gives.
pub open spec fn startup_of(seed: u64, count: nat) -> Seq<Position> {
    Seq::new(count, |k: int| position_of(seed_after_positions(seed, k as nat)))
}

/// `p` is the position drawn from a generator holding `seed`: each of its
/// coordinates is the number drawn, less 100.
pub open spec fn drawn_from(p: Position, seed: u64) -> bool {
    &&& p.x == coord_of(seed)
    &&& p.y == coord_of(seed_after_coord(seed))
    &&& p.z == coord_of(seed_after_coord(seed_after_coord(seed)))
}

/// Every coordinate lies in the cube from -100 to 100.
pub open spec fn in_cube(p: Position) -> bool {
    &&& -100 <= p.x <= 100
    &&& -100 <= p.y <= 100
    &&& -100 <= p.z <= 100
}

/// The coordinate that a drawn number stands for: the number less 100, so
/// that the numbers from 0 to 200 cover the hundredths from -100 to 100.
pub fn coord_from_draw(index: u64) -> (c: i32)
    requires
        index <= 200,
    ensures
        c == index - 100,
{
    index as i32 - 100
}

/// Draws one coordinate, in hundredths of a unit: between -100 and 100.
pub fn random_coord(g: &mut Generator) -> (c: i32)
    ensures
        c == coord_of(old(g).seed()),
        final(g).seed() == seed_after_coord(old(g).seed()),
        -100 <= c <= 100,
{
    let index: u64 = wyrand_index(&mut g.rng);
    coord_from_draw(index)
}

/// Draws one position: three coordinates, `x` first.
pub fn random_position(g: &mut Generator) -> (p: Position)
    ensures
        p == position_of(old(g).seed()),
        p.x == coord_of(old(g).seed()),
        p.y == coord_of(seed_after_coord(old(g).seed())),
        p.z == coord_of(seed_after_coord(seed_after_coord(old(g).seed()))),
        final(g).seed() == seed_after_position(old(g).seed()),
        in_cube(p),
{
    let x: i32 = random_coord(g);
    let y: i32 = random_coord(g);
    let z: i32 = random_coord(g);
    Position { x, y, z }
}

/// The `count` positions at which a run seeded with `seed` starts. The same
/// seed gives the same positions, whenever and wherever it is asked.
pub fn startup_positions(seed: u64, count: usize) -> (positions: Vec<Position>)
    ensures
        positions@ == startup_of(seed, count as nat),
        forall|k: int|
            0 <= k < positions.len() ==> drawn_from(
                #[trigger] positions[k],
                seed_after_positions(seed, k as nat),
            ),
        forall|k: int| 0 <= k < positions.len() ==> in_cube(#[trigger] positions[k]),
{
    let mut g: Generator = Generator::from_seed(seed);
    let mut positions: Vec<Position> = Vec::new();
    let mut k: usize = 0;
    while k < count
        invariant
            k <= count,
            g.seed() == seed_after_positions(seed, k as nat),
            positions@ == startup_of(seed, k as nat),
            positions.len() == k,
            forall|j: int|
                0 <= j < positions.len() ==> drawn_from(
                    #[trigger] positions[j],
                    seed_after_positions(seed, j as nat),
                ),
            forall|j: int| 0 <= j < positions.len() ==> in_cube(#[trigger] positions[j]),
        decreases count - k,
    {
        let p: Position = random_position(&mut g);
        positions.push(p);
        k = k + 1;
        assert(positions@ =~= startup_of(seed, k as nat));
    }
    positions
}

/// The positions that a seed gives do not depend on how many are asked for:
/// a shorter start is the beginning of a longer one.
pub proof fn lemma_startup_prefix(seed: u64, shorter: nat, longer: nat)
    requires
        shorter <= longer,
    ensures
        startup_of(seed, shorter) == startup_of(seed, longer).take(shorter as int),
{
    assert(startup_of(seed, shorter) =~= startup_of(seed, longer).take(shorter as int));
}

} // verus!
