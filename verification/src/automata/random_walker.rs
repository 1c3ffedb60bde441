//! The random walker: a symmetric, unbiased drift.

use crate::automata::Destination;
use crate::common::Position;
use crate::rng::random_i64;
use vstd::prelude::*;

verus! {

/// How far a walker may step on each axis in one tick.
pub const SPEED: i64 = 1;

/// One walker step: each axis moves independently and uniformly by
/// `-SPEED`, `0` or `SPEED`, so the rule is symmetric in both axes.
pub fn update(pos: &Position, rng: &mut fastrand::Rng) -> (dest: Destination)
    requires
        i64::MIN + SPEED <= pos.x <= i64::MAX - SPEED,
        i64::MIN + SPEED <= pos.y <= i64::MAX - SPEED,
    ensures
        -SPEED <= dest.x - pos.x <= SPEED,
        -SPEED <= dest.y - pos.y <= SPEED,
{
    let dx: i64 = random_i64(rng, -SPEED, SPEED);
    let dy: i64 = random_i64(rng, -SPEED, SPEED);
    Destination::new(pos.x + dx, pos.y + dy)
}

} // verus!
