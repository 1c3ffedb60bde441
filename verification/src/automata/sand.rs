//! Sand: a settling species with lateral jitter and a downward bias.
//!
//! Its dynamics are those of water — the two species share one settling
//! rule and differ only in how they are rendered.

use crate::automata::settle;
use crate::automata::Destination;
use crate::common::Position;
use vstd::prelude::*;

verus! {

/// One sand step: lateral jitter in `{-1, 0, 1}`, vertical move in
/// `{0, 1}` — sand never moves upward.
pub fn update(pos: &Position, rng: &mut fastrand::Rng) -> (dest: Destination)
    requires
        i64::MIN + 1 <= pos.x <= i64::MAX - 1,
        pos.y <= i64::MAX - 1,
    ensures
        -1 <= dest.x - pos.x <= 1,
        0 <= dest.y - pos.y <= 1,
{
    settle(pos, rng, 1, 1)
}

} // verus!
