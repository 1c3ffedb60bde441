//! Species tags, candidate destinations, and the shared settling rule.
//!
//! Every tick each particle's update rule maps its current position to a
//! candidate destination.  The rules are stochastic but bounded: the
//! random walker steps at most one cell on each axis, while the settling
//! species (water, sand) jitter laterally and never move upward.

pub mod random_walker;
pub mod sand;
pub mod water;

use crate::common::Position;
use crate::rng::random_i64;
use vstd::prelude::*;

verus! {

/// The closed set of particle species; the tag selects which update rule
/// applies and stays fixed for a particle's lifetime.
#[derive(Clone, Copy, Debug, PartialEq, Eq, Structural)]
pub enum Automata {
    RandomWalker,
    Water,
    Sand,
}

/// A particle's candidate next location for the current tick.  It is
/// produced by the update rule, consumed by the movement resolver, and
/// overwritten before it is read again; it need not be reachable or in
/// bounds.
#[derive(Clone, Copy, Debug, PartialEq, Eq, Structural)]
pub struct Destination {
    pub x: i64,
    pub y: i64,
}

impl View for Destination {
    type V = (int, int);

    open spec fn view(&self) -> (int, int) {
        (self.x as int, self.y as int)
    }
}

impl Destination {
    pub fn new(x: i64, y: i64) -> (r: Self)
        ensures
            r.x == x,
            r.y == y,
    {
        Self { x, y }
    }

    /// Manhattan distance between two destinations.
    pub fn distance(&self, rhs: &Self) -> (r: i64)
        requires
            i64::MIN < self.x - rhs.x <= i64::MAX,
            i64::MIN < self.y - rhs.y <= i64::MAX,
            crate::common::abs_val(self.x - rhs.x) + crate::common::abs_val(self.y - rhs.y)
                <= i64::MAX,
        ensures
            r == crate::common::abs_val(self.x - rhs.x) + crate::common::abs_val(self.y - rhs.y),
    {
        let dx: i64 = self.x - rhs.x;
        let dy: i64 = self.y - rhs.y;
        let ax: i64 = if dx < 0 {
            -dx
        } else {
            dx
        };
        let ay: i64 = if dy < 0 {
            -dy
        } else {
            dy
        };
        ax + ay
    }
}

impl From<Position> for Destination {
    fn from(pos: Position) -> (r: Self) {
        Self { x: pos.x, y: pos.y }
    }
}

impl vstd::std_specs::convert::FromSpecImpl<Position> for Destination {
    open spec fn obeys_from_spec() -> bool {
        true
    }

    open spec fn from_spec(pos: Position) -> Destination {
        Destination { x: pos.x, y: pos.y }
    }
}

impl From<Destination> for Position {
    fn from(dest: Destination) -> (r: Self) {
        Self { x: dest.x, y: dest.y }
    }
}

impl vstd::std_specs::convert::FromSpecImpl<Destination> for Position {
    open spec fn obeys_from_spec() -> bool {
        true
    }

    open spec fn from_spec(dest: Destination) -> Position {
        Position { x: dest.x, y: dest.y }
    }
}

/// The offset a species' update rule may pick in one tick: at most one
/// cell of lateral jitter either way, and a vertical move inside the
/// species' bias window (`[-1, 1]` for the random walker, `[0, 1]` for
/// the settling species, which therefore never move upward).
pub open spec fn step_ok(species: Automata, pos: (int, int), dest: (int, int)) -> bool {
    match species {
        Automata::RandomWalker => -1 <= dest.0 - pos.0 <= 1 && -1 <= dest.1 - pos.1 <= 1,
        Automata::Water => -1 <= dest.0 - pos.0 <= 1 && 0 <= dest.1 - pos.1 <= 1,
        Automata::Sand => -1 <= dest.0 - pos.0 <= 1 && 0 <= dest.1 - pos.1 <= 1,
    }
}

/// The shared settling rule: lateral jitter uniform in
/// `-jitter..=jitter`, vertical bias uniform in `0..=bias` (never
/// upward).  Water and sand are this rule with the same parameters; they
/// differ only in rendering.
pub fn settle(pos: &Position, rng: &mut fastrand::Rng, jitter: i64, bias: i64) -> (dest:
    Destination)
    requires
        0 <= jitter,
        0 <= bias,
        i64::MIN + jitter <= pos.x <= i64::MAX - jitter,
        pos.y <= i64::MAX - bias,
    ensures
        -jitter <= dest.x - pos.x <= jitter,
        0 <= dest.y - pos.y <= bias,
{
    let dx: i64 = random_i64(rng, -jitter, jitter);
    let dy: i64 = random_i64(rng, 0, bias);
    Destination::new(pos.x + dx, pos.y + dy)
}

} // verus!
