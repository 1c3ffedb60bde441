//! The movement resolver and the tick driver.
//!
//! Per tick the world runs two strictly separated passes over the
//! particle store: pass A lets every species' update rule overwrite the
//! particle's destination, pass B commits movements one particle at a
//! time against the occupancy oracle.  Within pass B the store order is
//! the tie-break for contended cells: the particle processed earlier
//! claims the cell, later ones fall back or stay put.

use crate::automata::step_ok;
use crate::automata::Automata;
use crate::automata::Destination;
use crate::common::line_points;
use crate::common::Position;
use crate::common::SPAN_LIMIT;
use crate::grid::cell_free;
use crate::grid::in_bounds;
use crate::ufb::Resolution;
use crate::grid::OccupancyGrid;
use vstd::prelude::*;

verus! {

/// The first cell of a probe path that the oracle reports free, scanning
/// in path order.
pub open spec fn find_free(
    path: Seq<(int, int)>,
    occ: Set<(int, int)>,
    w: int,
    h: int,
) -> Option<(int, int)>
    decreases path.len(),
{
    if path.len() == 0 {
        None
    } else if cell_free(occ, w, h, path[0]) {
        Some(path[0])
    } else {
        find_free(path.subrange(1, path.len() as int), occ, w, h)
    }
}

/// What resolving one particle does to its position and to the occupancy
/// set.  Both the particle and its destination outside the grid: culled,
/// nothing happens.  Destination free: committed and marked.  Otherwise
/// the vertical probe segment from the particle's position upward is
/// scanned for the first free cell, which is committed and marked; if
/// none is free the particle stays put and the oracle is untouched.
pub open spec fn resolve_spec(
    w: int,
    h: int,
    occ: Set<(int, int)>,
    pos: (int, int),
    dest: (int, int),
    probe: int,
) -> ((int, int), Set<(int, int)>) {
    if !in_bounds(w, h, pos.0, pos.1) && !in_bounds(w, h, dest.0, dest.1) {
        (pos, occ)
    } else if cell_free(occ, w, h, dest) {
        (dest, occ.insert(dest))
    } else {
        match find_free(line_points(pos.0, pos.1, pos.0, pos.1 - probe), occ, w, h) {
            Some(c) => (c, occ.insert(c)),
            None => (pos, occ),
        }
    }
}

/// Scanning a path whose first `i` cells are not free finds whatever
/// scanning from cell `i` on finds.
proof fn lemma_find_free_skip(path: Seq<(int, int)>, occ: Set<(int, int)>, w: int, h: int, i: int)
    requires
        0 <= i <= path.len(),
        forall|j: int| 0 <= j < i ==> !cell_free(occ, w, h, #[trigger] path[j]),
    ensures
        find_free(path, occ, w, h) == find_free(
            path.subrange(i, path.len() as int),
            occ,
            w,
            h,
        ),
    decreases i,
{
    if i > 0 {
        let tail = path.subrange(1, path.len() as int);
        assert(forall|j: int| 0 <= j < i - 1 ==> !cell_free(occ, w, h, #[trigger] tail[j]));
        lemma_find_free_skip(tail, occ, w, h, i - 1);
        assert(tail.subrange(i - 1, tail.len() as int) =~= path.subrange(i, path.len() as int));
    } else {
        assert(path.subrange(0, path.len() as int) =~= path);
    }
}

/// Resolve one particle's movement against the occupancy oracle: commit
/// to the destination if the oracle reports it free, otherwise to the
/// first free cell of the vertical probe segment of length `probe` going
/// upward from `pos`, otherwise stay.  A particle that is out of bounds
/// together with its destination is culled without touching the oracle.
pub fn resolve_movement(grid: &mut OccupancyGrid, pos: Position, dest: Destination, probe: i64) -> (r:
    Position)
    requires
        old(grid).wf(),
        0 <= probe <= SPAN_LIMIT,
        i64::MIN + probe <= pos.y,
    ensures
        final(grid).wf(),
        final(grid).spec_width() == old(grid).spec_width(),
        final(grid).spec_height() == old(grid).spec_height(),
        ({
            let out = resolve_spec(
                old(grid).spec_width(),
                old(grid).spec_height(),
                old(grid).occ(),
                pos@,
                dest@,
                probe as int,
            );
            r@ == out.0 && final(grid).occ() == out.1
        }),
        r@ == pos@ || in_bounds(old(grid).spec_width(), old(grid).spec_height(), r@.0, r@.1),
{
    let w: u16 = grid.width();
    let h: u16 = grid.height();
    let pos_in: bool = pos.x >= 0 && pos.y >= 0 && pos.x < w as i64 && pos.y < h as i64;
    let dest_in: bool = dest.x >= 0 && dest.y >= 0 && dest.x < w as i64 && dest.y < h as i64;
    if !pos_in && !dest_in {
        return pos;
    }
    if grid.is_free(dest.x, dest.y) {
        grid.occupy(dest.x, dest.y);
        return Position::new(dest.x, dest.y);
    }
    let target: Position = Position::new(pos.x, pos.y - probe);
    let path: Vec<Position> = pos.straight_line(target);
    let ghost path_s: Seq<(int, int)> = line_points(
        pos.x as int,
        pos.y as int,
        pos.x as int,
        pos.y as int - probe,
    );
    let ghost occ0: Set<(int, int)> = grid.occ();
    let mut i: usize = 0;
    while i < path.len()
        invariant
            grid.wf(),
            grid.spec_width() == old(grid).spec_width(),
            grid.spec_height() == old(grid).spec_height(),
            grid.occ() == occ0,
            occ0 == old(grid).occ(),
            w == grid.spec_width(),
            h == grid.spec_height(),
            0 <= probe <= SPAN_LIMIT,
            i64::MIN + probe <= pos.y,
            in_bounds(w as int, h as int, pos@.0, pos@.1) || in_bounds(
                w as int,
                h as int,
                dest@.0,
                dest@.1,
            ),
            !cell_free(occ0, w as int, h as int, dest@),
            path_s == line_points(pos@.0, pos@.1, pos@.0, pos@.1 - probe as int),
            path@.len() == path_s.len(),
            forall|j: int| 0 <= j < path@.len() ==> (#[trigger] path@[j])@ == path_s[j],
            0 <= i <= path@.len(),
            forall|j: int| 0 <= j < i ==> !cell_free(occ0, w as int, h as int, #[trigger] path_s[j]),
        decreases path@.len() - i,
    {
        let c: Position = path[i];
        if grid.is_free(c.x, c.y) {
            grid.occupy(c.x, c.y);
            proof {
                lemma_find_free_skip(path_s, occ0, w as int, h as int, i as int);
                assert(path_s.subrange(i as int, path_s.len() as int)[0] == path_s[i as int]);
                assert(find_free(path_s, occ0, w as int, h as int) == Some(path_s[i as int]));
            }
            return c;
        }
        i = i + 1;
    }
    proof {
        lemma_find_free_skip(path_s, occ0, w as int, h as int, path_s.len() as int);
        assert(path_s.subrange(path_s.len() as int, path_s.len() as int).len() == 0);
        assert(find_free(path_s, occ0, w as int, h as int) is None);
    }
    pos
}

/// How many cells the fallback probe of a fresh world searches upward.
pub const DEFAULT_PROBE: i64 = 100;

/// How many particles one spawn trigger inserts.
pub const SPAWN_BATCH: usize = 50;

/// Particle coordinates the world keeps within this magnitude: positions
/// drift by at most one cell per tick and commits land inside the grid,
/// so the bound holds tick over tick while staying far inside `i64`.
pub const COORD_LIMIT: i64 = 0x100_0000_0000;

/// A particle record: committed position, tick-scoped candidate
/// destination, and the species tag that picks its update rule.
#[derive(Clone, Copy, Debug, PartialEq, Eq, Structural)]
pub struct Particle {
    pub position: Position,
    pub destination: Destination,
    pub species: Automata,
}

/// A particle's coordinates stay within the world's drift bound.
pub open spec fn particle_bounded(p: Particle) -> bool {
    &&& -COORD_LIMIT <= p.position.x <= COORD_LIMIT
    &&& -COORD_LIMIT <= p.position.y <= COORD_LIMIT
    &&& -COORD_LIMIT - 1 <= p.destination.x <= COORD_LIMIT + 1
    &&& -COORD_LIMIT - 1 <= p.destination.y <= COORD_LIMIT + 1
}

/// The particles one spawn trigger inserts: a batch of `SPAWN_BATCH`
/// records of the selected species, all placed exactly at the spawn
/// point, destination initialized to the same point.
pub open spec fn spawned(species: Automata, px: i64, py: i64) -> Seq<Particle> {
    Seq::new(
        SPAWN_BATCH as nat,
        |i: int|
            Particle {
                position: Position { x: px, y: py },
                destination: Destination { x: px, y: py },
                species,
            },
    )
}

/// The keys the simulation reacts to.
#[derive(Clone, Copy, Debug, PartialEq, Eq, Structural)]
pub enum Key {
    W,
    S,
    A,
    D,
    Space,
    Other,
}

/// The mouse buttons the simulation distinguishes.
#[derive(Clone, Copy, Debug, PartialEq, Eq, Structural)]
pub enum MouseButton {
    Button1,
    Other,
}

/// An input event, already reduced to plain values by the windowing
/// shell.
#[derive(Clone, Copy, Debug, PartialEq, Eq, Structural)]
pub enum Event {
    Close,
    Key(Key),
    MouseButton(MouseButton),
    Cursor(i64, i64),
}

/// Which species is selected after a key press: W picks water, S sand,
/// space the random walker; everything else leaves the selection alone.
pub open spec fn selection_after(selection: Automata, key: Key) -> Automata {
    match key {
        Key::W => Automata::Water,
        Key::S => Automata::Sand,
        Key::Space => Automata::RandomWalker,
        Key::A => selection,
        Key::D => selection,
        Key::Other => selection,
    }
}

/// The particle pairs (position, destination) that pass B consumes.
pub open spec fn pairs_of(ps: Seq<Particle>) -> Seq<((int, int), (int, int))> {
    ps.map_values(|p: Particle| (p.position@, p.destination@))
}

/// Pass B as a whole: resolve the particles one by one, in store order,
/// each against the occupancy left by its predecessors.  Yields the
/// committed positions and the final occupancy.
pub open spec fn resolve_all(
    w: int,
    h: int,
    occ: Set<(int, int)>,
    ps: Seq<((int, int), (int, int))>,
    probe: int,
) -> (Seq<(int, int)>, Set<(int, int)>)
    decreases ps.len(),
{
    if ps.len() == 0 {
        (Seq::<(int, int)>::empty(), occ)
    } else {
        let first = resolve_spec(w, h, occ, ps[0].0, ps[0].1, probe);
        let rest = resolve_all(w, h, first.1, ps.subrange(1, ps.len() as int), probe);
        (seq![first.0] + rest.0, rest.1)
    }
}

/// Pass B yields one position per particle.
proof fn lemma_resolve_all_len(
    w: int,
    h: int,
    occ: Set<(int, int)>,
    ps: Seq<((int, int), (int, int))>,
    probe: int,
)
    ensures
        resolve_all(w, h, occ, ps, probe).0.len() == ps.len(),
    decreases ps.len(),
{
    if ps.len() > 0 {
        let first = resolve_spec(w, h, occ, ps[0].0, ps[0].1, probe);
        lemma_resolve_all_len(w, h, first.1, ps.subrange(1, ps.len() as int), probe);
    }
}

/// The simulation state: the particle store, the grid extent, the
/// fallback probe length, the species a spawn trigger uses, and the last
/// seen cursor cell.
pub struct World {
    pub particles: Vec<Particle>,
    pub resolution: Resolution,
    pub probe: i64,
    pub selection: Automata,
    pub mouse_x: i64,
    pub mouse_y: i64,
}

impl World {
    /// The world's operating bounds: a probe the rasterizer accepts and
    /// coordinates inside the drift bound.
    pub open spec fn wf(self) -> bool {
        &&& 0 <= self.probe <= SPAN_LIMIT
        &&& -COORD_LIMIT <= self.mouse_x <= COORD_LIMIT
        &&& -COORD_LIMIT <= self.mouse_y <= COORD_LIMIT
        &&& forall|i: int|
            0 <= i < self.particles@.len() ==> particle_bounded(#[trigger] self.particles@[i])
    }

    /// An empty world over the given grid extent; sand is pre-selected
    /// and the fallback probe starts at its default length.
    pub fn new(resolution: Resolution) -> (r: Self)
        ensures
            r.wf(),
            r.particles@.len() == 0,
            r.resolution == resolution,
            r.probe == DEFAULT_PROBE,
            r.selection == Automata::Sand,
            r.mouse_x == 0,
            r.mouse_y == 0,
    {
        World {
            particles: Vec::new(),
            resolution,
            probe: DEFAULT_PROBE,
            selection: Automata::Sand,
            mouse_x: 0,
            mouse_y: 0,
        }
    }

    /// Reconfigure the fallback probe length.
    pub fn set_probe(&mut self, probe: i64)
        requires
            old(self).wf(),
            0 <= probe <= SPAN_LIMIT,
        ensures
            final(self).wf(),
            final(self).probe == probe,
            final(self).particles@ == old(self).particles@,
            final(self).resolution == old(self).resolution,
            final(self).selection == old(self).selection,
            final(self).mouse_x == old(self).mouse_x,
            final(self).mouse_y == old(self).mouse_y,
    {
        self.probe = probe;
    }

    /// Spawn one batch of the selected species at `pos`.
    pub fn add_walkers(&mut self, pos: Position)
        requires
            old(self).wf(),
            -COORD_LIMIT <= pos.x <= COORD_LIMIT,
            -COORD_LIMIT <= pos.y <= COORD_LIMIT,
        ensures
            final(self).wf(),
            final(self).particles@ == old(self).particles@ + spawned(
                old(self).selection,
                pos.x,
                pos.y,
            ),
            final(self).resolution == old(self).resolution,
            final(self).probe == old(self).probe,
            final(self).selection == old(self).selection,
            final(self).mouse_x == old(self).mouse_x,
            final(self).mouse_y == old(self).mouse_y,
    {
        let ghost batch: Seq<Particle> = spawned(old(self).selection, pos.x, pos.y);
        let mut i: usize = 0;
        while i < SPAWN_BATCH
            invariant
                old(self).wf(),
                -COORD_LIMIT <= pos.x <= COORD_LIMIT,
                -COORD_LIMIT <= pos.y <= COORD_LIMIT,
                0 <= i <= SPAWN_BATCH,
                batch == spawned(old(self).selection, pos.x, pos.y),
                self.particles@ == old(self).particles@ + batch.take(i as int),
                self.resolution == old(self).resolution,
                self.probe == old(self).probe,
                self.selection == old(self).selection,
                self.mouse_x == old(self).mouse_x,
                self.mouse_y == old(self).mouse_y,
            decreases SPAWN_BATCH - i,
        {
            let species: Automata = self.selection;
            self.particles.push(
                Particle { position: pos, destination: Destination { x: pos.x, y: pos.y }, species },
            );
            proof {
                assert(old(self).particles@ + batch.take(i as int) + seq![batch[i as int]]
                    =~= old(self).particles@ + batch.take(i as int + 1));
            }
            i = i + 1;
        }
        proof {
            assert(batch.take(SPAWN_BATCH as int) =~= batch);
            assert forall|j: int|
                0 <= j < self.particles@.len() implies particle_bounded(
                #[trigger] self.particles@[j],
            ) by {
                if j < old(self).particles@.len() {
                    assert(particle_bounded(old(self).particles@[j]));
                }
            }
        }
    }

    /// Apply one key press to the species selection.
    pub fn handle_key(&mut self, key: Key)
        requires
            old(self).wf(),
        ensures
            final(self).wf(),
            final(self).selection == selection_after(old(self).selection, key),
            final(self).particles@ == old(self).particles@,
            final(self).resolution == old(self).resolution,
            final(self).probe == old(self).probe,
            final(self).mouse_x == old(self).mouse_x,
            final(self).mouse_y == old(self).mouse_y,
    {
        match key {
            Key::W => {
                self.selection = Automata::Water;
            },
            Key::S => {
                self.selection = Automata::Sand;
            },
            Key::Space => {
                self.selection = Automata::RandomWalker;
            },
            Key::A => (),
            Key::D => (),
            Key::Other => (),
        }
    }

    /// Apply one input event: close requests quit, keys change the
    /// selection, the first mouse button spawns a batch at the cursor,
    /// and cursor motion updates the tracked cell.
    pub fn handle_event(&mut self, event: Event) -> (quit: bool)
        requires
            old(self).wf(),
            event matches Event::Cursor(x, y) ==> -COORD_LIMIT <= x <= COORD_LIMIT && -COORD_LIMIT
                <= y <= COORD_LIMIT,
        ensures
            final(self).wf(),
            quit == (event is Close),
            final(self).resolution == old(self).resolution,
            final(self).probe == old(self).probe,
            event is Close ==> final(self).particles@ == old(self).particles@ && final(self).selection == old(self).selection && final(self).mouse_x == old(self).mouse_x && final(self).mouse_y == old(self).mouse_y,
            event matches Event::Key(k) ==> final(self).selection == selection_after(
                old(self).selection,
                k,
            ) && final(self).particles@ == old(self).particles@ && final(self).mouse_x == old(self).mouse_x && final(self).mouse_y == old(self).mouse_y,
            event matches Event::Cursor(x, y) ==> final(self).mouse_x == x && final(self).mouse_y
                == y && final(self).particles@ == old(self).particles@ && final(self).selection
                == old(self).selection,
            event matches Event::MouseButton(b) ==> final(self).selection == old(self).selection
                && final(self).mouse_x == old(self).mouse_x && final(self).mouse_y == old(self).mouse_y && (b is Button1 ==> final(self).particles@ == old(self).particles@
                + spawned(old(self).selection, old(self).mouse_x, old(self).mouse_y)) && (b
                is Other ==> final(self).particles@ == old(self).particles@),
    {
        match event {
            Event::Close => true,
            Event::Key(key) => {
                self.handle_key(key);
                false
            },
            Event::MouseButton(btn) => {
                match btn {
                    MouseButton::Button1 => {
                        let mx: i64 = self.mouse_x;
                        let my: i64 = self.mouse_y;
                        self.add_walkers(Position::new(mx, my));
                    },
                    MouseButton::Other => (),
                }
                false
            },
            Event::Cursor(x, y) => {
                self.mouse_x = x;
                self.mouse_y = y;
                false
            },
        }
    }

    /// Pass A of a tick: every particle's update rule overwrites its
    /// destination from its current position; positions and species are
    /// untouched, and each new destination respects the species' step
    /// bound.
    pub fn update_automata_destination_system(&mut self, rng: &mut fastrand::Rng)
        requires
            old(self).wf(),
        ensures
            final(self).wf(),
            final(self).resolution == old(self).resolution,
            final(self).probe == old(self).probe,
            final(self).selection == old(self).selection,
            final(self).mouse_x == old(self).mouse_x,
            final(self).mouse_y == old(self).mouse_y,
            final(self).particles@.len() == old(self).particles@.len(),
            forall|i: int|
                0 <= i < old(self).particles@.len() ==> (#[trigger] final(self).particles@[i]).position
                    == old(self).particles@[i].position && final(self).particles@[i].species == old(self).particles@[i].species && step_ok(
                    old(self).particles@[i].species,
                    old(self).particles@[i].position@,
                    final(self).particles@[i].destination@,
                ),
    {
        let mut i: usize = 0;
        while i < self.particles.len()
            invariant
                old(self).wf(),
                0 <= i <= self.particles@.len(),
                self.particles@.len() == old(self).particles@.len(),
                self.resolution == old(self).resolution,
                self.probe == old(self).probe,
                self.selection == old(self).selection,
                self.mouse_x == old(self).mouse_x,
                self.mouse_y == old(self).mouse_y,
                forall|j: int|
                    i <= j < self.particles@.len() ==> #[trigger] self.particles@[j] == old(self).particles@[j],
                forall|j: int|
                    0 <= j < i ==> (#[trigger] self.particles@[j]).position == old(self).particles@[j].position && self.particles@[j].species == old(self).particles@[j].species && step_ok(
                        old(self).particles@[j].species,
                        old(self).particles@[j].position@,
                        self.particles@[j].destination@,
                    ) && particle_bounded(self.particles@[j]),
            decreases self.particles@.len() - i,
        {
            let p: Particle = self.particles[i];
            let dest: Destination = match p.species {
                Automata::RandomWalker => crate::automata::random_walker::update(&p.position, rng),
                Automata::Water => crate::automata::water::update(&p.position, rng),
                Automata::Sand => crate::automata::sand::update(&p.position, rng),
            };
            self.particles.set(
                i,
                Particle { position: p.position, destination: dest, species: p.species },
            );
            i = i + 1;
        }
    }

    /// Pass B of a tick: commit every particle's movement, in store
    /// order, against the occupancy oracle.  The store order is the
    /// tie-break for contended cells: each particle resolves against the
    /// occupancy its predecessors left behind.
    pub fn resolve_movement_system(&mut self, grid: &mut OccupancyGrid)
        requires
            old(self).wf(),
            old(grid).wf(),
            old(grid).spec_width() == old(self).resolution.width,
            old(grid).spec_height() == old(self).resolution.height,
        ensures
            final(self).wf(),
            final(grid).wf(),
            final(grid).spec_width() == old(grid).spec_width(),
            final(grid).spec_height() == old(grid).spec_height(),
            final(self).resolution == old(self).resolution,
            final(self).probe == old(self).probe,
            final(self).selection == old(self).selection,
            final(self).mouse_x == old(self).mouse_x,
            final(self).mouse_y == old(self).mouse_y,
            final(self).particles@.len() == old(self).particles@.len(),
            forall|i: int|
                0 <= i < old(self).particles@.len() ==> (#[trigger] final(self).particles@[i]).destination
                    == old(self).particles@[i].destination && final(self).particles@[i].species
                    == old(self).particles@[i].species,
            ({
                let out = resolve_all(
                    old(grid).spec_width(),
                    old(grid).spec_height(),
                    old(grid).occ(),
                    pairs_of(old(self).particles@),
                    old(self).probe as int,
                );
                (forall|i: int|
                    0 <= i < old(self).particles@.len() ==> (#[trigger] final(self).particles@[i]).position@ == out.0[i]) && final(grid).occ() == out.1
            }),
    {
        let ghost w: int = old(grid).spec_width();
        let ghost h: int = old(grid).spec_height();
        let ghost pairs0: Seq<((int, int), (int, int))> = pairs_of(old(self).particles@);
        let ghost out: (Seq<(int, int)>, Set<(int, int)>) = resolve_all(
            w,
            h,
            old(grid).occ(),
            pairs0,
            old(self).probe as int,
        );
        proof {
            lemma_resolve_all_len(w, h, old(grid).occ(), pairs0, old(self).probe as int);
            assert(pairs0.subrange(0, pairs0.len() as int) =~= pairs0);
            assert(out.0.subrange(0, out.0.len() as int) =~= out.0);
        }
        let mut i: usize = 0;
        while i < self.particles.len()
            invariant
                old(self).wf(),
                0 <= i <= self.particles@.len(),
                self.particles@.len() == old(self).particles@.len(),
                self.resolution == old(self).resolution,
                self.probe == old(self).probe,
                self.selection == old(self).selection,
                self.mouse_x == old(self).mouse_x,
                self.mouse_y == old(self).mouse_y,
                grid.wf(),
                grid.spec_width() == w,
                grid.spec_height() == h,
                w == old(grid).spec_width(),
                h == old(grid).spec_height(),
                w == old(self).resolution.width,
                h == old(self).resolution.height,
                pairs0 == pairs_of(old(self).particles@),
                out == resolve_all(w, h, old(grid).occ(), pairs0, old(self).probe as int),
                out.0.len() == pairs0.len(),
                pairs0.len() == old(self).particles@.len(),
                forall|j: int|
                    i <= j < self.particles@.len() ==> #[trigger] self.particles@[j] == old(self).particles@[j],
                forall|j: int|
                    0 <= j < i ==> (#[trigger] self.particles@[j]).destination == old(self).particles@[j].destination && self.particles@[j].species == old(self).particles@[j].species && self.particles@[j].position@ == out.0[j]
                        && particle_bounded(self.particles@[j]),
                resolve_all(
                    w,
                    h,
                    grid.occ(),
                    pairs0.subrange(i as int, pairs0.len() as int),
                    old(self).probe as int,
                ) == (out.0.subrange(i as int, out.0.len() as int), out.1),
            decreases self.particles@.len() - i,
        {
            let p: Particle = self.particles[i];
            let probe: i64 = self.probe;
            let ghost occ_before: Set<(int, int)> = grid.occ();
            let r: Position = resolve_movement(grid, p.position, p.destination, probe);
            proof {
                let rem = pairs0.subrange(i as int, pairs0.len() as int);
                assert(rem[0] == pairs0[i as int]);
                assert(pairs0[i as int] == (p.position@, p.destination@));
                let first = resolve_spec(w, h, occ_before, rem[0].0, rem[0].1, probe as int);
                assert(r@ == first.0 && grid.occ() == first.1);
                assert(rem.subrange(1, rem.len() as int) =~= pairs0.subrange(
                    i as int + 1,
                    pairs0.len() as int,
                ));
                let rest = resolve_all(
                    w,
                    h,
                    first.1,
                    pairs0.subrange(i as int + 1, pairs0.len() as int),
                    old(self).probe as int,
                );
                let out_sub = out.0.subrange(i as int, out.0.len() as int);
                assert(out_sub == seq![first.0] + rest.0);
                assert(out_sub[0] == out.0[i as int]);
                assert(out.0[i as int] == first.0);
                assert((seq![first.0] + rest.0).subrange(1, out_sub.len() as int) =~= rest.0);
                assert(out.0.subrange(i as int + 1, out.0.len() as int) =~= rest.0);
            }
            self.particles.set(
                i,
                Particle { position: r, destination: p.destination, species: p.species },
            );
            i = i + 1;
        }
    }

    /// One full tick: pass A (compute destinations) runs to completion
    /// before pass B (resolve and commit) starts, so no movement decision
    /// ever observes a not-yet-committed destination of the same tick.
    pub fn run_update_systems(&mut self, rng: &mut fastrand::Rng, grid: &mut OccupancyGrid)
        requires
            old(self).wf(),
            old(grid).wf(),
            old(grid).spec_width() == old(self).resolution.width,
            old(grid).spec_height() == old(self).resolution.height,
        ensures
            final(self).wf(),
            final(grid).wf(),
            final(grid).spec_width() == old(grid).spec_width(),
            final(grid).spec_height() == old(grid).spec_height(),
            final(self).resolution == old(self).resolution,
            final(self).probe == old(self).probe,
            final(self).selection == old(self).selection,
            final(self).mouse_x == old(self).mouse_x,
            final(self).mouse_y == old(self).mouse_y,
            final(self).particles@.len() == old(self).particles@.len(),
            forall|i: int|
                0 <= i < old(self).particles@.len() ==> (#[trigger] final(self).particles@[i]).species
                    == old(self).particles@[i].species && step_ok(
                    old(self).particles@[i].species,
                    old(self).particles@[i].position@,
                    final(self).particles@[i].destination@,
                ),
            ({
                let pairs = Seq::new(
                    old(self).particles@.len(),
                    |i: int|
                        (old(self).particles@[i].position@, final(self).particles@[i].destination@),
                );
                let out = resolve_all(
                    old(grid).spec_width(),
                    old(grid).spec_height(),
                    old(grid).occ(),
                    pairs,
                    old(self).probe as int,
                );
                (forall|i: int|
                    0 <= i < old(self).particles@.len() ==> (#[trigger] final(self).particles@[i]).position@ == out.0[i]) && final(grid).occ() == out.1
            }),
    {
        self.update_automata_destination_system(rng);
        let ghost mid: World = *self;
        self.resolve_movement_system(grid);
        proof {
            assert(pairs_of(mid.particles@) =~= Seq::new(
                old(self).particles@.len(),
                |i: int| (old(self).particles@[i].position@, final(self).particles@[i].destination@),
            ));
        }
    }
}

/// A successful scan returns a cell the oracle reported free.
proof fn lemma_find_free_is_free(path: Seq<(int, int)>, occ: Set<(int, int)>, w: int, h: int)
    ensures
        find_free(path, occ, w, h) matches Some(c) ==> cell_free(occ, w, h, c),
    decreases path.len(),
{
    if path.len() > 0 && !cell_free(occ, w, h, path[0]) {
        lemma_find_free_is_free(path.subrange(1, path.len() as int), occ, w, h);
    }
}

/// A scan over a path with no free cell finds nothing.
proof fn lemma_find_free_none(path: Seq<(int, int)>, occ: Set<(int, int)>, w: int, h: int)
    requires
        forall|i: int| 0 <= i < path.len() ==> !cell_free(occ, w, h, #[trigger] path[i]),
    ensures
        find_free(path, occ, w, h) is None,
    decreases path.len(),
{
    if path.len() > 0 {
        lemma_find_free_none(path.subrange(1, path.len() as int), occ, w, h);
    }
}

/// Law: against an empty oracle every in-bounds destination is committed
/// directly — the particle's position becomes the destination and exactly
/// that cell is marked occupied.
pub proof fn lemma_empty_oracle_commits_directly(
    w: int,
    h: int,
    pos: (int, int),
    dest: (int, int),
    probe: int,
)
    requires
        in_bounds(w, h, dest.0, dest.1),
    ensures
        resolve_spec(w, h, Set::<(int, int)>::empty(), pos, dest, probe).0 == dest,
        resolve_spec(w, h, Set::<(int, int)>::empty(), pos, dest, probe).1 == Set::<(int,
            int,
        )>::empty().insert(dest),
{
}

/// Law: with the destination occupied and every cell of the fallback
/// window occupied as well, resolution leaves the position unchanged and
/// does not mutate the oracle.
pub proof fn lemma_blocked_window_stays_put(
    w: int,
    h: int,
    occ: Set<(int, int)>,
    pos: (int, int),
    dest: (int, int),
    probe: int,
)
    requires
        !cell_free(occ, w, h, dest),
        forall|i: int|
            0 <= i < line_points(pos.0, pos.1, pos.0, pos.1 - probe).len() ==> !cell_free(
                occ,
                w,
                h,
                #[trigger] line_points(pos.0, pos.1, pos.0, pos.1 - probe)[i],
            ),
    ensures
        resolve_spec(w, h, occ, pos, dest, probe) == ((pos, occ)),
{
    lemma_find_free_none(line_points(pos.0, pos.1, pos.0, pos.1 - probe), occ, w, h);
}

/// Law: a particle whose position and destination both lie outside the
/// grid is culled — position unchanged, zero oracle interaction.
pub proof fn lemma_cull_out_of_bounds(
    w: int,
    h: int,
    occ: Set<(int, int)>,
    pos: (int, int),
    dest: (int, int),
    probe: int,
)
    requires
        !in_bounds(w, h, pos.0, pos.1),
        !in_bounds(w, h, dest.0, dest.1),
    ensures
        resolve_spec(w, h, occ, pos, dest, probe) == ((pos, occ)),
{
}

/// A resolution that touches the oracle commits to a cell that was free
/// beforehand and marks exactly that cell; one that does not touch the
/// oracle leaves the position unchanged.
pub proof fn lemma_commit_marks_free_cell(
    w: int,
    h: int,
    occ: Set<(int, int)>,
    pos: (int, int),
    dest: (int, int),
    probe: int,
)
    ensures
        ({
            let out = resolve_spec(w, h, occ, pos, dest, probe);
            &&& out.1 != occ ==> !occ.contains(out.0) && in_bounds(w, h, out.0.0, out.0.1)
                && out.1 == occ.insert(out.0)
            &&& out.1 == occ ==> out.0 == pos
        }),
{
    let out = resolve_spec(w, h, occ, pos, dest, probe);
    if !in_bounds(w, h, pos.0, pos.1) && !in_bounds(w, h, dest.0, dest.1) {
    } else if cell_free(occ, w, h, dest) {
        assert(occ.insert(dest).contains(dest));
        assert(out.1 != occ);
    } else {
        let path = line_points(pos.0, pos.1, pos.0, pos.1 - probe);
        lemma_find_free_is_free(path, occ, w, h);
        match find_free(path, occ, w, h) {
            Some(c) => {
                assert(occ.insert(c).contains(c));
                assert(out.1 != occ);
            },
            None => (),
        }
    }
}


/// Law: across one whole pass B the occupancy only grows, and every
/// commit lands on a cell that was free when its particle was resolved
/// — so no two particles of one tick ever commit to the same cell.
pub proof fn lemma_resolve_all_occupancy_grows(
    w: int,
    h: int,
    occ: Set<(int, int)>,
    ps: Seq<((int, int), (int, int))>,
    probe: int,
)
    ensures
        occ.subset_of(resolve_all(w, h, occ, ps, probe).1),
    decreases ps.len(),
{
    if ps.len() > 0 {
        let first = resolve_spec(w, h, occ, ps[0].0, ps[0].1, probe);
        lemma_commit_marks_free_cell(w, h, occ, ps[0].0, ps[0].1, probe);
        lemma_resolve_all_occupancy_grows(w, h, first.1, ps.subrange(1, ps.len() as int), probe);
    }
}

/// Law (tick ordering): when two particles contend for the same free,
/// in-bounds destination within one pass B, the one resolved earlier
/// commits to it, and the later one either commits to a different cell
/// or stays put without touching the oracle — the two never occupy the
/// same cell.
pub proof fn lemma_contended_cell_single_winner(
    w: int,
    h: int,
    occ: Set<(int, int)>,
    pos1: (int, int),
    pos2: (int, int),
    dest: (int, int),
    probe: int,
)
    requires
        cell_free(occ, w, h, dest),
    ensures
        ({
            let first = resolve_spec(w, h, occ, pos1, dest, probe);
            let second = resolve_spec(w, h, first.1, pos2, dest, probe);
            &&& first.0 == dest
            &&& first.1 == occ.insert(dest)
            &&& second.1 != first.1 ==> second.0 != dest && second.1 == first.1.insert(second.0)
            &&& second.1 == first.1 ==> second.0 == pos2
        }),
{
    let first = resolve_spec(w, h, occ, pos1, dest, probe);
    assert(first.0 == dest && first.1 == occ.insert(dest));
    lemma_commit_marks_free_cell(w, h, first.1, pos2, dest, probe);
    assert(first.1.contains(dest));
}


} // verus!
