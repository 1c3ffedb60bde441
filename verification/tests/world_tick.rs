use conductor::automata::Automata;
use conductor::common::Position;
use conductor::grid::OccupancyGrid;
use conductor::ufb::Resolution;
use conductor::world::{Event, Key, MouseButton, World, SPAWN_BATCH};

fn grid_640() -> OccupancyGrid {
    OccupancyGrid::new(640, 640)
}

#[test]
fn new_world_is_empty_with_sand_selected() {
    let world = World::new(Resolution::new(640, 640));
    assert_eq!(world.particles.len(), 0);
    assert_eq!(world.selection, Automata::Sand);
    assert_eq!(world.resolution, Resolution::new(640, 640));
}

#[test]
fn spawn_inserts_a_batch_at_the_origin_point() {
    let mut world = World::new(Resolution::new(640, 640));
    world.add_walkers(Position::new(320, 200));
    assert_eq!(world.particles.len(), SPAWN_BATCH);
    for p in world.particles.iter() {
        assert_eq!(p.position, Position::new(320, 200));
        assert_eq!(p.destination.x, 320);
        assert_eq!(p.destination.y, 200);
        assert_eq!(p.species, Automata::Sand);
    }
}

#[test]
fn keys_select_species() {
    let mut world = World::new(Resolution::new(640, 640));
    assert!(!world.handle_event(Event::Key(Key::W)));
    assert_eq!(world.selection, Automata::Water);
    assert!(!world.handle_event(Event::Key(Key::Space)));
    assert_eq!(world.selection, Automata::RandomWalker);
    assert!(!world.handle_event(Event::Key(Key::S)));
    assert_eq!(world.selection, Automata::Sand);
    assert!(!world.handle_event(Event::Key(Key::A)));
    assert_eq!(world.selection, Automata::Sand);
    assert!(world.handle_event(Event::Close));
}

#[test]
fn click_spawns_at_tracked_cursor() {
    let mut world = World::new(Resolution::new(640, 640));
    assert!(!world.handle_event(Event::Key(Key::W)));
    assert!(!world.handle_event(Event::Cursor(123, 45)));
    assert!(!world.handle_event(Event::MouseButton(MouseButton::Button1)));
    assert_eq!(world.particles.len(), SPAWN_BATCH);
    for p in world.particles.iter() {
        assert_eq!(p.position, Position::new(123, 45));
        assert_eq!(p.species, Automata::Water);
    }
    assert!(!world.handle_event(Event::MouseButton(MouseButton::Other)));
    assert_eq!(world.particles.len(), SPAWN_BATCH);
}

#[test]
fn pass_a_only_touches_destinations() {
    let mut world = World::new(Resolution::new(640, 640));
    world.add_walkers(Position::new(100, 100));
    let mut rng = fastrand::Rng::with_seed(3);
    world.update_automata_destination_system(&mut rng);
    for p in world.particles.iter() {
        assert_eq!(p.position, Position::new(100, 100));
        assert_eq!(p.species, Automata::Sand);
        assert!((-1..=1).contains(&(p.destination.x - 100)));
        assert!((0..=1).contains(&(p.destination.y - 100)));
    }
}

#[test]
fn tick_never_stacks_two_commits_on_one_cell() {
    let spawn = Position::new(320, 320);
    let mut world = World::new(Resolution::new(640, 640));
    world.add_walkers(spawn);
    let mut rng = fastrand::Rng::with_seed(77);
    let mut grid = grid_640();
    world.run_update_systems(&mut rng, &mut grid);
    assert_eq!(world.particles.len(), SPAWN_BATCH);
    // Committed cells are unique: any particle not on the spawn cell
    // claimed a cell of its own; only non-movers may share the spawn
    // cell.
    let mut seen = std::collections::HashSet::new();
    for p in world.particles.iter() {
        let at = (p.position.x, p.position.y);
        if at != (spawn.x, spawn.y) {
            assert!(seen.insert(at), "two particles occupy {:?}", at);
        }
        // One tick moves a particle at most one cell sideways and at
        // most one cell down, or up along the fallback probe.
        assert!((p.position.x - spawn.x).abs() <= 1);
        assert!(p.position.y <= spawn.y + 1);
        assert!(p.position.y >= spawn.y - world.probe);
    }
}

#[test]
fn successive_ticks_settle_sand_downward_only() {
    let mut world = World::new(Resolution::new(64, 64));
    world.add_walkers(Position::new(32, 4));
    let mut rng = fastrand::Rng::with_seed(5);
    for _ in 0..10 {
        let mut grid = OccupancyGrid::new(64, 64);
        world.run_update_systems(&mut rng, &mut grid);
    }
    for p in world.particles.iter() {
        assert_eq!(p.species, Automata::Sand);
        assert!((0..64).contains(&p.position.x));
        assert!((0..64).contains(&p.position.y));
    }
}

#[test]
fn set_probe_reconfigures_fallback_depth() {
    let mut world = World::new(Resolution::new(640, 640));
    world.set_probe(30);
    assert_eq!(world.probe, 30);
}
