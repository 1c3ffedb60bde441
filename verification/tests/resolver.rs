use conductor::automata::Destination;
use conductor::common::Position;
use conductor::grid::OccupancyGrid;
use conductor::world::resolve_movement;

const K: i64 = 100;

#[test]
fn empty_oracle_commits_destination_directly() {
    let mut grid = OccupancyGrid::new(640, 640);
    let pos = Position::new(10, 10);
    let dest = Destination::new(11, 9);
    let new_pos = resolve_movement(&mut grid, pos, dest, K);
    assert_eq!(new_pos, Position::new(11, 9));
    assert!(!grid.is_free(11, 9), "committed cell must be marked occupied");
    assert!(grid.is_free(10, 10), "no other cell is touched");
}

#[test]
fn occupied_destination_falls_back_to_first_free_above() {
    let mut grid = OccupancyGrid::new(640, 640);
    let pos = Position::new(20, 30);
    let dest = Destination::new(20, 31);
    // Destination pre-occupied, the particle's own cell and the two
    // cells above it occupied, the third cell above free.
    grid.occupy(20, 31);
    grid.occupy(20, 30);
    grid.occupy(20, 29);
    grid.occupy(20, 28);
    let new_pos = resolve_movement(&mut grid, pos, dest, K);
    assert_eq!(new_pos, Position::new(20, 27));
    assert!(!grid.is_free(20, 27));
}

#[test]
fn fully_blocked_window_leaves_position_and_oracle_unchanged() {
    let mut grid = OccupancyGrid::new(640, 640);
    let probe: i64 = 5;
    let pos = Position::new(100, 50);
    let dest = Destination::new(101, 51);
    grid.occupy(101, 51);
    for dy in 0..=probe {
        grid.occupy(100, 50 - dy);
    }
    let new_pos = resolve_movement(&mut grid, pos, dest, probe);
    assert_eq!(new_pos, pos, "a fully blocked particle stays put");
    // The oracle was not mutated: cells adjacent to the probe window are
    // still free, and the cell just above the window was never taken.
    assert!(grid.is_free(100, 44));
    assert!(grid.is_free(99, 50));
    assert!(grid.is_free(101, 50));
}

#[test]
fn out_of_bounds_particle_is_culled() {
    let mut grid = OccupancyGrid::new(640, 640);
    let pos = Position::new(1000, 1000);
    let dest = Destination::new(1001, 999);
    let new_pos = resolve_movement(&mut grid, pos, dest, K);
    assert_eq!(new_pos, pos, "culled particle keeps its position");
    // The oracle is untouched: every in-range cell is still free.
    assert!(grid.is_free(0, 0));
    assert!(grid.is_free(639, 639));
    assert!(grid.is_free(320, 320));
}

#[test]
fn out_of_bounds_destination_with_in_bounds_position_falls_back() {
    let mut grid = OccupancyGrid::new(640, 640);
    let pos = Position::new(2, 2);
    let dest = Destination::new(-5, -5);
    // The destination is never free (outside the grid), so the fallback
    // probe runs and its first cell is the particle's own, free, cell.
    let new_pos = resolve_movement(&mut grid, pos, dest, K);
    assert_eq!(new_pos, pos);
    assert!(!grid.is_free(2, 2), "the particle settles on its own cell");
}

#[test]
fn oracle_reports_out_of_range_cells_occupied() {
    let grid = OccupancyGrid::new(8, 8);
    assert!(!grid.is_free(-1, 0));
    assert!(!grid.is_free(0, -1));
    assert!(!grid.is_free(8, 0));
    assert!(!grid.is_free(0, 8));
    assert!(grid.is_free(7, 7));
}

#[test]
fn contended_cell_has_a_single_winner() {
    // Two particles, same position, same free destination, resolved in
    // store order as pass B does: the first claims the cell, the second
    // falls back to its own cell.
    let mut grid = OccupancyGrid::new(640, 640);
    let pos = Position::new(5, 5);
    let dest = Destination::new(5, 6);
    let first = resolve_movement(&mut grid, pos, dest, K);
    let second = resolve_movement(&mut grid, pos, dest, K);
    assert_eq!(first, Position::new(5, 6));
    assert_ne!(second, Position::new(5, 6), "the loser never shares the cell");
    assert_eq!(second, Position::new(5, 5));
    assert!(!grid.is_free(5, 6));
    assert!(!grid.is_free(5, 5));
}

#[test]
fn zero_probe_blocked_destination_stays_put() {
    let mut grid = OccupancyGrid::new(16, 16);
    let pos = Position::new(4, 4);
    let dest = Destination::new(4, 5);
    grid.occupy(4, 5);
    // An empty probe window: the rasterized segment from the particle to
    // itself is empty, so there is nowhere to fall back to.
    let new_pos = resolve_movement(&mut grid, pos, dest, 0);
    assert_eq!(new_pos, pos);
    assert!(grid.is_free(4, 4), "nothing was marked");
}
