use conductor::automata::{random_walker, sand, settle, water, Automata, Destination};
use conductor::common::Position;

#[test]
fn walker_offsets_stay_in_unit_box() {
    let mut rng = fastrand::Rng::with_seed(0x5eed);
    let pos = Position::new(100, 100);
    for _ in 0..1000 {
        let dest = random_walker::update(&pos, &mut rng);
        let dx = dest.x - pos.x;
        let dy = dest.y - pos.y;
        assert!((-1..=1).contains(&dx), "dx out of range: {}", dx);
        assert!((-1..=1).contains(&dy), "dy out of range: {}", dy);
    }
}

#[test]
fn walker_has_no_one_sided_drift() {
    // Every offset direction shows up: the rule is symmetric, not a
    // constant or a one-sided step.
    let mut rng = fastrand::Rng::with_seed(42);
    let pos = Position::new(0, 0);
    let mut seen_dx = [false; 3];
    let mut seen_dy = [false; 3];
    let mut sum_dx: i64 = 0;
    let mut sum_dy: i64 = 0;
    let trials: i64 = 3000;
    for _ in 0..trials {
        let dest = random_walker::update(&pos, &mut rng);
        seen_dx[(dest.x + 1) as usize] = true;
        seen_dy[(dest.y + 1) as usize] = true;
        sum_dx += dest.x;
        sum_dy += dest.y;
    }
    assert!(seen_dx.iter().all(|&b| b));
    assert!(seen_dy.iter().all(|&b| b));
    // The mean offset stays near zero over many trials.
    assert!(sum_dx.abs() < trials / 10, "x drift: {}", sum_dx);
    assert!(sum_dy.abs() < trials / 10, "y drift: {}", sum_dy);
}

#[test]
fn water_never_moves_upward() {
    let mut rng = fastrand::Rng::with_seed(7);
    let pos = Position::new(50, 50);
    for _ in 0..1000 {
        let dest = water::update(&pos, &mut rng);
        assert!(dest.y - pos.y >= 0, "water moved up");
        assert!((0..=1).contains(&(dest.y - pos.y)));
        assert!((-1..=1).contains(&(dest.x - pos.x)));
    }
}

#[test]
fn sand_never_moves_upward() {
    let mut rng = fastrand::Rng::with_seed(8);
    let pos = Position::new(-3, 9);
    for _ in 0..1000 {
        let dest = sand::update(&pos, &mut rng);
        assert!(dest.y - pos.y >= 0, "sand moved up");
        assert!((0..=1).contains(&(dest.y - pos.y)));
        assert!((-1..=1).contains(&(dest.x - pos.x)));
    }
}

#[test]
fn settle_respects_custom_windows() {
    let mut rng = fastrand::Rng::with_seed(9);
    let pos = Position::new(0, 0);
    for _ in 0..500 {
        let dest = settle(&pos, &mut rng, 2, 3);
        assert!((-2..=2).contains(&dest.x));
        assert!((0..=3).contains(&dest.y));
    }
}

#[test]
fn update_rules_actually_vary() {
    // The random draws feed through: over many trials more than one
    // offset value appears on each axis.
    let mut rng = fastrand::Rng::with_seed(11);
    let pos = Position::new(0, 0);
    let mut xs = std::collections::HashSet::new();
    let mut ys = std::collections::HashSet::new();
    for _ in 0..200 {
        let dest = water::update(&pos, &mut rng);
        xs.insert(dest.x);
        ys.insert(dest.y);
    }
    assert!(xs.len() > 1, "lateral jitter never varied");
    assert!(ys.len() > 1, "vertical bias never varied");
}

#[test]
fn destination_distance_is_manhattan() {
    let a = Destination::new(3, 4);
    let b = Destination::new(0, 0);
    assert_eq!(a.distance(&b), 7);
    assert_eq!(Destination::from(Position::new(2, 5)), Destination::new(2, 5));
    assert_eq!(Position::from(Destination::new(2, 5)), Position::new(2, 5));
    assert_eq!(Automata::Sand, Automata::Sand);
}
