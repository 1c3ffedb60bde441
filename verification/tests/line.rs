use conductor::common::Position;

fn pts(v: &[(i64, i64)]) -> Vec<Position> {
    v.iter().map(|&(x, y)| Position::new(x, y)).collect()
}

fn xy(v: &Vec<Position>) -> Vec<(i64, i64)> {
    v.iter().map(|p| (p.x, p.y)).collect()
}

#[test]
fn line_to_itself_is_empty() {
    let s = Position::new(7, -3);
    assert!(s.straight_line(Position::new(7, -3)).is_empty());
    let origin = Position::new(0, 0);
    assert!(origin.straight_line(Position::new(0, 0)).is_empty());
}

#[test]
fn line_concrete_shallow_slope() {
    // spacing = max(5/2, 2/5) = 2.5; the secondary axis advances on the
    // third and sixth primary steps.
    let line = Position::new(0, 0).straight_line(Position::new(5, 2));
    assert_eq!(
        xy(&line),
        vec![(0, 0), (1, 0), (2, 1), (3, 1), (4, 1), (5, 2)]
    );
}

#[test]
fn line_vertical_probe() {
    // The fallback probe of the resolver: straight up, one cell per step.
    let line = Position::new(3, 10).straight_line(Position::new(3, 5));
    assert_eq!(
        xy(&line),
        vec![(3, 10), (3, 9), (3, 8), (3, 7), (3, 6), (3, 5)]
    );
}

#[test]
fn line_horizontal() {
    let line = Position::new(-2, 4).straight_line(Position::new(2, 4));
    assert_eq!(xy(&line), vec![(-2, 4), (-1, 4), (0, 4), (1, 4), (2, 4)]);
}

#[test]
fn line_diagonal() {
    let line = Position::new(0, 0).straight_line(Position::new(-3, 3));
    assert_eq!(xy(&line), vec![(0, 0), (-1, 1), (-2, 2), (-3, 3)]);
}

#[test]
fn line_steep_negative_slope() {
    // Primary axis is y (|dy| = 5 > |dx| = 2), walking downward in y and
    // backward in x.
    let line = Position::new(10, 10).straight_line(Position::new(8, 5));
    let got = xy(&line);
    assert_eq!(got.len(), 6);
    assert_eq!(got[0], (10, 10));
    assert_eq!(got[5], (8, 5));
    for w in got.windows(2) {
        assert_eq!(w[1].1 - w[0].1, -1);
        assert!(w[1].0 == w[0].0 || w[1].0 == w[0].0 - 1);
    }
}

#[test]
fn line_length_and_endpoints_hold_widely() {
    let cases: Vec<((i64, i64), (i64, i64))> = vec![
        ((0, 0), (9, 1)),
        ((0, 0), (1, 9)),
        ((5, 5), (-5, 2)),
        ((-4, -4), (4, 4)),
        ((100, 50), (80, 57)),
        ((0, 0), (1, 0)),
        ((0, 0), (0, -1)),
    ];
    for ((sx, sy), (ex, ey)) in cases {
        let line = Position::new(sx, sy).straight_line(Position::new(ex, ey));
        let expect_len = (ex - sx).abs().max((ey - sy).abs()) + 1;
        assert_eq!(line.len() as i64, expect_len, "length for {:?}", (sx, sy, ex, ey));
        assert_eq!((line[0].x, line[0].y), (sx, sy));
        let last = line.last().unwrap();
        assert_eq!((last.x, last.y), (ex, ey));
        // The primary axis steps by sign(delta) on every element.
        let (dx, dy) = (ex - sx, ey - sy);
        for w in line.windows(2) {
            if dx.abs() > dy.abs() {
                assert_eq!(w[1].x - w[0].x, dx.signum());
            } else {
                assert_eq!(w[1].y - w[0].y, dy.signum());
            }
        }
    }
}

#[test]
fn line_matches_expected_alternating() {
    // spacing = 2 exactly: the secondary axis advances every other step.
    let line = Position::new(0, 0).straight_line(Position::new(4, 2));
    assert_eq!(xy(&line), vec![(0, 0), (1, 0), (2, 1), (3, 1), (4, 2)]);
    assert_eq!(pts(&[(0, 0)])[0], Position::new(0, 0));
}

#[test]
fn position_distance_is_manhattan() {
    let a = Position::new(3, 4);
    let b = Position::new(-2, 6);
    assert_eq!(a.distance(&b), 7);
    assert_eq!(b.distance(&a), 7);
    assert_eq!(a.distance(&a), 0);
}
