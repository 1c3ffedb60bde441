//! Positions on the cell grid and the line rasterizer.
//!
//! The rasterizer walks the axis with the larger absolute delta in unit
//! steps and lets the other axis trail behind on a proportional schedule:
//! a counter gains one unit per primary step and the secondary axis
//! advances one cell each time the counter exceeds `n / m` (the ratio of
//! the two absolute deltas), paying `n / m` back per advance.  Scaling the
//! counter by `m` keeps the schedule in exact integer arithmetic.

use vstd::arithmetic::div_mod::lemma_basic_div;
use vstd::arithmetic::div_mod::lemma_fundamental_div_mod_converse_div;
use vstd::prelude::*;

verus! {

/// Largest axis delta that `Position::straight_line` accepts; keeps every
/// counter of the walk comfortably inside `i64`.
pub const SPAN_LIMIT: i64 = 0x4000_0000;

/// Absolute value of a mathematical integer.
pub open spec fn abs_val(a: int) -> int {
    if a < 0 {
        -a
    } else {
        a
    }
}

/// Sign of a mathematical integer: -1, 0 or 1.
pub open spec fn sign_val(a: int) -> int {
    if a < 0 {
        -1
    } else if a == 0 {
        0
    } else {
        1
    }
}

/// The smaller of two mathematical integers.
pub open spec fn min_val(a: int, b: int) -> int {
    if a < b {
        a
    } else {
        b
    }
}

/// The larger of two mathematical integers.
pub open spec fn max_val(a: int, b: int) -> int {
    if a < b {
        b
    } else {
        a
    }
}

/// How often the secondary axis has advanced once `k` primary steps are
/// done, for a primary absolute delta `n` and a secondary absolute delta
/// `m` (`0 <= m <= n`, `1 <= n`).  The counter holds `k * m - a * n` after
/// `a` advances, and advances keep it in `(0, n]`, which pins `a` to this
/// quotient.
pub open spec fn step_advances(k: int, m: int, n: int) -> int {
    if m == 0 {
        0
    } else {
        (k * m - 1) / n
    }
}

/// Point `i` of a walk that starts at `(p0, s0)` (primary, secondary),
/// steps the primary axis by `sp` each element, and advances the secondary
/// axis by `ss` on the proportional schedule.
pub open spec fn walk_point(p0: int, s0: int, n: int, m: int, sp: int, ss: int, i: int) -> (
    int,
    int,
) {
    (p0 + i * sp, s0 + step_advances(i + 1, m, n) * ss)
}

/// Number of cells on the rasterized segment from `(sx, sy)` to
/// `(ex, ey)`: empty for a degenerate segment, else one per primary step,
/// endpoints included.
pub open spec fn line_point_count(sx: int, sy: int, ex: int, ey: int) -> int {
    if sx == ex && sy == ey {
        0
    } else {
        max_val(abs_val(ex - sx), abs_val(ey - sy)) + 1
    }
}

/// Cell `i` of the rasterized segment from `(sx, sy)` to `(ex, ey)`.
pub open spec fn line_point(sx: int, sy: int, ex: int, ey: int, i: int) -> (int, int) {
    let dx = ex - sx;
    let dy = ey - sy;
    if abs_val(dx) > abs_val(dy) {
        walk_point(sx, sy, abs_val(dx), abs_val(dy), sign_val(dx), sign_val(dy), i)
    } else {
        let pt = walk_point(sy, sx, abs_val(dy), abs_val(dx), sign_val(dy), sign_val(dx), i);
        (pt.1, pt.0)
    }
}

/// The rasterized segment from `(sx, sy)` to `(ex, ey)` as a sequence of
/// cells.
pub open spec fn line_points(sx: int, sy: int, ex: int, ey: int) -> Seq<(int, int)> {
    Seq::new(line_point_count(sx, sy, ex, ey) as nat, |i: int| line_point(sx, sy, ex, ey, i))
}

/// A particle's current, committed location on the cell grid.  It may lie
/// outside the grid bounds; the movement resolver culls such particles
/// rather than clamping them.
#[derive(Clone, Copy, Debug, PartialEq, Eq, Structural)]
pub struct Position {
    pub x: i64,
    pub y: i64,
}

impl View for Position {
    type V = (int, int);

    open spec fn view(&self) -> (int, int) {
        (self.x as int, self.y as int)
    }
}

impl Position {
    pub fn new(x: i64, y: i64) -> (r: Self)
        ensures
            r.x == x,
            r.y == y,
    {
        Self { x, y }
    }

    /// Manhattan distance between two positions.
    pub fn distance(&self, rhs: &Self) -> (r: i64)
        requires
            i64::MIN < self.x - rhs.x <= i64::MAX,
            i64::MIN < self.y - rhs.y <= i64::MAX,
            abs_val(self.x - rhs.x) + abs_val(self.y - rhs.y) <= i64::MAX,
        ensures
            r == abs_val(self.x - rhs.x) + abs_val(self.y - rhs.y),
    {
        let dx: i64 = self.x - rhs.x;
        let dy: i64 = self.y - rhs.y;
        let ax: i64 = if dx < 0 {
            -dx
        } else {
            dx
        };
        let ay: i64 = if dy < 0 {
            -dy
        } else {
            dy
        };
        ax + ay
    }

    /// The ordered cells connecting `self` to `end_point`: empty when the
    /// two coincide, else one cell per unit step of the axis with the
    /// larger absolute delta, both endpoints included.
    pub fn straight_line(self, end_point: Self) -> (r: Vec<Self>)
        requires
            -SPAN_LIMIT <= end_point.x - self.x <= SPAN_LIMIT,
            -SPAN_LIMIT <= end_point.y - self.y <= SPAN_LIMIT,
        ensures
            r@.len() == line_point_count(
                self.x as int,
                self.y as int,
                end_point.x as int,
                end_point.y as int,
            ),
            forall|i: int|
                0 <= i < r@.len() ==> #[trigger] r@[i]@ == line_point(
                    self.x as int,
                    self.y as int,
                    end_point.x as int,
                    end_point.y as int,
                    i,
                ),
    {
        let delta_x: i64 = end_point.x - self.x;
        let delta_y: i64 = end_point.y - self.y;
        if delta_x == 0 && delta_y == 0 {
            return Vec::new();
        }
        let abs_x: i64 = if delta_x < 0 {
            -delta_x
        } else {
            delta_x
        };
        let abs_y: i64 = if delta_y < 0 {
            -delta_y
        } else {
            delta_y
        };
        let sgn_x: i64 = if delta_x < 0 {
            -1
        } else if delta_x == 0 {
            0
        } else {
            1
        };
        let sgn_y: i64 = if delta_y < 0 {
            -1
        } else if delta_y == 0 {
            0
        } else {
            1
        };
        proof {
            lemma_abs_sign_mul(delta_x as int, abs_x as int, sgn_x as int);
            lemma_abs_sign_mul(delta_y as int, abs_y as int, sgn_y as int);
        }
        if abs_x > abs_y {
            walk(self.x, self.y, abs_x, abs_y, sgn_x, sgn_y, true)
        } else {
            walk(self.y, self.x, abs_y, abs_x, sgn_y, sgn_x, false)
        }
    }
}

/// `abs_val(d) * sign_val(d)` recovers `d` itself.
proof fn lemma_abs_sign_mul(d: int, a: int, s: int)
    requires
        a == abs_val(d),
        s == sign_val(d),
    ensures
        a * s == d,
{
    if d < 0 {
        assert(a * s == d) by (nonlinear_arith)
            requires
                a == -d,
                s == -1,
        ;
    } else if d == 0 {
        assert(a * s == 0) by (nonlinear_arith)
            requires
                s == 0,
        ;
    } else {
        assert(a * s == d) by (nonlinear_arith)
            requires
                a == d,
                s == 1,
        ;
    }
}

/// While the schedule counter still exceeds `n`, fewer than `m` advances
/// have been paid out.
proof fn lemma_advances_below_m(k: int, m: int, n: int, adv: int, counter: int)
    requires
        1 <= n,
        0 <= m <= n,
        1 <= k <= n + 1,
        counter == k * m - adv * n,
        counter > n,
        0 <= adv,
    ensures
        adv < m,
{
    assert(adv < m) by (nonlinear_arith)
        requires
            1 <= n,
            0 <= m <= n,
            1 <= k <= n + 1,
            k * m - adv * n > n,
            0 <= adv,
    ;
}

/// Walks `n + 1` points: the primary coordinate starts at `p0` and steps
/// by `sp` per element, the secondary starts at `s0` and advances by `ss`
/// on the proportional schedule.  With `x_primary` the pair is emitted as
/// `(primary, secondary)`, otherwise flipped.
fn walk(p0: i64, s0: i64, n: i64, m: i64, sp: i64, ss: i64, x_primary: bool) -> (r: Vec<Position>)
    requires
        1 <= n <= SPAN_LIMIT,
        0 <= m <= n,
        sp == 1 || sp == -1,
        ss == -1 || ss == 0 || ss == 1,
        m > 0 ==> ss != 0,
        i64::MIN <= p0 + n * sp <= i64::MAX,
        i64::MIN <= s0 + m * ss <= i64::MAX,
    ensures
        r@.len() == n + 1,
        forall|i: int|
            0 <= i <= n ==> #[trigger] r@[i]@ == (if x_primary {
                walk_point(p0 as int, s0 as int, n as int, m as int, sp as int, ss as int, i)
            } else {
                let pt = walk_point(p0 as int, s0 as int, n as int, m as int, sp as int, ss as int, i);
                (pt.1, pt.0)
            }),
{
    let nn: usize = n as usize;
    let mut r: Vec<Position> = Vec::new();
    let mut p: i64 = p0;
    let mut s: i64 = s0;
    let mut counter: i64 = 0;
    let ghost mut adv: int = 0;
    let mut idx: usize = 0;
    while idx <= nn
        invariant
            nn == n,
            1 <= n <= SPAN_LIMIT,
            0 <= m <= n,
            sp == 1 || sp == -1,
            ss == -1 || ss == 0 || ss == 1,
            m > 0 ==> ss != 0,
            i64::MIN <= p0 + n * sp <= i64::MAX,
            i64::MIN <= s0 + m * ss <= i64::MAX,
            0 <= idx <= nn + 1,
            r@.len() == idx,
            idx <= nn ==> p == p0 + idx * sp,
            counter == idx * m - adv * n,
            0 <= counter <= n,
            m == 0 ==> counter == 0 && adv == 0,
            m >= 1 && idx >= 1 ==> counter >= 1,
            0 <= adv <= m,
            s == s0 + adv * ss,
            forall|j: int|
                0 <= j < idx ==> #[trigger] r@[j]@ == (if x_primary {
                    walk_point(p0 as int, s0 as int, n as int, m as int, sp as int, ss as int, j)
                } else {
                    let pt = walk_point(
                        p0 as int,
                        s0 as int,
                        n as int,
                        m as int,
                        sp as int,
                        ss as int,
                        j,
                    );
                    (pt.1, pt.0)
                }),
        decreases nn + 1 - idx,
    {
        counter = counter + m;
        proof {
            assert((idx + 1) * m == idx * m + m) by (nonlinear_arith);
        }
        while counter > n
            invariant
                nn == n,
                1 <= n,
                0 <= m <= n,
                idx <= nn,
                ss == -1 || ss == 0 || ss == 1,
                m > 0 ==> ss != 0,
                i64::MIN <= s0 + m * ss <= i64::MAX,
                counter == (idx + 1) * m - adv * n,
                m >= 1 ==> counter >= 1,
                m == 0 ==> counter == 0 && adv == 0,
                0 <= adv <= m,
                s == s0 + adv * ss,
            decreases counter,
        {
            proof {
                lemma_advances_below_m(idx as int + 1, m as int, n as int, adv, counter as int);
                assert((adv + 1) * n == adv * n + n) by (nonlinear_arith);
                if ss == 1 {
                    assert(s0 + adv * 1 + 1 == s0 + (adv + 1) * 1);
                } else {
                    assert(s0 + adv * (-1) + (-1) == s0 + (adv + 1) * (-1)) by (nonlinear_arith);
                    assert(s0 + m * (-1) <= s0 + (adv + 1) * (-1)) by (nonlinear_arith)
                        requires
                            adv + 1 <= m,
                    ;
                }
                if ss == 1 {
                    assert(s0 + (adv + 1) * 1 <= s0 + m * 1) by (nonlinear_arith)
                        requires
                            adv + 1 <= m,
                    ;
                }
            }
            s = s + ss;
            counter = counter - n;
            proof {
                adv = adv + 1;
            }
        }
        proof {
            if m >= 1 {
                lemma_fundamental_div_mod_converse_div(
                    (idx + 1) * m - 1,
                    n as int,
                    adv,
                    counter - 1,
                );
            }
            assert(adv == step_advances(idx as int + 1, m as int, n as int));
        }
        let point: Position = if x_primary {
            Position { x: p, y: s }
        } else {
            Position { x: s, y: p }
        };
        r.push(point);
        idx = idx + 1;
        if idx <= nn {
            proof {
                assert(idx * sp == (idx - 1) * sp + sp) by (nonlinear_arith);
                if sp == 1 {
                    assert(p0 + idx * 1 <= p0 + n * 1) by (nonlinear_arith)
                        requires
                            idx <= n,
                    ;
                } else {
                    assert(p0 + n * (-1) <= p0 + idx * (-1)) by (nonlinear_arith)
                        requires
                            idx <= n,
                    ;
                }
            }
            p = p + sp;
        }
    }
    r
}

/// The area of a grid with `u16` sides fits even a 32-bit `usize`.
pub proof fn lemma_area_fits(w: int, h: int)
    requires
        0 <= w <= 0xffff,
        0 <= h <= 0xffff,
    ensures
        w * h <= 0xfffe0001,
{
    assert(w * h <= 0xfffe0001) by (nonlinear_arith)
        requires
            0 <= w <= 0xffff,
            0 <= h <= 0xffff,
    ;
}

/// Law: the segment from a position to itself is empty.
pub proof fn lemma_line_self_is_empty(sx: int, sy: int)
    ensures
        line_points(sx, sy, sx, sy).len() == 0,
{
}

/// Law: a non-degenerate segment holds `max(|dx|, |dy|) + 1` cells, its
/// first cell is the start point and its last cell is the end point.
pub proof fn lemma_line_shape(sx: int, sy: int, ex: int, ey: int)
    requires
        sx != ex || sy != ey,
    ensures
        line_points(sx, sy, ex, ey).len() == max_val(abs_val(ex - sx), abs_val(ey - sy)) + 1,
        line_points(sx, sy, ex, ey)[0] == (sx, sy),
        line_points(sx, sy, ex, ey)[line_point_count(sx, sy, ex, ey) - 1] == (ex, ey),
{
    let dx = ex - sx;
    let dy = ey - sy;
    let n = max_val(abs_val(dx), abs_val(dy));
    assert(n >= 1);
    // First cell: no primary steps taken, no advances paid out yet.
    if abs_val(dx) > abs_val(dy) {
        assert(0 * sign_val(dx) == 0) by (nonlinear_arith);
        if abs_val(dy) >= 1 {
            lemma_basic_div(abs_val(dy) - 1, abs_val(dx));
        }
        assert(step_advances(1, abs_val(dy), abs_val(dx)) == 0);
        assert(0 * sign_val(dy) == 0) by (nonlinear_arith);
    } else {
        assert(0 * sign_val(dy) == 0) by (nonlinear_arith);
        if abs_val(dx) >= 1 {
            lemma_basic_div(abs_val(dx) - 1, abs_val(dy));
        }
        assert(step_advances(1, abs_val(dx), abs_val(dy)) == 0);
        assert(0 * sign_val(dx) == 0) by (nonlinear_arith);
    }
    // Last cell: the primary axis has walked its whole delta and the
    // secondary axis has paid out all `m` advances.
    lemma_abs_sign_mul(dx, abs_val(dx), sign_val(dx));
    lemma_abs_sign_mul(dy, abs_val(dy), sign_val(dy));
    if abs_val(dx) > abs_val(dy) {
        lemma_full_advances(abs_val(dy), abs_val(dx));
        assert(line_point(sx, sy, ex, ey, n) == (sx + abs_val(dx) * sign_val(dx), sy + abs_val(dy)
            * sign_val(dy)));
    } else {
        lemma_full_advances(abs_val(dx), abs_val(dy));
        assert(line_point(sx, sy, ex, ey, n) == (sx + abs_val(dx) * sign_val(dx), sy + abs_val(dy)
            * sign_val(dy)));
    }
}

/// After all `n + 1` primary steps the secondary axis has advanced
/// exactly `m` times.
proof fn lemma_full_advances(m: int, n: int)
    requires
        0 <= m <= n,
        1 <= n,
    ensures
        step_advances(n + 1, m, n) == m,
{
    if m >= 1 {
        assert((n + 1) * m - 1 == m * n + (m - 1)) by (nonlinear_arith);
        lemma_fundamental_div_mod_converse_div((n + 1) * m - 1, n, m, m - 1);
    }
}

/// Law: between consecutive cells the primary axis steps by exactly
/// `sign(delta)` — the larger-delta axis is strictly monotonic along the
/// whole segment.
pub proof fn lemma_line_primary_step(sx: int, sy: int, ex: int, ey: int, i: int)
    requires
        sx != ex || sy != ey,
        0 <= i < line_point_count(sx, sy, ex, ey) - 1,
    ensures
        abs_val(ex - sx) > abs_val(ey - sy) ==> line_point(sx, sy, ex, ey, i + 1).0 - line_point(
            sx,
            sy,
            ex,
            ey,
            i,
        ).0 == sign_val(ex - sx),
        abs_val(ex - sx) <= abs_val(ey - sy) ==> line_point(sx, sy, ex, ey, i + 1).1 - line_point(
            sx,
            sy,
            ex,
            ey,
            i,
        ).1 == sign_val(ey - sy),
{
    assert((i + 1) * sign_val(ex - sx) == i * sign_val(ex - sx) + sign_val(ex - sx))
        by (nonlinear_arith);
    assert((i + 1) * sign_val(ey - sy) == i * sign_val(ey - sy) + sign_val(ey - sy))
        by (nonlinear_arith);
}

} // verus!

