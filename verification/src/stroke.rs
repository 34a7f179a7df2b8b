//! Strokes: the state of a drawing gesture, and the integer line that joins
//! two samples of it without gaps.

use vstd::prelude::*;

verus! {

/// The state of a drawing gesture: whether one is under way, where its last
/// sample was, and the samples it has had so far (x, y, fixed-point pressure).
#[derive(Debug, Clone)]
pub struct StrokeState {
    pub is_drawing: bool,
    pub last_point: Option<(i32, i32)>,
    pub current_path: Vec<(i32, i32, u32)>,
}

impl Default for StrokeState {
    /// No gesture under way, no samples.
    fn default() -> (state: StrokeState)
        ensures
            !state.is_drawing,
            state.last_point is None,
            state.current_path@.len() == 0,
    {
        StrokeState { is_drawing: false, last_point: None, current_path: Vec::new() }
    }
}

impl StrokeState {
    /// Starts a gesture at the given sample; earlier samples are forgotten.
    pub fn begin(&mut self, x: i32, y: i32, pressure: u32)
        ensures
            final(self).is_drawing,
            final(self).last_point == Some((x, y)),
            final(self).current_path@ == seq![(x, y, pressure)],
    {
        self.is_drawing = true;
        self.last_point = Some((x, y));
        self.current_path = Vec::new();
        self.current_path.push((x, y, pressure));
    }

    /// Adds a sample to the gesture under way; without one, nothing happens.
    pub fn add_point(&mut self, x: i32, y: i32, pressure: u32)
        ensures
            final(self).is_drawing == old(self).is_drawing,
            old(self).is_drawing ==> final(self).current_path@ == old(self).current_path@.push((x, y, pressure))
                && final(self).last_point == Some((x, y)),
            !old(self).is_drawing ==> final(self).current_path@ == old(self).current_path@ && final(self).last_point
                == old(self).last_point,
    {
        if self.is_drawing {
            self.current_path.push((x, y, pressure));
            self.last_point = Some((x, y));
        }
    }

    /// Ends the gesture. Its samples stay until the next one begins.
    pub fn end(&mut self)
        ensures
            !final(self).is_drawing,
            final(self).last_point is None,
            final(self).current_path@ == old(self).current_path@,
    {
        self.is_drawing = false;
        self.last_point = None;
    }

    /// Forgets everything.
    pub fn clear(&mut self)
        ensures
            !final(self).is_drawing,
            final(self).last_point is None,
            final(self).current_path@.len() == 0,
    {
        self.is_drawing = false;
        self.last_point = None;
        self.current_path = Vec::new();
    }

    /// The pressure of the last sample, or `fallback` if there is none.
    pub fn last_pressure(&self, fallback: u32) -> (pressure: u32)
        ensures
            pressure == if self.current_path@.len() > 0 {
                self.current_path@.last().2
            } else {
                fallback
            },
    {
        let n = self.current_path.len();
        if n > 0 {
            self.current_path[n - 1].2
        } else {
            fallback
        }
    }
}

/// Distance between two coordinates.
pub open spec fn abs_diff(a: int, b: int) -> int {
    if a >= b {
        a - b
    } else {
        b - a
    }
}

/// The state of the line walk: the current pixel and the error term.
pub struct LineState {
    pub x: int,
    pub y: int,
    pub err: int,
}

/// One step of the line walk from `(x0, y0)` towards `(x1, y1)`: the error
/// term decides whether the walk advances in x, in y, or in both.
pub open spec fn line_step(s: LineState, x0: int, y0: int, x1: int, y1: int) -> LineState {
    let dx = abs_diff(x1, x0);
    let dy = abs_diff(y1, y0);
    let sx: int = if x0 < x1 { 1 } else { -1 };
    let sy: int = if y0 < y1 { 1 } else { -1 };
    let e2 = 2 * s.err;
    let x = if e2 > -dy { s.x + sx } else { s.x };
    let err1 = if e2 > -dy { s.err - dy } else { s.err };
    let y = if e2 < dx { s.y + sy } else { s.y };
    let err2 = if e2 < dx { err1 + dx } else { err1 };
    LineState { x, y, err: err2 }
}

/// The state of the line walk after `k` steps.
pub open spec fn line_state(x0: int, y0: int, x1: int, y1: int, k: nat) -> LineState
    decreases k,
{
    if k == 0 {
        LineState { x: x0, y: y0, err: abs_diff(x1, x0) - abs_diff(y1, y0) }
    } else {
        line_step(line_state(x0, y0, x1, y1, (k - 1) as nat), x0, y0, x1, y1)
    }
}

/// Whether `points` is the line from `(x0, y0)` to `(x1, y1)`: the pixels of
/// the walk, from the first one up to the first arrival at the end point.
pub open spec fn is_line(points: Seq<(i32, i32)>, x0: int, y0: int, x1: int, y1: int) -> bool {
    &&& points.len() >= 1
    &&& forall|k: int|
        0 <= k < points.len() ==> (#[trigger] points[k]).0 == line_state(x0, y0, x1, y1, k as nat).x && points[k].1
            == line_state(x0, y0, x1, y1, k as nat).y
    &&& points[points.len() - 1] == (x1 as i32, y1 as i32)
    &&& forall|k: int| 0 <= k < points.len() - 1 ==> #[trigger] points[k] != (x1 as i32, y1 as i32)
}

/// Whether the point at index `k + 1` is a neighbour of the point at index
/// `k`: the two differ, and by at most one in each coordinate.
pub open spec fn is_neighbour_step(points: Seq<(i32, i32)>, k: int) -> bool {
    let p = points[k];
    let q = points[k + 1];
    abs_diff(q.0 as int, p.0 as int) <= 1 && abs_diff(q.1 as int, p.1 as int) <= 1 && p != q
}

/// Whether each point is a neighbour of the one before it.
pub open spec fn is_connected(points: Seq<(i32, i32)>) -> bool {
    forall|k: int| 0 <= k < points.len() - 1 ==> #[trigger] is_neighbour_step(points, k)
}

/// The error term after `a` steps in x and `b` steps in y.
#[verifier::opaque]
pub open spec fn walk_err(dx: int, dy: int, a: int, b: int) -> int {
    dx - dy - a * dy + b * dx
}

/// While the walk has not arrived, the error term never asks for a step on
/// an axis that is finished, and always asks for a step on one of the two.
proof fn lemma_walk_step(dx: int, dy: int, a: int, b: int)
    requires
        0 <= a <= dx,
        0 <= b <= dy,
        a < dx || b < dy,
    ensures
        2 * walk_err(dx, dy, a, b) > -dy ==> a < dx,
        2 * walk_err(dx, dy, a, b) < dx ==> b < dy,
        2 * walk_err(dx, dy, a, b) > -dy || 2 * walk_err(dx, dy, a, b) < dx,
        walk_err(dx, dy, a + 1, b) == walk_err(dx, dy, a, b) - dy,
        walk_err(dx, dy, a, b + 1) == walk_err(dx, dy, a, b) + dx,
        walk_err(dx, dy, a + 1, b + 1) == walk_err(dx, dy, a, b) - dy + dx,
{
    reveal(walk_err);
    if a == dx {
        assert(dx + b * dx - a * dy <= 0) by (nonlinear_arith)
            requires
                a == dx,
                b < dy,
                0 <= dx,
        ;
    }
    if b == dy {
        assert(b * dx - dy - a * dy >= 0) by (nonlinear_arith)
            requires
                b == dy,
                a < dx,
                0 <= dy,
        ;
    }
    assert((a + 1) * dy == a * dy + dy) by (nonlinear_arith);
    assert((b + 1) * dx == b * dx + dx) by (nonlinear_arith);
}

/// A connected list stays connected when a neighbour of its last point is
/// appended.
proof fn lemma_connected_push(points: Seq<(i32, i32)>, q: (i32, i32))
    requires
        points.len() >= 1,
        is_connected(points),
        abs_diff(q.0 as int, points.last().0 as int) <= 1,
        abs_diff(q.1 as int, points.last().1 as int) <= 1,
        q != points.last(),
    ensures
        is_connected(points.push(q)),
{
    let after = points.push(q);
    assert forall|k: int| 0 <= k < after.len() - 1 implies #[trigger] is_neighbour_step(after, k) by {
        if k < points.len() - 1 {
            assert(is_neighbour_step(points, k));
            assert(after[k] == points[k]);
            assert(after[k + 1] == points[k + 1]);
        }
    }
}

/// The pixels of the straight line from `(x0, y0)` to `(x1, y1)`, both ends
/// included, walked with an integer error term so that no gap appears. Every
/// step advances along the longer side of the line, so the line has one
/// pixel for each step along it.
pub fn interpolate_line(x0: i32, y0: i32, x1: i32, y1: i32) -> (points: Vec<(i32, i32)>)
    ensures
        is_line(points@, x0 as int, y0 as int, x1 as int, y1 as int),
        is_connected(points@),
        points@[0] == (x0, y0),
        points@.len() == (if abs_diff(x1 as int, x0 as int) >= abs_diff(y1 as int, y0 as int) {
            abs_diff(x1 as int, x0 as int)
        } else {
            abs_diff(y1 as int, y0 as int)
        }) + 1,
{
    let mut points: Vec<(i32, i32)> = Vec::new();
    let dx: i64 = if x1 >= x0 { x1 as i64 - x0 as i64 } else { x0 as i64 - x1 as i64 };
    let dy: i64 = if y1 >= y0 { y1 as i64 - y0 as i64 } else { y0 as i64 - y1 as i64 };
    let sx: i32 = if x0 < x1 { 1 } else { -1 };
    let sy: i32 = if y0 < y1 { 1 } else { -1 };
    let mut err: i64 = dx - dy;
    let mut x: i32 = x0;
    let mut y: i32 = y0;
    let ghost mut a: int = 0;
    let ghost mut b: int = 0;
    let ghost mut k: nat = 0;
    points.push((x, y));
    proof {
        reveal(walk_err);
    }
    while !(x == x1 && y == y1)
        invariant
            dx == abs_diff(x1 as int, x0 as int),
            dy == abs_diff(y1 as int, y0 as int),
            sx == (if x0 < x1 { 1int } else { -1int }),
            sy == (if y0 < y1 { 1int } else { -1int }),
            0 <= a <= dx,
            0 <= b <= dy,
            x == (if x0 < x1 { x0 + a } else { x0 - a }),
            y == (if y0 < y1 { y0 + b } else { y0 - b }),
            err == walk_err(dx as int, dy as int, a, b),
            -3 * dy <= 2 * err <= 3 * dx,
            dx >= dy ==> 2 * err >= dx - 2 * dy && (dx == dy ==> err == 0) && a == k,
            dy > dx ==> 2 * err <= 2 * dx - dy && b == k,
            a <= k,
            b <= k,
            k <= a + b,
            points@.len() == k + 1,
            line_state(x0 as int, y0 as int, x1 as int, y1 as int, k) == (LineState {
                x: x as int,
                y: y as int,
                err: err as int,
            }),
            forall|j: int|
                0 <= j < points@.len() ==> (#[trigger] points@[j]).0 == line_state(
                    x0 as int,
                    y0 as int,
                    x1 as int,
                    y1 as int,
                    j as nat,
                ).x && points@[j].1 == line_state(x0 as int, y0 as int, x1 as int, y1 as int, j as nat).y,
            forall|j: int| 0 <= j < points@.len() - 1 ==> #[trigger] points@[j] != (x1, y1),
            points@[k as int] == (x, y),
            points@[0] == (x0, y0),
            is_connected(points@),
        decreases (dx - a) + (dy - b),
    {
        proof {
            lemma_walk_step(dx as int, dy as int, a, b);
        }
        let ghost before = points@;
        let ghost px = x;
        let ghost py = y;
        let e2: i64 = 2 * err;
        if e2 > -dy {
            err = err - dy;
            x = x + sx;
            proof {
                a = a + 1;
            }
        }
        if e2 < dx {
            err = err + dx;
            y = y + sy;
            proof {
                b = b + 1;
            }
        }
        points.push((x, y));
        proof {
            k = k + 1;
            assert(forall|j: int| 0 <= j < before.len() ==> points@[j] == before[j]);
            assert(points@[k as int] == (x, y));
            assert((px, py) != (x, y));
            lemma_connected_push(before, (x, y));
        }
    }
    points
}

} // verus!
