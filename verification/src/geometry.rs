use vstd::prelude::*;
use crate::error::ConfigError;
use crate::fixed::{
    bound, in_band, length, round_div, round_div_i128, sat_add, saturate, saturate_i128,
    spec_bound, wide_mul, LIMIT,
};
use crate::scale::{scale_to, scaled, spec_scale_to};

verus! {

/// The dot product of the vectors `(ax, ay)` and `(bx, by)`.
pub open spec fn dot(ax: int, ay: int, bx: int, by: int) -> int {
    ax * bx + ay * by
}

/// The point of the segment from `(ax, ay)` to `(bx, by)` that lies closest
/// to `(px, py)`: the foot of the perpendicular where it falls between the
/// endpoints, rounded to whole units, and else the nearer endpoint. A
/// segment of length zero is its one point.
pub open spec fn closest_point(ax: int, ay: int, bx: int, by: int, px: int, py: int) -> (int, int) {
    let abx = bx - ax;
    let aby = by - ay;
    let along = dot(px - ax, py - ay, abx, aby);
    let len2 = dot(abx, aby, abx, aby);
    if along <= 0 {
        (ax, ay)
    } else if along >= len2 {
        (bx, by)
    } else {
        (ax + round_div(abx * along, len2), ay + round_div(aby * along, len2))
    }
}

/// The vector from the closest point of the segment to `(px, py)`.
pub open spec fn normal_vector(ax: int, ay: int, bx: int, by: int, px: int, py: int) -> (int, int) {
    let c = closest_point(ax, ay, bx, by, px, py);
    (px - c.0, py - c.1)
}

/// The distance from the segment to `(px, py)`, rounded down.
pub open spec fn distance(ax: int, ay: int, bx: int, by: int, px: int, py: int) -> int {
    let n = normal_vector(ax, ay, bx, by, px, py);
    length(n.0, n.1)
}

/// Between the endpoints, the closest point lies within half a unit, in
/// each coordinate, of the exact foot of the perpendicular, which is
/// `a + ab * along / len2`.
pub proof fn lemma_closest_point_near_foot(ax: int, ay: int, bx: int, by: int, px: int, py: int)
    requires
        0 < dot(px - ax, py - ay, bx - ax, by - ay) < dot(bx - ax, by - ay, bx - ax, by - ay),
    ensures
        ({
            let c = closest_point(ax, ay, bx, by, px, py);
            let along = dot(px - ax, py - ay, bx - ax, by - ay);
            let len2 = dot(bx - ax, by - ay, bx - ax, by - ay);
            &&& -len2 <= 2 * ((c.0 - ax) * len2 - (bx - ax) * along) <= len2
            &&& -len2 <= 2 * ((c.1 - ay) * len2 - (by - ay) * along) <= len2
        }),
{
    let along = dot(px - ax, py - ay, bx - ax, by - ay);
    let len2 = dot(bx - ax, by - ay, bx - ax, by - ay);
    crate::fixed::lemma_round_div_error((bx - ax) * along, len2);
    crate::fixed::lemma_round_div_error((by - ay) * along, len2);
}

/// The coordinates of the closest point of a segment lie between those of
/// its endpoints.
pub proof fn lemma_closest_point_between(ax: int, ay: int, bx: int, by: int, px: int, py: int)
    ensures
        ({
            let c = closest_point(ax, ay, bx, by, px, py);
            &&& (ax <= c.0 <= bx || bx <= c.0 <= ax)
            &&& (ay <= c.1 <= by || by <= c.1 <= ay)
        }),
{
    let abx = bx - ax;
    let aby = by - ay;
    let along = dot(px - ax, py - ay, abx, aby);
    let len2 = dot(abx, aby, abx, aby);
    if 0 < along < len2 {
        lemma_scaled_between(abx, along, len2);
        lemma_scaled_between(aby, along, len2);
    }
}

/// A number scaled by a proper fraction and rounded lies between zero and
/// the number.
pub proof fn lemma_scaled_between(v: int, num: int, den: int)
    requires
        0 < num < den,
    ensures
        v >= 0 ==> 0 <= round_div(v * num, den) <= v,
        v <= 0 ==> v <= round_div(v * num, den) <= 0,
{
    if v >= 0 {
        assert(0 <= v * num <= v * den) by (nonlinear_arith)
            requires
                v >= 0,
                0 < num < den,
        ;
        crate::fixed::lemma_round_div_bound(v * num, den, v);
        crate::fixed::lemma_round_div_sign(v * num, den);
    } else {
        assert(-((-v) * den) <= v * num <= 0) by (nonlinear_arith)
            requires
                v < 0,
                0 < num < den,
        ;
        crate::fixed::lemma_round_div_bound(v * num, den, -v);
        crate::fixed::lemma_round_div_sign(v * num, den);
    }
}

/// How far from the radius, in units, a point may lie from a wall once it
/// was pushed out.
pub const PUSH_TOLERANCE: i64 = 3;

/// The cross product of the segment from `(ax, ay)` to `(bx, by)` with the
/// vector from `(ax, ay)` to `(px, py)`: its sign tells the side of the
/// segment on which the point lies.
pub open spec fn side(ax: int, ay: int, bx: int, by: int, px: int, py: int) -> int {
    (bx - ax) * (py - ay) - (by - ay) * (px - ax)
}

/// The direction in which `(px, py)` is pushed away from the segment: where
/// the closest point is an endpoint, the vector from it to the point; and
/// where it lies between the endpoints, the perpendicular of the segment
/// on the side of the point.
pub open spec fn push_direction(ax: int, ay: int, bx: int, by: int, px: int, py: int) -> (
    int,
    int,
) {
    let along = dot(px - ax, py - ay, bx - ax, by - ay);
    let len2 = dot(bx - ax, by - ay, bx - ax, by - ay);
    let cross = side(ax, ay, bx, by, px, py);
    if along <= 0 || along >= len2 {
        normal_vector(ax, ay, bx, by, px, py)
    } else if cross > 0 {
        (-(by - ay), bx - ax)
    } else if cross < 0 {
        (by - ay, -(bx - ax))
    } else {
        (0, 0)
    }
}

/// The point at `radius` from the closest point of the segment, in the
/// direction in which `(px, py)` is pushed.
pub open spec fn pushed_point(
    ax: int,
    ay: int,
    bx: int,
    by: int,
    px: int,
    py: int,
    radius: int,
) -> (int, int) {
    let c = closest_point(ax, ay, bx, by, px, py);
    let w = push_direction(ax, ay, bx, by, px, py);
    let m = scaled(w.0, w.1, radius);
    (c.0 + m.0, c.1 + m.1)
}

/// Whether `p` is a point of the world: both coordinates lie in the band.
pub open spec fn point_in_band(p: (i64, i64)) -> bool {
    in_band(p.0 as int) && in_band(p.1 as int)
}

/// What is wrong with a wall from `p1` to `p2`, if anything: an endpoint
/// outside the band comes first, then endpoints that coincide.
pub open spec fn wall_error(p1: (i64, i64), p2: (i64, i64)) -> Option<ConfigError> {
    if !point_in_band(p1) || !point_in_band(p2) {
        Some(ConfigError::OutOfBounds)
    } else if p1 == p2 {
        Some(ConfigError::DegenerateWall)
    } else {
        None
    }
}

/// A wall or a timing gate: a straight segment between two distinct points
/// of the world.
#[derive(Clone, Copy, Debug)]
pub struct Wall {
    x1: i64,
    y1: i64,
    x2: i64,
    y2: i64,
}

impl Wall {
    /// The first endpoint.
    pub closed spec fn start(self) -> (i64, i64) {
        (self.x1, self.y1)
    }

    /// The second endpoint.
    pub closed spec fn end(self) -> (i64, i64) {
        (self.x2, self.y2)
    }

    /// Both endpoints lie in the band and differ.
    pub open spec fn wf(self) -> bool {
        &&& point_in_band(self.start())
        &&& point_in_band(self.end())
        &&& self.start() != self.end()
    }

    /// The closest point of this wall to `p`, with `p` taken at the edge of
    /// the band where it lies outside.
    pub open spec fn spec_closest_point(self, p: (i64, i64)) -> (int, int) {
        closest_point(
            self.start().0 as int,
            self.start().1 as int,
            self.end().0 as int,
            self.end().1 as int,
            saturate(p.0 as int),
            saturate(p.1 as int),
        )
    }

    /// The vector from the closest point of this wall to `p`.
    pub open spec fn spec_normal(self, p: (i64, i64)) -> (int, int) {
        let c = self.spec_closest_point(p);
        (saturate(p.0 as int) - c.0, saturate(p.1 as int) - c.1)
    }

    /// The distance from this wall to `p`, rounded down.
    pub open spec fn spec_distance(self, p: (i64, i64)) -> int {
        let n = self.spec_normal(p);
        length(n.0, n.1)
    }

    /// Whether both ends of this wall keep `radius` and two units from the
    /// edge of the band, so that no point pushed out to `radius` is
    /// stopped there.
    pub open spec fn clear_of_edge(self, radius: i64) -> bool {
        &&& in_band(self.start().0 + radius + 2) && in_band(self.start().0 - radius - 2)
        &&& in_band(self.start().1 + radius + 2) && in_band(self.start().1 - radius - 2)
        &&& in_band(self.end().0 + radius + 2) && in_band(self.end().0 - radius - 2)
        &&& in_band(self.end().1 + radius + 2) && in_band(self.end().1 - radius - 2)
    }

    /// The direction in which `p` is pushed away from this wall.
    pub open spec fn spec_push_direction(self, p: (i64, i64)) -> (int, int) {
        push_direction(
            self.start().0 as int,
            self.start().1 as int,
            self.end().0 as int,
            self.end().1 as int,
            saturate(p.0 as int),
            saturate(p.1 as int),
        )
    }

    /// The point that lies `radius` from the closest point of this wall in
    /// the direction in which `p` is pushed; where `p` lies on the wall,
    /// `p` itself. The radius is taken from `[0, LIMIT]`, and the point
    /// stops at the edge of the band.
    pub open spec fn spec_push_out(self, p: (i64, i64), radius: i64) -> (i64, i64) {
        let c = self.spec_closest_point(p);
        let w = self.spec_push_direction(p);
        let m = spec_scale_to(w.0 as i64, w.1 as i64, spec_bound(radius, 0, LIMIT));
        if self.spec_distance(p) <= 0 {
            (saturate(p.0 as int) as i64, saturate(p.1 as int) as i64)
        } else {
            (saturate(c.0 + m.0) as i64, saturate(c.1 + m.1) as i64)
        }
    }

    /// A wall between two points. Endpoints outside the band are refused
    /// first, then endpoints that coincide.
    pub fn new(x1: i64, y1: i64, x2: i64, y2: i64) -> (r: Result<Wall, ConfigError>)
        ensures
            match r {
                Ok(w) => wall_error((x1, y1), (x2, y2)) is None && w.wf() && w.start() == (x1, y1)
                    && w.end() == (x2, y2),
                Err(e) => wall_error((x1, y1), (x2, y2)) == Some(e),
            },
    {
        if !(within_band(x1) && within_band(y1) && within_band(x2) && within_band(y2)) {
            Err(ConfigError::OutOfBounds)
        } else if x1 == x2 && y1 == y2 {
            Err(ConfigError::DegenerateWall)
        } else {
            Ok(Wall { x1, y1, x2, y2 })
        }
    }

    /// The first endpoint.
    pub fn get_start(&self) -> (p: (i64, i64))
        ensures
            p == self.start(),
    {
        (self.x1, self.y1)
    }

    /// The second endpoint.
    pub fn get_end(&self) -> (p: (i64, i64))
        ensures
            p == self.end(),
    {
        (self.x2, self.y2)
    }

    /// The distance from this wall to `p` and the vector from the closest
    /// point of the wall to `p`. Where `p` lies on the wall the distance is
    /// zero and the vector is the zero vector.
    pub fn get_normal_vector(&self, p: (i64, i64)) -> (r: (i64, (i64, i64)))
        requires
            self.wf(),
        ensures
            r.0 == self.spec_distance(p),
            (r.1).0 == self.spec_normal(p).0,
            (r.1).1 == self.spec_normal(p).1,
            r.0 == 0 <==> r.1 == (0i64, 0i64),
            0 <= r.0 <= 3 * LIMIT,
            in_band(saturate(p.0 as int) - (r.1).0),
            in_band(saturate(p.1 as int) - (r.1).1),
    {
        let px: i64 = saturate_i128(p.0 as i128);
        let py: i64 = saturate_i128(p.1 as i128);
        let abx: i64 = self.x2 - self.x1;
        let aby: i64 = self.y2 - self.y1;
        let apx: i64 = px - self.x1;
        let apy: i64 = py - self.y1;
        let along: i128 = wide_dot(apx, apy, abx, aby);
        let len2: i128 = wide_dot(abx, aby, abx, aby);
        proof {
            lemma_closest_point_between(
                self.x1 as int,
                self.y1 as int,
                self.x2 as int,
                self.y2 as int,
                px as int,
                py as int,
            );
        }
        let (cx, cy): (i64, i64) = if along <= 0 {
            (self.x1, self.y1)
        } else if along >= len2 {
            (self.x2, self.y2)
        } else {
            let sx: i128 = scale_by(abx, along, len2);
            let sy: i128 = scale_by(aby, along, len2);
            ((self.x1 as i128 + sx) as i64, (self.y1 as i128 + sy) as i64)
        };
        let nx: i64 = px - cx;
        let ny: i64 = py - cy;
        let d: i64 = long_hypot(nx, ny);
        proof {
            if nx != 0 || ny != 0 {
                assert(nx * nx + ny * ny >= 1) by (nonlinear_arith)
                    requires
                        nx != 0 || ny != 0,
                ;
                assert(d != 0) by (nonlinear_arith)
                    requires
                        d * d <= nx * nx + ny * ny < (d + 1) * (d + 1),
                        nx * nx + ny * ny >= 1,
                        d >= 0,
                ;
            } else {
                assert(nx * nx + ny * ny == 0) by (nonlinear_arith)
                    requires
                        nx == 0,
                        ny == 0,
                ;
                assert(d == 0) by (nonlinear_arith)
                    requires
                        d * d <= 0,
                        d >= 0,
                ;
            }
        }
        (d, (nx, ny))
    }

    /// The point that lies `radius` from the closest point of this wall in
    /// the direction in which `p` is pushed; where `p` lies on the wall,
    /// `p` itself.
    #[verifier::when_used_as_spec(spec_push_out)]
    pub fn push_out(self, p: (i64, i64), radius: i64) -> (q: (i64, i64))
        requires
            self.wf(),
        ensures
            q == self.spec_push_out(p, radius),
            point_in_band(q),
    {
        let (d, n): (i64, (i64, i64)) = self.get_normal_vector(p);
        let px: i64 = saturate_i128(p.0 as i128);
        let py: i64 = saturate_i128(p.1 as i128);
        if d <= 0 {
            return (px, py);
        }
        let abx: i64 = self.x2 - self.x1;
        let aby: i64 = self.y2 - self.y1;
        let apx: i64 = px - self.x1;
        let apy: i64 = py - self.y1;
        let along: i128 = wide_dot(apx, apy, abx, aby);
        let len2: i128 = wide_dot(abx, aby, abx, aby);
        let cross: i128 = wide_dot(abx, -aby, apy, apx);
        let w: (i64, i64) = if along <= 0 || along >= len2 {
            n
        } else if cross > 0 {
            (-aby, abx)
        } else if cross < 0 {
            (aby, -abx)
        } else {
            (0, 0)
        };
        assert((-aby) * apx == -(aby * apx)) by (nonlinear_arith);
        let m: (i64, i64) = scale_to(w.0, w.1, bound(radius, 0, LIMIT));
        (sat_add(px - n.0, m.0), sat_add(py - n.1, m.1))
    }
}

/// Whether every segment of `walls` is a proper segment of the world.
pub open spec fn all_wf(walls: Seq<Wall>) -> bool {
    forall|i: int| 0 <= i < walls.len() ==> (#[trigger] walls[i]).wf()
}

/// Whether `v` lies in the band.
pub fn within_band(v: i64) -> (b: bool)
    ensures
        b == in_band(v as int),
{
    -LIMIT <= v && v <= LIMIT
}

/// The dot product of two vectors whose coordinates span at most the band.
fn wide_dot(ax: i64, ay: i64, bx: i64, by: i64) -> (r: i128)
    requires
        -2 * LIMIT <= ax <= 2 * LIMIT,
        -2 * LIMIT <= ay <= 2 * LIMIT,
        -2 * LIMIT <= bx <= 2 * LIMIT,
        -2 * LIMIT <= by <= 2 * LIMIT,
    ensures
        r == dot(ax as int, ay as int, bx as int, by as int),
        -800_000_000_000_000_000_000 <= r <= 800_000_000_000_000_000_000,
{
    assert(-400_000_000_000_000_000_000 <= ax * bx <= 400_000_000_000_000_000_000)
        by (nonlinear_arith)
        requires
            -20_000_000_000 <= ax <= 20_000_000_000,
            -20_000_000_000 <= bx <= 20_000_000_000,
    ;
    assert(-400_000_000_000_000_000_000 <= ay * by <= 400_000_000_000_000_000_000)
        by (nonlinear_arith)
        requires
            -20_000_000_000 <= ay <= 20_000_000_000,
            -20_000_000_000 <= by <= 20_000_000_000,
    ;
    wide_mul(ax, bx) + wide_mul(ay, by)
}

/// `v * num / den`, rounded, for a proper fraction `num / den`.
fn scale_by(v: i64, num: i128, den: i128) -> (r: i128)
    requires
        -2 * LIMIT <= v <= 2 * LIMIT,
        0 < num < den <= 800_000_000_000_000_000_000,
    ensures
        r == round_div(v * num, den as int),
        v >= 0 ==> 0 <= r <= v,
        v <= 0 ==> v <= r <= 0,
{
    assert(-16_000_000_000_000_000_000_000_000_000_000 <= v * num
        <= 16_000_000_000_000_000_000_000_000_000_000) by (nonlinear_arith)
        requires
            -20_000_000_000 <= v <= 20_000_000_000,
            0 < num < 800_000_000_000_000_000_000,
    ;
    proof {
        lemma_scaled_between(v as int, num as int, den as int);
    }
    round_div_i128((v as i128) * num, den)
}

/// The length of a vector between two points of the band, rounded down.
fn long_hypot(dx: i64, dy: i64) -> (r: i64)
    requires
        -2 * LIMIT <= dx <= 2 * LIMIT,
        -2 * LIMIT <= dy <= 2 * LIMIT,
    ensures
        r == length(dx as int, dy as int),
        crate::fixed::is_floor_sqrt(dx * dx + dy * dy, r as int),
        0 <= r <= 3 * LIMIT,
{
    assert(0 <= dx * dx <= 400_000_000_000_000_000_000) by (nonlinear_arith)
        requires
            -20_000_000_000 <= dx <= 20_000_000_000,
    ;
    assert(0 <= dy * dy <= 400_000_000_000_000_000_000) by (nonlinear_arith)
        requires
            -20_000_000_000 <= dy <= 20_000_000_000,
    ;
    let xx: u128 = wide_mul(dx, dx) as u128;
    let yy: u128 = wide_mul(dy, dy) as u128;
    let root: u64 = crate::fixed::isqrt(xx + yy);
    assert(root <= 30_000_000_000) by (nonlinear_arith)
        requires
            root * root <= 800_000_000_000_000_000_000,
            root >= 0,
    ;
    root as i64
}

} // verus!
