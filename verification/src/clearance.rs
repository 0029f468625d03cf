use vstd::prelude::*;
use crate::fixed::{floor_sqrt, lemma_floor_sqrt_is, lemma_round_div_exact};
use crate::geometry::{
    closest_point, distance, dot, lemma_closest_point_between, lemma_closest_point_near_foot,
    normal_vector, point_in_band, push_direction, pushed_point, side, Wall, PUSH_TOLERANCE,
};
use crate::scale::{
    fine_length, lemma_floor_sqrt_exists, lemma_lagrange, lemma_less_by, lemma_more_by,
    lemma_scaled, lemma_small_combination, lemma_square_lt, lemma_square_mono, lemma_taxi,
    lemma_within_of_length, scaled, taxi, FINE, MAX_SCALED_LENGTH,
};

verus! {

/// Between the endpoints, the closest point is off the segment's line by
/// at most `|u| + |v|` halves of a unit, and off the place of the exact
/// foot along the line by as little; both measured in lengths of the
/// segment, `(u, v)` being the vector from its first to its second end.
pub proof fn lemma_foot(ax: int, ay: int, bx: int, by: int, px: int, py: int)
    requires
        0 < dot(px - ax, py - ay, bx - ax, by - ay) < dot(bx - ax, by - ay, bx - ax, by - ay),
    ensures
        ({
            let c = closest_point(ax, ay, bx, by, px, py);
            let u = bx - ax;
            let v = by - ay;
            let s1 = taxi(u, v);
            let along = dot(px - ax, py - ay, u, v);
            &&& -s1 <= 2 * (u * (c.1 - ay) - v * (c.0 - ax)) <= s1
            &&& -s1 <= 2 * ((c.0 - ax) * u + (c.1 - ay) * v - along) <= s1
        }),
{
    let c = closest_point(ax, ay, bx, by, px, py);
    let u = bx - ax;
    let v = by - ay;
    let s1 = taxi(u, v);
    let along = dot(px - ax, py - ay, u, v);
    let l = dot(u, v, u, v);
    let cx = c.0 - ax;
    let cy = c.1 - ay;
    lemma_closest_point_near_foot(ax, ay, bx, by, px, py);
    let ex = cx * l - u * along;
    let ey = cy * l - v * along;
    let g = u * cy - v * cx;
    let h = cx * u + cy * v - along;
    let cxl = cx * l;
    let cyl = cy * l;
    assert(g * l == u * cyl - v * cxl) by (nonlinear_arith)
        requires
            g == u * cy - v * cx,
            cxl == cx * l,
            cyl == cy * l,
    ;
    assert(u * cyl - v * cxl == u * ey - v * ex) by (nonlinear_arith)
        requires
            cxl == u * along + ex,
            cyl == v * along + ey,
    ;
    lemma_small_combination(ey, -ex, u, v, l);
    assert((-ex) * v == -(v * ex) && ey * u == u * ey) by (nonlinear_arith);
    assert(-s1 <= 2 * g <= s1) by (nonlinear_arith)
        requires
            -(l * s1) <= 2 * (g * l) <= l * s1,
            l > 0,
    ;
    assert(h * l == cxl * u + cyl * v - along * l) by (nonlinear_arith)
        requires
            h == cx * u + cy * v - along,
            cxl == cx * l,
            cyl == cy * l,
    ;
    assert(cxl * u + cyl * v - along * l == ex * u + ey * v) by (nonlinear_arith)
        requires
            cxl == u * along + ex,
            cyl == v * along + ey,
            l == u * u + v * v,
    ;
    lemma_small_combination(ex, ey, u, v, l);
    assert(-s1 <= 2 * h <= s1) by (nonlinear_arith)
        requires
            -(l * s1) <= 2 * (h * l) <= l * s1,
            l > 0,
    ;
}

/// How the vector from the closest point to `(qx, qy)` lies to the segment:
/// its part along the segment and its part across, both measured in lengths
/// of the segment.
pub proof fn lemma_measure(ax: int, ay: int, bx: int, by: int, qx: int, qy: int)
    requires
        ax != bx || ay != by,
    ensures
        ({
            let n = normal_vector(ax, ay, bx, by, qx, qy);
            let u = bx - ax;
            let v = by - ay;
            let s1 = taxi(u, v);
            let along = dot(qx - ax, qy - ay, u, v);
            let l = dot(u, v, u, v);
            let cross = side(ax, ay, bx, by, qx, qy);
            let a = n.0 * u + n.1 * v;
            let b = u * n.1 - v * n.0;
            &&& l >= 1
            &&& along <= 0 ==> a == along && b == cross
            &&& along > 0 && along >= l ==> a == along - l && b == cross
            &&& 0 < along < l ==> -s1 <= 2 * a <= s1 && -s1 <= 2 * (b - cross) <= s1
            &&& (n.0 * n.0 + n.1 * n.1) * l == a * a + b * b
        }),
{
    let n = normal_vector(ax, ay, bx, by, qx, qy);
    let c = closest_point(ax, ay, bx, by, qx, qy);
    let u = bx - ax;
    let v = by - ay;
    let along = dot(qx - ax, qy - ay, u, v);
    let l = dot(u, v, u, v);
    let cross = side(ax, ay, bx, by, qx, qy);
    let a = n.0 * u + n.1 * v;
    let b = u * n.1 - v * n.0;
    assert(l >= 1) by (nonlinear_arith)
        requires
            l == u * u + v * v,
            u != 0 || v != 0,
    ;
    lemma_lagrange(n.0, n.1, u, v);
    let t = n.0 * v - n.1 * u;
    assert(b * b == t * t) by (nonlinear_arith)
        requires
            b == u * n.1 - v * n.0,
            t == n.0 * v - n.1 * u,
    ;
    let qax = qx - ax;
    let qay = qy - ay;
    if along <= 0 {
        assert(b == cross) by (nonlinear_arith)
            requires
                b == u * qay - v * qax,
                cross == u * qay - v * qax,
        ;
    } else if along >= l {
        assert(a == along - l) by (nonlinear_arith)
            requires
                a == (qax - u) * u + (qay - v) * v,
                along == qax * u + qay * v,
                l == u * u + v * v,
        ;
        assert(b == cross) by (nonlinear_arith)
            requires
                b == u * (qay - v) - v * (qax - u),
                cross == u * qay - v * qax,
        ;
    } else {
        lemma_foot(ax, ay, bx, by, qx, qy);
        let cx = c.0 - ax;
        let cy = c.1 - ay;
        assert(a == along - (cx * u + cy * v)) by (nonlinear_arith)
            requires
                a == (qax - cx) * u + (qay - cy) * v,
                along == qax * u + qay * v,
        ;
        assert(b == cross - (u * cy - v * cx)) by (nonlinear_arith)
            requires
                b == u * (qay - cy) - v * (qax - cx),
                cross == u * qay - v * qax,
        ;
    }
}

/// A number that lies within `y` of `x` or of `-x` has a square between
/// those of `alpha - k` and `beta + k` lengths, where `x` is between `alpha`
/// and `beta` lengths and `y` at most `k` lengths; a length being the root
/// of `l`.
pub proof fn lemma_near(b2: int, x: int, y: int, alpha: int, beta: int, k: int, l: int)
    requires
        0 <= x,
        0 <= y,
        0 <= k <= alpha,
        0 <= beta,
        0 <= l,
        (alpha * alpha) * l <= x * x <= (beta * beta) * l,
        y * y <= (k * k) * l,
        (x - y <= b2 <= x + y) || (x - y <= -b2 <= x + y),
    ensures
        ((alpha - k) * (alpha - k)) * l <= b2 * b2 <= ((beta + k) * (beta + k)) * l,
{
    lemma_less_by(x, y, alpha, k, l);
    lemma_more_by(x, y, beta, k, l);
    let t = if x - y <= b2 <= x + y {
        b2
    } else {
        -b2
    };
    assert(t * t == b2 * b2) by (nonlinear_arith)
        requires
            t == b2 || t == -b2,
    ;
    lemma_square_mono(x - y, t);
    lemma_square_mono(t, x + y);
}

/// A vector whose part along a segment is at most `sqrt(2)` lengths and
/// whose part across is between `r - 5/2` and `r + 3` lengths is `r` long,
/// give or take three units, once its length is rounded down.
pub proof fn lemma_conclude(nn: int, a: int, b: int, l: int, r: int)
    requires
        l >= 1,
        r >= 3,
        nn * l == a * a + b * b,
        (2 * a) * (2 * a) <= 8 * l,
        ((2 * r - 5) * (2 * r - 5)) * l <= (2 * b) * (2 * b) <= ((2 * r + 6) * (2 * r + 6)) * l,
    ensures
        r - 3 <= floor_sqrt(nn) <= r + 3,
{
    let lo = (2 * r - 5) * (2 * r - 5);
    let hi = (2 * r + 6) * (2 * r + 6);
    let a2 = (2 * a) * (2 * a);
    let b2 = (2 * b) * (2 * b);
    assert(4 * (nn * l) == a2 + b2) by (nonlinear_arith)
        requires
            nn * l == a * a + b * b,
            a2 == (2 * a) * (2 * a),
            b2 == (2 * b) * (2 * b),
    ;
    assert(a2 >= 0) by (nonlinear_arith)
        requires
            a2 == (2 * a) * (2 * a),
    ;
    assert(4 * nn >= lo) by (nonlinear_arith)
        requires
            4 * (nn * l) >= lo * l,
            l >= 1,
    ;
    assert(4 * nn <= hi + 8) by (nonlinear_arith)
        requires
            4 * (nn * l) <= hi * l + 8 * l,
            l >= 1,
    ;
    assert(lo >= 0) by (nonlinear_arith)
        requires
            lo == (2 * r - 5) * (2 * r - 5),
    ;
    lemma_floor_sqrt_exists(nn);
    let d = floor_sqrt(nn);
    let d2 = 2 * d + 2;
    assert(d2 * d2 == 4 * ((d + 1) * (d + 1))) by (nonlinear_arith)
        requires
            d2 == 2 * d + 2,
    ;
    lemma_square_lt(2 * r - 5, d2);
    assert((2 * d) * (2 * d) == 4 * (d * d)) by (nonlinear_arith);
    assert(hi + 8 < (2 * r + 7) * (2 * r + 7)) by (nonlinear_arith)
        requires
            hi == (2 * r + 6) * (2 * r + 6),
            r >= 3,
    ;
    lemma_square_lt(2 * d, 2 * r + 7);
}

/// The square of a number between `-s` and `s` is at most the square of
/// `s`.
pub proof fn lemma_square_within(x: int, s: int)
    by (nonlinear_arith)
    requires
        -s <= x <= s,
    ensures
        x * x <= s * s,
{
}

/// Wall push-out from an endpoint: a point whose closest point of the
/// segment is an endpoint lies, once pushed out to `r`, within three units
/// of `r` from the segment.
pub proof fn lemma_pushed_from_end(ax: int, ay: int, bx: int, by: int, px: int, py: int, r: int)
    requires
        ax != bx || ay != by,
        dot(px - ax, py - ay, bx - ax, by - ay) <= 0 || dot(px - ax, py - ay, bx - ax, by - ay)
            >= dot(bx - ax, by - ay, bx - ax, by - ay),
        normal_vector(ax, ay, bx, by, px, py) != (0int, 0int),
        3 <= r <= MAX_SCALED_LENGTH,
    ensures
        ({
            let q = pushed_point(ax, ay, bx, by, px, py, r);
            r - 3 <= distance(ax, ay, bx, by, q.0, q.1) <= r + 3
        }),
{
    let u = bx - ax;
    let v = by - ay;
    let l = dot(u, v, u, v);
    let s1 = taxi(u, v);
    let along_p = dot(px - ax, py - ay, u, v);
    let c = closest_point(ax, ay, bx, by, px, py);
    let n = normal_vector(ax, ay, bx, by, px, py);
    assert(push_direction(ax, ay, bx, by, px, py) == n);
    let m = scaled(n.0, n.1, r);
    let q = pushed_point(ax, ay, bx, by, px, py, r);
    assert(q == (c.0 + m.0, c.1 + m.1));
    lemma_taxi(u, v);
    lemma_scaled(n.0, n.1, r);
    lemma_measure(ax, ay, bx, by, q.0, q.1);
    let f = fine_length(n.0, n.1);
    let g = FINE as int;
    let t0 = r * g;
    let mm = m.0 * m.0 + m.1 * m.1;
    let t = m.0 * u + m.1 * v;
    let xm = u * m.1 - v * m.0;
    let nab = n.0 * u + n.1 * v;
    let ex = m.0 * f - n.0 * t0;
    let ey = m.1 * f - n.1 * t0;
    lemma_small_combination(ex, ey, u, v, f);
    let mxf = m.0 * f;
    let myf = m.1 * f;
    assert(t * f == mxf * u + myf * v) by (nonlinear_arith)
        requires
            t == m.0 * u + m.1 * v,
            mxf == m.0 * f,
            myf == m.1 * f,
    ;
    assert(mxf * u + myf * v == t0 * nab + (ex * u + ey * v)) by (nonlinear_arith)
        requires
            mxf == n.0 * t0 + ex,
            myf == n.1 * t0 + ey,
            nab == n.0 * u + n.1 * v,
    ;
    assert(t0 >= 0) by (nonlinear_arith)
        requires
            t0 == r * g,
            r >= 0,
            g >= 0,
    ;
    let nq = normal_vector(ax, ay, bx, by, q.0, q.1);
    let nn = nq.0 * nq.0 + nq.1 * nq.1;
    let along_q = dot(q.0 - ax, q.1 - ay, u, v);
    let cross_q = side(ax, ay, bx, by, q.0, q.1);
    let a = nq.0 * u + nq.1 * v;
    let b = u * nq.1 - v * nq.0;
    let at_start = along_p <= 0;
    if at_start {
        assert(c == (ax, ay));
        assert(nab == along_p);
        assert(t0 * nab <= 0) by (nonlinear_arith)
            requires
                t0 >= 0,
                nab <= 0,
        ;
        assert(2 * t <= s1) by (nonlinear_arith)
            requires
                2 * (t * f) <= f * s1,
                f > 0,
        ;
        assert(along_q == t);
        assert(cross_q == xm);
    } else {
        assert(c == (bx, by));
        assert(nab == along_p - l) by (nonlinear_arith)
            requires
                nab == (px - ax - u) * u + (py - ay - v) * v,
                along_p == (px - ax) * u + (py - ay) * v,
                l == u * u + v * v,
        ;
        assert(t0 * nab >= 0) by (nonlinear_arith)
            requires
                t0 >= 0,
                nab >= 0,
        ;
        assert(2 * t >= -s1) by (nonlinear_arith)
            requires
                2 * (t * f) >= -(f * s1),
                f > 0,
        ;
        assert(along_q == l + t) by (nonlinear_arith)
            requires
                along_q == (u + m.0) * u + (v + m.1) * v,
                t == m.0 * u + m.1 * v,
                l == u * u + v * v,
        ;
        assert(cross_q == xm) by (nonlinear_arith)
            requires
                cross_q == u * (v + m.1) - v * (u + m.0),
                xm == u * m.1 - v * m.0,
        ;
    }
    if (at_start && t <= 0) || (!at_start && t >= 0) {
        assert(nq == m);
        lemma_within_of_length(mm, r);
    } else {
        assert(0 < along_q < l);
        assert(-s1 <= 2 * t <= s1);
        lemma_lagrange(m.0, m.1, u, v);
        let y = m.0 * v - m.1 * u;
        assert(y * y == xm * xm) by (nonlinear_arith)
            requires
                y == m.0 * v - m.1 * u,
                xm == u * m.1 - v * m.0,
        ;
        let x = if xm >= 0 {
            2 * xm
        } else {
            -(2 * xm)
        };
        assert(x * x == 4 * (xm * xm)) by (nonlinear_arith)
            requires
                x == 2 * xm || x == -(2 * xm),
        ;
        lemma_square_within(2 * t, s1);
        assert((2 * t) * (2 * t) == 4 * (t * t)) by (nonlinear_arith);
        assert(4 * (mm * l) == 4 * (t * t) + x * x);
        let lo = (2 * r - 2) * (2 * r - 2);
        let hi = (2 * r + 3) * (2 * r + 3);
        assert(lo == 4 * ((r - 1) * (r - 1))) by (nonlinear_arith)
            requires
                lo == (2 * r - 2) * (2 * r - 2),
        ;
        assert((4 * mm) * l >= lo * l && (4 * mm) * l <= (hi + 2) * l) by (nonlinear_arith)
            requires
                lo <= 4 * mm <= hi + 2,
                l >= 1,
        ;
        assert((4 * mm) * l == 4 * (mm * l)) by (nonlinear_arith);
        let alpha = 2 * r - 3;
        let beta = 2 * r + 4;
        assert((alpha * alpha) * l <= lo * l - 2 * l && (hi + 2) * l <= (beta * beta) * l)
            by (nonlinear_arith)
            requires
                alpha == 2 * r - 3,
                beta == 2 * r + 4,
                lo == (2 * r - 2) * (2 * r - 2),
                hi == (2 * r + 3) * (2 * r + 3),
                r >= 3,
                l >= 1,
        ;
        assert(l == u * u + v * v);
        assert(s1 * s1 <= 2 * l);
        assert(s1 * s1 <= (2 * 2) * l) by (nonlinear_arith)
            requires
                s1 * s1 <= 2 * l,
                l >= 0,
        ;
        assert(t * t >= 0) by (nonlinear_arith);
        assert((alpha * alpha) * l <= x * x);
        assert(x * x <= (beta * beta) * l);
        lemma_near(2 * b, x, s1, alpha, beta, 2, l);
        lemma_square_within(2 * a, s1);
        lemma_conclude(nn, a, b, l, r);
    }
}

/// Wall push-out from beside the segment: a point off the segment's line
/// whose closest point lies between the endpoints lies, once pushed out to
/// `r`, within three units of `r` from the segment, and on the side of the
/// segment on which it was.
pub proof fn lemma_pushed_from_inside(
    ax: int,
    ay: int,
    bx: int,
    by: int,
    px: int,
    py: int,
    r: int,
)
    requires
        0 < dot(px - ax, py - ay, bx - ax, by - ay) < dot(bx - ax, by - ay, bx - ax, by - ay),
        side(ax, ay, bx, by, px, py) != 0,
        3 <= r <= MAX_SCALED_LENGTH,
    ensures
        ({
            let q = pushed_point(ax, ay, bx, by, px, py, r);
            &&& r - 3 <= distance(ax, ay, bx, by, q.0, q.1) <= r + 3
            &&& side(ax, ay, bx, by, px, py) > 0 ==> side(ax, ay, bx, by, q.0, q.1) > 0
            &&& side(ax, ay, bx, by, px, py) < 0 ==> side(ax, ay, bx, by, q.0, q.1) < 0
        }),
{
    let u = bx - ax;
    let v = by - ay;
    let l = dot(u, v, u, v);
    let s1 = taxi(u, v);
    let along_p = dot(px - ax, py - ay, u, v);
    let cross_p = side(ax, ay, bx, by, px, py);
    let c = closest_point(ax, ay, bx, by, px, py);
    let cx = c.0 - ax;
    let cy = c.1 - ay;
    let w = push_direction(ax, ay, bx, by, px, py);
    let m = scaled(w.0, w.1, r);
    let q = pushed_point(ax, ay, bx, by, px, py, r);
    assert(q == (c.0 + m.0, c.1 + m.1));
    assert(l == u * u + v * v);
    assert(u != 0 || v != 0) by (nonlinear_arith)
        requires
            l == u * u + v * v,
            l > 0,
    ;
    assert(ax != bx || ay != by);
    lemma_taxi(u, v);
    lemma_foot(ax, ay, bx, by, px, py);
    let gp = u * cy - v * cx;
    let hp = cx * u + cy * v - along_p;
    assert(w.0 * w.0 + w.1 * w.1 == l) by (nonlinear_arith)
        requires
            (w.0 == -v && w.1 == u) || (w.0 == v && w.1 == -u),
            l == u * u + v * v,
    ;
    assert(taxi(w.0, w.1) == s1);
    lemma_scaled(w.0, w.1, r);
    lemma_measure(ax, ay, bx, by, q.0, q.1);
    let along_m = m.0 * w.0 + m.1 * w.1;
    let across_m = m.0 * w.1 - m.1 * w.0;
    let xm = u * m.1 - v * m.0;
    let t = m.0 * u + m.1 * v;
    if cross_p > 0 {
        assert(along_m == xm && across_m == t) by (nonlinear_arith)
            requires
                along_m == m.0 * (-v) + m.1 * u,
                across_m == m.0 * u - m.1 * (-v),
                xm == u * m.1 - v * m.0,
                t == m.0 * u + m.1 * v,
        ;
    } else {
        assert(along_m == -xm && across_m == -t) by (nonlinear_arith)
            requires
                along_m == m.0 * v + m.1 * (-u),
                across_m == m.0 * (-u) - m.1 * v,
                xm == u * m.1 - v * m.0,
                t == m.0 * u + m.1 * v,
        ;
    }
    let nq = normal_vector(ax, ay, bx, by, q.0, q.1);
    let nn = nq.0 * nq.0 + nq.1 * nq.1;
    let along_q = dot(q.0 - ax, q.1 - ay, u, v);
    let cross_q = side(ax, ay, bx, by, q.0, q.1);
    let a = nq.0 * u + nq.1 * v;
    let b = u * nq.1 - v * nq.0;
    assert(along_q == along_p + hp + t) by (nonlinear_arith)
        requires
            along_q == (cx + m.0) * u + (cy + m.1) * v,
            hp == cx * u + cy * v - along_p,
            t == m.0 * u + m.1 * v,
    ;
    assert(cross_q == gp + xm) by (nonlinear_arith)
        requires
            cross_q == u * (cy + m.1) - v * (cx + m.0),
            gp == u * cy - v * cx,
            xm == u * m.1 - v * m.0,
    ;
    let x = 2 * along_m;
    let y = 2 * s1;
    let alpha = 2 * r - 2;
    let beta = 2 * r + 3;
    assert(s1 * s1 <= 2 * l);
    assert(y * y <= (3 * 3) * l) by (nonlinear_arith)
        requires
            y == 2 * s1,
            s1 * s1 <= 2 * l,
            l >= 0,
    ;
    assert((x - y <= 2 * b <= x + y) || (x - y <= -(2 * b) <= x + y));
    lemma_near(2 * b, x, y, alpha, beta, 3, l);
    assert(alpha - 3 == 2 * r - 5 && beta + 3 == 2 * r + 6);
    assert(-y <= 2 * a <= y);
    lemma_square_within(2 * a, y);
    assert(y * y <= 8 * l) by (nonlinear_arith)
        requires
            y == 2 * s1,
            s1 * s1 <= 2 * l,
    ;
    lemma_conclude(nn, a, b, l, r);
    // The side.
    assert(s1 * s1 <= (2 * 2) * l) by (nonlinear_arith)
        requires
            s1 * s1 <= 2 * l,
            l >= 0,
    ;
    lemma_less_by(x, s1, alpha, 2, l);
    let rest = x - s1;
    assert(((alpha - 2) * (alpha - 2)) * l > 0) by (nonlinear_arith)
        requires
            alpha - 2 >= 2,
            l >= 1,
    ;
    assert(rest != 0) by (nonlinear_arith)
        requires
            rest * rest > 0,
    ;
}

/// A point on the line of the segment, between its endpoints, is its own
/// closest point.
pub proof fn lemma_on_the_line(ax: int, ay: int, bx: int, by: int, px: int, py: int)
    requires
        0 < dot(px - ax, py - ay, bx - ax, by - ay) < dot(bx - ax, by - ay, bx - ax, by - ay),
        side(ax, ay, bx, by, px, py) == 0,
    ensures
        closest_point(ax, ay, bx, by, px, py) == (px, py),
{
    let u = bx - ax;
    let v = by - ay;
    let l = dot(u, v, u, v);
    let along = dot(px - ax, py - ay, u, v);
    let rx = px - ax;
    let ry = py - ay;
    assert(u * along == rx * l) by (nonlinear_arith)
        requires
            along == rx * u + ry * v,
            l == u * u + v * v,
            u * ry - v * rx == 0,
    ;
    assert(v * along == ry * l) by (nonlinear_arith)
        requires
            along == rx * u + ry * v,
            l == u * u + v * v,
            u * ry - v * rx == 0,
    ;
    lemma_round_div_exact(rx, l);
    lemma_round_div_exact(ry, l);
}

/// Wall push-out: a point off a segment lies, once pushed out to `r`,
/// within three units of `r` from the segment.
pub proof fn lemma_pushed_distance(ax: int, ay: int, bx: int, by: int, px: int, py: int, r: int)
    requires
        ax != bx || ay != by,
        distance(ax, ay, bx, by, px, py) > 0,
        3 <= r <= MAX_SCALED_LENGTH,
    ensures
        ({
            let q = pushed_point(ax, ay, bx, by, px, py, r);
            r - 3 <= distance(ax, ay, bx, by, q.0, q.1) <= r + 3
        }),
        push_direction(ax, ay, bx, by, px, py) != (0int, 0int),
{
    let n = normal_vector(ax, ay, bx, by, px, py);
    if n == (0int, 0int) {
        assert(0int * 0int + 0int * 0int == 0int);
        lemma_floor_sqrt_is(0, 0);
        assert(false);
    }
    let along = dot(px - ax, py - ay, bx - ax, by - ay);
    let l = dot(bx - ax, by - ay, bx - ax, by - ay);
    if along <= 0 || along >= l {
        lemma_pushed_from_end(ax, ay, bx, by, px, py, r);
    } else {
        if side(ax, ay, bx, by, px, py) == 0 {
            lemma_on_the_line(ax, ay, bx, by, px, py);
            assert(false);
        }
        lemma_pushed_from_inside(ax, ay, bx, by, px, py, r);
    }
}

/// Wall push-out: a point of the band that is off a wall lies, once pushed
/// out to `radius`, within `PUSH_TOLERANCE` units of `radius` from the
/// wall, wherever the wall keeps `radius` and two units from the edge of
/// the band.
pub proof fn lemma_push_out_clearance(wall: Wall, p: (i64, i64), radius: i64)
    requires
        wall.wf(),
        point_in_band(p),
        wall.spec_distance(p) > 0,
        PUSH_TOLERANCE <= radius <= MAX_SCALED_LENGTH,
        wall.clear_of_edge(radius),
    ensures
        radius - PUSH_TOLERANCE <= wall.spec_distance(wall.spec_push_out(p, radius)) <= radius
            + PUSH_TOLERANCE,
{
    let ax = wall.start().0 as int;
    let ay = wall.start().1 as int;
    let bx = wall.end().0 as int;
    let by = wall.end().1 as int;
    lemma_pushed_distance(ax, ay, bx, by, p.0 as int, p.1 as int, radius as int);
    lemma_closest_point_between(ax, ay, bx, by, p.0 as int, p.1 as int);
    let w = push_direction(ax, ay, bx, by, p.0 as int, p.1 as int);
    lemma_scaled(w.0, w.1, radius as int);
}

} // verus!
