use vstd::prelude::*;
use crate::fixed::{
    floor_sqrt, is_floor_sqrt, isqrt, lemma_floor_sqrt_is, lemma_round_div_error,
    lemma_round_div_exact, round_div, round_div_i128, saturate, saturate_i128, wide_mul, LIMIT,
};

verus! {

/// The grain of a fine length: a length is measured in this many parts of a
/// unit before a vector is divided by it.
pub const FINE: i64 = 268_435_456;

/// The longest length that a vector is brought to within the stated
/// tolerance: half the grain.
pub const MAX_SCALED_LENGTH: i64 = 134_217_728;

/// The length of the vector `(wx, wy)` in parts of a unit, rounded down.
pub open spec fn fine_length(wx: int, wy: int) -> int {
    floor_sqrt((wx * wx + wy * wy) * (FINE * FINE))
}

/// The vector `(wx, wy)` brought to the length `r`: each coordinate times
/// `r` over the fine length of the vector, rounded to whole units. The zero
/// vector stays as it is.
pub open spec fn scaled(wx: int, wy: int, r: int) -> (int, int) {
    if wx == 0 && wy == 0 {
        (0, 0)
    } else {
        (
            round_div(wx * (r * FINE), fine_length(wx, wy)),
            round_div(wy * (r * FINE), fine_length(wx, wy)),
        )
    }
}

/// The sum of the magnitudes of the coordinates of `(wx, wy)`.
pub open spec fn taxi(wx: int, wy: int) -> int {
    (if wx < 0 {
        -wx
    } else {
        wx
    }) + (if wy < 0 {
        -wy
    } else {
        wy
    })
}

/// Every number that is not negative has an integer square root.
pub proof fn lemma_floor_sqrt_exists(n: int)
    requires
        n >= 0,
    ensures
        is_floor_sqrt(n, floor_sqrt(n)),
    decreases n,
{
    if n == 0 {
        assert(is_floor_sqrt(0, 0));
        lemma_floor_sqrt_is(0, 0);
    } else {
        lemma_floor_sqrt_exists(n - 1);
        let r = floor_sqrt(n - 1);
        if (r + 1) * (r + 1) <= n {
            assert((r + 1) * (r + 1) == n);
            assert(n < (r + 2) * (r + 2)) by (nonlinear_arith)
                requires
                    n == (r + 1) * (r + 1),
                    r >= 0,
            ;
            assert(is_floor_sqrt(n, r + 1));
            lemma_floor_sqrt_is(n, r + 1);
        } else {
            assert(is_floor_sqrt(n, r));
            lemma_floor_sqrt_is(n, r);
        }
    }
}

/// A number whose square is at most another square is at most its root.
pub proof fn lemma_square_le(x: int, y: int)
    by (nonlinear_arith)
    requires
        0 <= y,
        x * x <= y * y,
    ensures
        x <= y,
{
}

/// A number whose square is below another square is below its root.
pub proof fn lemma_square_lt(x: int, y: int)
    by (nonlinear_arith)
    requires
        0 <= y,
        x * x < y * y,
    ensures
        x < y,
{
}

/// Squares keep the order of numbers that are not negative.
pub proof fn lemma_square_mono(x: int, y: int)
    by (nonlinear_arith)
    requires
        0 <= x <= y,
    ensures
        x * x <= y * y,
{
}

/// The sum of the magnitudes of the coordinates of a vector is at most the
/// square of its length, and its square at most twice that.
pub proof fn lemma_taxi(wx: int, wy: int)
    ensures
        0 <= taxi(wx, wy) <= wx * wx + wy * wy,
        taxi(wx, wy) * taxi(wx, wy) <= 2 * (wx * wx + wy * wy),
{
    let a = if wx < 0 {
        -wx
    } else {
        wx
    };
    let b = if wy < 0 {
        -wy
    } else {
        wy
    };
    assert(a * a == wx * wx && a <= a * a) by (nonlinear_arith)
        requires
            a == wx || a == -wx,
            a >= 0,
    ;
    assert(b * b == wy * wy && b <= b * b) by (nonlinear_arith)
        requires
            b == wy || b == -wy,
            b >= 0,
    ;
    assert((a + b) * (a + b) <= 2 * (a * a + b * b)) by (nonlinear_arith);
}

/// Twice a sum of two products, each of a small factor, is small: where
/// `2 |ex| <= e` and `2 |ey| <= e`, then `2 |ex u + ey v| <= e (|u| + |v|)`.
pub proof fn lemma_small_combination(ex: int, ey: int, u: int, v: int, e: int)
    requires
        -e <= 2 * ex <= e,
        -e <= 2 * ey <= e,
    ensures
        -(e * taxi(u, v)) <= 2 * (ex * u + ey * v) <= e * taxi(u, v),
{
    let a = if u < 0 {
        -u
    } else {
        u
    };
    let b = if v < 0 {
        -v
    } else {
        v
    };
    assert(-(e * a) <= 2 * (ex * u) <= e * a) by (nonlinear_arith)
        requires
            -e <= 2 * ex <= e,
            a == u || a == -u,
            a >= 0,
    ;
    assert(-(e * b) <= 2 * (ey * v) <= e * b) by (nonlinear_arith)
        requires
            -e <= 2 * ey <= e,
            b == v || b == -v,
            b >= 0,
    ;
    assert(e * (a + b) == e * a + e * b) by (nonlinear_arith);
}

/// The square of the length of a vector times that of another is the
/// square of their dot product plus the square of their cross product.
pub proof fn lemma_lagrange(x: int, y: int, u: int, v: int)
    ensures
        (x * x + y * y) * (u * u + v * v) == (x * u + y * v) * (x * u + y * v) + (x * v - y * u) * (
        x * v - y * u),
{
    let a = x * u;
    let b = y * v;
    let c = x * v;
    let d = y * u;
    let xx = x * x;
    let yy = y * y;
    let uu = u * u;
    let vv = v * v;
    assert(xx * uu == a * a) by (nonlinear_arith)
        requires
            xx == x * x,
            uu == u * u,
            a == x * u,
    ;
    assert(yy * vv == b * b) by (nonlinear_arith)
        requires
            yy == y * y,
            vv == v * v,
            b == y * v,
    ;
    assert(xx * vv == c * c) by (nonlinear_arith)
        requires
            xx == x * x,
            vv == v * v,
            c == x * v,
    ;
    assert(yy * uu == d * d) by (nonlinear_arith)
        requires
            yy == y * y,
            uu == u * u,
            d == y * u,
    ;
    assert(a * b == c * d) by (nonlinear_arith)
        requires
            a == x * u,
            b == y * v,
            c == x * v,
            d == y * u,
    ;
    assert((xx + yy) * (uu + vv) == xx * uu + xx * vv + yy * uu + yy * vv) by (nonlinear_arith);
    assert((a + b) * (a + b) == a * a + 2 * (a * b) + b * b) by (nonlinear_arith);
    assert((c - d) * (c - d) == c * c - 2 * (c * d) + d * d) by (nonlinear_arith);
}

/// The sum of a vector at most `a` long and a vector at most `b` long is at
/// most `a + b` long.
pub proof fn lemma_sum_of_vectors(vx: int, vy: int, ex: int, ey: int, a: int, b: int)
    requires
        0 <= a,
        0 <= b,
        vx * vx + vy * vy <= a * a,
        ex * ex + ey * ey <= b * b,
    ensures
        (vx + ex) * (vx + ex) + (vy + ey) * (vy + ey) <= (a + b) * (a + b),
{
    lemma_lagrange(vx, vy, ex, ey);
    let vv = vx * vx + vy * vy;
    let ee = ex * ex + ey * ey;
    let d = vx * ex + vy * ey;
    let c = vx * ey - vy * ex;
    let ab = a * b;
    assert(vv >= 0 && ee >= 0 && c * c >= 0) by (nonlinear_arith)
        requires
            vv == vx * vx + vy * vy,
            ee == ex * ex + ey * ey,
    ;
    assert(vv * ee <= (a * a) * (b * b)) by (nonlinear_arith)
        requires
            0 <= vv <= a * a,
            0 <= ee <= b * b,
    ;
    assert(ab * ab == (a * a) * (b * b) && ab >= 0) by (nonlinear_arith)
        requires
            ab == a * b,
            a >= 0,
            b >= 0,
    ;
    lemma_square_le(d, ab);
    assert((vx + ex) * (vx + ex) + (vy + ey) * (vy + ey) == vv + 2 * d + ee) by (nonlinear_arith)
        requires
            vv == vx * vx + vy * vy,
            ee == ex * ex + ey * ey,
            d == vx * ex + vy * ey,
    ;
    assert((a + b) * (a + b) == a * a + 2 * ab + b * b) by (nonlinear_arith)
        requires
            ab == a * b,
    ;
}

/// Where `z` is at least `a` lengths and `y` at most `k` lengths, `z - y`
/// is at least `a - k` lengths; a length being the root of `l`.
pub proof fn lemma_less_by(z: int, y: int, a: int, k: int, l: int)
    requires
        0 <= z,
        0 <= y,
        0 <= k <= a,
        0 <= l,
        z * z >= (a * a) * l,
        y * y <= (k * k) * l,
    ensures
        z - y >= 0,
        (z - y) * (z - y) >= ((a - k) * (a - k)) * l,
{
    let x = z - y;
    let g = a - k;
    if x < 0 || x * x < (g * g) * l {
        if x < 0 {
            assert(z * z < y * y) by (nonlinear_arith)
                requires
                    0 <= z < y,
            ;
            assert((k * k) * l <= (a * a) * l) by (nonlinear_arith)
                requires
                    0 <= k <= a,
                    0 <= l,
            ;
            assert(false);
        } else {
            assert(l > 0 && g > 0) by (nonlinear_arith)
                requires
                    x * x < (g * g) * l,
                    l >= 0,
                    g >= 0,
            ;
            let p = x * y;
            let c = g * k * l;
            assert(p * p == (x * x) * (y * y)) by (nonlinear_arith)
                requires
                    p == x * y,
            ;
            assert(c * c == ((g * g) * l) * ((k * k) * l)) by (nonlinear_arith)
                requires
                    c == g * k * l,
            ;
            let xx = x * x;
            let yy = y * y;
            let gg = (g * g) * l;
            let kk = (k * k) * l;
            assert(xx * yy <= gg * kk) by (nonlinear_arith)
                requires
                    0 <= xx <= gg,
                    0 <= yy <= kk,
            ;
            assert(c >= 0) by (nonlinear_arith)
                requires
                    c == g * k * l,
                    g >= 0,
                    k >= 0,
                    l >= 0,
            ;
            lemma_square_le(p, c);
            assert(z * z == xx + 2 * p + yy) by (nonlinear_arith)
                requires
                    z == x + y,
                    xx == x * x,
                    yy == y * y,
                    p == x * y,
            ;
            assert((a * a) * l == gg + 2 * c + kk) by (nonlinear_arith)
                requires
                    a == g + k,
                    gg == (g * g) * l,
                    kk == (k * k) * l,
                    c == g * k * l,
            ;
            assert(false);
        }
    }
}

/// Where `z` is at most `a` lengths and `y` at most `k` lengths, `z + y`
/// is at most `a + k` lengths; a length being the root of `l`.
pub proof fn lemma_more_by(z: int, y: int, a: int, k: int, l: int)
    requires
        0 <= z,
        0 <= y,
        0 <= k,
        0 <= a,
        0 <= l,
        z * z <= (a * a) * l,
        y * y <= (k * k) * l,
    ensures
        (z + y) * (z + y) <= ((a + k) * (a + k)) * l,
{
    let p = z * y;
    let c = a * k * l;
    let zz = z * z;
    let yy = y * y;
    let aa = (a * a) * l;
    let kk = (k * k) * l;
    assert(p * p == zz * yy) by (nonlinear_arith)
        requires
            p == z * y,
            zz == z * z,
            yy == y * y,
    ;
    assert(c * c == aa * kk) by (nonlinear_arith)
        requires
            c == a * k * l,
            aa == (a * a) * l,
            kk == (k * k) * l,
    ;
    assert(zz >= 0 && yy >= 0) by (nonlinear_arith)
        requires
            zz == z * z,
            yy == y * y,
    ;
    assert(zz * yy <= aa * kk) by (nonlinear_arith)
        requires
            0 <= zz <= aa,
            0 <= yy <= kk,
    ;
    assert(c >= 0) by (nonlinear_arith)
        requires
            c == a * k * l,
            a >= 0,
            k >= 0,
            l >= 0,
    ;
    lemma_square_le(p, c);
    assert((z + y) * (z + y) == zz + 2 * p + yy) by (nonlinear_arith)
        requires
            zz == z * z,
            yy == y * y,
            p == z * y,
    ;
    assert(((a + k) * (a + k)) * l == aa + 2 * c + kk) by (nonlinear_arith)
        requires
            aa == (a * a) * l,
            kk == (k * k) * l,
            c == a * k * l,
    ;
}

/// Where `z f >= r g w` and the fine length `f` is at most `g` lengths,
/// `z` is at least `r` lengths; a length being the root of `w`.
pub proof fn lemma_at_least(z: int, f: int, g: int, w: int, r: int)
    requires
        f > 0,
        g > 0,
        w > 0,
        r >= 0,
        f * f <= w * (g * g),
        z * f >= r * g * w,
    ensures
        z >= 0,
        z * z >= (r * r) * w,
{
    let t = r * g * w;
    assert(t >= 0) by (nonlinear_arith)
        requires
            t == r * g * w,
            r >= 0,
            g > 0,
            w > 0,
    ;
    assert(z >= 0) by (nonlinear_arith)
        requires
            z * f >= 0,
            f > 0,
    ;
    let zf = z * f;
    lemma_square_mono(t, zf);
    let zz = z * z;
    let ff = f * f;
    let gg = g * g;
    assert(zf * zf == zz * ff) by (nonlinear_arith)
        requires
            zf == z * f,
            zz == z * z,
            ff == f * f,
    ;
    assert(t * t == ((r * r) * w) * (w * gg)) by (nonlinear_arith)
        requires
            t == r * g * w,
            gg == g * g,
    ;
    let wg = w * gg;
    assert(wg > 0) by (nonlinear_arith)
        requires
            wg == w * gg,
            gg == g * g,
            w > 0,
            g > 0,
    ;
    assert(zz >= 0) by (nonlinear_arith)
        requires
            zz == z * z,
    ;
    assert(zz * ff <= zz * wg) by (nonlinear_arith)
        requires
            zz >= 0,
            ff <= wg,
    ;
    let rr = (r * r) * w;
    assert(zz >= rr) by (nonlinear_arith)
        requires
            rr * wg <= zz * wg,
            wg > 0,
    ;
}

/// Where `z f <= r g w`, the fine length `f` is more than `g` lengths less
/// one, and `f >= r`, then `z` is at most `r + 1` lengths; a length being
/// the root of `w`.
pub proof fn lemma_at_most(z: int, f: int, g: int, w: int, r: int)
    requires
        f > 0,
        g > 0,
        w > 0,
        0 <= r <= f,
        w * (g * g) < (f + 1) * (f + 1),
        z * f <= r * g * w,
    ensures
        z <= 0 || z * z <= ((r + 1) * (r + 1)) * w,
{
    if z > 0 {
        let t = r * g * w;
        let zf = z * f;
        assert(zf > 0) by (nonlinear_arith)
            requires
                zf == z * f,
                z > 0,
                f > 0,
        ;
        lemma_square_mono(zf, t);
        let zz = z * z;
        let ff = f * f;
        let gg = g * g;
        let wg = w * gg;
        assert(zf * zf == zz * ff) by (nonlinear_arith)
            requires
                zf == z * f,
                zz == z * z,
                ff == f * f,
        ;
        assert(t * t == ((r * r) * w) * wg) by (nonlinear_arith)
            requires
                t == r * g * w,
                wg == w * gg,
                gg == g * g,
        ;
        // (r + 1) f >= r (f + 1), so (r + 1)^2 f^2 >= r^2 (f + 1)^2 >= r^2 w g^2.
        let a = (r + 1) * f;
        let b = r * (f + 1);
        assert(0 <= b <= a) by (nonlinear_arith)
            requires
                a == (r + 1) * f,
                b == r * (f + 1),
                0 <= r <= f,
        ;
        lemma_square_mono(b, a);
        let r1 = (r + 1) * (r + 1);
        let f1 = (f + 1) * (f + 1);
        assert(a * a == r1 * ff) by (nonlinear_arith)
            requires
                a == (r + 1) * f,
                r1 == (r + 1) * (r + 1),
                ff == f * f,
        ;
        assert(b * b == (r * r) * f1) by (nonlinear_arith)
            requires
                b == r * (f + 1),
                f1 == (f + 1) * (f + 1),
        ;
        let rr = r * r;
        assert(rr >= 0) by (nonlinear_arith)
            requires
                rr == r * r,
        ;
        assert(rr * wg <= rr * f1) by (nonlinear_arith)
            requires
                rr >= 0,
                wg <= f1,
        ;
        // zz ff <= rr w wg <= r1 ff w
        assert((rr * w) * wg == (rr * wg) * w) by (nonlinear_arith);
        assert((rr * wg) * w <= (r1 * ff) * w) by (nonlinear_arith)
            requires
                rr * wg <= r1 * ff,
                w > 0,
        ;
        assert((r1 * ff) * w == (r1 * w) * ff) by (nonlinear_arith);
        assert(ff > 0) by (nonlinear_arith)
            requires
                ff == f * f,
                f > 0,
        ;
        let bound = r1 * w;
        assert(zz <= bound) by (nonlinear_arith)
            requires
                zz * ff <= bound * ff,
                ff > 0,
        ;
    }
}

/// A coordinate of a vector that was brought to the length `r` is at most
/// `r` long.
proof fn lemma_coordinate(wx: int, wy: int, r: int, f: int)
    requires
        r >= 0,
        f > 0,
        is_floor_sqrt((wx * wx + wy * wy) * (FINE * FINE), f),
    ensures
        -r <= round_div(wx * (r * FINE), f) <= r,
{
    let g = FINE as int;
    let a = if wx < 0 {
        -wx
    } else {
        wx
    };
    let ag = a * g;
    assert(ag >= 0 && ag * ag == (wx * wx) * (g * g)) by (nonlinear_arith)
        requires
            ag == a * g,
            a == wx || a == -wx,
            a >= 0,
            g > 0,
    ;
    assert((wx * wx) * (g * g) <= (wx * wx + wy * wy) * (g * g)) by (nonlinear_arith);
    lemma_square_lt(ag, f + 1);
    let n = wx * (r * g);
    let rag = r * ag;
    assert(n == rag || n == -rag) by (nonlinear_arith)
        requires
            n == wx * (r * g),
            rag == r * ag,
            ag == a * g,
            a == wx || a == -wx,
    ;
    assert(0 <= rag <= r * f) by (nonlinear_arith)
        requires
            rag == r * ag,
            0 <= ag <= f,
            r >= 0,
    ;
    crate::fixed::lemma_round_div_bound(n, f, r);
}

/// The rounded quotient of the opposite number is the opposite of the
/// rounded quotient.
pub proof fn lemma_round_div_odd(n: int, d: int)
    requires
        d > 0,
    ensures
        round_div(-n, d) == -round_div(n, d),
{
    if n == 0 {
        crate::fixed::lemma_round_div_sign(0, d);
    }
}

/// The opposite vector, brought to a length, is the opposite of the vector
/// brought to that length.
pub proof fn lemma_scaled_opposite(wx: int, wy: int, r: int)
    ensures
        scaled(-wx, -wy, r) == (-scaled(wx, wy, r).0, -scaled(wx, wy, r).1),
{
    if wx != 0 || wy != 0 {
        assert((-wx) * (-wx) == wx * wx && (-wy) * (-wy) == wy * wy) by (nonlinear_arith);
        assert(fine_length(-wx, -wy) == fine_length(wx, wy));
        let f = fine_length(wx, wy);
        let w = wx * wx + wy * wy;
        let n = w * (FINE * FINE);
        assert(n >= 1) by (nonlinear_arith)
            requires
                n == w * (FINE * FINE),
                w == wx * wx + wy * wy,
                wx != 0 || wy != 0,
                FINE == 268_435_456,
        ;
        lemma_floor_sqrt_exists(n);
        assert(f > 0);
        let t = r * FINE;
        lemma_round_div_odd(wx * t, f);
        lemma_round_div_odd(wy * t, f);
        assert((-wx) * t == -(wx * t) && (-wy) * t == -(wy * t)) by (nonlinear_arith);
    }
}

/// A vector along an axis, brought to a length, has that length exactly.
pub proof fn lemma_scaled_axis(w: int, r: int)
    requires
        w != 0,
    ensures
        scaled(w, 0, r) == if w > 0 {
            (r, 0int)
        } else {
            (-r, 0int)
        },
        scaled(0, w, r) == if w > 0 {
            (0int, r)
        } else {
            (0int, -r)
        },
{
    let g = FINE as int;
    let a = if w < 0 {
        -w
    } else {
        w
    };
    let ag = a * g;
    assert(ag > 0 && ag * ag == (w * w + 0 * 0) * (g * g) && ag * ag == (0 * 0 + w * w) * (g * g))
        by (nonlinear_arith)
        requires
            ag == a * g,
            a == w || a == -w,
            a > 0,
            g > 0,
    ;
    crate::fixed::lemma_floor_sqrt_square(ag);
    let t = r * g;
    let q = if w > 0 {
        r
    } else {
        -r
    };
    assert(w * t == q * ag) by (nonlinear_arith)
        requires
            t == r * g,
            ag == a * g,
            (w > 0 && q == r && a == w) || (w < 0 && q == -r && a == -w),
    ;
    lemma_round_div_exact(q, ag);
    assert(0 * t == 0);
    crate::fixed::lemma_round_div_sign(0, ag);
}

/// What is known of a vector that was brought to a length. Let `m` be the
/// vector `(wx, wy)`, not zero, brought to the length `r`. Then `m` differs
/// from the exact quotient by at most half a unit in each coordinate; its
/// part along `(wx, wy)` is between `r - 1` and `r + 3/2` long; its part
/// across is at most `|wx| + |wy|` halves of a unit, measured in lengths of
/// `(wx, wy)`; `m` itself is between `r - 1` and `r + 2` long; and no
/// coordinate of `m` is longer than `r`.
pub proof fn lemma_scaled(wx: int, wy: int, r: int)
    requires
        wx != 0 || wy != 0,
        1 <= r <= MAX_SCALED_LENGTH,
    ensures
        ({
            let m = scaled(wx, wy, r);
            let f = fine_length(wx, wy);
            let w = wx * wx + wy * wy;
            let along = m.0 * wx + m.1 * wy;
            let across = m.0 * wy - m.1 * wx;
            &&& f >= FINE
            &&& is_floor_sqrt(w * (FINE * FINE), f)
            &&& -f <= 2 * (m.0 * f - wx * (r * FINE)) <= f
            &&& -f <= 2 * (m.1 * f - wy * (r * FINE)) <= f
            &&& along >= 0
            &&& ((2 * r - 2) * (2 * r - 2)) * w <= (2 * along) * (2 * along) <= ((2 * r + 3) * (2
                * r + 3)) * w
            &&& -taxi(wx, wy) <= 2 * across <= taxi(wx, wy)
            &&& (r - 1) * (r - 1) <= m.0 * m.0 + m.1 * m.1
            &&& 4 * (m.0 * m.0 + m.1 * m.1) <= (2 * r + 3) * (2 * r + 3) + 2
            &&& -r <= m.0 <= r
            &&& -r <= m.1 <= r
        }),
{
    let m = scaled(wx, wy, r);
    let w = wx * wx + wy * wy;
    let g = FINE as int;
    let gg = g * g;
    let t = r * g;
    let s = taxi(wx, wy);
    lemma_taxi(wx, wy);
    assert(w >= 1) by (nonlinear_arith)
        requires
            w == wx * wx + wy * wy,
            wx != 0 || wy != 0,
    ;
    assert(gg == 72_057_594_037_927_936) by (nonlinear_arith)
        requires
            gg == g * g,
            g == 268_435_456,
    ;
    let n = w * gg;
    assert(n >= gg) by (nonlinear_arith)
        requires
            n == w * gg,
            w >= 1,
            gg >= 0,
    ;
    lemma_floor_sqrt_exists(n);
    let f = fine_length(wx, wy);
    assert(f == floor_sqrt(n));
    if f < g {
        lemma_square_mono(f + 1, g);
        assert(false);
    }
    lemma_round_div_error(wx * t, f);
    lemma_round_div_error(wy * t, f);
    let ex = m.0 * f - wx * t;
    let ey = m.1 * f - wy * t;
    let along = m.0 * wx + m.1 * wy;
    let across = m.0 * wy - m.1 * wx;
    // The part along.
    lemma_small_combination(ex, ey, wx, wy, f);
    let slack = ex * wx + ey * wy;
    let mxf = m.0 * f;
    let myf = m.1 * f;
    assert((m.0 * wx) * f == mxf * wx) by (nonlinear_arith)
        requires
            mxf == m.0 * f,
    ;
    assert((m.1 * wy) * f == myf * wy) by (nonlinear_arith)
        requires
            myf == m.1 * f,
    ;
    assert(mxf * wx == (wx * wx) * t + ex * wx) by (nonlinear_arith)
        requires
            mxf == wx * t + ex,
    ;
    assert(myf * wy == (wy * wy) * t + ey * wy) by (nonlinear_arith)
        requires
            myf == wy * t + ey,
    ;
    assert(along * f == (m.0 * wx) * f + (m.1 * wy) * f) by (nonlinear_arith)
        requires
            along == m.0 * wx + m.1 * wy,
    ;
    assert(t * w == (wx * wx) * t + (wy * wy) * t) by (nonlinear_arith)
        requires
            w == wx * wx + wy * wy,
    ;
    assert(along * f == t * w + slack);
    let fs = f * s;
    let z1 = 2 * along + s;
    let z2 = 2 * along - s;
    assert(z1 * f == 2 * (along * f) + fs && z2 * f == 2 * (along * f) - fs) by (nonlinear_arith)
        requires
            z1 == 2 * along + s,
            z2 == 2 * along - s,
            fs == f * s,
    ;
    assert((2 * r) * g * w == 2 * (t * w)) by (nonlinear_arith)
        requires
            t == r * g,
    ;
    assert(f * f <= w * (g * g) < (f + 1) * (f + 1));
    lemma_at_least(z1, f, g, w, 2 * r);
    lemma_at_most(z2, f, g, w, 2 * r);
    assert(s * s <= (2 * 2) * w) by (nonlinear_arith)
        requires
            s * s <= 2 * w,
            w >= 0,
    ;
    lemma_less_by(z1, s, 2 * r, 2, w);
    assert(z1 - s == 2 * along);
    if z2 <= 0 {
        lemma_square_mono(2 * along, s);
        assert(2 * w <= ((2 * r + 3) * (2 * r + 3)) * w) by (nonlinear_arith)
            requires
                w >= 1,
                r >= 1,
        ;
    } else {
        lemma_more_by(z2, s, 2 * r + 1, 2, w);
        assert(z2 + s == 2 * along);
        assert(2 * r + 1 + 2 == 2 * r + 3);
    }
    // The part across.
    lemma_small_combination(ex, -ey, wy, wx, f);
    assert(taxi(wy, wx) == s);
    let drift = ex * wy + (-ey) * wx;
    assert((m.0 * wy) * f == mxf * wy) by (nonlinear_arith)
        requires
            mxf == m.0 * f,
    ;
    assert((m.1 * wx) * f == myf * wx) by (nonlinear_arith)
        requires
            myf == m.1 * f,
    ;
    assert(mxf * wy == (wx * wy) * t + ex * wy) by (nonlinear_arith)
        requires
            mxf == wx * t + ex,
    ;
    assert(myf * wx == (wx * wy) * t + ey * wx) by (nonlinear_arith)
        requires
            myf == wy * t + ey,
    ;
    assert(across * f == (m.0 * wy) * f - (m.1 * wx) * f) by (nonlinear_arith)
        requires
            across == m.0 * wy - m.1 * wx,
    ;
    assert((-ey) * wx == -(ey * wx)) by (nonlinear_arith);
    assert(across * f == drift);
    assert(-s <= 2 * across <= s) by (nonlinear_arith)
        requires
            -(f * s) <= 2 * (across * f) <= f * s,
            f > 0,
    ;
    // The length.
    lemma_lagrange(m.0, m.1, wx, wy);
    let mm = m.0 * m.0 + m.1 * m.1;
    let a2 = (2 * along) * (2 * along);
    let c2 = (2 * across) * (2 * across);
    assert(4 * (mm * w) == a2 + c2) by (nonlinear_arith)
        requires
            mm * w == along * along + across * across,
            a2 == (2 * along) * (2 * along),
            c2 == (2 * across) * (2 * across),
    ;
    assert(0 <= c2 <= s * s) by (nonlinear_arith)
        requires
            c2 == (2 * across) * (2 * across),
            -s <= 2 * across <= s,
    ;
    let lo = (2 * r - 2) * (2 * r - 2);
    let hi = (2 * r + 3) * (2 * r + 3);
    assert(4 * mm >= lo) by (nonlinear_arith)
        requires
            4 * (mm * w) >= lo * w,
            w >= 1,
    ;
    assert(lo == 4 * ((r - 1) * (r - 1))) by (nonlinear_arith)
        requires
            lo == (2 * r - 2) * (2 * r - 2),
    ;
    assert(4 * mm <= hi + 2) by (nonlinear_arith)
        requires
            4 * (mm * w) <= hi * w + 2 * w,
            w >= 1,
    ;
    assert(hi + 2 < 4 * ((r + 2) * (r + 2))) by (nonlinear_arith)
        requires
            hi == (2 * r + 3) * (2 * r + 3),
            r >= 1,
    ;
    assert(m.0 * m.0 < (r + 2) * (r + 2) && m.1 * m.1 < (r + 2) * (r + 2)) by (nonlinear_arith)
        requires
            mm == m.0 * m.0 + m.1 * m.1,
            mm < (r + 2) * (r + 2),
    ;
    lemma_coordinate(wx, wy, r, f);
    lemma_coordinate(wy, wx, r, f);
}

/// A vector whose squared length `mm` is known as `lemma_scaled` knows it
/// is `r` long, give or take a unit, once its length is rounded down.
pub proof fn lemma_within_of_length(mm: int, r: int)
    requires
        r >= 1,
        (r - 1) * (r - 1) <= mm,
        4 * mm <= (2 * r + 3) * (2 * r + 3) + 2,
    ensures
        r - 1 <= floor_sqrt(mm) <= r + 1,
{
    assert(mm >= 0) by (nonlinear_arith)
        requires
            (r - 1) * (r - 1) <= mm,
    ;
    lemma_floor_sqrt_exists(mm);
    let d = floor_sqrt(mm);
    lemma_square_lt(r - 1, d + 1);
    assert((2 * r + 3) * (2 * r + 3) + 2 < 4 * ((r + 2) * (r + 2))) by (nonlinear_arith)
        requires
            r >= 1,
    ;
    assert(d * d < (r + 2) * (r + 2));
    lemma_square_lt(d, r + 2);
}

/// What `scale_to` returns, as contracts name it.
pub open spec fn spec_scale_to(wx: i64, wy: i64, r: i64) -> (i64, i64) {
    (
        saturate(scaled(wx as int, wy as int, r as int).0) as i64,
        saturate(scaled(wx as int, wy as int, r as int).1) as i64,
    )
}

/// The vector `(wx, wy)` brought to the length `r`, clipped to the band.
#[verifier::when_used_as_spec(spec_scale_to)]
pub fn scale_to(wx: i64, wy: i64, r: i64) -> (m: (i64, i64))
    requires
        -2 * LIMIT <= wx <= 2 * LIMIT,
        -2 * LIMIT <= wy <= 2 * LIMIT,
        0 <= r <= LIMIT,
    ensures
        m == spec_scale_to(wx, wy, r),
        -LIMIT <= m.0 <= LIMIT,
        -LIMIT <= m.1 <= LIMIT,
{
    if wx == 0 && wy == 0 {
        return (0, 0);
    }
    assert(0 <= wx * wx <= 400_000_000_000_000_000_000) by (nonlinear_arith)
        requires
            -20_000_000_000 <= wx <= 20_000_000_000,
    ;
    assert(0 <= wy * wy <= 400_000_000_000_000_000_000) by (nonlinear_arith)
        requires
            -20_000_000_000 <= wy <= 20_000_000_000,
    ;
    let w: u128 = wide_mul(wx, wx) as u128 + wide_mul(wy, wy) as u128;
    assert(w >= 1) by (nonlinear_arith)
        requires
            w == wx * wx + wy * wy,
            wx != 0 || wy != 0,
    ;
    assert(FINE * FINE == 72_057_594_037_927_936) by (nonlinear_arith)
        requires
            FINE == 268_435_456,
    ;
    assert(w * 72_057_594_037_927_936 <= 800_000_000_000_000_000_000 * 72_057_594_037_927_936)
        by (nonlinear_arith)
        requires
            w <= 800_000_000_000_000_000_000,
    ;
    let n: u128 = w * 72_057_594_037_927_936;
    let f: u64 = isqrt(n);
    assert(f > 0) by (nonlinear_arith)
        requires
            n < (f + 1) * (f + 1),
            n >= 1,
            f >= 0,
    ;
    let t: i64 = r * FINE;
    assert(r * FINE == r * (FINE as int));
    (
        saturate_i128(round_div_i128(wide_mul(wx, t), f as i128)),
        saturate_i128(round_div_i128(wide_mul(wy, t), f as i128)),
    )
}

} // verus!
