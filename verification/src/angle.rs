use vstd::prelude::*;
use crate::fixed::{
    clamp, lemma_round_div_bound, lemma_round_div_sign, round_div, round_div_i128, wide_mul,
    SCALE,
};
use crate::scale::{lemma_scaled, lemma_scaled_axis, lemma_scaled_opposite, scale_to, scaled};

verus! {

/// Half a turn, in angle units.
pub const PI: i64 = 3_141_592;

/// A full turn.
pub const TAU: i64 = 6_283_184;

/// A quarter turn.
pub const HALF_PI: i64 = 1_570_796;

/// An eighth of a turn.
pub const QUARTER_PI: i64 = 785_398;

/// The angle in `[0, TAU)` that points the same way as `a`.
pub open spec fn wrap(a: int) -> int {
    a % (TAU as int)
}

/// The shortest signed rotation that turns heading `from` onto heading `to`:
/// the representative of `to - from` in `(-PI, PI]`.
pub open spec fn signed_diff(from: int, to: int) -> int {
    let d = wrap(to - from);
    if d > PI {
        d - TAU
    } else {
        d
    }
}

/// Heading `initial` turned towards `target` by the fraction `ratio / SCALE`
/// of the shortest rotation between them. The fraction is taken from
/// `[0, 1]`, so the result never passes the target.
pub open spec fn nudge(initial: int, target: int, ratio: int) -> int {
    wrap(
        initial + round_div(
            signed_diff(initial, target) * clamp(ratio, 0, SCALE as int),
            SCALE as int,
        ),
    )
}

/// The rational half wave `16 x (PI - x) / (5 PI^2 - 4 x (PI - x))`, scaled
/// to `SCALE`: zero at `0` and `PI`, one at `PI / 2`.
pub open spec fn half_wave(x: int) -> int {
    let p = x * (PI - x);
    round_div(16 * p * SCALE, 5 * PI * PI - 4 * p)
}

/// The sine before it is brought to length: the half wave, mirrored over
/// the second half of the turn.
pub open spec fn raw_sine(a: int) -> int {
    let t = wrap(a);
    if t <= PI {
        half_wave(t)
    } else {
        -half_wave(t - PI)
    }
}

/// The cosine before it is brought to length: the raw sine a quarter turn
/// ahead.
pub open spec fn raw_cosine(a: int) -> int {
    raw_sine(a + HALF_PI)
}

/// The vector of length one that points along heading `a`: the raw cosine
/// and the raw sine, brought to the length `SCALE` together.
pub open spec fn unit(a: int) -> (int, int) {
    scaled(raw_cosine(a), raw_sine(a), SCALE as int)
}

/// The sine of this library: the second coordinate of the unit vector.
pub open spec fn sine(a: int) -> int {
    unit(a).1
}

/// The cosine of this library: the first coordinate of the unit vector.
pub open spec fn cosine(a: int) -> int {
    unit(a).0
}

/// The quotient `num / den` as a fixed-point fraction.
pub open spec fn fraction(num: int, den: int) -> int {
    round_div(num * SCALE, den)
}

/// The arc tangent of the fraction `z / SCALE`, for `z` from zero to one:
/// the cubic `(PI / 4) z + z (1 - z) (0.2447 + 0.0663 z)`, kept within an
/// eighth of a turn.
pub open spec fn arc_unit(z: int) -> int {
    let bend = round_div(z * (SCALE - z), SCALE as int);
    let weight = 244_700 + round_div(66_300 * z, SCALE as int);
    clamp(
        round_div(QUARTER_PI * z, SCALE as int) + round_div(bend * weight, SCALE as int),
        0,
        QUARTER_PI as int,
    )
}

/// The magnitude of `v`.
pub open spec fn abs(v: int) -> int {
    if v < 0 {
        -v
    } else {
        v
    }
}

/// The angle of the vector `(x, y)` in the first quadrant, given the
/// magnitudes of its coordinates: from `0` along the first axis to
/// `HALF_PI` along the second. The zero vector has angle `0`.
pub open spec fn arc_quadrant(ay: int, ax: int) -> int {
    if ax == 0 && ay == 0 {
        0
    } else if ay <= ax {
        arc_unit(fraction(ay, ax))
    } else {
        HALF_PI - arc_unit(fraction(ax, ay))
    }
}

/// The angle of the vector `(x, y)` in `(-PI, PI]`, measured from the
/// positive x axis towards the positive y axis.
pub open spec fn arc_tangent(y: int, x: int) -> int {
    let base = arc_quadrant(abs(y), abs(x));
    let upper = if x >= 0 {
        base
    } else {
        PI - base
    };
    if y >= 0 || upper == PI {
        upper
    } else {
        -upper
    }
}

/// The heading in `[0, TAU)` of the vector `(dx, dy)`.
pub open spec fn heading_of(dx: int, dy: int) -> int {
    wrap(arc_tangent(dy, dx))
}

/// A nudge never passes its target: the rotation that is left afterwards
/// lies between none and the rotation that was asked for. A ratio of one or
/// more reaches the target, and a ratio of zero or less leaves the heading
/// where it was.
pub proof fn lemma_nudge_stops_at_target(initial: int, target: int, ratio: int)
    ensures
        ({
            let asked = signed_diff(initial, target);
            let left = signed_diff(nudge(initial, target, ratio), target);
            &&& asked >= 0 ==> 0 <= left <= asked
            &&& asked <= 0 ==> asked <= left <= 0
            &&& ratio >= SCALE ==> left == 0
            &&& ratio <= 0 ==> left == asked
        }),
{
    let asked = signed_diff(initial, target);
    let share = clamp(ratio, 0, SCALE as int);
    let made = round_div(asked * share, SCALE as int);
    if asked >= 0 {
        assert(0 <= asked * share <= asked * SCALE) by (nonlinear_arith)
            requires
                asked >= 0,
                0 <= share <= SCALE,
        ;
        lemma_round_div_bound(asked * share, SCALE as int, asked);
        lemma_round_div_sign(asked * share, SCALE as int);
    } else {
        assert(-((-asked) * SCALE) <= asked * share <= 0) by (nonlinear_arith)
            requires
                asked < 0,
                0 <= share <= SCALE,
        ;
        lemma_round_div_bound(asked * share, SCALE as int, -asked);
        lemma_round_div_sign(asked * share, SCALE as int);
    }
    if ratio >= SCALE {
        crate::fixed::lemma_round_div_exact(asked, SCALE as int);
    }
    if ratio <= 0 {
        assert(asked * share == 0) by (nonlinear_arith)
            requires
                share == 0,
        ;
    }
    let after = wrap(initial + made);
    assert(wrap(target - after) == wrap(asked - made));
}

/// The half wave is zero where `x (PI - x)` is zero.
proof fn lemma_half_wave_zero(x: int)
    requires
        x * (PI - x) == 0,
    ensures
        half_wave(x) == 0,
{
    let p = x * (PI - x);
    assert(5 * PI * PI == 49_348_001_472_320) by (nonlinear_arith)
        requires
            PI == 3_141_592,
    ;
    assert(16 * p * SCALE == 0) by (nonlinear_arith)
        requires
            p == 0,
    ;
    assert(round_div(0, 49_348_001_472_320) == 0);
}

/// The half wave is zero at both ends and one in the middle.
proof fn lemma_half_wave_marks()
    ensures
        half_wave(0) == 0,
        half_wave(PI as int) == 0,
        half_wave(HALF_PI as int) == SCALE,
{
    assert(0 * (PI - 0) == 0) by (nonlinear_arith);
    assert(PI * (PI - PI) == 0) by (nonlinear_arith);
    lemma_half_wave_zero(0);
    lemma_half_wave_zero(PI as int);
    assert(5 * PI * PI == 49_348_001_472_320) by (nonlinear_arith)
        requires
            PI == 3_141_592,
    ;
    let p = HALF_PI * (PI - HALF_PI);
    assert(p == 2_467_400_073_616) by (nonlinear_arith)
        requires
            p == HALF_PI * (PI - HALF_PI),
            PI == 3_141_592,
            HALF_PI == 1_570_796,
    ;
    assert(16 * p * SCALE == 39_478_401_177_856_000_000) by (nonlinear_arith)
        requires
            p == 2_467_400_073_616,
            SCALE == 1_000_000,
    ;
    assert(round_div(39_478_401_177_856_000_000, 39_478_401_177_856) == 1_000_000);
}

/// The half wave is at least one unit high away from its ends.
proof fn lemma_half_wave_positive(x: int)
    requires
        1 <= x <= PI - 1,
    ensures
        half_wave(x) >= 1,
{
    let p = x * (PI - x);
    assert(p >= 3_141_591 && 4 * p <= 3_141_592 * 3_141_592) by (nonlinear_arith)
        requires
            p == x * (3_141_592 - x),
            1 <= x <= 3_141_591,
    ;
    assert(5 * PI * PI == 49_348_001_472_320) by (nonlinear_arith)
        requires
            PI == 3_141_592,
    ;
    let n = 16 * p * SCALE;
    let d = 5 * PI * PI - 4 * p;
    assert(n == 16_000_000 * p);
    assert(n >= d && d > 0);
    assert((n + d / 2) / d >= 1) by (nonlinear_arith)
        requires
            n >= d,
            d > 0,
    ;
}

/// The raw sine and the raw cosine are never zero together: where one is
/// zero, the other is one or minus one.
proof fn lemma_raw_not_zero(a: int)
    ensures
        raw_sine(a) != 0 || raw_cosine(a) != 0,
        -SCALE <= raw_sine(a) <= SCALE,
        -SCALE <= raw_cosine(a) <= SCALE,
{
    lemma_half_wave_marks();
    let t = wrap(a);
    let t2 = wrap(a + HALF_PI);
    if t <= PI {
        lemma_half_wave_range(t);
    } else {
        lemma_half_wave_range(t - PI);
    }
    if t2 <= PI {
        lemma_half_wave_range(t2);
    } else {
        lemma_half_wave_range(t2 - PI);
    }
    if t == 0 {
        assert(t2 == HALF_PI);
    } else if t == PI {
        assert(t2 == PI + HALF_PI);
    } else if t < PI {
        lemma_half_wave_positive(t);
    } else {
        lemma_half_wave_positive(t - PI);
    }
}

/// The unit vector is one long, give or take a unit: the sum of the
/// squares of the sine and the cosine lies between the squares of
/// `SCALE - 1` and `SCALE + 2`, and neither is more than `SCALE`.
pub proof fn lemma_unit_length(a: int)
    ensures
        (SCALE - 1) * (SCALE - 1) <= sine(a) * sine(a) + cosine(a) * cosine(a) < (SCALE + 2) * (
        SCALE + 2),
        -SCALE <= sine(a) <= SCALE,
        -SCALE <= cosine(a) <= SCALE,
{
    lemma_raw_not_zero(a);
    lemma_scaled(raw_cosine(a), raw_sine(a), SCALE as int);
    let mm = sine(a) * sine(a) + cosine(a) * cosine(a);
    assert(4 * mm <= (2 * SCALE + 3) * (2 * SCALE + 3) + 2);
    assert((2 * SCALE + 3) * (2 * SCALE + 3) + 2 < 4 * ((SCALE + 2) * (SCALE + 2)))
        by (nonlinear_arith)
        requires
            SCALE == 1_000_000,
    ;
}

/// Along the axes the sine and the cosine are exact.
pub proof fn lemma_axes_are_exact()
    ensures
        sine(0) == 0 && cosine(0) == SCALE,
        sine(HALF_PI as int) == SCALE && cosine(HALF_PI as int) == 0,
        sine(PI as int) == 0 && cosine(PI as int) == -SCALE,
        sine(3 * HALF_PI) == -SCALE && cosine(3 * HALF_PI) == 0,
{
    lemma_half_wave_marks();
    lemma_scaled_axis(SCALE as int, SCALE as int);
    lemma_scaled_axis(-SCALE, SCALE as int);
    assert(raw_sine(0) == 0 && raw_cosine(0) == SCALE);
    assert(raw_sine(HALF_PI as int) == SCALE && raw_cosine(HALF_PI as int) == 0);
    assert(raw_sine(PI as int) == 0 && raw_cosine(PI as int) == -SCALE);
    assert(raw_sine(3 * HALF_PI) == -SCALE && raw_cosine(3 * HALF_PI) == 0);
}

/// Half a turn on, the raw sine is the opposite.
proof fn lemma_raw_sine_half_turn(a: int)
    ensures
        raw_sine(a + PI) == -raw_sine(a),
{
    lemma_half_wave_marks();
    let t = wrap(a);
    if t < PI {
        assert(wrap(a + PI) == t + PI);
    } else {
        assert(wrap(a + PI) == t - PI);
    }
}

/// Half a turn on, the sine and the cosine are the opposite.
pub proof fn lemma_sine_half_turn(a: int)
    ensures
        sine(a + PI) == -sine(a),
        cosine(a + PI) == -cosine(a),
{
    lemma_raw_sine_half_turn(a);
    lemma_raw_sine_half_turn(a + HALF_PI);
    assert(a + PI + HALF_PI == a + HALF_PI + PI);
    lemma_scaled_opposite(raw_cosine(a), raw_sine(a), SCALE as int);
}

/// The angle of a vector along an axis or along the diagonal is exact.
proof fn lemma_arc_quadrant_marks(v: int)
    requires
        v > 0,
    ensures
        arc_quadrant(0, v) == 0,
        arc_quadrant(v, 0) == HALF_PI,
        arc_quadrant(v, v) == QUARTER_PI,
{
    assert(0 * SCALE == 0);
    lemma_round_div_sign(0, v);
    crate::fixed::lemma_round_div_exact(SCALE as int, v);
    assert(SCALE * v == v * SCALE) by (nonlinear_arith);
    assert(fraction(0, v) == 0);
    assert(fraction(v, v) == SCALE);
    assert(arc_unit(0) == 0) by {
        assert(QUARTER_PI * 0 == 0);
        assert(0 * (SCALE - 0) == 0) by (nonlinear_arith);
        assert(66_300 * 0 == 0);
        assert(0 * (244_700 + 0) == 0) by (nonlinear_arith);
    }
    assert(arc_unit(SCALE as int) == QUARTER_PI) by {
        assert(QUARTER_PI * SCALE == 785_398_000_000);
        assert(SCALE * (SCALE - SCALE) == 0) by (nonlinear_arith);
        assert(66_300 * SCALE == 66_300_000_000);
        assert(0 * (244_700 + 66_300) == 0) by (nonlinear_arith);
    }
}

/// The angle of a vector along an axis or along the diagonal of the first
/// quadrant is exact.
pub proof fn lemma_arc_tangent_exact(x: int)
    requires
        x > 0,
    ensures
        arc_tangent(0, x) == 0,
        arc_tangent(x, 0) == HALF_PI,
        arc_tangent(0, -x) == PI,
        arc_tangent(-x, 0) == -HALF_PI,
        arc_tangent(x, x) == QUARTER_PI,
{
    lemma_arc_quadrant_marks(x);
}

/// The heading of the opposite vector is half a turn away.
#[verifier::rlimit(60)]
pub proof fn lemma_heading_of_opposite(dx: int, dy: int)
    ensures
        heading_of(-dx, -dy) == if dx == 0 && dy == 0 {
            0
        } else {
            wrap(heading_of(dx, dy) + PI)
        },
{
    let base = arc_quadrant(abs(dy), abs(dx));
    assert(0 <= base <= HALF_PI);
    if dx != 0 {
        lemma_arc_quadrant_marks(abs(dx));
    }
    if dy != 0 {
        lemma_arc_quadrant_marks(abs(dy));
    }
}

/// The heading in `[0, TAU)` that points the same way as the angle `a`.
pub fn wrap_wide(a: i128) -> (r: i64)
    ensures
        r == wrap(a as int),
        0 <= r < TAU,
{
    let m: i128 = a % (TAU as i128);
    if m < 0 {
        (m + TAU as i128) as i64
    } else {
        m as i64
    }
}

/// What `wrap_angle` returns, as contracts name it.
pub open spec fn spec_wrap_angle(a: i64) -> i64 {
    wrap(a as int) as i64
}

/// The heading in `[0, TAU)` that points the same way as `a`.
#[verifier::when_used_as_spec(spec_wrap_angle)]
pub fn wrap_angle(a: i64) -> (r: i64)
    ensures
        r == wrap(a as int),
        r == spec_wrap_angle(a),
        0 <= r < TAU,
{
    wrap_wide(a as i128)
}

/// What `turn` returns, as contracts name it.
pub open spec fn spec_turn(a: i64, delta: i64) -> i64 {
    wrap(a + delta) as i64
}

/// Heading `a` turned by `delta`, in `[0, TAU)`.
#[verifier::when_used_as_spec(spec_turn)]
pub fn turn(a: i64, delta: i64) -> (r: i64)
    ensures
        r == wrap(a + delta),
        r == spec_turn(a, delta),
        0 <= r < TAU,
{
    wrap_wide(a as i128 + delta as i128)
}

/// What `angle_diff` returns, as contracts name it.
pub open spec fn spec_angle_diff(from: i64, to: i64) -> i64 {
    signed_diff(from as int, to as int) as i64
}

/// The shortest signed rotation that turns heading `from` onto heading `to`.
#[verifier::when_used_as_spec(spec_angle_diff)]
pub fn angle_diff(from: i64, to: i64) -> (r: i64)
    ensures
        r == signed_diff(from as int, to as int),
        r == spec_angle_diff(from, to),
        -PI < r <= PI,
{
    let d: i64 = wrap_wide(to as i128 - from as i128);
    if d > PI {
        d - TAU
    } else {
        d
    }
}

/// What `nudge_angle` returns, as contracts name it.
pub open spec fn spec_nudge_angle(initial: i64, target: i64, ratio: i64) -> i64 {
    nudge(initial as int, target as int, ratio as int) as i64
}

/// Heading `initial` turned towards `target` by the fraction `ratio / SCALE`
/// of the shortest rotation between them, the fraction taken from `[0, 1]`.
#[verifier::when_used_as_spec(spec_nudge_angle)]
pub fn nudge_angle(initial: i64, target: i64, ratio: i64) -> (r: i64)
    ensures
        r == nudge(initial as int, target as int, ratio as int),
        r == spec_nudge_angle(initial, target, ratio),
        0 <= r < TAU,
{
    let d: i64 = angle_diff(initial, target);
    let k: i64 = if ratio < 0 {
        0
    } else if ratio > SCALE {
        SCALE
    } else {
        ratio
    };
    let turn: i128 = round_div_i128(wide_mul(d, k), SCALE as i128);
    assert(-PI * SCALE <= d * k <= PI * SCALE) by (nonlinear_arith)
        requires
            -PI < d <= PI,
            0 <= k <= SCALE,
    ;
    wrap_wide(initial as i128 + turn)
}

/// The half wave stays between zero and one.
pub proof fn lemma_half_wave_range(x: int)
    requires
        0 <= x <= PI,
    ensures
        0 <= half_wave(x) <= SCALE,
{
    let p = x * (PI - x);
    assert(0 <= p && 4 * p <= 3_141_592 * 3_141_592) by (nonlinear_arith)
        requires
            p == x * (3_141_592 - x),
            0 <= x <= 3_141_592,
    ;
    let den = 5 * PI * PI - 4 * p;
    assert(den == 49_348_001_472_320 - 4 * p);
    assert(16 * p * SCALE <= SCALE * den);
    lemma_round_div_bound(16 * p * SCALE, den, SCALE as int);
    lemma_round_div_sign(16 * p * SCALE, den);
}

fn half_wave_exec(x: i64) -> (r: i64)
    requires
        0 <= x <= PI,
    ensures
        r == half_wave(x as int),
        0 <= r <= SCALE,
{
    let p: i128 = wide_mul(x, PI - x);
    assert(0 <= p && 4 * p <= 3_141_592 * 3_141_592) by (nonlinear_arith)
        requires
            p == x * (3_141_592 - x),
            0 <= x <= 3_141_592,
    ;
    let num: i128 = 16_000_000 * p;
    let den: i128 = 49_348_001_472_320 - 4 * p;
    assert(num == 16 * p * SCALE);
    assert(den == 5 * PI * PI - 4 * p);
    proof {
        lemma_half_wave_range(x as int);
    }
    round_div_i128(num, den) as i64
}

fn raw_sin(a: i64) -> (r: i64)
    ensures
        r == raw_sine(a as int),
        -SCALE <= r <= SCALE,
{
    let t: i64 = wrap_angle(a);
    if t <= PI {
        half_wave_exec(t)
    } else {
        -half_wave_exec(t - PI)
    }
}

fn raw_cos(a: i64) -> (r: i64)
    ensures
        r == raw_cosine(a as int),
        -SCALE <= r <= SCALE,
{
    let t: i64 = wrap_wide(a as i128 + HALF_PI as i128);
    assert(wrap(a + HALF_PI) == t);
    if t <= PI {
        half_wave_exec(t)
    } else {
        -half_wave_exec(t - PI)
    }
}

/// What `direction` returns, as contracts name it.
pub open spec fn spec_direction(a: i64) -> (i64, i64) {
    (cosine(a as int) as i64, sine(a as int) as i64)
}

/// The vector of length one that points along heading `a`: its cosine and
/// its sine, as fixed-point fractions.
#[verifier::when_used_as_spec(spec_direction)]
pub fn direction(a: i64) -> (d: (i64, i64))
    ensures
        d == spec_direction(a),
        d.0 == cosine(a as int),
        d.1 == sine(a as int),
        -SCALE <= d.0 <= SCALE,
        -SCALE <= d.1 <= SCALE,
{
    let rc: i64 = raw_cos(a);
    let rs: i64 = raw_sin(a);
    proof {
        lemma_raw_not_zero(a as int);
        lemma_scaled(rc as int, rs as int, SCALE as int);
    }
    scale_to(rc, rs, SCALE)
}

/// What `sin` returns, as contracts name it.
pub open spec fn spec_sin(a: i64) -> i64 {
    sine(a as int) as i64
}

/// The sine of heading `a`, as a fixed-point fraction.
#[verifier::when_used_as_spec(spec_sin)]
pub fn sin(a: i64) -> (r: i64)
    ensures
        r == sine(a as int),
        r == spec_sin(a),
        -SCALE <= r <= SCALE,
{
    direction(a).1
}

/// What `cos` returns, as contracts name it.
pub open spec fn spec_cos(a: i64) -> i64 {
    cosine(a as int) as i64
}

/// The cosine of heading `a`, as a fixed-point fraction.
#[verifier::when_used_as_spec(spec_cos)]
pub fn cos(a: i64) -> (r: i64)
    ensures
        r == cosine(a as int),
        r == spec_cos(a),
        -SCALE <= r <= SCALE,
{
    direction(a).0
}

fn fraction_exec(num: i128, den: i128) -> (r: i64)
    requires
        0 <= num <= den,
        0 < den <= 0x8000_0000_0000_0000,
    ensures
        r == fraction(num as int, den as int),
        0 <= r <= SCALE,
{
    proof {
        lemma_round_div_bound(num * SCALE, den as int, SCALE as int);
        lemma_round_div_sign(num * SCALE, den as int);
    }
    round_div_i128(num * (SCALE as i128), den) as i64
}

fn arc_unit_exec(z: i64) -> (r: i64)
    requires
        0 <= z <= SCALE,
    ensures
        r == arc_unit(z as int),
        0 <= r <= QUARTER_PI,
{
    let zz: i128 = wide_mul(z, SCALE - z);
    assert(0 <= zz <= SCALE * SCALE) by (nonlinear_arith)
        requires
            zz == z * (SCALE - z),
            0 <= z <= SCALE,
    ;
    let bend: i128 = round_div_i128(zz, SCALE as i128);
    let weight: i128 = 244_700 + round_div_i128(66_300 * (z as i128), SCALE as i128);
    assert(0 <= bend * weight <= 1_000_000_000_000 * 66_544_700) by (nonlinear_arith)
        requires
            0 <= bend <= 1_000_000_000_000,
            0 <= weight <= 66_544_700,
    ;
    let bw: i128 = bend * weight;
    let lead: i128 = round_div_i128(785_398 * (z as i128), SCALE as i128);
    let sum: i128 = lead + round_div_i128(bw, SCALE as i128);
    if sum > QUARTER_PI as i128 {
        QUARTER_PI
    } else {
        sum as i64
    }
}

fn magnitude(v: i64) -> (r: i128)
    ensures
        r == abs(v as int),
        0 <= r <= 0x8000_0000_0000_0000,
{
    if v < 0 {
        -(v as i128)
    } else {
        v as i128
    }
}

/// What `atan2` returns, as contracts name it.
pub open spec fn spec_atan2(y: i64, x: i64) -> i64 {
    arc_tangent(y as int, x as int) as i64
}

/// The angle of the vector `(x, y)` in `(-PI, PI]`.
#[verifier::when_used_as_spec(spec_atan2)]
pub fn atan2(y: i64, x: i64) -> (r: i64)
    ensures
        r == arc_tangent(y as int, x as int),
        r == spec_atan2(y, x),
        -PI < r <= PI,
{
    let ax: i128 = magnitude(x);
    let ay: i128 = magnitude(y);
    let base: i64 = if ax == 0 && ay == 0 {
        0
    } else if ay <= ax {
        arc_unit_exec(fraction_exec(ay, ax))
    } else {
        HALF_PI - arc_unit_exec(fraction_exec(ax, ay))
    };
    let upper: i64 = if x >= 0 {
        base
    } else {
        PI - base
    };
    if y >= 0 || upper == PI {
        upper
    } else {
        -upper
    }
}

/// What `bearing` returns, as contracts name it.
pub open spec fn spec_bearing(dx: i64, dy: i64) -> i64 {
    heading_of(dx as int, dy as int) as i64
}

/// The heading in `[0, TAU)` of the vector `(dx, dy)`.
#[verifier::when_used_as_spec(spec_bearing)]
pub fn bearing(dx: i64, dy: i64) -> (r: i64)
    ensures
        r == heading_of(dx as int, dy as int),
        r == spec_bearing(dx, dy),
        0 <= r < TAU,
{
    wrap_angle(atan2(dy, dx))
}

} // verus!
