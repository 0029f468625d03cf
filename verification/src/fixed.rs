use vstd::prelude::*;

verus! {

/// Fixed-point units per whole unit: a metre, a second and a radian are each
/// a million units long.
pub const SCALE: i64 = 1_000_000;

/// Every stored quantity lies within this many units of zero.
pub const LIMIT: i64 = 10_000_000_000;

/// `v` brought into `[lo, hi]`.
pub open spec fn clamp(v: int, lo: int, hi: int) -> int {
    if v < lo {
        lo
    } else if v > hi {
        hi
    } else {
        v
    }
}

/// `v` brought into the representable band `[-LIMIT, LIMIT]`.
pub open spec fn saturate(v: int) -> int {
    clamp(v, -(LIMIT as int), LIMIT as int)
}

/// Whether `v` is a quantity this library stores without clipping.
pub open spec fn in_band(v: int) -> bool {
    -(LIMIT as int) <= v <= LIMIT as int
}

/// `n / d` rounded to the nearest integer, halves away from zero.
pub open spec fn round_div(n: int, d: int) -> int
    recommends
        d > 0,
{
    if n >= 0 {
        (n + d / 2) / d
    } else {
        -((-n + d / 2) / d)
    }
}

/// Whether `r` is the integer square root of `n`: the largest integer whose
/// square does not exceed `n`.
pub open spec fn is_floor_sqrt(n: int, r: int) -> bool {
    0 <= r && r * r <= n < (r + 1) * (r + 1)
}

/// The integer square root of `n`, and `0` for a negative `n`.
pub open spec fn floor_sqrt(n: int) -> int {
    if n < 0 {
        0
    } else {
        choose|r: int| is_floor_sqrt(n, r)
    }
}

/// The length of the vector `(dx, dy)`, rounded down.
pub open spec fn length(dx: int, dy: int) -> int {
    floor_sqrt(dx * dx + dy * dy)
}

/// At most one integer is the integer square root of a number.
pub proof fn lemma_floor_sqrt_unique(n: int, r1: int, r2: int)
    requires
        is_floor_sqrt(n, r1),
        is_floor_sqrt(n, r2),
    ensures
        r1 == r2,
{
    if r1 < r2 {
        assert((r1 + 1) * (r1 + 1) <= r2 * r2) by (nonlinear_arith)
            requires
                0 <= r1 + 1 <= r2,
        ;
    } else if r2 < r1 {
        assert((r2 + 1) * (r2 + 1) <= r1 * r1) by (nonlinear_arith)
            requires
                0 <= r2 + 1 <= r1,
        ;
    }
}

/// A number that passes the test of an integer square root is the one
/// `floor_sqrt` names.
pub proof fn lemma_floor_sqrt_is(n: int, r: int)
    requires
        is_floor_sqrt(n, r),
    ensures
        floor_sqrt(n) == r,
{
    assert(n >= 0) by (nonlinear_arith)
        requires
            r * r <= n,
    ;
    let c = choose|c: int| is_floor_sqrt(n, c);
    lemma_floor_sqrt_unique(n, r, c);
}

/// The integer square root of a perfect square is its root.
pub proof fn lemma_floor_sqrt_square(r: int)
    requires
        r >= 0,
    ensures
        floor_sqrt(r * r) == r,
{
    assert(r * r < (r + 1) * (r + 1)) by (nonlinear_arith)
        requires
            r >= 0,
    ;
    lemma_floor_sqrt_is(r * r, r);
}

/// `v` brought into the band.
pub fn saturate_i128(v: i128) -> (r: i64)
    ensures
        r == saturate(v as int),
{
    if v < -(LIMIT as i128) {
        -LIMIT
    } else if v > LIMIT as i128 {
        LIMIT
    } else {
        v as i64
    }
}

/// What `sat_add` returns, as contracts name it.
pub open spec fn spec_sat_add(a: i64, b: i64) -> i64 {
    saturate(a + b) as i64
}

/// The sum of two quantities, clipped to the band.
#[verifier::when_used_as_spec(spec_sat_add)]
pub fn sat_add(a: i64, b: i64) -> (r: i64)
    ensures
        r == saturate(a + b),
        r == spec_sat_add(a, b),
{
    saturate_i128(a as i128 + b as i128)
}

/// What `sat_sub` returns, as contracts name it.
pub open spec fn spec_sat_sub(a: i64, b: i64) -> i64 {
    saturate(a - b) as i64
}

/// The difference of two quantities, clipped to the band.
#[verifier::when_used_as_spec(spec_sat_sub)]
pub fn sat_sub(a: i64, b: i64) -> (r: i64)
    ensures
        r == saturate(a - b),
        r == spec_sat_sub(a, b),
{
    saturate_i128(a as i128 - b as i128)
}

/// The exact product of two machine integers.
pub fn wide_mul(a: i64, b: i64) -> (r: i128)
    ensures
        r == a * b,
        -0x4000_0000_0000_0000_0000_0000_0000_0000 <= r <= 0x4000_0000_0000_0000_0000_0000_0000_0000,
{
    assert(-0x4000_0000_0000_0000_0000_0000_0000_0000 <= a * b
        <= 0x4000_0000_0000_0000_0000_0000_0000_0000) by (nonlinear_arith)
        requires
            -0x8000_0000_0000_0000 <= a <= 0x7fff_ffff_ffff_ffff,
            -0x8000_0000_0000_0000 <= b <= 0x7fff_ffff_ffff_ffff,
    ;
    (a as i128) * (b as i128)
}

/// `n / d` rounded to the nearest integer, halves away from zero.
pub fn round_div_i128(n: i128, d: i128) -> (r: i128)
    requires
        0 < d <= 0x4000_0000_0000_0000_0000_0000_0000_0000,
        -0x4000_0000_0000_0000_0000_0000_0000_0000 <= n <= 0x4000_0000_0000_0000_0000_0000_0000_0000,
    ensures
        r == round_div(n as int, d as int),
        n >= 0 ==> 0 <= r <= n,
        n <= 0 ==> n <= r <= 0,
{
    if n >= 0 {
        let q: i128 = (n + d / 2) / d;
        assert(0 <= q <= n) by (nonlinear_arith)
            requires
                q == (n + d / 2) / (d as int),
                n >= 0,
                d >= 1,
        ;
        q
    } else {
        let m: i128 = -n;
        let q: i128 = (m + d / 2) / d;
        assert(0 <= q <= m) by (nonlinear_arith)
            requires
                q == (m + d / 2) / (d as int),
                m >= 0,
                d >= 1,
        ;
        -q
    }
}

/// A quotient of a number no larger than `k * d` rounds to at most `k`.
pub proof fn lemma_round_div_bound(n: int, d: int, k: int)
    requires
        d > 0,
        k >= 0,
        -(k * d) <= n <= k * d,
    ensures
        -k <= round_div(n, d) <= k,
{
    if n >= 0 {
        assert((n + d / 2) / d <= k) by (nonlinear_arith)
            requires
                d > 0,
                0 <= n <= k * d,
        ;
        assert((n + d / 2) / d >= 0) by (nonlinear_arith)
            requires
                d > 0,
                0 <= n,
        ;
    } else {
        assert((-n + d / 2) / d <= k) by (nonlinear_arith)
            requires
                d > 0,
                0 <= -n <= k * d,
        ;
        assert((-n + d / 2) / d >= 0) by (nonlinear_arith)
            requires
                d > 0,
                0 <= -n,
        ;
    }
}

/// Rounding keeps the sign of the numerator.
pub proof fn lemma_round_div_sign(n: int, d: int)
    requires
        d > 0,
    ensures
        n >= 0 ==> 0 <= round_div(n, d) <= n,
        n <= 0 ==> n <= round_div(n, d) <= 0,
{
    if n >= 0 {
        assert(0 <= (n + d / 2) / d <= n) by (nonlinear_arith)
            requires
                d > 0,
                0 <= n,
        ;
    } else {
        assert(0 <= (-n + d / 2) / d <= -n) by (nonlinear_arith)
            requires
                d > 0,
                0 <= -n,
        ;
    }
}

/// A rounded quotient is within half a unit of the exact one.
pub proof fn lemma_round_div_error(n: int, d: int)
    requires
        d > 0,
    ensures
        -d <= 2 * (round_div(n, d) * d - n) <= d,
{
    if n >= 0 {
        let q = (n + d / 2) / d;
        assert(q * d <= n + d / 2 < q * d + d) by (nonlinear_arith)
            requires
                q == (n + d / 2) / d,
                d > 0,
        ;
    } else {
        let q = (-n + d / 2) / d;
        assert(q * d <= -n + d / 2 < q * d + d) by (nonlinear_arith)
            requires
                q == (-n + d / 2) / d,
                d > 0,
        ;
        assert((-q) * d == -(q * d)) by (nonlinear_arith);
    }
}

/// A multiple of the divisor divides without rounding.
pub proof fn lemma_round_div_exact(q: int, d: int)
    requires
        d > 0,
    ensures
        round_div(q * d, d) == q,
{
    if q >= 0 {
        assert(q * d >= 0 && (q * d + d / 2) / d == q) by (nonlinear_arith)
            requires
                d > 0,
                q >= 0,
        ;
    } else {
        assert(q * d < 0 && (-(q * d) + d / 2) / d == -q) by (nonlinear_arith)
            requires
                d > 0,
                q < 0,
        ;
    }
}

/// What `mul_div` returns, as contracts name it.
pub open spec fn spec_mul_div(a: i64, b: i64, d: i64) -> i64 {
    saturate(round_div(a * b, d as int)) as i64
}

/// The product `a * b` divided by `d`, rounded to the nearest integer and
/// clipped to the band.
#[verifier::when_used_as_spec(spec_mul_div)]
pub fn mul_div(a: i64, b: i64, d: i64) -> (r: i64)
    requires
        d > 0,
    ensures
        r == saturate(round_div(a * b, d as int)),
        r == spec_mul_div(a, b, d),
        (a >= 0 && b >= 0) || (a <= 0 && b <= 0) ==> r >= 0,
        (a >= 0 && b <= 0) || (a <= 0 && b >= 0) ==> r <= 0,
{
    assert((a >= 0 && b >= 0) || (a <= 0 && b <= 0) ==> a * b >= 0) by (nonlinear_arith);
    assert((a >= 0 && b <= 0) || (a <= 0 && b >= 0) ==> a * b <= 0) by (nonlinear_arith);
    saturate_i128(round_div_i128(wide_mul(a, b), d as i128))
}

/// What `fx_mul` returns, as contracts name it.
pub open spec fn spec_fx_mul(a: i64, b: i64) -> i64 {
    saturate(round_div(a * b, SCALE as int)) as i64
}

/// The product of two fixed-point quantities, as a fixed-point quantity:
/// `a * b / SCALE`, rounded to the nearest integer and clipped to the band.
#[verifier::when_used_as_spec(spec_fx_mul)]
pub fn fx_mul(a: i64, b: i64) -> (r: i64)
    ensures
        r == saturate(round_div(a * b, SCALE as int)),
        r == spec_fx_mul(a, b),
        (a >= 0 && b >= 0) || (a <= 0 && b <= 0) ==> r >= 0,
        (a >= 0 && b <= 0) || (a <= 0 && b >= 0) ==> r <= 0,
{
    mul_div(a, b, SCALE)
}

/// What `clip` returns, as contracts name it.
pub open spec fn spec_clip(v: i64) -> i64 {
    saturate(v as int) as i64
}

/// `v` brought into the band.
#[verifier::when_used_as_spec(spec_clip)]
pub fn clip(v: i64) -> (r: i64)
    ensures
        r == saturate(v as int),
        r == spec_clip(v),
{
    saturate_i128(v as i128)
}

/// What `bound` returns, as contracts name it.
pub open spec fn spec_bound(v: i64, lo: i64, hi: i64) -> i64 {
    clamp(v as int, lo as int, hi as int) as i64
}

/// `v` brought into `[lo, hi]`.
#[verifier::when_used_as_spec(spec_bound)]
pub fn bound(v: i64, lo: i64, hi: i64) -> (r: i64)
    requires
        lo <= hi,
    ensures
        r == clamp(v as int, lo as int, hi as int),
        r == spec_bound(v, lo, hi),
        lo <= r <= hi,
{
    if v < lo {
        lo
    } else if v > hi {
        hi
    } else {
        v
    }
}

/// The integer square root of `n`.
pub fn isqrt(n: u128) -> (r: u64)
    ensures
        r == floor_sqrt(n as int),
        is_floor_sqrt(n as int, r as int),
{
    let mut lo: u128 = 0;
    let mut hi: u128 = 0x1_0000_0000_0000_0000;
    assert(hi * hi > n) by (nonlinear_arith)
        requires
            hi == 0x1_0000_0000_0000_0000,
            n <= 0xffff_ffff_ffff_ffff_ffff_ffff_ffff_ffff,
    ;
    while hi - lo > 1
        invariant
            lo < hi <= 0x1_0000_0000_0000_0000,
            lo * lo <= n < hi * hi,
        decreases hi - lo,
    {
        let mid: u128 = lo + (hi - lo) / 2;
        assert(mid * mid <= 0xffff_ffff_ffff_ffff * 0xffff_ffff_ffff_ffff) by (nonlinear_arith)
            requires
                0 <= mid <= 0xffff_ffff_ffff_ffff,
        ;
        if mid * mid <= n {
            lo = mid;
        } else {
            hi = mid;
        }
    }
    proof {
        lemma_floor_sqrt_is(n as int, lo as int);
    }
    lo as u64
}

/// What `hypot` returns, as contracts name it.
pub open spec fn spec_hypot(dx: i64, dy: i64) -> i64 {
    saturate(length(dx as int, dy as int)) as i64
}

/// The length of the vector `(dx, dy)`, rounded down and clipped to the band.
#[verifier::when_used_as_spec(spec_hypot)]
pub fn hypot(dx: i64, dy: i64) -> (r: i64)
    ensures
        r == saturate(length(dx as int, dy as int)),
        r == spec_hypot(dx, dy),
        0 <= r <= LIMIT,
{
    assert(dx * dx >= 0 && dy * dy >= 0) by (nonlinear_arith);
    let xx: u128 = wide_mul(dx, dx) as u128;
    let yy: u128 = wide_mul(dy, dy) as u128;
    let root: u64 = isqrt(xx + yy);
    if root > LIMIT as u64 {
        LIMIT
    } else {
        root as i64
    }
}

} // verus!
