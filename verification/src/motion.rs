use vstd::prelude::*;
use crate::angle::{
    bearing, cos, nudge_angle, sin, turn, wrap_angle, HALF_PI, PI, QUARTER_PI, TAU,
};
use crate::etiquette::Etiquette;
use crate::fixed::{
    bound, clip, fx_mul, hypot, in_band, lemma_floor_sqrt_square, length, mul_div, sat_add,
    sat_sub, LIMIT, SCALE,
};
use crate::clearance::lemma_push_out_clearance;
use crate::geometry::{all_wf, point_in_band, Wall, PUSH_TOLERANCE};
use crate::scale::{lemma_scaled, lemma_within_of_length, scale_to, scaled};

verus! {

/// The acceleration of a pedestrian, in units per second squared.
pub const PEDESTRIAN_ACCEL: i64 = 800_000;

/// The share of the rotation towards the destination made in one second.
pub const PEDESTRIAN_DIRECTION_CHANGE_FACTOR: i64 = 1_000_000;

/// The radius of a pedestrian's body.
pub const PEDESTRIAN_RADIUS: i64 = 205_000;

/// Twice the body radius: the distance below which two bodies overlap.
pub const CONTACT_DISTANCE: i64 = 410_000;

/// The radius of the personal space a pedestrian keeps clear.
pub const PEDESTRIAN_PSPACE_RADIUS: i64 = 856_000;

/// The body radius and the personal space radius together.
pub const COMFORT_DISTANCE: i64 = 1_061_000;

/// How far a pedestrian looks ahead.
pub const PEDESTRIAN_LOOK_AHEAD_RADIUS: i64 = 2_000_000;

/// How far a pedestrian looks to its sides.
pub const PEDESTRIAN_LOOK_BESIDE_RADIUS: i64 = 1_200_000;

/// The share of the rotation away from an oncoming pedestrian made in one
/// second.
pub const PEDESTRIAN_OPPOSING_REPULSION: i64 = 250_000;

/// The share of the rotation away from a pedestrian one unit of length away
/// made in one second, inside the personal space.
pub const PEDESTRIAN_PSPACE_REPULSION: i64 = 300_000;

/// The deceleration behind a pedestrian walking the same way.
pub const PEDESTRIAN_FOLLOWING_DECEL: i64 = 400_000;

/// The deceleration before a pedestrian inside the personal space.
pub const PEDESTRIAN_OPPOSING_DECEL: i64 = 1_200_000;

/// The share of the rotation away from a wall made in one second, inside the
/// personal space.
pub const WALL_REPULSION: i64 = 200_000;

/// The largest change of speed that noise makes in one second.
pub const PEDESTRIAN_SPEED_NOISE_FACTOR: i64 = 800_000;

/// The largest change of heading that noise makes in one second.
pub const PEDESTRIAN_DIRECTION_NOISE_FACTOR: i64 = 400_000;

/// The drift of heading per second that a left or right bias adds.
pub const PEDESTRIAN_ETIQUETTE_BIAS_FACTOR: i64 = 250_000;

/// Where a pedestrian is, which way it faces and how fast it walks. The
/// heading is `0` along the positive x axis and grows towards the positive y
/// axis, which points down the screen: clockwise to the eye.
#[derive(Clone, Copy, Debug, PartialEq, Eq, Structural)]
pub struct Motion {
    pub x: i64,
    pub y: i64,
    pub heading: i64,
    pub speed: i64,
}

impl Motion {
    /// The position lies in the band, the heading in `[0, TAU)` and the
    /// speed in `[0, LIMIT]`.
    pub open spec fn wf(self) -> bool {
        &&& in_band(self.x as int)
        &&& in_band(self.y as int)
        &&& 0 <= self.heading < TAU
        &&& 0 <= self.speed <= LIMIT
    }
}

/// What `relax_speed` returns, as contracts name it.
pub open spec fn spec_relax_speed(m: Motion, target_speed: i64, dt: u32) -> Motion {
    let raised = sat_add(m.speed, fx_mul(PEDESTRIAN_ACCEL, dt as i64));
    Motion {
        speed: if raised < target_speed {
            raised
        } else {
            target_speed
        },
        ..m
    }
}

/// Speed relaxation: the speed rises by the acceleration times `dt` and
/// stops at the target speed.
#[verifier::when_used_as_spec(spec_relax_speed)]
pub fn relax_speed(m: Motion, target_speed: i64, dt: u32) -> (r: Motion)
    requires
        m.wf(),
        0 <= target_speed <= LIMIT,
    ensures
        r == spec_relax_speed(m, target_speed, dt),
        r.wf(),
{
    let raised: i64 = sat_add(m.speed, fx_mul(PEDESTRIAN_ACCEL, dt as i64));
    Motion {
        speed: if raised < target_speed {
            raised
        } else {
            target_speed
        },
        ..m
    }
}

/// What `align_to_goal` returns, as contracts name it.
pub open spec fn spec_align_to_goal(m: Motion, dest: (i64, i64), dt: u32) -> Motion {
    let goal = bearing((dest.0 - m.x) as i64, (dest.1 - m.y) as i64);
    Motion {
        heading: nudge_angle(
            m.heading,
            goal,
            fx_mul(PEDESTRIAN_DIRECTION_CHANGE_FACTOR, dt as i64),
        ),
        ..m
    }
}

/// Goal alignment: the heading turns towards the bearing of the destination
/// by the share of the shortest rotation that `dt` allows, and never past it.
#[verifier::when_used_as_spec(spec_align_to_goal)]
pub fn align_to_goal(m: Motion, dest: (i64, i64), dt: u32) -> (r: Motion)
    requires
        m.wf(),
        point_in_band(dest),
    ensures
        r == spec_align_to_goal(m, dest, dt),
        r.wf(),
{
    let goal: i64 = bearing(dest.0 - m.x, dest.1 - m.y);
    Motion {
        heading: nudge_angle(
            m.heading,
            goal,
            fx_mul(PEDESTRIAN_DIRECTION_CHANGE_FACTOR, dt as i64),
        ),
        ..m
    }
}

/// What `apply_bias` returns, as contracts name it.
pub open spec fn spec_apply_bias(m: Motion, etiquette: Etiquette, dt: u32) -> Motion {
    let drift = fx_mul(PEDESTRIAN_ETIQUETTE_BIAS_FACTOR, dt as i64);
    match etiquette {
        Etiquette::LeftBias => Motion { heading: turn(m.heading, (-drift) as i64), ..m },
        Etiquette::RightBias => Motion { heading: turn(m.heading, drift), ..m },
        Etiquette::NoBias => m,
    }
}

/// Etiquette bias: a left bias turns the heading back by the drift of one
/// tick, a right bias turns it on, and no bias leaves it.
#[verifier::when_used_as_spec(spec_apply_bias)]
pub fn apply_bias(m: Motion, etiquette: Etiquette, dt: u32) -> (r: Motion)
    requires
        m.wf(),
    ensures
        r == spec_apply_bias(m, etiquette, dt),
        r.wf(),
{
    let drift: i64 = fx_mul(PEDESTRIAN_ETIQUETTE_BIAS_FACTOR, dt as i64);
    match etiquette {
        Etiquette::LeftBias => Motion { heading: turn(m.heading, -drift), ..m },
        Etiquette::RightBias => Motion { heading: turn(m.heading, drift), ..m },
        Etiquette::NoBias => m,
    }
}

/// What `slow_down` returns, as contracts name it.
pub open spec fn spec_slow_down(speed: i64, by: i64) -> i64 {
    bound(sat_sub(speed, by), 0, LIMIT)
}

/// `speed` lowered by `by`, and not below zero.
#[verifier::when_used_as_spec(spec_slow_down)]
pub fn slow_down(speed: i64, by: i64) -> (r: i64)
    ensures
        r == spec_slow_down(speed, by),
        0 <= r <= LIMIT,
{
    bound(sat_sub(speed, by), 0, LIMIT)
}

/// What `collide` returns, as contracts name it.
pub open spec fn spec_collide(m: Motion, dx: i64, dy: i64, dist: i64, toward: i64) -> Motion {
    if dist < CONTACT_DISTANCE {
        let ox = bound(dx, (-2 * LIMIT) as i64, (2 * LIMIT) as i64);
        let oy = bound(dy, (-2 * LIMIT) as i64, (2 * LIMIT) as i64);
        let apart = scale_to(ox, oy, CONTACT_DISTANCE);
        Motion {
            x: if ox == 0 && oy == 0 {
                sat_sub(m.x, CONTACT_DISTANCE)
            } else {
                sat_sub(sat_add(m.x, ox), apart.0)
            },
            y: if ox == 0 && oy == 0 {
                m.y
            } else {
                sat_sub(sat_add(m.y, oy), apart.1)
            },
            heading: turn(toward, PI),
            speed: 0,
        }
    } else {
        m
    }
}

/// Hard collision with a neighbour at offset `(dx, dy)`, `dist` away in the
/// direction `toward`: where the bodies overlap, the pedestrian is put on
/// the line through both, two body radii from the neighbour on its own
/// side, faces straight away and stops. A neighbour at the very same place
/// pushes it along the negative x axis.
#[verifier::when_used_as_spec(spec_collide)]
pub fn collide(m: Motion, dx: i64, dy: i64, dist: i64, toward: i64) -> (r: Motion)
    requires
        m.wf(),
    ensures
        r == spec_collide(m, dx, dy, dist, toward),
        r.wf(),
{
    if dist < CONTACT_DISTANCE {
        let ox: i64 = bound(dx, -2 * LIMIT, 2 * LIMIT);
        let oy: i64 = bound(dy, -2 * LIMIT, 2 * LIMIT);
        let apart: (i64, i64) = scale_to(ox, oy, CONTACT_DISTANCE);
        Motion {
            x: if ox == 0 && oy == 0 {
                sat_sub(m.x, CONTACT_DISTANCE)
            } else {
                sat_sub(sat_add(m.x, ox), apart.0)
            },
            y: if ox == 0 && oy == 0 {
                m.y
            } else {
                sat_sub(sat_add(m.y, oy), apart.1)
            },
            heading: turn(toward, PI),
            speed: 0,
        }
    } else {
        m
    }
}

/// Hard collision: a pedestrian that overlapped a neighbour stands two body
/// radii from it afterwards, give or take a unit, wherever both stay in the
/// band.
pub proof fn lemma_collide_separates(m: Motion, dx: i64, dy: i64, dist: i64, toward: i64)
    requires
        m.wf(),
        dist < CONTACT_DISTANCE,
        in_band(m.x + dx + CONTACT_DISTANCE + 2),
        in_band(m.x + dx - CONTACT_DISTANCE - 2),
        in_band(m.y + dy + CONTACT_DISTANCE + 2),
        in_band(m.y + dy - CONTACT_DISTANCE - 2),
    ensures
        ({
            let r = spec_collide(m, dx, dy, dist, toward);
            CONTACT_DISTANCE - 1 <= length(m.x + dx - r.x, m.y + dy - r.y) <= CONTACT_DISTANCE + 1
        }),
{
    let c = CONTACT_DISTANCE as int;
    if dx == 0 && dy == 0 {
        assert(c * c + 0 * 0 == c * c);
        lemma_floor_sqrt_square(c);
    } else {
        lemma_scaled(dx as int, dy as int, c);
        let s = scaled(dx as int, dy as int, c);
        let ss = s.0 * s.0 + s.1 * s.1;
        lemma_within_of_length(ss, c);
    }
}

/// Whether a neighbour seen at the relative angle `rel` stands in the arc to
/// the right of the forward cone.
pub open spec fn spec_on_right(rel: i64) -> bool {
    QUARTER_PI < rel < QUARTER_PI + HALF_PI
}

/// Whether a neighbour seen at the relative angle `rel` stands to the right.
#[verifier::when_used_as_spec(spec_on_right)]
pub fn on_right(rel: i64) -> (b: bool)
    ensures
        b == spec_on_right(rel),
{
    QUARTER_PI < rel && rel < QUARTER_PI + HALF_PI
}

/// Whether a neighbour seen at the relative angle `rel` stands in the arc to
/// the left of the forward cone.
pub open spec fn spec_on_left(rel: i64) -> bool {
    TAU - (QUARTER_PI + HALF_PI) < rel < TAU - QUARTER_PI
}

/// Whether a neighbour seen at the relative angle `rel` stands to the left.
#[verifier::when_used_as_spec(spec_on_left)]
pub fn on_left(rel: i64) -> (b: bool)
    ensures
        b == spec_on_left(rel),
{
    TAU - (QUARTER_PI + HALF_PI) < rel && rel < TAU - QUARTER_PI
}

/// Whether a neighbour seen at the relative angle `rel` stands in the
/// forward cone.
pub open spec fn spec_in_front(rel: i64) -> bool {
    rel <= QUARTER_PI || rel >= TAU - QUARTER_PI
}

/// Whether a neighbour seen at the relative angle `rel` stands in front.
#[verifier::when_used_as_spec(spec_in_front)]
pub fn in_front(rel: i64) -> (b: bool)
    ensures
        b == spec_in_front(rel),
{
    rel <= QUARTER_PI || rel >= TAU - QUARTER_PI
}

/// Whether two headings that differ by `diff` oppose each other: the
/// difference lies strictly between a quarter turn and three quarters.
pub open spec fn spec_opposing(diff: i64) -> bool {
    HALF_PI < diff < 3 * HALF_PI
}

/// Whether two headings that differ by `diff` oppose each other.
#[verifier::when_used_as_spec(spec_opposing)]
pub fn opposing(diff: i64) -> (b: bool)
    ensures
        b == spec_opposing(diff),
{
    HALF_PI < diff && diff < 3 * HALF_PI
}

/// What `yield_side` returns, as contracts name it.
pub open spec fn spec_yield_side(
    m: Motion,
    etiquette: Etiquette,
    dt: u32,
    dist: i64,
    toward: i64,
) -> Motion {
    let rel = turn(toward, (-m.heading) as i64);
    let drift = fx_mul(PEDESTRIAN_ETIQUETTE_BIAS_FACTOR, dt as i64);
    if dist < PEDESTRIAN_LOOK_BESIDE_RADIUS && on_right(rel) && etiquette == Etiquette::RightBias {
        Motion { heading: turn(m.heading, (-drift) as i64), ..m }
    } else if dist < PEDESTRIAN_LOOK_BESIDE_RADIUS && on_left(rel) && etiquette
        == Etiquette::LeftBias {
        Motion { heading: turn(m.heading, drift), ..m }
    } else {
        m
    }
}

/// Side cones: a neighbour close by on the side to which the pedestrian's
/// bias drifts takes the drift of one tick back.
#[verifier::when_used_as_spec(spec_yield_side)]
pub fn yield_side(m: Motion, etiquette: Etiquette, dt: u32, dist: i64, toward: i64) -> (r: Motion)
    requires
        m.wf(),
    ensures
        r == spec_yield_side(m, etiquette, dt, dist, toward),
        r.wf(),
{
    let rel: i64 = turn(toward, -m.heading);
    let drift: i64 = fx_mul(PEDESTRIAN_ETIQUETTE_BIAS_FACTOR, dt as i64);
    if dist < PEDESTRIAN_LOOK_BESIDE_RADIUS && on_right(rel) && etiquette == Etiquette::RightBias {
        Motion { heading: turn(m.heading, -drift), ..m }
    } else if dist < PEDESTRIAN_LOOK_BESIDE_RADIUS && on_left(rel) && etiquette
        == Etiquette::LeftBias {
        Motion { heading: turn(m.heading, drift), ..m }
    } else {
        m
    }
}

/// What `avoid_oncoming` returns, as contracts name it.
pub open spec fn spec_avoid_oncoming(m: Motion, etiquette: Etiquette, dt: u32, toward: i64) -> Motion {
    let ratio = fx_mul(PEDESTRIAN_OPPOSING_REPULSION, dt as i64);
    match etiquette {
        Etiquette::LeftBias => Motion {
            heading: nudge_angle(m.heading, turn(toward, (-HALF_PI) as i64), ratio),
            ..m
        },
        Etiquette::RightBias => Motion {
            heading: nudge_angle(m.heading, turn(toward, HALF_PI), ratio),
            ..m
        },
        Etiquette::NoBias => Motion {
            heading: nudge_angle(m.heading, turn(toward, PI), ratio),
            speed: slow_down(m.speed, fx_mul(PEDESTRIAN_FOLLOWING_DECEL, dt as i64)),
            ..m
        },
    }
}

/// The turn before an oncoming neighbour in the direction `toward`: a left
/// bias turns towards a quarter turn before that direction, a right bias
/// towards a quarter turn after it, and no bias turns straight away from it
/// and slows down.
#[verifier::when_used_as_spec(spec_avoid_oncoming)]
pub fn avoid_oncoming(m: Motion, etiquette: Etiquette, dt: u32, toward: i64) -> (r: Motion)
    requires
        m.wf(),
    ensures
        r == spec_avoid_oncoming(m, etiquette, dt, toward),
        r.wf(),
{
    let ratio: i64 = fx_mul(PEDESTRIAN_OPPOSING_REPULSION, dt as i64);
    match etiquette {
        Etiquette::LeftBias => Motion {
            heading: nudge_angle(m.heading, turn(toward, -HALF_PI), ratio),
            ..m
        },
        Etiquette::RightBias => Motion {
            heading: nudge_angle(m.heading, turn(toward, HALF_PI), ratio),
            ..m
        },
        Etiquette::NoBias => Motion {
            heading: nudge_angle(m.heading, turn(toward, PI), ratio),
            speed: slow_down(m.speed, fx_mul(PEDESTRIAN_FOLLOWING_DECEL, dt as i64)),
            ..m
        },
    }
}

/// What `face_ahead` returns, as contracts name it.
pub open spec fn spec_face_ahead(
    m: Motion,
    etiquette: Etiquette,
    dt: u32,
    dist: i64,
    toward: i64,
    neighbour_heading: i64,
) -> Motion {
    let rel = turn(toward, (-m.heading) as i64);
    if dist < PEDESTRIAN_LOOK_AHEAD_RADIUS && in_front(rel) {
        let turned = if opposing(turn(m.heading, (-wrap_angle(neighbour_heading)) as i64)) {
            avoid_oncoming(m, etiquette, dt, toward)
        } else {
            Motion {
                speed: slow_down(m.speed, fx_mul(PEDESTRIAN_FOLLOWING_DECEL, dt as i64)),
                ..m
            }
        };
        if dist < COMFORT_DISTANCE {
            Motion {
                speed: slow_down(turned.speed, fx_mul(PEDESTRIAN_OPPOSING_DECEL, dt as i64)),
                ..turned
            }
        } else {
            turned
        }
    } else {
        m
    }
}

/// Forward cone: before an oncoming neighbour the pedestrian turns as its
/// etiquette says; behind one that walks the same way it only slows down;
/// and it slows down further where the neighbour is inside its personal
/// space. Whether the neighbour is oncoming is judged by the heading the
/// pedestrian has at this point of its tick.
#[verifier::when_used_as_spec(spec_face_ahead)]
pub fn face_ahead(
    m: Motion,
    etiquette: Etiquette,
    dt: u32,
    dist: i64,
    toward: i64,
    neighbour_heading: i64,
) -> (r: Motion)
    requires
        m.wf(),
    ensures
        r == spec_face_ahead(m, etiquette, dt, dist, toward, neighbour_heading),
        r.wf(),
{
    let rel: i64 = turn(toward, -m.heading);
    if dist < PEDESTRIAN_LOOK_AHEAD_RADIUS && in_front(rel) {
        let turned: Motion = if opposing(turn(m.heading, -wrap_angle(neighbour_heading))) {
            avoid_oncoming(m, etiquette, dt, toward)
        } else {
            Motion {
                speed: slow_down(m.speed, fx_mul(PEDESTRIAN_FOLLOWING_DECEL, dt as i64)),
                ..m
            }
        };
        if dist < COMFORT_DISTANCE {
            Motion {
                speed: slow_down(turned.speed, fx_mul(PEDESTRIAN_OPPOSING_DECEL, dt as i64)),
                ..turned
            }
        } else {
            turned
        }
    } else {
        m
    }
}

/// What `keep_space` returns, as contracts name it.
pub open spec fn spec_keep_space(m: Motion, dt: u32, dist: i64, toward: i64) -> Motion {
    if dist < COMFORT_DISTANCE {
        let base = fx_mul(PEDESTRIAN_PSPACE_REPULSION, dt as i64);
        let ratio = if dist <= 0 {
            SCALE
        } else {
            mul_div(base, SCALE, dist)
        };
        Motion { heading: nudge_angle(m.heading, turn(toward, PI), ratio), ..m }
    } else {
        m
    }
}

/// Personal-space repulsion: a neighbour inside the personal space turns
/// the heading away from it, the more the closer it is; one at the very
/// same place turns it away at once.
#[verifier::when_used_as_spec(spec_keep_space)]
pub fn keep_space(m: Motion, dt: u32, dist: i64, toward: i64) -> (r: Motion)
    requires
        m.wf(),
    ensures
        r == spec_keep_space(m, dt, dist, toward),
        r.wf(),
{
    if dist < COMFORT_DISTANCE {
        let base: i64 = fx_mul(PEDESTRIAN_PSPACE_REPULSION, dt as i64);
        let ratio: i64 = if dist <= 0 {
            SCALE
        } else {
            mul_div(base, SCALE, dist)
        };
        Motion { heading: nudge_angle(m.heading, turn(toward, PI), ratio), ..m }
    } else {
        m
    }
}

/// What `react_to_neighbour` returns, as contracts name it.
pub open spec fn spec_react_to_neighbour(
    m: Motion,
    etiquette: Etiquette,
    dt: u32,
    neighbour: (i64, i64, i64),
) -> Motion {
    let dx = (clip(neighbour.0) - m.x) as i64;
    let dy = (clip(neighbour.1) - m.y) as i64;
    let dist = hypot(dx, dy);
    let toward = bearing(dx, dy);
    let pushed = collide(m, dx, dy, dist, toward);
    let yielded = yield_side(pushed, etiquette, dt, dist, toward);
    let faced = face_ahead(yielded, etiquette, dt, dist, toward, neighbour.2);
    keep_space(faced, dt, dist, toward)
}

/// The reaction to one neighbour, given as position and heading: hard
/// collision, side cones, forward cone and personal space, in that order.
/// The distance and the direction to the neighbour are taken once, before
/// the collision moves the pedestrian.
#[verifier::when_used_as_spec(spec_react_to_neighbour)]
pub fn react_to_neighbour(m: Motion, etiquette: Etiquette, dt: u32, neighbour: (i64, i64, i64)) -> (r:
    Motion)
    requires
        m.wf(),
    ensures
        r == spec_react_to_neighbour(m, etiquette, dt, neighbour),
        r.wf(),
{
    let dx: i64 = clip(neighbour.0) - m.x;
    let dy: i64 = clip(neighbour.1) - m.y;
    let dist: i64 = hypot(dx, dy);
    let toward: i64 = bearing(dx, dy);
    let pushed: Motion = collide(m, dx, dy, dist, toward);
    let yielded: Motion = yield_side(pushed, etiquette, dt, dist, toward);
    let faced: Motion = face_ahead(yielded, etiquette, dt, dist, toward, neighbour.2);
    keep_space(faced, dt, dist, toward)
}

/// Hard collision, seen from the whole reaction: a pedestrian that
/// overlapped a neighbour stands two body radii from it afterwards, give or
/// take a unit, stands still, and faces straight away from where the
/// neighbour was seen; wherever the neighbour keeps two body radii and two
/// units from the edge of the band.
pub proof fn lemma_react_separates(
    m: Motion,
    etiquette: Etiquette,
    dt: u32,
    neighbour: (i64, i64, i64),
)
    requires
        m.wf(),
        hypot((neighbour.0 - m.x) as i64, (neighbour.1 - m.y) as i64) < CONTACT_DISTANCE,
        in_band(neighbour.0 + CONTACT_DISTANCE + 2),
        in_band(neighbour.0 - CONTACT_DISTANCE - 2),
        in_band(neighbour.1 + CONTACT_DISTANCE + 2),
        in_band(neighbour.1 - CONTACT_DISTANCE - 2),
    ensures
        ({
            let r = spec_react_to_neighbour(m, etiquette, dt, neighbour);
            &&& CONTACT_DISTANCE - 1 <= length(neighbour.0 - r.x, neighbour.1 - r.y)
                <= CONTACT_DISTANCE + 1
            &&& r.speed == 0
            &&& r.heading == turn(
                bearing((neighbour.0 - m.x) as i64, (neighbour.1 - m.y) as i64),
                PI,
            )
        }),
{
    let dx = (neighbour.0 - m.x) as i64;
    let dy = (neighbour.1 - m.y) as i64;
    let dist = hypot(dx, dy);
    let toward = bearing(dx, dy);
    lemma_collide_separates(m, dx, dy, dist, toward);
    let pushed = spec_collide(m, dx, dy, dist, toward);
    let away = pushed.heading;
    assert(turn(toward, (-away) as i64) == PI);
    let yielded = spec_yield_side(pushed, etiquette, dt, dist, toward);
    assert(yielded == pushed);
    let faced = spec_face_ahead(yielded, etiquette, dt, dist, toward, neighbour.2);
    assert(faced == pushed);
    assert(crate::angle::signed_diff(away as int, away as int) == 0);
    let ratio = if dist <= 0 {
        SCALE
    } else {
        mul_div(fx_mul(PEDESTRIAN_PSPACE_REPULSION, dt as i64), SCALE, dist)
    };
    assert(0 * crate::fixed::clamp(ratio as int, 0, SCALE as int) == 0) by (nonlinear_arith);
    assert(nudge_angle(away, away, ratio) == away);
}

/// The reactions to the neighbours `neighbours[from..]`, one after the
/// other.
pub open spec fn react_from(
    m: Motion,
    etiquette: Etiquette,
    dt: u32,
    neighbours: Seq<(i64, i64, i64)>,
    from: int,
) -> Motion
    decreases neighbours.len() - from,
{
    if from < 0 || from >= neighbours.len() {
        m
    } else {
        react_from(
            react_to_neighbour(m, etiquette, dt, neighbours[from]),
            etiquette,
            dt,
            neighbours,
            from + 1,
        )
    }
}

/// The reactions to all of `neighbours`, in their order.
pub open spec fn spec_react_to_neighbours(
    m: Motion,
    etiquette: Etiquette,
    dt: u32,
    neighbours: Seq<(i64, i64, i64)>,
) -> Motion {
    react_from(m, etiquette, dt, neighbours, 0)
}

/// Neighbour reaction: the pedestrian reacts to each of `neighbours` in
/// turn.
pub fn react_to_neighbours(
    m: Motion,
    etiquette: Etiquette,
    dt: u32,
    neighbours: &[(i64, i64, i64)],
) -> (r: Motion)
    requires
        m.wf(),
    ensures
        r == spec_react_to_neighbours(m, etiquette, dt, neighbours@),
        r.wf(),
{
    let mut cur: Motion = m;
    let mut i: usize = 0;
    while i < neighbours.len()
        invariant
            i <= neighbours.len(),
            cur.wf(),
            react_from(cur, etiquette, dt, neighbours@, i as int) == react_from(
                m,
                etiquette,
                dt,
                neighbours@,
                0,
            ),
        decreases neighbours.len() - i,
    {
        cur = react_to_neighbour(cur, etiquette, dt, neighbours[i]);
        i += 1;
    }
    cur
}

/// What `apply_noise` returns, as contracts name it.
pub open spec fn spec_apply_noise(m: Motion, dt: u32, heading_noise: i64, speed_noise: i64) -> Motion {
    let swing = fx_mul(
        fx_mul(bound(heading_noise, (-SCALE) as i64, SCALE), PEDESTRIAN_DIRECTION_NOISE_FACTOR),
        dt as i64,
    );
    let surge = fx_mul(
        fx_mul(bound(speed_noise, (-SCALE) as i64, SCALE), PEDESTRIAN_SPEED_NOISE_FACTOR),
        dt as i64,
    );
    Motion {
        heading: turn(m.heading, swing),
        speed: bound(sat_add(m.speed, surge), 0, LIMIT),
        ..m
    }
}

/// Noise: the heading and the speed change by the given fractions, each
/// taken from `[-1, 1]`, of the largest change that `dt` allows. The speed
/// does not fall below zero.
#[verifier::when_used_as_spec(spec_apply_noise)]
pub fn apply_noise(m: Motion, dt: u32, heading_noise: i64, speed_noise: i64) -> (r: Motion)
    requires
        m.wf(),
    ensures
        r == spec_apply_noise(m, dt, heading_noise, speed_noise),
        r.wf(),
{
    let swing: i64 = fx_mul(
        fx_mul(bound(heading_noise, -SCALE, SCALE), PEDESTRIAN_DIRECTION_NOISE_FACTOR),
        dt as i64,
    );
    let surge: i64 = fx_mul(
        fx_mul(bound(speed_noise, -SCALE, SCALE), PEDESTRIAN_SPEED_NOISE_FACTOR),
        dt as i64,
    );
    Motion {
        heading: turn(m.heading, swing),
        speed: bound(sat_add(m.speed, surge), 0, LIMIT),
        ..m
    }
}

/// The step that a pedestrian makes in a tick of `dt`: the length it walks,
/// along its heading.
pub open spec fn stride(m: Motion, dt: u32) -> (i64, i64) {
    let step = fx_mul(m.speed, dt as i64);
    (fx_mul(step, cos(m.heading)), fx_mul(step, sin(m.heading)))
}

/// The step of a tick is as long as the pedestrian walks in that time: no
/// longer than the speed times `dt`, but for two millionths of it and a
/// unit.
pub proof fn lemma_stride_length(m: Motion, dt: u32)
    requires
        m.wf(),
    ensures
        ({
            let step = fx_mul(m.speed, dt as i64);
            let s = stride(m, dt);
            &&& 0 <= step <= LIMIT
            &&& -step <= s.0 <= step
            &&& -step <= s.1 <= step
            &&& (s.0 * s.0 + s.1 * s.1) * (SCALE * SCALE) <= (step * (SCALE + 2) + SCALE) * (step
                * (SCALE + 2) + SCALE)
        }),
{
    let g = SCALE as int;
    let step = fx_mul(m.speed, dt as i64) as int;
    assert(m.speed * dt >= 0) by (nonlinear_arith)
        requires
            m.speed >= 0,
            dt >= 0,
    ;
    crate::fixed::lemma_round_div_sign(m.speed * dt, g);
    let c = crate::angle::cosine(m.heading as int);
    let sn = crate::angle::sine(m.heading as int);
    crate::angle::lemma_unit_length(m.heading as int);
    assert(-(step * g) <= step * c <= step * g && -(step * g) <= step * sn <= step * g)
        by (nonlinear_arith)
        requires
            step >= 0,
            -g <= c <= g,
            -g <= sn <= g,
    ;
    crate::fixed::lemma_round_div_bound(step * c, g, step);
    crate::fixed::lemma_round_div_bound(step * sn, g, step);
    crate::fixed::lemma_round_div_error(step * c, g);
    crate::fixed::lemma_round_div_error(step * sn, g);
    let s = stride(m, dt);
    let vx = step * c;
    let vy = step * sn;
    let ex = s.0 * g - vx;
    let ey = s.1 * g - vy;
    let a = step * (g + 2);
    assert(vx * vx + vy * vy == (step * step) * (c * c + sn * sn)) by (nonlinear_arith)
        requires
            vx == step * c,
            vy == step * sn,
    ;
    assert((step * step) * (c * c + sn * sn) <= (step * step) * ((g + 2) * (g + 2)))
        by (nonlinear_arith)
        requires
            c * c + sn * sn < (g + 2) * (g + 2),
    ;
    assert(a * a == (step * step) * ((g + 2) * (g + 2)) && a >= 0) by (nonlinear_arith)
        requires
            a == step * (g + 2),
            step >= 0,
            g >= 0,
    ;
    assert(ex * ex + ey * ey <= g * g) by (nonlinear_arith)
        requires
            -g <= 2 * ex <= g,
            -g <= 2 * ey <= g,
    ;
    crate::scale::lemma_sum_of_vectors(vx, vy, ex, ey, a, g);
    let sx = s.0 * g;
    let sy = s.1 * g;
    assert((s.0 * s.0 + s.1 * s.1) * (g * g) == sx * sx + sy * sy) by (nonlinear_arith)
        requires
            sx == s.0 * g,
            sy == s.1 * g,
    ;
}

/// What `integrate` returns, as contracts name it.
pub open spec fn spec_integrate(m: Motion, dt: u32) -> Motion {
    let s = stride(m, dt);
    Motion { x: sat_add(m.x, s.0), y: sat_add(m.y, s.1), ..m }
}

/// Integration: the position advances by the speed times `dt` along the
/// heading, and stops at the edge of the band.
#[verifier::when_used_as_spec(spec_integrate)]
pub fn integrate(m: Motion, dt: u32) -> (r: Motion)
    requires
        m.wf(),
    ensures
        r == spec_integrate(m, dt),
        r.wf(),
{
    let step: i64 = fx_mul(m.speed, dt as i64);
    Motion {
        x: sat_add(m.x, fx_mul(step, cos(m.heading))),
        y: sat_add(m.y, fx_mul(step, sin(m.heading))),
        ..m
    }
}

/// What `resolve_wall` returns, as contracts name it.
pub open spec fn spec_resolve_wall(m: Motion, wall: Wall, dest: (i64, i64), dt: u32) -> Motion {
    let p = (m.x, m.y);
    let dist = wall.spec_distance(p);
    let outward = bearing(wall.spec_normal(p).0 as i64, wall.spec_normal(p).1 as i64);
    if dist <= 0 {
        m
    } else {
        let pushed = if dist < PEDESTRIAN_RADIUS {
            let q = wall.push_out(p, PEDESTRIAN_RADIUS);
            let goal = bearing((dest.0 - q.0) as i64, (dest.1 - q.1) as i64);
            Motion {
                x: q.0,
                y: q.1,
                heading: if opposing(turn(goal, (-m.heading) as i64)) {
                    outward
                } else {
                    nudge_angle(m.heading, outward, dt as i64)
                },
                ..m
            }
        } else {
            m
        };
        if dist < PEDESTRIAN_PSPACE_RADIUS {
            Motion {
                heading: nudge_angle(pushed.heading, outward, fx_mul(WALL_REPULSION, dt as i64)),
                ..pushed
            }
        } else {
            pushed
        }
    }
}

/// Collision with one wall. A pedestrian closer to the wall than its body
/// radius is put at that radius from the wall; it then faces straight away
/// from the wall where its heading opposes the bearing of its destination,
/// and else turns towards that direction. A wall inside the personal space
/// turns the heading a little further away. A pedestrian that stands on the
/// wall is left alone.
#[verifier::when_used_as_spec(spec_resolve_wall)]
pub fn resolve_wall(m: Motion, wall: Wall, dest: (i64, i64), dt: u32) -> (r: Motion)
    requires
        m.wf(),
        wall.wf(),
        point_in_band(dest),
    ensures
        r == spec_resolve_wall(m, wall, dest, dt),
        r.wf(),
{
    let p: (i64, i64) = (m.x, m.y);
    let (dist, normal): (i64, (i64, i64)) = wall.get_normal_vector(p);
    let outward: i64 = bearing(normal.0, normal.1);
    if dist <= 0 {
        m
    } else {
        let pushed: Motion = if dist < PEDESTRIAN_RADIUS {
            let q: (i64, i64) = wall.push_out(p, PEDESTRIAN_RADIUS);
            let goal: i64 = bearing(dest.0 - q.0, dest.1 - q.1);
            Motion {
                x: q.0,
                y: q.1,
                heading: if opposing(turn(goal, -m.heading)) {
                    outward
                } else {
                    nudge_angle(m.heading, outward, dt as i64)
                },
                ..m
            }
        } else {
            m
        };
        if dist < PEDESTRIAN_PSPACE_RADIUS {
            Motion {
                heading: nudge_angle(pushed.heading, outward, fx_mul(WALL_REPULSION, dt as i64)),
                ..pushed
            }
        } else {
            pushed
        }
    }
}

/// Wall push-out: a pedestrian that stood closer to a wall than its body
/// radius stands that radius from the wall once the collision is resolved,
/// give or take `PUSH_TOLERANCE` units, wherever the wall keeps the radius
/// and two units from the edge of the band.
pub proof fn lemma_resolve_wall_restores_clearance(m: Motion, wall: Wall, dest: (i64, i64), dt: u32)
    requires
        m.wf(),
        wall.wf(),
        0 < wall.spec_distance((m.x, m.y)) < PEDESTRIAN_RADIUS,
        wall.clear_of_edge(PEDESTRIAN_RADIUS),
    ensures
        ({
            let r = spec_resolve_wall(m, wall, dest, dt);
            PEDESTRIAN_RADIUS - PUSH_TOLERANCE <= wall.spec_distance((r.x, r.y))
                <= PEDESTRIAN_RADIUS + PUSH_TOLERANCE
        }),
{
    lemma_push_out_clearance(wall, (m.x, m.y), PEDESTRIAN_RADIUS);
}

/// Wall push-out where the world has one wall: the pedestrian ends within
/// `PUSH_TOLERANCE` units of its body radius from the wall, and walks as
/// fast as before.
pub proof fn lemma_single_wall_restores_clearance(
    m: Motion,
    wall: Wall,
    dest: (i64, i64),
    dt: u32,
)
    requires
        m.wf(),
        wall.wf(),
        0 < wall.spec_distance((m.x, m.y)) < PEDESTRIAN_RADIUS,
        wall.clear_of_edge(PEDESTRIAN_RADIUS),
    ensures
        ({
            let r = spec_resolve_wall_collisions(m, seq![wall], dest, dt);
            &&& PEDESTRIAN_RADIUS - PUSH_TOLERANCE <= wall.spec_distance((r.x, r.y))
                <= PEDESTRIAN_RADIUS + PUSH_TOLERANCE
            &&& r.speed == m.speed
        }),
{
    lemma_resolve_wall_restores_clearance(m, wall, dest, dt);
    reveal_with_fuel(resolve_from, 3);
    assert(seq![wall][0] == wall);
}

/// The collisions with the walls `walls[from..]`, one after the other.
pub open spec fn resolve_from(
    m: Motion,
    walls: Seq<Wall>,
    dest: (i64, i64),
    dt: u32,
    from: int,
) -> Motion
    decreases walls.len() - from,
{
    if from < 0 || from >= walls.len() {
        m
    } else {
        resolve_from(resolve_wall(m, walls[from], dest, dt), walls, dest, dt, from + 1)
    }
}

/// The collisions with all of `walls`, in their order.
pub open spec fn spec_resolve_wall_collisions(
    m: Motion,
    walls: Seq<Wall>,
    dest: (i64, i64),
    dt: u32,
) -> Motion {
    resolve_from(m, walls, dest, dt, 0)
}

/// Wall collision resolution: the pedestrian is held against each of
/// `walls` in turn.
pub fn resolve_wall_collisions(m: Motion, walls: &Vec<Wall>, dest: (i64, i64), dt: u32) -> (r: Motion)
    requires
        m.wf(),
        all_wf(walls@),
        point_in_band(dest),
    ensures
        r == spec_resolve_wall_collisions(m, walls@, dest, dt),
        r.wf(),
{
    let mut cur: Motion = m;
    let mut i: usize = 0;
    while i < walls.len()
        invariant
            i <= walls.len(),
            cur.wf(),
            all_wf(walls@),
            point_in_band(dest),
            resolve_from(cur, walls@, dest, dt, i as int) == resolve_from(m, walls@, dest, dt, 0),
        decreases walls.len() - i,
    {
        cur = resolve_wall(cur, walls[i], dest, dt);
        i += 1;
    }
    cur
}

} // verus!
