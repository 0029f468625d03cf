use std::sync::Arc;
use vstd::prelude::*;
use crate::angle::bearing;
use crate::environment::SimArea;
use crate::error::ConfigError;
use crate::etiquette::Etiquette;
use crate::fixed::{hypot, LIMIT};
use crate::geometry::{all_wf, Wall};
use crate::motion::{
    align_to_goal, apply_bias, apply_noise, integrate, react_to_neighbours, relax_speed,
    resolve_wall_collisions, spec_react_to_neighbours, spec_resolve_wall_collisions, Motion,
    PEDESTRIAN_RADIUS,
};

verus! {

/// What a pedestrian is, as the contracts see it.
pub struct WalkerView {
    pub motion: Motion,
    pub target_speed: i64,
    pub environment: SimArea,
    pub group: usize,
    pub target_location: usize,
    pub gate_states: Seq<bool>,
    pub gate_timer: Option<u64>,
    pub etiquette: Etiquette,
}

impl WalkerView {
    /// The motion is in range, the target speed lies in `[0, LIMIT]`, the
    /// destination is a waypoint of the world, and there is one crossing
    /// flag for each timing gate.
    pub open spec fn wf(self) -> bool {
        &&& self.motion.wf()
        &&& 0 <= self.target_speed <= LIMIT
        &&& self.environment.wf()
        &&& self.group < self.environment.group_count()
        &&& self.target_location < self.environment.end_points(self.group as int).len()
        &&& self.gate_states.len() == self.environment.gates().len()
    }

    /// The end point the pedestrian walks to.
    pub open spec fn destination(self) -> (i64, i64) {
        self.environment.end_points(self.group as int)[self.target_location as int]
    }

    /// The position, as a point.
    pub open spec fn position(self) -> (i64, i64) {
        (self.motion.x, self.motion.y)
    }

    /// The distance to the destination, rounded down.
    pub open spec fn distance_to_destination(self) -> i64 {
        hypot(
            (self.motion.x - self.destination().0) as i64,
            (self.motion.y - self.destination().1) as i64,
        )
    }

    /// Position and heading, as a neighbour sees them.
    pub open spec fn outline(self) -> (i64, i64, i64) {
        (self.motion.x, self.motion.y, self.motion.heading)
    }
}

/// Whether a pedestrian at `p` touches a timing gate: it is no farther from
/// `gate` than the body radius.
pub open spec fn touches(gate: Wall, p: (i64, i64)) -> bool {
    gate.spec_distance(p) <= PEDESTRIAN_RADIUS
}

/// The crossing flags after a look at every gate from `p`: a flag is set
/// where it was set before or its gate is touched.
pub open spec fn marked(states: Seq<bool>, gates: Seq<Wall>, p: (i64, i64)) -> Seq<bool> {
    Seq::new(states.len(), |i: int| states[i] || touches(gates[i], p))
}

/// How many of the first `upto` flags are set.
pub open spec fn count_marked(states: Seq<bool>, upto: int) -> nat
    decreases upto,
{
    if upto <= 0 {
        0
    } else {
        count_marked(states, upto - 1) + if states[upto - 1] {
            1nat
        } else {
            0nat
        }
    }
}

/// The time `t` a tick of `dt` later, on a clock that stops at its last
/// value.
pub open spec fn spec_later(t: u64, dt: u32) -> u64 {
    if t + dt > u64::MAX {
        u64::MAX
    } else {
        (t + dt) as u64
    }
}

/// The time `t` a tick of `dt` later, on a clock that stops at its last
/// value.
#[verifier::when_used_as_spec(spec_later)]
pub fn later(t: u64, dt: u32) -> (r: u64)
    ensures
        r == spec_later(t, dt),
{
    if t > u64::MAX - dt as u64 {
        u64::MAX
    } else {
        t + dt as u64
    }
}

/// What the timing gates make of one tick: the new crossing flags, the new
/// timer, and the travel time measured, if one was.
pub struct GateOutcome {
    pub states: Seq<bool>,
    pub timer: Option<u64>,
    pub sample: Option<u64>,
}

/// Timing-gate bookkeeping for a pedestrian that stands at `p` after a tick
/// of `dt`. A running timer advances by `dt`. Each gate that is touched and
/// not yet flagged is flagged, and the first such flag starts the timer at
/// zero. Once exactly two gates are flagged, the timer's value is the
/// sample, and flags and timer are cleared.
pub open spec fn check_gates(
    states: Seq<bool>,
    timer: Option<u64>,
    gates: Seq<Wall>,
    p: (i64, i64),
    dt: u32,
) -> GateOutcome {
    let ticked = match timer {
        Some(t) => Some(later(t, dt)),
        None => None,
    };
    let now = marked(states, gates, p);
    let running = if ticked is None && now != states {
        Some(0u64)
    } else {
        ticked
    };
    if running is Some && count_marked(now, now.len() as int) == 2 {
        GateOutcome { states: Seq::new(now.len(), |i: int| false), timer: None, sample: running }
    } else {
        GateOutcome { states: now, timer: running, sample: None }
    }
}

/// The motion of a pedestrian after one tick, before the timing gates are
/// looked at: speed relaxation, goal alignment, etiquette bias, the
/// reactions to the neighbours listed in `after` and then to those in
/// `before`, noise, integration, and wall collisions, in that order.
#[verifier::opaque]
pub open spec fn moved(
    v: WalkerView,
    dt: u32,
    before: Seq<(i64, i64, i64)>,
    after: Seq<(i64, i64, i64)>,
    heading_noise: i64,
    speed_noise: i64,
) -> Motion {
    let dest = v.destination();
    let relaxed = relax_speed(v.motion, v.target_speed, dt);
    let aligned = align_to_goal(relaxed, dest, dt);
    let biased = apply_bias(aligned, v.etiquette, dt);
    let reacted = spec_react_to_neighbours(
        spec_react_to_neighbours(biased, v.etiquette, dt, after),
        v.etiquette,
        dt,
        before,
    );
    let shaken = apply_noise(reacted, dt, heading_noise, speed_noise);
    let stepped = integrate(shaken, dt);
    spec_resolve_wall_collisions(stepped, v.environment.walls(), dest, dt)
}

/// A pedestrian after one tick.
pub open spec fn stepped(
    v: WalkerView,
    dt: u32,
    before: Seq<(i64, i64, i64)>,
    after: Seq<(i64, i64, i64)>,
    heading_noise: i64,
    speed_noise: i64,
) -> WalkerView {
    let m = moved(v, dt, before, after, heading_noise, speed_noise);
    let g = check_gates(v.gate_states, v.gate_timer, v.environment.gates(), (m.x, m.y), dt);
    WalkerView { motion: m, gate_states: g.states, gate_timer: g.timer, ..v }
}

/// The travel time that a pedestrian's tick measures, if it measures one.
pub open spec fn sampled(
    v: WalkerView,
    dt: u32,
    before: Seq<(i64, i64, i64)>,
    after: Seq<(i64, i64, i64)>,
    heading_noise: i64,
    speed_noise: i64,
) -> Option<u64> {
    let m = moved(v, dt, before, after, heading_noise, speed_noise);
    check_gates(v.gate_states, v.gate_timer, v.environment.gates(), (m.x, m.y), dt).sample
}

/// What is wrong with a pedestrian of group `group` that walks from start
/// point `start` to end point `end` at `target_speed`, if anything: the
/// group is looked at first, then the start point, the end point and the
/// speed.
pub open spec fn walker_error(
    area: SimArea,
    group: usize,
    start: usize,
    end: usize,
    target_speed: i64,
) -> Option<ConfigError> {
    if group >= area.group_count() {
        Some(ConfigError::UnknownGroup)
    } else if start >= area.start_points(group as int).len() {
        Some(ConfigError::UnknownStart)
    } else if end >= area.end_points(group as int).len() {
        Some(ConfigError::UnknownEnd)
    } else if target_speed < 0 || target_speed > LIMIT {
        Some(ConfigError::OutOfBounds)
    } else {
        None
    }
}

/// A pedestrian as it stands at its start point: it faces its end point,
/// stands still, and has crossed no gate.
pub open spec fn fresh_walker(
    area: SimArea,
    group: usize,
    start: usize,
    end: usize,
    target_speed: i64,
    etiquette: Etiquette,
) -> WalkerView {
    let from = area.start_points(group as int)[start as int];
    let to = area.end_points(group as int)[end as int];
    WalkerView {
        motion: Motion {
            x: from.0,
            y: from.1,
            heading: bearing((to.0 - from.0) as i64, (to.1 - from.1) as i64),
            speed: 0,
        },
        target_speed,
        environment: area,
        group,
        target_location: end,
        gate_states: Seq::new(area.gates().len(), |i: int| false),
        gate_timer: None,
        etiquette,
    }
}

/// Flags every gate of `gates` that a pedestrian at `p` touches, and tells
/// whether a flag was newly set and how many flags are set now.
fn mark_gates(states: &mut Vec<bool>, gates: &Vec<Wall>, p: (i64, i64)) -> (r: (bool, usize))
    requires
        old(states)@.len() == gates@.len(),
        all_wf(gates@),
    ensures
        final(states)@ == marked(old(states)@, gates@, p),
        r.0 == (final(states)@ != old(states)@),
        r.1 == count_marked(final(states)@, gates@.len() as int),
{
    let ghost before = states@;
    let mut any_new: bool = false;
    let mut count: usize = 0;
    let mut i: usize = 0;
    while i < gates.len()
        invariant
            i <= gates@.len(),
            states@.len() == gates@.len(),
            before.len() == gates@.len(),
            all_wf(gates@),
            forall|j: int|
                0 <= j < i ==> #[trigger] states@[j] == (before[j] || touches(gates@[j], p)),
            forall|j: int| i <= j < gates@.len() ==> #[trigger] states@[j] == before[j],
            any_new <==> exists|j: int| 0 <= j < i && #[trigger] states@[j] != before[j],
            count == count_marked(states@, i as int),
            count <= i,
        decreases gates@.len() - i,
    {
        let ghost prev = states@;
        let d: i64 = gates[i].get_normal_vector(p).0;
        if !states[i] && d <= PEDESTRIAN_RADIUS {
            states[i] = true;
            any_new = true;
            count += 1;
        } else if states[i] {
            count += 1;
        }
        proof {
            lemma_count_marked_prefix(prev, states@, i as int);
            assert(prev[i as int] == before[i as int]);
            assert(states@[i as int] == (before[i as int] || touches(gates@[i as int], p)));
            assert forall|j: int| 0 <= j < i implies #[trigger] states@[j] == (before[j]
                || touches(gates@[j], p)) by {
                assert(states@[j] == prev[j]);
            }
            if any_new {
                if states@[i as int] != before[i as int] {
                } else {
                    let j = choose|j: int| 0 <= j < i && #[trigger] prev[j] != before[j];
                    assert(states@[j] != before[j]);
                }
            }
        }
        i += 1;
    }
    proof {
        assert(states@ =~= marked(before, gates@, p));
        if any_new {
            let j = choose|j: int| 0 <= j < i && #[trigger] states@[j] != before[j];
            assert(states@[j] != before[j]);
        } else {
            assert(states@ =~= before);
        }
    }
    (any_new, count)
}

/// Flags that agree on their first `upto` places count the same there.
proof fn lemma_count_marked_prefix(a: Seq<bool>, b: Seq<bool>, upto: int)
    requires
        forall|j: int| 0 <= j < upto ==> a[j] == b[j],
    ensures
        count_marked(a, upto) == count_marked(b, upto),
    decreases upto,
{
    if upto > 0 {
        lemma_count_marked_prefix(a, b, upto - 1);
    }
}

/// One simulated pedestrian.
pub struct Walker {
    motion: Motion,
    target_speed: i64,
    environment: Arc<SimArea>,
    group: usize,
    target_location: usize,
    timing_boundary_states: Vec<bool>,
    timing_boundary_elapsed: Option<u64>,
    etiquette: Etiquette,
}

impl View for Walker {
    type V = WalkerView;

    closed spec fn view(&self) -> WalkerView {
        WalkerView {
            motion: self.motion,
            target_speed: self.target_speed,
            environment: *self.environment,
            group: self.group,
            target_location: self.target_location,
            gate_states: self.timing_boundary_states@,
            gate_timer: self.timing_boundary_elapsed,
            etiquette: self.etiquette,
        }
    }
}

impl Walker {
    /// A pedestrian of group `group` at start point `start`, bound for end
    /// point `end`, or the reason why there is no such pedestrian.
    pub fn new(
        environment: Arc<SimArea>,
        group: usize,
        start: usize,
        end: usize,
        target_speed: i64,
        etiquette: Etiquette,
    ) -> (r: Result<Walker, ConfigError>)
        requires
            environment.wf(),
        ensures
            match r {
                Ok(w) => {
                    &&& walker_error(*environment, group, start, end, target_speed) is None
                    &&& w@ == fresh_walker(*environment, group, start, end, target_speed, etiquette)
                    &&& w@.wf()
                },
                Err(e) => walker_error(*environment, group, start, end, target_speed) == Some(e),
            },
    {
        if group >= environment.groups() {
            return Err(ConfigError::UnknownGroup);
        }
        let starts: &Vec<(i64, i64)> = environment.start_positions(group);
        let ends: &Vec<(i64, i64)> = environment.end_positions(group);
        if start >= starts.len() {
            return Err(ConfigError::UnknownStart);
        }
        if end >= ends.len() {
            return Err(ConfigError::UnknownEnd);
        }
        if target_speed < 0 || target_speed > LIMIT {
            return Err(ConfigError::OutOfBounds);
        }
        let from: (i64, i64) = starts[start];
        let to: (i64, i64) = ends[end];
        let gate_count: usize = environment.timing_boundaries().len();
        let states: Vec<bool> = vec![false; gate_count];
        assert(states@ =~= Seq::new(environment.gates().len(), |i: int| false));
        Ok(
            Walker {
                motion: Motion {
                    x: from.0,
                    y: from.1,
                    heading: bearing(to.0 - from.0, to.1 - from.1),
                    speed: 0,
                },
                target_speed,
                environment,
                group,
                target_location: end,
                timing_boundary_states: states,
                timing_boundary_elapsed: None,
                etiquette,
            },
        )
    }

    /// Timing-gate bookkeeping after the pedestrian has moved: returns the
    /// travel time measured in this tick, if one was.
    fn check_timing_boundaries(&mut self, dt: u32) -> (sample: Option<u64>)
        requires
            old(self)@.wf(),
        ensures
            ({
                let v = old(self)@;
                let g = check_gates(
                    v.gate_states,
                    v.gate_timer,
                    v.environment.gates(),
                    v.position(),
                    dt,
                );
                &&& final(self)@ == WalkerView { gate_states: g.states, gate_timer: g.timer, ..v }
                &&& sample == g.sample
            }),
            final(self)@.wf(),
    {
        let p: (i64, i64) = (self.motion.x, self.motion.y);
        let ticked: Option<u64> = match self.timing_boundary_elapsed {
            Some(t) => Some(later(t, dt)),
            None => None,
        };
        let gate_count: usize = self.environment.timing_boundaries().len();
        let (any_new, count): (bool, usize) = mark_gates(
            &mut self.timing_boundary_states,
            self.environment.timing_boundaries(),
            p,
        );
        let running: Option<u64> = if ticked.is_none() && any_new {
            Some(0)
        } else {
            ticked
        };
        if running.is_some() && count == 2 {
            self.timing_boundary_states = vec![false; gate_count];
            self.timing_boundary_elapsed = None;
            assert(self.timing_boundary_states@ =~= Seq::new(
                old(self)@.gate_states.len(),
                |i: int| false,
            ));
            running
        } else {
            self.timing_boundary_elapsed = running;
            None
        }
    }

    /// Simulates one tick of `dt` for this pedestrian. `other_pedestrians_before`
    /// and `other_pedestrians_after` hold position and heading, as they were
    /// when the tick began, of the pedestrians that come before and after
    /// this one in the order of the tick; `heading_noise` and `speed_noise`
    /// are the fractions of the largest noise to apply. Returns the travel
    /// time between two timing gates, if this tick completes one.
    pub fn simulate_timestep(
        &mut self,
        dt: u32,
        other_pedestrians_before: &[(i64, i64, i64)],
        other_pedestrians_after: &[(i64, i64, i64)],
        heading_noise: i64,
        speed_noise: i64,
    ) -> (sample: Option<u64>)
        requires
            old(self)@.wf(),
        ensures
            final(self)@ == stepped(
                old(self)@,
                dt,
                other_pedestrians_before@,
                other_pedestrians_after@,
                heading_noise,
                speed_noise,
            ),
            sample == sampled(
                old(self)@,
                dt,
                other_pedestrians_before@,
                other_pedestrians_after@,
                heading_noise,
                speed_noise,
            ),
            final(self)@.wf(),
    {
        proof {
            reveal(moved);
        }
        let dest: (i64, i64) = self.get_dest_coords();
        let relaxed: Motion = relax_speed(self.motion, self.target_speed, dt);
        let aligned: Motion = align_to_goal(relaxed, dest, dt);
        let biased: Motion = apply_bias(aligned, self.etiquette, dt);
        let reacted_after: Motion = react_to_neighbours(
            biased,
            self.etiquette,
            dt,
            other_pedestrians_after,
        );
        let reacted: Motion = react_to_neighbours(
            reacted_after,
            self.etiquette,
            dt,
            other_pedestrians_before,
        );
        let shaken: Motion = apply_noise(reacted, dt, heading_noise, speed_noise);
        let advanced: Motion = integrate(shaken, dt);
        self.motion = resolve_wall_collisions(
            advanced,
            self.environment.boundaries(),
            dest,
            dt,
        );
        self.check_timing_boundaries(dt)
    }

    /// The x coordinate.
    pub fn x(&self) -> (v: i64)
        ensures
            v == self@.motion.x,
    {
        self.motion.x
    }

    /// The y coordinate.
    pub fn y(&self) -> (v: i64)
        ensures
            v == self@.motion.y,
    {
        self.motion.y
    }

    /// The heading, in `[0, TAU)` once the pedestrian is well formed.
    pub fn facing_direction(&self) -> (v: i64)
        ensures
            v == self@.motion.heading,
    {
        self.motion.heading
    }

    /// The speed at this moment.
    pub fn inst_speed(&self) -> (v: i64)
        ensures
            v == self@.motion.speed,
    {
        self.motion.speed
    }

    /// The speed the pedestrian likes to walk at.
    pub fn target_speed(&self) -> (v: i64)
        ensures
            v == self@.target_speed,
    {
        self.target_speed
    }

    /// The waypoint group the pedestrian belongs to.
    pub fn get_group(&self) -> (g: usize)
        ensures
            g == self@.group,
    {
        self.group
    }

    /// The steering policy.
    pub fn etiquette(&self) -> (e: Etiquette)
        ensures
            e == self@.etiquette,
    {
        self.etiquette
    }

    /// The distance to the destination, rounded down.
    pub fn distance_to_destination(&self) -> (d: i64)
        requires
            self@.wf(),
        ensures
            d == self@.distance_to_destination(),
    {
        let dest: (i64, i64) = self.get_dest_coords();
        hypot(self.motion.x - dest.0, self.motion.y - dest.1)
    }

    /// Position and heading, as a neighbour sees them.
    pub fn outline(&self) -> (o: (i64, i64, i64))
        ensures
            o == self@.outline(),
    {
        (self.motion.x, self.motion.y, self.motion.heading)
    }

    /// The crossing flags, one for each timing gate.
    pub fn timing_boundary_states(&self) -> (states: &Vec<bool>)
        ensures
            states@ == self@.gate_states,
    {
        &self.timing_boundary_states
    }

    /// The time since the first gate was crossed, while a measurement runs.
    pub fn timing_boundary_elapsed(&self) -> (timer: Option<u64>)
        ensures
            timer == self@.gate_timer,
    {
        self.timing_boundary_elapsed
    }

    /// The world the pedestrian lives in.
    pub fn environment(&self) -> (area: &SimArea)
        ensures
            *area == self@.environment,
    {
        &self.environment
    }

    /// The coordinates of the destination.
    pub fn get_dest_coords(&self) -> (p: (i64, i64))
        requires
            self@.wf(),
        ensures
            p == self@.destination(),
    {
        let ends: &Vec<(i64, i64)> = self.environment.end_positions(self.group);
        ends[self.target_location]
    }
}

} // verus!
