use rand::rngs::StdRng;
use std::sync::Arc;
use vstd::prelude::*;
use vstd::slice::slice_subrange;
use crate::environment::SimArea;
use crate::error::ConfigError;
use crate::etiquette::Etiquette;
use crate::fixed::SCALE;
use crate::random::{random_between, seeded_generator, shuffle_walkers};
use crate::walker::{
    fresh_walker, later, sampled, stepped, walker_error, Walker, WalkerView,
};

verus! {

/// How close to its destination a pedestrian has to be to have reached it.
pub const TARGET_LOCATION_RADIUS: i64 = 1_500_000;

/// The seed of the generator of a simulation that was given none.
pub const DEFAULT_SEED: u64 = 0;

/// The views of the pedestrians of `walkers`, in their order.
pub open spec fn views(walkers: Seq<Walker>) -> Seq<WalkerView> {
    walkers.map_values(|w: Walker| w@)
}

/// Whether every pedestrian of `walkers` is well formed and lives in `area`.
pub open spec fn walkers_wf(walkers: Seq<WalkerView>, area: SimArea) -> bool {
    forall|i: int|
        0 <= i < walkers.len() ==> (#[trigger] walkers[i]).wf() && walkers[i].environment == area
}

/// What a simulation is, as the contracts see it.
pub struct CrowdSimView {
    pub area: SimArea,
    pub time_elapsed: u64,
    pub available: Seq<WalkerView>,
    pub active: Seq<WalkerView>,
    pub finished: Seq<WalkerView>,
    pub add_rate: u64,
    pub travel_times: Seq<(u64, usize, u64)>,
}

impl CrowdSimView {
    /// The world is well formed, and every pedestrian of every pool is well
    /// formed and lives in it.
    pub open spec fn wf(self) -> bool {
        &&& self.area.wf()
        &&& walkers_wf(self.available, self.area)
        &&& walkers_wf(self.active, self.area)
        &&& walkers_wf(self.finished, self.area)
    }

    /// The number of pedestrians in the three pools together.
    pub open spec fn population(self) -> nat {
        self.available.len() + self.active.len() + self.finished.len()
    }

    /// The number of pedestrians that have been admitted so far.
    pub open spec fn admitted(self) -> nat {
        self.active.len() + self.finished.len()
    }
}

/// Whether a pedestrian is due for admission: fewer have been admitted than
/// the admission rate, in millionths of a pedestrian per second, allows for
/// the time on the clock.
pub open spec fn admission_due(admitted: nat, time: u64, add_rate: u64) -> bool {
    admitted * 1_000_000_000_000 < time * add_rate
}

/// The admission policy: pedestrians leave the end of the waiting list, one
/// after the other, for the end of the list of those that walk, as long as
/// one waits and one is due.
pub open spec fn after_admission(v: CrowdSimView) -> CrowdSimView
    decreases v.available.len(),
{
    if v.available.len() > 0 && admission_due(v.admitted(), v.time_elapsed, v.add_rate) {
        after_admission(
            CrowdSimView {
                available: v.available.drop_last(),
                active: v.active.push(v.available.last()),
                ..v
            },
        )
    } else {
        v
    }
}

/// What every pedestrian of `walkers` looks like to its neighbours.
pub open spec fn snapshot(walkers: Seq<WalkerView>) -> Seq<(i64, i64, i64)> {
    walkers.map_values(|w: WalkerView| w.outline())
}

/// The noise for the pedestrian at place `i`: the pair at that place, and
/// no noise where the list is too short.
pub open spec fn noise_at(noise: Seq<(i64, i64)>, i: int) -> (i64, i64) {
    if 0 <= i < noise.len() {
        noise[i]
    } else {
        (0i64, 0i64)
    }
}

/// The pedestrian at place `i` of `walkers` after a tick in which every
/// pedestrian sees the others as they were when the tick began.
pub open spec fn stepped_at(
    walkers: Seq<WalkerView>,
    dt: u32,
    noise: Seq<(i64, i64)>,
    i: int,
) -> WalkerView {
    let all = snapshot(walkers);
    stepped(
        walkers[i],
        dt,
        all.subrange(0, i),
        all.subrange(i + 1, all.len() as int),
        noise_at(noise, i).0,
        noise_at(noise, i).1,
    )
}

/// The travel time that the tick of the pedestrian at place `i` measures.
pub open spec fn sampled_at(
    walkers: Seq<WalkerView>,
    dt: u32,
    noise: Seq<(i64, i64)>,
    i: int,
) -> Option<u64> {
    let all = snapshot(walkers);
    sampled(
        walkers[i],
        dt,
        all.subrange(0, i),
        all.subrange(i + 1, all.len() as int),
        noise_at(noise, i).0,
        noise_at(noise, i).1,
    )
}

/// The pedestrians of `walkers` after one tick.
pub open spec fn advanced(
    walkers: Seq<WalkerView>,
    dt: u32,
    noise: Seq<(i64, i64)>,
) -> Seq<WalkerView> {
    Seq::new(walkers.len(), |i: int| stepped_at(walkers, dt, noise, i))
}

/// The travel times that the ticks of the first `upto` pedestrians measure
/// at time `time`, in the order of the pedestrians, each with the group of
/// its pedestrian.
pub open spec fn samples(
    walkers: Seq<WalkerView>,
    dt: u32,
    noise: Seq<(i64, i64)>,
    time: u64,
    upto: int,
) -> Seq<(u64, usize, u64)>
    decreases upto,
{
    if upto <= 0 {
        Seq::empty()
    } else {
        let rest = samples(walkers, dt, noise, time, upto - 1);
        match sampled_at(walkers, dt, noise, upto - 1) {
            Some(d) => rest.push((d, walkers[upto - 1].group, time)),
            None => rest,
        }
    }
}

/// Whether a pedestrian has reached its destination.
pub open spec fn arrived(w: WalkerView) -> bool {
    w.distance_to_destination() < TARGET_LOCATION_RADIUS
}

/// The test that a pedestrian has reached its destination.
pub open spec fn has_arrived() -> spec_fn(WalkerView) -> bool {
    |w: WalkerView| arrived(w)
}

/// The test that a pedestrian has not reached its destination.
pub open spec fn still_walks() -> spec_fn(WalkerView) -> bool {
    |w: WalkerView| !arrived(w)
}

/// The movement of one tick, for a simulation whose admissions are made:
/// every pedestrian that walks makes its tick, the travel times measured are
/// recorded, the clock advances by `dt` and stops at its last value, and
/// the pedestrians that have
/// reached their destinations move, in their order, to the end of the list
/// of the arrived.
pub open spec fn moved_on(v: CrowdSimView, dt: u32, noise: Seq<(i64, i64)>) -> CrowdSimView {
    let walked = advanced(v.active, dt, noise);
    CrowdSimView {
        time_elapsed: later(v.time_elapsed, dt),
        active: walked.filter(still_walks()),
        finished: v.finished + walked.filter(has_arrived()),
        travel_times: v.travel_times + samples(
            v.active,
            dt,
            noise,
            v.time_elapsed,
            v.active.len() as int,
        ),
        ..v
    }
}

/// One tick of the simulation: admissions first, then the movement.
pub open spec fn ticked(v: CrowdSimView, dt: u32, noise: Seq<(i64, i64)>) -> CrowdSimView {
    moved_on(after_admission(v), dt, noise)
}

fn is_due(active: usize, finished: usize, time: u64, add_rate: u64) -> (due: bool)
    ensures
        due == admission_due((active + finished) as nat, time, add_rate),
{
    let admitted: u128 = active as u128 + finished as u128;
    assert(time * add_rate <= 0xffff_ffff_ffff_ffff * 0xffff_ffff_ffff_ffff) by (nonlinear_arith)
        requires
            0 <= time <= 0xffff_ffff_ffff_ffff,
            0 <= add_rate <= 0xffff_ffff_ffff_ffff,
    ;
    admitted * 1_000_000_000_000 < (time as u128) * (add_rate as u128)
}

proof fn lemma_views_push(walkers: Seq<Walker>, w: Walker)
    ensures
        views(walkers.push(w)) == views(walkers).push(w@),
{
    assert(views(walkers.push(w)) =~= views(walkers).push(w@));
}

proof fn lemma_views_drop_last(walkers: Seq<Walker>)
    requires
        walkers.len() > 0,
    ensures
        views(walkers.drop_last()) == views(walkers).drop_last(),
        views(walkers).last() == walkers.last()@,
{
    assert(views(walkers.drop_last()) =~= views(walkers).drop_last());
}

proof fn lemma_walkers_wf_push(walkers: Seq<WalkerView>, w: WalkerView, area: SimArea)
    requires
        walkers_wf(walkers, area),
        w.wf(),
        w.environment == area,
    ensures
        walkers_wf(walkers.push(w), area),
{
    assert forall|i: int| 0 <= i < walkers.push(w).len() implies (#[trigger] walkers.push(w)[i]).wf()
        && walkers.push(w)[i].environment == area by {
        if i < walkers.len() {
            assert(walkers.push(w)[i] == walkers[i]);
        }
    }
}

proof fn lemma_walkers_wf_drop_last(walkers: Seq<WalkerView>, area: SimArea)
    requires
        walkers_wf(walkers, area),
        walkers.len() > 0,
    ensures
        walkers_wf(walkers.drop_last(), area),
        walkers.last().wf(),
        walkers.last().environment == area,
{
    assert forall|i: int| 0 <= i < walkers.drop_last().len() implies (
    #[trigger] walkers.drop_last()[i]).wf() && walkers.drop_last()[i].environment == area by {
        assert(walkers.drop_last()[i] == walkers[i]);
    }
}

/// Admission moves pedestrians between pools and drops none.
pub proof fn lemma_admission_keeps_population(v: CrowdSimView)
    ensures
        after_admission(v).population() == v.population(),
        after_admission(v).finished == v.finished,
        after_admission(v).time_elapsed == v.time_elapsed,
        after_admission(v).travel_times == v.travel_times,
        after_admission(v).add_rate == v.add_rate,
        after_admission(v).area == v.area,
        after_admission(v).admitted() >= v.admitted(),
    decreases v.available.len(),
{
    if v.available.len() > 0 && admission_due(v.admitted(), v.time_elapsed, v.add_rate) {
        lemma_admission_keeps_population(
            CrowdSimView {
                available: v.available.drop_last(),
                active: v.active.push(v.available.last()),
                ..v
            },
        );
    }
}

/// The pedestrians that have arrived and those that still walk are all the
/// pedestrians.
pub proof fn lemma_partition_len(walkers: Seq<WalkerView>)
    ensures
        walkers.filter(still_walks()).len() + walkers.filter(has_arrived()).len() == walkers.len(),
    decreases walkers.len(),
{
    reveal(Seq::filter);
    if walkers.len() > 0 {
        lemma_partition_len(walkers.drop_last());
    }
}

/// Pool conservation: a tick moves pedestrians between the pools and
/// neither adds nor drops one.
pub proof fn lemma_tick_keeps_population(v: CrowdSimView, dt: u32, noise: Seq<(i64, i64)>)
    ensures
        ticked(v, dt, noise).population() == v.population(),
{
    lemma_admission_keeps_population(v);
    lemma_partition_len(advanced(after_admission(v).active, dt, noise));
}

/// The number of pedestrians that the admission rate allows by the time
/// `time`: the product of time and rate, rounded up to whole pedestrians.
pub open spec fn admission_quota(time: u64, add_rate: u64) -> nat {
    ((time * add_rate + 999_999_999_999) / 1_000_000_000_000) as nat
}

/// A pedestrian is due exactly while fewer than the quota have been
/// admitted.
pub proof fn lemma_due_below_quota(admitted: nat, time: u64, add_rate: u64)
    ensures
        admission_due(admitted, time, add_rate) <==> admitted < admission_quota(time, add_rate),
{
    let owed = time * add_rate;
    assert(owed >= 0) by (nonlinear_arith)
        requires
            owed == time * add_rate,
            time >= 0,
            add_rate >= 0,
    ;
    let quota = (owed + 999_999_999_999) / 1_000_000_000_000;
    assert(quota * 1_000_000_000_000 - 999_999_999_999 <= owed <= quota * 1_000_000_000_000);
}

/// The quota differs from the product of time and rate by less than one
/// pedestrian.
pub proof fn lemma_quota_within_one(time: u64, add_rate: u64)
    ensures
        time * add_rate <= admission_quota(time, add_rate) * 1_000_000_000_000 < time * add_rate
            + 1_000_000_000_000,
{
    let owed = time * add_rate;
    assert(owed >= 0) by (nonlinear_arith)
        requires
            owed == time * add_rate,
            time >= 0,
            add_rate >= 0,
    ;
}

/// The quota does not fall as time goes on.
pub proof fn lemma_quota_monotone(earlier: u64, later: u64, add_rate: u64)
    requires
        earlier <= later,
    ensures
        admission_quota(earlier, add_rate) <= admission_quota(later, add_rate),
{
    assert(0 <= earlier * add_rate <= later * add_rate) by (nonlinear_arith)
        requires
            0 <= earlier <= later,
            add_rate >= 0,
    ;
}

/// Admission brings the number admitted up to the quota, as far as
/// pedestrians wait, and never lowers it.
pub proof fn lemma_admission_count(v: CrowdSimView)
    ensures
        ({
            let quota = admission_quota(v.time_elapsed, v.add_rate);
            after_admission(v).admitted() == if v.admitted() >= quota {
                v.admitted()
            } else if v.admitted() + v.available.len() <= quota {
                v.admitted() + v.available.len()
            } else {
                quota
            }
        }),
    decreases v.available.len(),
{
    lemma_due_below_quota(v.admitted(), v.time_elapsed, v.add_rate);
    if v.available.len() > 0 && admission_due(v.admitted(), v.time_elapsed, v.add_rate) {
        lemma_admission_count(
            CrowdSimView {
                available: v.available.drop_last(),
                active: v.active.push(v.available.last()),
                ..v
            },
        );
    }
}

/// Admission monotonicity: a tick never lowers the number of pedestrians
/// admitted, and where enough pedestrians wait it brings that number up to
/// the quota of the time at which the tick began, which is within one
/// pedestrian of the product of that time and the admission rate.
pub proof fn lemma_tick_admits_to_quota(v: CrowdSimView, dt: u32, noise: Seq<(i64, i64)>)
    ensures
        ticked(v, dt, noise).admitted() >= v.admitted(),
        ({
            let quota = admission_quota(v.time_elapsed, v.add_rate);
            v.admitted() <= quota <= v.admitted() + v.available.len() ==> ticked(
                v,
                dt,
                noise,
            ).admitted() == quota
        }),
        v.time_elapsed * v.add_rate <= admission_quota(v.time_elapsed, v.add_rate)
            * 1_000_000_000_000 < v.time_elapsed * v.add_rate + 1_000_000_000_000,
{
    lemma_admission_keeps_population(v);
    lemma_admission_count(v);
    lemma_quota_within_one(v.time_elapsed, v.add_rate);
    lemma_partition_len(advanced(after_admission(v).active, dt, noise));
}

/// Arrival: a tick leaves the pedestrians that had arrived as and where
/// they were, adds behind them only pedestrians that have reached their
/// destinations, and leaves none of those among the pedestrians that walk.
pub proof fn lemma_tick_settles_arrivals(v: CrowdSimView, dt: u32, noise: Seq<(i64, i64)>)
    ensures
        ({
            let t = ticked(v, dt, noise);
            &&& t.finished.len() >= v.finished.len()
            &&& t.finished.take(v.finished.len() as int) == v.finished
            &&& forall|i: int|
                v.finished.len() <= i < t.finished.len() ==> arrived(#[trigger] t.finished[i])
            &&& forall|i: int| 0 <= i < t.active.len() ==> !arrived(#[trigger] t.active[i])
        }),
{
    lemma_admission_keeps_population(v);
    let a = after_admission(v);
    let walked = advanced(a.active, dt, noise);
    let t = ticked(v, dt, noise);
    assert(t.finished.take(v.finished.len() as int) =~= v.finished);
    assert forall|i: int| v.finished.len() <= i < t.finished.len() implies arrived(
        #[trigger] t.finished[i],
    ) by {
        walked.lemma_filter_pred(has_arrived(), i - v.finished.len());
    }
    assert forall|i: int| 0 <= i < t.active.len() implies !arrived(#[trigger] t.active[i]) by {
        walked.lemma_filter_pred(still_walks(), i);
    }
}

proof fn lemma_views_remove(walkers: Seq<Walker>, i: int)
    requires
        0 <= i < walkers.len(),
    ensures
        views(walkers.remove(i)) == views(walkers).remove(i),
{
    assert(views(walkers.remove(i)) =~= views(walkers).remove(i));
}

proof fn lemma_walkers_wf_remove(walkers: Seq<WalkerView>, i: int, area: SimArea)
    requires
        walkers_wf(walkers, area),
        0 <= i < walkers.len(),
    ensures
        walkers_wf(walkers.remove(i), area),
        walkers[i].wf(),
        walkers[i].environment == area,
{
    assert forall|k: int| 0 <= k < walkers.remove(i).len() implies (
    #[trigger] walkers.remove(i)[k]).wf() && walkers.remove(i)[k].environment == area by {
        if k < i {
            assert(walkers.remove(i)[k] == walkers[k]);
        } else {
            assert(walkers.remove(i)[k] == walkers[k + 1]);
        }
    }
}

/// Filtering one element more keeps it where it passes and drops it where
/// it does not.
proof fn lemma_filter_step(walkers: Seq<WalkerView>, pred: spec_fn(WalkerView) -> bool, j: int)
    requires
        0 <= j < walkers.len(),
    ensures
        walkers.take(j + 1).filter(pred) == if pred(walkers[j]) {
            walkers.take(j).filter(pred).push(walkers[j])
        } else {
            walkers.take(j).filter(pred)
        },
{
    reveal(Seq::filter);
    assert(walkers.take(j + 1).drop_last() =~= walkers.take(j));
    assert(walkers.take(j + 1).last() == walkers[j]);
}

/// The lowest target speed that a pedestrian of a set is given.
pub const MIN_TARGET_SPEED: i64 = 1_250_000;

/// The highest target speed that a pedestrian of a set is given.
pub const MAX_TARGET_SPEED: i64 = 1_450_000;

/// What is wrong with a set of pedestrians of group `group`, if anything:
/// there is no such group, or it lacks a start point or an end point.
pub open spec fn set_error(area: SimArea, group: usize) -> Option<ConfigError> {
    if group >= area.group_count() {
        Some(ConfigError::UnknownGroup)
    } else if area.start_points(group as int).len() == 0 || area.end_points(group as int).len()
        == 0 {
        Some(ConfigError::EmptyGroup)
    } else {
        None
    }
}

/// Whether `w` is a pedestrian of a set: one of group `group` as it stands
/// at one of the group's start points, bound for one of its end points, with
/// a target speed between `MIN_TARGET_SPEED` and `MAX_TARGET_SPEED`.
pub open spec fn is_drawn(w: WalkerView, area: SimArea, group: usize, etiquette: Etiquette) -> bool {
    exists|start: usize, end: usize, speed: i64|
        {
            &&& start < area.start_points(group as int).len()
            &&& end < area.end_points(group as int).len()
            &&& MIN_TARGET_SPEED <= speed <= MAX_TARGET_SPEED
            &&& w == #[trigger] fresh_walker(area, group, start, end, speed, etiquette)
        }
}

/// Whether `noise` holds a pair for each of `n` pedestrians, each part a
/// fraction from `[-1, 1]`.
pub open spec fn is_noise(noise: Seq<(i64, i64)>, n: nat) -> bool {
    &&& noise.len() == n
    &&& forall|i: int|
        0 <= i < n ==> -SCALE <= (#[trigger] noise[i]).0 <= SCALE && -SCALE <= noise[i].1 <= SCALE
}

/// Whether a simulation still has a pedestrian that waits or walks.
pub open spec fn busy(v: CrowdSimView) -> bool {
    v.available.len() > 0 || v.active.len() > 0
}

/// Whether `ticks` ticks of `dt`, each made while the simulation was busy
/// and the clock had room, and each with some noise, lead from the
/// simulation `from` to the simulation `to`.
pub open spec fn reached(from: CrowdSimView, to: CrowdSimView, dt: u32, ticks: nat) -> bool
    decreases ticks,
{
    if ticks == 0 {
        to == from
    } else {
        exists|mid: CrowdSimView, noise: Seq<(i64, i64)>|
            {
                &&& reached(from, mid, dt, (ticks - 1) as nat)
                &&& busy(mid)
                &&& mid.time_elapsed + dt <= u64::MAX
                &&& is_noise(noise, after_admission(mid).active.len())
                &&& #[trigger] ticked(mid, dt, noise) == to
            }
    }
}

/// Draws a number below `n`.
fn draw_index(rng: &mut StdRng, n: usize) -> (i: usize)
    requires
        n > 0,
    ensures
        i < n,
{
    let last: u64 = (n - 1) as u64;
    let hi: i64 = if last > 0x7fff_ffff_ffff_ffff {
        0x7fff_ffff_ffff_ffff
    } else {
        last as i64
    };
    random_between(rng, 0, hi) as usize
}

/// Sequences that hold the same pedestrians equally often hold the same
/// views equally often.
proof fn lemma_views_same_multiset(a: Seq<Walker>, b: Seq<Walker>)
    requires
        a.to_multiset() == b.to_multiset(),
    ensures
        views(a).to_multiset() == views(b).to_multiset(),
    decreases a.len(),
{
    broadcast use vstd::seq_lib::group_to_multiset_ensures;

    assert(a.to_multiset().len() == a.len());
    assert(b.to_multiset().len() == b.len());
    if a.len() == 0 {
        assert(b.len() == 0);
        assert(views(a) =~= views(b));
    } else {
        let x = a.last();
        let rest = a.drop_last();
        assert(a =~= rest.push(x));
        assert(a.contains(x));
        assert(b.to_multiset().count(x) > 0);
        assert(b.contains(x));
        let k = choose|k: int| 0 <= k < b.len() && b[k] == x;
        let others = b.remove(k);
        assert(rest.to_multiset() =~= a.to_multiset().remove(x));
        assert(others.to_multiset() =~= b.to_multiset().remove(x));
        lemma_views_same_multiset(rest, others);
        lemma_views_push(rest, x);
        lemma_views_remove(b, k);
        assert(views(b)[k] == x@);
        assert(views(a).to_multiset() =~= views(rest).to_multiset().insert(x@));
        assert(views(b).remove(k).to_multiset() =~= views(b).to_multiset().remove(x@));
        assert(views(b).contains(x@));
        assert(views(b).to_multiset().count(x@) > 0);
        assert(views(b).to_multiset() =~= views(others).to_multiset().insert(x@));
    }
}

/// A reordering of well-formed pedestrians of a world holds well-formed
/// pedestrians of that world.
proof fn lemma_walkers_wf_reordered(a: Seq<WalkerView>, b: Seq<WalkerView>, area: SimArea)
    requires
        walkers_wf(a, area),
        a.to_multiset() == b.to_multiset(),
    ensures
        walkers_wf(b, area),
{
    broadcast use vstd::seq_lib::group_to_multiset_ensures;

    assert forall|i: int| 0 <= i < b.len() implies (#[trigger] b[i]).wf() && b[i].environment
        == area by {
        assert(b.contains(b[i]));
        assert(a.to_multiset().count(b[i]) > 0);
        assert(a.contains(b[i]));
        let k = choose|k: int| 0 <= k < a.len() && a[k] == b[i];
        assert(a[k].wf());
    }
}

/// Draws a pair of noise fractions for each of `n` pedestrians.
fn draw_noise(rng: &mut StdRng, n: usize) -> (noise: Vec<(i64, i64)>)
    ensures
        is_noise(noise@, n as nat),
{
    let mut noise: Vec<(i64, i64)> = Vec::new();
    let mut i: usize = 0;
    while i < n
        invariant
            i <= n,
            is_noise(noise@, i as nat),
        decreases n - i,
    {
        let heading_noise: i64 = random_between(rng, -SCALE, SCALE);
        let speed_noise: i64 = random_between(rng, -SCALE, SCALE);
        noise.push((heading_noise, speed_noise));
        i += 1;
    }
    noise
}

/// A simulation: the world, the pedestrians that wait, walk and have
/// arrived, the clock, and the travel times measured so far.
pub struct CrowdSim {
    area: Arc<SimArea>,
    time_elapsed: u64,
    available_pedestrians: Vec<Walker>,
    active_pedestrians: Vec<Walker>,
    finished_pedestrians: Vec<Walker>,
    pedestrian_add_rate: u64,
    travel_times: Vec<(u64, usize, u64)>,
    rng: StdRng,
}

impl View for CrowdSim {
    type V = CrowdSimView;

    closed spec fn view(&self) -> CrowdSimView {
        CrowdSimView {
            area: *self.area,
            time_elapsed: self.time_elapsed,
            available: views(self.available_pedestrians@),
            active: views(self.active_pedestrians@),
            finished: views(self.finished_pedestrians@),
            add_rate: self.pedestrian_add_rate,
            travel_times: self.travel_times@,
        }
    }
}

/// A simulation of `area` with no pedestrian in it, at time zero.
pub open spec fn empty_sim(area: SimArea, add_rate: u64) -> CrowdSimView {
    CrowdSimView {
        area,
        time_elapsed: 0,
        available: Seq::empty(),
        active: Seq::empty(),
        finished: Seq::empty(),
        add_rate,
        travel_times: Seq::empty(),
    }
}

impl CrowdSim {
    /// A simulation of `area` that admits `pedestrian_add_rate` millionths
    /// of a pedestrian per second, with a generator seeded with
    /// `DEFAULT_SEED`.
    pub fn new(area: Arc<SimArea>, pedestrian_add_rate: u64) -> (sim: CrowdSim)
        requires
            area.wf(),
        ensures
            sim@ == empty_sim(*area, pedestrian_add_rate),
            sim@.wf(),
    {
        CrowdSim::with_seed(area, pedestrian_add_rate, DEFAULT_SEED)
    }

    /// A simulation of `area` whose generator is seeded with `seed`.
    pub fn with_seed(area: Arc<SimArea>, pedestrian_add_rate: u64, seed: u64) -> (sim: CrowdSim)
        requires
            area.wf(),
        ensures
            sim@ == empty_sim(*area, pedestrian_add_rate),
            sim@.wf(),
    {
        let sim = CrowdSim {
            area,
            time_elapsed: 0,
            available_pedestrians: Vec::new(),
            active_pedestrians: Vec::new(),
            finished_pedestrians: Vec::new(),
            pedestrian_add_rate,
            travel_times: Vec::new(),
            rng: seeded_generator(seed),
        };
        assert(sim@.available =~= Seq::empty());
        assert(sim@.active =~= Seq::empty());
        assert(sim@.finished =~= Seq::empty());
        sim
    }

    /// Adds one pedestrian to the pedestrians that wait, or refuses it and
    /// leaves the simulation as it was.
    pub fn add_pedestrian(
        &mut self,
        group: usize,
        start: usize,
        end: usize,
        target_speed: i64,
        etiquette: Etiquette,
    ) -> (r: Result<(), ConfigError>)
        requires
            old(self)@.wf(),
        ensures
            final(self)@.wf(),
            match r {
                Ok(_) => {
                    &&& walker_error(old(self)@.area, group, start, end, target_speed) is None
                    &&& final(self)@ == CrowdSimView {
                        available: old(self)@.available.push(
                            fresh_walker(old(self)@.area, group, start, end, target_speed, etiquette),
                        ),
                        ..old(self)@
                    }
                },
                Err(e) => {
                    &&& walker_error(old(self)@.area, group, start, end, target_speed) == Some(e)
                    &&& final(self)@ == old(self)@
                },
            },
    {
        match Walker::new(self.area.clone(), group, start, end, target_speed, etiquette) {
            Ok(w) => {
                self.available_pedestrians.push(w);
                assert(self@.available =~= old(self)@.available.push(w@));
                Ok(())
            },
            Err(e) => Err(e),
        }
    }

    /// Makes the admissions that are due: the admission policy of a tick,
    /// on its own.
    pub fn update_active(&mut self)
        requires
            old(self)@.wf(),
        ensures
            final(self)@ == after_admission(old(self)@),
            final(self)@.wf(),
    {
        let ghost start = self@;
        while self.available_pedestrians.len() > 0 && is_due(
            self.active_pedestrians.len(),
            self.finished_pedestrians.len(),
            self.time_elapsed,
            self.pedestrian_add_rate,
        )
            invariant
                self@.wf(),
                after_admission(self@) == after_admission(start),
            decreases self.available_pedestrians.len(),
        {
            let ghost prev = self@;
            proof {
                lemma_views_drop_last(self.available_pedestrians@);
                lemma_walkers_wf_drop_last(prev.available, prev.area);
            }
            let w: Walker = self.available_pedestrians.pop().unwrap();
            proof {
                lemma_views_push(self.active_pedestrians@, w);
                lemma_walkers_wf_push(prev.active, w@, prev.area);
            }
            self.active_pedestrians.push(w);
            assert(self@ == CrowdSimView {
                available: prev.available.drop_last(),
                active: prev.active.push(prev.available.last()),
                ..prev
            });
        }
    }

    /// What every pedestrian that walks looks like to its neighbours.
    fn take_snapshot(&self) -> (all: Vec<(i64, i64, i64)>)
        ensures
            all@ == snapshot(self@.active),
    {
        let mut all: Vec<(i64, i64, i64)> = Vec::new();
        let mut i: usize = 0;
        while i < self.active_pedestrians.len()
            invariant
                i <= self.active_pedestrians@.len(),
                all@.len() == i,
                forall|j: int|
                    0 <= j < i ==> #[trigger] all@[j] == self.active_pedestrians@[j]@.outline(),
            decreases self.active_pedestrians@.len() - i,
        {
            all.push(self.active_pedestrians[i].outline());
            i += 1;
        }
        assert(all@ =~= snapshot(self@.active));
        all
    }

    /// Lets every pedestrian that walks make its tick, and records the
    /// travel times measured.
    fn step_active(&mut self, dt: u32, noise: &[(i64, i64)])
        requires
            old(self)@.wf(),
        ensures
            final(self)@ == (CrowdSimView {
                active: advanced(old(self)@.active, dt, noise@),
                travel_times: old(self)@.travel_times + samples(
                    old(self)@.active,
                    dt,
                    noise@,
                    old(self)@.time_elapsed,
                    old(self)@.active.len() as int,
                ),
                ..old(self)@
            }),
            final(self)@.wf(),
    {
        let ghost start = self@;
        let all: Vec<(i64, i64, i64)> = self.take_snapshot();
        let n: usize = self.active_pedestrians.len();
        let mut i: usize = 0;
        while i < n
            invariant
                i <= n,
                n == start.active.len(),
                all@ == snapshot(start.active),
                start.wf(),
                self@.active.len() == n,
                forall|j: int|
                    0 <= j < i ==> #[trigger] self@.active[j] == stepped_at(
                        start.active,
                        dt,
                        noise@,
                        j,
                    ),
                forall|j: int| i <= j < n ==> #[trigger] self@.active[j] == start.active[j],
                walkers_wf(self@.active, start.area),
                self@.travel_times == start.travel_times + samples(
                    start.active,
                    dt,
                    noise@,
                    start.time_elapsed,
                    i as int,
                ),
                self@ == (CrowdSimView {
                    active: self@.active,
                    travel_times: self@.travel_times,
                    ..start
                }),
            decreases n - i,
        {
            let ghost prev = self@;
            let ghost prev_walkers = self.active_pedestrians@;
            let before: &[(i64, i64, i64)] = slice_subrange(all.as_slice(), 0, i);
            let after: &[(i64, i64, i64)] = slice_subrange(all.as_slice(), i + 1, n);
            let shake: (i64, i64) = if i < noise.len() {
                noise[i]
            } else {
                (0, 0)
            };
            assert(prev.active[i as int] == start.active[i as int]);
            assert(prev.active[i as int] == prev_walkers[i as int]@);
            let sample: Option<u64> = self.active_pedestrians[i].simulate_timestep(
                dt,
                before,
                after,
                shake.0,
                shake.1,
            );
            let group: usize = self.active_pedestrians[i].get_group();
            match sample {
                Some(d) => {
                    self.travel_times.push((d, group, self.time_elapsed));
                },
                None => {},
            }
            proof {
                let now = self.active_pedestrians@;
                assert(now == prev_walkers.update(i as int, now[i as int]));
                assert(self@.active =~= prev.active.update(
                    i as int,
                    stepped_at(start.active, dt, noise@, i as int),
                ));
                assert forall|j: int| 0 <= j < self@.active.len() implies (
                #[trigger] self@.active[j]).wf() && self@.active[j].environment == start.area by {
                    if j != i {
                        assert(self@.active[j] == prev.active[j]);
                    }
                }
                assert(self@.travel_times =~= start.travel_times + samples(
                    start.active,
                    dt,
                    noise@,
                    start.time_elapsed,
                    i + 1,
                ));
            }
            i += 1;
        }
        assert(self@.active =~= advanced(start.active, dt, noise@));
    }

    /// Moves the pedestrians that have reached their destinations to the
    /// arrived.
    pub fn update_finished(&mut self)
        requires
            old(self)@.wf(),
        ensures
            final(self)@ == (CrowdSimView {
                active: old(self)@.active.filter(still_walks()),
                finished: old(self)@.finished + old(self)@.active.filter(has_arrived()),
                ..old(self)@
            }),
            final(self)@.wf(),
    {
        let ghost start = self@;
        let ghost mut j: int = 0;
        let mut i: usize = 0;
        assert(start.active.take(0).filter(still_walks()) =~= Seq::empty()) by {
            reveal(Seq::filter);
        }
        assert(start.active.take(0).filter(has_arrived()) =~= Seq::empty()) by {
            reveal(Seq::filter);
        }
        assert(self@.active.subrange(0, 0) =~= Seq::empty());
        assert(self@.active.subrange(0, self@.active.len() as int) =~= start.active.skip(0));
        assert(self@.finished =~= start.finished + Seq::empty());
        while i < self.active_pedestrians.len()
            invariant
                0 <= j <= start.active.len(),
                i <= self@.active.len(),
                self@.active.len() - i == start.active.len() - j,
                self@.active.subrange(0, i as int) == start.active.take(j).filter(still_walks()),
                self@.active.subrange(i as int, self@.active.len() as int) == start.active.skip(j),
                self@.finished == start.finished + start.active.take(j).filter(has_arrived()),
                self@.wf(),
                self@ == (CrowdSimView { active: self@.active, finished: self@.finished, ..start }),
                self@.active == views(self.active_pedestrians@),
            decreases self@.active.len() - i,
        {
            let ghost prev = self@;
            proof {
                lemma_filter_step(start.active, still_walks(), j);
                lemma_filter_step(start.active, has_arrived(), j);
                assert(prev.active[i as int] == prev.active.subrange(
                    i as int,
                    prev.active.len() as int,
                )[0]);
                assert(prev.active[i as int] == start.active[j]);
            }
            if self.active_pedestrians[i].distance_to_destination() < TARGET_LOCATION_RADIUS {
                proof {
                    lemma_views_remove(self.active_pedestrians@, i as int);
                    lemma_walkers_wf_remove(prev.active, i as int, prev.area);
                }
                let w: Walker = self.active_pedestrians.remove(i);
                proof {
                    lemma_views_push(self.finished_pedestrians@, w);
                    lemma_walkers_wf_push(prev.finished, w@, prev.area);
                }
                self.finished_pedestrians.push(w);
                proof {
                    assert(self@.active == prev.active.remove(i as int));
                    assert(self@.active.subrange(0, i as int) =~= prev.active.subrange(0, i as int));
                    assert(self@.active.subrange(i as int, self@.active.len() as int)
                        =~= start.active.skip(j + 1)) by {
                        assert forall|k: int| 0 <= k < self@.active.len() - i implies self@.active[i
                            + k] == #[trigger] start.active.skip(j + 1)[k] by {
                            assert(prev.active.subrange(i as int, prev.active.len() as int)[k + 1]
                                == start.active.skip(j)[k + 1]);
                        }
                    }
                    assert(self@.finished =~= start.finished + start.active.take(j + 1).filter(
                        has_arrived(),
                    ));
                }
            } else {
                proof {
                    assert(self@.active.subrange(0, i + 1) =~= prev.active.subrange(0, i as int).push(
                        prev.active[i as int],
                    ));
                    assert(self@.active.subrange(i + 1, self@.active.len() as int)
                        =~= start.active.skip(j + 1)) by {
                        assert forall|k: int| 0 <= k < self@.active.len() - i - 1 implies self@.active[i
                            + 1 + k] == #[trigger] start.active.skip(j + 1)[k] by {
                            assert(prev.active.subrange(i as int, prev.active.len() as int)[k + 1]
                                == start.active.skip(j)[k + 1]);
                        }
                    }
                }
                i += 1;
            }
            proof {
                j = j + 1;
            }
        }
        proof {
            assert(start.active.take(j) =~= start.active);
            assert(self@.active.subrange(0, i as int) =~= self@.active);
        }
    }

    /// The movement of one tick, once the admissions are made.
    fn move_on(&mut self, dt: u32, noise: &[(i64, i64)])
        requires
            old(self)@.wf(),
        ensures
            final(self)@ == moved_on(old(self)@, dt, noise@),
            final(self)@.wf(),
    {
        self.step_active(dt, noise);
        self.time_elapsed = later(self.time_elapsed, dt);
        self.update_finished();
    }

    /// Simulates one tick of `dt` with the given noise: the pair at place
    /// `i` of `noise` goes to the pedestrian at place `i` of those that walk
    /// once the admissions are made, and a pedestrian without a pair gets
    /// no noise.
    pub fn simulate_timestep_with_noise(&mut self, dt: u32, noise: &[(i64, i64)])
        requires
            old(self)@.wf(),
        ensures
            final(self)@ == ticked(old(self)@, dt, noise@),
            final(self)@.wf(),
            final(self)@.population() == old(self)@.population(),
            final(self)@.time_elapsed == later(old(self)@.time_elapsed, dt),
            final(self)@.area == old(self)@.area,
            final(self)@.add_rate == old(self)@.add_rate,
            final(self)@.admitted() >= old(self)@.admitted(),
            final(self)@.available.len() <= old(self)@.available.len(),
            final(self)@.finished.len() >= old(self)@.finished.len(),
            final(self)@.finished.take(old(self)@.finished.len() as int) == old(self)@.finished,
            forall|i: int|
                0 <= i < final(self)@.active.len() ==> !arrived(#[trigger] final(self)@.active[i]),
    {
        proof {
            lemma_admission_keeps_population(old(self)@);
            lemma_tick_keeps_population(old(self)@, dt, noise@);
            lemma_tick_admits_to_quota(old(self)@, dt, noise@);
            lemma_tick_settles_arrivals(old(self)@, dt, noise@);
        }
        self.update_active();
        self.move_on(dt, noise);
    }

    /// Simulates one tick of `dt`, with noise drawn from the simulation's
    /// generator. The clock advances by `dt` and stops at its last value.
    pub fn simulate_timestep(&mut self, dt: u32)
        requires
            old(self)@.wf(),
        ensures
            exists|noise: Seq<(i64, i64)>|
                is_noise(noise, after_admission(old(self)@).active.len()) && final(self)@
                    == #[trigger] ticked(old(self)@, dt, noise),
            final(self)@.wf(),
            final(self)@.population() == old(self)@.population(),
            final(self)@.time_elapsed == later(old(self)@.time_elapsed, dt),
            final(self)@.area == old(self)@.area,
            final(self)@.add_rate == old(self)@.add_rate,
            final(self)@.admitted() >= old(self)@.admitted(),
            final(self)@.available.len() <= old(self)@.available.len(),
            final(self)@.finished.len() >= old(self)@.finished.len(),
            final(self)@.finished.take(old(self)@.finished.len() as int) == old(self)@.finished,
            forall|i: int|
                0 <= i < final(self)@.active.len() ==> !arrived(#[trigger] final(self)@.active[i]),
    {
        proof {
            lemma_admission_keeps_population(old(self)@);
        }
        self.update_active();
        let noise: Vec<(i64, i64)> = draw_noise(&mut self.rng, self.active_pedestrians.len());
        self.move_on(dt, noise.as_slice());
        proof {
            lemma_tick_keeps_population(old(self)@, dt, noise@);
            lemma_tick_admits_to_quota(old(self)@, dt, noise@);
            lemma_tick_settles_arrivals(old(self)@, dt, noise@);
            assert(self@ == ticked(old(self)@, dt, noise@));
        }
    }

    /// Puts the pedestrians that wait into a random order. Admission takes
    /// them from the end of that order.
    pub fn randomise_pedestrian_order(&mut self)
        requires
            old(self)@.wf(),
        ensures
            final(self)@.available.to_multiset() == old(self)@.available.to_multiset(),
            final(self)@.available.len() == old(self)@.available.len(),
            final(self)@ == (CrowdSimView { available: final(self)@.available, ..old(self)@ }),
            final(self)@.wf(),
    {
        shuffle_walkers(&mut self.available_pedestrians, &mut self.rng);
        proof {
            old(self)@.available.to_multiset_ensures();
            self@.available.to_multiset_ensures();
            lemma_views_same_multiset(
                old(self).available_pedestrians@,
                self.available_pedestrians@,
            );
            lemma_walkers_wf_reordered(old(self)@.available, self@.available, self@.area);
        }
    }

    /// Adds `number` pedestrians of group `group` to the pedestrians that
    /// wait, each with a start point, an end point and a target speed drawn
    /// from the simulation's generator; or refuses the set and leaves the
    /// simulation as it was.
    pub fn add_pedestrian_set(&mut self, number: usize, group: usize, etiquette: Etiquette) -> (r:
        Result<(), ConfigError>)
        requires
            old(self)@.wf(),
        ensures
            final(self)@.wf(),
            match r {
                Ok(_) => {
                    &&& set_error(old(self)@.area, group) is None
                    &&& final(self)@ == (CrowdSimView {
                        available: final(self)@.available,
                        ..old(self)@
                    })
                    &&& final(self)@.available.len() == old(self)@.available.len() + number
                    &&& final(self)@.available.take(old(self)@.available.len() as int) == old(
                        self,
                    )@.available
                    &&& forall|i: int|
                        old(self)@.available.len() <= i < final(self)@.available.len() ==> is_drawn(
                            #[trigger] final(self)@.available[i],
                            old(self)@.area,
                            group,
                            etiquette,
                        )
                },
                Err(e) => set_error(old(self)@.area, group) == Some(e) && final(self)@ == old(
                    self,
                )@,
            },
    {
        if group >= self.area.groups() {
            return Err(ConfigError::UnknownGroup);
        }
        let starts: usize = self.area.start_positions(group).len();
        let ends: usize = self.area.end_positions(group).len();
        if starts == 0 || ends == 0 {
            return Err(ConfigError::EmptyGroup);
        }
        let ghost first = self@;
        let mut made: usize = 0;
        assert(self@.available.take(first.available.len() as int) =~= first.available);
        while made < number
            invariant
                made <= number,
                first.wf(),
                self@.wf(),
                group < first.area.group_count(),
                starts == first.area.start_points(group as int).len(),
                ends == first.area.end_points(group as int).len(),
                starts > 0,
                ends > 0,
                self@ == (CrowdSimView { available: self@.available, ..first }),
                self@.available.len() == first.available.len() + made,
                self@.available.take(first.available.len() as int) == first.available,
                forall|i: int|
                    first.available.len() <= i < self@.available.len() ==> is_drawn(
                        #[trigger] self@.available[i],
                        first.area,
                        group,
                        etiquette,
                    ),
            decreases number - made,
        {
            let ghost prev = self@;
            let start: usize = draw_index(&mut self.rng, starts);
            let end: usize = draw_index(&mut self.rng, ends);
            let target_speed: i64 = random_between(
                &mut self.rng,
                MIN_TARGET_SPEED,
                MAX_TARGET_SPEED,
            );
            let added: Result<(), ConfigError> = self.add_pedestrian(
                group,
                start,
                end,
                target_speed,
                etiquette,
            );
            proof {
                assert(added is Ok);
                let w = fresh_walker(first.area, group, start, end, target_speed, etiquette);
                assert(self@.available == prev.available.push(w));
                assert(is_drawn(w, first.area, group, etiquette));
                assert(self@.available.take(first.available.len() as int)
                    =~= prev.available.take(first.available.len() as int));
                assert forall|i: int|
                    first.available.len() <= i < self@.available.len() implies is_drawn(
                    #[trigger] self@.available[i],
                    first.area,
                    group,
                    etiquette,
                ) by {
                    if i < prev.available.len() {
                        assert(self@.available[i] == prev.available[i]);
                    }
                }
            }
            made += 1;
        }
        Ok(())
    }

    /// Simulates tick after tick of `dt` until no pedestrian waits or walks
    /// any more, or the clock has no room for another tick, or `dt` is zero.
    /// Returns the time on the clock, the number of pedestrians that have
    /// arrived, and the travel times measured, each with the group of its
    /// pedestrian and the time at which it was completed.
    pub fn simulate_full(&mut self, dt: u32) -> (r: (u64, usize, Vec<(u64, usize, u64)>))
        requires
            old(self)@.wf(),
        ensures
            final(self)@.wf(),
            exists|ticks: nat| reached(old(self)@, final(self)@, dt, ticks),
            !busy(final(self)@) || dt == 0 || final(self)@.time_elapsed + dt > u64::MAX,
            final(self)@.population() == old(self)@.population(),
            final(self)@.time_elapsed >= old(self)@.time_elapsed,
            final(self)@.area == old(self)@.area,
            final(self)@.add_rate == old(self)@.add_rate,
            r.0 == final(self)@.time_elapsed,
            r.1 == final(self)@.finished.len(),
            r.2@ == final(self)@.travel_times,
    {
        let ghost first = self@;
        let ghost mut ticks: nat = 0;
        while (self.available_pedestrians.len() > 0 || self.active_pedestrians.len() > 0) && dt > 0
            && self.time_elapsed <= u64::MAX - dt as u64
            invariant
                self@.wf(),
                reached(first, self@, dt, ticks),
                self@.population() == first.population(),
                self@.time_elapsed >= first.time_elapsed,
                self@.area == first.area,
                self@.add_rate == first.add_rate,
            decreases u64::MAX - self@.time_elapsed,
        {
            let ghost prev = self@;
            self.simulate_timestep(dt);
            proof {
                let noise = choose|noise: Seq<(i64, i64)>|
                    is_noise(noise, after_admission(prev).active.len()) && self@
                        == #[trigger] ticked(prev, dt, noise);
                assert(busy(prev));
                assert(ticked(prev, dt, noise) == self@);
                ticks = ticks + 1;
                assert(reached(first, self@, dt, ticks));
            }
        }
        let mut samples: Vec<(u64, usize, u64)> = Vec::new();
        let mut i: usize = 0;
        while i < self.travel_times.len()
            invariant
                i <= self.travel_times@.len(),
                samples@ == self.travel_times@.take(i as int),
            decreases self.travel_times@.len() - i,
        {
            samples.push(self.travel_times[i]);
            assert(self.travel_times@.take(i + 1) =~= self.travel_times@.take(i as int).push(
                self.travel_times@[i as int],
            ));
            i += 1;
        }
        assert(self.travel_times@.take(i as int) =~= self.travel_times@);
        (self.time_elapsed, self.finished_pedestrians.len(), samples)
    }

    /// The world of the simulation.
    pub fn area(&self) -> (area: &SimArea)
        ensures
            *area == self@.area,
    {
        &self.area
    }

    /// The pedestrians that wait. Admission takes them from the end.
    pub fn available_pedestrians(&self) -> (walkers: &Vec<Walker>)
        ensures
            views(walkers@) == self@.available,
    {
        &self.available_pedestrians
    }

    /// The pedestrians that have arrived, in the order of their arrival.
    pub fn finished_pedestrians(&self) -> (walkers: &Vec<Walker>)
        ensures
            views(walkers@) == self@.finished,
    {
        &self.finished_pedestrians
    }

    /// The pedestrians that walk, in the order of their ticks.
    pub fn active_pedestrians(&self) -> (walkers: &Vec<Walker>)
        ensures
            views(walkers@) == self@.active,
    {
        &self.active_pedestrians
    }

    /// The travel times measured so far, each with the group of its
    /// pedestrian and the time at which it was completed.
    pub fn travel_times(&self) -> (samples: &Vec<(u64, usize, u64)>)
        ensures
            samples@ == self@.travel_times,
    {
        &self.travel_times
    }

    /// The numbers of pedestrians that wait, that walk and that have
    /// arrived.
    pub fn get_pedestrian_counts(&self) -> (counts: (usize, usize, usize))
        ensures
            counts.0 == self@.available.len(),
            counts.1 == self@.active.len(),
            counts.2 == self@.finished.len(),
    {
        (
            self.available_pedestrians.len(),
            self.active_pedestrians.len(),
            self.finished_pedestrians.len(),
        )
    }

    /// The time simulated so far.
    pub fn time_elapsed(&self) -> (t: u64)
        ensures
            t == self@.time_elapsed,
    {
        self.time_elapsed
    }
}

} // verus!
