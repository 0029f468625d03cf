use pedestrian_sim::environment::SimArea;
use pedestrian_sim::error::ConfigError;
use pedestrian_sim::etiquette::Etiquette;
use pedestrian_sim::simulator::{CrowdSim, MAX_TARGET_SPEED, MIN_TARGET_SPEED};
use pedestrian_sim::walker::Walker;
use std::sync::Arc;

const M: i64 = 1_000_000;

fn corridor() -> Arc<SimArea> {
    let mut area = SimArea::new();
    area.add_wall((-M, 0), (32 * M, 0)).unwrap();
    area.add_wall((-M, 6 * M), (32 * M, 6 * M)).unwrap();
    area.add_wall((-M, 0), (-M, 6 * M)).unwrap();
    area.add_wall((32 * M, 0), (32 * M, 6 * M)).unwrap();
    area.add_timing_boundary((3 * M, 0), (3 * M, 6 * M)).unwrap();
    area.add_timing_boundary((28 * M, 0), (28 * M, 6 * M)).unwrap();
    area.add_start_end_group(
        vec![(0, M), (0, 2 * M), (0, 3 * M), (0, 4 * M), (0, 5 * M)],
        vec![(30 * M, M), (30 * M, 2 * M), (30 * M, 3 * M), (30 * M, 4 * M), (30 * M, 5 * M)],
    )
    .unwrap();
    area.add_start_end_group(
        vec![(31 * M, M), (31 * M, 2 * M), (31 * M, 3 * M), (31 * M, 4 * M), (31 * M, 5 * M)],
        vec![(M, M), (M, 2 * M), (M, 3 * M), (M, 4 * M), (M, 5 * M)],
    )
    .unwrap();
    Arc::new(area)
}

fn state(w: &Walker) -> (i64, i64, i64, i64) {
    (w.x(), w.y(), w.facing_direction(), w.inst_speed())
}

fn one_way(count: usize, rate: u64) -> CrowdSim {
    let mut sim = CrowdSim::new(corridor(), rate);
    for k in 0..count {
        sim.add_pedestrian(0, k % 5, (k * 3) % 5, 1_350_000, Etiquette::NoBias).unwrap();
    }
    sim
}

fn busy(sim: &CrowdSim) -> bool {
    let (available, active, _) = sim.get_pedestrian_counts();
    available + active > 0
}

#[test]
fn a_new_simulation_is_empty_and_at_time_zero() {
    let sim = CrowdSim::new(corridor(), 800_000);
    assert_eq!(sim.get_pedestrian_counts(), (0, 0, 0));
    assert_eq!(sim.time_elapsed(), 0);
    assert_eq!(sim.travel_times().len(), 0);
    assert_eq!(sim.area().groups(), 2);
    let sim = CrowdSim::with_seed(corridor(), 800_000, 42);
    assert_eq!(sim.get_pedestrian_counts(), (0, 0, 0));
    assert_eq!(sim.time_elapsed(), 0);
}

#[test]
fn added_pedestrians_wait() {
    let mut sim = CrowdSim::new(corridor(), 800_000);
    assert_eq!(sim.add_pedestrian(0, 1, 2, 1_350_000, Etiquette::LeftBias), Ok(()));
    assert_eq!(sim.add_pedestrian(1, 4, 0, 1_200_000, Etiquette::NoBias), Ok(()));
    assert_eq!(sim.get_pedestrian_counts(), (2, 0, 0));
    let waiting = sim.available_pedestrians();
    assert_eq!(state(&waiting[0]), (0, 2 * M, 34_136, 0));
    assert_eq!(waiting[0].get_dest_coords(), (30 * M, 3 * M));
    assert_eq!(waiting[0].etiquette(), Etiquette::LeftBias);
    assert_eq!(waiting[1].get_group(), 1);
    assert_eq!(waiting[1].target_speed(), 1_200_000);
    assert_eq!(waiting[1].get_dest_coords(), (M, M));
}

#[test]
fn a_refused_pedestrian_leaves_the_simulation_as_it_was() {
    let mut sim = one_way(3, 800_000);
    let e = Etiquette::NoBias;
    assert_eq!(sim.add_pedestrian(2, 0, 0, 1_350_000, e), Err(ConfigError::UnknownGroup));
    assert_eq!(sim.add_pedestrian(0, 5, 0, 1_350_000, e), Err(ConfigError::UnknownStart));
    assert_eq!(sim.add_pedestrian(0, 0, 5, 1_350_000, e), Err(ConfigError::UnknownEnd));
    assert_eq!(sim.add_pedestrian(0, 0, 0, -1, e), Err(ConfigError::OutOfBounds));
    assert_eq!(sim.get_pedestrian_counts(), (3, 0, 0));
}

#[test]
fn pedestrians_are_admitted_at_the_admission_rate() {
    let mut sim = CrowdSim::new(corridor(), 800_000);
    for k in 0..10 {
        sim.add_pedestrian(0, k % 5, k % 5, 1_350_000, Etiquette::NoBias).unwrap();
    }
    let waiting = [10, 9, 9, 8, 8, 8, 7, 7, 6, 6, 6, 5, 5, 4, 4, 4, 3, 3, 2, 2, 2, 1, 1, 0, 0];
    for expected in waiting {
        sim.simulate_timestep_with_noise(500_000, &[]);
        assert_eq!(sim.get_pedestrian_counts(), (expected, 10 - expected, 0));
    }
}

#[test]
fn the_number_admitted_is_the_product_of_time_and_rate_rounded_up() {
    let mut sim = one_way(200, 800_000);
    let dt: u32 = 130_000;
    let mut admitted_before = 0;
    for _ in 0..300 {
        let started_at = sim.time_elapsed();
        sim.simulate_timestep(dt);
        let (_, active, finished) = sim.get_pedestrian_counts();
        let admitted = active + finished;
        let owed = started_at as u128 * 800_000;
        assert!(admitted >= admitted_before);
        assert!(admitted as u128 * 1_000_000_000_000 >= owed);
        assert!(admitted as u128 * 1_000_000_000_000 < owed + 1_000_000_000_000);
        admitted_before = admitted;
    }
}

#[test]
fn a_simulation_with_admission_rate_zero_admits_nobody() {
    let mut sim = one_way(3, 0);
    for _ in 0..100 {
        sim.simulate_timestep(1_000_000);
    }
    assert_eq!(sim.get_pedestrian_counts(), (3, 0, 0));
    assert_eq!(sim.time_elapsed(), 100_000_000);
}

#[test]
fn the_last_pedestrian_added_is_admitted_first() {
    let mut sim = CrowdSim::new(corridor(), 800_000);
    sim.add_pedestrian(0, 0, 0, 1_350_000, Etiquette::NoBias).unwrap();
    sim.add_pedestrian(0, 4, 4, 1_350_000, Etiquette::NoBias).unwrap();
    sim.simulate_timestep_with_noise(500_000, &[]);
    sim.simulate_timestep_with_noise(500_000, &[]);
    assert_eq!(sim.get_pedestrian_counts(), (1, 1, 0));
    assert_eq!(sim.active_pedestrians()[0].get_dest_coords(), (30 * M, 5 * M));
    assert_eq!(sim.available_pedestrians()[0].get_dest_coords(), (30 * M, M));
}

#[test]
fn the_clock_advances_by_the_tick() {
    let mut sim = one_way(2, 800_000);
    sim.simulate_timestep(20_000);
    assert_eq!(sim.time_elapsed(), 20_000);
    sim.simulate_timestep(0);
    assert_eq!(sim.time_elapsed(), 20_000);
    sim.simulate_timestep_with_noise(u32::MAX, &[]);
    assert_eq!(sim.time_elapsed(), 20_000 + u32::MAX as u64);
}

#[test]
fn no_pedestrian_is_lost_or_made_by_a_tick() {
    let mut sim = CrowdSim::with_seed(corridor(), 3_000_000, 7);
    sim.add_pedestrian_set(20, 0, Etiquette::LeftBias).unwrap();
    sim.add_pedestrian_set(20, 1, Etiquette::NoBias).unwrap();
    sim.randomise_pedestrian_order();
    let mut ticks = 0;
    while busy(&sim) {
        sim.simulate_timestep(40_000);
        let (available, active, finished) = sim.get_pedestrian_counts();
        assert_eq!(available + active + finished, 40);
        ticks += 1;
        assert!(ticks < 5_000);
    }
    assert_eq!(sim.get_pedestrian_counts(), (0, 0, 40));
}

#[test]
fn a_pedestrian_that_has_arrived_is_moved_once_and_left_alone() {
    let mut area = SimArea::new();
    area.add_start_end_group(vec![(0, 0), (5 * M, 0)], vec![(M, 0), (10 * M, 0)]).unwrap();
    let mut sim = CrowdSim::new(Arc::new(area), 10_000_000);
    sim.add_pedestrian(0, 0, 0, 1_350_000, Etiquette::NoBias).unwrap();
    sim.add_pedestrian(0, 1, 1, 1_350_000, Etiquette::NoBias).unwrap();
    sim.simulate_timestep_with_noise(100_000, &[]);
    assert_eq!(sim.get_pedestrian_counts(), (2, 0, 0));
    sim.simulate_timestep_with_noise(100_000, &[]);
    assert_eq!(sim.get_pedestrian_counts(), (1, 1, 0));
    assert_eq!(state(&sim.active_pedestrians()[0]), (5_008_000, 0, 0, 80_000));
    sim.simulate_timestep_with_noise(100_000, &[]);
    assert_eq!(sim.get_pedestrian_counts(), (0, 1, 1));
    assert_eq!(state(&sim.active_pedestrians()[0]), (5_024_000, 0, 0, 160_000));
    assert_eq!(state(&sim.finished_pedestrians()[0]), (8_000, 0, 0, 80_000));
    for _ in 0..20 {
        sim.simulate_timestep(100_000);
        assert_eq!(sim.get_pedestrian_counts(), (0, 1, 1));
        assert_eq!(state(&sim.finished_pedestrians()[0]), (8_000, 0, 0, 80_000));
    }
}

#[test]
fn pedestrians_that_walk_have_not_arrived() {
    let mut sim = CrowdSim::with_seed(corridor(), 2_000_000, 3);
    sim.add_pedestrian_set(15, 0, Etiquette::RightBias).unwrap();
    sim.add_pedestrian_set(15, 1, Etiquette::RightBias).unwrap();
    let mut arrived = 0;
    for _ in 0..1_500 {
        sim.simulate_timestep(40_000);
        for w in sim.active_pedestrians() {
            assert!(w.distance_to_destination() >= 1_500_000);
        }
        let finished = sim.finished_pedestrians();
        assert!(finished.len() >= arrived);
        for w in &finished[arrived..] {
            assert!(w.distance_to_destination() < 1_500_000);
        }
        arrived = finished.len();
    }
    assert_eq!(arrived, 30);
}

#[test]
fn noise_goes_to_the_pedestrians_by_their_place() {
    let mut sim = CrowdSim::new(corridor(), 1_000_000_000);
    sim.add_pedestrian(0, 0, 0, 1_350_000, Etiquette::NoBias).unwrap();
    sim.add_pedestrian(0, 4, 4, 1_350_000, Etiquette::NoBias).unwrap();
    sim.simulate_timestep_with_noise(20_000, &[]);
    sim.simulate_timestep_with_noise(20_000, &[(1_000_000, 1_000_000)]);
    let active = sim.active_pedestrians();
    assert_eq!(state(&active[0]), (640, 5_000_005, 8_000, 32_000));
    assert_eq!(state(&active[1]), (320, M, 0, 16_000));
}

#[test]
fn a_corridor_walked_one_way_without_noise() {
    let mut sim = one_way(30, 800_000);
    let mut ticks = 0;
    let mut history = Vec::new();
    while busy(&sim) {
        sim.simulate_timestep_with_noise(50_000, &[]);
        ticks += 1;
        if [1, 2, 26, 27, 100, 500, 1000].contains(&ticks) {
            history.push(sim.get_pedestrian_counts());
        }
    }
    assert_eq!(ticks, 1_166);
    assert_eq!(sim.time_elapsed(), 58_300_000);
    assert_eq!(
        history,
        vec![(30, 0, 0), (29, 1, 0), (29, 1, 0), (28, 2, 0), (26, 4, 0), (10, 17, 3), (0, 7, 23)]
    );
    let durations: Vec<u64> = sim.travel_times().iter().map(|s| s.0).collect();
    let cycle = [18_600_000, 18_550_000, 18_500_000, 18_550_000, 18_500_000];
    assert_eq!(durations.len(), 30);
    for (k, d) in durations.iter().enumerate() {
        assert_eq!(*d, cycle[k % 5]);
    }
    assert_eq!(sim.travel_times()[0], (18_600_000, 0, 21_500_000));
    assert_eq!(sim.travel_times()[1], (18_550_000, 0, 23_050_000));
    assert_eq!(sim.travel_times()[29], (18_500_000, 0, 57_700_000));
    let finished = sim.finished_pedestrians();
    assert_eq!(state(&finished[0]), (28_530_297, 3_085_425, 6_221_922, 1_350_000));
    assert_eq!(state(&finished[1]), (28_508_418, 4_957_763, 30_195, 1_350_000));
    assert_eq!(state(&finished[2]), (28_540_906, 2_041_252, 6_253_015, 1_350_000));
}

#[test]
fn a_corridor_walked_both_ways_without_noise() {
    let mut sim = CrowdSim::new(corridor(), 2_000_000);
    let policies = [Etiquette::LeftBias, Etiquette::RightBias, Etiquette::NoBias];
    for k in 0..12 {
        let speed = 1_200_000 + 20_000 * k as i64;
        sim.add_pedestrian(k % 2, k % 5, (k * 2) % 5, speed, policies[k % 3]).unwrap();
    }
    let mut ticks = 0;
    while busy(&sim) {
        sim.simulate_timestep_with_noise(40_000, &[]);
        ticks += 1;
    }
    assert_eq!(ticks, 759);
    assert_eq!(sim.time_elapsed(), 30_360_000);
    assert_eq!(
        sim.travel_times(),
        &vec![
            (17_680_000, 1, 20_520_000),
            (18_080_000, 0, 21_480_000),
            (18_600_000, 0, 23_000_000),
            (18_880_000, 1, 23_880_000),
            (20_360_000, 1, 24_240_000),
            (19_160_000, 0, 24_760_000),
            (19_520_000, 1, 25_480_000),
            (20_080_000, 1, 27_160_000),
            (20_320_000, 0, 27_880_000),
            (20_680_000, 1, 28_840_000),
            (20_920_000, 0, 29_480_000),
            (23_000_000, 0, 29_520_000),
        ]
    );
    let finished: Vec<(i64, i64, i64, i64)> =
        sim.finished_pedestrians().iter().map(state).collect();
    assert_eq!(
        finished,
        vec![
            (2_494_798, 2_883_241, 3_060_100, 1_420_000),
            (29_224_739, 2_247_258, 5_757_597, 1_400_000),
            (28_544_253, 2_151_319, 6_175_545, 1_360_000),
            (2_192_027, 4_831_921, 3_264_078, 1_380_000),
            (1_825_083, 3_749_946, 2_627_784, 1_340_000),
            (28_991_414, 1_902_511, 360_877, 1_320_000),
            (2_481_071, 1_108_604, 3_218_087, 1_300_000),
            (1_847_991, 3_210_278, 3_638_895, 1_260_000),
            (28_516_600, 4_826_465, 120_353, 1_240_000),
            (1_962_245, 1_867_911, 2_730_290, 1_220_000),
            (28_515_394, 856_247, 6_271_373, 1_200_000),
            (28_847_868, 4_910_051, 6_069_035, 1_280_000),
        ]
    );
}

#[test]
fn the_travel_time_through_the_corridor_is_close_to_the_walking_time() {
    let mut sim = CrowdSim::with_seed(corridor(), 800_000, 2024);
    for k in 0..30 {
        sim.add_pedestrian(0, k % 5, (k * 3) % 5, 1_350_000, Etiquette::NoBias).unwrap();
    }
    sim.randomise_pedestrian_order();
    let (elapsed, finished, samples) = sim.simulate_full(50_000);
    assert_eq!(finished, 30);
    assert_eq!(samples.len(), 30);
    assert!(elapsed > 37_500_000);
    let mean = samples.iter().map(|s| s.0 as f64).sum::<f64>() / samples.len() as f64 / 1.0e6;
    assert!((mean - 18.5).abs() < 3.0, "mean travel time {}", mean);
    for s in &samples {
        assert_eq!(s.1, 0);
        assert!(s.2 < elapsed);
    }
}

#[test]
fn a_full_run_returns_what_the_simulation_holds() {
    let mut sim = CrowdSim::with_seed(corridor(), 5_000_000, 11);
    sim.add_pedestrian_set(6, 0, Etiquette::LeftBias).unwrap();
    sim.add_pedestrian_set(6, 1, Etiquette::LeftBias).unwrap();
    let (elapsed, finished, samples) = sim.simulate_full(40_000);
    assert_eq!(sim.get_pedestrian_counts(), (0, 0, 12));
    assert_eq!(elapsed, sim.time_elapsed());
    assert_eq!(finished, 12);
    assert_eq!(&samples, sim.travel_times());
    assert_eq!(elapsed % 40_000, 0);
    assert_eq!(samples.len(), 12);
}

#[test]
fn a_full_run_of_an_idle_simulation_makes_no_tick() {
    let mut sim = CrowdSim::new(corridor(), 800_000);
    assert_eq!(sim.simulate_full(20_000), (0, 0, vec![]));
    assert_eq!(sim.time_elapsed(), 0);
}

#[test]
fn a_full_run_with_ticks_of_no_time_makes_no_tick() {
    let mut sim = one_way(2, 800_000);
    assert_eq!(sim.simulate_full(0), (0, 0, vec![]));
    assert_eq!(sim.get_pedestrian_counts(), (2, 0, 0));
}

#[test]
fn a_random_order_holds_the_same_pedestrians() {
    let mut sim = CrowdSim::with_seed(corridor(), 800_000, 5);
    for k in 0..40 {
        sim.add_pedestrian(0, 0, 0, 1_000_000 + k, Etiquette::NoBias).unwrap();
    }
    sim.randomise_pedestrian_order();
    let mut speeds: Vec<i64> = sim.available_pedestrians().iter().map(|w| w.target_speed()).collect();
    let in_order: Vec<i64> = (0..40).map(|k| 1_000_000 + k).collect();
    assert_ne!(speeds, in_order);
    speeds.sort();
    assert_eq!(speeds, in_order);
    assert_eq!(sim.get_pedestrian_counts(), (40, 0, 0));
}

#[test]
fn a_set_of_pedestrians_is_drawn_from_the_waypoints_of_its_group() {
    let mut sim = CrowdSim::with_seed(corridor(), 800_000, 9);
    assert_eq!(sim.add_pedestrian_set(200, 1, Etiquette::RightBias), Ok(()));
    assert_eq!(sim.get_pedestrian_counts(), (200, 0, 0));
    let mut starts = [0; 5];
    let mut ends = [0; 5];
    let mut speeds = Vec::new();
    for w in sim.available_pedestrians() {
        assert_eq!(w.get_group(), 1);
        assert_eq!(w.etiquette(), Etiquette::RightBias);
        assert_eq!(w.inst_speed(), 0);
        assert_eq!(w.x(), 31 * M);
        assert_eq!(w.y() % M, 0);
        assert_eq!(w.get_dest_coords().0, M);
        assert_eq!(w.get_dest_coords().1 % M, 0);
        starts[(w.y() / M - 1) as usize] += 1;
        ends[(w.get_dest_coords().1 / M - 1) as usize] += 1;
        assert!(MIN_TARGET_SPEED <= w.target_speed() && w.target_speed() <= MAX_TARGET_SPEED);
        speeds.push(w.target_speed());
    }
    assert!(starts.iter().all(|n| *n > 0));
    assert!(ends.iter().all(|n| *n > 0));
    speeds.sort();
    speeds.dedup();
    assert!(speeds.len() > 100);
}

#[test]
fn a_set_is_added_behind_the_pedestrians_that_wait() {
    let mut sim = one_way(3, 800_000);
    sim.add_pedestrian_set(4, 1, Etiquette::NoBias).unwrap();
    let waiting = sim.available_pedestrians();
    assert_eq!(waiting.len(), 7);
    for w in &waiting[..3] {
        assert_eq!(w.get_group(), 0);
    }
    for w in &waiting[3..] {
        assert_eq!(w.get_group(), 1);
    }
}

#[test]
fn an_empty_set_adds_nobody() {
    let mut sim = one_way(3, 800_000);
    assert_eq!(sim.add_pedestrian_set(0, 1, Etiquette::NoBias), Ok(()));
    assert_eq!(sim.get_pedestrian_counts(), (3, 0, 0));
}

#[test]
fn a_set_of_an_unknown_group_is_refused() {
    let mut sim = one_way(3, 800_000);
    assert_eq!(sim.add_pedestrian_set(5, 2, Etiquette::NoBias), Err(ConfigError::UnknownGroup));
    assert_eq!(sim.add_pedestrian_set(0, 2, Etiquette::NoBias), Err(ConfigError::UnknownGroup));
    assert_eq!(sim.get_pedestrian_counts(), (3, 0, 0));
}

#[test]
fn a_set_of_a_group_without_waypoints_is_refused() {
    let mut area = SimArea::new();
    area.add_start_end_group(vec![], vec![(M, M)]).unwrap();
    area.add_start_end_group(vec![(M, M)], vec![]).unwrap();
    area.add_start_end_group(vec![(0, 0)], vec![(M, M)]).unwrap();
    let mut sim = CrowdSim::new(Arc::new(area), 800_000);
    assert_eq!(sim.add_pedestrian_set(5, 0, Etiquette::NoBias), Err(ConfigError::EmptyGroup));
    assert_eq!(sim.add_pedestrian_set(5, 1, Etiquette::NoBias), Err(ConfigError::EmptyGroup));
    assert_eq!(sim.get_pedestrian_counts(), (0, 0, 0));
    assert_eq!(sim.add_pedestrian_set(5, 2, Etiquette::NoBias), Ok(()));
    assert_eq!(sim.get_pedestrian_counts(), (5, 0, 0));
}

#[test]
fn the_same_seed_gives_the_same_run() {
    let mut runs = Vec::new();
    for _ in 0..2 {
        let mut sim = CrowdSim::with_seed(corridor(), 3_000_000, 77);
        sim.add_pedestrian_set(8, 0, Etiquette::NoBias).unwrap();
        sim.add_pedestrian_set(8, 1, Etiquette::LeftBias).unwrap();
        sim.randomise_pedestrian_order();
        runs.push(sim.simulate_full(40_000));
    }
    assert_eq!(runs[0], runs[1]);
    assert_eq!(runs[0].1, 16);
}

#[test]
fn noise_changes_the_run() {
    let mut quiet = one_way(5, 2_000_000);
    let mut noisy = one_way(5, 2_000_000);
    for _ in 0..200 {
        quiet.simulate_timestep_with_noise(40_000, &[]);
        noisy.simulate_timestep(40_000);
    }
    let a: Vec<(i64, i64, i64, i64)> = quiet.active_pedestrians().iter().map(state).collect();
    let b: Vec<(i64, i64, i64, i64)> = noisy.active_pedestrians().iter().map(state).collect();
    assert_eq!(a.len(), 5);
    assert_ne!(a, b);
}

#[test]
fn admission_and_arrival_can_be_made_on_their_own() {
    let mut area = SimArea::new();
    area.add_start_end_group(vec![(0, 0), (5 * M, 0)], vec![(M, 0), (10 * M, 0)]).unwrap();
    let mut sim = CrowdSim::new(Arc::new(area), 10_000_000);
    sim.add_pedestrian(0, 1, 1, 1_350_000, Etiquette::NoBias).unwrap();
    sim.add_pedestrian(0, 0, 0, 1_350_000, Etiquette::NoBias).unwrap();
    sim.update_active();
    assert_eq!(sim.get_pedestrian_counts(), (2, 0, 0));
    sim.simulate_timestep_with_noise(150_000, &[]);
    sim.update_active();
    assert_eq!(sim.get_pedestrian_counts(), (0, 2, 0));
    sim.update_active();
    assert_eq!(sim.get_pedestrian_counts(), (0, 2, 0));
    sim.update_finished();
    assert_eq!(sim.get_pedestrian_counts(), (0, 1, 1));
    assert_eq!(state(&sim.finished_pedestrians()[0]), (0, 0, 0, 0));
    assert_eq!(state(&sim.active_pedestrians()[0]), (5 * M, 0, 0, 0));
    sim.update_finished();
    assert_eq!(sim.get_pedestrian_counts(), (0, 1, 1));
}
