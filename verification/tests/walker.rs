use pedestrian_sim::angle::{HALF_PI, PI};
use pedestrian_sim::environment::SimArea;
use pedestrian_sim::error::ConfigError;
use pedestrian_sim::etiquette::Etiquette;
use pedestrian_sim::fixed::LIMIT;
use pedestrian_sim::walker::{later, Walker};
use std::sync::Arc;

const M: i64 = 1_000_000;

fn corridor() -> Arc<SimArea> {
    let mut area = SimArea::new();
    area.add_wall((-M, 0), (32 * M, 0)).unwrap();
    area.add_wall((-M, 6 * M), (32 * M, 6 * M)).unwrap();
    area.add_wall((-M, 0), (-M, 6 * M)).unwrap();
    area.add_wall((32 * M, 0), (32 * M, 6 * M)).unwrap();
    area.add_timing_boundary((3 * M, 0), (3 * M, 6 * M)).unwrap();
    area.add_timing_boundary((28 * M, 0), (28 * M, 6 * M)).unwrap();
    area.add_start_end_group(
        vec![(0, M), (0, 2 * M), (0, 3 * M), (0, 4 * M), (0, 5 * M)],
        vec![(30 * M, M), (30 * M, 2 * M), (30 * M, 3 * M), (30 * M, 4 * M), (30 * M, 5 * M)],
    )
    .unwrap();
    area.add_start_end_group(
        vec![(31 * M, M), (31 * M, 2 * M), (31 * M, 3 * M), (31 * M, 4 * M), (31 * M, 5 * M)],
        vec![(M, M), (M, 2 * M), (M, 3 * M), (M, 4 * M), (M, 5 * M)],
    )
    .unwrap();
    Arc::new(area)
}

fn open_field(gates: &[i64], start: (i64, i64), end: (i64, i64)) -> Arc<SimArea> {
    let mut area = SimArea::new();
    for x in gates {
        area.add_timing_boundary((*x, -6 * M), (*x, 6 * M)).unwrap();
    }
    area.add_start_end_group(vec![start], vec![end]).unwrap();
    Arc::new(area)
}

fn state(w: &Walker) -> (i64, i64, i64, i64) {
    (w.x(), w.y(), w.facing_direction(), w.inst_speed())
}

#[test]
fn a_new_pedestrian_stands_at_its_start_and_faces_its_destination() {
    let w = Walker::new(corridor(), 0, 2, 2, 1_350_000, Etiquette::NoBias).unwrap();
    assert_eq!(state(&w), (0, 3 * M, 0, 0));
    assert_eq!(w.target_speed(), 1_350_000);
    assert_eq!(w.get_group(), 0);
    assert_eq!(w.etiquette(), Etiquette::NoBias);
    assert_eq!(w.get_dest_coords(), (30 * M, 3 * M));
    assert_eq!(w.distance_to_destination(), 30 * M);
    assert_eq!(w.outline(), (0, 3 * M, 0));
    assert_eq!(w.timing_boundary_states(), &vec![false, false]);
    assert_eq!(w.timing_boundary_elapsed(), None);
    assert_eq!(w.environment().groups(), 2);
    let w = Walker::new(corridor(), 1, 0, 0, 1_350_000, Etiquette::LeftBias).unwrap();
    assert_eq!(state(&w), (31 * M, M, PI, 0));
    assert_eq!(w.get_group(), 1);
    let w = Walker::new(corridor(), 0, 0, 4, 1_350_000, Etiquette::RightBias).unwrap();
    assert_eq!(state(&w), (0, M, 134_017, 0));
}

#[test]
fn a_pedestrian_of_an_unknown_group_is_refused() {
    let r = Walker::new(corridor(), 2, 0, 0, 1_350_000, Etiquette::NoBias);
    assert_eq!(r.err(), Some(ConfigError::UnknownGroup));
    let r = Walker::new(corridor(), usize::MAX, 9, 9, -1, Etiquette::NoBias);
    assert_eq!(r.err(), Some(ConfigError::UnknownGroup));
}

#[test]
fn a_pedestrian_with_an_unknown_start_is_refused() {
    let r = Walker::new(corridor(), 0, 5, 0, 1_350_000, Etiquette::NoBias);
    assert_eq!(r.err(), Some(ConfigError::UnknownStart));
    let r = Walker::new(corridor(), 0, 5, 5, -1, Etiquette::NoBias);
    assert_eq!(r.err(), Some(ConfigError::UnknownStart));
}

#[test]
fn a_pedestrian_with_an_unknown_end_is_refused() {
    let r = Walker::new(corridor(), 0, 4, 5, 1_350_000, Etiquette::NoBias);
    assert_eq!(r.err(), Some(ConfigError::UnknownEnd));
    let r = Walker::new(corridor(), 1, 0, 5, -1, Etiquette::NoBias);
    assert_eq!(r.err(), Some(ConfigError::UnknownEnd));
}

#[test]
fn a_pedestrian_with_a_speed_outside_the_band_is_refused() {
    let r = Walker::new(corridor(), 0, 0, 0, -1, Etiquette::NoBias);
    assert_eq!(r.err(), Some(ConfigError::OutOfBounds));
    let r = Walker::new(corridor(), 0, 0, 0, LIMIT + 1, Etiquette::NoBias);
    assert_eq!(r.err(), Some(ConfigError::OutOfBounds));
    assert!(Walker::new(corridor(), 0, 0, 0, 0, Etiquette::NoBias).is_ok());
    assert!(Walker::new(corridor(), 0, 0, 0, LIMIT, Etiquette::NoBias).is_ok());
}

#[test]
fn the_first_ticks_of_a_lone_pedestrian() {
    let mut w = Walker::new(corridor(), 0, 2, 2, 1_350_000, Etiquette::NoBias).unwrap();
    assert_eq!(w.simulate_timestep(20_000, &[], &[], 0, 0), None);
    assert_eq!(state(&w), (320, 3 * M, 0, 16_000));
    assert_eq!(w.simulate_timestep(20_000, &[], &[], 0, 0), None);
    assert_eq!(state(&w), (960, 3 * M, 0, 32_000));
    assert_eq!(w.simulate_timestep(20_000, &[], &[], 0, 0), None);
    assert_eq!(state(&w), (1_920, 3 * M, 0, 48_000));
}

#[test]
fn the_first_ticks_of_a_pedestrian_with_a_left_bias() {
    let mut w = Walker::new(corridor(), 0, 2, 2, 1_350_000, Etiquette::LeftBias).unwrap();
    w.simulate_timestep(20_000, &[], &[], 0, 0);
    assert_eq!(state(&w), (320, 2_999_998, 6_278_184, 16_000));
    w.simulate_timestep(20_000, &[], &[], 0, 0);
    assert_eq!(state(&w), (960, 2_999_992, 6_273_284, 32_000));
}

#[test]
fn a_tick_of_no_time_changes_nothing() {
    let mut w = Walker::new(corridor(), 0, 2, 2, 1_350_000, Etiquette::RightBias).unwrap();
    w.simulate_timestep(20_000, &[], &[], 0, 0);
    let before = state(&w);
    assert_eq!(w.simulate_timestep(0, &[], &[], 1_000_000, -1_000_000), None);
    assert_eq!(state(&w), before);
}

#[test]
fn neighbours_listed_after_are_met_before_those_listed_before() {
    let near = (300_000, 3 * M, PI);
    let far = (-M, 3 * M, 0);
    let mut one = Walker::new(corridor(), 0, 2, 2, 1_350_000, Etiquette::NoBias).unwrap();
    one.simulate_timestep(20_000, &[near], &[far], 0, 0);
    let mut two = Walker::new(corridor(), 0, 2, 2, 1_350_000, Etiquette::NoBias).unwrap();
    two.simulate_timestep(20_000, &[far], &[near], 0, 0);
    assert_eq!(state(&one), (-110_000, 3 * M, 3_141_592, 0));
    assert_eq!(state(&two), (-110_000, 3 * M, 3_178_375, 0));
}

#[test]
fn two_gates_measure_the_time_between_their_crossings() {
    let area = open_field(&[M, 2 * M], (0, 3 * M), (10 * M, 3 * M));
    let mut w = Walker::new(area, 0, 0, 0, 1_350_000, Etiquette::NoBias).unwrap();
    for _ in 0..27 {
        assert_eq!(w.simulate_timestep(50_000, &[], &[], 0, 0), None);
        assert_eq!(w.timing_boundary_elapsed(), None);
    }
    assert_eq!(w.simulate_timestep(50_000, &[], &[], 0, 0), None);
    assert_eq!(state(&w), (812_000, 3 * M, 0, 1_120_000));
    assert_eq!(w.timing_boundary_states(), &vec![true, false]);
    assert_eq!(w.timing_boundary_elapsed(), Some(0));
    for k in 1..15 {
        assert_eq!(w.simulate_timestep(50_000, &[], &[], 0, 0), None);
        assert_eq!(w.timing_boundary_elapsed(), Some(50_000 * k));
    }
    assert_eq!(w.simulate_timestep(50_000, &[], &[], 0, 0), Some(750_000));
    assert_eq!(state(&w), (1_797_000, 3 * M, 0, 1_350_000));
}

#[test]
fn a_measurement_clears_the_flags_and_the_timer() {
    let area = open_field(&[M, 2 * M], (0, 3 * M), (10 * M, 3 * M));
    let mut w = Walker::new(area, 0, 0, 0, 1_350_000, Etiquette::NoBias).unwrap();
    let mut sample = None;
    while sample.is_none() {
        sample = w.simulate_timestep(50_000, &[], &[], 0, 0);
    }
    assert_eq!(w.timing_boundary_states(), &vec![false, false]);
    assert_eq!(w.timing_boundary_elapsed(), None);
    assert_eq!(w.simulate_timestep(50_000, &[], &[], 0, 0), None);
    assert_eq!(w.timing_boundary_states(), &vec![false, true]);
    assert_eq!(w.timing_boundary_elapsed(), Some(0));
    assert_eq!(w.simulate_timestep(50_000, &[], &[], 0, 0), None);
    assert_eq!(w.timing_boundary_elapsed(), Some(50_000));
}

#[test]
fn two_gates_crossed_in_one_tick_measure_no_time() {
    let area = open_field(&[0, 100_000], (50_000, 0), (10 * M, 0));
    let mut w = Walker::new(area, 0, 0, 0, 1_350_000, Etiquette::NoBias).unwrap();
    assert_eq!(w.simulate_timestep(50_000, &[], &[], 0, 0), Some(0));
    assert_eq!(w.timing_boundary_states(), &vec![false, false]);
    assert_eq!(w.timing_boundary_elapsed(), None);
}

#[test]
fn three_gates_crossed_in_one_tick_measure_nothing() {
    let area = open_field(&[0, 100_000, 200_000], (100_000, 0), (10 * M, 0));
    let mut w = Walker::new(area, 0, 0, 0, 1_350_000, Etiquette::NoBias).unwrap();
    assert_eq!(w.simulate_timestep(50_000, &[], &[], 0, 0), None);
    assert_eq!(w.timing_boundary_states(), &vec![true, true, true]);
    assert_eq!(w.timing_boundary_elapsed(), Some(0));
    assert_eq!(w.simulate_timestep(50_000, &[], &[], 0, 0), None);
    assert_eq!(w.timing_boundary_elapsed(), Some(50_000));
}

#[test]
fn a_pedestrian_without_gates_measures_nothing() {
    let area = open_field(&[], (0, 0), (M, 0));
    let mut w = Walker::new(area, 0, 0, 0, 1_350_000, Etiquette::NoBias).unwrap();
    for _ in 0..50 {
        assert_eq!(w.simulate_timestep(50_000, &[], &[], 0, 0), None);
    }
    assert_eq!(w.timing_boundary_states(), &Vec::<bool>::new());
}

#[test]
fn a_clock_stops_at_its_last_value() {
    assert_eq!(later(5, 7), 12);
    assert_eq!(later(u64::MAX - 7, 7), u64::MAX);
    assert_eq!(later(u64::MAX - 6, 7), u64::MAX);
    assert_eq!(later(u64::MAX, u32::MAX), u64::MAX);
}

#[test]
fn a_pedestrian_walks_up_the_corridor_to_its_destination() {
    let mut w = Walker::new(corridor(), 0, 0, 4, 1_350_000, Etiquette::NoBias).unwrap();
    let mut ticks = 0;
    while w.distance_to_destination() >= 1_500_000 {
        w.simulate_timestep(20_000, &[], &[], 0, 0);
        ticks += 1;
        assert!(ticks < 2_000);
        assert!(0 <= w.facing_direction() && w.facing_direction() < 2 * PI);
        assert!(w.inst_speed() <= 1_350_000);
    }
    assert!(w.x() > 28 * M && w.y() > 4 * M && w.facing_direction() < HALF_PI);
}
