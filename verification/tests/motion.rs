use pedestrian_sim::angle::{HALF_PI, PI, QUARTER_PI};
use pedestrian_sim::etiquette::Etiquette;
use pedestrian_sim::fixed::{LIMIT, SCALE};
use pedestrian_sim::geometry::Wall;
use pedestrian_sim::motion::{
    align_to_goal, apply_bias, apply_noise, collide, integrate, react_to_neighbour,
    react_to_neighbours, relax_speed, resolve_wall, resolve_wall_collisions, slow_down, Motion,
    PEDESTRIAN_RADIUS,
};

const M: i64 = 1_000_000;
const DT: u32 = 20_000;

fn at(x: i64, y: i64, heading: i64, speed: i64) -> Motion {
    Motion { x, y, heading, speed }
}

#[test]
fn speed_rises_by_the_acceleration_of_one_tick() {
    assert_eq!(relax_speed(at(0, 3 * M, 0, 0), 1_350_000, DT), at(0, 3 * M, 0, 16_000));
}

#[test]
fn speed_stops_at_the_target_speed() {
    assert_eq!(relax_speed(at(0, 0, 0, 1_340_000), 1_350_000, DT).speed, 1_350_000);
    assert_eq!(relax_speed(at(0, 0, 0, 1_350_000), 1_350_000, DT).speed, 1_350_000);
    assert_eq!(relax_speed(at(0, 0, 0, 1_400_000), 1_350_000, DT).speed, 1_350_000);
    assert_eq!(relax_speed(at(0, 0, 0, 0), 0, DT).speed, 0);
}

#[test]
fn the_heading_turns_towards_the_destination() {
    assert_eq!(align_to_goal(at(0, 0, 0, 0), (0, 10 * M), DT).heading, 31_416);
    assert_eq!(align_to_goal(at(0, 0, 0, 0), (0, 10 * M), 500_000).heading, 785_398);
    assert_eq!(align_to_goal(at(0, 0, PI, 0), (10 * M, 0), 100_000).heading, 3_455_751);
}

#[test]
fn the_heading_does_not_turn_past_the_destination() {
    assert_eq!(align_to_goal(at(0, 0, 0, 0), (0, 10 * M), 2_000_000).heading, HALF_PI);
    assert_eq!(align_to_goal(at(0, 0, 0, 0), (0, 10 * M), u32::MAX).heading, HALF_PI);
}

#[test]
fn a_pedestrian_at_its_destination_turns_towards_heading_zero() {
    assert_eq!(align_to_goal(at(5, 5, 1_000, 0), (5, 5), 100_000), at(5, 5, 900, 0));
}

#[test]
fn a_bias_drifts_the_heading_to_its_side() {
    assert_eq!(apply_bias(at(0, 0, 0, 0), Etiquette::LeftBias, DT).heading, 6_278_184);
    assert_eq!(apply_bias(at(0, 0, 0, 0), Etiquette::RightBias, DT).heading, 5_000);
    assert_eq!(apply_bias(at(0, 0, 0, 0), Etiquette::NoBias, DT).heading, 0);
}

#[test]
fn slowing_down_stops_at_zero() {
    assert_eq!(slow_down(10, 3), 7);
    assert_eq!(slow_down(10, 30), 0);
    assert_eq!(slow_down(10, -5), 15);
    assert_eq!(slow_down(LIMIT, -5), LIMIT);
}

#[test]
fn overlapping_bodies_are_pushed_apart_by_the_overlap() {
    let m = react_to_neighbour(at(0, 0, 0, M), Etiquette::NoBias, DT, (200_000, 0, PI));
    assert_eq!(m, at(-210_000, 0, PI, 0));
    let m = react_to_neighbour(at(0, 0, 0, M), Etiquette::NoBias, DT, (120_000, 160_000, PI));
    assert_eq!(m, at(-126_000, -168_000, 4_068_134, 0));
}

#[test]
fn bodies_a_unit_apart_are_pushed_apart_to_twice_the_radius() {
    let m = collide(at(0, 0, 0, M), 1, 1, 1, 0);
    assert_eq!(m, at(-289_913, -289_913, PI, 0));
    let m = react_to_neighbour(at(0, 0, 0, M), Etiquette::LeftBias, DT, (1, 1, 0));
    assert_eq!(m, at(-289_913, -289_913, PI + QUARTER_PI, 0));
    let m = react_to_neighbour(at(5, 5, 0, M), Etiquette::NoBias, DT, (4, 5, 0));
    assert_eq!(m, at(410_004, 5, 0, 0));
}

#[test]
fn every_overlap_is_pushed_apart_to_within_a_unit_of_twice_the_radius() {
    for k in 0..2_000i64 {
        let dx = (k * 7919) % 5_003 - 2_500 + (k % 3) * 130_000;
        let dy = (k * 104_729) % 4_001 - 2_000 - (k % 2) * 90_000;
        if dx == 0 && dy == 0 {
            continue;
        }
        let m = collide(at(M, -M, 0, M), dx, dy, 0, 0);
        let (ox, oy) = ((M + dx - m.x) as f64, (-M + dy - m.y) as f64);
        let apart = (ox * ox + oy * oy).sqrt().floor() as i64;
        assert!((apart - 410_000).abs() <= 1, "({}, {}): {}", dx, dy, apart);
        assert_eq!(m.speed, 0);
    }
}

#[test]
fn bodies_that_touch_at_twice_the_radius_do_not_collide() {
    let m = collide(at(0, 0, 0, M), 410_000, 0, 410_000, 0);
    assert_eq!(m, at(0, 0, 0, M));
    let m = collide(at(0, 0, 0, M), 409_999, 0, 409_999, 0);
    assert_eq!(m, at(-1, 0, PI, 0));
}

#[test]
fn a_neighbour_at_the_same_place_pushes_along_the_x_axis() {
    let m = react_to_neighbour(at(0, 0, 0, M), Etiquette::NoBias, DT, (0, 0, 0));
    assert_eq!(m, at(-410_000, 0, PI, 0));
}

#[test]
fn a_pedestrian_slows_down_behind_one_that_walks_the_same_way() {
    let m = react_to_neighbour(at(0, 0, 0, M), Etiquette::NoBias, DT, (1_500_000, 0, 0));
    assert_eq!(m, at(0, 0, 0, 992_000));
    let m = react_to_neighbour(at(0, 0, 0, M), Etiquette::LeftBias, DT, (1_500_000, 0, 0));
    assert_eq!(m, at(0, 0, 0, 992_000));
}

#[test]
fn a_pedestrian_slows_down_further_inside_the_personal_space() {
    let m = react_to_neighbour(at(0, 0, 0, M), Etiquette::NoBias, DT, (M, 0, 0));
    assert_eq!(m, at(0, 0, 18_850, 968_000));
}

#[test]
fn a_pedestrian_turns_away_from_an_oncoming_one_as_its_etiquette_says() {
    let m = react_to_neighbour(at(0, 0, 0, M), Etiquette::LeftBias, DT, (1_500_000, 0, PI));
    assert_eq!(m, at(0, 0, 6_275_330, M));
    let m = react_to_neighbour(at(0, 0, 0, M), Etiquette::RightBias, DT, (1_500_000, 0, PI));
    assert_eq!(m, at(0, 0, 7_854, M));
    let m = react_to_neighbour(at(0, 0, 0, M), Etiquette::NoBias, DT, (1_500_000, 0, PI));
    assert_eq!(m, at(0, 0, 15_708, 992_000));
}

#[test]
fn the_heading_of_a_neighbour_counts_by_the_way_it_points() {
    let tau = 2 * PI;
    let m = react_to_neighbour(at(0, 0, 0, M), Etiquette::NoBias, DT, (1_500_000, 0, PI + tau));
    assert_eq!(m, at(0, 0, 15_708, 992_000));
    let m = react_to_neighbour(at(0, 0, 0, M), Etiquette::NoBias, DT, (1_500_000, 0, PI - 3 * tau));
    assert_eq!(m, at(0, 0, 15_708, 992_000));
    let m = react_to_neighbour(at(0, 0, 0, M), Etiquette::NoBias, DT, (1_500_000, 0, i64::MIN));
    assert_eq!(m.x, 0);
}

#[test]
fn a_neighbour_on_the_side_of_the_bias_takes_the_drift_back() {
    let m = react_to_neighbour(at(0, 0, 0, M), Etiquette::RightBias, DT, (0, 1_100_000, 0));
    assert_eq!(m, at(0, 0, 6_278_184, M));
    let m = react_to_neighbour(at(0, 0, 0, M), Etiquette::LeftBias, DT, (0, -1_100_000, 0));
    assert_eq!(m, at(0, 0, 5_000, M));
    let m = react_to_neighbour(at(0, 0, 0, M), Etiquette::LeftBias, DT, (0, 1_100_000, 0));
    assert_eq!(m, at(0, 0, 0, M));
}

#[test]
fn a_neighbour_inside_the_personal_space_turns_the_heading_away() {
    let m = react_to_neighbour(at(0, 0, 0, M), Etiquette::NoBias, DT, (0, M, 0));
    assert_eq!(m, at(0, 0, 6_273_759, M));
}

#[test]
fn a_neighbour_far_away_changes_nothing() {
    let m = react_to_neighbour(at(0, 0, 0, M), Etiquette::NoBias, DT, (0, 3 * M, 0));
    assert_eq!(m, at(0, 0, 0, M));
    let m = react_to_neighbour(at(0, 0, 0, M), Etiquette::NoBias, DT, (i64::MAX, i64::MIN, 5));
    assert_eq!(m, at(0, 0, 0, M));
}

#[test]
fn reactions_to_neighbours_follow_one_another() {
    let neighbours = [(1_500_000, 0, 0), (0, M, 0)];
    let one = react_to_neighbour(at(0, 0, 0, M), Etiquette::NoBias, DT, neighbours[0]);
    let two = react_to_neighbour(one, Etiquette::NoBias, DT, neighbours[1]);
    assert_eq!(react_to_neighbours(at(0, 0, 0, M), Etiquette::NoBias, DT, &neighbours), two);
    assert_eq!(react_to_neighbours(at(0, 0, 0, M), Etiquette::NoBias, DT, &[]), at(0, 0, 0, M));
}

#[test]
fn noise_changes_heading_and_speed_by_its_share() {
    assert_eq!(apply_noise(at(0, 0, 0, M), DT, SCALE, -SCALE), at(0, 0, 8_000, 984_000));
    assert_eq!(apply_noise(at(0, 0, 0, M), DT, 0, 0), at(0, 0, 0, M));
}

#[test]
fn noise_beyond_one_counts_as_one() {
    assert_eq!(apply_noise(at(0, 0, 0, M), DT, 5 * SCALE, -5 * SCALE), at(0, 0, 8_000, 984_000));
}

#[test]
fn noise_does_not_make_the_speed_negative() {
    assert_eq!(apply_noise(at(0, 0, 0, 1_000), DT, -500_000, -SCALE), at(0, 0, 6_279_184, 0));
}

#[test]
fn the_position_advances_along_the_heading() {
    assert_eq!(integrate(at(0, 0, 0, 1_350_000), DT), at(27_000, 0, 0, 1_350_000));
    assert_eq!(integrate(at(0, 0, HALF_PI, 1_350_000), DT), at(0, 27_000, HALF_PI, 1_350_000));
    assert_eq!(
        integrate(at(0, 0, QUARTER_PI, 1_350_000), DT),
        at(19_092, 19_092, QUARTER_PI, 1_350_000)
    );
}

#[test]
fn the_position_stops_at_the_edge_of_the_band() {
    assert_eq!(integrate(at(LIMIT, 0, 0, LIMIT), 1_000_000), at(LIMIT, 0, 0, LIMIT));
}

#[test]
fn a_pedestrian_inside_a_wall_is_put_at_its_radius() {
    let wall = Wall::new(0, 0, 10 * M, 0).unwrap();
    let m = resolve_wall(at(5 * M, 100_000, 0, M), wall, (30 * M, 100_000), DT);
    assert_eq!(m, at(5 * M, 205_000, 37_574, M));
    assert_eq!(wall.get_normal_vector((m.x, m.y)).0, PEDESTRIAN_RADIUS);
}

#[test]
fn every_distance_below_the_radius_is_pushed_out_to_the_radius() {
    let wall = Wall::new(0, 0, 10 * M, 0).unwrap();
    let mut d: i64 = 1;
    while d < PEDESTRIAN_RADIUS {
        let m = resolve_wall(at(5 * M, d, 0, M), wall, (30 * M, M), DT);
        assert_eq!(wall.get_normal_vector((m.x, m.y)).0, PEDESTRIAN_RADIUS);
        let m = resolve_wall(at(5 * M, -d, 0, M), wall, (30 * M, M), DT);
        assert_eq!(wall.get_normal_vector((m.x, m.y)).0, PEDESTRIAN_RADIUS);
        d += 1_021;
    }
}

#[test]
fn a_pedestrian_a_unit_from_a_wall_is_put_at_its_radius() {
    let wall = Wall::new(0, 0, -M, 0).unwrap();
    let m = resolve_wall(at(1, 1, 0, 0), wall, (5 * M, 5 * M), DT);
    assert_eq!(m, at(144_957, 144_957, 18_787, 0));
    assert_eq!(wall.get_normal_vector((m.x, m.y)).0, PEDESTRIAN_RADIUS);
    let wall = Wall::new(0, 0, 3 * M, 4 * M).unwrap();
    let mut k: i64 = 1;
    while k < 250_000 {
        let m = resolve_wall(at(1_500_000 + k, 2_000_000, 0, M), wall, (5 * M, 0), DT);
        let d = wall.get_normal_vector((m.x, m.y)).0;
        assert!((d - PEDESTRIAN_RADIUS).abs() <= 3, "{}: {}", k, d);
        k = k * 3 + 1;
    }
}

#[test]
fn a_pedestrian_inside_a_wall_turns_away_from_it() {
    let wall = Wall::new(0, 0, 10 * M, 0).unwrap();
    let m = resolve_wall(at(5 * M, 100_000, 3 * HALF_PI, M), wall, (5 * M, -10 * M), DT);
    assert_eq!(m, at(5 * M, 205_000, 4_787_535, M));
}

#[test]
fn a_pedestrian_that_faces_away_from_its_destination_faces_away_from_the_wall() {
    let wall = Wall::new(0, 0, 10 * M, 0).unwrap();
    let m = resolve_wall(at(5 * M, 900_000, PI, M), wall, (30 * M, 900_000), DT);
    assert_eq!(m, at(5 * M, 900_000, PI, M));
    let m = resolve_wall(at(5 * M, 100_000, PI, M), wall, (30 * M, 205_000), 0);
    assert_eq!(m, at(5 * M, 205_000, HALF_PI, M));
}

#[test]
fn a_wall_inside_the_personal_space_nudges_the_heading() {
    let wall = Wall::new(0, 0, 10 * M, 0).unwrap();
    let m = resolve_wall(at(5 * M, 500_000, 0, M), wall, (30 * M, 500_000), DT);
    assert_eq!(m, at(5 * M, 500_000, 6_283, M));
}

#[test]
fn a_wall_far_away_changes_nothing() {
    let wall = Wall::new(0, 0, 10 * M, 0).unwrap();
    let m = resolve_wall(at(5 * M, 900_000, 0, M), wall, (30 * M, 500_000), DT);
    assert_eq!(m, at(5 * M, 900_000, 0, M));
}

#[test]
fn a_pedestrian_on_a_wall_is_left_alone() {
    let wall = Wall::new(0, 0, 10 * M, 0).unwrap();
    let m = resolve_wall(at(5 * M, 0, 0, M), wall, (30 * M, 500_000), DT);
    assert_eq!(m, at(5 * M, 0, 0, M));
}

#[test]
fn a_pedestrian_on_one_wall_is_still_held_against_the_next() {
    let walls = vec![
        Wall::new(0, 0, 10 * M, 0).unwrap(),
        Wall::new(5 * M, 100_000, 5 * M, 10 * M).unwrap(),
    ];
    let m = resolve_wall_collisions(at(4_900_000, 0, 0, M), &walls, (30 * M, 0), DT);
    assert_eq!(m, at(4_855_043, -44_957, 6_226_824, M));
}
