use pedestrian_sim::error::ConfigError;
use pedestrian_sim::fixed::LIMIT;
use pedestrian_sim::geometry::Wall;

const M: i64 = 1_000_000;

#[test]
fn distance_to_the_interior_of_a_segment() {
    let wall = Wall::new(0, 0, 10 * M, 0).unwrap();
    let (distance, normal) = wall.get_normal_vector((5 * M, 3 * M));
    assert_eq!(distance, 3 * M);
    assert_eq!(normal, (0, 3 * M));
}

#[test]
fn distance_beyond_an_endpoint_is_to_that_endpoint() {
    let wall = Wall::new(0, 0, 10 * M, 0).unwrap();
    let (distance, normal) = wall.get_normal_vector((-5 * M, 0));
    assert_eq!(distance, 5 * M);
    assert_eq!(normal, (-5 * M, 0));
    let (distance, normal) = wall.get_normal_vector((13 * M, -4 * M));
    assert_eq!(distance, 5 * M);
    assert_eq!(normal, (3 * M, -4 * M));
}

#[test]
fn a_point_on_the_segment_has_distance_zero_and_no_normal() {
    let wall = Wall::new(0, 0, 10 * M, 0).unwrap();
    assert_eq!(wall.get_normal_vector((4 * M, 0)), (0, (0, 0)));
    assert_eq!(wall.get_normal_vector((0, 0)), (0, (0, 0)));
    assert_eq!(wall.get_normal_vector((10 * M, 0)), (0, (0, 0)));
}

#[test]
fn distance_to_a_slanted_segment() {
    let wall = Wall::new(0, 0, 3 * M, 4 * M).unwrap();
    let (distance, normal) = wall.get_normal_vector((3 * M, 0));
    assert_eq!(distance, 2_400_000);
    assert_eq!(normal, (1_920_000, -1_440_000));
    assert_eq!(wall.get_normal_vector((2 * M, 2 * M)).0, 400_000);
}

#[test]
fn distance_does_not_depend_on_the_direction_of_the_segment() {
    let wall = Wall::new(0, 0, 3 * M, 4 * M).unwrap();
    let back = Wall::new(3 * M, 4 * M, 0, 0).unwrap();
    assert_eq!(wall.get_normal_vector((3 * M, 0)), back.get_normal_vector((3 * M, 0)));
    assert_eq!(wall.get_normal_vector((-M, -M)), back.get_normal_vector((-M, -M)));
}

#[test]
fn a_point_outside_the_band_is_taken_at_its_edge() {
    let wall = Wall::new(0, 0, 10 * M, 0).unwrap();
    assert_eq!(wall.get_normal_vector((5 * M, i64::MAX)), (LIMIT, (0, LIMIT)));
    assert_eq!(wall.get_normal_vector((5 * M, LIMIT)), (LIMIT, (0, LIMIT)));
}

#[test]
fn a_wall_across_the_whole_band() {
    let wall = Wall::new(-LIMIT, -LIMIT, LIMIT, LIMIT).unwrap();
    assert_eq!(wall.get_normal_vector((0, 0)), (0, (0, 0)));
    let (distance, normal) = wall.get_normal_vector((LIMIT, -LIMIT));
    assert_eq!(normal, (LIMIT, -LIMIT));
    assert_eq!(distance, 14_142_135_623);
}

#[test]
fn a_degenerate_wall_is_refused() {
    assert_eq!(Wall::new(M, 2 * M, M, 2 * M).err(), Some(ConfigError::DegenerateWall));
}

#[test]
fn a_wall_outside_the_band_is_refused() {
    assert_eq!(Wall::new(0, 0, LIMIT + 1, 0).err(), Some(ConfigError::OutOfBounds));
    assert_eq!(Wall::new(0, -LIMIT - 1, 0, 0).err(), Some(ConfigError::OutOfBounds));
    assert_eq!(Wall::new(LIMIT + 1, 0, LIMIT + 1, 0).err(), Some(ConfigError::OutOfBounds));
    assert!(Wall::new(0, 0, LIMIT, 0).is_ok());
}

#[test]
fn a_wall_keeps_its_endpoints() {
    let wall = Wall::new(1, 2, 3, 4).unwrap();
    assert_eq!(wall.get_start(), (1, 2));
    assert_eq!(wall.get_end(), (3, 4));
}

#[test]
fn a_point_pushed_out_lies_at_the_radius() {
    let wall = Wall::new(0, 0, 10 * M, 0).unwrap();
    let q = wall.push_out((5 * M, 100_000), 205_000);
    assert_eq!(q, (5 * M, 205_000));
    assert_eq!(wall.get_normal_vector(q).0, 205_000);
    let q = wall.push_out((5 * M, -1), 205_000);
    assert_eq!(q, (5 * M, -205_000));
    assert_eq!(wall.get_normal_vector(q).0, 205_000);
}

#[test]
fn a_point_pushed_out_from_a_corner_lies_at_the_radius() {
    let wall = Wall::new(0, 0, 10 * M, 0).unwrap();
    let q = wall.push_out((-30_000, -40_000), 205_000);
    assert_eq!(q, (-123_000, -164_000));
    assert_eq!(wall.get_normal_vector(q).0, 205_000);
}

#[test]
fn a_point_on_the_wall_is_not_pushed() {
    let wall = Wall::new(0, 0, 10 * M, 0).unwrap();
    assert_eq!(wall.push_out((5 * M, 0), 205_000), (5 * M, 0));
}

#[test]
fn a_point_a_unit_from_a_corner_is_pushed_out_to_the_radius() {
    let wall = Wall::new(0, 0, 10 * M, 0).unwrap();
    assert_eq!(wall.get_normal_vector((-1, -1)), (1, (-1, -1)));
    let q = wall.push_out((-1, -1), 205_000);
    assert_eq!(q, (-144_957, -144_957));
    assert_eq!(wall.get_normal_vector(q).0, 205_000);
    let wall = Wall::new(0, 0, -M, 0).unwrap();
    let q = wall.push_out((1, 1), 205_000);
    assert_eq!(q, (144_957, 144_957));
    assert_eq!(wall.get_normal_vector(q).0, 205_000);
    let q = wall.push_out((1_000, 1_000), 205_000);
    assert_eq!(q, (144_957, 144_957));
    assert_eq!(wall.get_normal_vector(q).0, 205_000);
}

#[test]
fn a_point_a_unit_from_a_slanted_wall_is_pushed_out_to_the_radius() {
    let wall = Wall::new(0, 0, 3 * M, 4 * M).unwrap();
    assert_eq!(wall.get_normal_vector((1_500_001, 2_000_000)).0, 1);
    let q = wall.push_out((1_500_001, 2_000_000), 205_000);
    assert_eq!(q, (1_664_000, 1_877_000));
    assert_eq!(wall.get_normal_vector(q).0, 205_000);
    let q = wall.push_out((1_500_100, 2_000_000), 205_000);
    assert_eq!(q, (1_664_036, 1_877_048));
    assert_eq!(wall.get_normal_vector(q).0, 205_000);
}

#[test]
fn every_point_near_a_wall_is_pushed_out_to_within_the_tolerance() {
    let walls = [
        Wall::new(0, 0, 10 * M, 0).unwrap(),
        Wall::new(0, 0, 3 * M, 4 * M).unwrap(),
        Wall::new(7, -3, -5, 11).unwrap(),
        Wall::new(M, M, M + 1, M).unwrap(),
        Wall::new(-2 * M, 5 * M, 3 * M, -M).unwrap(),
    ];
    let radii = [3, 10, 205_000, 410_000, 134_217_728];
    for wall in walls {
        let (a, b) = (wall.get_start(), wall.get_end());
        for k in 0..400 {
            let along = k % 20;
            let off = k / 20;
            let px = a.0 + (b.0 - a.0) * (along - 4) / 12 + off * off * 3 - 40;
            let py = a.1 + (b.1 - a.1) * (along - 4) / 12 - off * 7 + 50;
            if wall.get_normal_vector((px, py)).0 == 0 {
                assert_eq!(wall.push_out((px, py), 205_000), (px, py));
                continue;
            }
            for radius in radii {
                let q = wall.push_out((px, py), radius);
                let d = wall.get_normal_vector(q).0;
                assert!((d - radius).abs() <= 3, "{:?} from {:?}: {}", (px, py), (a, b), d);
            }
        }
    }
}

#[test]
fn a_radius_outside_its_range_is_taken_at_the_nearest_end() {
    let wall = Wall::new(0, 0, 10 * M, 0).unwrap();
    assert_eq!(wall.push_out((5 * M, 7), -5), (5 * M, 0));
    assert_eq!(wall.push_out((5 * M, 7), 0), (5 * M, 0));
    assert_eq!(wall.push_out((5 * M, 7), i64::MAX), (5 * M, LIMIT));
}
