use pedestrian_sim::environment::SimArea;
use pedestrian_sim::error::ConfigError;
use pedestrian_sim::fixed::LIMIT;

const M: i64 = 1_000_000;

#[test]
fn a_new_world_is_empty() {
    let area = SimArea::new();
    assert_eq!(area.boundaries().len(), 0);
    assert_eq!(area.timing_boundaries().len(), 0);
    assert_eq!(area.groups(), 0);
}

#[test]
fn walls_and_gates_are_kept_in_order() {
    let mut area = SimArea::new();
    assert_eq!(area.add_wall((0, 0), (10 * M, 0)), Ok(()));
    assert_eq!(area.add_wall((0, 6 * M), (10 * M, 6 * M)), Ok(()));
    assert_eq!(area.add_timing_boundary((3 * M, 0), (3 * M, 6 * M)), Ok(()));
    assert_eq!(area.boundaries().len(), 2);
    assert_eq!(area.boundaries()[0].get_end(), (10 * M, 0));
    assert_eq!(area.boundaries()[1].get_start(), (0, 6 * M));
    assert_eq!(area.timing_boundaries().len(), 1);
    assert_eq!(area.timing_boundaries()[0].get_start(), (3 * M, 0));
}

#[test]
fn a_degenerate_wall_leaves_the_world_as_it_was() {
    let mut area = SimArea::new();
    assert_eq!(area.add_wall((M, M), (M, M)), Err(ConfigError::DegenerateWall));
    assert_eq!(area.add_timing_boundary((M, M), (M, M)), Err(ConfigError::DegenerateWall));
    assert_eq!(area.boundaries().len(), 0);
    assert_eq!(area.timing_boundaries().len(), 0);
}

#[test]
fn a_wall_outside_the_band_leaves_the_world_as_it_was() {
    let mut area = SimArea::new();
    assert_eq!(area.add_wall((0, 0), (0, LIMIT + 1)), Err(ConfigError::OutOfBounds));
    assert_eq!(area.add_timing_boundary((-LIMIT - 1, 0), (0, 0)), Err(ConfigError::OutOfBounds));
    assert_eq!(area.boundaries().len(), 0);
    assert_eq!(area.timing_boundaries().len(), 0);
}

#[test]
fn groups_are_numbered_from_zero() {
    let mut area = SimArea::new();
    let first = area.add_start_end_group(vec![(0, M), (0, 2 * M)], vec![(30 * M, M)]);
    let second = area.add_start_end_group(vec![(31 * M, M)], vec![(M, M), (M, 2 * M)]);
    assert_eq!(first, Ok(0));
    assert_eq!(second, Ok(1));
    assert_eq!(area.groups(), 2);
    assert_eq!(area.start_positions(0), &vec![(0, M), (0, 2 * M)]);
    assert_eq!(area.end_positions(0), &vec![(30 * M, M)]);
    assert_eq!(area.start_positions(1), &vec![(31 * M, M)]);
    assert_eq!(area.end_positions(1), &vec![(M, M), (M, 2 * M)]);
}

#[test]
fn a_group_with_a_waypoint_outside_the_band_is_refused() {
    let mut area = SimArea::new();
    assert_eq!(
        area.add_start_end_group(vec![(0, 0), (LIMIT + 1, 0)], vec![(M, M)]),
        Err(ConfigError::OutOfBounds)
    );
    assert_eq!(
        area.add_start_end_group(vec![(0, 0)], vec![(M, -LIMIT - 1)]),
        Err(ConfigError::OutOfBounds)
    );
    assert_eq!(area.groups(), 0);
    assert_eq!(area.add_start_end_group(vec![(LIMIT, -LIMIT)], vec![]), Ok(0));
}
