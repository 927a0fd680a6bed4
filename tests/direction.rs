use agent_ai::point::{Direction, Point2d};

#[test]
fn test_reverse() {
    assert_eq!(Direction::N.reverse(), Direction::S);
}

#[test]
fn test_neighbor() {
    assert_eq!(Direction::N.neighbor(-1), Direction::NW);
    assert_eq!(Direction::N.neighbor(1), Direction::NE);
    assert_eq!(Direction::N.neighbor(-2), Direction::W);
    assert_eq!(Direction::N.neighbor(2), Direction::E);
}

#[test]
fn neighbor_wraps_both_ways() {
    assert_eq!(Direction::S.neighbor(-1), Direction::SE);
    assert_eq!(Direction::SW.neighbor(1), Direction::W);
    assert_eq!(Direction::NW.neighbor(1), Direction::N);
    assert_eq!(Direction::E.neighbor(8), Direction::E);
    assert_eq!(Direction::E.neighbor(-9), Direction::NE);
    assert_eq!(Direction::E.neighbor(127), Direction::NE);
    assert_eq!(Direction::E.neighbor(-128), Direction::E);
}

#[test]
fn every_direction_reverses_to_opposite_offset() {
    for d in Direction::iter8() {
        let (x, y) = d.to_movement_offset();
        let (rx, ry) = d.reverse().to_movement_offset();
        assert_eq!((rx, ry), (-x, -y));
        assert_eq!(d.reverse().reverse(), d);
    }
}

#[test]
fn ordinal_round_trips() {
    for (i, d) in Direction::iter8().into_iter().enumerate() {
        assert_eq!(d.ordinal(), i);
        assert_eq!(Direction::from_ordinal(i), d);
        assert_eq!(Direction::from_ordinal(i + 8), d);
    }
    assert_eq!(Direction::from_ordinal(0), Direction::S);
    assert_eq!(Direction::from_ordinal(4), Direction::N);
}

#[test]
fn straight_directions() {
    assert!(Direction::N.is_straight());
    assert!(Direction::W.is_straight());
    assert!(!Direction::NE.is_straight());
    assert!(!Direction::SW.is_straight());
}

#[test]
fn from_neighbors_gives_step_direction() {
    let c = Point2d::new(5, 5);
    assert_eq!(Direction::from_neighbors(c, Point2d::new(5, 4)), Some(Direction::N));
    assert_eq!(Direction::from_neighbors(c, Point2d::new(6, 6)), Some(Direction::SE));
    assert_eq!(Direction::from_neighbors(c, Point2d::new(4, 5)), Some(Direction::W));
    assert_eq!(Direction::from_neighbors(c, c), None);
    assert_eq!(Direction::from_neighbors(c, Point2d::new(7, 5)), None);
    assert_eq!(
        Direction::from_neighbors(Point2d::new(i32::MIN, 0), Point2d::new(i32::MAX, 0)),
        None
    );
}

#[test]
fn from_points_rounds_to_nearest_eighth() {
    assert_eq!(Direction::from_points((0, 0), (10, 0)), Direction::E);
    assert_eq!(Direction::from_points((0, 0), (0, 10)), Direction::N);
    assert_eq!(Direction::from_points((0, 0), (0, -10)), Direction::S);
    assert_eq!(Direction::from_points((0, 0), (-10, 0)), Direction::W);
    assert_eq!(Direction::from_points((0, 0), (10, 10)), Direction::NE);
    assert_eq!(Direction::from_points((0, 0), (-10, 10)), Direction::NW);
    assert_eq!(Direction::from_points((0, 0), (10, -10)), Direction::SE);
    assert_eq!(Direction::from_points((0, 0), (-10, -10)), Direction::SW);
    assert_eq!(Direction::from_points((0, 0), (10, 4)), Direction::E);
    assert_eq!(Direction::from_points((0, 0), (10, 5)), Direction::NE);
    assert_eq!(Direction::from_points((3, 3), (3, 3)), Direction::E);
    assert_eq!(Direction::from_points((i32::MIN, i32::MIN), (i32::MAX, i32::MAX)), Direction::NE);
}

#[test]
fn choose8_gives_one_of_the_eight() {
    let all = Direction::iter8();
    for _ in 0..32 {
        assert!(all.contains(&Direction::choose8()));
    }
}
