use agent_ai::astar::{find_path, find_path_within, Grid, CALCULATION_LIMIT};
use agent_ai::point::{Direction, Point2d};

fn p(x: i32, y: i32) -> Point2d {
    Point2d::new(x, y)
}

fn assert_valid(grid: &Grid, from: Point2d, to: Point2d, path: &[Point2d]) {
    if path.is_empty() {
        return;
    }
    assert!(Direction::from_neighbors(from, path[0]).is_some());
    assert_eq!(*path.last().unwrap(), to);
    for w in path.windows(2) {
        assert!(Direction::from_neighbors(w[0], w[1]).is_some());
    }
    for c in path {
        assert!(!grid.is_blocked(*c));
    }
}

#[test]
fn same_cell_gives_empty_path() {
    let grid = Grid::new((5, 5));
    assert!(find_path(p(3, 3), p(3, 3), &grid).is_empty());
    assert!(find_path(p(-4, 100), p(-4, 100), &grid).is_empty());
}

#[test]
fn grid_doubles_its_size() {
    let grid = Grid::new((3, 2));
    assert_eq!(grid.size, (6, 4));
    assert!(!grid.is_blocked(p(5, 3)));
    assert!(grid.is_blocked(p(6, 0)));
    assert!(grid.is_blocked(p(0, 4)));
    assert!(grid.is_blocked(p(-1, 0)));
}

#[test]
fn open_grid_gives_diagonal_path() {
    let grid = Grid::new((5, 5));
    let path = find_path(p(0, 0), p(4, 4), &grid);
    assert_eq!(path, vec![p(1, 1), p(2, 2), p(3, 3), p(4, 4)]);
}

#[test]
fn straight_path_to_neighbor() {
    let grid = Grid::new((5, 5));
    assert_eq!(find_path(p(2, 2), p(3, 2), &grid), vec![p(3, 2)]);
}

#[test]
fn path_goes_around_wall() {
    let mut grid = Grid::new((5, 5));
    for y in 0..9 {
        grid.set_blocked(p(5, y), true);
    }
    let from = p(2, 2);
    let to = p(8, 2);
    let path = find_path(from, to, &grid);
    assert!(!path.is_empty());
    assert_valid(&grid, from, to, &path);
    assert!(path.contains(&p(5, 9)));
}

#[test]
fn walled_off_goal_gives_empty_path() {
    let mut grid = Grid::new((5, 5));
    for y in 0..10 {
        grid.set_blocked(p(5, y), true);
    }
    assert!(find_path(p(1, 1), p(8, 8), &grid).is_empty());
}

#[test]
fn blocked_goal_or_outside_goal_gives_empty_path() {
    let mut grid = Grid::new((5, 5));
    grid.set_blocked(p(6, 6), true);
    assert!(find_path(p(1, 1), p(6, 6), &grid).is_empty());
    assert!(find_path(p(1, 1), p(20, 1), &grid).is_empty());
    assert!(find_path(p(-1, 1), p(2, 1), &grid).is_empty());
}

#[test]
fn search_stops_at_the_budget() {
    let mut grid = Grid::new((100, 100));
    for y in 1..200 {
        grid.set_blocked(p(100, y), true);
    }
    let path = find_path(p(99, 100), p(101, 100), &grid);
    assert!(path.len() <= CALCULATION_LIMIT as usize);
    assert!(path.is_empty());
}

#[test]
fn larger_budget_reaches_around_long_wall() {
    let mut grid = Grid::new((20, 20));
    for y in 1..40 {
        grid.set_blocked(p(20, y), true);
    }
    let from = p(19, 20);
    let to = p(21, 20);
    let far = find_path_within(from, to, &grid, 100_000);
    assert!(!far.is_empty());
    assert_valid(&grid, from, to, &far);
    assert!(far.contains(&p(20, 0)));
}

#[test]
fn zero_budget_finds_nothing() {
    let grid = Grid::new((5, 5));
    assert!(find_path_within(p(0, 0), p(1, 1), &grid, 0).is_empty());
}

#[test]
fn blocked_start_still_leaves() {
    let mut grid = Grid::new((5, 5));
    grid.set_blocked(p(2, 2), true);
    assert_eq!(find_path(p(2, 2), p(4, 4), &grid), vec![p(3, 3), p(4, 4)]);
}

#[test]
fn discretize_replaces_occupancy() {
    let mut grid = Grid::new((2, 2));
    grid.set_blocked(p(0, 0), true);
    grid.discretize(&vec![p(1, 1), p(2, 3), p(50, 50)]);
    assert!(!grid.is_blocked(p(0, 0)));
    assert!(grid.is_blocked(p(1, 1)));
    assert!(grid.is_blocked(p(2, 3)));
    assert!(!grid.is_blocked(p(3, 3)));
}
