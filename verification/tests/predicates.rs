//! Direct checks of the carving predicates and the bounds-safe query layer
//! against hand-built neighbourhoods.

use maze_core::geometry::{Coord, News};
use maze_core::maze::Maze;

fn c(x: i32, y: i32) -> Coord {
    Coord { x, y }
}

/// A 7x7 all-wall grid with a pinned start at (3, 3).
fn blank_with_start() -> Maze {
    Maze::new(7, 7, 1, Some(c(3, 3)))
}

#[test]
fn out_of_bounds_answers_wall_and_nothing_else() {
    let m = Maze::new(7, 7, 1, None);
    for p in [c(-1, 3), c(7, 3), c(3, -1), c(3, 7), c(-100, -100)] {
        assert!(m.is_wall(p));
        assert!(!m.is_space(p));
        assert!(!m.is_footprints(p));
        assert!(!m.is_noentry(p));
        assert!(!m.is_deadend(p));
        assert!(!m.is_lockedchest(p));
    }
}

#[test]
fn sides_are_listed_in_south_east_west_north_order() {
    let mut m = blank_with_start();
    // open all four neighbours of the start
    m.set_space(c(3, 4));
    m.set_space(c(4, 3));
    m.set_space(c(2, 3));
    m.set_space(c(3, 2));
    assert_eq!(
        m.get_sides_space(c(3, 3)),
        vec![News::South, News::East, News::West, News::North]
    );

    let mut m2 = blank_with_start();
    m2.set_space(c(3, 2));
    m2.set_space(c(3, 4));
    assert_eq!(m2.get_sides_space(c(3, 3)), vec![News::South, News::North]);
}

#[test]
fn isolated_wall_cell_is_not_expandable() {
    // all four edge neighbours and all corners are wall
    let m = Maze::new(7, 7, 1, None);
    assert!(!m.is_expandable(c(3, 3)));
}

#[test]
fn open_cell_is_not_expandable() {
    let m = blank_with_start();
    assert!(!m.is_expandable(c(3, 3)));
}

#[test]
fn vertical_and_horizontal_through_passages_are_excluded() {
    let mut m = Maze::new(7, 7, 2, Some(c(1, 1)));
    // vertical: open above and below the judged wall (3,3)
    m.set_space(c(3, 2));
    m.set_space(c(3, 4));
    assert!(!m.is_expandable(c(3, 3)));

    let mut m2 = Maze::new(7, 7, 2, Some(c(1, 1)));
    m2.set_space(c(2, 3));
    m2.set_space(c(4, 3));
    assert!(!m2.is_expandable(c(3, 3)));
}

#[test]
fn diagonal_elbow_is_excluded() {
    let mut m = Maze::new(7, 7, 2, Some(c(1, 1)));
    // north-west diagonal open, north and west wall, east open so the
    // isolated-pocket rule does not fire first
    m.set_space(c(2, 2));
    m.set_space(c(4, 3));
    assert!(!m.is_expandable(c(3, 3)));
}

#[test]
fn convex_corner_is_expandable() {
    let mut m = Maze::new(7, 7, 2, Some(c(1, 1)));
    // upward convexity at (3,3): the whole north row and both sides open,
    // the south row still wall
    m.set_space(c(2, 2));
    m.set_space(c(3, 2));
    m.set_space(c(4, 2));
    m.set_space(c(2, 3));
    m.set_space(c(4, 3));
    assert!(m.is_expandable(c(3, 3)));
}

#[test]
fn digable_needs_an_untouched_far_side() {
    let mut m = Maze::new(9, 9, 3, Some(c(2, 2)));
    // candidate (3,2) approached eastward from the start (2,2):
    // its far side (north, north-east, east, south, south-east) is wall
    assert!(m.is_wall(c(3, 2)));
    assert!(m.is_digable(c(3, 2), News::East));
    // open the cell beyond the candidate: the far side is no longer intact
    m.set_space(c(4, 2));
    assert!(!m.is_digable(c(3, 2), News::East));
}

#[test]
fn digger_walk_stays_inside_the_interior() {
    for seed in [21u64, 22, 23] {
        let mut m = Maze::new(51, 51, seed, None);
        m.build_maze_a_1();
        for x in 0..51 {
            assert!(m.is_wall(c(x, 0)));
            assert!(m.is_wall(c(x, 50)));
        }
        for y in 0..51 {
            assert!(m.is_wall(c(0, y)));
            assert!(m.is_wall(c(50, y)));
        }
    }
}

#[test]
fn news_turns_and_back() {
    assert_eq!(News::North.turn_right(), News::East);
    assert_eq!(News::East.turn_right(), News::South);
    assert_eq!(News::South.turn_right(), News::West);
    assert_eq!(News::West.turn_right(), News::North);
    assert_eq!(News::North.turn_left(), News::West);
    assert_eq!(News::West.turn_left(), News::South);
    assert_eq!(News::South.turn_left(), News::East);
    assert_eq!(News::East.turn_left(), News::North);
    assert_eq!(News::North.back(), News::South);
    assert_eq!(News::South.back(), News::North);
    assert_eq!(News::East.back(), News::West);
    assert_eq!(News::West.back(), News::East);
}

#[test]
fn coord_steps_follow_screen_axes() {
    let p = c(10, 10);
    assert_eq!(p.step(News::North), c(10, 9));
    assert_eq!(p.step(News::South), c(10, 11));
    assert_eq!(p.step(News::East), c(11, 10));
    assert_eq!(p.step(News::West), c(9, 10));
}
