//! End-to-end generation checks: border, exclusivity, connectivity,
//! dead-ends, start immunity, determinism and the reference scenario.

use maze_core::geometry::Coord;
use maze_core::maze::Maze;
use std::collections::VecDeque;

fn c(x: i32, y: i32) -> Coord {
    Coord { x, y }
}

fn generated(seed: u64) -> Maze {
    let mut m = Maze::new(51, 51, seed, None);
    m.make_new_data();
    m
}

#[test]
fn border_cells_are_wall_after_generation() {
    let m = generated(42);
    for x in 0..51 {
        for y in 0..51 {
            if x == 0 || x == 50 || y == 0 || y == 50 {
                assert!(m.is_wall(c(x, y)), "border cell ({x},{y}) must be wall");
                assert!(!m.is_space(c(x, y)));
            }
        }
    }
}

#[test]
fn interior_cells_are_wall_xor_space() {
    let m = generated(7);
    for x in 0..51 {
        for y in 0..51 {
            let w = m.is_wall(c(x, y));
            let s = m.is_space(c(x, y));
            assert!(w != s, "cell ({x},{y}) must be exactly one of wall/space");
        }
    }
}

#[test]
fn every_space_cell_reachable_from_start() {
    let m = generated(99);
    let start = m.get_start();
    assert!(m.is_space(start));

    let mut seen = vec![vec![false; 51]; 51];
    let mut queue = VecDeque::new();
    seen[start.x as usize][start.y as usize] = true;
    queue.push_back(start);
    let mut reached = 0u32;
    while let Some(p) = queue.pop_front() {
        reached += 1;
        for (dx, dy) in [(0, 1), (1, 0), (-1, 0), (0, -1)] {
            let n = c(p.x + dx, p.y + dy);
            if n.x >= 0 && n.x < 51 && n.y >= 0 && n.y < 51 {
                if m.is_space(n) && !seen[n.x as usize][n.y as usize] {
                    seen[n.x as usize][n.y as usize] = true;
                    queue.push_back(n);
                }
            }
        }
    }

    let mut total_space = 0u32;
    for x in 0..51 {
        for y in 0..51 {
            if m.is_space(c(x, y)) {
                total_space += 1;
            }
        }
    }
    assert_eq!(reached, total_space, "every space cell must be reachable from the start");
}

#[test]
fn deadend_cells_have_exactly_one_open_side() {
    let m = generated(1234);
    for x in 0..51 {
        for y in 0..51 {
            let p = c(x, y);
            if m.is_deadend(p) {
                assert!(m.is_space(p));
                assert_eq!(m.get_sides_space(p).len(), 1);
            }
            if m.is_space(p) && m.get_sides_space(p).len() == 1 {
                assert!(m.is_deadend(p), "space cell with one open side must be a dead-end");
            }
        }
    }
}

#[test]
fn start_never_carries_noentry_or_reward() {
    for seed in [1u64, 2, 3, 4, 5, 1234567890] {
        let m = generated(seed);
        let start = m.get_start();
        assert!(!m.is_noentry(start));
        assert!(!m.is_lockedchest(start));
    }
}

#[test]
fn locked_rewards_sit_on_noentry_deadends_away_from_start() {
    for seed in [11u64, 12, 13] {
        let m = generated(seed);
        let start = m.get_start();
        for x in 0..51 {
            for y in 0..51 {
                let p = c(x, y);
                if m.is_lockedchest(p) {
                    assert!(m.is_deadend(p));
                    assert!(m.is_noentry(p));
                    assert!(p != start);
                }
            }
        }
    }
}

#[test]
fn some_seed_places_a_locked_reward() {
    // the one-in-three draw must fire now and then, but not always
    let mut locked = 0u32;
    let mut unlocked = 0u32;
    for seed in [1u64, 2, 3, 4, 5] {
        let m = generated(seed);
        let start = m.get_start();
        for x in 0..51 {
            for y in 0..51 {
                let p = c(x, y);
                if m.is_deadend(p) && p != start {
                    if m.is_lockedchest(p) {
                        locked += 1;
                    } else {
                        unlocked += 1;
                    }
                }
            }
        }
    }
    assert!(locked > 0, "across several seeds at least one reward must appear");
    assert!(unlocked > 0, "the draw must not reward every dead-end");
}

#[test]
fn walls_are_noentry_and_footprints_are_cleared() {
    let m = generated(2024);
    for x in 0..51 {
        for y in 0..51 {
            let p = c(x, y);
            if m.is_wall(p) {
                assert!(m.is_noentry(p));
            }
            assert!(!m.is_footprints(p));
            if m.is_noentry(p) {
                assert!(m.is_wall(p) || m.is_deadend(p));
            }
        }
    }
}

#[test]
fn identical_seeds_give_identical_grids() {
    let mut a = Maze::new(51, 51, 777, None);
    let mut b = Maze::new(51, 51, 777, None);
    a.make_new_data();
    b.make_new_data();
    assert_eq!(a.get_start(), b.get_start());
    for x in 0..51 {
        for y in 0..51 {
            let p = c(x, y);
            assert_eq!(a.is_wall(p), b.is_wall(p));
            assert_eq!(a.is_space(p), b.is_space(p));
            assert_eq!(a.is_noentry(p), b.is_noentry(p));
            assert_eq!(a.is_deadend(p), b.is_deadend(p));
            assert_eq!(a.is_lockedchest(p), b.is_lockedchest(p));
            assert_eq!(a.is_footprints(p), b.is_footprints(p));
        }
    }
}

#[test]
fn seeded_scenario_digger_one_then_growth() {
    let mut m = Maze::new(51, 51, 1234567890, Some(c(25, 25)));
    m.build_maze_a_1();
    m.build_maze_b();
    m.search_deadend();
    m.place_rewards();

    assert!(m.is_space(c(25, 25)));
    assert_eq!(m.get_start(), c(25, 25));
    for y in 0..51 {
        assert!(m.is_wall(c(0, y)));
    }
    let mut space = 0u32;
    for x in 0..51 {
        for y in 0..51 {
            if m.is_space(c(x, y)) {
                space += 1;
            }
        }
    }
    assert!(space > 0);
    assert!(space < 49 * 49);
}

#[test]
fn growth_only_on_trivial_grid_leaves_no_expandable_cell() {
    let mut m = Maze::new(5, 5, 31, None);
    m.build_maze_b();
    let mut space = 0u32;
    for x in 1..4 {
        for y in 1..4 {
            assert!(!m.is_expandable(c(x, y)));
            if m.is_space(c(x, y)) {
                space += 1;
            }
        }
    }
    // the carved area can never exceed the interior cell count
    assert!(space >= 1 && space <= 9);
}

#[test]
fn fixed_start_is_kept_across_regeneration() {
    let mut m = Maze::new(51, 51, 5, Some(c(25, 25)));
    m.make_new_data();
    assert_eq!(m.get_start(), c(25, 25));
    assert!(m.is_space(c(25, 25)));
    m.make_new_data();
    assert_eq!(m.get_start(), c(25, 25));
    assert!(m.is_space(c(25, 25)));
}

#[test]
fn smallest_grid_has_one_open_cell() {
    // a 3x3 grid has a single interior cell: the start is forced onto it,
    // and with no carvable neighbours nothing else opens
    let mut m = Maze::new(3, 3, 9, None);
    m.make_new_data();
    assert_eq!(m.get_start(), c(1, 1));
    assert!(m.is_space(c(1, 1)));
    assert!(!m.is_deadend(c(1, 1)));
    for x in 0..3 {
        for y in 0..3 {
            if !(x == 1 && y == 1) {
                assert!(m.is_wall(c(x, y)));
                assert!(m.is_noentry(c(x, y)));
            }
        }
    }
}

#[test]
fn asymmetric_grid_keeps_all_invariants() {
    let mut m = Maze::new(9, 5, 123, None);
    m.make_new_data();
    for x in 0..9 {
        for y in 0..5 {
            let p = c(x, y);
            assert!(m.is_wall(p) != m.is_space(p));
            if x == 0 || x == 8 || y == 0 || y == 4 {
                assert!(m.is_wall(p));
            }
            if m.is_deadend(p) {
                assert_eq!(m.get_sides_space(p).len(), 1);
            }
        }
    }
    let s = m.get_start();
    assert!(s.x >= 1 && s.x <= 7 && s.y >= 1 && s.y <= 3);
    assert!(m.is_space(s));
}

#[test]
fn random_start_lies_in_the_interior() {
    let m = generated(808);
    let s = m.get_start();
    assert!(s.x >= 1 && s.x <= 49 && s.y >= 1 && s.y <= 49);
    assert!(m.is_space(s));
}
