//! Player movement against the no-entry markers, minimap turn decisions,
//! and the application state transitions.

use maze_core::geometry::{Coord, News};
use maze_core::maze::Maze;
use maze_core::minimap::{turn_player, TurnCmd};
use maze_core::player::{ArrowKey, InAction, Player};
use maze_core::state::{
    change_state, change_state_with_res, AfterInitAppTo, AfterLoadAssetsTo, GotoState, MainLoop,
    MyState,
};

fn c(x: i32, y: i32) -> Coord {
    Coord { x, y }
}

/// A 5x5 grid with a two-cell corridor: start (2,2) and (2,1) open, all
/// walls marked no-entry by the analysis pass.
fn corridor() -> Maze {
    let mut m = Maze::new(5, 5, 1, Some(c(2, 2)));
    m.set_space(c(2, 1));
    m.search_deadend();
    m
}

#[test]
fn turning_changes_direction_only() {
    let m = corridor();
    let mut p = Player { position: c(2, 2), direction: News::North, in_action: InAction::Stop };
    p.catch_input_keyboard(&m, ArrowKey::Right);
    assert_eq!(p.direction, News::East);
    assert_eq!(p.in_action, InAction::TurnRight);
    assert_eq!(p.position, c(2, 2));

    let mut q = Player { position: c(2, 2), direction: News::North, in_action: InAction::Stop };
    q.catch_input_keyboard(&m, ArrowKey::Left);
    assert_eq!(q.direction, News::West);
    assert_eq!(q.in_action, InAction::TurnLeft);
}

#[test]
fn walking_forward_into_open_space_moves() {
    let m = corridor();
    let mut p = Player { position: c(2, 2), direction: News::North, in_action: InAction::Stop };
    p.catch_input_keyboard(&m, ArrowKey::Up);
    assert_eq!(p.position, c(2, 1));
    assert_eq!(p.in_action, InAction::Forward);
}

#[test]
fn walking_into_noentry_is_blocked() {
    let m = corridor();
    assert!(m.is_noentry(c(2, 3)));
    let mut p = Player { position: c(2, 2), direction: News::South, in_action: InAction::Stop };
    p.catch_input_keyboard(&m, ArrowKey::Up);
    assert_eq!(p.position, c(2, 2));
    assert_eq!(p.in_action, InAction::Stop);
}

#[test]
fn walking_backward_respects_noentry_too() {
    let m = corridor();
    // facing south, the cell behind is the open corridor north of the start
    let mut p = Player { position: c(2, 2), direction: News::South, in_action: InAction::Stop };
    p.catch_input_keyboard(&m, ArrowKey::Down);
    assert_eq!(p.position, c(2, 1));
    assert_eq!(p.in_action, InAction::Backward);

    // facing north, the cell behind is a no-entry wall
    let mut q = Player { position: c(2, 2), direction: News::North, in_action: InAction::Stop };
    q.catch_input_keyboard(&m, ArrowKey::Down);
    assert_eq!(q.position, c(2, 2));
    assert_eq!(q.in_action, InAction::Stop);
}

#[test]
fn input_is_ignored_while_acting() {
    let m = corridor();
    let mut p = Player { position: c(2, 2), direction: News::North, in_action: InAction::Forward };
    p.catch_input_keyboard(&m, ArrowKey::Right);
    assert_eq!(p.direction, News::North);
    assert_eq!(p.in_action, InAction::Forward);
}

#[test]
fn player_action_queries() {
    let stop = Player::default();
    assert!(stop.is_stop());
    assert!(!stop.is_turn());
    assert!(!stop.is_move());
    let turning = Player { in_action: InAction::TurnLeft, ..Player::default() };
    assert!(turning.is_turn());
    assert!(!turning.is_stop());
    let walking = Player { in_action: InAction::Backward, ..Player::default() };
    assert!(walking.is_move());
    assert!(!walking.is_turn());
}

#[test]
fn minimap_turn_decisions() {
    let idle = Player::default();
    assert_eq!(turn_player(&idle, false), (TurnCmd::Idle, false));
    // the turn just ended: snap and clear the flag
    assert_eq!(turn_player(&idle, true), (TurnCmd::Snap, false));
    let right = Player { in_action: InAction::TurnRight, ..Player::default() };
    assert_eq!(turn_player(&right, false), (TurnCmd::RotateRight, true));
    let left = Player { in_action: InAction::TurnLeft, ..Player::default() };
    assert_eq!(turn_player(&left, true), (TurnCmd::RotateLeft, true));
}

#[test]
fn apply_reward_marks_only_drawn_deadends_away_from_start() {
    // both open cells of the corridor are dead-ends; (2,2) is the start
    let mut m = corridor();
    assert!(m.is_deadend(c(2, 1)));
    assert!(m.is_deadend(c(2, 2)));

    // a false draw changes nothing
    m.apply_reward(c(2, 1), false);
    assert!(!m.is_lockedchest(c(2, 1)));
    assert!(!m.is_noentry(c(2, 1)));

    // the start never takes a reward, whatever was drawn
    m.apply_reward(c(2, 2), true);
    assert!(!m.is_lockedchest(c(2, 2)));
    assert!(!m.is_noentry(c(2, 2)));

    // a wall is no dead-end, so it never takes a reward
    m.apply_reward(c(1, 1), true);
    assert!(!m.is_lockedchest(c(1, 1)));

    // a true draw on a dead-end away from the start locks it
    m.apply_reward(c(2, 1), true);
    assert!(m.is_lockedchest(c(2, 1)));
    assert!(m.is_noentry(c(2, 1)));
    assert!(m.is_deadend(c(2, 1)));
    assert!(m.is_space(c(2, 1)));
}

#[test]
fn state_transitions() {
    assert_eq!(MyState::default(), MyState::LoadAssets);
    assert_eq!(MainLoop.next(), MyState::MainLoop);
    assert_eq!(AfterLoadAssetsTo(MyState::InitApp).next(), MyState::InitApp);
    assert_eq!(AfterInitAppTo(MyState::GameStart).next(), MyState::GameStart);
    assert_eq!(change_state(&MainLoop), MyState::MainLoop);
    assert_eq!(
        change_state_with_res(Some(&AfterInitAppTo(MyState::GameStart))),
        Some(MyState::GameStart)
    );
    let none: Option<&AfterInitAppTo> = None;
    assert_eq!(change_state_with_res(none), None);
}
