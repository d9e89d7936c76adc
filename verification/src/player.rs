//! The player: grid position, facing direction and the action in progress,
//! plus the movement rules that consult the maze's no-entry markers.

use vstd::prelude::*;

use crate::geometry::{Coord, News};
use crate::maze::Maze;

verus! {

/// The action the player is currently performing.
#[derive(Clone, Copy, PartialEq, Eq, Structural, Debug)]
pub enum InAction {
    Stop,
    TurnRight,
    TurnLeft,
    Forward,
    Backward,
}

impl Default for InAction {
    /// The player starts out standing still.
    fn default() -> (r: InAction)
        ensures
            r == InAction::Stop,
    {
        InAction::Stop
    }
}

/// A key a player steers with.
#[derive(Clone, Copy, PartialEq, Eq, Structural, Debug)]
pub enum ArrowKey {
    Up,
    Down,
    Left,
    Right,
}

/// The player's state on the grid.
#[derive(Clone, Copy, PartialEq, Eq, Structural, Debug)]
pub struct Player {
    pub position: Coord,
    pub direction: News,
    pub in_action: InAction,
}

impl Default for Player {
    /// A player at the origin, facing north, standing still.
    fn default() -> (r: Player)
        ensures
            r == (Player {
                position: Coord { x: 0, y: 0 },
                direction: News::North,
                in_action: InAction::Stop,
            }),
    {
        Player {
            position: Coord { x: 0, y: 0 },
            direction: News::North,
            in_action: InAction::Stop,
        }
    }
}

/// Marks the engine-side entity that owns the player model.
pub struct PlayerEntity;

/// Marks the intermediate entity carrying the player's visible figure.
pub struct FigureHead;

/// Marks the first-person camera entity.
pub struct FppCamera;

/// Marks the third-person camera entity.
pub struct TppCamera;

impl Player {
    /// The player is standing still.
    pub open spec fn spec_is_stop(self) -> bool {
        self.in_action == InAction::Stop
    }

    /// The player is turning.
    pub open spec fn spec_is_turn(self) -> bool {
        self.in_action == InAction::TurnRight || self.in_action == InAction::TurnLeft
    }

    /// The player is walking.
    pub open spec fn spec_is_move(self) -> bool {
        self.in_action == InAction::Forward || self.in_action == InAction::Backward
    }

    /// Is the player standing still?
    pub fn is_stop(&self) -> (r: bool)
        ensures
            r == self.spec_is_stop(),
    {
        self.in_action == InAction::Stop
    }

    /// Is the player turning?
    pub fn is_turn(&self) -> (r: bool)
        ensures
            r == self.spec_is_turn(),
    {
        self.in_action == InAction::TurnRight || self.in_action == InAction::TurnLeft
    }

    /// Is the player walking?
    pub fn is_move(&self) -> (r: bool)
        ensures
            r == self.spec_is_move(),
    {
        self.in_action == InAction::Forward || self.in_action == InAction::Backward
    }

    /// The player state after one key press: turning keys rotate in place,
    /// the walking keys move one cell forward or backward unless the target
    /// cell is marked no-entry.  Input is only accepted while standing
    /// still.
    pub open spec fn spec_after_key(self, maze: Maze, key: ArrowKey) -> Player {
        if !self.spec_is_stop() {
            self
        } else {
            match key {
                ArrowKey::Right => Player {
                    direction: self.direction.spec_turn_right(),
                    in_action: InAction::TurnRight,
                    ..self
                },
                ArrowKey::Left => Player {
                    direction: self.direction.spec_turn_left(),
                    in_action: InAction::TurnLeft,
                    ..self
                },
                ArrowKey::Up => {
                    let front = self.position.spec_step(self.direction);
                    if !maze.spec_is_noentry(front) {
                        Player { position: front, in_action: InAction::Forward, ..self }
                    } else {
                        self
                    }
                },
                ArrowKey::Down => {
                    let back = self.position.spec_step(self.direction.spec_back());
                    if !maze.spec_is_noentry(back) {
                        Player { position: back, in_action: InAction::Backward, ..self }
                    } else {
                        self
                    }
                },
            }
        }
    }

    /// Applies one key press to the player, consulting the maze's no-entry
    /// markers for the walking keys.
    pub fn catch_input_keyboard(&mut self, maze: &Maze, key: ArrowKey)
        requires
            maze.wf(),
            i32::MIN < old(self).position.x < i32::MAX,
            i32::MIN < old(self).position.y < i32::MAX,
        ensures
            *final(self) == old(self).spec_after_key(*maze, key),
    {
        if !self.is_stop() {
            return ;
        }
        match key {
            ArrowKey::Right => {
                self.direction = self.direction.turn_right();
                self.in_action = InAction::TurnRight;
            },
            ArrowKey::Left => {
                self.direction = self.direction.turn_left();
                self.in_action = InAction::TurnLeft;
            },
            ArrowKey::Up => {
                let front = self.position.step(self.direction);
                if !maze.is_noentry(front) {
                    self.position = front;
                    self.in_action = InAction::Forward;
                }
            },
            ArrowKey::Down => {
                let back = self.position.step(self.direction.back());
                if !maze.is_noentry(back) {
                    self.position = back;
                    self.in_action = InAction::Backward;
                }
            },
        }
    }
}

} // verus!
