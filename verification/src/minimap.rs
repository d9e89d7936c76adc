//! Minimap bookkeeping: the markers the renderer hangs its sprites on, and
//! the decision rule that animates the player triangle.

use vstd::prelude::*;

use crate::geometry::Coord;
use crate::player::{InAction, Player};

verus! {

/// Marks one minimap sprite with the grid coordinate it shows.
pub struct MiniMapCell(pub Coord);

/// Marks the player triangle on the minimap.
pub struct MinimapPlayer;

/// Marks the camera that renders the minimap window.
pub struct MinimapCamera;

/// Placement of the minimap window, in grid units.
pub struct MiniMapInfo {
    pub zero: Coord,
    pub size: Coord,
}

/// What the minimap should do with the player triangle this frame.
#[derive(Clone, Copy, PartialEq, Eq, Structural, Debug)]
pub enum TurnCmd {
    /// Nothing to do: the player is not turning.
    Idle,
    /// The turn just finished: snap the triangle onto the exact direction.
    Snap,
    /// Keep rotating clockwise.
    RotateRight,
    /// Keep rotating counter-clockwise.
    RotateLeft,
}

/// Decides how the minimap triangle follows the player's turn, given
/// whether a turn animation was already ongoing.  Returns the command and
/// the new ongoing flag.
pub fn turn_player(player: &Player, ongoing: bool) -> (r: (TurnCmd, bool))
    ensures
        r == if !(player.spec_is_turn() || ongoing) {
            (TurnCmd::Idle, ongoing)
        } else if !player.spec_is_turn() {
            (TurnCmd::Snap, false)
        } else if player.in_action == InAction::TurnRight {
            (TurnCmd::RotateRight, true)
        } else {
            (TurnCmd::RotateLeft, true)
        },
{
    if !(player.is_turn() || ongoing) {
        return (TurnCmd::Idle, ongoing);
    }
    if !player.is_turn() {
        (TurnCmd::Snap, false)
    } else if player.in_action == InAction::TurnRight {
        (TurnCmd::RotateRight, true)
    } else {
        (TurnCmd::RotateLeft, true)
    }
}

} // verus!
