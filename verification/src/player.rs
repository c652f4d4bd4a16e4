//! The player, moved by the arrow keys.

use crate::fixed::ONE;
use crate::vector::{scale_direction, scaled_direction, Vec2};
use vstd::prelude::*;

verus! {

/// The distance that the player covers in a frame: 5.0.
pub const PLAYER_SPEED: i32 = 5 * ONE;

/// What makes an entity the player.
#[derive(Clone, Copy, Debug, PartialEq, Eq, Structural)]
pub struct PlayerComponent {
    /// The distance covered in a frame.
    pub speed: i32,
}

/// The player in the world: where it is, and what it does.
#[derive(Clone, Copy, Debug, PartialEq, Eq, Structural)]
pub struct PlayerEntity {
    pub position: Vec2,
    pub component: PlayerComponent,
}

/// Which of the four arrow keys are held down.
#[derive(Clone, Copy, Debug, PartialEq, Eq, Structural)]
pub struct PressedKeys {
    pub up: bool,
    pub down: bool,
    pub left: bool,
    pub right: bool,
}

impl PressedKeys {
    /// The direction that the keys ask for: one to the right for the right
    /// key and one to the left for the left key, one up for the up key and
    /// one down for the down key.
    pub open spec fn direction(self) -> (int, int) {
        (
            (if self.right { 1int } else { 0 }) - (if self.left { 1int } else { 0 }),
            (if self.up { 1int } else { 0 }) - (if self.down { 1int } else { 0 }),
        )
    }
}

impl PlayerEntity {
    /// Where the player stands after a frame with `keys` held down: one
    /// step of its speed in the direction that the keys ask for.
    pub open spec fn position_after(self, keys: PressedKeys) -> Vec2 {
        self.position.offset(
            scaled_direction(keys.direction().0, keys.direction().1, self.component.speed as int).0,
            scaled_direction(keys.direction().0, keys.direction().1, self.component.speed as int).1,
        )
    }
}

/// The player as the game begins: at the origin, at the usual speed.
pub fn spawn_player_system() -> (player: PlayerEntity)
    ensures
        player == (PlayerEntity {
            position: Vec2 { x: 0, y: 0 },
            component: PlayerComponent { speed: PLAYER_SPEED },
        }),
{
    PlayerEntity { position: Vec2::new(0, 0), component: PlayerComponent { speed: PLAYER_SPEED } }
}

/// Plays one frame for the player: a step of its speed in the direction
/// that the keys held down ask for, and none where they ask for none.
pub fn move_player_system(keys: &PressedKeys, player: &mut PlayerEntity)
    ensures
        final(player).position == old(player).position_after(*keys),
        final(player).component == old(player).component,
{
    let mut delta_x: i64 = 0;
    let mut delta_y: i64 = 0;
    if keys.up {
        delta_y += 1;
    }
    if keys.down {
        delta_y -= 1;
    }
    if keys.left {
        delta_x -= 1;
    }
    if keys.right {
        delta_x += 1;
    }
    let step = scale_direction(delta_x, delta_y, player.component.speed);
    player.position = player.position.moved_by(step.0, step.1);
}

} // verus!
