//! The cursor's position in the world.

use vstd::prelude::*;
use crate::geometry::Point;

verus! {

/// Where the cursor last pointed in the world.
#[derive(Clone, Copy, Debug)]
pub struct MouseWorldPosition(pub Point);

impl Default for MouseWorldPosition {
    /// The cursor at the centre of the world.
    fn default() -> (m: Self)
        ensures
            m.0@ == (0int, 0int),
    {
        MouseWorldPosition(Point::origin())
    }
}

/// Takes over the cursor's position in the world where there is one. While
/// the cursor is outside the window, or cannot be projected into the world,
/// the last position stays.
pub fn update_mouse_world_position(
    mouse_position: &mut MouseWorldPosition,
    world_position: Option<Point>,
)
    ensures
        world_position is Some ==> final(mouse_position).0 == world_position->0,
        world_position is None ==> final(mouse_position).0 == old(mouse_position).0,
{
    if let Some(position) = world_position {
        mouse_position.0 = position;
    }
}

} // verus!
