//! The player: movement, dash and attack; and the flight of its projectiles.

use vstd::prelude::*;
use crate::ability::after_consume;
use crate::ability::DashAbilityCooldown;
use crate::geometry::advance;
use crate::geometry::dist_sq;
use crate::geometry::translate;
use crate::geometry::Offset;
use crate::geometry::Point;
use crate::mouse_position::MouseWorldPosition;

verus! {

/// Speed of the player along each axis, in world units per second.
pub const PLAYER_SPEED: u64 = 100;

/// Length of a dash along each axis that the facing has, in coordinate steps.
pub const DASH_DISTANCE: i64 = 60_000_000_000;

/// Speed of a projectile, in world units per second.
pub const PROJECTILE_SPEED: u64 = 1000;

/// Distance from the player beyond which a projectile is destroyed, in
/// coordinate steps.
pub const PROJECTILE_RANGE: i64 = 2_500_000_000_000;

/// Compass direction that the player faces. East is the side of falling
/// `x`, West that of rising `x`.
#[derive(Clone, Copy, Debug, PartialEq, Eq, Structural)]
pub enum Direction {
    North,
    South,
    East,
    West,
    NorthEast,
    NorthWest,
    SouthEast,
    SouthWest,
}

/// The movement keys that are held down.
#[derive(Clone, Copy, Debug, PartialEq, Eq, Structural)]
pub struct MoveInput {
    pub up: bool,
    pub down: bool,
    pub left: bool,
    pub right: bool,
}

/// The player.
#[derive(Clone, Copy, Debug)]
pub struct Player {
    pub position: Point,
    pub direction: Direction,
}

/// A projectile in flight.
#[derive(Clone, Copy, Debug)]
pub struct Projectile {
    pub position: Point,
    /// The direction of flight, fixed at launch.
    pub heading: Offset,
    pub destroyed: bool,
}

/// The facing that the held keys give. A vertical key with a horizontal one
/// gives a diagonal; else a vertical key wins over a horizontal one; up wins
/// over down and left over right. With no key held the facing stays.
pub open spec fn facing(keys: MoveInput, current: Direction) -> Direction {
    if keys.up && keys.left {
        Direction::NorthEast
    } else if keys.up && keys.right {
        Direction::NorthWest
    } else if keys.up {
        Direction::North
    } else if keys.down && keys.left {
        Direction::SouthEast
    } else if keys.down && keys.right {
        Direction::SouthWest
    } else if keys.down {
        Direction::South
    } else if keys.left {
        Direction::East
    } else if keys.right {
        Direction::West
    } else {
        current
    }
}

/// The signed distance along one axis that keys held for `delta` nanoseconds
/// give: opposite keys cancel.
pub open spec fn axis_step(forward: bool, backward: bool, delta: nat) -> int {
    (if forward { PLAYER_SPEED * delta } else { 0 }) - (if backward { PLAYER_SPEED * delta } else { 0 })
}

/// The step of the player for keys held for `delta` nanoseconds. The axes
/// are independent: a diagonal step is longer than a straight one.
pub open spec fn player_step(keys: MoveInput, delta: nat) -> (int, int) {
    (axis_step(keys.right, keys.left, delta), axis_step(keys.up, keys.down, delta))
}

/// The step of a dash for each facing.
pub open spec fn dash_offset(direction: Direction) -> (int, int) {
    match direction {
        Direction::North => (0int, DASH_DISTANCE as int),
        Direction::South => (0int, -DASH_DISTANCE),
        Direction::East => (-DASH_DISTANCE, 0int),
        Direction::West => (DASH_DISTANCE as int, 0int),
        Direction::NorthEast => (-DASH_DISTANCE, DASH_DISTANCE as int),
        Direction::NorthWest => (DASH_DISTANCE as int, DASH_DISTANCE as int),
        Direction::SouthEast => (-DASH_DISTANCE, -DASH_DISTANCE),
        Direction::SouthWest => (DASH_DISTANCE as int, -DASH_DISTANCE),
    }
}

/// A projectile at `position` is too far from the player at `player`.
pub open spec fn out_of_range(player: (int, int), position: (int, int)) -> bool {
    dist_sq(player, position) > PROJECTILE_RANGE * PROJECTILE_RANGE
}

/// The player at the start of a game: at the centre of the world, facing East.
pub fn player_spawn() -> (player: Player)
    ensures
        player.position@ == (0int, 0int),
        player.direction == Direction::East,
{
    Player { position: Point::origin(), direction: Direction::East }
}

/// The signed distance along one axis for the keys `forward` and `backward`.
fn axis_distance(forward: bool, backward: bool, delta: u64) -> (d: i128)
    ensures
        d == axis_step(forward, backward, delta as nat),
{
    assert(0 <= PLAYER_SPEED * delta <= 100 * u64::MAX) by (nonlinear_arith)
        requires
            PLAYER_SPEED == 100,
            0 <= delta <= u64::MAX,
    ;
    let reach: i128 = PLAYER_SPEED as i128 * delta as i128;
    if forward && !backward {
        reach
    } else if backward && !forward {
        -reach
    } else {
        0
    }
}

/// Turns the player to face where the held keys point, and moves it for
/// `delta` nanoseconds at the player's speed along each axis that has a key
/// held. The move stops at the world's edge.
pub fn player_move(player: &mut Player, keys: MoveInput, delta: u64)
    ensures
        final(player).direction == facing(keys, old(player).direction),
        final(player).position@ == translate(
            old(player).position@,
            player_step(keys, delta as nat),
        ),
{
    if keys.up && keys.left {
        player.direction = Direction::NorthEast;
    } else if keys.up && keys.right {
        player.direction = Direction::NorthWest;
    } else if keys.up {
        player.direction = Direction::North;
    } else if keys.down && keys.left {
        player.direction = Direction::SouthEast;
    } else if keys.down && keys.right {
        player.direction = Direction::SouthWest;
    } else if keys.down {
        player.direction = Direction::South;
    } else if keys.left {
        player.direction = Direction::East;
    } else if keys.right {
        player.direction = Direction::West;
    }
    let dx: i128 = axis_distance(keys.right, keys.left, delta);
    let dy: i128 = axis_distance(keys.up, keys.down, delta);
    player.position = player.position.translated(dx, dy);
}

impl Direction {
    /// The step of a dash in this direction.
    pub fn dash_step(&self) -> (step: (i64, i64))
        ensures
            (step.0 as int, step.1 as int) == dash_offset(*self),
    {
        match self {
            Direction::North => (0, DASH_DISTANCE),
            Direction::South => (0, -DASH_DISTANCE),
            Direction::East => (-DASH_DISTANCE, 0),
            Direction::West => (DASH_DISTANCE, 0),
            Direction::NorthEast => (-DASH_DISTANCE, DASH_DISTANCE),
            Direction::NorthWest => (DASH_DISTANCE, DASH_DISTANCE),
            Direction::SouthEast => (-DASH_DISTANCE, -DASH_DISTANCE),
            Direction::SouthWest => (DASH_DISTANCE, -DASH_DISTANCE),
        }
    }
}

/// On a press of the dash key, uses the dash cooldown and moves the player
/// at once by the dash step of its facing. The step is taken whether or not
/// the cooldown was available: the cooldown drives the icon, it does not
/// hold the player back. Without a press nothing changes.
pub fn player_dash(player: &mut Player, dash_cooldown: &mut DashAbilityCooldown, pressed: bool)
    ensures
        final(player).direction == old(player).direction,
        final(dash_cooldown).duration() == old(dash_cooldown).duration(),
        pressed ==> final(player).position@ == translate(
            old(player).position@,
            dash_offset(old(player).direction),
        ),
        pressed ==> final(dash_cooldown)@ == after_consume(
            old(dash_cooldown)@,
            old(dash_cooldown).duration(),
        ),
        !pressed ==> final(player).position == old(player).position,
        !pressed ==> final(dash_cooldown)@ == old(dash_cooldown)@,
{
    if pressed {
        dash_cooldown.consume();
        let step: (i64, i64) = player.direction.dash_step();
        player.position = player.position.translated(step.0 as i128, step.1 as i128);
    }
}

/// On a click of the attack button, launches a projectile from the player's
/// position toward the cursor. Without a click there is none.
pub fn player_attack(player: &Player, mouse_world_position: &MouseWorldPosition, clicked: bool) -> (launched: Option<Projectile>)
    ensures
        launched is Some <==> clicked,
        clicked ==> launched->0.position == player.position,
        clicked ==> launched->0.heading@ == (
            mouse_world_position.0@.0 - player.position@.0,
            mouse_world_position.0@.1 - player.position@.1,
        ),
        clicked ==> !launched->0.destroyed,
{
    if clicked {
        let heading: Offset = player.position.offset_to(&mouse_world_position.0);
        Some(Projectile { position: player.position, heading, destroyed: false })
    } else {
        None
    }
}

/// Moves every projectile that is not destroyed for `delta` nanoseconds at
/// the projectiles' speed along its heading. A projectile whose heading is
/// zero stays where it is.
pub fn projectile_move(projectiles: &mut Vec<Projectile>, delta: u64)
    ensures
        final(projectiles)@.len() == old(projectiles)@.len(),
        forall|i: int|
            0 <= i < old(projectiles)@.len() ==> {
                let before = #[trigger] old(projectiles)@[i];
                let after = final(projectiles)@[i];
                &&& after.heading == before.heading
                &&& after.destroyed == before.destroyed
                &&& before.destroyed ==> after.position == before.position
                &&& !before.destroyed ==> after.position@ == advance(
                    before.position@,
                    before.heading@,
                    (PROJECTILE_SPEED * delta) as nat,
                )
            },
{
    let count: usize = projectiles.len();
    let reach: u128 = PROJECTILE_SPEED as u128 * delta as u128;
    let mut index: usize = 0;
    while index < count
        invariant
            index <= count,
            projectiles@.len() == count,
            count == old(projectiles)@.len(),
            reach == PROJECTILE_SPEED * delta,
            forall|i: int|
                index <= i < count ==> projectiles@[i] == old(projectiles)@[i],
            forall|i: int|
                0 <= i < index ==> {
                    let before = #[trigger] old(projectiles)@[i];
                    let after = projectiles@[i];
                    &&& after.heading == before.heading
                    &&& after.destroyed == before.destroyed
                    &&& before.destroyed ==> after.position == before.position
                    &&& !before.destroyed ==> after.position@ == advance(
                        before.position@,
                        before.heading@,
                        (PROJECTILE_SPEED * delta) as nat,
                    )
                },
        decreases count - index,
    {
        let projectile: Projectile = projectiles[index];
        if !projectile.destroyed {
            let position: Point = projectile.position.advanced(&projectile.heading, reach);
            projectiles.set(
                index,
                Projectile { position, heading: projectile.heading, destroyed: false },
            );
        }
        index = index + 1;
    }
}

/// Destroys every projectile that is farther from the player than the
/// projectiles' range. One at exactly that distance lives on.
pub fn despawn_out_of_range_projectiles(player_position: &Point, projectiles: &mut Vec<Projectile>)
    ensures
        final(projectiles)@.len() == old(projectiles)@.len(),
        forall|i: int|
            0 <= i < old(projectiles)@.len() ==> {
                let before = #[trigger] old(projectiles)@[i];
                let after = final(projectiles)@[i];
                &&& after.position == before.position
                &&& after.heading == before.heading
                &&& after.destroyed == (before.destroyed || out_of_range(
                    player_position@,
                    before.position@,
                ))
            },
{
    let count: usize = projectiles.len();
    let limit: u128 = PROJECTILE_RANGE as u128 * PROJECTILE_RANGE as u128;
    let mut index: usize = 0;
    while index < count
        invariant
            index <= count,
            projectiles@.len() == count,
            count == old(projectiles)@.len(),
            limit == PROJECTILE_RANGE * PROJECTILE_RANGE,
            forall|i: int|
                index <= i < count ==> projectiles@[i] == old(projectiles)@[i],
            forall|i: int|
                0 <= i < index ==> {
                    let before = #[trigger] old(projectiles)@[i];
                    let after = projectiles@[i];
                    &&& after.position == before.position
                    &&& after.heading == before.heading
                    &&& after.destroyed == (before.destroyed || out_of_range(
                        player_position@,
                        before.position@,
                    ))
                },
        decreases count - index,
    {
        let projectile: Projectile = projectiles[index];
        let distance: u128 = player_position.distance_squared(&projectile.position);
        if distance > limit {
            projectiles.set(
                index,
                Projectile {
                    position: projectile.position,
                    heading: projectile.heading,
                    destroyed: true,
                },
            );
        }
        index = index + 1;
    }
}

} // verus!
