//! Enemies: where they appear and how they chase the player.

use vstd::prelude::*;
use rand::Rng;
use crate::geometry::advance;
use crate::geometry::dist_sq;
use crate::geometry::lemma_step_bounded;
use crate::geometry::lemma_translate_bounded;
use crate::geometry::step_along;
use crate::geometry::Offset;
use crate::geometry::Point;
use crate::geometry::WORLD_LIMIT;

verus! {

/// Speed of an enemy, in world units per second.
pub const ENEMY_SPEED: u64 = 100;

/// Time between two enemies, in nanoseconds.
pub const SPAWN_INTERVAL: u64 = 600_000_000;

/// Half the side of the square round the world's centre in which enemies
/// appear, in coordinate steps.
pub const SPAWN_EXTENT: i64 = 1_000_000_000_000;

/// A pursuing enemy.
#[derive(Clone, Copy, Debug)]
pub struct Enemy {
    pub position: Point,
    pub destroyed: bool,
}

/// `position` lies in the square in which enemies appear: each coordinate
/// from the lower bound up to, but not with, the upper one.
pub open spec fn in_spawn_area(position: (int, int)) -> bool {
    &&& -SPAWN_EXTENT <= position.0 < SPAWN_EXTENT
    &&& -SPAWN_EXTENT <= position.1 < SPAWN_EXTENT
}

/// Where an enemy at `enemy` stands after chasing the player at `player` for
/// `delta` nanoseconds: it goes straight toward the player at the enemies'
/// speed, past the player if the way is shorter than the step, and stays
/// where it is if it stands on the player.
pub open spec fn pursue(enemy: (int, int), player: (int, int), delta: nat) -> (int, int) {
    advance(enemy, (player.0 - enemy.0, player.1 - enemy.1), (ENEMY_SPEED * delta) as nat)
}

/// Draws a number with `rand::Rng::gen_range` from the thread's generator
/// `rand::thread_rng()`, over the half-open range `low..high`. The range
/// must not be empty. Of the number only its range is known.
#[verifier::external_body]
fn random_in_range(low: i64, high: i64) -> (value: i64)
    requires
        low < high,
    ensures
        low <= value < high,
{
    rand::thread_rng().gen_range(low..high)
}

impl Enemy {
    /// A new enemy at `(x, y)`.
    pub fn at(x: i64, y: i64) -> (enemy: Enemy)
        ensures
            enemy.position@ == (
                crate::geometry::clamp_coord(x as int),
                crate::geometry::clamp_coord(y as int),
            ),
            !enemy.destroyed,
    {
        Enemy { position: Point::new(x, y), destroyed: false }
    }
}

/// A new enemy at a random place of the spawn area. The area is centred on
/// the world's centre, wherever the player is.
pub fn enemy_spawn() -> (enemy: Enemy)
    ensures
        in_spawn_area(enemy.position@),
        !enemy.destroyed,
{
    let x: i64 = random_in_range(-SPAWN_EXTENT, SPAWN_EXTENT);
    let y: i64 = random_in_range(-SPAWN_EXTENT, SPAWN_EXTENT);
    Enemy::at(x, y)
}

/// Moves every enemy that is not destroyed for `delta` nanoseconds straight
/// toward the player.
pub fn enemy_move(player_position: &Point, enemies: &mut Vec<Enemy>, delta: u64)
    ensures
        final(enemies)@.len() == old(enemies)@.len(),
        forall|i: int|
            0 <= i < old(enemies)@.len() ==> {
                let before = #[trigger] old(enemies)@[i];
                let after = final(enemies)@[i];
                &&& after.destroyed == before.destroyed
                &&& before.destroyed ==> after.position == before.position
                &&& !before.destroyed ==> after.position@ == pursue(
                    before.position@,
                    player_position@,
                    delta as nat,
                )
            },
{
    let count: usize = enemies.len();
    let reach: u128 = ENEMY_SPEED as u128 * delta as u128;
    let mut index: usize = 0;
    while index < count
        invariant
            index <= count,
            enemies@.len() == count,
            count == old(enemies)@.len(),
            reach == ENEMY_SPEED * delta,
            forall|i: int| index <= i < count ==> enemies@[i] == old(enemies)@[i],
            forall|i: int|
                0 <= i < index ==> {
                    let before = #[trigger] old(enemies)@[i];
                    let after = enemies@[i];
                    &&& after.destroyed == before.destroyed
                    &&& before.destroyed ==> after.position == before.position
                    &&& !before.destroyed ==> after.position@ == pursue(
                        before.position@,
                        player_position@,
                        delta as nat,
                    )
                },
        decreases count - index,
    {
        let enemy: Enemy = enemies[index];
        if !enemy.destroyed {
            let direction: Offset = enemy.position.offset_to(player_position);
            let position: Point = enemy.position.advanced(&direction, reach);
            enemies.set(index, Enemy { position, destroyed: false });
        }
        index = index + 1;
    }
}

/// In one tick an enemy covers no more than its speed times the tick's
/// length, and on neither axis does it move away from the player.
pub proof fn lemma_pursuit_bounded(enemy: (int, int), player: (int, int), delta: nat)
    requires
        -WORLD_LIMIT <= enemy.0 <= WORLD_LIMIT,
        -WORLD_LIMIT <= enemy.1 <= WORLD_LIMIT,
    ensures
        dist_sq(enemy, pursue(enemy, player, delta)) <= (ENEMY_SPEED * delta) * (ENEMY_SPEED
            * delta),
        player.0 >= enemy.0 ==> pursue(enemy, player, delta).0 >= enemy.0,
        player.0 <= enemy.0 ==> pursue(enemy, player, delta).0 <= enemy.0,
        player.1 >= enemy.1 ==> pursue(enemy, player, delta).1 >= enemy.1,
        player.1 <= enemy.1 ==> pursue(enemy, player, delta).1 <= enemy.1,
{
    let heading = (player.0 - enemy.0, player.1 - enemy.1);
    let reach = (ENEMY_SPEED * delta) as nat;
    lemma_step_bounded(heading, reach);
    lemma_translate_bounded(enemy, step_along(heading, reach));
}

/// An enemy that stands on the player stays where it is.
pub proof fn lemma_pursuit_at_player(position: (int, int), delta: nat)
    requires
        -WORLD_LIMIT <= position.0 <= WORLD_LIMIT,
        -WORLD_LIMIT <= position.1 <= WORLD_LIMIT,
    ensures
        pursue(position, position, delta) == position,
{
}

} // verus!
