//! What overlaps do: projectiles kill enemies, and enemies catch the player.
//!
//! Which colliders overlap is the physics engine's to say. The functions
//! here take its answers and decide who is destroyed and what is scored.

use vstd::prelude::*;
use bevy::ecs::entity::Entity;
use bevy_rapier2d::plugin::RapierContext;
use crate::enemy::Enemy;
use crate::player::Projectile;
use crate::ui::Score;

verus! {

/// The physics engine's state, `bevy_rapier2d::plugin::RapierContext`. The
/// library hands it on to the engine's queries and knows nothing of what is
/// in it.
#[verifier::external_type_specification]
#[verifier::external_body]
pub struct ExRapierContext(RapierContext);

/// Whether the game goes on.
#[derive(Clone, Copy, Debug, PartialEq, Eq, Structural)]
pub enum GameStatus {
    /// The player has not been caught.
    Running,
    /// An enemy caught the player: the game is over.
    Lost,
}

/// The destroyed marks of a sweep, and the kills counted in it.
pub struct Sweep {
    /// For each enemy, whether it is destroyed.
    pub enemies: Seq<bool>,
    /// For each projectile, whether it is destroyed.
    pub projectiles: Seq<bool>,
    /// The kills counted so far.
    pub kills: nat,
}

/// The destroyed marks of `enemies`.
pub open spec fn enemy_marks(enemies: Seq<Enemy>) -> Seq<bool> {
    Seq::new(enemies.len(), |i: int| enemies[i].destroyed)
}

/// The destroyed marks of `projectiles`.
pub open spec fn projectile_marks(projectiles: Seq<Projectile>) -> Seq<bool> {
    Seq::new(projectiles.len(), |i: int| projectiles[i].destroyed)
}

/// The answers of a table of overlaps: a row for each enemy, and in it an
/// answer for each projectile.
pub open spec fn rows(overlaps: Seq<Vec<bool>>) -> Seq<Seq<bool>> {
    Seq::new(overlaps.len(), |i: int| overlaps[i]@)
}

/// Enemy `i` and projectile `j` overlap. `overlaps` holds a row for each
/// enemy and in it an answer for each projectile; where an answer is
/// missing there is no overlap.
pub open spec fn overlap_at(overlaps: Seq<Seq<bool>>, i: int, j: int) -> bool {
    0 <= i < overlaps.len() && 0 <= j < overlaps[i].len() && overlaps[i][j]
}

/// The first projectile from `from` on that is not destroyed and overlaps
/// enemy `i`; the number of projectiles if there is none.
pub open spec fn first_hit(overlaps: Seq<Seq<bool>>, i: int, projectiles: Seq<bool>, from: int) -> int
    decreases projectiles.len() - from,
{
    if from < 0 || from >= projectiles.len() {
        projectiles.len() as int
    } else if !projectiles[from] && overlap_at(overlaps, i, from) {
        from
    } else {
        first_hit(overlaps, i, projectiles, from + 1)
    }
}

/// The sweep after enemy `i` had its turn: if it is not destroyed and a
/// projectile that is not destroyed overlaps it, the enemy and the first
/// such projectile are destroyed and a kill is counted.
pub open spec fn resolve_enemy(overlaps: Seq<Seq<bool>>, sweep: Sweep, i: int) -> Sweep {
    let j = first_hit(overlaps, i, sweep.projectiles, 0);
    if 0 <= i < sweep.enemies.len() && !sweep.enemies[i] && j < sweep.projectiles.len() {
        Sweep {
            enemies: sweep.enemies.update(i, true),
            projectiles: sweep.projectiles.update(j, true),
            kills: sweep.kills + 1,
        }
    } else {
        sweep
    }
}

/// The sweep after the first `count` enemies had their turns, in order.
pub open spec fn resolve_first(overlaps: Seq<Seq<bool>>, sweep: Sweep, count: nat) -> Sweep
    decreases count,
{
    if count == 0 {
        sweep
    } else {
        resolve_enemy(overlaps, resolve_first(overlaps, sweep, (count - 1) as nat), count - 1)
    }
}

/// The whole sweep over enemies and projectiles with the given marks: every
/// enemy has its turn, in order, and no kill is counted before.
pub open spec fn resolve(overlaps: Seq<Seq<bool>>, enemies: Seq<bool>, projectiles: Seq<bool>) -> Sweep {
    resolve_first(overlaps, Sweep { enemies, projectiles, kills: 0 }, enemies.len())
}

/// A sweep keeps the number of enemies and of projectiles, destroys nothing
/// twice and revives nothing, and counts at most one kill for each enemy
/// that had its turn.
pub proof fn lemma_resolve_first_grows(overlaps: Seq<Seq<bool>>, sweep: Sweep, count: nat)
    ensures
        resolve_first(overlaps, sweep, count).enemies.len() == sweep.enemies.len(),
        resolve_first(overlaps, sweep, count).projectiles.len() == sweep.projectiles.len(),
        sweep.kills <= resolve_first(overlaps, sweep, count).kills <= sweep.kills + count,
        forall|i: int|
            0 <= i < sweep.enemies.len() && sweep.enemies[i] ==> #[trigger] resolve_first(
                overlaps,
                sweep,
                count,
            ).enemies[i],
        forall|i: int|
            count <= i < sweep.enemies.len() ==> #[trigger] resolve_first(
                overlaps,
                sweep,
                count,
            ).enemies[i] == sweep.enemies[i],
        forall|j: int|
            0 <= j < sweep.projectiles.len() && sweep.projectiles[j] ==> #[trigger] resolve_first(
                overlaps,
                sweep,
                count,
            ).projectiles[j],
    decreases count,
{
    if count > 0 {
        let before = resolve_first(overlaps, sweep, (count - 1) as nat);
        lemma_resolve_first_grows(overlaps, sweep, (count - 1) as nat);
        lemma_first_hit_bounds(overlaps, count - 1, before.projectiles, 0);
    }
}

/// The kills of a sweep never fall as more enemies have their turns.
pub proof fn lemma_kills_monotone(overlaps: Seq<Seq<bool>>, sweep: Sweep, fewer: nat, more: nat)
    requires
        fewer <= more,
    ensures
        resolve_first(overlaps, sweep, fewer).kills <= resolve_first(overlaps, sweep, more).kills,
    decreases more,
{
    if fewer < more {
        lemma_kills_monotone(overlaps, sweep, fewer, (more - 1) as nat);
    }
}

/// What `first_hit` finds lies from `from` on and is a projectile that is
/// not destroyed and overlaps the enemy; before it lies none such.
pub proof fn lemma_first_hit_bounds(overlaps: Seq<Seq<bool>>, i: int, projectiles: Seq<bool>, from: int)
    requires
        0 <= from,
    ensures
        from <= first_hit(overlaps, i, projectiles, from) || first_hit(
            overlaps,
            i,
            projectiles,
            from,
        ) == projectiles.len(),
        first_hit(overlaps, i, projectiles, from) <= projectiles.len(),
        first_hit(overlaps, i, projectiles, from) < projectiles.len() ==> {
            &&& !projectiles[first_hit(overlaps, i, projectiles, from)]
            &&& overlap_at(overlaps, i, first_hit(overlaps, i, projectiles, from))
        },
        forall|j: int|
            from <= j < first_hit(overlaps, i, projectiles, from) ==> projectiles[j]
                || !overlap_at(overlaps, i, j),
    decreases projectiles.len() - from,
{
    if from < projectiles.len() && !(!projectiles[from] && overlap_at(overlaps, i, from)) {
        lemma_first_hit_bounds(overlaps, i, projectiles, from + 1);
    }
}

/// No enemy and projectile that are both not destroyed overlap.
pub open spec fn settled(overlaps: Seq<Seq<bool>>, enemies: Seq<bool>, projectiles: Seq<bool>) -> bool {
    forall|i: int, j: int|
        0 <= i < enemies.len() && 0 <= j < projectiles.len() && !enemies[i] && !projectiles[j]
            ==> !#[trigger] overlap_at(overlaps, i, j)
}

/// The number of marks that are set.
pub open spec fn marked(marks: Seq<bool>) -> nat
    decreases marks.len(),
{
    if marks.len() == 0 {
        0
    } else {
        marked(marks.drop_last()) + if marks.last() {
            1nat
        } else {
            0nat
        }
    }
}

/// Setting a mark that was not set raises the number of set marks by one.
pub proof fn lemma_marked_update(marks: Seq<bool>, i: int)
    requires
        0 <= i < marks.len(),
        !marks[i],
    ensures
        marked(marks.update(i, true)) == marked(marks) + 1,
    decreases marks.len(),
{
    let after = marks.update(i, true);
    if i == marks.len() - 1 {
        assert(after.drop_last() =~= marks.drop_last());
    } else {
        lemma_marked_update(marks.drop_last(), i);
        assert(after.drop_last() =~= marks.drop_last().update(i, true));
    }
}

/// Among the first `count` enemies of a sweep, none that is left overlaps a
/// projectile that is left.
proof fn lemma_resolve_first_settles(overlaps: Seq<Seq<bool>>, sweep: Sweep, count: nat)
    requires
        count <= sweep.enemies.len(),
    ensures
        forall|i: int, j: int|
            0 <= i < count && 0 <= j < sweep.projectiles.len() && !resolve_first(
                overlaps,
                sweep,
                count,
            ).enemies[i] && !resolve_first(overlaps, sweep, count).projectiles[j]
                ==> !#[trigger] overlap_at(overlaps, i, j),
    decreases count,
{
    if count > 0 {
        let before = resolve_first(overlaps, sweep, (count - 1) as nat);
        let after = resolve_first(overlaps, sweep, count);
        lemma_resolve_first_settles(overlaps, sweep, (count - 1) as nat);
        lemma_resolve_first_grows(overlaps, sweep, (count - 1) as nat);
        lemma_first_hit_bounds(overlaps, count - 1, before.projectiles, 0);
        assert forall|i: int, j: int|
            0 <= i < count && 0 <= j < sweep.projectiles.len() && !after.enemies[i]
                && !after.projectiles[j] implies !#[trigger] overlap_at(overlaps, i, j) by {
            if i < count - 1 {
                assert(!before.enemies[i]);
                assert(!before.projectiles[j]);
            }
        }
    }
}

/// After a sweep, no enemy that is left overlaps a projectile that is left.
pub proof fn lemma_resolve_settles(overlaps: Seq<Seq<bool>>, enemies: Seq<bool>, projectiles: Seq<bool>)
    ensures
        settled(
            overlaps,
            resolve(overlaps, enemies, projectiles).enemies,
            resolve(overlaps, enemies, projectiles).projectiles,
        ),
{
    let start = Sweep { enemies, projectiles, kills: 0 };
    lemma_resolve_first_settles(overlaps, start, enemies.len());
    lemma_resolve_first_grows(overlaps, start, enemies.len());
}

/// Where no projectile from `from` on is left that overlaps the enemy,
/// `first_hit` finds none.
proof fn lemma_first_hit_none(overlaps: Seq<Seq<bool>>, i: int, projectiles: Seq<bool>, from: int)
    requires
        0 <= from,
        forall|j: int|
            from <= j < projectiles.len() && !projectiles[j] ==> !#[trigger] overlap_at(
                overlaps,
                i,
                j,
            ),
    ensures
        first_hit(overlaps, i, projectiles, from) == projectiles.len(),
    decreases projectiles.len() - from,
{
    if from < projectiles.len() {
        lemma_first_hit_none(overlaps, i, projectiles, from + 1);
    }
}

/// A sweep over enemies and projectiles of which none that are left overlap
/// changes nothing.
pub proof fn lemma_settled_is_fixed(overlaps: Seq<Seq<bool>>, sweep: Sweep, count: nat)
    requires
        settled(overlaps, sweep.enemies, sweep.projectiles),
    ensures
        resolve_first(overlaps, sweep, count) == sweep,
    decreases count,
{
    if count > 0 {
        lemma_settled_is_fixed(overlaps, sweep, (count - 1) as nat);
        let i: int = count - 1;
        if 0 <= i < sweep.enemies.len() && !sweep.enemies[i] {
            lemma_first_hit_none(overlaps, i, sweep.projectiles, 0);
        }
    }
}

/// A second sweep over the same overlaps destroys nothing more and counts
/// no kill: while an overlap lasts, it is scored once.
pub proof fn lemma_resolve_idempotent(overlaps: Seq<Seq<bool>>, enemies: Seq<bool>, projectiles: Seq<bool>)
    ensures
        resolve(
            overlaps,
            resolve(overlaps, enemies, projectiles).enemies,
            resolve(overlaps, enemies, projectiles).projectiles,
        ) == (Sweep {
            enemies: resolve(overlaps, enemies, projectiles).enemies,
            projectiles: resolve(overlaps, enemies, projectiles).projectiles,
            kills: 0,
        }),
{
    let first = resolve(overlaps, enemies, projectiles);
    lemma_resolve_settles(overlaps, enemies, projectiles);
    lemma_settled_is_fixed(
        overlaps,
        Sweep { enemies: first.enemies, projectiles: first.projectiles, kills: 0 },
        first.enemies.len(),
    );
}

/// Each kill of a sweep destroys one enemy and one projectile: the number of
/// destroyed enemies and that of destroyed projectiles both rise by the
/// kills counted.
pub proof fn lemma_resolve_first_counts(overlaps: Seq<Seq<bool>>, sweep: Sweep, count: nat)
    ensures
        marked(resolve_first(overlaps, sweep, count).enemies) + sweep.kills == marked(
            sweep.enemies,
        ) + resolve_first(overlaps, sweep, count).kills,
        marked(resolve_first(overlaps, sweep, count).projectiles) + sweep.kills == marked(
            sweep.projectiles,
        ) + resolve_first(overlaps, sweep, count).kills,
    decreases count,
{
    if count > 0 {
        let before = resolve_first(overlaps, sweep, (count - 1) as nat);
        lemma_resolve_first_counts(overlaps, sweep, (count - 1) as nat);
        lemma_first_hit_bounds(overlaps, count - 1, before.projectiles, 0);
        let i: int = count - 1;
        let j = first_hit(overlaps, i, before.projectiles, 0);
        if 0 <= i < before.enemies.len() && !before.enemies[i] && j < before.projectiles.len() {
            lemma_marked_update(before.enemies, i);
            lemma_marked_update(before.projectiles, j);
        }
    }
}

/// The kills of a whole sweep are the enemies that it destroyed, and as many
/// projectiles.
pub proof fn lemma_resolve_counts(overlaps: Seq<Seq<bool>>, enemies: Seq<bool>, projectiles: Seq<bool>)
    ensures
        marked(resolve(overlaps, enemies, projectiles).enemies) == marked(enemies) + resolve(
            overlaps,
            enemies,
            projectiles,
        ).kills,
        marked(resolve(overlaps, enemies, projectiles).projectiles) == marked(projectiles)
            + resolve(overlaps, enemies, projectiles).kills,
{
    lemma_resolve_first_counts(
        overlaps,
        Sweep { enemies, projectiles, kills: 0 },
        enemies.len(),
    );
}

/// Nothing is destroyed without an overlap: among the first `count`
/// enemies, each that the sweep destroyed overlaps a projectile that the
/// sweep destroyed, and each projectile that the sweep destroyed overlaps
/// an enemy that the sweep destroyed.
pub proof fn lemma_resolve_first_needs_overlap(overlaps: Seq<Seq<bool>>, sweep: Sweep, count: nat)
    ensures
        forall|i: int|
            0 <= i < sweep.enemies.len() && !sweep.enemies[i] && #[trigger] resolve_first(
                overlaps,
                sweep,
                count,
            ).enemies[i] ==> exists|j: int|
                0 <= j < sweep.projectiles.len() && !sweep.projectiles[j] && resolve_first(
                    overlaps,
                    sweep,
                    count,
                ).projectiles[j] && #[trigger] overlap_at(overlaps, i, j),
        forall|j: int|
            0 <= j < sweep.projectiles.len() && !sweep.projectiles[j] && #[trigger] resolve_first(
                overlaps,
                sweep,
                count,
            ).projectiles[j] ==> exists|i: int|
                0 <= i < sweep.enemies.len() && !sweep.enemies[i] && resolve_first(
                    overlaps,
                    sweep,
                    count,
                ).enemies[i] && #[trigger] overlap_at(overlaps, i, j),
    decreases count,
{
    if count > 0 {
        let before = resolve_first(overlaps, sweep, (count - 1) as nat);
        let after = resolve_first(overlaps, sweep, count);
        let k: int = count - 1;
        let hit = first_hit(overlaps, k, before.projectiles, 0);
        lemma_resolve_first_needs_overlap(overlaps, sweep, (count - 1) as nat);
        lemma_resolve_first_grows(overlaps, sweep, (count - 1) as nat);
        lemma_first_hit_bounds(overlaps, k, before.projectiles, 0);
        assert forall|i: int|
            0 <= i < sweep.enemies.len() && !sweep.enemies[i] && #[trigger] after.enemies[i]
            implies exists|j: int|
            0 <= j < sweep.projectiles.len() && !sweep.projectiles[j] && after.projectiles[j]
                && #[trigger] overlap_at(overlaps, i, j) by {
            if before.enemies[i] {
                let j = choose|j: int|
                    0 <= j < sweep.projectiles.len() && !sweep.projectiles[j]
                        && before.projectiles[j] && #[trigger] overlap_at(overlaps, i, j);
                assert(after.projectiles[j]);
            } else {
                assert(i == k);
                assert(after.projectiles[hit]);
                assert(overlap_at(overlaps, i, hit));
            }
        }
        assert forall|j: int|
            0 <= j < sweep.projectiles.len() && !sweep.projectiles[j]
                && #[trigger] after.projectiles[j] implies exists|i: int|
            0 <= i < sweep.enemies.len() && !sweep.enemies[i] && after.enemies[i]
                && #[trigger] overlap_at(overlaps, i, j) by {
            if before.projectiles[j] {
                let i = choose|i: int|
                    0 <= i < sweep.enemies.len() && !sweep.enemies[i] && before.enemies[i]
                        && #[trigger] overlap_at(overlaps, i, j);
                assert(after.enemies[i]);
            } else {
                assert(j == hit);
                assert(after.enemies[k]);
                assert(overlap_at(overlaps, k, j));
            }
        }
    }
}

/// Where only projectile `p` is left and it overlaps enemy `e`, the first
/// hit of `e` is `p`.
proof fn lemma_first_hit_single(overlaps: Seq<Seq<bool>>, e: int, projectiles: Seq<bool>, p: int)
    requires
        0 <= p < projectiles.len(),
        !projectiles[p],
        forall|j: int| 0 <= j < projectiles.len() && j != p ==> projectiles[j],
        overlap_at(overlaps, e, p),
    ensures
        first_hit(overlaps, e, projectiles, 0) == p,
{
    lemma_first_hit_bounds(overlaps, e, projectiles, 0);
}

/// The sweep over one enemy `e` and one projectile `p` that are left and
/// overlap, after the first `count` enemies had their turns: nothing has
/// changed before the turn of `e`, and from then on both are destroyed and
/// one kill is counted.
proof fn lemma_resolve_first_single(
    overlaps: Seq<Seq<bool>>,
    sweep: Sweep,
    e: int,
    p: int,
    count: nat,
)
    requires
        0 <= e < sweep.enemies.len(),
        0 <= p < sweep.projectiles.len(),
        !sweep.enemies[e],
        !sweep.projectiles[p],
        forall|i: int| 0 <= i < sweep.enemies.len() && i != e ==> sweep.enemies[i],
        forall|j: int| 0 <= j < sweep.projectiles.len() && j != p ==> sweep.projectiles[j],
        overlap_at(overlaps, e, p),
    ensures
        count <= e ==> resolve_first(overlaps, sweep, count) == sweep,
        count > e ==> resolve_first(overlaps, sweep, count) == (Sweep {
            enemies: sweep.enemies.update(e, true),
            projectiles: sweep.projectiles.update(p, true),
            kills: sweep.kills + 1,
        }),
    decreases count,
{
    if count > 0 {
        lemma_resolve_first_single(overlaps, sweep, e, p, (count - 1) as nat);
        if count - 1 == e {
            lemma_first_hit_single(overlaps, e, sweep.projectiles, p);
        }
    }
}

/// One enemy and one projectile that are left and overlap are both
/// destroyed by a sweep, and one kill is counted, wherever the two stand
/// among enemies and projectiles that are destroyed already.
pub proof fn lemma_single_hit(
    overlaps: Seq<Seq<bool>>,
    enemies: Seq<bool>,
    projectiles: Seq<bool>,
    e: int,
    p: int,
)
    requires
        0 <= e < enemies.len(),
        0 <= p < projectiles.len(),
        !enemies[e],
        !projectiles[p],
        forall|i: int| 0 <= i < enemies.len() && i != e ==> enemies[i],
        forall|j: int| 0 <= j < projectiles.len() && j != p ==> projectiles[j],
        overlap_at(overlaps, e, p),
    ensures
        resolve(overlaps, enemies, projectiles).enemies == enemies.update(e, true),
        resolve(overlaps, enemies, projectiles).projectiles == projectiles.update(p, true),
        resolve(overlaps, enemies, projectiles).kills == 1,
        resolve(overlaps, enemies, projectiles).enemies[e],
        resolve(overlaps, enemies, projectiles).projectiles[p],
{
    lemma_resolve_first_single(
        overlaps,
        Sweep { enemies, projectiles, kills: 0 },
        e,
        p,
        enemies.len(),
    );
}

/// Whether enemy `enemy` and projectile `projectile` overlap.
fn overlapping(overlaps: &Vec<Vec<bool>>, enemy: usize, projectile: usize) -> (hit: bool)
    ensures
        hit == overlap_at(rows(overlaps@), enemy as int, projectile as int),
{
    if enemy < overlaps.len() {
        let row: &Vec<bool> = &overlaps[enemy];
        if projectile < row.len() {
            row[projectile]
        } else {
            false
        }
    } else {
        false
    }
}

/// The first projectile that is not destroyed and overlaps enemy `enemy`;
/// the number of projectiles if there is none.
fn find_first_hit(overlaps: &Vec<Vec<bool>>, enemy: usize, projectiles: &Vec<Projectile>) -> (found: usize)
    ensures
        found == first_hit(rows(overlaps@), enemy as int, projectile_marks(projectiles@), 0),
        found <= projectiles@.len(),
{
    let count: usize = projectiles.len();
    let ghost marks = projectile_marks(projectiles@);
    let mut index: usize = 0;
    while index < count
        invariant
            index <= count,
            count == projectiles@.len(),
            marks == projectile_marks(projectiles@),
            first_hit(rows(overlaps@), enemy as int, marks, 0) == first_hit(
                rows(overlaps@),
                enemy as int,
                marks,
                index as int,
            ),
        decreases count - index,
    {
        if !projectiles[index].destroyed && overlapping(overlaps, enemy, index) {
            return index;
        }
        index = index + 1;
    }
    count
}

/// Sweeps over the enemies in order. An enemy that is not destroyed and is
/// overlapped by a projectile that is not destroyed is destroyed together
/// with the first such projectile, and the score rises by one. What is
/// destroyed takes no further part, so no enemy and no projectile is counted
/// twice. Positions and headings stay.
pub fn resolve_projectile_hits(
    enemies: &mut Vec<Enemy>,
    projectiles: &mut Vec<Projectile>,
    overlaps: &Vec<Vec<bool>>,
    score: &mut Score,
)
    requires
        old(score)@ + resolve(
            rows(overlaps@),
            enemy_marks(old(enemies)@),
            projectile_marks(old(projectiles)@),
        ).kills <= u32::MAX,
    ensures
        final(enemies)@.len() == old(enemies)@.len(),
        final(projectiles)@.len() == old(projectiles)@.len(),
        enemy_marks(final(enemies)@) == resolve(
            rows(overlaps@),
            enemy_marks(old(enemies)@),
            projectile_marks(old(projectiles)@),
        ).enemies,
        projectile_marks(final(projectiles)@) == resolve(
            rows(overlaps@),
            enemy_marks(old(enemies)@),
            projectile_marks(old(projectiles)@),
        ).projectiles,
        final(score)@ == old(score)@ + resolve(
            rows(overlaps@),
            enemy_marks(old(enemies)@),
            projectile_marks(old(projectiles)@),
        ).kills,
        forall|i: int|
            0 <= i < old(enemies)@.len() ==> (#[trigger] final(enemies)@[i]).position == old(
                enemies,
            )@[i].position,
        forall|j: int|
            0 <= j < old(projectiles)@.len() ==> {
                &&& (#[trigger] final(projectiles)@[j]).position == old(projectiles)@[j].position
                &&& final(projectiles)@[j].heading == old(projectiles)@[j].heading
            },
{
    let count: usize = enemies.len();
    let ghost start = Sweep {
        enemies: enemy_marks(enemies@),
        projectiles: projectile_marks(projectiles@),
        kills: 0,
    };
    let mut index: usize = 0;
    while index < count
        invariant
            index <= count,
            count == old(enemies)@.len(),
            enemies@.len() == count,
            projectiles@.len() == old(projectiles)@.len(),
            start == (Sweep {
                enemies: enemy_marks(old(enemies)@),
                projectiles: projectile_marks(old(projectiles)@),
                kills: 0,
            }),
            enemy_marks(enemies@) == resolve_first(rows(overlaps@), start, index as nat).enemies,
            projectile_marks(projectiles@) == resolve_first(
                rows(overlaps@),
                start,
                index as nat,
            ).projectiles,
            score@ == old(score)@ + resolve_first(rows(overlaps@), start, index as nat).kills,
            old(score)@ + resolve_first(rows(overlaps@), start, count as nat).kills <= u32::MAX,
            forall|i: int|
                0 <= i < count ==> (#[trigger] enemies@[i]).position == old(enemies)@[i].position,
            forall|j: int|
                0 <= j < projectiles@.len() ==> {
                    &&& (#[trigger] projectiles@[j]).position == old(projectiles)@[j].position
                    &&& projectiles@[j].heading == old(projectiles)@[j].heading
                },
        decreases count - index,
    {
        proof {
            lemma_kills_monotone(rows(overlaps@), start, (index + 1) as nat, count as nat);
        }
        let enemy: Enemy = enemies[index];
        assert(enemy_marks(enemies@)[index as int] == enemy.destroyed);
        if !enemy.destroyed {
            let found: usize = find_first_hit(overlaps, index, projectiles);
            if found < projectiles.len() {
                let projectile: Projectile = projectiles[found];
                let ghost enemies_before = enemies@;
                let ghost projectiles_before = projectiles@;
                enemies.set(index, Enemy { position: enemy.position, destroyed: true });
                projectiles.set(
                    found,
                    Projectile {
                        position: projectile.position,
                        heading: projectile.heading,
                        destroyed: true,
                    },
                );
                score.inc();
                assert(enemy_marks(enemies@) =~= enemy_marks(enemies_before).update(
                    index as int,
                    true,
                ));
                assert(projectile_marks(projectiles@) =~= projectile_marks(
                    projectiles_before,
                ).update(found as int, true));
            }
        }
        index = index + 1;
    }
}

/// What the physics engine answers when asked for the intersection pair of
/// the colliders of two entities: `None` where it holds no such pair, else
/// the pair's flag. The entities are given by their bits. The answer is a
/// matter of the engine's state and the two entities alone.
pub uninterp spec fn engine_answer(context: RapierContext, first: u64, second: u64) -> Option<bool>;

/// Asks the physics engine for the intersection pair of two colliders with
/// `RapierContext::intersection_pair`. `first` and `second` are the bits of
/// the colliders' entities, as `Entity::to_bits` gives them, and
/// `Entity::from_bits` turns them back. The result is the engine's answer,
/// of which nothing more is claimed.
#[verifier::external_body]
fn intersection_pair(context: &RapierContext, first: u64, second: u64) -> (answer: Option<bool>)
    ensures
        answer == engine_answer(*context, first, second),
{
    context.intersection_pair(Entity::from_bits(first), Entity::from_bits(second))
}

/// An answer of the engine that counts as an overlap: the engine holds an
/// intersection pair of the two colliders.
pub open spec fn pair_exists(answer: Option<bool>) -> bool {
    answer is Some
}

/// For each of `others`, whether the engine holds an intersection pair of it
/// and `entity`.
pub open spec fn engine_row(context: RapierContext, entity: u64, others: Seq<u64>) -> Seq<bool> {
    Seq::new(others.len(), |j: int| pair_exists(engine_answer(context, entity, others[j])))
}

/// For each of `firsts` a row, and in it for each of `seconds` whether the
/// engine holds an intersection pair of the two.
pub open spec fn engine_rows(context: RapierContext, firsts: Seq<u64>, seconds: Seq<u64>) -> Seq<
    Seq<bool>,
> {
    Seq::new(firsts.len(), |i: int| engine_row(context, firsts[i], seconds))
}

/// In the engine's table, two colliders overlap where the engine holds an
/// intersection pair of them; outside the table nothing overlaps.
pub proof fn lemma_engine_rows_overlap(
    context: RapierContext,
    firsts: Seq<u64>,
    seconds: Seq<u64>,
    i: int,
    j: int,
)
    ensures
        overlap_at(engine_rows(context, firsts, seconds), i, j) == (0 <= i < firsts.len() && 0
            <= j < seconds.len() && pair_exists(engine_answer(context, firsts[i], seconds[j]))),
{
}

/// Whether an answer of the engine counts as an overlap.
pub fn counts_as_overlap(answer: Option<bool>) -> (hit: bool)
    ensures
        hit == pair_exists(answer),
{
    answer.is_some()
}

/// Asks the engine, for one collider, which of `others` it overlaps: an
/// answer for each of `others`, in their order.
pub fn query_row(context: &RapierContext, entity: u64, others: &Vec<u64>) -> (row: Vec<bool>)
    ensures
        row@ == engine_row(*context, entity, others@),
        row@.len() == others@.len(),
        forall|j: int|
            0 <= j < others@.len() ==> #[trigger] row@[j] == pair_exists(
                engine_answer(*context, entity, others@[j]),
            ),
{
    let count: usize = others.len();
    let mut row: Vec<bool> = Vec::new();
    let mut index: usize = 0;
    while index < count
        invariant
            index <= count,
            count == others@.len(),
            row@.len() == index,
            forall|j: int|
                0 <= j < index ==> #[trigger] row@[j] == pair_exists(
                    engine_answer(*context, entity, others@[j]),
                ),
        decreases count - index,
    {
        let answer: Option<bool> = intersection_pair(context, entity, others[index]);
        row.push(counts_as_overlap(answer));
        index = index + 1;
    }
    assert(row@ =~= engine_row(*context, entity, others@));
    row
}

/// Asks the engine, for each collider of `firsts`, which of `seconds` it
/// overlaps: a row for each of `firsts`, and in it an answer for each of
/// `seconds`.
pub fn query_overlaps(context: &RapierContext, firsts: &Vec<u64>, seconds: &Vec<u64>) -> (overlaps: Vec<Vec<bool>>)
    ensures
        rows(overlaps@) == engine_rows(*context, firsts@, seconds@),
        overlaps@.len() == firsts@.len(),
        forall|i: int| 0 <= i < overlaps@.len() ==> (#[trigger] overlaps@[i])@.len() == seconds@.len(),
        forall|i: int, j: int|
            0 <= i < firsts@.len() && 0 <= j < seconds@.len() ==> #[trigger] overlap_at(
                rows(overlaps@),
                i,
                j,
            ) == pair_exists(engine_answer(*context, firsts@[i], seconds@[j])),
{
    let count: usize = firsts.len();
    let mut overlaps: Vec<Vec<bool>> = Vec::new();
    let mut index: usize = 0;
    while index < count
        invariant
            index <= count,
            count == firsts@.len(),
            overlaps@.len() == index,
            forall|i: int|
                0 <= i < index ==> (#[trigger] overlaps@[i])@ == engine_row(
                    *context,
                    firsts@[i],
                    seconds@,
                ),
        decreases count - index,
    {
        let row: Vec<bool> = query_row(context, firsts[index], seconds);
        overlaps.push(row);
        index = index + 1;
    }
    assert(rows(overlaps@) =~= engine_rows(*context, firsts@, seconds@));
    overlaps
}

/// Asks the engine which enemies and projectiles overlap, and sweeps over
/// them as `resolve_projectile_hits` does, on the engine's answers.
/// `enemy_entities` and `projectile_entities` hold the entity of each enemy
/// and projectile, in the order of `enemies` and `projectiles`; one without
/// an entity overlaps nothing. Whatever the engine answers, nothing that was
/// destroyed comes back, and the score rises by no more than the number of
/// enemies.
pub fn check_projectile_enemy_collision(
    context: &RapierContext,
    enemy_entities: &Vec<u64>,
    projectile_entities: &Vec<u64>,
    enemies: &mut Vec<Enemy>,
    projectiles: &mut Vec<Projectile>,
    score: &mut Score,
)
    requires
        old(score)@ + old(enemies)@.len() <= u32::MAX,
    ensures
        final(enemies)@.len() == old(enemies)@.len(),
        final(projectiles)@.len() == old(projectiles)@.len(),
        enemy_marks(final(enemies)@) == resolve(
            engine_rows(*context, enemy_entities@, projectile_entities@),
            enemy_marks(old(enemies)@),
            projectile_marks(old(projectiles)@),
        ).enemies,
        projectile_marks(final(projectiles)@) == resolve(
            engine_rows(*context, enemy_entities@, projectile_entities@),
            enemy_marks(old(enemies)@),
            projectile_marks(old(projectiles)@),
        ).projectiles,
        final(score)@ == old(score)@ + resolve(
            engine_rows(*context, enemy_entities@, projectile_entities@),
            enemy_marks(old(enemies)@),
            projectile_marks(old(projectiles)@),
        ).kills,
        old(score)@ <= final(score)@ <= old(score)@ + old(enemies)@.len(),
        forall|i: int|
            0 <= i < old(enemies)@.len() ==> {
                &&& (#[trigger] final(enemies)@[i]).position == old(enemies)@[i].position
                &&& old(enemies)@[i].destroyed ==> final(enemies)@[i].destroyed
            },
        forall|j: int|
            0 <= j < old(projectiles)@.len() ==> {
                &&& (#[trigger] final(projectiles)@[j]).position == old(projectiles)@[j].position
                &&& final(projectiles)@[j].heading == old(projectiles)@[j].heading
                &&& old(projectiles)@[j].destroyed ==> final(projectiles)@[j].destroyed
            },
{
    let overlaps: Vec<Vec<bool>> = query_overlaps(context, enemy_entities, projectile_entities);
    let ghost start = Sweep {
        enemies: enemy_marks(enemies@),
        projectiles: projectile_marks(projectiles@),
        kills: 0,
    };
    proof {
        lemma_resolve_first_grows(rows(overlaps@), start, enemies@.len());
    }
    resolve_projectile_hits(enemies, projectiles, &overlaps, score);
    proof {
        let after = resolve_first(rows(overlaps@), start, old(enemies)@.len());
        assert forall|i: int| 0 <= i < old(enemies)@.len() && old(
            enemies,
        )@[i].destroyed implies (#[trigger] enemies@[i]).destroyed by {
            assert(start.enemies[i]);
            assert(after.enemies[i]);
            assert(enemy_marks(enemies@)[i] == enemies@[i].destroyed);
        }
        assert forall|j: int| 0 <= j < old(projectiles)@.len() && old(
            projectiles,
        )@[j].destroyed implies (#[trigger] projectiles@[j]).destroyed by {
            assert(start.projectiles[j]);
            assert(after.projectiles[j]);
            assert(projectile_marks(projectiles@)[j] == projectiles@[j].destroyed);
        }
    }
}

/// An enemy that is not destroyed touches the player. `touching` holds an
/// answer for each enemy; where an answer is missing the enemy does not
/// touch.
pub open spec fn player_caught(enemies: Seq<Enemy>, touching: Seq<bool>) -> bool {
    exists|i: int|
        0 <= i < enemies.len() && i < touching.len() && !(#[trigger] enemies[i]).destroyed
            && touching[i]
}

/// The status after a check in which the player was, or was not, caught.
/// A lost game stays lost.
pub open spec fn status_after(status: GameStatus, caught: bool) -> GameStatus {
    if caught {
        GameStatus::Lost
    } else {
        status
    }
}

/// Whether a check gives the signal to end the game: it does when the
/// player is caught while the game runs, and never once the game is lost.
pub open spec fn lose_signal(status: GameStatus, caught: bool) -> bool {
    status == GameStatus::Running && caught
}

/// Ends the game where an enemy that is not destroyed touches the player.
/// The result is the signal to end the game: it is given once, by the check
/// that finds the player caught while the game runs.
pub fn resolve_lose_condition(status: &mut GameStatus, enemies: &Vec<Enemy>, touching: &Vec<bool>) -> (signal: bool)
    ensures
        signal == lose_signal(*old(status), player_caught(enemies@, touching@)),
        *final(status) == status_after(*old(status), player_caught(enemies@, touching@)),
{
    let count: usize = if enemies.len() < touching.len() {
        enemies.len()
    } else {
        touching.len()
    };
    let mut caught: bool = false;
    let mut index: usize = 0;
    while index < count
        invariant
            index <= count,
            count <= enemies@.len(),
            count <= touching@.len(),
            caught ==> player_caught(enemies@, touching@),
            !caught ==> forall|i: int|
                0 <= i < index ==> (#[trigger] enemies@[i]).destroyed || !touching@[i],
        decreases count - index,
    {
        if !enemies[index].destroyed && touching[index] {
            caught = true;
        }
        index = index + 1;
    }
    let running: bool = match status {
        GameStatus::Running => true,
        GameStatus::Lost => false,
    };
    if caught {
        *status = GameStatus::Lost;
    }
    running && caught
}

/// Asks the engine which enemies touch the player, and ends the game where
/// one that is not destroyed does, as `resolve_lose_condition` does on the
/// engine's answers. `enemy_entities` holds the entity of each enemy, in the
/// order of `enemies`. Whatever the engine answers, a lost game stays lost
/// and gives no signal.
pub fn check_lose_condition(
    context: &RapierContext,
    player_entity: u64,
    enemy_entities: &Vec<u64>,
    enemies: &Vec<Enemy>,
    status: &mut GameStatus,
) -> (signal: bool)
    ensures
        signal == lose_signal(
            *old(status),
            player_caught(enemies@, engine_row(*context, player_entity, enemy_entities@)),
        ),
        *final(status) == status_after(
            *old(status),
            player_caught(enemies@, engine_row(*context, player_entity, enemy_entities@)),
        ),
        signal ==> *old(status) == GameStatus::Running && *final(status) == GameStatus::Lost,
        *old(status) == GameStatus::Lost ==> !signal && *final(status) == GameStatus::Lost,
{
    let touching: Vec<bool> = query_row(context, player_entity, enemy_entities);
    resolve_lose_condition(status, enemies, &touching)
}

/// The signal to end the game is given at most once: after a check that
/// gave it, and after any check of a lost game, the game is lost and a
/// further check gives no signal, whatever it finds.
pub proof fn lemma_lose_signal_once(status: GameStatus, caught: bool, caught_again: bool)
    ensures
        lose_signal(status, caught) ==> status_after(status, caught) == GameStatus::Lost,
        status == GameStatus::Lost ==> status_after(status, caught) == GameStatus::Lost,
        status_after(status, caught) == GameStatus::Lost ==> !lose_signal(
            status_after(status, caught),
            caught_again,
        ),
        status_after(status, caught) == GameStatus::Lost ==> status_after(
            status_after(status, caught),
            caught_again,
        ) == GameStatus::Lost,
{
}

} // verus!
