use arena_game::collision::check_lose_condition;
use arena_game::collision::check_projectile_enemy_collision;
use arena_game::collision::counts_as_overlap;
use arena_game::collision::query_overlaps;
use arena_game::collision::query_row;
use arena_game::collision::resolve_lose_condition;
use arena_game::collision::resolve_projectile_hits;
use arena_game::collision::GameStatus;
use arena_game::enemy::Enemy;
use arena_game::geometry::Offset;
use arena_game::geometry::Point;
use arena_game::geometry::UNIT;
use arena_game::player::Projectile;
use arena_game::ui::Score;
use bevy::app::App;
use bevy::ecs::entity::Entity;
use bevy::transform::components::Transform;
use bevy::transform::TransformBundle;
use bevy::transform::TransformPlugin;
use bevy::MinimalPlugins;
use bevy_rapier2d::geometry::ActiveCollisionTypes;
use bevy_rapier2d::geometry::Collider;
use bevy_rapier2d::geometry::Sensor;
use bevy_rapier2d::plugin::NoUserData;
use bevy_rapier2d::plugin::RapierConfiguration;
use bevy_rapier2d::plugin::RapierContext;
use bevy_rapier2d::plugin::RapierPhysicsPlugin;
use bevy_rapier2d::plugin::TimestepMode;

fn enemy(x: i64, y: i64) -> Enemy {
    Enemy::at(x * UNIT, y * UNIT)
}

fn shot(x: i64, y: i64) -> Projectile {
    Projectile { position: Point::new(x * UNIT, y * UNIT), heading: Offset::new(1, 2), destroyed: false }
}

fn enemy_marks(enemies: &Vec<Enemy>) -> Vec<bool> {
    enemies.iter().map(|e| e.destroyed).collect()
}

fn shot_marks(projectiles: &Vec<Projectile>) -> Vec<bool> {
    projectiles.iter().map(|p| p.destroyed).collect()
}

/// A running physics world with two overlapping sensors and one far away.
fn world_with_sensors() -> (App, Entity, Entity, Entity) {
    let mut app = App::new();
    app.add_plugins(MinimalPlugins);
    app.add_plugins(TransformPlugin);
    app.insert_resource(RapierConfiguration {
        timestep_mode: TimestepMode::Fixed { dt: 1.0 / 60.0, substeps: 1 },
        ..Default::default()
    });
    app.add_plugins(RapierPhysicsPlugin::<NoUserData>::default());
    let first = app
        .world
        .spawn((
            TransformBundle::from(Transform::from_xyz(0.0, 0.0, 0.0)),
            Collider::cuboid(6.0, 8.0),
            Sensor,
            ActiveCollisionTypes::all(),
        ))
        .id();
    let second = app
        .world
        .spawn((
            TransformBundle::from(Transform::from_xyz(3.0, 3.0, 0.0)),
            Collider::ball(8.0),
            Sensor,
            ActiveCollisionTypes::all(),
        ))
        .id();
    let far = app
        .world
        .spawn((
            TransformBundle::from(Transform::from_xyz(500.0, 500.0, 0.0)),
            Collider::ball(8.0),
            Sensor,
            ActiveCollisionTypes::all(),
        ))
        .id();
    app.update();
    app.update();
    app.update();
    (app, first, second, far)
}

#[test]
fn one_hit_destroys_both_and_scores_one() {
    let mut enemies = vec![enemy(0, 0)];
    let mut projectiles = vec![shot(1, 1)];
    let mut score = Score::default();
    let overlaps = vec![vec![true]];
    resolve_projectile_hits(&mut enemies, &mut projectiles, &overlaps, &mut score);
    assert!(enemies[0].destroyed);
    assert!(projectiles[0].destroyed);
    assert_eq!(score.count(), 1);
    assert_eq!(enemies[0].position, Point::new(0, 0));
    assert_eq!(projectiles[0].position, Point::new(UNIT, UNIT));
    assert_eq!(projectiles[0].heading, Offset::new(1, 2));
}

#[test]
fn lasting_overlap_scores_once() {
    let mut enemies = vec![enemy(0, 0)];
    let mut projectiles = vec![shot(1, 1)];
    let mut score = Score::default();
    let overlaps = vec![vec![true]];
    for _ in 0..5 {
        resolve_projectile_hits(&mut enemies, &mut projectiles, &overlaps, &mut score);
        assert!(enemies[0].destroyed);
        assert!(projectiles[0].destroyed);
        assert_eq!(score.count(), 1);
    }
}

#[test]
fn second_sweep_over_the_same_overlaps_changes_nothing() {
    let mut enemies = vec![enemy(0, 0), enemy(1, 0), enemy(2, 0), enemy(3, 0)];
    let mut projectiles = vec![shot(0, 0), shot(1, 0), shot(2, 0)];
    let mut score = Score::default();
    let overlaps = vec![
        vec![false, true, true],
        vec![false, true, false],
        vec![true, true, true],
        vec![true, false, true],
    ];
    resolve_projectile_hits(&mut enemies, &mut projectiles, &overlaps, &mut score);
    let enemies_after = enemy_marks(&enemies);
    let projectiles_after = shot_marks(&projectiles);
    let score_after = score.count();
    resolve_projectile_hits(&mut enemies, &mut projectiles, &overlaps, &mut score);
    assert_eq!(enemy_marks(&enemies), enemies_after);
    assert_eq!(shot_marks(&projectiles), projectiles_after);
    assert_eq!(score.count(), score_after);
}

#[test]
fn sweep_takes_the_first_free_projectile_for_each_enemy() {
    let mut enemies = vec![enemy(0, 0), enemy(1, 0), enemy(2, 0), enemy(3, 0)];
    let mut projectiles = vec![shot(0, 0), shot(1, 0), shot(2, 0)];
    let mut score = Score::default();
    let overlaps = vec![
        vec![false, true, true],
        vec![false, true, false],
        vec![true, true, true],
        vec![true, false, true],
    ];
    resolve_projectile_hits(&mut enemies, &mut projectiles, &overlaps, &mut score);
    assert_eq!(enemy_marks(&enemies), vec![true, false, true, true]);
    assert_eq!(shot_marks(&projectiles), vec![true, true, true]);
    assert_eq!(score.count(), 3);
}

#[test]
fn two_projectiles_on_one_enemy_score_once() {
    let mut enemies = vec![enemy(0, 0)];
    let mut projectiles = vec![shot(1, 0), shot(0, 1)];
    let mut score = Score::default();
    let overlaps = vec![vec![true, true]];
    resolve_projectile_hits(&mut enemies, &mut projectiles, &overlaps, &mut score);
    assert!(enemies[0].destroyed);
    assert_eq!(shot_marks(&projectiles), vec![true, false]);
    assert_eq!(score.count(), 1);
}

#[test]
fn one_projectile_on_two_enemies_scores_once() {
    let mut enemies = vec![enemy(0, 0), enemy(0, 1)];
    let mut projectiles = vec![shot(0, 0)];
    let mut score = Score::default();
    let overlaps = vec![vec![true], vec![true]];
    resolve_projectile_hits(&mut enemies, &mut projectiles, &overlaps, &mut score);
    assert_eq!(enemy_marks(&enemies), vec![true, false]);
    assert!(projectiles[0].destroyed);
    assert_eq!(score.count(), 1);
}

#[test]
fn separate_hits_are_each_scored() {
    let mut enemies = vec![enemy(0, 0), enemy(5, 5), enemy(9, 9)];
    let mut projectiles = vec![shot(9, 9), shot(0, 0), shot(7, 7)];
    let mut score = Score::default();
    score.inc();
    score.inc();
    let overlaps = vec![
        vec![false, true, false],
        vec![false, false, false],
        vec![true, false, false],
    ];
    resolve_projectile_hits(&mut enemies, &mut projectiles, &overlaps, &mut score);
    assert_eq!(enemy_marks(&enemies), vec![true, false, true]);
    assert_eq!(shot_marks(&projectiles), vec![true, true, false]);
    assert_eq!(score.count(), 4);
}

#[test]
fn no_overlap_destroys_nothing() {
    let mut enemies = vec![enemy(0, 0), enemy(1, 1)];
    let mut projectiles = vec![shot(5, 5)];
    let mut score = Score::default();
    let overlaps = vec![vec![false], vec![false]];
    resolve_projectile_hits(&mut enemies, &mut projectiles, &overlaps, &mut score);
    assert_eq!(enemy_marks(&enemies), vec![false, false]);
    assert_eq!(shot_marks(&projectiles), vec![false]);
    assert_eq!(score.count(), 0);
}

#[test]
fn missing_answers_are_no_overlaps() {
    let mut enemies = vec![enemy(0, 0), enemy(1, 1), enemy(2, 2)];
    let mut projectiles = vec![shot(0, 0), shot(1, 1)];
    let mut score = Score::default();
    let overlaps = vec![vec![false], vec![false, true, true]];
    resolve_projectile_hits(&mut enemies, &mut projectiles, &overlaps, &mut score);
    assert_eq!(enemy_marks(&enemies), vec![false, true, false]);
    assert_eq!(shot_marks(&projectiles), vec![false, true]);
    assert_eq!(score.count(), 1);

    let mut more = vec![enemy(0, 0)];
    let mut shots = vec![shot(0, 0)];
    let none: Vec<Vec<bool>> = Vec::new();
    resolve_projectile_hits(&mut more, &mut shots, &none, &mut score);
    assert!(!more[0].destroyed);
    assert!(!shots[0].destroyed);
    assert_eq!(score.count(), 1);
}

#[test]
fn destroyed_entities_take_no_part() {
    let mut gone_enemy = enemy(0, 0);
    gone_enemy.destroyed = true;
    let mut gone_shot = shot(0, 0);
    gone_shot.destroyed = true;
    let mut enemies = vec![gone_enemy, enemy(1, 1)];
    let mut projectiles = vec![gone_shot, shot(1, 1)];
    let mut score = Score::default();
    let overlaps = vec![vec![true, true], vec![true, false]];
    resolve_projectile_hits(&mut enemies, &mut projectiles, &overlaps, &mut score);
    assert_eq!(enemy_marks(&enemies), vec![true, false]);
    assert_eq!(shot_marks(&projectiles), vec![true, false]);
    assert_eq!(score.count(), 0);
}

#[test]
fn kills_are_the_enemies_and_the_projectiles_destroyed() {
    let mut enemies = vec![enemy(0, 0), enemy(1, 0), enemy(2, 0), enemy(3, 0), enemy(4, 0)];
    let mut projectiles = vec![shot(0, 0), shot(1, 0), shot(2, 0), shot(3, 0)];
    let mut score = Score::default();
    let overlaps = vec![
        vec![true, true, true, true],
        vec![true, false, false, false],
        vec![false, false, true, true],
        vec![false, false, true, false],
        vec![true, true, true, true],
    ];
    resolve_projectile_hits(&mut enemies, &mut projectiles, &overlaps, &mut score);
    let enemies_gone = enemy_marks(&enemies).iter().filter(|m| **m).count();
    let projectiles_gone = shot_marks(&projectiles).iter().filter(|m| **m).count();
    assert_eq!(enemies_gone, 3);
    assert_eq!(projectiles_gone, 3);
    assert_eq!(score.count(), 3);
    assert_eq!(enemy_marks(&enemies), vec![true, false, true, false, true]);
    assert_eq!(shot_marks(&projectiles), vec![true, true, true, false]);
}

#[test]
fn an_intersection_pair_counts_as_overlap_whatever_its_flag() {
    assert!(counts_as_overlap(Some(true)));
    assert!(counts_as_overlap(Some(false)));
    assert!(!counts_as_overlap(None));
}

#[test]
fn caught_player_ends_the_game_once() {
    let enemies = vec![enemy(0, 0), enemy(5, 5)];
    let mut status = GameStatus::Running;
    let signal = resolve_lose_condition(&mut status, &enemies, &vec![false, true]);
    assert!(signal);
    assert_eq!(status, GameStatus::Lost);
    let again = resolve_lose_condition(&mut status, &enemies, &vec![false, true]);
    assert!(!again);
    assert_eq!(status, GameStatus::Lost);
    let later = resolve_lose_condition(&mut status, &enemies, &vec![false, false]);
    assert!(!later);
    assert_eq!(status, GameStatus::Lost);
}

#[test]
fn free_player_keeps_the_game_running() {
    let enemies = vec![enemy(0, 0), enemy(5, 5)];
    let mut status = GameStatus::Running;
    assert!(!resolve_lose_condition(&mut status, &enemies, &vec![false, false]));
    assert_eq!(status, GameStatus::Running);
    assert!(!resolve_lose_condition(&mut status, &Vec::new(), &Vec::new()));
    assert_eq!(status, GameStatus::Running);
}

#[test]
fn destroyed_enemy_does_not_catch_the_player() {
    let mut gone = enemy(0, 0);
    gone.destroyed = true;
    let enemies = vec![gone, enemy(5, 5)];
    let mut status = GameStatus::Running;
    assert!(!resolve_lose_condition(&mut status, &enemies, &vec![true, false]));
    assert_eq!(status, GameStatus::Running);
    assert!(resolve_lose_condition(&mut status, &enemies, &vec![true, true]));
    assert_eq!(status, GameStatus::Lost);
}

#[test]
fn missing_touch_answers_do_not_catch_the_player() {
    let enemies = vec![enemy(0, 0), enemy(5, 5)];
    let mut status = GameStatus::Running;
    assert!(!resolve_lose_condition(&mut status, &enemies, &vec![false]));
    assert_eq!(status, GameStatus::Running);
    assert!(!resolve_lose_condition(&mut status, &vec![enemy(0, 0)], &vec![false, true]));
    assert_eq!(status, GameStatus::Running);
}

#[test]
fn empty_engine_reports_no_overlap() {
    let context = RapierContext::default();
    let firsts = vec![Entity::from_raw(1).to_bits(), Entity::from_raw(2).to_bits()];
    let seconds = vec![Entity::from_raw(3).to_bits(), Entity::from_raw(4).to_bits(), Entity::from_raw(1).to_bits()];
    let overlaps = query_overlaps(&context, &firsts, &seconds);
    assert_eq!(overlaps, vec![vec![false, false, false], vec![false, false, false]]);
    assert_eq!(query_row(&context, firsts[0], &seconds), vec![false, false, false]);
    assert_eq!(query_overlaps(&context, &Vec::new(), &seconds), Vec::<Vec<bool>>::new());
    assert_eq!(query_row(&context, firsts[0], &Vec::new()), Vec::<bool>::new());
}

#[test]
fn engine_reports_the_sensors_that_overlap() {
    let (app, first, second, far) = world_with_sensors();
    let context = app.world.resource::<RapierContext>();
    let overlaps = query_overlaps(&context, &vec![first.to_bits(), far.to_bits()], &vec![second.to_bits(), far.to_bits()]);
    assert_eq!(overlaps, vec![vec![true, false], vec![false, false]]);
    assert_eq!(query_row(&context, second.to_bits(), &vec![far.to_bits(), first.to_bits()]), vec![false, true]);
}

#[test]
fn collision_check_scores_what_the_engine_reports() {
    let (app, first, second, far) = world_with_sensors();
    let context = app.world.resource::<RapierContext>();
    let mut enemies = vec![enemy(500, 500), enemy(0, 0)];
    let mut projectiles = vec![shot(3, 3)];
    let mut score = Score::default();
    check_projectile_enemy_collision(&context, &vec![far.to_bits(), first.to_bits()], &vec![second.to_bits()], &mut enemies, &mut projectiles, &mut score);
    assert_eq!(enemy_marks(&enemies), vec![false, true]);
    assert_eq!(shot_marks(&projectiles), vec![true]);
    assert_eq!(score.count(), 1);
    check_projectile_enemy_collision(&context, &vec![far.to_bits(), first.to_bits()], &vec![second.to_bits()], &mut enemies, &mut projectiles, &mut score);
    assert_eq!(enemy_marks(&enemies), vec![false, true]);
    assert_eq!(shot_marks(&projectiles), vec![true]);
    assert_eq!(score.count(), 1);
}

#[test]
fn collision_check_on_an_empty_engine_changes_nothing() {
    let context = RapierContext::default();
    let mut enemies = vec![enemy(0, 0)];
    let mut projectiles = vec![shot(0, 0)];
    let mut score = Score::default();
    check_projectile_enemy_collision(&context, &vec![Entity::from_raw(7).to_bits()], &vec![Entity::from_raw(8).to_bits()], &mut enemies, &mut projectiles, &mut score);
    assert!(!enemies[0].destroyed);
    assert!(!projectiles[0].destroyed);
    assert_eq!(score.count(), 0);
}

#[test]
fn lose_check_follows_what_the_engine_reports() {
    let (app, first, second, far) = world_with_sensors();
    let context = app.world.resource::<RapierContext>();
    let enemies = vec![enemy(500, 500), enemy(3, 3)];
    let mut status = GameStatus::Running;
    let missed = check_lose_condition(&context, first.to_bits(), &vec![far.to_bits(), far.to_bits()], &enemies, &mut status);
    assert!(!missed);
    assert_eq!(status, GameStatus::Running);
    let signal = check_lose_condition(&context, first.to_bits(), &vec![far.to_bits(), second.to_bits()], &enemies, &mut status);
    assert!(signal);
    assert_eq!(status, GameStatus::Lost);
    let again = check_lose_condition(&context, first.to_bits(), &vec![far.to_bits(), second.to_bits()], &enemies, &mut status);
    assert!(!again);
    assert_eq!(status, GameStatus::Lost);
}

#[test]
fn the_one_pair_left_is_destroyed_among_the_destroyed() {
    let mut gone_enemy = enemy(0, 0);
    gone_enemy.destroyed = true;
    let mut gone_shot = shot(0, 0);
    gone_shot.destroyed = true;
    let mut enemies = vec![gone_enemy, gone_enemy, enemy(4, 4)];
    let mut projectiles = vec![gone_shot, shot(4, 4), gone_shot];
    let mut score = Score::default();
    let overlaps = vec![
        vec![true, true, true],
        vec![true, true, true],
        vec![false, true, false],
    ];
    resolve_projectile_hits(&mut enemies, &mut projectiles, &overlaps, &mut score);
    assert_eq!(enemy_marks(&enemies), vec![true, true, true]);
    assert_eq!(shot_marks(&projectiles), vec![true, true, true]);
    assert_eq!(score.count(), 1);
}
