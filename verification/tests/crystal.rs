use sinirust::crystal::{
    crystal_entity, crystal_impacts, drift_velocity, is_within_pickup, spawn_crystal, Crystal,
};
use sinirust::navigation::NavigationTarget;
use sinirust::physics::{Collider, Mass, Velocity};
use sinirust::player::player_entity;
use sinirust::score::{GameScore, Sinibombs};
use sinirust::transform::Transform;
use sinirust::vec2::Vec2;
use sinirust::worker::{worker_entity, HasCrystal, WorkerState};
use sinirust::world::{Entity, World};

fn crystal(x: i64, y: i64) -> Entity {
    crystal_entity(Vec2::new(x, y), Vec2::new(0, 0))
}

fn player(x: i64, y: i64) -> Entity {
    let mut e = player_entity();
    e.transform.translation = Vec2::new(x, y);
    e
}

fn collector(x: i64, y: i64) -> Entity {
    let mut e = worker_entity(Vec2::new(x, y));
    e.worker_state = Some(WorkerState::Collecting);
    e.navigation_target = Some(NavigationTarget(Vec2::new(x, y)));
    e
}

#[test]
fn a_crystal_is_a_small_light_body() {
    let c = crystal_entity(Vec2::new(1, 2), Vec2::new(3, 4));
    assert_eq!(c.crystal, Some(Crystal));
    assert_eq!(c.transform, Transform::from_translation(Vec2::new(1, 2)));
    assert_eq!(c.velocity, Some(Velocity(Vec2::new(3, 4))));
    assert_eq!(c.collider, Some(Collider { radius: 8_000 }));
    assert_eq!(c.mass, Some(Mass(1_000)));
    assert!(c.wraps_around_camera.is_some());
    assert_eq!(c.health, None);
    assert_eq!(c.team, None);
    assert!(c.is_wf());
}

#[test]
fn drift_adds_to_the_impact() {
    assert_eq!(drift_velocity(Vec2::new(0, 50_000), -7, 9), Vec2::new(-7, 50_009));
    let limit = sinirust::fixed::SPEED_LIMIT;
    assert_eq!(drift_velocity(Vec2::new(limit, -limit), 5, -5), Vec2::new(limit, -limit));
}

#[test]
fn spawn_crystal_drops_one_crystal() {
    let mut world = World::new();
    let id = spawn_crystal(&mut world, Vec2::new(5_000, 6_000), Vec2::new(10_000, 0));
    assert_eq!(id, Some(0));
    assert_eq!(world.entities.len(), 1);
    let c = world.entities[0];
    let v = c.velocity.unwrap().0;
    assert_eq!(c, crystal_entity(Vec2::new(5_000, 6_000), v));
    assert!(-40_000 <= v.x && v.x < 60_000);
    assert!(-50_000 <= v.y && v.y < 50_000);
}

#[test]
fn spawn_crystal_refuses_a_place_outside_the_range() {
    let mut world = World::new();
    let far = sinirust::fixed::COORD_LIMIT + 1;
    assert_eq!(spawn_crystal(&mut world, Vec2::new(far, 0), Vec2::new(0, 0)), None);
    assert!(world.entities.is_empty());
}

#[test]
fn pickup_reach_is_strictly_under_thirty_units() {
    let p = player(0, 0);
    assert!(is_within_pickup(&p, &crystal(29_999, 0)));
    assert!(!is_within_pickup(&p, &crystal(30_000, 0)));
    assert!(is_within_pickup(&p, &crystal(18_000, 23_999)));
    assert!(!is_within_pickup(&p, &crystal(18_000, 24_000)));
}

#[test]
fn the_player_picks_up_a_crystal() {
    let mut world = World::new();
    world.spawn(player(0, 0));
    world.spawn(crystal(10_000, 0));
    world.spawn(crystal(100_000, 0));
    crystal_impacts(&mut world);
    assert_eq!(world.score, GameScore(200));
    assert_eq!(world.sinibombs, Sinibombs(1));
    assert!(world.entities[1].despawn_requested);
    assert!(!world.entities[2].despawn_requested);
    world.flush();
    assert_eq!(world.entities.len(), 2);
    assert_eq!(world.entities[1], crystal(100_000, 0));
}

#[test]
fn the_player_picks_up_every_crystal_in_reach() {
    let mut world = World::new();
    world.spawn(crystal(10_000, 0));
    world.spawn(player(0, 0));
    world.spawn(crystal(0, -10_000));
    crystal_impacts(&mut world);
    assert_eq!(world.score, GameScore(400));
    assert_eq!(world.sinibombs, Sinibombs(2));
    assert!(world.entities[0].despawn_requested);
    assert!(world.entities[2].despawn_requested);
}

#[test]
fn a_crystal_in_reach_of_player_and_worker_goes_to_the_player() {
    let mut world = World::new();
    world.spawn(player(0, 0));
    world.spawn(collector(10_000, 0));
    world.spawn(crystal(5_000, 0));
    crystal_impacts(&mut world);
    assert_eq!(world.score, GameScore(200));
    assert_eq!(world.sinibombs, Sinibombs(1));
    assert!(world.entities[2].despawn_requested);
    // the worker has got nothing
    assert_eq!(world.entities[1], collector(10_000, 0));
    world.flush();
    assert_eq!(world.entities.len(), 2);
}

#[test]
fn a_collecting_worker_picks_up_a_crystal() {
    let mut world = World::new();
    world.spawn(collector(0, 0));
    world.spawn(crystal(0, 20_000));
    crystal_impacts(&mut world);
    let w = world.entities[0];
    assert_eq!(w.has_crystal, Some(HasCrystal(true)));
    assert_eq!(w.worker_state, Some(WorkerState::Returning));
    assert_eq!(w.navigation_target, None);
    assert!(world.entities[1].despawn_requested);
    assert_eq!(world.score, GameScore(0));
    assert_eq!(world.sinibombs, Sinibombs(0));
}

#[test]
fn a_worker_picks_up_one_crystal_only() {
    let mut world = World::new();
    world.spawn(crystal(0, 25_000));
    world.spawn(collector(0, 0));
    world.spawn(crystal(0, 5_000));
    crystal_impacts(&mut world);
    // the first in the order of the indices, not the closest
    assert!(world.entities[0].despawn_requested);
    assert!(!world.entities[2].despawn_requested);
    assert_eq!(world.entities[1].worker_state, Some(WorkerState::Returning));
}

#[test]
fn of_two_workers_the_first_gets_the_crystal() {
    let mut world = World::new();
    world.spawn(collector(0, 0));
    world.spawn(collector(10_000, 0));
    world.spawn(crystal(5_000, 0));
    crystal_impacts(&mut world);
    assert_eq!(world.entities[0].has_crystal, Some(HasCrystal(true)));
    assert_eq!(world.entities[0].worker_state, Some(WorkerState::Returning));
    assert_eq!(world.entities[1], collector(10_000, 0));
    assert!(world.entities[2].despawn_requested);
}

#[test]
fn a_roaming_worker_picks_up_nothing() {
    let mut world = World::new();
    world.spawn(worker_entity(Vec2::new(0, 0)));
    world.spawn(crystal(1_000, 0));
    let before = world.entities.clone();
    crystal_impacts(&mut world);
    assert_eq!(world.entities, before);
}

#[test]
fn a_claimed_crystal_is_picked_up_by_nobody() {
    let mut world = World::new();
    world.spawn(player(0, 0));
    world.spawn(collector(0, 0));
    world.spawn(crystal(1_000, 0));
    world.despawn(2);
    let before = world.entities.clone();
    crystal_impacts(&mut world);
    assert_eq!(world.entities, before);
    assert_eq!(world.score, GameScore(0));
}

#[test]
fn the_counters_saturate() {
    let mut world = World::new();
    world.score = GameScore(u32::MAX - 100);
    world.sinibombs = Sinibombs(u32::MAX);
    world.spawn(player(0, 0));
    world.spawn(crystal(1_000, 0));
    crystal_impacts(&mut world);
    assert_eq!(world.score, GameScore(u32::MAX));
    assert_eq!(world.sinibombs, Sinibombs(u32::MAX));
}

#[test]
fn without_a_player_only_workers_pick_up() {
    let mut world = World::new();
    world.spawn(crystal(1_000, 0));
    crystal_impacts(&mut world);
    assert!(!world.entities[0].despawn_requested);
    assert_eq!(world.score, GameScore(0));
}
