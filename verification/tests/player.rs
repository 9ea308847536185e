use sinirust::physics::{Collider, Mass, Velocity};
use sinirust::player::{
    player_entity, player_input, spawn_player, steer_player, Player, PlayerInput,
};
use sinirust::shooting::{Gun, ShootMessage};
use sinirust::team::Team;
use sinirust::health::Health;
use sinirust::transform::Transform;
use sinirust::vec2::Vec2;
use sinirust::world::{Entity, World};

fn controls(forward: bool, back: bool, fire: bool) -> PlayerInput {
    PlayerInput { forward, back, fire, heading: Vec2::new(0, 1_000), damping: 1_000 }
}

#[test]
fn the_player_starts_at_rest_at_the_origin() {
    let p = player_entity();
    assert_eq!(p.player, Some(Player { speed: 500_000 }));
    assert_eq!(p.transform, Transform::from_translation(Vec2::new(0, 0)));
    assert_eq!(p.velocity, Some(Velocity(Vec2::new(0, 0))));
    assert_eq!(p.collider, Some(Collider { radius: 15_000 }));
    assert_eq!(p.mass, Some(Mass(10_000)));
    assert_eq!(p.gun, Some(Gun { cooldown: 500, timer: 0, projectile_speed: 1_000_000 }));
    assert_eq!(p.health, Some(Health(1)));
    assert_eq!(p.team, Some(Team::Player));
    assert_eq!(p.wraps_around_camera, None);
    assert!(p.is_wf());
}

#[test]
fn spawn_player_adds_the_ship() {
    let mut world = World::new();
    world.spawn(Entity::new(Transform::from_translation(Vec2::new(1, 1))));
    assert_eq!(spawn_player(&mut world), 1);
    assert_eq!(world.entities.len(), 2);
    assert_eq!(world.entities[1], player_entity());
}

#[test]
fn thrust_adds_velocity_along_the_heading() {
    let p = player_entity();
    // 500 units/s^2 for 16 ms
    let r = steer_player(&p, &controls(true, false, false), 16);
    assert_eq!(r.velocity, Some(Velocity(Vec2::new(0, 8_000))));
    let r = steer_player(&p, &controls(false, true, false), 16);
    assert_eq!(r.velocity, Some(Velocity(Vec2::new(0, -4_000))));
    let r = steer_player(&p, &controls(true, true, false), 16);
    assert_eq!(r.velocity, Some(Velocity(Vec2::new(0, 4_000))));
    let r = steer_player(&p, &controls(false, false, false), 16);
    assert_eq!(r.velocity, Some(Velocity(Vec2::new(0, 0))));
}

#[test]
fn the_ship_turns_to_the_heading_of_the_controls() {
    let mut p = player_entity();
    p.velocity = Some(Velocity(Vec2::new(1_000, 1_000)));
    let input = PlayerInput {
        forward: true,
        back: false,
        fire: false,
        heading: Vec2::new(600, -800),
        damping: 500,
    };
    let r = steer_player(&p, &input, 10);
    assert_eq!(r.transform.heading, Vec2::new(600, -800));
    // (1000 + 3000, 1000 - 4000) of which half is left
    assert_eq!(r.velocity, Some(Velocity(Vec2::new(2_000, -1_500))));
    assert_eq!(r.transform.translation, p.transform.translation);
}

#[test]
fn the_controls_move_the_only_player() {
    let mut world = World::new();
    world.spawn(Entity::new(Transform::from_translation(Vec2::new(1, 1))));
    spawn_player(&mut world);
    player_input(&mut world, &controls(true, false, true), 16);
    assert_eq!(world.entities[1].velocity, Some(Velocity(Vec2::new(0, 8_000))));
    assert_eq!(world.messages, vec![ShootMessage { entity: 1 }]);
    player_input(&mut world, &controls(false, false, false), 16);
    assert_eq!(world.messages, vec![ShootMessage { entity: 1 }]);
}

#[test]
fn without_a_player_the_controls_do_nothing() {
    let mut world = World::new();
    world.spawn(Entity::new(Transform::from_translation(Vec2::new(1, 1))));
    let before = world.entities.clone();
    player_input(&mut world, &controls(true, true, true), 16);
    assert_eq!(world.entities, before);
    assert!(world.messages.is_empty());
    // nor with two
    spawn_player(&mut world);
    spawn_player(&mut world);
    let before = world.entities.clone();
    player_input(&mut world, &controls(true, true, true), 16);
    assert_eq!(world.entities, before);
    assert!(world.messages.is_empty());
}

#[test]
fn controls_must_be_in_range() {
    assert!(controls(true, true, true).is_wf());
    let mut bad = controls(false, false, false);
    bad.damping = 1_001;
    assert!(!bad.is_wf());
    bad.damping = -1;
    assert!(!bad.is_wf());
    bad.damping = 0;
    bad.heading = Vec2::new(1_001, 0);
    assert!(!bad.is_wf());
    bad.heading = Vec2::new(800, 800);
    assert!(!bad.is_wf());
    bad.heading = Vec2::new(707, 707);
    assert!(bad.is_wf());
}
