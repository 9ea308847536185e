use sinirust::navigation::{NavigationTarget, ROAM_RANGE};
use sinirust::physics::Velocity;
use sinirust::player::player_entity;
use sinirust::shooting::{Gun, ShootMessage};
use sinirust::team::Team;
use sinirust::transform::Transform;
use sinirust::vec2::Vec2;
use sinirust::warrior::{
    is_in_sight, move_warrior, update_target, warrior_ai, warrior_entity, warrior_movement,
    Warrior,
};
use sinirust::world::{Entity, World};

fn warrior(x: i64, y: i64) -> Entity {
    warrior_entity(Vec2::new(x, y))
}

fn player(x: i64, y: i64) -> Entity {
    let mut e = player_entity();
    e.transform.translation = Vec2::new(x, y);
    e
}

fn heading_for(mut e: Entity, x: i64, y: i64) -> Entity {
    e.navigation_target = Some(NavigationTarget(Vec2::new(x, y)));
    e
}

#[test]
fn a_new_warrior_is_an_armed_enemy() {
    let w = warrior(1_000, 2_000);
    assert_eq!(w.warrior, Some(Warrior { acceleration: 200_000, detection_radius: 500_000 }));
    assert_eq!(w.gun, Some(Gun { cooldown: 3_000, timer: 0, projectile_speed: 500_000 }));
    assert_eq!(w.team, Some(Team::Enemy));
    assert_eq!(w.transform, Transform::from_translation(Vec2::new(1_000, 2_000)));
    assert_eq!(w.navigation_target, None);
    assert!(w.is_wf());
}

#[test]
fn a_warrior_sees_up_to_its_detection_radius() {
    let w = warrior(0, 0);
    assert!(is_in_sight(&w, &player(500_000, 0)));
    assert!(is_in_sight(&w, &player(300_000, -400_000)));
    assert!(!is_in_sight(&w, &player(500_001, 0)));
    assert!(!is_in_sight(&w, &warrior(1_000, 0)));
}

#[test]
fn a_warrior_that_sees_the_player_pursues_and_fires() {
    let mut world = World::new();
    world.spawn(player(100_000, 50_000));
    world.spawn(heading_for(warrior(0, 0), 9, 9));
    warrior_ai(&mut world);
    assert_eq!(world.entities[1], heading_for(warrior(0, 0), 100_000, 50_000));
    assert_eq!(world.messages, vec![ShootMessage { entity: 1 }]);
    assert_eq!(world.entities[0], player(100_000, 50_000));
}

#[test]
fn a_warrior_goes_for_the_first_player_in_sight() {
    let mut world = World::new();
    world.spawn(player(900_000, 0));
    world.spawn(player(400_000, 0));
    world.spawn(warrior(0, 0));
    world.spawn(player(100_000, 0));
    warrior_ai(&mut world);
    assert_eq!(
        world.entities[2].navigation_target,
        Some(NavigationTarget(Vec2::new(400_000, 0)))
    );
}

#[test]
fn every_warrior_in_sight_asks_to_fire() {
    let mut world = World::new();
    world.spawn(warrior(0, 0));
    world.spawn(heading_for(warrior(2_000_000, 0), 5, 5));
    world.spawn(player(100_000, 0));
    world.spawn(warrior(0, 100_000));
    world.send(ShootMessage { entity: 2 });
    warrior_ai(&mut world);
    assert_eq!(
        world.messages,
        vec![
            ShootMessage { entity: 2 },
            ShootMessage { entity: 0 },
            ShootMessage { entity: 3 }
        ]
    );
    assert_eq!(world.entities[1], heading_for(warrior(2_000_000, 0), 5, 5));
}

#[test]
fn a_warrior_out_of_sight_with_no_goal_roams() {
    let mut world = World::new();
    world.spawn(warrior(1_000_000, 1_000_000));
    world.spawn(player(0, 0));
    warrior_ai(&mut world);
    let t = world.entities[0].navigation_target.unwrap().0;
    assert!(1_000_000 - ROAM_RANGE <= t.x && t.x < 1_000_000 + ROAM_RANGE);
    assert!(1_000_000 - ROAM_RANGE <= t.y && t.y < 1_000_000 + ROAM_RANGE);
    assert_eq!(world.entities[0], heading_for(warrior(1_000_000, 1_000_000), t.x, t.y));
    assert!(world.messages.is_empty());
}

#[test]
fn update_target_leaves_what_is_no_warrior() {
    let mut world = World::new();
    world.spawn(player(0, 0));
    world.spawn(warrior(0, 0));
    let mut rng = rand::rng();
    update_target(&mut world, 0, &mut rng);
    assert_eq!(world.entities[0], player(0, 0));
    assert_eq!(world.entities[1], warrior(0, 0));
    assert!(world.messages.is_empty());
    update_target(&mut world, 1, &mut rng);
    assert_eq!(world.entities[1], heading_for(warrior(0, 0), 0, 0));
    assert_eq!(world.messages, vec![ShootMessage { entity: 1 }]);
}

#[test]
fn a_warrior_accelerates_toward_its_goal() {
    let w = heading_for(warrior(0, 0), 0, -100_000);
    let r = move_warrior(&w, 16);
    assert_eq!(r.velocity, Some(Velocity(Vec2::new(0, -3_136))));
    assert_eq!(r.transform.heading, Vec2::new(0, -1_000));
    assert_eq!(r.navigation_target, w.navigation_target);
}

#[test]
fn a_warrior_has_arrived_at_twelve_units() {
    let mut w = heading_for(warrior(0, 0), 12_000, 0);
    w.velocity = Some(Velocity(Vec2::new(1_000, 0)));
    let r = move_warrior(&w, 16);
    assert_eq!(r.navigation_target, None);
    assert_eq!(r.velocity, Some(Velocity(Vec2::new(900, 0))));
    let w = heading_for(warrior(0, 0), 12_001, 0);
    assert!(move_warrior(&w, 16).navigation_target.is_some());
}

#[test]
fn warrior_movement_steers_warriors_only() {
    let mut world = World::new();
    world.spawn(heading_for(warrior(0, 0), 100_000, 0));
    let mut stranger = heading_for(warrior(0, 0), 100_000, 0);
    stranger.warrior = None;
    world.spawn(stranger);
    world.spawn(warrior(5, 5));
    warrior_movement(&mut world, 16);
    assert_eq!(world.entities[0].velocity, Some(Velocity(Vec2::new(3_136, 0))));
    assert_eq!(world.entities[1], stranger);
    assert_eq!(world.entities[2], warrior(5, 5));
}

#[test]
fn update_target_ignores_an_index_that_names_nobody() {
    let mut world = World::new();
    world.spawn(player(0, 0));
    world.spawn(warrior(0, 0));
    let mut rng = rand::rng();
    update_target(&mut world, 2, &mut rng);
    update_target(&mut world, usize::MAX, &mut rng);
    assert_eq!(world.entities, vec![player(0, 0), warrior(0, 0)]);
    assert!(world.messages.is_empty());
}
