use sinirust::asteroid::{asteroid_entity, Asteroid};
use sinirust::health::Health;
use sinirust::physics::{Collider, Velocity};
use sinirust::shooting::{
    age, cool, gun_system, impact_direction, projectile_hits, projectile_system, shoot, Gun,
    Projectile, ShootMessage, PROJECTILE_DAMAGE, PROJECTILE_LIFETIME, PROJECTILE_RADIUS,
};
use sinirust::team::Team;
use sinirust::transform::Transform;
use sinirust::vec2::Vec2;
use sinirust::world::{Entity, World};

fn gunner(x: i64, y: i64, team: Team, cooldown: i64, speed: i64) -> Entity {
    let mut e = Entity::new(Transform::from_translation(Vec2::new(x, y)));
    e.gun = Some(Gun { cooldown, timer: 0, projectile_speed: speed });
    e.team = Some(team);
    e
}

fn bullet(x: i64, y: i64, vx: i64, vy: i64, team: Team) -> Entity {
    let mut e = Entity::new(Transform::from_translation(Vec2::new(x, y)));
    e.projectile = Some(Projectile {
        lifetime: PROJECTILE_LIFETIME,
        radius: PROJECTILE_RADIUS,
        damage: PROJECTILE_DAMAGE,
        team,
    });
    e.velocity = Some(Velocity(Vec2::new(vx, vy)));
    e
}

fn target(x: i64, y: i64, radius: i64, health: i32, team: Team) -> Entity {
    let mut e = Entity::new(Transform::from_translation(Vec2::new(x, y)));
    e.collider = Some(Collider { radius });
    e.health = Some(Health(health));
    e.team = Some(team);
    e
}

#[test]
fn a_gun_counts_down_and_reloads() {
    let gun = Gun { cooldown: 500, timer: 0, projectile_speed: 1_000_000 };
    assert!(gun.is_ready());
    assert_eq!(gun.tick(16).timer, -16);
    let fired = gun.reload();
    assert_eq!(fired.timer, 500);
    assert!(!fired.is_ready());
    assert!(!fired.tick(499).is_ready());
    assert!(fired.tick(500).is_ready());
    assert_eq!(fired.tick(499).timer, 1);
}

#[test]
fn a_gun_timer_saturates() {
    let limit = sinirust::fixed::TIME_LIMIT;
    let gun = Gun { cooldown: 0, timer: -limit + 5, projectile_speed: 0 };
    assert_eq!(gun.tick(10).timer, -limit);
}

#[test]
fn every_gun_cools_down() {
    let e = gunner(0, 0, Team::Enemy, 500, 1_000);
    assert_eq!(cool(&e, 100).gun.unwrap().timer, -100);
    let mut teamless = e;
    teamless.team = None;
    assert_eq!(cool(&teamless, 100).gun.unwrap().timer, -100);
    let unarmed = Entity::new(Transform::from_translation(Vec2::new(0, 0)));
    assert_eq!(cool(&unarmed, 100), unarmed);
}

#[test]
fn a_shot_flies_the_way_the_shooter_faces() {
    let mut e = gunner(1_000, 2_000, Team::Player, 500, 1_000_000);
    let p = shoot(&e).unwrap();
    assert_eq!(p.transform, Transform::from_translation(Vec2::new(1_000, 2_000)));
    assert_eq!(p.velocity, Some(Velocity(Vec2::new(0, 1_000_000))));
    assert_eq!(
        p.projectile,
        Some(Projectile { lifetime: 1_000, radius: 5_000, damage: 1, team: Team::Player })
    );
    assert_eq!(p.collider, None);
    assert_eq!(p.health, None);
    e.transform.heading = Vec2::new(600, -800);
    let p = shoot(&e).unwrap();
    assert_eq!(p.velocity, Some(Velocity(Vec2::new(600_000, -800_000))));
    e.gun = None;
    assert_eq!(shoot(&e), None);
}

#[test]
fn a_request_fires_a_ready_gun() {
    let mut world = World::new();
    world.spawn(gunner(0, 0, Team::Enemy, 3_000, 500_000));
    world.send(ShootMessage { entity: 0 });
    gun_system(&mut world, 16);
    assert_eq!(world.entities.len(), 2);
    assert_eq!(world.entities[0].gun.unwrap().timer, 3_000);
    assert_eq!(world.entities[1].projectile.unwrap().team, Team::Enemy);
    assert_eq!(world.entities[1].velocity, Some(Velocity(Vec2::new(0, 500_000))));
    assert!(world.messages.is_empty());
}

#[test]
fn firing_twice_within_the_cooldown_spawns_one_projectile() {
    let mut world = World::new();
    world.spawn(gunner(0, 0, Team::Player, 500, 1_000_000));
    world.send(ShootMessage { entity: 0 });
    gun_system(&mut world, 16);
    assert_eq!(world.entities.len(), 2);
    world.send(ShootMessage { entity: 0 });
    gun_system(&mut world, 499);
    assert_eq!(world.entities.len(), 2);
    assert_eq!(world.entities[0].gun.unwrap().timer, 1);
    // once the cooldown has passed the gun fires again
    world.send(ShootMessage { entity: 0 });
    gun_system(&mut world, 1);
    assert_eq!(world.entities.len(), 3);
}

#[test]
fn two_requests_in_one_tick_fire_once() {
    let mut world = World::new();
    world.spawn(gunner(0, 0, Team::Player, 500, 1_000_000));
    world.send(ShootMessage { entity: 0 });
    world.send(ShootMessage { entity: 0 });
    gun_system(&mut world, 16);
    assert_eq!(world.entities.len(), 2);
}

#[test]
fn a_gun_without_cooldown_fires_at_every_request() {
    let mut world = World::new();
    world.spawn(gunner(0, 0, Team::Player, 0, 1_000_000));
    world.send(ShootMessage { entity: 0 });
    world.send(ShootMessage { entity: 0 });
    gun_system(&mut world, 16);
    assert_eq!(world.entities.len(), 3);
}

#[test]
fn requests_to_nobody_are_ignored() {
    let mut world = World::new();
    world.spawn(Entity::new(Transform::from_translation(Vec2::new(0, 0))));
    let mut teamless = gunner(0, 0, Team::Enemy, 500, 1_000);
    teamless.team = None;
    world.spawn(teamless);
    world.send(ShootMessage { entity: 0 });
    world.send(ShootMessage { entity: 1 });
    world.send(ShootMessage { entity: 7 });
    gun_system(&mut world, 16);
    assert_eq!(world.entities.len(), 2);
    // the gun without a team has cooled down and not fired
    assert_eq!(world.entities[1].gun.unwrap().timer, -16);
    assert_eq!(world.entities[1].team, None);
    assert!(world.messages.is_empty());
}

#[test]
fn the_guns_of_the_world_cool_down() {
    let mut world = World::new();
    world.spawn(gunner(0, 0, Team::Enemy, 500, 1_000));
    let mut busy = gunner(0, 0, Team::Player, 500, 1_000);
    busy.gun = Some(Gun { cooldown: 500, timer: 300, projectile_speed: 1_000 });
    world.spawn(busy);
    gun_system(&mut world, 100);
    assert_eq!(world.entities[0].gun.unwrap().timer, -100);
    assert_eq!(world.entities[1].gun.unwrap().timer, 200);
}

#[test]
fn a_projectile_hits_what_it_overlaps() {
    let p = bullet(0, 0, 0, 1_000, Team::Player);
    // reach is 5 + 10 = 15 units
    assert!(projectile_hits(&p, &target(14_999, 0, 10_000, 1, Team::Enemy)));
    assert!(!projectile_hits(&p, &target(15_000, 0, 10_000, 1, Team::Enemy)));
    assert!(projectile_hits(&p, &target(9_000, 12_000 - 1, 10_000, 1, Team::Enemy)));
    assert!(!projectile_hits(&p, &target(9_000, 12_000, 10_000, 1, Team::Enemy)));
}

#[test]
fn a_projectile_spares_its_own_team_and_no_team_hits() {
    let enemy = bullet(0, 0, 0, 1_000, Team::Enemy);
    assert!(!projectile_hits(&enemy, &target(0, 0, 10_000, 1, Team::Enemy)));
    assert!(projectile_hits(&enemy, &target(0, 0, 10_000, 1, Team::Player)));
    assert!(projectile_hits(&enemy, &target(0, 0, 10_000, 1, Team::Neutral)));
    let neutral = bullet(0, 0, 0, 1_000, Team::Neutral);
    assert!(!projectile_hits(&neutral, &target(0, 0, 10_000, 1, Team::Enemy)));
    assert!(!projectile_hits(&neutral, &target(0, 0, 10_000, 1, Team::Player)));
    assert!(!projectile_hits(&neutral, &target(0, 0, 10_000, 1, Team::Neutral)));
    assert!(Team::Enemy.is_hostile_to(&Team::Player));
    assert!(!Team::Enemy.is_hostile_to(&Team::Enemy));
    assert!(!Team::Neutral.is_hostile_to(&Team::Enemy));
}

#[test]
fn what_lacks_a_component_is_no_target() {
    let p = bullet(0, 0, 0, 1_000, Team::Player);
    let mut t = target(0, 0, 10_000, 1, Team::Enemy);
    t.health = None;
    assert!(!projectile_hits(&p, &t));
    let mut t = target(0, 0, 10_000, 1, Team::Enemy);
    t.collider = None;
    assert!(!projectile_hits(&p, &t));
    let mut t = target(0, 0, 10_000, 1, Team::Enemy);
    t.team = None;
    assert!(!projectile_hits(&p, &t));
}

#[test]
fn an_enemy_projectile_leaves_enemies_unharmed_and_flies_on() {
    let mut world = World::new();
    world.spawn(bullet(0, 0, 0, 1_000, Team::Enemy));
    world.spawn(target(1_000, 0, 12_000, 1, Team::Enemy));
    projectile_system(&mut world, 16);
    assert_eq!(world.entities.len(), 2);
    assert_eq!(world.entities[1], target(1_000, 0, 12_000, 1, Team::Enemy));
    assert!(!world.entities[0].despawn_requested);
    assert_eq!(world.entities[0].projectile.unwrap().lifetime, 984);
    // it stays until its lifetime has run out
    projectile_system(&mut world, 983);
    assert!(!world.entities[0].despawn_requested);
    projectile_system(&mut world, 1);
    assert!(world.entities[0].despawn_requested);
    assert_eq!(world.entities[0].projectile.unwrap().lifetime, 0);
    assert_eq!(world.entities[1].health, Some(Health(1)));
}

#[test]
fn a_hit_takes_health_and_removes_the_projectile() {
    let mut world = World::new();
    world.spawn(target(1_000, 0, 12_000, 3, Team::Enemy));
    world.spawn(bullet(0, 0, 0, 1_000, Team::Player));
    projectile_system(&mut world, 16);
    assert_eq!(world.entities.len(), 2);
    assert_eq!(world.entities[0].health, Some(Health(2)));
    assert!(!world.entities[0].despawn_requested);
    assert!(world.entities[1].despawn_requested);
}

#[test]
fn a_target_without_health_left_is_removed() {
    let mut world = World::new();
    world.spawn(target(1_000, 0, 12_000, 1, Team::Enemy));
    world.spawn(bullet(0, 0, 0, 1_000, Team::Player));
    projectile_system(&mut world, 16);
    assert_eq!(world.entities[0].health, Some(Health(0)));
    assert!(world.entities[0].despawn_requested);
    world.flush();
    assert!(world.entities.is_empty());
}

#[test]
fn a_projectile_strikes_the_first_target_not_the_closest() {
    let mut world = World::new();
    world.spawn(bullet(0, 0, 0, 1_000, Team::Player));
    world.spawn(target(9_000, 0, 12_000, 5, Team::Enemy));
    world.spawn(target(1_000, 0, 12_000, 5, Team::Enemy));
    projectile_system(&mut world, 16);
    assert_eq!(world.entities[1].health, Some(Health(4)));
    assert_eq!(world.entities[2].health, Some(Health(5)));
}

#[test]
fn a_spent_projectile_is_removed_without_effect() {
    let mut world = World::new();
    world.spawn(bullet(0, 0, 0, 1_000, Team::Player));
    world.spawn(target(1_000, 0, 12_000, 5, Team::Enemy));
    projectile_system(&mut world, 1_000);
    assert!(world.entities[0].despawn_requested);
    assert_eq!(world.entities[1].health, Some(Health(5)));
}

#[test]
fn two_projectiles_add_their_damage() {
    let mut world = World::new();
    world.spawn(bullet(0, 0, 0, 1_000, Team::Player));
    world.spawn(target(1_000, 0, 12_000, 5, Team::Enemy));
    world.spawn(bullet(2_000, 0, 0, 1_000, Team::Player));
    projectile_system(&mut world, 16);
    assert_eq!(world.entities[1].health, Some(Health(3)));
    assert!(world.entities[0].despawn_requested);
    assert!(world.entities[2].despawn_requested);
}

#[test]
fn a_struck_asteroid_drops_a_crystal() {
    let mut world = World::new();
    world.spawn(asteroid_entity(Vec2::new(10_000, 20_000), Vec2::new(0, 0)));
    world.spawn(bullet(10_000, 0, 0, 1_000_000, Team::Player));
    projectile_system(&mut world, 16);
    assert_eq!(world.entities.len(), 3);
    assert_eq!(world.entities[0].health, Some(Health(2)));
    assert_eq!(world.entities[0].asteroid, Some(Asteroid));
    assert!(!world.entities[0].despawn_requested);
    assert!(world.entities[1].despawn_requested);
    let crystal = world.entities[2];
    assert!(crystal.crystal.is_some());
    assert!(crystal.wraps_around_camera.is_some());
    assert_eq!(crystal.transform, Transform::from_translation(Vec2::new(10_000, 20_000)));
    assert_eq!(crystal.collider, Some(Collider { radius: 8_000 }));
    assert_eq!(crystal.health, None);
    let v = crystal.velocity.unwrap().0;
    // knocked along the shot at 50 units a second, with a drift under 50
    assert!(-50_000 <= v.x && v.x < 50_000);
    assert!(0 <= v.y && v.y < 100_000);
}

#[test]
fn a_neutral_asteroid_is_spared_by_neutral_shots() {
    let mut world = World::new();
    world.spawn(asteroid_entity(Vec2::new(0, 0), Vec2::new(0, 0)));
    world.spawn(bullet(0, 0, 0, 1_000, Team::Neutral));
    projectile_system(&mut world, 16);
    assert_eq!(world.entities.len(), 2);
    assert_eq!(world.entities[0].health, Some(Health(3)));
    assert!(!world.entities[1].despawn_requested);
}

#[test]
fn the_impact_is_along_the_shot() {
    assert_eq!(impact_direction(&Vec2::new(0, 1_000_000)), Vec2::new(0, 50_000));
    assert_eq!(impact_direction(&Vec2::new(-300, 400)), Vec2::new(-30_000, 40_000));
    assert_eq!(impact_direction(&Vec2::new(0, 0)), Vec2::new(0, 0));
}

#[test]
fn a_projectile_ages() {
    let p = bullet(0, 0, 0, 0, Team::Player);
    assert_eq!(age(&p, 16).projectile.unwrap().lifetime, 984);
    assert_eq!(age(&p, 2_000).projectile.unwrap().lifetime, -1_000);
    let plain = Entity::new(Transform::from_translation(Vec2::new(0, 0)));
    assert_eq!(age(&plain, 16), plain);
}

#[test]
fn health_saturates() {
    assert_eq!(Health(3).damage(1), Health(2));
    assert_eq!(Health(0).damage(-5), Health(5));
    assert_eq!(Health(i32::MIN).damage(1), Health(i32::MIN));
    assert_eq!(Health(i32::MAX).damage(-1), Health(i32::MAX));
    assert!(Health(0).is_depleted());
    assert!(Health(-1).is_depleted());
    assert!(!Health(1).is_depleted());
}

#[test]
fn every_projectile_in_flight_has_its_own_fate() {
    let mut world = World::new();
    let mut spent = bullet(500_000, 0, 0, 1_000, Team::Player);
    spent.projectile = Some(Projectile { lifetime: 10, radius: 5_000, damage: 1, team: Team::Player });
    world.spawn(spent);
    world.spawn(bullet(0, 0, 0, 1_000, Team::Player));
    world.spawn(target(1_000, 0, 12_000, 5, Team::Enemy));
    world.spawn(bullet(900_000, 0, 0, 1_000, Team::Player));
    world.spawn(bullet(2_000, 0, 0, 1_000, Team::Enemy));
    projectile_system(&mut world, 16);
    // out of time
    assert!(world.entities[0].despawn_requested);
    assert_eq!(world.entities[0].projectile.unwrap().lifetime, -6);
    // strikes the enemy
    assert!(world.entities[1].despawn_requested);
    assert_eq!(world.entities[1].projectile.unwrap().lifetime, 984);
    assert_eq!(world.entities[2].health, Some(Health(4)));
    // far from everything
    assert!(!world.entities[3].despawn_requested);
    assert_eq!(world.entities[3].projectile.unwrap().lifetime, 984);
    // among its own
    assert!(!world.entities[4].despawn_requested);
    assert_eq!(world.entities[4].projectile.unwrap().lifetime, 984);
}

#[test]
fn a_slow_projectile_knocks_no_harder_than_a_fast_one() {
    assert_eq!(impact_direction(&Vec2::new(1, 1)), Vec2::new(35_300, 35_300));
    assert_eq!(impact_direction(&Vec2::new(0, -1)), Vec2::new(0, -50_000));
    let v = impact_direction(&Vec2::new(2, 1));
    assert!(v.x * v.x + v.y * v.y <= 50_000 * 50_000);
}

#[test]
fn a_shot_is_no_faster_than_the_gun() {
    let mut e = gunner(0, 0, Team::Player, 500, 1_000_000);
    e.transform.heading = Vec2::new(707, 707);
    let v = shoot(&e).unwrap().velocity.unwrap().0;
    assert_eq!(v, Vec2::new(707_000, 707_000));
    assert!(v.x * v.x + v.y * v.y <= 1_000_000i64 * 1_000_000);
}
