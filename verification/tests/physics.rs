use sinirust::physics::{
    apply_velocity, entity_body, handle_collisions, integrate, resolve_collision, Body, Collider,
    Mass, Velocity,
};
use sinirust::transform::Transform;
use sinirust::vec2::Vec2;
use sinirust::world::{Entity, World};

fn body(x: i64, y: i64, vx: i64, vy: i64, radius: i64, mass: i64) -> Body {
    Body { position: Vec2::new(x, y), velocity: Vec2::new(vx, vy), radius, mass }
}

fn ball(x: i64, y: i64, vx: i64, vy: i64, radius: i64, mass: i64) -> Entity {
    let mut e = Entity::new(Transform::from_translation(Vec2::new(x, y)));
    e.velocity = Some(Velocity(Vec2::new(vx, vy)));
    e.collider = Some(Collider { radius });
    e.mass = Some(Mass(mass));
    e
}

#[test]
fn integrate_moves_by_velocity_times_time() {
    let e = ball(1_000, -2_000, 3_000, -500, 1_000, 1_000);
    let r = integrate(&e, 16);
    // 3000 * 16 / 1000 = 48, -500 * 16 / 1000 = -8
    assert_eq!(r.transform.translation, Vec2::new(1_048, -2_008));
    assert_eq!(r.velocity, e.velocity);
}

#[test]
fn integrate_rounds_toward_zero() {
    let e = ball(0, 0, 999, -999, 1_000, 1_000);
    let r = integrate(&e, 1);
    assert_eq!(r.transform.translation, Vec2::new(0, 0));
    let r = integrate(&e, 1_500);
    // 999 * 1500 / 1000 = 1498.5
    assert_eq!(r.transform.translation, Vec2::new(1_498, -1_498));
}

#[test]
fn integrate_leaves_what_has_no_velocity() {
    let e = Entity::new(Transform::from_translation(Vec2::new(5, 6)));
    assert_eq!(integrate(&e, 1_000), e);
}

#[test]
fn integrate_saturates_at_the_coordinate_limit() {
    let limit = sinirust::fixed::COORD_LIMIT;
    let e = ball(limit - 10, -limit + 10, 1_000_000, -1_000_000, 1_000, 1_000);
    let r = integrate(&e, 1_000);
    assert_eq!(r.transform.translation, Vec2::new(limit, -limit));
}

#[test]
fn apply_velocity_moves_every_entity_once() {
    let mut world = World::new();
    world.spawn(ball(0, 0, 1_000, 0, 1_000, 1_000));
    world.spawn(Entity::new(Transform::from_translation(Vec2::new(7, 7))));
    world.spawn(ball(100, 100, 0, -2_000, 1_000, 1_000));
    apply_velocity(&mut world, 500);
    assert_eq!(world.entities[0].transform.translation, Vec2::new(500, 0));
    assert_eq!(world.entities[1].transform.translation, Vec2::new(7, 7));
    assert_eq!(world.entities[2].transform.translation, Vec2::new(100, -900));
}

#[test]
fn bodies_apart_are_left_alone() {
    let a = body(0, 0, 1_000, 0, 10_000, 1_000);
    let b = body(20_000, 0, -1_000, 0, 10_000, 1_000);
    // the distance equals the sum of the radii: no overlap
    assert_eq!(resolve_collision(&a, &b), (a, b));
}

#[test]
fn equal_masses_exchange_opposite_velocities() {
    // head-on: each comes back the way it went
    let a = body(0, 0, 5_000, 0, 15_000, 2_000);
    let b = body(20_000, 0, -5_000, 0, 15_000, 2_000);
    let (ra, rb) = resolve_collision(&a, &b);
    assert_eq!(ra.velocity, Vec2::new(-5_000, 0));
    assert_eq!(rb.velocity, Vec2::new(5_000, 0));
    // each is pushed back by half of the overlap of 10 units
    assert_eq!(ra.position, Vec2::new(-5_000, 0));
    assert_eq!(rb.position, Vec2::new(25_000, 0));
}

#[test]
fn equal_masses_exchange_velocities_on_a_slanted_line() {
    let a = body(0, 0, 3_000, 4_000, 15_000, 7_000);
    let b = body(6_000, 8_000, -3_000, -4_000, 15_000, 7_000);
    let (ra, rb) = resolve_collision(&a, &b);
    assert_eq!(ra.velocity, Vec2::new(-3_000, -4_000));
    assert_eq!(rb.velocity, Vec2::new(3_000, 4_000));
    // distance 10, overlap 20: each is pushed 10 along (0.6, 0.8)
    assert_eq!(ra.position, Vec2::new(-6_000, -8_000));
    assert_eq!(rb.position, Vec2::new(12_000, 16_000));
}

#[test]
fn bodies_that_move_apart_do_not_bounce() {
    let a = body(0, 0, -5_000, 0, 15_000, 2_000);
    let b = body(20_000, 0, 5_000, 0, 15_000, 2_000);
    let (ra, rb) = resolve_collision(&a, &b);
    assert_eq!(ra.velocity, a.velocity);
    assert_eq!(rb.velocity, b.velocity);
    assert_eq!(ra.position, Vec2::new(-5_000, 0));
    assert_eq!(rb.position, Vec2::new(25_000, 0));
}

#[test]
fn zero_normal_velocity_means_no_impulse() {
    // the velocities are across the line of the centres
    let a = body(0, 0, 0, 3_000, 15_000, 2_000);
    let b = body(20_000, 0, 0, -3_000, 15_000, 2_000);
    let (ra, rb) = resolve_collision(&a, &b);
    assert_eq!(ra.velocity, a.velocity);
    assert_eq!(rb.velocity, b.velocity);
}

#[test]
fn unequal_masses_share_the_impulse() {
    let a = body(0, 0, 4_000, 0, 15_000, 1_000);
    let b = body(20_000, 0, 0, 0, 15_000, 3_000);
    let (ra, rb) = resolve_collision(&a, &b);
    // the light body comes back, the heavy one is set going
    assert_eq!(ra.velocity, Vec2::new(-2_000, 0));
    assert_eq!(rb.velocity, Vec2::new(2_000, 0));
    // momentum is the same before and after
    assert_eq!(
        a.mass * a.velocity.x + b.mass * b.velocity.x,
        ra.mass * ra.velocity.x + rb.mass * rb.velocity.x
    );
}

#[test]
fn bodies_at_the_same_place_are_not_pushed() {
    let a = body(3_000, 3_000, 1_000, 0, 15_000, 2_000);
    let b = body(3_000, 3_000, -1_000, 0, 10_000, 2_000);
    assert_eq!(resolve_collision(&a, &b), (a, b));
}

#[test]
fn only_complete_bodies_collide() {
    let mut e = ball(0, 0, 0, 0, 10_000, 1_000);
    assert!(entity_body(&e).is_some());
    e.mass = None;
    assert_eq!(entity_body(&e), None);
    let mut world = World::new();
    world.spawn(e);
    world.spawn(ball(1_000, 0, 0, 0, 10_000, 1_000));
    let before = world.entities.clone();
    handle_collisions(&mut world);
    assert_eq!(world.entities, before);
}

#[test]
fn handle_collisions_resolves_an_overlapping_pair() {
    let mut world = World::new();
    world.spawn(ball(0, 0, 5_000, 0, 15_000, 2_000));
    world.spawn(Entity::new(Transform::from_translation(Vec2::new(1, 1))));
    world.spawn(ball(20_000, 0, -5_000, 0, 15_000, 2_000));
    handle_collisions(&mut world);
    assert_eq!(world.entities[0].velocity, Some(Velocity(Vec2::new(-5_000, 0))));
    assert_eq!(world.entities[2].velocity, Some(Velocity(Vec2::new(5_000, 0))));
    assert_eq!(world.entities[0].transform.translation, Vec2::new(-5_000, 0));
    assert_eq!(world.entities[2].transform.translation, Vec2::new(25_000, 0));
    assert_eq!(world.entities[1].transform.translation, Vec2::new(1, 1));
}

#[test]
fn a_body_between_two_takes_both_corrections_in_turn() {
    // three bodies in a row, at rest: the middle one overlaps both others
    let mut world = World::new();
    world.spawn(ball(0, 0, 0, 0, 10_000, 1_000));
    world.spawn(ball(16_000, 0, 0, 0, 10_000, 1_000));
    world.spawn(ball(32_000, 0, 0, 0, 10_000, 1_000));
    handle_collisions(&mut world);
    // pair (0, 1): distance 16, overlap 4, each moves 2: 0 -> -2, 1 -> 18
    // pair (0, 2): distance 34, no overlap
    // pair (1, 2): distance 14, overlap 6, each moves 3: 1 -> 15, 2 -> 35
    assert_eq!(world.entities[0].transform.translation, Vec2::new(-2_000, 0));
    assert_eq!(world.entities[1].transform.translation, Vec2::new(15_000, 0));
    assert_eq!(world.entities[2].transform.translation, Vec2::new(35_000, 0));
}

#[test]
fn body_validity_asks_for_positive_radius_and_mass() {
    assert!(body(0, 0, 0, 0, 1, 1).is_wf());
    assert!(!body(0, 0, 0, 0, 0, 1).is_wf());
    assert!(!body(0, 0, 0, 0, 1, 0).is_wf());
    assert!(!body(0, 0, 0, 0, 1, -5).is_wf());
    assert!(Collider { radius: 1 }.is_wf());
    assert!(!Collider { radius: 0 }.is_wf());
    assert!(Mass(1).is_wf());
    assert!(!Mass(0).is_wf());
    assert!(Velocity(Vec2::new(1_000_000_000, 0)).is_wf());
    assert!(!Velocity(Vec2::new(1_000_000_001, 0)).is_wf());
}

#[test]
fn momentum_is_conserved_up_to_rounding() {
    let a = body(0, 0, 1_234, 777, 10_000, 3_000);
    let b = body(7_000, 9_000, -555, -333, 10_000, 7_000);
    let (ra, rb) = resolve_collision(&a, &b);
    assert_eq!(ra.velocity, Vec2::new(-463, -1_405));
    assert_eq!(rb.velocity, Vec2::new(172, 602));
    assert_eq!(ra.position, Vec2::new(-2_639, -3_393));
    assert_eq!(rb.position, Vec2::new(9_639, 12_393));
    let gained_x = a.mass * (ra.velocity.x - a.velocity.x);
    let lost_x = b.mass * (b.velocity.x - rb.velocity.x);
    let gained_y = a.mass * (ra.velocity.y - a.velocity.y);
    let lost_y = b.mass * (b.velocity.y - rb.velocity.y);
    assert!((gained_x - lost_x).abs() < 7_000);
    assert!((gained_y - lost_y).abs() < 7_000);
}

#[test]
fn two_bodies_meeting_head_on_turn_back() {
    let mut world = World::new();
    world.spawn(ball(0, 0, 3_000, 0, 10_000, 2_000));
    world.spawn(ball(10_000, 0, -3_000, 0, 10_000, 2_000));
    handle_collisions(&mut world);
    assert_eq!(world.entities[0].velocity, Some(Velocity(Vec2::new(-3_000, 0))));
    assert_eq!(world.entities[1].velocity, Some(Velocity(Vec2::new(3_000, 0))));
    assert_eq!(world.entities[0].transform.translation, Vec2::new(-5_000, 0));
    assert_eq!(world.entities[1].transform.translation, Vec2::new(15_000, 0));
}

#[test]
fn two_overlapping_bodies_moving_apart_go_on() {
    let mut world = World::new();
    world.spawn(ball(0, 0, -1_000, 0, 10_000, 2_000));
    world.spawn(ball(10_000, 0, 1_000, 0, 10_000, 2_000));
    handle_collisions(&mut world);
    assert_eq!(world.entities[0].velocity, Some(Velocity(Vec2::new(-1_000, 0))));
    assert_eq!(world.entities[1].velocity, Some(Velocity(Vec2::new(1_000, 0))));
    assert_eq!(world.entities[0].transform.translation, Vec2::new(-5_000, 0));
    assert_eq!(world.entities[1].transform.translation, Vec2::new(15_000, 0));
}

#[test]
fn the_bounce_does_not_depend_on_which_body_comes_first() {
    let a = body(20_000, 0, -5_000, 0, 15_000, 2_000);
    let b = body(0, 0, 5_000, 0, 15_000, 2_000);
    let (ra, rb) = resolve_collision(&a, &b);
    assert_eq!(ra.velocity, Vec2::new(5_000, 0));
    assert_eq!(rb.velocity, Vec2::new(-5_000, 0));
}

#[test]
fn bodies_that_almost_coincide_are_pushed_half_the_depth_too() {
    // a thousandth of a unit apart on each axis, radius ten units each: half
    // the depth is just under ten units, which is 7.07 on each axis
    let a = body(0, 0, 0, 0, 10_000, 2_000);
    let b = body(1, 1, 0, 0, 10_000, 2_000);
    let (ra, rb) = resolve_collision(&a, &b);
    assert_eq!(ra.position, Vec2::new(-7_070, -7_070));
    assert_eq!(rb.position, Vec2::new(7_071, 7_071));
    assert_eq!(ra.velocity, a.velocity);
    assert_eq!(rb.velocity, b.velocity);
    let b = body(3, 4, 0, 0, 10_000, 2_000);
    let (ra, rb) = resolve_collision(&a, &b);
    assert_eq!(ra.position, Vec2::new(-5_998, -7_998));
    assert_eq!(rb.position, Vec2::new(6_001, 8_002));
    let b = body(1, 0, 0, 0, 10_000, 2_000);
    let (ra, rb) = resolve_collision(&a, &b);
    assert_eq!(ra.position, Vec2::new(-9_999, 0));
    assert_eq!(rb.position, Vec2::new(10_000, 0));
}

#[test]
fn the_push_keeps_the_point_half_way_and_does_not_depend_on_the_masses() {
    let a = body(1_000, -2_000, 0, 0, 12_000, 1_000);
    let b = body(8_000, 7_000, 0, 0, 9_000, 900_000);
    let (ra, rb) = resolve_collision(&a, &b);
    assert_eq!(ra.position.x + rb.position.x, a.position.x + b.position.x);
    assert_eq!(ra.position.y + rb.position.y, a.position.y + b.position.y);
    let light = body(8_000, 7_000, 0, 0, 9_000, 1);
    let (la, lb) = resolve_collision(&a, &light);
    assert_eq!(la.position, ra.position);
    assert_eq!(lb.position, rb.position);
    // they end as far apart as their radii add up to, to the step
    let dx = rb.position.x - ra.position.x;
    let dy = rb.position.y - ra.position.y;
    let apart = dx * dx + dy * dy;
    assert!(apart <= 21_000 * 21_000);
    assert!(apart >= 20_997 * 20_997);
}
