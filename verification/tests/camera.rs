use sinirust::camera::{
    camera_follow, find_sole_player, wrap_around_camera, wrap_coordinate, wrap_entity,
    WrapsAroundCamera, WORLD_HEIGHT, WORLD_WIDTH,
};
use sinirust::player::{player_entity, Player};
use sinirust::transform::Transform;
use sinirust::vec2::Vec2;
use sinirust::world::{Entity, World};

fn rock(x: i64, y: i64) -> Entity {
    let mut e = Entity::new(Transform::from_translation(Vec2::new(x, y)));
    e.wraps_around_camera = Some(WrapsAroundCamera);
    e
}

#[test]
fn an_entity_exactly_at_the_boundary_stays() {
    let half = WORLD_WIDTH / 2;
    assert_eq!(wrap_coordinate(half, 0, WORLD_WIDTH), half);
    assert_eq!(wrap_coordinate(-half, 0, WORLD_WIDTH), -half);
    assert_eq!(wrap_coordinate(1_000 + half, 1_000, WORLD_WIDTH), 1_000 + half);
}

#[test]
fn an_entity_just_past_the_boundary_moves_by_one_world() {
    let half = WORLD_WIDTH / 2;
    assert_eq!(wrap_coordinate(half + 1, 0, WORLD_WIDTH), half + 1 - WORLD_WIDTH);
    assert_eq!(wrap_coordinate(-half - 1, 0, WORLD_WIDTH), -half - 1 + WORLD_WIDTH);
    // it is then inside the bounds, and a second wrap leaves it
    let once = wrap_coordinate(half + 1, 0, WORLD_WIDTH);
    assert!(-half <= once && once <= half);
    assert_eq!(wrap_coordinate(once, 0, WORLD_WIDTH), once);
}

#[test]
fn wrapping_is_relative_to_the_viewpoint() {
    let cam = 10_000_000;
    assert_eq!(wrap_coordinate(cam + 2_500_000, cam, WORLD_WIDTH), cam - 1_500_000);
    assert_eq!(wrap_coordinate(cam - 2_500_000, cam, WORLD_WIDTH), cam + 1_500_000);
    assert_eq!(wrap_coordinate(cam + 1_999_999, cam, WORLD_WIDTH), cam + 1_999_999);
}

#[test]
fn wrapping_saturates_at_the_coordinate_limit() {
    let limit = sinirust::fixed::COORD_LIMIT;
    assert_eq!(wrap_coordinate(-limit + 10, -limit, 100), -limit + 10);
    assert_eq!(wrap_coordinate(-limit + 60, -limit, 100), -limit);
}

#[test]
fn only_marked_entities_wrap() {
    let cam = Vec2::new(0, 0);
    let marked = rock(3_000_000, -3_000_000);
    let r = wrap_entity(&marked, &cam);
    assert_eq!(r.transform.translation, Vec2::new(-1_000_000, 1_000_000));
    let plain = Entity::new(Transform::from_translation(Vec2::new(3_000_000, -3_000_000)));
    assert_eq!(wrap_entity(&plain, &cam), plain);
}

#[test]
fn each_axis_wraps_on_its_own() {
    let cam = Vec2::new(0, 0);
    let r = wrap_entity(&rock(WORLD_WIDTH / 2 + 5, WORLD_HEIGHT / 2), &cam);
    assert_eq!(r.transform.translation, Vec2::new(5 - WORLD_WIDTH / 2, WORLD_HEIGHT / 2));
}

#[test]
fn without_a_viewpoint_nothing_wraps() {
    let mut world = World::new();
    world.spawn(rock(9_000_000, 9_000_000));
    wrap_around_camera(&mut world);
    assert_eq!(world.entities[0].transform.translation, Vec2::new(9_000_000, 9_000_000));
}

#[test]
fn wrap_around_camera_wraps_the_world() {
    let mut world = World::new();
    world.camera = Some(Vec2::new(1_000_000, 0));
    world.spawn(rock(3_000_001, 0));
    world.spawn(rock(3_000_000, 0));
    world.spawn(Entity::new(Transform::from_translation(Vec2::new(8_000_000, 0))));
    wrap_around_camera(&mut world);
    assert_eq!(world.entities[0].transform.translation, Vec2::new(-999_999, 0));
    assert_eq!(world.entities[1].transform.translation, Vec2::new(3_000_000, 0));
    assert_eq!(world.entities[2].transform.translation, Vec2::new(8_000_000, 0));
}

#[test]
fn the_viewpoint_follows_the_only_player() {
    let mut world = World::new();
    world.camera = Some(Vec2::new(0, 0));
    world.spawn(rock(5, 5));
    let mut player = player_entity();
    player.transform.translation = Vec2::new(123_000, -456_000);
    world.spawn(player);
    assert_eq!(find_sole_player(&world.entities), Some(1));
    camera_follow(&mut world);
    assert_eq!(world.camera, Some(Vec2::new(123_000, -456_000)));
}

#[test]
fn without_a_player_the_viewpoint_stays() {
    let mut world = World::new();
    world.camera = Some(Vec2::new(7, 8));
    world.spawn(rock(5, 5));
    assert_eq!(find_sole_player(&world.entities), None);
    camera_follow(&mut world);
    assert_eq!(world.camera, Some(Vec2::new(7, 8)));
}

#[test]
fn with_two_players_the_viewpoint_stays() {
    let mut world = World::new();
    world.camera = Some(Vec2::new(7, 8));
    let mut one = player_entity();
    one.transform.translation = Vec2::new(1_000, 0);
    let mut two = Entity::new(Transform::from_translation(Vec2::new(2_000, 0)));
    two.player = Some(Player { speed: 1 });
    world.spawn(one);
    world.spawn(two);
    assert_eq!(find_sole_player(&world.entities), None);
    camera_follow(&mut world);
    assert_eq!(world.camera, Some(Vec2::new(7, 8)));
}

#[test]
fn without_a_viewpoint_nothing_follows() {
    let mut world = World::new();
    world.spawn(player_entity());
    camera_follow(&mut world);
    assert_eq!(world.camera, None);
}

#[test]
fn wrapping_the_world_twice_changes_nothing_more() {
    let mut world = World::new();
    world.camera = Some(Vec2::new(1_000_000, -1_000_000));
    world.spawn(rock(7_000_000, -7_000_000));
    world.spawn(rock(-5_000_000, 5_000_000));
    world.spawn(rock(3_000_000, 1_000_000));
    world.spawn(rock(1_500_000, -500_000));
    wrap_around_camera(&mut world);
    let once = world.entities.clone();
    assert_eq!(once[0].transform.translation, Vec2::new(3_000_000, -3_000_000));
    assert_eq!(once[1].transform.translation, Vec2::new(-1_000_000, 1_000_000));
    assert_eq!(once[2].transform.translation, Vec2::new(3_000_000, 1_000_000));
    assert_eq!(once[3].transform.translation, Vec2::new(1_500_000, -500_000));
    wrap_around_camera(&mut world);
    assert_eq!(world.entities, once);
}

#[test]
fn next_to_the_limit_a_wrapped_entity_still_ends_near_the_viewpoint() {
    let limit = sinirust::fixed::COORD_LIMIT;
    let mut world = World::new();
    world.camera = Some(Vec2::new(-limit, 0));
    world.spawn(rock(-limit + 2_000_001, 0));
    wrap_around_camera(&mut world);
    // one world to the left would be outside the range: it stops at the limit
    assert_eq!(world.entities[0].transform.translation, Vec2::new(-limit, 0));
    let once = world.entities.clone();
    wrap_around_camera(&mut world);
    assert_eq!(world.entities, once);
}
