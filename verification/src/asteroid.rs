//! Asteroids: neutral, destructible rocks that drop crystals.
use vstd::prelude::*;
use crate::camera::{WORLD_HEIGHT, WORLD_WIDTH, WrapsAroundCamera};
use crate::fixed::{COORD_LIMIT, SPEED_LIMIT};
use crate::health::Health;
use crate::physics::{Collider, Mass, Velocity};
use crate::rng::random_range;
use crate::team::Team;
use crate::transform::Transform;
use crate::vec2::Vec2;
use crate::world::{grown_by, lemma_grown_by_nothing, lemma_grown_by_one_more, Entity, World};

verus! {

/// Number of asteroids at the start.
pub const ASTEROID_COUNT: usize = 100;

/// Radius of an asteroid.
pub const ASTEROID_RADIUS: i64 = 30_000;

/// Mass of an asteroid.
pub const ASTEROID_MASS: i64 = 50_000;

/// Hits that an asteroid takes.
pub const ASTEROID_HEALTH: i32 = 3;

/// Bound of the velocity of a new asteroid, on each axis.
pub const ASTEROID_SPEED: i64 = 20_000;

/// Marks an entity as an asteroid.
#[derive(Clone, Copy, Debug, PartialEq, Eq)]
pub struct Asteroid;

/// An asteroid at `position` that drifts at `velocity`: a heavy neutral
/// body with some health, which wraps around the viewpoint.
pub open spec fn asteroid_at(position: Vec2, velocity: Vec2) -> Entity {
    Entity {
        asteroid: Some(Asteroid),
        velocity: Some(Velocity(velocity)),
        wraps_around_camera: Some(WrapsAroundCamera),
        collider: Some(Collider { radius: ASTEROID_RADIUS }),
        mass: Some(Mass(ASTEROID_MASS)),
        health: Some(Health(ASTEROID_HEALTH)),
        team: Some(Team::Neutral),
        ..Entity::bare(Transform::at(position))
    }
}

/// `e` is an asteroid as the start of the game scatters them: somewhere in
/// the world around the origin, drifting slowly.
pub open spec fn scattered_asteroid(e: Entity) -> bool {
    &&& e.velocity is Some
    &&& e == asteroid_at(e.transform.translation, e.velocity.unwrap().0)
    &&& -(WORLD_WIDTH / 2) <= e.transform.translation.x < WORLD_WIDTH / 2
    &&& -(WORLD_HEIGHT / 2) <= e.transform.translation.y < WORLD_HEIGHT / 2
    &&& -ASTEROID_SPEED <= e.velocity.unwrap().0.x < ASTEROID_SPEED
    &&& -ASTEROID_SPEED <= e.velocity.unwrap().0.y < ASTEROID_SPEED
}

/// An asteroid at `position` that drifts at `velocity`.
pub fn asteroid_entity(position: Vec2, velocity: Vec2) -> (e: Entity)
    ensures
        e == asteroid_at(position, velocity),
        position.within(COORD_LIMIT as int) && velocity.within(SPEED_LIMIT as int) ==> e.wf(),
{
    let mut e = Entity::new(Transform::from_translation(position));
    e.asteroid = Some(Asteroid);
    e.velocity = Some(Velocity(velocity));
    e.wraps_around_camera = Some(WrapsAroundCamera);
    e.collider = Some(Collider { radius: ASTEROID_RADIUS });
    e.mass = Some(Mass(ASTEROID_MASS));
    e.health = Some(Health(ASTEROID_HEALTH));
    e.team = Some(Team::Neutral);
    e
}

/// Scatters `ASTEROID_COUNT` asteroids over the world around the origin,
/// each at a random place and with a random slow drift.
pub fn spawn_asteroids(world: &mut World)
    requires
        old(world).wf(),
    ensures
        final(world).wf(),
        grown_by(
            old(world)@,
            final(world)@,
            ASTEROID_COUNT as int,
            |e: Entity| scattered_asteroid(e),
        ),
{
    let mut rng = rand::rng();
    let mut i: usize = 0;
    proof {
        lemma_grown_by_nothing(world@, |e: Entity| scattered_asteroid(e));
    }
    while i < ASTEROID_COUNT
        invariant
            i <= ASTEROID_COUNT,
            world.wf(),
            grown_by(old(world)@, world@, i as int, |e: Entity| scattered_asteroid(e)),
        decreases ASTEROID_COUNT - i,
    {
        let ghost before = world@;
        let px = random_range(&mut rng, -(WORLD_WIDTH / 2), WORLD_WIDTH / 2);
        let py = random_range(&mut rng, -(WORLD_HEIGHT / 2), WORLD_HEIGHT / 2);
        let vx = random_range(&mut rng, -ASTEROID_SPEED, ASTEROID_SPEED);
        let vy = random_range(&mut rng, -ASTEROID_SPEED, ASTEROID_SPEED);
        let e = asteroid_entity(Vec2 { x: px, y: py }, Vec2 { x: vx, y: vy });
        world.spawn(e);
        proof {
            lemma_grown_by_one_more(
                old(world)@,
                before,
                world@,
                i as int,
                |e: Entity| scattered_asteroid(e),
                e,
            );
        }
        i += 1;
    }
}

} // verus!
