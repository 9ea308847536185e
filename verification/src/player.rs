//! The player's ship.
use vstd::prelude::*;
use crate::camera::{find_sole_player, sole_player};
use crate::fixed::{div_trunc, lemma_mul_bounds, trunc_div, SCALE, SPEED_LIMIT};
use crate::health::Health;
use crate::navigation::{damp, damped};
use crate::physics::{Collider, Mass, Velocity};
use crate::shooting::{Gun, ShootMessage};
use crate::team::Team;
use crate::transform::Transform;
use crate::vec2::Vec2;
use crate::world::{Entity, World, WorldView};

verus! {

/// Forward acceleration of the player's ship under thrust.
pub const PLAYER_SPEED: i64 = 500_000;

/// Radius of the player's ship.
pub const PLAYER_RADIUS: i64 = 15_000;

/// Mass of the player's ship.
pub const PLAYER_MASS: i64 = 10_000;

/// Time between two shots of the player's gun.
pub const PLAYER_COOLDOWN: i64 = 500;

/// Speed of the player's projectiles.
pub const PLAYER_PROJECTILE_SPEED: i64 = 1_000_000;

/// Marks an entity as the player and holds its thrust.
#[derive(Clone, Copy, Debug, PartialEq, Eq)]
pub struct Player {
    /// Forward acceleration under thrust, per second.
    pub speed: i64,
}

impl Player {
    /// The thrust is not negative and not beyond the limit of accelerations.
    pub open spec fn wf(self) -> bool {
        0 <= self.speed <= SPEED_LIMIT
    }

    /// Tells whether the thrust is inside its range.
    pub fn is_wf(&self) -> (b: bool)
        ensures
            b == self.wf(),
    {
        0 <= self.speed && self.speed <= SPEED_LIMIT
    }
}

/// The controls for one tick. Turning and the loss of speed over time are
/// worked out by whoever reads the controls, and come in as the heading after
/// the turn and as the share of the velocity that is left.
#[derive(Clone, Copy, Debug, PartialEq, Eq)]
pub struct PlayerInput {
    /// Thrust forward.
    pub forward: bool,
    /// Thrust backward, at half the strength.
    pub back: bool,
    /// Pull the trigger.
    pub fire: bool,
    /// The way the ship faces after turning: a vector of length `SCALE`, or
    /// a little less by rounding, and never more.
    pub heading: Vec2,
    /// What is left of the velocity after this tick, in thousandths.
    pub damping: i64,
}

impl PlayerInput {
    /// The heading is no longer than a unit vector, and the damping is
    /// between nothing and all.
    pub open spec fn wf(self) -> bool {
        &&& self.heading.within(SCALE as int)
        &&& self.heading.length_squared() <= SCALE * SCALE
        &&& 0 <= self.damping <= SCALE
    }

    /// Tells whether heading and damping are inside their ranges.
    pub fn is_wf(&self) -> (b: bool)
        ensures
            b == self.wf(),
    {
        self.heading.is_no_longer_than(SCALE) && 0 <= self.damping && self.damping <= SCALE
    }
}

/// One coordinate of the velocity that `dt` milliseconds of thrust give:
/// `h` is that coordinate of the heading, `speed` the acceleration, and
/// `share` divides it (1 for full thrust, 2 for half).
pub open spec fn thrust_gain(h: int, speed: int, dt: int, share: int) -> int {
    trunc_div(h * speed * dt, share * SCALE * SCALE)
}

/// The velocity of a ship that faces along `input.heading` after `dt`
/// milliseconds under the controls: thrust forward adds to it along the
/// heading, thrust backward takes half as much away, and `input.damping` of
/// the result is left.
pub open spec fn thrusted(v: Vec2, speed: int, input: PlayerInput, dt: int) -> Vec2 {
    let v1 = if input.forward {
        v.plus_saturating(
            thrust_gain(input.heading.x as int, speed, dt, 1),
            thrust_gain(input.heading.y as int, speed, dt, 1),
            SPEED_LIMIT as int,
        )
    } else {
        v
    };
    let v2 = if input.back {
        v1.plus_saturating(
            -thrust_gain(input.heading.x as int, speed, dt, 2),
            -thrust_gain(input.heading.y as int, speed, dt, 2),
            SPEED_LIMIT as int,
        )
    } else {
        v1
    };
    damped(v2, input.damping as int)
}

/// The player's ship after `dt` milliseconds under the controls: it faces
/// along `input.heading` and its velocity has changed with the thrust. An
/// entity that is no player, or has no velocity, stays as it is.
pub open spec fn steered_by(e: Entity, input: PlayerInput, dt: int) -> Entity {
    match (e.player, e.velocity) {
        (Some(p), Some(v)) => Entity {
            transform: Transform { heading: input.heading, ..e.transform },
            velocity: Some(Velocity(thrusted(v.0, p.speed as int, input, dt))),
            ..e
        },
        _ => e,
    }
}

/// The world after the controls were applied for `dt` milliseconds. If
/// there is exactly one player and it has a velocity, it turns and thrusts as
/// the controls say, and if the trigger is pulled, a request that it fire is
/// added. Otherwise nothing happens.
pub open spec fn after_player_input(w: WorldView, input: PlayerInput, dt: int) -> WorldView {
    match sole_player(w.entities) {
        Some(p) => if w.entities[p].velocity is Some {
            WorldView {
                entities: w.entities.update(p, steered_by(w.entities[p], input, dt)),
                messages: if input.fire {
                    w.messages.push(ShootMessage { entity: p as usize })
                } else {
                    w.messages
                },
                ..w
            }
        } else {
            w
        },
        None => w,
    }
}

/// The velocity gained by thrust is bounded by acceleration times time.
proof fn lemma_thrust_gain_bounds(h: int, speed: int, dt: int, share: int)
    requires
        -SCALE <= h <= SCALE,
        0 <= speed <= SPEED_LIMIT,
        0 <= dt <= 0xffff_ffff,
        1 <= share <= 2,
    ensures
        -(SCALE * SPEED_LIMIT * 0xffff_ffff) <= h * speed * dt <= SCALE * SPEED_LIMIT
            * 0xffff_ffff,
        -(SCALE * SPEED_LIMIT * 0xffff_ffff) <= thrust_gain(h, speed, dt, share) <= SCALE
            * SPEED_LIMIT * 0xffff_ffff,
{
    lemma_mul_bounds(h, speed, SCALE as int, SPEED_LIMIT as int);
    lemma_mul_bounds(h * speed, dt, SCALE * SPEED_LIMIT, 0xffff_ffff);
}

/// Applies the controls to a ship for `dt` milliseconds.
pub fn steer_player(e: &Entity, input: &PlayerInput, dt: u32) -> (r: Entity)
    requires
        e.wf(),
        input.wf(),
    ensures
        r == steered_by(*e, *input, dt as int),
        r.wf(),
{
    match (e.player, e.velocity) {
        (Some(p), Some(v)) => {
            let hx: i128 = input.heading.x as i128;
            let hy: i128 = input.heading.y as i128;
            let speed: i128 = p.speed as i128;
            let t: i128 = dt as i128;
            let unit: i128 = SCALE as i128 * SCALE as i128;
            proof {
                lemma_thrust_gain_bounds(hx as int, speed as int, t as int, 1);
                lemma_thrust_gain_bounds(hy as int, speed as int, t as int, 1);
                lemma_mul_bounds(hx as int, speed as int, SCALE as int, SPEED_LIMIT as int);
                lemma_mul_bounds(hy as int, speed as int, SCALE as int, SPEED_LIMIT as int);
            }
            let mut nv = v.0;
            if input.forward {
                nv = nv.add_saturating(
                    div_trunc(hx * speed * t, unit),
                    div_trunc(hy * speed * t, unit),
                    SPEED_LIMIT,
                );
            }
            if input.back {
                nv = nv.add_saturating(
                    -div_trunc(hx * speed * t, 2 * unit),
                    -div_trunc(hy * speed * t, 2 * unit),
                    SPEED_LIMIT,
                );
            }
            let mut r = *e;
            r.transform.heading = input.heading;
            r.velocity = Some(Velocity(damp(&nv, input.damping)));
            r
        },
        _ => *e,
    }
}

/// Applies the controls for `dt` milliseconds. If there is exactly one
/// player and it has a velocity, it faces along `input.heading`, gains
/// velocity along it under forward thrust and loses half as much under
/// backward thrust, and keeps `input.damping` of the result; and if the
/// trigger is pulled, a request that it fire is added. Otherwise nothing
/// happens.
pub fn player_input(world: &mut World, input: &PlayerInput, dt: u32)
    requires
        old(world).wf(),
        input.wf(),
    ensures
        final(world).wf(),
        final(world)@ == after_player_input(old(world)@, *input, dt as int),
{
    match find_sole_player(&world.entities) {
        Some(p) => {
            if world.entities[p].velocity.is_some() {
                let e = steer_player(&world.entities[p], input, dt);
                world.entities[p] = e;
                if input.fire {
                    world.messages.push(ShootMessage { entity: p });
                }
            }
        },
        None => {},
    }
}

/// The player's ship as the game starts: at rest at the origin, facing up,
/// with a gun that is ready.
pub open spec fn player_at_start() -> Entity {
    Entity {
        player: Some(Player { speed: PLAYER_SPEED }),
        velocity: Some(Velocity(Vec2 { x: 0, y: 0 })),
        collider: Some(Collider { radius: PLAYER_RADIUS }),
        mass: Some(Mass(PLAYER_MASS)),
        gun: Some(
            Gun { cooldown: PLAYER_COOLDOWN, timer: 0, projectile_speed: PLAYER_PROJECTILE_SPEED },
        ),
        health: Some(Health(1)),
        team: Some(Team::Player),
        ..Entity::bare(Transform::at(Vec2 { x: 0, y: 0 }))
    }
}

/// The player's ship as the game starts.
pub fn player_entity() -> (e: Entity)
    ensures
        e == player_at_start(),
        e.wf(),
{
    let mut e = Entity::new(Transform::from_translation(Vec2 { x: 0, y: 0 }));
    e.player = Some(Player { speed: PLAYER_SPEED });
    e.velocity = Some(Velocity(Vec2 { x: 0, y: 0 }));
    e.collider = Some(Collider { radius: PLAYER_RADIUS });
    e.mass = Some(Mass(PLAYER_MASS));
    e.gun = Some(
        Gun { cooldown: PLAYER_COOLDOWN, timer: 0, projectile_speed: PLAYER_PROJECTILE_SPEED },
    );
    e.health = Some(Health(1));
    e.team = Some(Team::Player);
    e
}

/// Adds the player's ship behind the other entities and returns its index.
pub fn spawn_player(world: &mut World) -> (id: usize)
    requires
        old(world).wf(),
    ensures
        final(world).wf(),
        id == old(world)@.entities.len(),
        final(world)@ == old(world)@.with_spawned(player_at_start()),
{
    let id = world.entities.len();
    world.spawn(player_entity());
    id
}

} // verus!
