//! Goal points, and steering toward them.
use vstd::prelude::*;
use rand::rngs::ThreadRng;
use crate::fixed::{
    div_trunc, fine_length, integer_sqrt_up, lemma_fine_length_covers, lemma_mul_bounds,
    lemma_trunc_div_shrinks, trunc_div, COORD_LIMIT, POINT_LIMIT, SCALE, SPEED_LIMIT,
};
use crate::physics::Velocity;
use crate::rng::random_range;
use crate::transform::Transform;
use crate::vec2::Vec2;
use crate::world::Entity;

verus! {

/// What is left of a velocity after a tick of steering, in thousandths.
pub const CRUISE_DAMPING: i64 = 980;

/// What is left of a velocity on arrival, in thousandths.
pub const ARRIVAL_DAMPING: i64 = 900;

/// The speed above which an agent faces the way it moves.
pub const HEADING_SPEED: i64 = 1_000;

/// How far from an agent, on each axis, a random goal may lie.
pub const ROAM_RANGE: i64 = 800_000;

/// The point an agent steers toward. An agent has a goal exactly while it
/// carries this component; taking it away is how arrival is signalled.
#[derive(Clone, Copy, Debug, PartialEq, Eq)]
pub struct NavigationTarget(pub Vec2);

impl NavigationTarget {
    /// The goal lies inside the range of points.
    pub open spec fn wf(self) -> bool {
        self.0.within(POINT_LIMIT as int)
    }

    /// Tells whether the goal lies inside the range of points.
    pub fn is_wf(&self) -> (b: bool)
        ensures
            b == self.wf(),
    {
        self.0.is_within(POINT_LIMIT)
    }
}

/// `o` can be one coordinate of the offset of a random goal.
pub open spec fn is_roam_offset(o: int) -> bool {
    -ROAM_RANGE <= o < ROAM_RANGE
}

/// The goal at offset `(ox, oy)` from `position`.
pub open spec fn roam_target(position: Vec2, ox: int, oy: int) -> NavigationTarget {
    NavigationTarget(Vec2 { x: (position.x + ox) as i64, y: (position.y + oy) as i64 })
}

/// `after` is `before` sent roaming: it has been given a goal at a random
/// offset from where it is, and is otherwise the same.
pub open spec fn sent_roaming(before: Entity, after: Entity) -> bool {
    exists|ox: int, oy: int|
        is_roam_offset(ox) && is_roam_offset(oy) && after == (Entity {
            navigation_target: Some(#[trigger] roam_target(before.transform.translation, ox, oy)),
            ..before
        })
}

/// A velocity of which `permille` thousandths are left.
pub open spec fn damped(v: Vec2, permille: int) -> Vec2 {
    Vec2 {
        x: trunc_div(v.x * permille, SCALE as int) as i64,
        y: trunc_div(v.y * permille, SCALE as int) as i64,
    }
}

/// One coordinate of the velocity gained in `dt` milliseconds by
/// accelerating at `acceleration` toward a goal: `d` is that coordinate of the
/// offset to the goal, `dd` the squared distance to it. The distance is taken
/// to a thousandth of a step and rounded up, so that the gain is right for
/// near goals too and never more than `acceleration * dt`. A goal at no
/// distance gives no direction, and nothing is gained.
pub open spec fn thrust_component(d: int, acceleration: int, dt: int, dd: int) -> int {
    if dd == 0 {
        0
    } else {
        trunc_div(d * acceleration * dt, fine_length(dd, SCALE as int))
    }
}

/// The velocity after `dt` milliseconds of accelerating at `acceleration`
/// from `position` toward `target`, damping included.
pub open spec fn accelerated(
    v: Vec2,
    position: Vec2,
    target: Vec2,
    acceleration: int,
    dt: int,
) -> Vec2 {
    let dx = target.x - position.x;
    let dy = target.y - position.y;
    let dd = dx * dx + dy * dy;
    damped(
        v.plus_saturating(
            thrust_component(dx, acceleration, dt, dd),
            thrust_component(dy, acceleration, dt, dd),
            SPEED_LIMIT as int,
        ),
        CRUISE_DAMPING as int,
    )
}

/// The heading of an agent that moves at `v`: along `v` if it is faster than
/// `HEADING_SPEED`, and as before otherwise.
pub open spec fn heading_after(heading: Vec2, v: Vec2) -> Vec2 {
    if v.length_squared() > HEADING_SPEED * HEADING_SPEED {
        v.normalized()
    } else {
        heading
    }
}

/// An agent with a velocity and a goal after `dt` milliseconds of steering.
/// On arrival it loses its goal and most of its velocity. Otherwise it
/// accelerates toward the goal and turns to face the way it moves.
pub open spec fn steered(e: Entity, acceleration: int, arrived: bool, dt: int) -> Entity {
    let v = e.velocity.unwrap().0;
    if arrived {
        Entity {
            navigation_target: None,
            velocity: Some(Velocity(damped(v, ARRIVAL_DAMPING as int))),
            ..e
        }
    } else {
        let nv = accelerated(
            v,
            e.transform.translation,
            e.navigation_target.unwrap().0,
            acceleration,
            dt,
        );
        Entity {
            velocity: Some(Velocity(nv)),
            transform: Transform { heading: heading_after(e.transform.heading, nv), ..e.transform },
            ..e
        }
    }
}

/// The goal at offset `(ox, oy)` from `position`.
pub fn roam_from(position: Vec2, ox: i64, oy: i64) -> (t: NavigationTarget)
    requires
        position.within(COORD_LIMIT as int),
        is_roam_offset(ox as int),
        is_roam_offset(oy as int),
    ensures
        t == roam_target(position, ox as int, oy as int),
        t.wf(),
{
    NavigationTarget(Vec2 { x: position.x + ox, y: position.y + oy })
}

/// A goal at a random offset from `position`, less than `ROAM_RANGE` away on
/// each axis.
pub fn pick_roam_target(rng: &mut ThreadRng, position: Vec2) -> (t: NavigationTarget)
    requires
        position.within(COORD_LIMIT as int),
    ensures
        t.wf(),
        exists|ox: int, oy: int|
            is_roam_offset(ox) && is_roam_offset(oy) && t == #[trigger] roam_target(
                position,
                ox,
                oy,
            ),
{
    let ox = random_range(rng, -ROAM_RANGE, ROAM_RANGE);
    let oy = random_range(rng, -ROAM_RANGE, ROAM_RANGE);
    let t = roam_from(position, ox, oy);
    t
}

/// Leaves `permille` thousandths of a velocity.
pub fn damp(v: &Vec2, permille: i64) -> (r: Vec2)
    requires
        v.within(SPEED_LIMIT as int),
        0 <= permille <= SCALE,
    ensures
        r == damped(*v, permille as int),
        r.within(SPEED_LIMIT as int),
{
    proof {
        lemma_damped_bounds(v.x as int, permille as int);
        lemma_damped_bounds(v.y as int, permille as int);
    }
    Vec2 {
        x: div_trunc(v.x as i128 * permille as i128, SCALE as i128) as i64,
        y: div_trunc(v.y as i128 * permille as i128, SCALE as i128) as i64,
    }
}

/// Damping does not make a velocity larger.
proof fn lemma_damped_bounds(v: int, permille: int)
    by (nonlinear_arith)
    requires
        -SPEED_LIMIT <= v <= SPEED_LIMIT,
        0 <= permille <= SCALE,
    ensures
        -SPEED_LIMIT <= trunc_div(v * permille, SCALE as int) <= SPEED_LIMIT,
{
}

/// Steers an agent for `dt` milliseconds. If it `arrived`, its goal is taken
/// away and `ARRIVAL_DAMPING` of its velocity is left. Otherwise it gains
/// `acceleration * dt` of velocity toward the goal (nothing, if it is at the
/// goal), of which `CRUISE_DAMPING` is left, and if it is then faster than
/// `HEADING_SPEED` it faces the way it moves.
pub fn steer(e: &Entity, acceleration: i64, arrived: bool, dt: u32) -> (r: Entity)
    requires
        e.wf(),
        e.velocity is Some,
        e.navigation_target is Some,
        0 <= acceleration <= SPEED_LIMIT,
    ensures
        r == steered(*e, acceleration as int, arrived, dt as int),
        r.wf(),
{
    match (e.velocity, e.navigation_target) {
        (Some(v), Some(target)) => {
            let mut r = *e;
            if arrived {
                r.navigation_target = None;
                r.velocity = Some(Velocity(damp(&v.0, ARRIVAL_DAMPING)));
                return r;
            }
            let position = e.transform.translation;
            let dx: i128 = target.0.x as i128 - position.x as i128;
            let dy: i128 = target.0.y as i128 - position.y as i128;
            let dd: i128 = position.distance_squared_to(&target.0);
            let a: i128 = acceleration as i128;
            let t: i128 = dt as i128;
            proof {
                lemma_mul_bounds(dx as int, dx as int, 3 * COORD_LIMIT, 3 * COORD_LIMIT);
                lemma_mul_bounds(dy as int, dy as int, 3 * COORD_LIMIT, 3 * COORD_LIMIT);
                lemma_mul_bounds(dx as int, a as int, 3 * COORD_LIMIT, SPEED_LIMIT as int);
                lemma_mul_bounds(dy as int, a as int, 3 * COORD_LIMIT, SPEED_LIMIT as int);
                lemma_mul_bounds(dx * a, t as int, 3 * COORD_LIMIT * SPEED_LIMIT, 0xffff_ffff);
                lemma_mul_bounds(dy * a, t as int, 3 * COORD_LIMIT * SPEED_LIMIT, 0xffff_ffff);
            }
            let mut tx: i128 = 0;
            let mut ty: i128 = 0;
            if dd != 0 {
                proof {
                    lemma_fine_length_covers(dx as int, dx as int, dy as int, SCALE as int);
                }
                let len: i128 = integer_sqrt_up((dd * 1_000 * 1_000) as u128) as i128;
                tx = div_trunc(dx * a * t, len);
                ty = div_trunc(dy * a * t, len);
                proof {
                    lemma_trunc_div_shrinks(dx * a * t, len as int);
                    lemma_trunc_div_shrinks(dy * a * t, len as int);
                }
            }
            let nv = damp(&v.0.add_saturating(tx, ty, SPEED_LIMIT), CRUISE_DAMPING);
            r.velocity = Some(Velocity(nv));
            proof {
                lemma_mul_bounds(nv.x as int, nv.x as int, SPEED_LIMIT as int, SPEED_LIMIT as int);
                lemma_mul_bounds(nv.y as int, nv.y as int, SPEED_LIMIT as int, SPEED_LIMIT as int);
            }
            let speed_squared: i128 = nv.x as i128 * nv.x as i128 + nv.y as i128 * nv.y as i128;
            if speed_squared > (HEADING_SPEED as i128) * (HEADING_SPEED as i128) {
                r.transform.heading = nv.normalize_or_zero();
            }
            r
        },
        _ => *e,
    }
}

} // verus!
