//! Warriors: agents that roam and attack the player on sight.
use vstd::prelude::*;
use rand::rngs::ThreadRng;
use crate::fixed::{lemma_mul_bounds, COORD_LIMIT, RADIUS_LIMIT, SPEED_LIMIT};
use crate::health::Health;
use crate::navigation::{pick_roam_target, sent_roaming, steer, steered, NavigationTarget};
use crate::physics::{Collider, Mass, Velocity};
use crate::rng::random_range;
use crate::search::{first_index, lemma_first_index_agrees, lemma_first_index_found};
use crate::shooting::{Gun, ShootMessage};
use crate::team::Team;
use crate::transform::Transform;
use crate::vec2::{distance_squared, Vec2};
use crate::worker::AGENT_SPREAD;
use crate::world::{
    grown_by, lemma_grown_by_nothing, lemma_grown_by_one_more, Entity, World, WorldView,
};

verus! {

/// Radius of a warrior, and the distance at which it has reached its goal.
pub const WARRIOR_RADIUS: i64 = 12_000;

/// Number of warriors at the start.
pub const WARRIOR_COUNT: usize = 5;

/// Mass of a warrior.
pub const WARRIOR_MASS: i64 = 6_000;

/// Acceleration of a warrior.
pub const WARRIOR_ACCELERATION: i64 = 200_000;

/// How far a warrior can see.
pub const WARRIOR_DETECTION_RADIUS: i64 = 500_000;

/// Time between two shots of a warrior's gun.
pub const WARRIOR_COOLDOWN: i64 = 3_000;

/// Speed of a warrior's projectiles.
pub const WARRIOR_PROJECTILE_SPEED: i64 = 500_000;

/// Marks an entity as a warrior and holds its abilities.
#[derive(Clone, Copy, Debug, PartialEq, Eq)]
pub struct Warrior {
    /// Acceleration toward the goal, per second.
    pub acceleration: i64,
    /// How far the warrior can see.
    pub detection_radius: i64,
}

impl Warrior {
    /// Acceleration and detection radius are not negative and not beyond
    /// their limits.
    pub open spec fn wf(self) -> bool {
        &&& 0 <= self.acceleration <= SPEED_LIMIT
        &&& 0 <= self.detection_radius <= RADIUS_LIMIT
    }

    /// Tells whether acceleration and detection radius are inside their
    /// ranges.
    pub fn is_wf(&self) -> (b: bool)
        ensures
            b == self.wf(),
    {
        0 <= self.acceleration && self.acceleration <= SPEED_LIMIT && 0 <= self.detection_radius
            && self.detection_radius <= RADIUS_LIMIT
    }
}

/// A warrior at `position`: a small armed enemy at rest.
pub open spec fn warrior_at(position: Vec2) -> Entity {
    Entity {
        warrior: Some(
            Warrior {
                acceleration: WARRIOR_ACCELERATION,
                detection_radius: WARRIOR_DETECTION_RADIUS,
            },
        ),
        velocity: Some(Velocity(Vec2 { x: 0, y: 0 })),
        collider: Some(Collider { radius: WARRIOR_RADIUS }),
        mass: Some(Mass(WARRIOR_MASS)),
        gun: Some(
            Gun {
                cooldown: WARRIOR_COOLDOWN,
                timer: 0,
                projectile_speed: WARRIOR_PROJECTILE_SPEED,
            },
        ),
        health: Some(Health(1)),
        team: Some(Team::Enemy),
        ..Entity::bare(Transform::at(position))
    }
}

/// `e` is a warrior as the start of the game places them: somewhere within
/// `AGENT_SPREAD` of the origin.
pub open spec fn placed_warrior(e: Entity) -> bool {
    &&& e == warrior_at(e.transform.translation)
    &&& -AGENT_SPREAD <= e.transform.translation.x < AGENT_SPREAD
    &&& -AGENT_SPREAD <= e.transform.translation.y < AGENT_SPREAD
}

/// A warrior at `position`.
pub fn warrior_entity(position: Vec2) -> (e: Entity)
    ensures
        e == warrior_at(position),
        position.within(COORD_LIMIT as int) ==> e.wf(),
{
    let mut e = Entity::new(Transform::from_translation(position));
    e.warrior = Some(
        Warrior { acceleration: WARRIOR_ACCELERATION, detection_radius: WARRIOR_DETECTION_RADIUS },
    );
    e.velocity = Some(Velocity(Vec2 { x: 0, y: 0 }));
    e.collider = Some(Collider { radius: WARRIOR_RADIUS });
    e.mass = Some(Mass(WARRIOR_MASS));
    e.gun = Some(
        Gun { cooldown: WARRIOR_COOLDOWN, timer: 0, projectile_speed: WARRIOR_PROJECTILE_SPEED },
    );
    e.health = Some(Health(1));
    e.team = Some(Team::Enemy);
    e
}

/// Places `WARRIOR_COUNT` warriors at random within `AGENT_SPREAD` of the
/// origin.
pub fn spawn_warriors(world: &mut World)
    requires
        old(world).wf(),
    ensures
        final(world).wf(),
        grown_by(old(world)@, final(world)@, WARRIOR_COUNT as int, |e: Entity| placed_warrior(e)),
{
    let mut rng = rand::rng();
    let mut i: usize = 0;
    proof {
        lemma_grown_by_nothing(world@, |e: Entity| placed_warrior(e));
    }
    while i < WARRIOR_COUNT
        invariant
            i <= WARRIOR_COUNT,
            world.wf(),
            grown_by(old(world)@, world@, i as int, |e: Entity| placed_warrior(e)),
        decreases WARRIOR_COUNT - i,
    {
        let ghost before = world@;
        let px = random_range(&mut rng, -AGENT_SPREAD, AGENT_SPREAD);
        let py = random_range(&mut rng, -AGENT_SPREAD, AGENT_SPREAD);
        let e = warrior_entity(Vec2 { x: px, y: py });
        world.spawn(e);
        proof {
            lemma_grown_by_one_more(
                old(world)@,
                before,
                world@,
                i as int,
                |e: Entity| placed_warrior(e),
                e,
            );
        }
        i += 1;
    }
}

/// `p` is a player that the warrior `e` can see: no further away than its
/// detection radius.
pub open spec fn in_sight(e: Entity, p: Entity) -> bool {
    p.player is Some && distance_squared(e.transform.translation, p.transform.translation)
        <= e.warrior.unwrap().detection_radius * e.warrior.unwrap().detection_radius
}

/// The player that the warrior `e` goes for: the first that it can see, in
/// the order of the indices. Distance makes no difference among those in
/// sight.
pub open spec fn sighted_player(s: Seq<Entity>, e: Entity) -> Option<int> {
    first_index(|p: int| in_sight(e, s[p]), s.len() as int)
}

/// The warrior with the position of `player` as its goal.
pub open spec fn pursuing(e: Entity, player: Entity) -> Entity {
    Entity { navigation_target: Some(NavigationTarget(player.transform.translation)), ..e }
}

/// `after` is what a warrior's decision can make of `before` among the
/// entities `s`. A warrior that sees a player takes the player's position as
/// its goal. One that sees none keeps the goal it has, or is sent roaming if it
/// has none. What is no warrior stays as it is.
pub open spec fn warrior_decided(s: Seq<Entity>, before: Entity, after: Entity) -> bool {
    if before.warrior is Some {
        match sighted_player(s, before) {
            Some(p) => after == pursuing(before, s[p]),
            None => if before.navigation_target is Some {
                after == before
            } else {
                sent_roaming(before, after)
            },
        }
    } else {
        after == before
    }
}

/// Entity `i` is a warrior that sees a player.
pub open spec fn sights(s: Seq<Entity>, i: int) -> bool {
    0 <= i < s.len() && s[i].warrior is Some && sighted_player(s, s[i]) is Some
}

/// The fire requests of the warriors among the first `n` entities: one for
/// each that sees a player, in the order of the indices.
pub open spec fn fire_requests(s: Seq<Entity>, n: int) -> Seq<ShootMessage>
    decreases n,
{
    if n <= 0 {
        Seq::empty()
    } else if sights(s, n - 1) {
        fire_requests(s, n - 1).push(ShootMessage { entity: (n - 1) as usize })
    } else {
        fire_requests(s, n - 1)
    }
}

/// `after` is what the decision of entity `id` can make of `before`: the
/// entity has decided as a warrior does, and if it sees a player, a request
/// that it fire has been added. An index that names no entity changes
/// nothing.
pub open spec fn target_updated(before: WorldView, after: WorldView, id: int) -> bool {
    if 0 <= id < before.entities.len() {
        &&& after.entities == before.entities.update(id, after.entities[id])
        &&& warrior_decided(before.entities, before.entities[id], after.entities[id])
        &&& after.messages == if sights(before.entities, id) {
            before.messages.push(ShootMessage { entity: id as usize })
        } else {
            before.messages
        }
        &&& after.score == before.score
        &&& after.sinibombs == before.sinibombs
        &&& after.camera == before.camera
    } else {
        after == before
    }
}

/// `after` is what the warriors' decisions can make of `before`: every
/// warrior has decided, and each that sees a player has asked to fire.
pub open spec fn warrior_ai_outcome(before: WorldView, after: WorldView) -> bool {
    &&& after.entities.len() == before.entities.len()
    &&& forall|i: int|
        0 <= i < before.entities.len() ==> warrior_decided(
            before.entities,
            before.entities[i],
            #[trigger] after.entities[i],
        )
    &&& after.messages == before.messages + fire_requests(
        before.entities,
        before.entities.len() as int,
    )
    &&& after.score == before.score
    &&& after.sinibombs == before.sinibombs
    &&& after.camera == before.camera
}

/// Tells whether `p` is a player that the warrior `e` can see.
pub fn is_in_sight(e: &Entity, p: &Entity) -> (b: bool)
    requires
        e.wf(),
        p.wf(),
        e.warrior is Some,
    ensures
        b == in_sight(*e, *p),
{
    match (e.warrior, p.player) {
        (Some(w), Some(_)) => {
            proof {
                lemma_mul_bounds(
                    w.detection_radius as int,
                    w.detection_radius as int,
                    RADIUS_LIMIT as int,
                    RADIUS_LIMIT as int,
                );
            }
            let range: i128 = w.detection_radius as i128;
            e.transform.translation.distance_squared_to(&p.transform.translation) <= range * range
        },
        _ => false,
    }
}

/// The first player that the warrior `id` can see.
fn find_sighted_player(entities: &Vec<Entity>, id: usize) -> (r: Option<usize>)
    requires
        id < entities.len(),
        entities@[id as int].warrior is Some,
        forall|k: int| 0 <= k < entities.len() ==> (#[trigger] entities@[k]).wf(),
    ensures
        match r {
            Some(p) => p < entities.len() && sighted_player(entities@, entities@[id as int])
                == Some(p as int),
            None => sighted_player(entities@, entities@[id as int]) is None,
        },
{
    let ghost seen = |p: int| in_sight(entities@[id as int], entities@[p]);
    let n = entities.len();
    let mut p: usize = 0;
    while p < n
        invariant
            p <= n,
            n == entities.len(),
            id < n,
            entities@[id as int].warrior is Some,
            seen == |p: int| in_sight(entities@[id as int], entities@[p]),
            forall|k: int| 0 <= k < entities.len() ==> (#[trigger] entities@[k]).wf(),
            forall|k: int| 0 <= k < p ==> !#[trigger] seen(k),
        decreases n - p,
    {
        if is_in_sight(&entities[id], &entities[p]) {
            proof {
                lemma_first_index_found(seen, n as int, p as int);
            }
            return Some(p);
        }
        p += 1;
    }
    None
}

/// Lets entity `id` decide as a warrior. If it sees a player, the first in
/// the order of the indices, it takes that player's position as its goal and
/// asks to fire. If it sees none and has no goal, it is given one at a random
/// offset; if it has one, it keeps it. What is no warrior stays as it is, and
/// an index that names no entity is ignored.
pub fn update_target(world: &mut World, id: usize, rng: &mut ThreadRng)
    requires
        old(world).wf(),
    ensures
        final(world).wf(),
        target_updated(old(world)@, final(world)@, id as int),
{
    if id >= world.entities.len() {
        return ;
    }
    assert(world@.entities[id as int].wf());
    let e = world.entities[id];
    if e.warrior.is_none() {
        assert(world@.entities =~= old(world)@.entities.update(id as int, world@.entities[id as int]));
        return ;
    }
    match find_sighted_player(&world.entities, id) {
        Some(p) => {
            let mut r = e;
            r.navigation_target = Some(NavigationTarget(world.entities[p].transform.translation));
            world.entities[id] = r;
            world.messages.push(ShootMessage { entity: id });
        },
        None => {
            if e.navigation_target.is_none() {
                let mut r = e;
                r.navigation_target = Some(pick_roam_target(rng, e.transform.translation));
                world.entities[id] = r;
            } else {
                assert(world@.entities =~= old(world)@.entities.update(
                    id as int,
                    world@.entities[id as int],
                ));
            }
        },
    }
}

/// Whom a warrior sees depends only on who is a player and where everything
/// is.
proof fn lemma_sight_depends_on_place(a: Seq<Entity>, b: Seq<Entity>, e: Entity)
    requires
        a.len() == b.len(),
        forall|k: int|
            0 <= k < a.len() ==> (#[trigger] a[k]).player == b[k].player && a[k].transform
                == b[k].transform,
    ensures
        sighted_player(a, e) == sighted_player(b, e),
        sighted_player(a, e) matches Some(p) ==> 0 <= p < a.len(),
{
    let pa = |p: int| in_sight(e, a[p]);
    let pb = |p: int| in_sight(e, b[p]);
    lemma_first_index_agrees(pa, pb, a.len() as int);
}

/// Lets every warrior decide where to go. A warrior that sees a player, no
/// further away than its detection radius, takes the position of the first
/// such player as its goal and asks to fire. One that sees none keeps its
/// goal, or is given one at a random offset if it has none.
pub fn warrior_ai(world: &mut World)
    requires
        old(world).wf(),
    ensures
        final(world).wf(),
        warrior_ai_outcome(old(world)@, final(world)@),
{
    let mut rng = rand::rng();
    let n = world.entities.len();
    let ghost s0 = world.entities@;
    let mut i: usize = 0;
    while i < n
        invariant
            i <= n,
            n == world.entities.len(),
            s0 == old(world).entities@,
            s0.len() == n,
            world@.messages == old(world)@.messages + fire_requests(s0, i as int),
            world@.score == old(world)@.score,
            world@.sinibombs == old(world)@.sinibombs,
            world@.camera == old(world)@.camera,
            world.wf(),
            forall|k: int| 0 <= k < i ==> warrior_decided(s0, s0[k], #[trigger] world.entities@[k]),
            forall|k: int| i <= k < n ==> #[trigger] world.entities@[k] == s0[k],
            forall|k: int|
                0 <= k < n ==> (#[trigger] world.entities@[k]).player == s0[k].player
                    && world.entities@[k].transform == s0[k].transform,
        decreases n - i,
    {
        let ghost before = world@;
        update_target(world, i, &mut rng);
        proof {
            lemma_sight_depends_on_place(before.entities, s0, s0[i as int]);
        }
        i += 1;
    }
}

/// The entity is a warrior under way: it has a velocity and a goal.
pub open spec fn navigating_warrior(e: Entity) -> bool {
    e.warrior is Some && e.velocity is Some && e.navigation_target is Some
}

/// The warrior is no further than `WARRIOR_RADIUS` from its goal.
pub open spec fn warrior_arrived(e: Entity) -> bool {
    distance_squared(e.transform.translation, e.navigation_target.unwrap().0) <= WARRIOR_RADIUS
        * WARRIOR_RADIUS
}

/// The entity after `dt` milliseconds of the warriors' steering.
pub open spec fn warrior_moved(e: Entity, dt: int) -> Entity {
    if navigating_warrior(e) {
        steered(e, e.warrior.unwrap().acceleration as int, warrior_arrived(e), dt)
    } else {
        e
    }
}

/// The world after `dt` milliseconds of the warriors' steering.
pub open spec fn after_warrior_movement(w: WorldView, dt: int) -> WorldView {
    WorldView { entities: w.entities.map_values(|e: Entity| warrior_moved(e, dt)), ..w }
}

/// Steers one warrior for `dt` milliseconds.
pub fn move_warrior(e: &Entity, dt: u32) -> (r: Entity)
    requires
        e.wf(),
    ensures
        r == warrior_moved(*e, dt as int),
        r.wf(),
{
    match (e.warrior, e.velocity, e.navigation_target) {
        (Some(w), Some(_), Some(target)) => {
            let reach: i128 = WARRIOR_RADIUS as i128;
            let dd = e.transform.translation.distance_squared_to(&target.0);
            let arrived = dd <= reach * reach;
            steer(e, w.acceleration, arrived, dt)
        },
        _ => *e,
    }
}

/// Steers every warrior that has a goal for `dt` milliseconds. A warrior no
/// further than `WARRIOR_RADIUS` from its goal has arrived: it loses the goal
/// and slows down. Any other accelerates toward its goal.
pub fn warrior_movement(world: &mut World, dt: u32)
    requires
        old(world).wf(),
    ensures
        final(world).wf(),
        final(world)@ == after_warrior_movement(old(world)@, dt as int),
{
    let n = world.entities.len();
    let mut i: usize = 0;
    while i < n
        invariant
            i <= n,
            n == world.entities.len(),
            n == old(world).entities.len(),
            world.messages == old(world).messages,
            world.score == old(world).score,
            world.sinibombs == old(world).sinibombs,
            world.camera == old(world).camera,
            world.wf(),
            forall|k: int|
                0 <= k < i ==> #[trigger] world.entities@[k] == warrior_moved(
                    old(world).entities@[k],
                    dt as int,
                ),
            forall|k: int| i <= k < n ==> #[trigger] world.entities@[k] == old(world).entities@[k],
        decreases n - i,
    {
        assert(world@.entities[i as int].wf());
        let e = move_warrior(&world.entities[i], dt);
        world.entities[i] = e;
        i += 1;
    }
    assert(world@.entities =~= after_warrior_movement(old(world)@, dt as int).entities);
}

} // verus!
