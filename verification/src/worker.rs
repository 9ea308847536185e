//! Workers: agents that roam, find crystals and collect them.
use vstd::prelude::*;
use crate::crystal::loaded;
use crate::fixed::{lemma_mul_bounds, COORD_LIMIT, RADIUS_LIMIT, SPEED_LIMIT};
use crate::health::Health;
use crate::navigation::{pick_roam_target, sent_roaming, steer, steered, NavigationTarget};
use crate::physics::{Collider, Mass, Velocity};
use crate::rng::random_range;
use crate::team::Team;
use crate::transform::Transform;
use crate::vec2::{distance_squared, Vec2};
use crate::world::{
    grown_by, lemma_grown_by_nothing, lemma_grown_by_one_more, Entity, World, WorldView,
};

verus! {

/// The distance within which a worker notices a crystal, however far it can
/// see.
pub const WORKER_SIGHT: i64 = 200_000;

/// The distance from its goal under which a worker has arrived.
pub const WORKER_ARRIVAL: i64 = 20_000;

/// Number of workers at the start.
pub const WORKER_COUNT: usize = 20;

/// Radius of a worker.
pub const WORKER_RADIUS: i64 = 12_000;

/// Mass of a worker.
pub const WORKER_MASS: i64 = 5_000;

/// Acceleration of a worker.
pub const WORKER_SPEED: i64 = 200_000;

/// How far a worker can see.
pub const WORKER_DETECTION_RADIUS: i64 = 400_000;

/// How far from the origin, on each axis, agents are placed at the start.
pub const AGENT_SPREAD: i64 = 1_000_000;

/// Marks an entity as a worker.
#[derive(Clone, Copy, Debug, PartialEq, Eq)]
pub struct Worker;

/// Whether a worker carries a crystal. It carries at most one.
#[derive(Clone, Copy, Debug, PartialEq, Eq)]
pub struct HasCrystal(pub bool);

/// What a worker is doing.
#[derive(Clone, Copy, Debug, PartialEq, Eq, Structural)]
pub enum WorkerState {
    /// Wandering between random points.
    Roaming,
    /// Heading for a crystal it has seen.
    Collecting,
    /// Carrying a crystal.
    Returning,
}

/// Abilities of a worker.
#[derive(Clone, Copy, Debug, PartialEq, Eq)]
pub struct WorkerStats {
    /// Acceleration toward the goal, per second.
    pub speed: i64,
    /// How far the worker can see.
    pub detection_radius: i64,
}

impl WorkerStats {
    /// Acceleration and detection radius are not negative and not beyond
    /// their limits.
    pub open spec fn wf(self) -> bool {
        &&& 0 <= self.speed <= SPEED_LIMIT
        &&& 0 <= self.detection_radius <= RADIUS_LIMIT
    }

    /// Tells whether acceleration and detection radius are inside their
    /// ranges.
    pub fn is_wf(&self) -> (b: bool)
        ensures
            b == self.wf(),
    {
        0 <= self.speed && self.speed <= SPEED_LIMIT && 0 <= self.detection_radius
            && self.detection_radius <= RADIUS_LIMIT
    }
}

impl Default for WorkerState {
    /// A worker starts out roaming.
    fn default() -> (s: WorkerState)
        ensures
            s == WorkerState::Roaming,
    {
        WorkerState::Roaming
    }
}

impl Default for HasCrystal {
    /// A worker starts out with nothing.
    fn default() -> (h: HasCrystal)
        ensures
            h == HasCrystal(false),
    {
        HasCrystal(false)
    }
}

/// A worker at `position`: a small enemy at rest that roams and carries
/// nothing.
pub open spec fn worker_at(position: Vec2) -> Entity {
    Entity {
        worker: Some(Worker),
        worker_state: Some(WorkerState::Roaming),
        worker_stats: Some(
            WorkerStats { speed: WORKER_SPEED, detection_radius: WORKER_DETECTION_RADIUS },
        ),
        velocity: Some(Velocity(Vec2 { x: 0, y: 0 })),
        collider: Some(Collider { radius: WORKER_RADIUS }),
        mass: Some(Mass(WORKER_MASS)),
        health: Some(Health(1)),
        team: Some(Team::Enemy),
        has_crystal: Some(HasCrystal(false)),
        ..Entity::bare(Transform::at(position))
    }
}

/// `e` is a worker as the start of the game places them: somewhere within
/// `AGENT_SPREAD` of the origin.
pub open spec fn placed_worker(e: Entity) -> bool {
    &&& e == worker_at(e.transform.translation)
    &&& -AGENT_SPREAD <= e.transform.translation.x < AGENT_SPREAD
    &&& -AGENT_SPREAD <= e.transform.translation.y < AGENT_SPREAD
}

/// A worker at `position`.
pub fn worker_entity(position: Vec2) -> (e: Entity)
    ensures
        e == worker_at(position),
        position.within(COORD_LIMIT as int) ==> e.wf(),
{
    let mut e = Entity::new(Transform::from_translation(position));
    e.worker = Some(Worker);
    e.worker_state = Some(WorkerState::Roaming);
    e.worker_stats = Some(
        WorkerStats { speed: WORKER_SPEED, detection_radius: WORKER_DETECTION_RADIUS },
    );
    e.velocity = Some(Velocity(Vec2 { x: 0, y: 0 }));
    e.collider = Some(Collider { radius: WORKER_RADIUS });
    e.mass = Some(Mass(WORKER_MASS));
    e.health = Some(Health(1));
    e.team = Some(Team::Enemy);
    e.has_crystal = Some(HasCrystal(false));
    e
}

/// Places `WORKER_COUNT` workers at random within `AGENT_SPREAD` of the
/// origin.
pub fn spawn_workers(world: &mut World)
    requires
        old(world).wf(),
    ensures
        final(world).wf(),
        grown_by(old(world)@, final(world)@, WORKER_COUNT as int, |e: Entity| placed_worker(e)),
{
    let mut rng = rand::rng();
    let mut i: usize = 0;
    proof {
        lemma_grown_by_nothing(world@, |e: Entity| placed_worker(e));
    }
    while i < WORKER_COUNT
        invariant
            i <= WORKER_COUNT,
            world.wf(),
            grown_by(old(world)@, world@, i as int, |e: Entity| placed_worker(e)),
        decreases WORKER_COUNT - i,
    {
        let ghost before = world@;
        let px = random_range(&mut rng, -AGENT_SPREAD, AGENT_SPREAD);
        let py = random_range(&mut rng, -AGENT_SPREAD, AGENT_SPREAD);
        let e = worker_entity(Vec2 { x: px, y: py });
        world.spawn(e);
        proof {
            lemma_grown_by_one_more(
                old(world)@,
                before,
                world@,
                i as int,
                |e: Entity| placed_worker(e),
                e,
            );
        }
        i += 1;
    }
}

/// The entity is a roaming worker without a goal.
pub open spec fn idle_roamer(e: Entity) -> bool {
    e.worker is Some && e.worker_state == Some(WorkerState::Roaming) && e.navigation_target is None
}

/// `after` is what the roaming rule can make of `before`: every roaming
/// worker without a goal has been given one at a random offset, and nothing
/// else has changed.
pub open spec fn worker_roaming_outcome(before: WorldView, after: WorldView) -> bool {
    &&& after.entities.len() == before.entities.len()
    &&& forall|i: int|
        0 <= i < before.entities.len() ==> if idle_roamer(before.entities[i]) {
            sent_roaming(before.entities[i], #[trigger] after.entities[i])
        } else {
            after.entities[i] == before.entities[i]
        }
    &&& after.messages == before.messages
    &&& after.score == before.score
    &&& after.sinibombs == before.sinibombs
    &&& after.camera == before.camera
}

/// Gives every roaming worker that has no goal a new one, at a random
/// offset of less than `ROAM_RANGE` on each axis from where it is.
pub fn worker_roaming_ai(world: &mut World)
    requires
        old(world).wf(),
    ensures
        final(world).wf(),
        worker_roaming_outcome(old(world)@, final(world)@),
{
    let mut rng = rand::rng();
    let n = world.entities.len();
    let mut i: usize = 0;
    while i < n
        invariant
            i <= n,
            n == world.entities.len(),
            n == old(world).entities.len(),
            world.messages == old(world).messages,
            world.score == old(world).score,
            world.sinibombs == old(world).sinibombs,
            world.camera == old(world).camera,
            world.wf(),
            forall|k: int|
                0 <= k < i ==> if idle_roamer(old(world).entities@[k]) {
                    sent_roaming(old(world).entities@[k], #[trigger] world.entities@[k])
                } else {
                    world.entities@[k] == old(world).entities@[k]
                },
            forall|k: int| i <= k < n ==> #[trigger] world.entities@[k] == old(world).entities@[k],
        decreases n - i,
    {
        assert(world@.entities[i as int].wf());
        let e = world.entities[i];
        let roaming = e.worker.is_some() && e.navigation_target.is_none() && match e.worker_state {
            Some(state) => state == WorkerState::Roaming,
            None => false,
        };
        if roaming {
            let mut r = e;
            r.navigation_target = Some(pick_roam_target(&mut rng, e.transform.translation));
            world.entities[i] = r;
        }
        i += 1;
    }
}

/// The entity is a worker that looks out for crystals: it is roaming or
/// collecting, and carries nothing.
pub open spec fn senses(e: Entity) -> bool {
    &&& e.worker is Some
    &&& e.worker_stats is Some
    &&& e.has_crystal == Some(HasCrystal(false))
    &&& (e.worker_state == Some(WorkerState::Roaming) || e.worker_state == Some(
        WorkerState::Collecting,
    ))
}

/// The distance within which a worker with these abilities notices a crystal.
pub open spec fn sight(stats: WorkerStats) -> int {
    if stats.detection_radius < WORKER_SIGHT {
        stats.detection_radius as int
    } else {
        WORKER_SIGHT as int
    }
}

/// Entity `k` is the crystal closest to `position`, closer than `range`;
/// of several crystals equally close, it is the first.
pub open spec fn is_closest_crystal(s: Seq<Entity>, position: Vec2, range: int, k: int) -> bool {
    &&& 0 <= k < s.len()
    &&& s[k].crystal is Some
    &&& distance_squared(position, s[k].transform.translation) < range * range
    &&& forall|j: int|
        0 <= j < s.len() && (#[trigger] s[j]).crystal is Some ==> {
            &&& distance_squared(position, s[j].transform.translation) >= distance_squared(
                position,
                s[k].transform.translation,
            )
            &&& j < k ==> distance_squared(position, s[j].transform.translation)
                > distance_squared(position, s[k].transform.translation)
        }
}

/// The crystal closest to `position`, if one is closer than `range`.
pub open spec fn closest_crystal(s: Seq<Entity>, position: Vec2, range: int) -> Option<int> {
    if exists|k: int| is_closest_crystal(s, position, range, k) {
        Some(choose|k: int| is_closest_crystal(s, position, range, k))
    } else {
        None
    }
}

/// The entity after it has looked out for crystals among `s`. A worker that
/// senses and has a crystal in sight collects, with the closest crystal as
/// its goal. One that was collecting and has none in sight any more goes back
/// to roaming and loses its goal.
pub open spec fn sensed(s: Seq<Entity>, e: Entity) -> Entity {
    if senses(e) {
        match closest_crystal(s, e.transform.translation, sight(e.worker_stats.unwrap())) {
            Some(k) => Entity {
                worker_state: Some(WorkerState::Collecting),
                navigation_target: Some(NavigationTarget(s[k].transform.translation)),
                ..e
            },
            None => if e.worker_state == Some(WorkerState::Collecting) {
                Entity {
                    worker_state: Some(WorkerState::Roaming),
                    navigation_target: None,
                    ..e
                }
            } else {
                e
            },
        }
    } else {
        e
    }
}

/// The world after every worker has looked out for crystals.
pub open spec fn after_worker_sensor(w: WorldView) -> WorldView {
    WorldView { entities: w.entities.map_values(|e: Entity| sensed(w.entities, e)), ..w }
}

/// A worker that looks out and has a crystal in sight collects it: it turns
/// to `Collecting`, and its goal is the position of the closest crystal.
pub proof fn worker_collects_the_crystal_in_sight(s: Seq<Entity>, e: Entity, k: int)
    requires
        senses(e),
        is_closest_crystal(s, e.transform.translation, sight(e.worker_stats.unwrap()), k),
    ensures
        sensed(s, e) == (Entity {
            worker_state: Some(WorkerState::Collecting),
            navigation_target: Some(NavigationTarget(s[k].transform.translation)),
            ..e
        }),
{
    let range = sight(e.worker_stats.unwrap());
}

/// The worker does not both carry a crystal and collect one.
pub open spec fn carrier_is_not_collecting(e: Entity) -> bool {
    e.has_crystal == Some(HasCrystal(true)) ==> e.worker_state != Some(WorkerState::Collecting)
}

/// No rule makes a worker that carries a crystal collect another: not the
/// look-out, not the pickup, not the roaming and not the steering.
pub proof fn carriers_never_collect(s: Seq<Entity>, e: Entity, roamed: Entity, dt: int)
    requires
        carrier_is_not_collecting(e),
        sent_roaming(e, roamed),
    ensures
        carrier_is_not_collecting(sensed(s, e)),
        carrier_is_not_collecting(loaded(e)),
        carrier_is_not_collecting(roamed),
        carrier_is_not_collecting(worker_moved(e, dt)),
{
}

/// The crystal closest to `position`, if one is closer than `range`.
pub fn find_closest_crystal(entities: &Vec<Entity>, position: &Vec2, range: i64) -> (r: Option<
    usize,
>)
    requires
        forall|k: int| 0 <= k < entities.len() ==> (#[trigger] entities@[k]).wf(),
        position.within(COORD_LIMIT as int),
        0 <= range <= RADIUS_LIMIT,
    ensures
        match r {
            Some(k) => k < entities.len() && closest_crystal(entities@, *position, range as int)
                == Some(k as int),
            None => closest_crystal(entities@, *position, range as int) is None,
        },
{
    proof {
        lemma_mul_bounds(range as int, range as int, RADIUS_LIMIT as int, RADIUS_LIMIT as int);
    }
    let limit: i128 = range as i128 * range as i128;
    let n = entities.len();
    let mut best: Option<usize> = None;
    let mut best_dd: i128 = limit;
    let mut j: usize = 0;
    while j < n
        invariant
            j <= n,
            n == entities.len(),
            limit == range * range,
            forall|k: int| 0 <= k < entities.len() ==> (#[trigger] entities@[k]).wf(),
            position.within(COORD_LIMIT as int),
            best_dd <= limit,
            match best {
                Some(k) => k < j && entities@[k as int].crystal is Some && best_dd
                    == distance_squared(*position, entities@[k as int].transform.translation)
                    && best_dd < limit,
                None => best_dd == limit,
            },
            forall|i: int|
                0 <= i < j && (#[trigger] entities@[i]).crystal is Some ==> {
                    &&& distance_squared(*position, entities@[i].transform.translation) >= best_dd
                    &&& (best matches Some(k) && i < k) ==> distance_squared(
                        *position,
                        entities@[i].transform.translation,
                    ) > best_dd
                },
        decreases n - j,
    {
        let e = &entities[j];
        if e.crystal.is_some() {
            let dd = position.distance_squared_to(&e.transform.translation);
            if dd < best_dd {
                best_dd = dd;
                best = Some(j);
            }
        }
        j += 1;
    }
    proof {
        match best {
            Some(k) => {
                assert(is_closest_crystal(entities@, *position, range as int, k as int));
            },
            None => {},
        }
    }
    best
}

/// Lets every worker that is roaming or collecting, and carries nothing,
/// look out for crystals. If the closest crystal is closer than its sight,
/// which is its detection radius but no more than `WORKER_SIGHT`, the worker
/// collects, with that crystal's position as its goal. If it was collecting
/// and sees none any more, it goes back to roaming and loses its goal.
pub fn worker_sensor_ai(world: &mut World)
    requires
        old(world).wf(),
    ensures
        final(world).wf(),
        final(world)@ == after_worker_sensor(old(world)@),
{
    let n = world.entities.len();
    let ghost s0 = world.entities@;
    let mut i: usize = 0;
    while i < n
        invariant
            i <= n,
            n == world.entities.len(),
            s0 == old(world).entities@,
            s0.len() == n,
            world.messages == old(world).messages,
            world.score == old(world).score,
            world.sinibombs == old(world).sinibombs,
            world.camera == old(world).camera,
            world.wf(),
            forall|k: int| 0 <= k < i ==> #[trigger] world.entities@[k] == sensed(s0, s0[k]),
            forall|k: int| i <= k < n ==> #[trigger] world.entities@[k] == s0[k],
            forall|k: int|
                0 <= k < n ==> (#[trigger] world.entities@[k]).crystal == s0[k].crystal
                    && world.entities@[k].transform == s0[k].transform,
        decreases n - i,
    {
        let ghost before = world.entities@;
        assert(world@.entities[i as int].wf());
        let e = world.entities[i];
        let looks = e.worker.is_some() && match (e.has_crystal, e.worker_state) {
            (Some(carried), Some(state)) => !carried.0 && (state == WorkerState::Roaming || state
                == WorkerState::Collecting),
            _ => false,
        };
        match (looks, e.worker_stats, e.worker_state) {
            (true, Some(stats), Some(state)) => {
                let range = if stats.detection_radius < WORKER_SIGHT {
                    stats.detection_radius
                } else {
                    WORKER_SIGHT
                };
                let found = find_closest_crystal(&world.entities, &e.transform.translation, range);
                proof {
                    lemma_closest_depends_on_place(
                        before,
                        s0,
                        e.transform.translation,
                        range as int,
                    );
                }
                match found {
                    Some(k) => {
                        let mut r = e;
                        r.worker_state = Some(WorkerState::Collecting);
                        r.navigation_target = Some(
                            NavigationTarget(world.entities[k].transform.translation),
                        );
                        world.entities[i] = r;
                    },
                    None => {
                        if state == WorkerState::Collecting {
                            let mut r = e;
                            r.worker_state = Some(WorkerState::Roaming);
                            r.navigation_target = None;
                            world.entities[i] = r;
                        }
                    },
                }
            },
            _ => {},
        }
        i += 1;
    }
    assert(world@.entities =~= after_worker_sensor(old(world)@).entities);
}

/// Which crystal is the closest depends only on which entities are crystals
/// and where they are.
proof fn lemma_closest_depends_on_place(a: Seq<Entity>, b: Seq<Entity>, position: Vec2, range: int)
    requires
        a.len() == b.len(),
        forall|k: int|
            0 <= k < a.len() ==> (#[trigger] a[k]).crystal == b[k].crystal && a[k].transform
                == b[k].transform,
    ensures
        closest_crystal(a, position, range) == closest_crystal(b, position, range),
        closest_crystal(a, position, range) matches Some(k) ==> 0 <= k < a.len(),
{
    assert forall|k: int|
        is_closest_crystal(a, position, range, k) == is_closest_crystal(b, position, range, k) by {
        if is_closest_crystal(a, position, range, k) {
            assert forall|j: int| 0 <= j < b.len() && (#[trigger] b[j]).crystal is Some implies {
                &&& distance_squared(position, b[j].transform.translation) >= distance_squared(
                    position,
                    b[k].transform.translation,
                )
                &&& j < k ==> distance_squared(position, b[j].transform.translation)
                    > distance_squared(position, b[k].transform.translation)
            } by {
                assert(a[j].crystal is Some);
            }
        }
        if is_closest_crystal(b, position, range, k) {
            assert forall|j: int| 0 <= j < a.len() && (#[trigger] a[j]).crystal is Some implies {
                &&& distance_squared(position, a[j].transform.translation) >= distance_squared(
                    position,
                    a[k].transform.translation,
                )
                &&& j < k ==> distance_squared(position, a[j].transform.translation)
                    > distance_squared(position, a[k].transform.translation)
            } by {
                assert(b[j].crystal is Some);
            }
        }
    }
}

/// The entity is a worker under way: it has a velocity, abilities and a goal.
pub open spec fn navigating_worker(e: Entity) -> bool {
    e.worker is Some && e.velocity is Some && e.worker_stats is Some && e.navigation_target is Some
}

/// The worker is closer than `WORKER_ARRIVAL` to its goal.
pub open spec fn worker_arrived(e: Entity) -> bool {
    distance_squared(e.transform.translation, e.navigation_target.unwrap().0) < WORKER_ARRIVAL
        * WORKER_ARRIVAL
}

/// The entity after `dt` milliseconds of the workers' steering.
pub open spec fn worker_moved(e: Entity, dt: int) -> Entity {
    if navigating_worker(e) {
        steered(e, e.worker_stats.unwrap().speed as int, worker_arrived(e), dt)
    } else {
        e
    }
}

/// The world after `dt` milliseconds of the workers' steering.
pub open spec fn after_worker_movement(w: WorldView, dt: int) -> WorldView {
    WorldView { entities: w.entities.map_values(|e: Entity| worker_moved(e, dt)), ..w }
}

/// Steers one worker for `dt` milliseconds.
pub fn move_worker(e: &Entity, dt: u32) -> (r: Entity)
    requires
        e.wf(),
    ensures
        r == worker_moved(*e, dt as int),
        r.wf(),
{
    match (e.worker, e.velocity, e.worker_stats, e.navigation_target) {
        (Some(_), Some(_), Some(stats), Some(target)) => {
            let reach: i128 = WORKER_ARRIVAL as i128;
            let dd = e.transform.translation.distance_squared_to(&target.0);
            let arrived = dd < reach * reach;
            steer(e, stats.speed, arrived, dt)
        },
        _ => *e,
    }
}

/// Steers every worker that has a goal for `dt` milliseconds. A worker
/// closer than `WORKER_ARRIVAL` to its goal has arrived: it loses the goal and
/// slows down. Any other accelerates toward its goal.
pub fn worker_movement(world: &mut World, dt: u32)
    requires
        old(world).wf(),
    ensures
        final(world).wf(),
        final(world)@ == after_worker_movement(old(world)@, dt as int),
{
    let n = world.entities.len();
    let mut i: usize = 0;
    while i < n
        invariant
            i <= n,
            n == world.entities.len(),
            n == old(world).entities.len(),
            world.messages == old(world).messages,
            world.score == old(world).score,
            world.sinibombs == old(world).sinibombs,
            world.camera == old(world).camera,
            world.wf(),
            forall|k: int|
                0 <= k < i ==> #[trigger] world.entities@[k] == worker_moved(
                    old(world).entities@[k],
                    dt as int,
                ),
            forall|k: int| i <= k < n ==> #[trigger] world.entities@[k] == old(world).entities@[k],
        decreases n - i,
    {
        assert(world@.entities[i as int].wf());
        let e = move_worker(&world.entities[i], dt);
        world.entities[i] = e;
        i += 1;
    }
    assert(world@.entities =~= after_worker_movement(old(world)@, dt as int).entities);
}

} // verus!
