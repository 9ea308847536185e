//! Crystals: what asteroids drop, and who picks them up.
use vstd::prelude::*;
use crate::camera::WrapsAroundCamera;
use crate::fixed::{clamp, COORD_LIMIT, SPEED_LIMIT};
use crate::physics::{Collider, Mass, Velocity};
use crate::rng::random_range;
use crate::score::{GameScore, Sinibombs};
use crate::search::{first_index, lemma_first_index_found};
use crate::transform::Transform;
use crate::vec2::{distance_squared, Vec2};
use crate::worker::{HasCrystal, WorkerState};
use crate::world::{Entity, World, WorldView};

verus! {

/// Radius of a crystal.
pub const CRYSTAL_RADIUS: i64 = 8_000;

/// Mass of a crystal.
pub const CRYSTAL_MASS: i64 = 1_000;

/// Bound of the random drift of a dropped crystal, on each axis.
pub const CRYSTAL_DRIFT: i64 = 50_000;

/// Distance under which a crystal is picked up.
pub const PICKUP_REACH: i64 = 30_000;

/// Points that the player earns with a crystal.
pub const CRYSTAL_SCORE: u32 = 200;

/// Marks an entity as a crystal.
#[derive(Clone, Copy, Debug, PartialEq, Eq)]
pub struct Crystal;

/// A crystal at `position` that moves at `velocity`: a small, light body
/// that wraps around the viewpoint and has no health.
pub open spec fn crystal_at(position: Vec2, velocity: Vec2) -> Entity {
    Entity {
        crystal: Some(Crystal),
        wraps_around_camera: Some(WrapsAroundCamera),
        velocity: Some(Velocity(velocity)),
        collider: Some(Collider { radius: CRYSTAL_RADIUS }),
        mass: Some(Mass(CRYSTAL_MASS)),
        ..Entity::bare(Transform::at(position))
    }
}

/// `d` can be the drift of a dropped crystal on one axis.
pub open spec fn is_drift(d: int) -> bool {
    -CRYSTAL_DRIFT <= d < CRYSTAL_DRIFT
}

/// The velocity of a crystal knocked loose along `impact` that drifts by
/// `(dx, dy)`.
pub open spec fn drifted(impact: Vec2, dx: int, dy: int) -> Vec2 {
    impact.plus_saturating(dx, dy, SPEED_LIMIT as int)
}

/// `e` is a crystal dropped at `position` by an impact along `impact`: its
/// velocity is `impact` plus some drift.
pub open spec fn dropped_crystal(e: Entity, position: Vec2, impact: Vec2) -> bool {
    exists|dx: int, dy: int|
        is_drift(dx) && is_drift(dy) && e == crystal_at(position, #[trigger] drifted(impact, dx, dy))
}

/// A crystal at `position` that moves at `velocity`.
pub fn crystal_entity(position: Vec2, velocity: Vec2) -> (e: Entity)
    ensures
        e == crystal_at(position, velocity),
        position.within(COORD_LIMIT as int) && velocity.within(SPEED_LIMIT as int) ==> e.wf(),
{
    let mut e = Entity::new(Transform::from_translation(position));
    e.crystal = Some(Crystal);
    e.wraps_around_camera = Some(WrapsAroundCamera);
    e.velocity = Some(Velocity(velocity));
    e.collider = Some(Collider { radius: CRYSTAL_RADIUS });
    e.mass = Some(Mass(CRYSTAL_MASS));
    e
}

/// The velocity of a crystal knocked loose along `impact` that drifts by
/// `(dx, dy)`.
pub fn drift_velocity(impact: Vec2, dx: i64, dy: i64) -> (v: Vec2)
    ensures
        v == drifted(impact, dx as int, dy as int),
        v.within(SPEED_LIMIT as int),
{
    impact.add_saturating(dx as i128, dy as i128, SPEED_LIMIT)
}

/// Drops a crystal at `position`, moving along `impact_dir` with a random
/// drift on each axis, and returns its index. A position outside the
/// coordinate range is refused, and the world stays as it is.
pub fn spawn_crystal(world: &mut World, position: Vec2, impact_dir: Vec2) -> (id: Option<usize>)
    requires
        old(world).wf(),
    ensures
        final(world).wf(),
        position.within(COORD_LIMIT as int) ==> {
            &&& id == Some(old(world)@.entities.len() as usize)
            &&& final(world)@.entities.len() == old(world)@.entities.len() + 1
            &&& final(world)@ == old(world)@.with_spawned(final(world)@.entities.last())
            &&& dropped_crystal(final(world)@.entities.last(), position, impact_dir)
        },
        !position.within(COORD_LIMIT as int) ==> id is None && final(world)@ == old(world)@,
{
    let mut rng = rand::rng();
    let dx = random_range(&mut rng, -CRYSTAL_DRIFT, CRYSTAL_DRIFT);
    let dy = random_range(&mut rng, -CRYSTAL_DRIFT, CRYSTAL_DRIFT);
    let e = crystal_entity(position, drift_velocity(impact_dir, dx, dy));
    world.spawn(e)
}

/// The entity is a crystal that can still be picked up: nobody has claimed
/// it. A claim is the mark for removal, so it lasts until the flush.
pub open spec fn free_crystal(e: Entity) -> bool {
    e.crystal is Some && !e.despawn_requested
}

/// `a` is close enough to `b` to pick it up.
pub open spec fn within_pickup(a: Entity, b: Entity) -> bool {
    distance_squared(a.transform.translation, b.transform.translation) < PICKUP_REACH
        * PICKUP_REACH
}

/// Some player is close enough to entity `c` to pick it up.
pub open spec fn player_reaches(s: Seq<Entity>, c: int) -> bool {
    exists|p: int| 0 <= p < s.len() && (#[trigger] s[p]).player is Some && within_pickup(s[p], s[c])
}

/// Entity `c` is a free crystal that a player picks up.
pub open spec fn player_takes(s: Seq<Entity>, c: int) -> bool {
    0 <= c < s.len() && free_crystal(s[c]) && player_reaches(s, c)
}

/// The number of crystals among the first `n` entities that a player picks
/// up.
pub open spec fn taken_count(s: Seq<Entity>, n: int) -> int
    decreases n,
{
    if n <= 0 {
        0
    } else {
        taken_count(s, n - 1) + if player_takes(s, n - 1) {
            1int
        } else {
            0int
        }
    }
}

/// The entity, claimed.
pub open spec fn claimed(e: Entity) -> Entity {
    Entity { despawn_requested: true, ..e }
}

/// The entities after the players' pickups: every crystal that a player
/// picks up is claimed.
pub open spec fn after_player_pickup(s: Seq<Entity>) -> Seq<Entity> {
    Seq::new(
        s.len(),
        |c: int|
            if player_takes(s, c) {
                claimed(s[c])
            } else {
                s[c]
            },
    )
}

/// The entity is a worker that is out to collect a crystal.
pub open spec fn collecting(e: Entity) -> bool {
    e.worker is Some && e.has_crystal is Some && e.worker_state == Some(WorkerState::Collecting)
}

/// The crystal that worker `w` picks up: the first free crystal within its
/// reach, if `w` is collecting.
pub open spec fn worker_pick(s: Seq<Entity>, w: int) -> Option<int> {
    if 0 <= w < s.len() && collecting(s[w]) {
        first_index(|c: int| free_crystal(s[c]) && within_pickup(s[w], s[c]), s.len() as int)
    } else {
        None
    }
}

/// The worker after a pickup: it carries a crystal, is on its way back, and
/// has no goal.
pub open spec fn loaded(e: Entity) -> Entity {
    Entity {
        has_crystal: Some(HasCrystal(true)),
        worker_state: Some(WorkerState::Returning),
        navigation_target: None,
        ..e
    }
}

/// The entities after worker `w` has picked up crystal `c`.
pub open spec fn picked(s: Seq<Entity>, w: int, c: int) -> Seq<Entity> {
    let s1 = s.update(c, claimed(s[c]));
    s1.update(w, loaded(s1[w]))
}

/// The entities after the workers from `w` up to `n` had their turn at
/// picking up, one after the other.
pub open spec fn collect_from(s: Seq<Entity>, w: int, n: int) -> Seq<Entity>
    decreases n - w,
{
    if w < 0 || w >= n {
        s
    } else {
        match worker_pick(s, w) {
            Some(c) => collect_from(picked(s, w, c), w + 1, n),
            None => collect_from(s, w + 1, n),
        }
    }
}

/// The world after the pickups of a tick. First every free crystal within
/// reach of a player is claimed, and each earns the player `CRYSTAL_SCORE`
/// points and one bomb. Then each collecting worker, in turn, picks up the
/// first crystal within its reach that is still free.
pub open spec fn after_crystal_impacts(w: WorldView) -> WorldView {
    let taken = taken_count(w.entities, w.entities.len() as int);
    WorldView {
        entities: collect_from(
            after_player_pickup(w.entities),
            0,
            w.entities.len() as int,
        ),
        score: GameScore(clamp(w.score.0 + CRYSTAL_SCORE * taken, 0, u32::MAX as int) as u32),
        sinibombs: Sinibombs(clamp(w.sinibombs.0 + taken, 0, u32::MAX as int) as u32),
        ..w
    }
}

/// Tells whether `a` is close enough to `b` to pick it up.
pub fn is_within_pickup(a: &Entity, b: &Entity) -> (r: bool)
    requires
        a.wf(),
        b.wf(),
    ensures
        r == within_pickup(*a, *b),
{
    let reach: i128 = PICKUP_REACH as i128;
    a.transform.translation.distance_squared_to(&b.transform.translation) < reach * reach
}

/// Tells whether some player is close enough to entity `c` to pick it up.
fn any_player_reaches(entities: &Vec<Entity>, c: usize) -> (r: bool)
    requires
        c < entities.len(),
        forall|k: int| 0 <= k < entities.len() ==> (#[trigger] entities@[k]).wf(),
    ensures
        r == player_reaches(entities@, c as int),
{
    let n = entities.len();
    let mut p: usize = 0;
    while p < n
        invariant
            p <= n,
            n == entities.len(),
            c < n,
            forall|k: int| 0 <= k < entities.len() ==> (#[trigger] entities@[k]).wf(),
            forall|k: int|
                0 <= k < p ==> !((#[trigger] entities@[k]).player is Some && within_pickup(
                    entities@[k],
                    entities@[c as int],
                )),
        decreases n - p,
    {
        if entities[p].player.is_some() && is_within_pickup(&entities[p], &entities[c]) {
            return true;
        }
        p += 1;
    }
    false
}

/// The first free crystal within reach of entity `w`.
fn find_free_crystal(entities: &Vec<Entity>, w: usize) -> (r: Option<usize>)
    requires
        w < entities.len(),
        forall|k: int| 0 <= k < entities.len() ==> (#[trigger] entities@[k]).wf(),
    ensures
        match r {
            Some(c) => c < entities.len() && first_index(
                |c: int|
                    free_crystal(entities@[c]) && within_pickup(entities@[w as int], entities@[c]),
                entities.len() as int,
            ) == Some(c as int),
            None => first_index(
                |c: int|
                    free_crystal(entities@[c]) && within_pickup(entities@[w as int], entities@[c]),
                entities.len() as int,
            ) is None,
        },
{
    let ghost p = |c: int|
        free_crystal(entities@[c]) && within_pickup(entities@[w as int], entities@[c]);
    let n = entities.len();
    let mut c: usize = 0;
    while c < n
        invariant
            c <= n,
            n == entities.len(),
            w < n,
            p == |c: int|
                free_crystal(entities@[c]) && within_pickup(entities@[w as int], entities@[c]),
            forall|k: int| 0 <= k < entities.len() ==> (#[trigger] entities@[k]).wf(),
            forall|k: int| 0 <= k < c ==> !#[trigger] p(k),
        decreases n - c,
    {
        let e = &entities[c];
        if e.crystal.is_some() && !e.despawn_requested && is_within_pickup(&entities[w], e) {
            proof {
                lemma_first_index_found(p, n as int, c as int);
            }
            return Some(c);
        }
        c += 1;
    }
    None
}

/// Resolves the pickups of a tick. The players come first: every free
/// crystal within `PICKUP_REACH` of a player is claimed and earns
/// `CRYSTAL_SCORE` points and one bomb, both counters saturating. Then each
/// collecting worker, in the order of the indices, picks up the first crystal
/// within its reach that nobody has claimed before it: the crystal is claimed,
/// and the worker carries it, turns to `Returning` and loses its goal. A
/// claimed crystal is marked for removal, so no crystal is picked up twice.
pub fn crystal_impacts(world: &mut World)
    requires
        old(world).wf(),
    ensures
        final(world).wf(),
        final(world)@ == after_crystal_impacts(old(world)@),
{
    let n = world.entities.len();
    let ghost s0 = world.entities@;
    let mut c: usize = 0;
    while c < n
        invariant
            c <= n,
            n == world.entities.len(),
            s0 == old(world).entities@,
            s0.len() == n,
            world.messages == old(world).messages,
            world.camera == old(world).camera,
            world.wf(),
            world.score.0 == clamp(
                old(world).score.0 + CRYSTAL_SCORE * taken_count(s0, c as int),
                0,
                u32::MAX as int,
            ),
            world.sinibombs.0 == clamp(
                old(world).sinibombs.0 + taken_count(s0, c as int),
                0,
                u32::MAX as int,
            ),
            0 <= taken_count(s0, c as int) <= c,
            forall|k: int|
                0 <= k < c ==> #[trigger] world.entities@[k] == after_player_pickup(s0)[k],
            forall|k: int| c <= k < n ==> #[trigger] world.entities@[k] == s0[k],
            forall|k: int|
                0 <= k < n ==> (#[trigger] world.entities@[k]).player == s0[k].player
                    && world.entities@[k].transform == s0[k].transform,
        decreases n - c,
    {
        let ghost before = world.entities@;
        assert(world@.entities[c as int].wf());
        let e = world.entities[c];
        let mut taken = false;
        if e.crystal.is_some() && !e.despawn_requested {
            taken = any_player_reaches(&world.entities, c);
        }
        proof {
            lemma_player_reach_depends_on_place(before, s0, c as int);
        }
        if taken {
            let mut marked = e;
            marked.despawn_requested = true;
            world.entities[c] = marked;
            world.score = GameScore(world.score.0.saturating_add(CRYSTAL_SCORE));
            world.sinibombs = Sinibombs(world.sinibombs.0.saturating_add(1));
        }
        c += 1;
    }
    let ghost s1 = after_player_pickup(s0);
    assert(world.entities@ =~= s1);
    let mut w: usize = 0;
    while w < n
        invariant
            w <= n,
            n == world.entities.len(),
            s0 == old(world).entities@,
            s1 == after_player_pickup(s0),
            s1.len() == n,
            world.messages == old(world).messages,
            world.camera == old(world).camera,
            world.wf(),
            world@.score == after_crystal_impacts(old(world)@).score,
            world@.sinibombs == after_crystal_impacts(old(world)@).sinibombs,
            collect_from(world.entities@, w as int, n as int) == collect_from(s1, 0, n as int),
        decreases n - w,
    {
        assert(world@.entities[w as int].wf());
        let e = world.entities[w];
        let is_collecting = e.worker.is_some() && e.has_crystal.is_some() && match e.worker_state {
            Some(state) => state == WorkerState::Collecting,
            None => false,
        };
        if is_collecting {
            match find_free_crystal(&world.entities, w) {
                Some(c) => {
                    let mut crystal = world.entities[c];
                    crystal.despawn_requested = true;
                    world.entities[c] = crystal;
                    let mut worker = world.entities[w];
                    worker.has_crystal = Some(HasCrystal(true));
                    worker.worker_state = Some(WorkerState::Returning);
                    worker.navigation_target = None;
                    world.entities[w] = worker;
                },
                None => {},
            }
        }
        w += 1;
    }
}

/// The workers' turns add and remove no entity, and free no crystal that was
/// claimed.
pub proof fn lemma_collect_keeps_claims(s: Seq<Entity>, w: int, n: int, c: int)
    requires
        0 <= c < s.len(),
        s[c].despawn_requested,
    ensures
        collect_from(s, w, n).len() == s.len(),
        collect_from(s, w, n)[c].despawn_requested,
    decreases n - w,
{
    if 0 <= w < n {
        match worker_pick(s, w) {
            Some(k) => {
                lemma_collect_keeps_claims(picked(s, w, k), w + 1, n, c);
            },
            None => {
                lemma_collect_keeps_claims(s, w + 1, n, c);
            },
        }
    }
}

/// A crystal that a player picks up is picked up by no worker in the same
/// tick: it is claimed before the first worker has its turn, and whatever the
/// workers before have done, worker `k` does not pick it.
pub proof fn players_crystal_is_left_by_workers(s: Seq<Entity>, c: int, k: int)
    requires
        player_takes(s, c),
        0 <= k < s.len(),
    ensures
        after_player_pickup(s)[c] == claimed(s[c]),
        worker_pick(collect_from(after_player_pickup(s), 0, k), k) != Some(c),
{
    lemma_collect_keeps_claims(after_player_pickup(s), 0, k, c);
}

/// A crystal that one worker picks up is picked up by no later worker in the
/// same tick: whatever the workers between them have done, worker `k` does
/// not pick what worker `w` has picked.
pub proof fn workers_crystal_is_left_by_later_workers(s: Seq<Entity>, w: int, c: int, k: int)
    requires
        worker_pick(s, w) == Some(c),
        w < k < s.len(),
    ensures
        worker_pick(collect_from(picked(s, w, c), w + 1, k), k) != Some(c),
{
    lemma_collect_keeps_claims(picked(s, w, c), w + 1, k, c);
}

/// Whether a player reaches an entity depends only on who is a player and
/// where everything is.
proof fn lemma_player_reach_depends_on_place(a: Seq<Entity>, b: Seq<Entity>, c: int)
    requires
        a.len() == b.len(),
        0 <= c < a.len(),
        forall|k: int|
            0 <= k < a.len() ==> (#[trigger] a[k]).player == b[k].player && a[k].transform
                == b[k].transform,
    ensures
        player_reaches(a, c) == player_reaches(b, c),
{
    if player_reaches(b, c) {
        let p = choose|p: int|
            0 <= p < b.len() && (#[trigger] b[p]).player is Some && within_pickup(b[p], b[c]);
        assert(a[p].player is Some && within_pickup(a[p], a[c]));
    }
}

} // verus!
