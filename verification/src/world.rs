//! The world: every entity with its components, and the shared counters.
//!
//! An entity is a row of optional components; what kind of thing it is
//! follows from the components it carries. Entities are named by their index,
//! which stays valid until the next `flush`.
use vstd::prelude::*;
use crate::asteroid::Asteroid;
use crate::camera::WrapsAroundCamera;
use crate::crystal::Crystal;
use crate::fixed::COORD_LIMIT;
use crate::health::Health;
use crate::navigation::NavigationTarget;
use crate::physics::{Collider, Mass, Velocity};
use crate::player::Player;
use crate::score::{GameScore, Sinibombs};
use crate::shooting::{Gun, Projectile, ShootMessage};
use crate::team::Team;
use crate::transform::Transform;
use crate::vec2::Vec2;
use crate::warrior::Warrior;
use crate::worker::{HasCrystal, Worker, WorkerState, WorkerStats};

verus! {

/// One entity: its transform and whichever other components it carries.
#[derive(Clone, Copy, Debug, PartialEq, Eq)]
pub struct Entity {
    pub transform: Transform,
    pub velocity: Option<Velocity>,
    pub collider: Option<Collider>,
    pub mass: Option<Mass>,
    pub health: Option<Health>,
    pub team: Option<Team>,
    pub gun: Option<Gun>,
    pub projectile: Option<Projectile>,
    pub navigation_target: Option<NavigationTarget>,
    pub player: Option<Player>,
    pub worker: Option<Worker>,
    pub worker_state: Option<WorkerState>,
    pub worker_stats: Option<WorkerStats>,
    pub has_crystal: Option<HasCrystal>,
    pub warrior: Option<Warrior>,
    pub asteroid: Option<Asteroid>,
    pub crystal: Option<Crystal>,
    pub wraps_around_camera: Option<WrapsAroundCamera>,
    /// The entity is to be removed at the next flush.
    pub despawn_requested: bool,
}

impl Entity {
    /// Every component that is present is well formed.
    pub open spec fn wf(self) -> bool {
        &&& self.transform.wf()
        &&& self.velocity matches Some(v) ==> v.wf()
        &&& self.collider matches Some(c) ==> c.wf()
        &&& self.mass matches Some(m) ==> m.wf()
        &&& self.gun matches Some(g) ==> g.wf()
        &&& self.projectile matches Some(p) ==> p.wf()
        &&& self.navigation_target matches Some(t) ==> t.wf()
        &&& self.player matches Some(p) ==> p.wf()
        &&& self.worker_stats matches Some(s) ==> s.wf()
        &&& self.warrior matches Some(w) ==> w.wf()
    }

    /// An entity that has a transform and nothing else.
    pub open spec fn bare(transform: Transform) -> Entity {
        Entity {
            transform,
            velocity: None,
            collider: None,
            mass: None,
            health: None,
            team: None,
            gun: None,
            projectile: None,
            navigation_target: None,
            player: None,
            worker: None,
            worker_state: None,
            worker_stats: None,
            has_crystal: None,
            warrior: None,
            asteroid: None,
            crystal: None,
            wraps_around_camera: None,
            despawn_requested: false,
        }
    }

    /// An entity that has a transform and nothing else.
    pub fn new(transform: Transform) -> (e: Entity)
        ensures
            e == Entity::bare(transform),
    {
        Entity {
            transform,
            velocity: None,
            collider: None,
            mass: None,
            health: None,
            team: None,
            gun: None,
            projectile: None,
            navigation_target: None,
            player: None,
            worker: None,
            worker_state: None,
            worker_stats: None,
            has_crystal: None,
            warrior: None,
            asteroid: None,
            crystal: None,
            wraps_around_camera: None,
            despawn_requested: false,
        }
    }

    /// Tells whether every component that is present is well formed.
    pub fn is_wf(&self) -> (b: bool)
        ensures
            b == self.wf(),
    {
        self.transform.is_wf() && (match &self.velocity {
            Some(v) => v.is_wf(),
            None => true,
        }) && (match &self.collider {
            Some(c) => c.is_wf(),
            None => true,
        }) && (match &self.mass {
            Some(m) => m.is_wf(),
            None => true,
        }) && (match &self.gun {
            Some(g) => g.is_wf(),
            None => true,
        }) && (match &self.projectile {
            Some(p) => p.is_wf(),
            None => true,
        }) && (match &self.navigation_target {
            Some(t) => t.is_wf(),
            None => true,
        }) && (match &self.player {
            Some(p) => p.is_wf(),
            None => true,
        }) && (match &self.worker_stats {
            Some(s) => s.is_wf(),
            None => true,
        }) && (match &self.warrior {
            Some(w) => w.is_wf(),
            None => true,
        })
    }
}

/// The world as the systems see it.
pub struct World {
    /// The entities, each named by its index.
    pub entities: Vec<Entity>,
    /// Fire requests that no gun has served yet.
    pub messages: Vec<ShootMessage>,
    pub score: GameScore,
    pub sinibombs: Sinibombs,
    /// The viewpoint, if there is one.
    pub camera: Option<Vec2>,
}

/// The mathematical content of a `World`.
pub struct WorldView {
    pub entities: Seq<Entity>,
    pub messages: Seq<ShootMessage>,
    pub score: GameScore,
    pub sinibombs: Sinibombs,
    pub camera: Option<Vec2>,
}

impl View for World {
    type V = WorldView;

    open spec fn view(&self) -> WorldView {
        WorldView {
            entities: self.entities@,
            messages: self.messages@,
            score: self.score,
            sinibombs: self.sinibombs,
            camera: self.camera,
        }
    }
}

/// The entity stays at a flush.
pub open spec fn survives(e: Entity) -> bool {
    !e.despawn_requested
}

impl WorldView {
    /// Every entity is well formed, and so is the viewpoint.
    pub open spec fn wf(self) -> bool {
        &&& forall|i: int| 0 <= i < self.entities.len() ==> (#[trigger] self.entities[i]).wf()
        &&& self.camera matches Some(c) ==> c.within(COORD_LIMIT as int)
    }

    /// The world with `e` added behind the other entities.
    pub open spec fn with_spawned(self, e: Entity) -> WorldView {
        WorldView { entities: self.entities.push(e), ..self }
    }

    /// The world with entity `id` marked for removal.
    pub open spec fn with_despawn_requested(self, id: int) -> WorldView {
        if 0 <= id < self.entities.len() {
            WorldView {
                entities: self.entities.update(
                    id,
                    Entity { despawn_requested: true, ..self.entities[id] },
                ),
                ..self
            }
        } else {
            self
        }
    }

    /// The world without the entities marked for removal and without the
    /// fire requests that were not served.
    pub open spec fn flushed(self) -> WorldView {
        WorldView {
            entities: self.entities.filter(|e: Entity| survives(e)),
            messages: Seq::empty(),
            ..self
        }
    }
}

/// After a flush nothing that was marked for removal is left, and nothing
/// that is left is marked.
pub proof fn nothing_marked_survives_a_flush(w: WorldView)
    ensures
        forall|i: int|
            0 <= i < w.flushed().entities.len() ==> {
                &&& !(#[trigger] w.flushed().entities[i]).despawn_requested
                &&& w.entities.contains(w.flushed().entities[i])
            },
        w.flushed().entities.len() <= w.entities.len(),
{
    let keep = |e: Entity| survives(e);
    assert forall|i: int| 0 <= i < w.flushed().entities.len() implies {
        &&& !(#[trigger] w.flushed().entities[i]).despawn_requested
        &&& w.entities.contains(w.flushed().entities[i])
    } by {
        w.entities.lemma_filter_contains_rev(keep, w.flushed().entities[i]);
    }
}

/// `after` is `before` with `count` more entities behind the others, each of
/// which satisfies `fits`.
pub open spec fn grown_by(
    before: WorldView,
    after: WorldView,
    count: int,
    fits: spec_fn(Entity) -> bool,
) -> bool {
    &&& after.entities.len() == before.entities.len() + count
    &&& after.entities.subrange(0, before.entities.len() as int) == before.entities
    &&& forall|k: int|
        before.entities.len() <= k < after.entities.len() ==> fits(#[trigger] after.entities[k])
    &&& after.messages == before.messages
    &&& after.score == before.score
    &&& after.sinibombs == before.sinibombs
    &&& after.camera == before.camera
}

/// Adding one entity that fits to a world that has grown by `count` gives a
/// world that has grown by one more.
pub proof fn lemma_grown_by_one_more(
    before: WorldView,
    middle: WorldView,
    after: WorldView,
    count: int,
    fits: spec_fn(Entity) -> bool,
    e: Entity,
)
    requires
        count >= 0,
        grown_by(before, middle, count, fits),
        after == middle.with_spawned(e),
        fits(e),
    ensures
        grown_by(before, after, count + 1, fits),
{
    let n = before.entities.len() as int;
    assert(after.entities.subrange(0, n) =~= middle.entities.subrange(0, n));
}

/// A world has grown by nothing from itself.
pub proof fn lemma_grown_by_nothing(w: WorldView, fits: spec_fn(Entity) -> bool)
    ensures
        grown_by(w, w, 0, fits),
{
    assert(w.entities.subrange(0, w.entities.len() as int) =~= w.entities);
}

impl World {
    /// Every entity is well formed, and so is the viewpoint.
    pub open spec fn wf(&self) -> bool {
        self@.wf()
    }

    /// An empty world with both counters at zero and no viewpoint.
    pub fn new() -> (w: World)
        ensures
            w.wf(),
            w@.entities.len() == 0,
            w@.messages.len() == 0,
            w@.score == GameScore(0),
            w@.sinibombs == Sinibombs(0),
            w@.camera is None,
    {
        World {
            entities: Vec::new(),
            messages: Vec::new(),
            score: GameScore(0),
            sinibombs: Sinibombs(0),
            camera: None,
        }
    }

    /// Tells whether the world is well formed.
    pub fn is_wf(&self) -> (b: bool)
        ensures
            b == self.wf(),
    {
        let camera_ok = match &self.camera {
            Some(c) => c.is_within(COORD_LIMIT),
            None => true,
        };
        if !camera_ok {
            return false;
        }
        let n = self.entities.len();
        let mut i: usize = 0;
        while i < n
            invariant
                i <= n,
                n == self.entities.len(),
                forall|k: int| 0 <= k < i ==> (#[trigger] self.entities@[k]).wf(),
            decreases n - i,
        {
            if !self.entities[i].is_wf() {
                assert(!self@.entities[i as int].wf());
                return false;
            }
            i += 1;
        }
        true
    }

    /// Adds a well-formed entity behind the others and returns its index. An
    /// entity that is not well formed is refused, and the world stays as it is.
    pub fn spawn(&mut self, e: Entity) -> (id: Option<usize>)
        requires
            old(self).wf(),
        ensures
            final(self).wf(),
            e.wf() ==> id == Some(old(self)@.entities.len() as usize) && final(self)@ == old(
                self,
            )@.with_spawned(e),
            !e.wf() ==> id is None && final(self)@ == old(self)@,
    {
        if e.is_wf() {
            let id = self.entities.len();
            self.entities.push(e);
            Some(id)
        } else {
            None
        }
    }

    /// Asks that entity `id` be removed at the next flush. Until then it
    /// stays visible to every system. An index that names no entity is
    /// ignored.
    pub fn despawn(&mut self, id: usize)
        ensures
            final(self)@ == old(self)@.with_despawn_requested(id as int),
            old(self).wf() ==> final(self).wf(),
    {
        if id < self.entities.len() {
            self.entities[id].despawn_requested = true;
        }
    }

    /// Asks that the gun of entity `message.entity` fire when guns are next
    /// served.
    pub fn send(&mut self, message: ShootMessage)
        ensures
            final(self)@ == (WorldView {
                messages: old(self)@.messages.push(message),
                ..old(self)@
            }),
    {
        self.messages.push(message);
    }

    /// Removes the entities marked for removal, keeping the others in order,
    /// and drops the fire requests that were not served. Indices handed out
    /// before the flush no longer name the same entities.
    pub fn flush(&mut self)
        ensures
            final(self)@ == old(self)@.flushed(),
            old(self).wf() ==> final(self).wf(),
    {
        let ghost keep = |e: Entity| survives(e);
        let mut kept: Vec<Entity> = Vec::new();
        let n = self.entities.len();
        let mut i: usize = 0;
        while i < n
            invariant
                i <= n,
                n == self.entities.len(),
                keep == |e: Entity| survives(e),
                kept@ == self.entities@.take(i as int).filter(keep),
                *self == *old(self),
            decreases n - i,
        {
            let e = self.entities[i];
            proof {
                reveal(Seq::filter);
                let next = self.entities@.take(i + 1);
                assert(next.drop_last() =~= self.entities@.take(i as int));
            }
            if !e.despawn_requested {
                kept.push(e);
            }
            i += 1;
        }
        proof {
            assert(self.entities@.take(n as int) =~= self.entities@);
            if old(self).wf() {
                assert forall|k: int| 0 <= k < kept@.len() implies (#[trigger] kept@[k]).wf() by {
                    old(self).entities@.lemma_filter_contains_rev(keep, kept@[k]);
                }
            }
        }
        self.entities = kept;
        self.messages = Vec::new();
    }
}

} // verus!
