//! Guns and projectiles.
use vstd::prelude::*;
use crate::crystal::{dropped_crystal, spawn_crystal};
use crate::fixed::{
    div_trunc, lemma_mul_bounds, lemma_trunc_div_remainder, saturate, saturate_i128, trunc_div,
    COORD_LIMIT, RADIUS_LIMIT, SCALE, SPEED_LIMIT, TIME_LIMIT,
};
use crate::health::Health;
use crate::physics::Velocity;
use crate::search::{first_index, lemma_first_index, lemma_first_index_found};
use crate::team::Team;
use crate::transform::Transform;
use crate::vec2::{distance_squared, lemma_shrunk_square, lemma_unit_length, Vec2};
use crate::world::{Entity, World, WorldView};

verus! {

/// Time that a projectile flies.
pub const PROJECTILE_LIFETIME: i64 = 1_000;

/// Radius of a projectile.
pub const PROJECTILE_RADIUS: i64 = 5_000;

/// Hit points that a projectile takes.
pub const PROJECTILE_DAMAGE: i32 = 1;

/// Speed at which a crystal is knocked out of an asteroid.
pub const IMPACT_SPEED: i64 = 50_000;

/// A weapon: it fires at most once per `cooldown`.
#[derive(Clone, Copy, Debug, PartialEq, Eq)]
pub struct Gun {
    /// Time between two shots.
    pub cooldown: i64,
    /// Time left until the next shot is allowed; ready when zero or less.
    pub timer: i64,
    /// Speed given to a projectile.
    pub projectile_speed: i64,
}

/// A shot in flight.
#[derive(Clone, Copy, Debug, PartialEq, Eq)]
pub struct Projectile {
    /// Time left to fly.
    pub lifetime: i64,
    pub radius: i64,
    pub damage: i32,
    /// The side that fired it.
    pub team: Team,
}

/// A request that the gun of `entity` fire.
#[derive(Clone, Copy, Debug, PartialEq, Eq)]
pub struct ShootMessage {
    pub entity: usize,
}

impl Gun {
    /// The cooldown is not negative, and every number is inside its range.
    pub open spec fn wf(self) -> bool {
        &&& 0 <= self.cooldown <= TIME_LIMIT
        &&& -TIME_LIMIT <= self.timer <= TIME_LIMIT
        &&& -SPEED_LIMIT <= self.projectile_speed <= SPEED_LIMIT
    }

    /// Tells whether the numbers of the gun are inside their ranges.
    pub fn is_wf(&self) -> (b: bool)
        ensures
            b == self.wf(),
    {
        0 <= self.cooldown && self.cooldown <= TIME_LIMIT && -TIME_LIMIT <= self.timer
            && self.timer <= TIME_LIMIT && -SPEED_LIMIT <= self.projectile_speed
            && self.projectile_speed <= SPEED_LIMIT
    }
}

impl Projectile {
    /// The radius is not negative, and every number is inside its range.
    pub open spec fn wf(self) -> bool {
        &&& -TIME_LIMIT <= self.lifetime <= TIME_LIMIT
        &&& 0 <= self.radius <= RADIUS_LIMIT
    }

    /// Tells whether the numbers of the projectile are inside their ranges.
    pub fn is_wf(&self) -> (b: bool)
        ensures
            b == self.wf(),
    {
        -TIME_LIMIT <= self.lifetime && self.lifetime <= TIME_LIMIT && 0 <= self.radius
            && self.radius <= RADIUS_LIMIT
    }
}

impl Gun {
    /// The gun `dt` milliseconds later: its timer has run down by `dt`.
    pub open spec fn ticked(self, dt: int) -> Gun {
        Gun { timer: saturate(self.timer - dt, TIME_LIMIT as int) as i64, ..self }
    }

    /// The gun may fire: its timer has run out.
    pub open spec fn ready(self) -> bool {
        self.timer <= 0
    }

    /// The gun after a shot: its timer is set to the cooldown.
    pub open spec fn reloaded(self) -> Gun {
        Gun { timer: self.cooldown, ..self }
    }

    /// Lets `dt` milliseconds pass.
    pub fn tick(&self, dt: u32) -> (g: Gun)
        requires
            self.wf(),
        ensures
            g == self.ticked(dt as int),
            g.wf(),
    {
        Gun {
            cooldown: self.cooldown,
            timer: saturate_i128(self.timer as i128 - dt as i128, TIME_LIMIT),
            projectile_speed: self.projectile_speed,
        }
    }

    /// Tells whether the gun may fire.
    pub fn is_ready(&self) -> (b: bool)
        ensures
            b == self.ready(),
    {
        self.timer <= 0
    }

    /// Starts the cooldown after a shot.
    pub fn reload(&self) -> (g: Gun)
        ensures
            g == self.reloaded(),
            self.wf() ==> g.wf(),
    {
        Gun { cooldown: self.cooldown, timer: self.cooldown, projectile_speed: self.projectile_speed }
    }
}

/// The entity can fire: it has a gun, and a team to fire for.
pub open spec fn armed(e: Entity) -> bool {
    e.gun is Some && e.team is Some
}

/// The entity `dt` milliseconds later, as far as its gun goes: the timer of
/// every gun runs down.
pub open spec fn cooled(e: Entity, dt: int) -> Entity {
    match e.gun {
        Some(g) => Entity { gun: Some(g.ticked(dt)), ..e },
        None => e,
    }
}

/// The velocity of a projectile fired at `speed` by an entity that faces
/// along `heading`.
pub open spec fn muzzle_velocity(heading: Vec2, speed: int) -> Vec2 {
    Vec2 {
        x: trunc_div(heading.x * speed, SCALE as int) as i64,
        y: trunc_div(heading.y * speed, SCALE as int) as i64,
    }
}

/// The projectile that the armed entity `e` fires: it starts where `e` is,
/// flies the way `e` faces at the speed of the gun, and is of `e`'s team.
pub open spec fn shot_by(e: Entity) -> Entity {
    Entity {
        projectile: Some(
            Projectile {
                lifetime: PROJECTILE_LIFETIME,
                radius: PROJECTILE_RADIUS,
                damage: PROJECTILE_DAMAGE,
                team: e.team.unwrap(),
            },
        ),
        velocity: Some(
            Velocity(muzzle_velocity(e.transform.heading, e.gun.unwrap().projectile_speed as int)),
        ),
        ..Entity::bare(Transform::at(e.transform.translation))
    }
}

/// The entities after a request that entity `id` fire: if it is armed and
/// its gun is ready, the cooldown starts and the projectile is added behind
/// the other entities. Otherwise the request is ignored.
pub open spec fn fire(s: Seq<Entity>, id: int) -> Seq<Entity> {
    if 0 <= id < s.len() && armed(s[id]) && s[id].gun.unwrap().ready() {
        s.update(id, Entity { gun: Some(s[id].gun.unwrap().reloaded()), ..s[id] }).push(
            shot_by(s[id]),
        )
    } else {
        s
    }
}

/// The entities after the requests from the `k`-th on were served in order.
pub open spec fn serve(s: Seq<Entity>, messages: Seq<ShootMessage>, k: int) -> Seq<Entity>
    decreases messages.len() - k,
{
    if k < 0 || k >= messages.len() {
        s
    } else {
        serve(fire(s, messages[k].entity as int), messages, k + 1)
    }
}

/// The world after guns were served: every timer has run down by `dt`, then
/// the requests were served in order, and none is left.
pub open spec fn after_gun_system(w: WorldView, dt: int) -> WorldView {
    WorldView {
        entities: serve(w.entities.map_values(|e: Entity| cooled(e, dt)), w.messages, 0),
        messages: Seq::empty(),
        ..w
    }
}

/// Lets `dt` milliseconds pass for the gun of an entity.
pub fn cool(e: &Entity, dt: u32) -> (r: Entity)
    requires
        e.wf(),
    ensures
        r == cooled(*e, dt as int),
        r.wf(),
{
    match e.gun {
        Some(g) => {
            let mut r = *e;
            r.gun = Some(g.tick(dt));
            r
        },
        None => *e,
    }
}

/// The projectile that the entity fires, if it is armed.
pub fn shoot(e: &Entity) -> (r: Option<Entity>)
    requires
        e.wf(),
    ensures
        armed(*e) ==> r == Some(shot_by(*e)) && shot_by(*e).wf(),
        !armed(*e) ==> r is None,
{
    match (e.gun, e.team) {
        (Some(g), Some(team)) => {
            let hx: i128 = e.transform.heading.x as i128;
            let hy: i128 = e.transform.heading.y as i128;
            let speed: i128 = g.projectile_speed as i128;
            proof {
                lemma_mul_bounds(hx as int, speed as int, SCALE as int, SPEED_LIMIT as int);
                lemma_mul_bounds(hy as int, speed as int, SCALE as int, SPEED_LIMIT as int);
                lemma_muzzle_in_range(e.transform.heading, speed as int);
            }
            let vx = div_trunc(hx * speed, SCALE as i128) as i64;
            let vy = div_trunc(hy * speed, SCALE as i128) as i64;
            let mut p = Entity::new(Transform::from_translation(e.transform.translation));
            p.projectile = Some(
                Projectile {
                    lifetime: PROJECTILE_LIFETIME,
                    radius: PROJECTILE_RADIUS,
                    damage: PROJECTILE_DAMAGE,
                    team,
                },
            );
            p.velocity = Some(Velocity(Vec2 { x: vx, y: vy }));
            Some(p)
        },
        _ => None,
    }
}

/// Serves the guns: lets `dt` milliseconds pass for every gun, then takes
/// the fire requests in order. A request for an entity that has a gun and a
/// team, and whose gun is ready, spawns a projectile and starts the cooldown;
/// any other request is ignored. No request is left afterwards.
pub fn gun_system(world: &mut World, dt: u32)
    requires
        old(world).wf(),
    ensures
        final(world).wf(),
        final(world)@ == after_gun_system(old(world)@, dt as int),
{
    let n = world.entities.len();
    let mut i: usize = 0;
    while i < n
        invariant
            i <= n,
            n == world.entities.len(),
            n == old(world).entities.len(),
            world.messages == old(world).messages,
            world.score == old(world).score,
            world.sinibombs == old(world).sinibombs,
            world.camera == old(world).camera,
            world.wf(),
            forall|k: int|
                0 <= k < i ==> #[trigger] world.entities@[k] == cooled(
                    old(world).entities@[k],
                    dt as int,
                ),
            forall|k: int| i <= k < n ==> #[trigger] world.entities@[k] == old(world).entities@[k],
        decreases n - i,
    {
        assert(world@.entities[i as int].wf());
        let e = cool(&world.entities[i], dt);
        world.entities[i] = e;
        i += 1;
    }
    let ghost cooled_all = old(world)@.entities.map_values(|e: Entity| cooled(e, dt as int));
    assert(world.entities@ =~= cooled_all);
    let m = world.messages.len();
    let mut k: usize = 0;
    while k < m
        invariant
            k <= m,
            m == world.messages.len(),
            world.messages == old(world).messages,
            world.score == old(world).score,
            world.sinibombs == old(world).sinibombs,
            world.camera == old(world).camera,
            world.wf(),
            serve(world.entities@, world.messages@, k as int) == serve(
                cooled_all,
                old(world).messages@,
                0,
            ),
        decreases m - k,
    {
        let id = world.messages[k].entity;
        if id < world.entities.len() {
            assert(world@.entities[id as int].wf());
            let e = world.entities[id];
            match (e.gun, shoot(&e)) {
                (Some(g), Some(p)) => {
                    if g.is_ready() {
                        let mut r = e;
                        r.gun = Some(g.reload());
                        world.entities[id] = r;
                        world.entities.push(p);
                    }
                },
                _ => {},
            }
        }
        k += 1;
    }
    let ghost served = world@.entities;
    world.messages = Vec::new();
    assert forall|j: int| 0 <= j < world@.entities.len() implies (#[trigger] world@.entities[j]).wf() by {
        assert(served[j].wf());
    }
}

/// Where a crystal is to be dropped, and the velocity that the impact gave it.
#[derive(Clone, Copy, Debug, PartialEq, Eq)]
pub struct CrystalDrop {
    pub position: Vec2,
    pub impact: Vec2,
}

/// The entity is a projectile in flight: it has the projectile component
/// and a velocity.
pub open spec fn flying(e: Entity) -> bool {
    e.projectile is Some && e.velocity is Some
}

/// The entity can be hit: it has a collider, health and a team.
pub open spec fn is_target(e: Entity) -> bool {
    e.collider is Some && e.health is Some && e.team is Some
}

/// The projectile `p` hits `t`: `t` can be hit, the projectile's team is
/// hostile to `t`'s, and the two overlap. A projectile of no team, or of the
/// target's team, never hits.
pub open spec fn hits(p: Entity, t: Entity) -> bool {
    &&& p.projectile is Some
    &&& is_target(t)
    &&& p.projectile.unwrap().team.hostile_to(t.team.unwrap())
    &&& distance_squared(p.transform.translation, t.transform.translation) < (
    p.projectile.unwrap().radius + t.collider.unwrap().radius) * (p.projectile.unwrap().radius
        + t.collider.unwrap().radius)
}

/// The projectile `dt` milliseconds later, as far as its lifetime goes.
pub open spec fn aged(e: Entity, dt: int) -> Entity {
    match e.projectile {
        Some(p) => Entity {
            projectile: Some(
                Projectile { lifetime: saturate(p.lifetime - dt, TIME_LIMIT as int) as i64, ..p },
            ),
            ..e
        },
        None => e,
    }
}

/// The velocity that a projectile flying at `velocity` gives a crystal that
/// it knocks loose: `IMPACT_SPEED` along its direction.
pub open spec fn impact_of(velocity: Vec2) -> Vec2 {
    Vec2 {
        x: trunc_div(velocity.normalized().x * IMPACT_SPEED, SCALE as int) as i64,
        y: trunc_div(velocity.normalized().y * IMPACT_SPEED, SCALE as int) as i64,
    }
}

/// The first entity that projectile `i` hits, in the order of the indices.
pub open spec fn first_hit(s: Seq<Entity>, i: int) -> Option<int> {
    first_index(|j: int| hits(s[i], s[j]), s.len() as int)
}

/// Entities and crystals to drop after projectile `i` has struck target
/// `j`: the projectile is marked for removal, the target loses the
/// projectile's damage in health and is marked for removal if none is left,
/// and a struck asteroid is to drop a crystal where it is.
pub open spec fn struck(s: Seq<Entity>, drops: Seq<CrystalDrop>, i: int, j: int) -> (
    Seq<Entity>,
    Seq<CrystalDrop>,
) {
    let p = s[i];
    let s1 = s.update(i, Entity { despawn_requested: true, ..p });
    let t = s1[j];
    let h = t.health.unwrap().damaged(p.projectile.unwrap().damage);
    let s2 = s1.update(
        j,
        Entity { health: Some(h), despawn_requested: t.despawn_requested || h.depleted(), ..t },
    );
    if t.asteroid is Some {
        (
            s2,
            drops.push(
                CrystalDrop {
                    position: t.transform.translation,
                    impact: impact_of(p.velocity.unwrap().0),
                },
            ),
        )
    } else {
        (s2, drops)
    }
}

/// Entities and crystals to drop after entity `i` had its turn as a
/// projectile. Its lifetime runs down by `dt`; if none is left it is marked for
/// removal and that is all. Otherwise it strikes the first entity that it
/// hits, if there is one, and looks no further.
pub open spec fn projectile_step(s: Seq<Entity>, drops: Seq<CrystalDrop>, i: int, dt: int) -> (
    Seq<Entity>,
    Seq<CrystalDrop>,
) {
    if 0 <= i < s.len() && flying(s[i]) {
        let a = aged(s[i], dt);
        if a.projectile.unwrap().lifetime <= 0 {
            (s.update(i, Entity { despawn_requested: true, ..a }), drops)
        } else {
            let s1 = s.update(i, a);
            match first_hit(s1, i) {
                Some(j) => struck(s1, drops, i, j),
                None => (s1, drops),
            }
        }
    } else {
        (s, drops)
    }
}

/// Entities and crystals to drop after the entities from `i` up to `n` had
/// their turn as projectiles, one after the other.
pub open spec fn strike_from(
    s: Seq<Entity>,
    drops: Seq<CrystalDrop>,
    i: int,
    n: int,
    dt: int,
) -> (Seq<Entity>, Seq<CrystalDrop>)
    decreases n - i,
{
    if i < 0 || i >= n {
        (s, drops)
    } else {
        let r = projectile_step(s, drops, i, dt);
        strike_from(r.0, r.1, i + 1, n, dt)
    }
}

/// `after` is what a run of the projectiles for `dt` milliseconds can make
/// of `before`: every projectile had its turn, and then one crystal was
/// dropped, with a random drift, for each asteroid that was struck.
pub open spec fn projectile_outcome(before: WorldView, after: WorldView, dt: int) -> bool {
    let hit = strike_from(
        before.entities,
        Seq::empty(),
        0,
        before.entities.len() as int,
        dt,
    );
    &&& after.entities.len() == hit.0.len() + hit.1.len()
    &&& after.entities.subrange(0, hit.0.len() as int) == hit.0
    &&& forall|k: int|
        0 <= k < hit.1.len() ==> dropped_crystal(
            #[trigger] after.entities[hit.0.len() + k],
            hit.1[k].position,
            hit.1[k].impact,
        )
    &&& after.messages == before.messages
    &&& after.score == before.score
    &&& after.sinibombs == before.sinibombs
    &&& after.camera == before.camera
}

/// Tells whether the projectile `p` hits `t`.
pub fn projectile_hits(p: &Entity, t: &Entity) -> (b: bool)
    requires
        p.wf(),
        t.wf(),
    ensures
        b == hits(*p, *t),
{
    match (p.projectile, t.collider, t.health, t.team) {
        (Some(shot), Some(c), Some(_), Some(team)) => {
            if !shot.team.is_hostile_to(&team) {
                return false;
            }
            let reach: i128 = shot.radius as i128 + c.radius as i128;
            proof {
                lemma_mul_bounds(reach as int, reach as int, 2 * RADIUS_LIMIT, 2 * RADIUS_LIMIT);
            }
            let dd = p.transform.translation.distance_squared_to(&t.transform.translation);
            dd < reach * reach
        },
        _ => false,
    }
}

/// Lets `dt` milliseconds of a projectile's lifetime pass.
pub fn age(e: &Entity, dt: u32) -> (r: Entity)
    requires
        e.wf(),
    ensures
        r == aged(*e, dt as int),
        r.wf(),
{
    match e.projectile {
        Some(p) => {
            let mut r = *e;
            r.projectile = Some(
                Projectile {
                    lifetime: saturate_i128(p.lifetime as i128 - dt as i128, TIME_LIMIT),
                    radius: p.radius,
                    damage: p.damage,
                    team: p.team,
                },
            );
            r
        },
        None => *e,
    }
}

/// The velocity that a projectile flying at `velocity` gives a crystal that
/// it knocks loose.
pub fn impact_direction(velocity: &Vec2) -> (v: Vec2)
    requires
        velocity.within(SPEED_LIMIT as int),
    ensures
        v == impact_of(*velocity),
        v.within(IMPACT_SPEED as int),
{
    let n = velocity.normalize_or_zero();
    proof {
        lemma_scaled_length(n, IMPACT_SPEED as int);
    }
    Vec2 {
        x: div_trunc(n.x as i128 * IMPACT_SPEED as i128, SCALE as i128) as i64,
        y: div_trunc(n.y as i128 * IMPACT_SPEED as i128, SCALE as i128) as i64,
    }
}

/// A vector no longer than a unit vector, stretched to `length`, is no
/// longer than `length`.
pub proof fn lemma_scaled_length(h: Vec2, length: int)
    requires
        h.length_squared() <= SCALE * SCALE,
    ensures
        trunc_div(h.x * length, SCALE as int) * trunc_div(h.x * length, SCALE as int) + trunc_div(
            h.y * length,
            SCALE as int,
        ) * trunc_div(h.y * length, SCALE as int) <= length * length,
        length >= 0 ==> -length <= trunc_div(h.x * length, SCALE as int) <= length,
        length >= 0 ==> -length <= trunc_div(h.y * length, SCALE as int) <= length,
{
    let s = SCALE as int;
    let qx = trunc_div(h.x * length, s);
    let qy = trunc_div(h.y * length, s);
    lemma_trunc_div_remainder(h.x * length, s);
    lemma_trunc_div_remainder(h.y * length, s);
    lemma_shrunk_square(qx, h.x * length, s);
    lemma_shrunk_square(qy, h.y * length, s);
    let hx = h.x as int;
    let hy = h.y as int;
    let ss = s * s;
    let ll = length * length;
    assert((hx * length) * (hx * length) == (hx * hx) * ll && (hy * length) * (hy * length) == (hy
        * hy) * ll) by (nonlinear_arith)
        requires
            ll == length * length,
    ;
    assert((hx * hx) * ll + (hy * hy) * ll <= ss * ll) by (nonlinear_arith)
        requires
            hx * hx + hy * hy <= ss,
            ll == length * length,
    ;
    assert((qx * qx + qy * qy) * ss == (qx * qx) * ss + (qy * qy) * ss) by (nonlinear_arith);
    assert((qx * qx + qy * qy) * (s * s) <= (length * length) * (s * s)) by (nonlinear_arith)
        requires
            (qx * qx + qy * qy) * ss <= ss * ll,
            ss == s * s,
            ll == length * length,
    ;
    assert(qx * qx + qy * qy <= length * length) by (nonlinear_arith)
        requires
            (qx * qx + qy * qy) * (s * s) <= (length * length) * (s * s),
            s == 1000,
    ;
    if length >= 0 {
        assert(-length <= qx <= length && -length <= qy <= length) by (nonlinear_arith)
            requires
                qx * qx + qy * qy <= length * length,
                length >= 0,
        ;
    }
}

/// A projectile is no faster than its gun fires: the length of its velocity
/// is no more than the speed of the gun.
pub proof fn projectile_is_no_faster_than_its_gun(e: Entity)
    requires
        e.wf(),
        armed(e),
    ensures
        shot_by(e).velocity.unwrap().0.length_squared() <= e.gun.unwrap().projectile_speed
            * e.gun.unwrap().projectile_speed,
{
    let speed = e.gun.unwrap().projectile_speed as int;
    lemma_scaled_length(e.transform.heading, speed);
    assert(-SPEED_LIMIT <= speed <= SPEED_LIMIT);
    if speed < 0 {
        lemma_scaled_length(e.transform.heading, -speed);
        assert(speed * speed == (-speed) * (-speed)) by (nonlinear_arith);
    }
    lemma_muzzle_in_range(e.transform.heading, speed);
}

/// The velocity of a projectile fits the range of velocities.
proof fn lemma_muzzle_in_range(h: Vec2, speed: int)
    requires
        h.length_squared() <= SCALE * SCALE,
        -SPEED_LIMIT <= speed <= SPEED_LIMIT,
    ensures
        -SPEED_LIMIT <= trunc_div(h.x * speed, SCALE as int) <= SPEED_LIMIT,
        -SPEED_LIMIT <= trunc_div(h.y * speed, SCALE as int) <= SPEED_LIMIT,
{
    lemma_scaled_length(h, speed);
    let qx = trunc_div(h.x * speed, SCALE as int);
    let qy = trunc_div(h.y * speed, SCALE as int);
    assert(-SPEED_LIMIT <= qx <= SPEED_LIMIT && -SPEED_LIMIT <= qy <= SPEED_LIMIT)
        by (nonlinear_arith)
        requires
            qx * qx + qy * qy <= speed * speed,
            -SPEED_LIMIT <= speed <= SPEED_LIMIT,
    ;
}

/// The velocity that an impact gives a crystal is no longer than
/// `IMPACT_SPEED`, however slow the projectile.
pub proof fn impact_is_no_faster_than_impact_speed(velocity: Vec2)
    ensures
        impact_of(velocity).length_squared() <= IMPACT_SPEED * IMPACT_SPEED,
{
    lemma_unit_length(velocity.x as int, velocity.y as int);
    lemma_scaled_length(velocity.normalized(), IMPACT_SPEED as int);
}

/// The first entity that projectile `i` hits.
fn find_hit(entities: &Vec<Entity>, i: usize) -> (r: Option<usize>)
    requires
        i < entities.len(),
        forall|k: int| 0 <= k < entities.len() ==> (#[trigger] entities@[k]).wf(),
    ensures
        match r {
            Some(j) => first_hit(entities@, i as int) == Some(j as int) && j < entities.len()
                && hits(entities@[i as int], entities@[j as int]),
            None => first_hit(entities@, i as int) is None,
        },
{
    let ghost p = |j: int| hits(entities@[i as int], entities@[j]);
    let n = entities.len();
    let mut j: usize = 0;
    while j < n
        invariant
            j <= n,
            n == entities.len(),
            i < n,
            p == |j: int| hits(entities@[i as int], entities@[j]),
            forall|k: int| 0 <= k < entities.len() ==> (#[trigger] entities@[k]).wf(),
            forall|k: int| 0 <= k < j ==> !#[trigger] p(k),
        decreases n - j,
    {
        if projectile_hits(&entities[i], &entities[j]) {
            proof {
                lemma_first_index_found(p, n as int, j as int);
            }
            return Some(j);
        }
        j += 1;
    }
    None
}

/// Runs the projectiles for `dt` milliseconds. Each projectile in flight
/// first loses `dt` of its lifetime and is marked for removal if none is
/// left. Otherwise it strikes the first entity that it hits: it is itself
/// marked for removal, the target loses health and is marked for removal if
/// none is left, and a struck asteroid drops a crystal where it is, knocked
/// along the projectile's way with a random drift. Targets of the
/// projectile's own team, and all targets of a projectile without a team,
/// are passed over.
pub fn projectile_system(world: &mut World, dt: u32)
    requires
        old(world).wf(),
    ensures
        final(world).wf(),
        projectile_outcome(old(world)@, final(world)@, dt as int),
{
    let n = world.entities.len();
    let mut drops: Vec<CrystalDrop> = Vec::new();
    let mut i: usize = 0;
    while i < n
        invariant
            i <= n,
            n == world.entities.len(),
            n == old(world).entities.len(),
            world.messages == old(world).messages,
            world.score == old(world).score,
            world.sinibombs == old(world).sinibombs,
            world.camera == old(world).camera,
            world.wf(),
            forall|k: int|
                0 <= k < drops.len() ==> (#[trigger] drops@[k]).position.within(
                    COORD_LIMIT as int,
                ),
            strike_from(world.entities@, drops@, i as int, n as int, dt as int) == strike_from(
                old(world).entities@,
                Seq::empty(),
                0,
                n as int,
                dt as int,
            ),
        decreases n - i,
    {
        assert(world@.entities[i as int].wf());
        let e = world.entities[i];
        match (e.projectile, e.velocity) {
            (Some(_), Some(v)) => {
                let mut a = age(&e, dt);
                let spent = match a.projectile {
                    Some(p) => p.lifetime <= 0,
                    None => true,
                };
                if spent {
                    a.despawn_requested = true;
                    world.entities[i] = a;
                } else {
                    world.entities[i] = a;
                    match find_hit(&world.entities, i) {
                        Some(j) => {
                            let mut p = world.entities[i];
                            p.despawn_requested = true;
                            world.entities[i] = p;
                            let mut t = world.entities[j];
                            match (t.health, a.projectile) {
                                (Some(h), Some(shot)) => {
                                    let left = h.damage(shot.damage);
                                    if left.is_depleted() {
                                        t.despawn_requested = true;
                                    }
                                    t.health = Some(left);
                                    if t.asteroid.is_some() {
                                        drops.push(
                                            CrystalDrop {
                                                position: t.transform.translation,
                                                impact: impact_direction(&v.0),
                                            },
                                        );
                                    }
                                    world.entities[j] = t;
                                },
                                _ => {},
                            }
                        },
                        None => {},
                    }
                }
            },
            _ => {},
        }
        i += 1;
    }
    let ghost hit = (world.entities@, drops@);
    let m = drops.len();
    let mut k: usize = 0;
    while k < m
        invariant
            k <= m,
            m == drops.len(),
            hit.1 == drops@,
            hit.0.len() == n,
            world.entities.len() == n + k,
            world@.messages == old(world)@.messages,
            world@.score == old(world)@.score,
            world@.sinibombs == old(world)@.sinibombs,
            world@.camera == old(world)@.camera,
            world.wf(),
            forall|q: int|
                0 <= q < drops.len() ==> (#[trigger] drops@[q]).position.within(
                    COORD_LIMIT as int,
                ),
            world.entities@.subrange(0, n as int) == hit.0,
            forall|q: int|
                0 <= q < k ==> dropped_crystal(
                    #[trigger] world.entities@[n + q],
                    hit.1[q].position,
                    hit.1[q].impact,
                ),
        decreases m - k,
    {
        let d = drops[k];
        spawn_crystal(world, d.position, d.impact);
        k += 1;
    }
}

/// A projectile never hits a target of its own team, and a projectile
/// without a team hits nothing.
pub proof fn own_team_is_never_hit(p: Entity, t: Entity)
    requires
        p.projectile is Some,
        p.projectile.unwrap().team == Team::Neutral || t.team == Some(p.projectile.unwrap().team),
    ensures
        !hits(p, t),
{
}

/// A projectile that meets only targets it is not hostile to, and whose
/// lifetime has not run out, flies on: its turn changes nothing but its
/// lifetime. No health changes, nothing is marked for removal, and no
/// crystal is dropped.
pub proof fn projectile_among_friends_flies_on(
    s: Seq<Entity>,
    drops: Seq<CrystalDrop>,
    i: int,
    dt: int,
)
    requires
        0 <= i < s.len(),
        flying(s[i]),
        aged(s[i], dt).projectile.unwrap().lifetime > 0,
        forall|j: int|
            0 <= j < s.len() && is_target(#[trigger] s[j]) ==> !s[i].projectile.unwrap().team.hostile_to(
                s[j].team.unwrap(),
            ),
    ensures
        projectile_step(s, drops, i, dt) == (s.update(i, aged(s[i], dt)), drops),
{
    let s1 = s.update(i, aged(s[i], dt));
    let p = |j: int| hits(s1[i], s1[j]);
}

/// What a run of the projectiles never changes of an entity: all of it but
/// the lifetime of a projectile, the hit points, and the mark for removal.
pub open spec fn outline(e: Entity) -> Entity {
    Entity {
        projectile: match e.projectile {
            Some(p) => Some(Projectile { lifetime: 0, ..p }),
            None => None,
        },
        health: match e.health {
            Some(_) => Some(Health(0)),
            None => None,
        },
        despawn_requested: false,
        ..e
    }
}

/// Projectile `i`, after `dt` more milliseconds of flight, hits some entity.
pub open spec fn strikes_something(s: Seq<Entity>, i: int, dt: int) -> bool {
    exists|j: int| 0 <= j < s.len() && hits(aged(s[i], dt), #[trigger] s[j])
}

/// Projectile `i` after its turn: its lifetime has run down by `dt`, and it
/// is marked for removal if it was before, if no lifetime is left, or if it
/// hits something.
pub open spec fn after_own_turn(s: Seq<Entity>, i: int, dt: int) -> Entity {
    let a = aged(s[i], dt);
    Entity {
        despawn_requested: s[i].despawn_requested || a.projectile.unwrap().lifetime <= 0
            || strikes_something(s, i, dt),
        ..a
    }
}

/// A turn keeps the number of entities and the outline of each. What is
/// neither the projectile whose turn it is nor something that can be hit
/// stays as it is.
proof fn lemma_turn_keeps_outlines(s: Seq<Entity>, drops: Seq<CrystalDrop>, i: int, dt: int)
    ensures
        projectile_step(s, drops, i, dt).0.len() == s.len(),
        forall|k: int|
            0 <= k < s.len() ==> outline(#[trigger] projectile_step(s, drops, i, dt).0[k])
                == outline(s[k]),
        forall|k: int|
            0 <= k < s.len() && k != i && !is_target(s[k]) ==> #[trigger] projectile_step(
                s,
                drops,
                i,
                dt,
            ).0[k] == s[k],
{
    if 0 <= i < s.len() && flying(s[i]) {
        let a = aged(s[i], dt);
        if a.projectile.unwrap().lifetime > 0 {
            let s1 = s.update(i, a);
            lemma_first_index(|j: int| hits(s1[i], s1[j]), s1.len() as int);
        }
    }
}

/// What its own turn makes of a projectile that cannot itself be hit.
proof fn lemma_own_turn(s: Seq<Entity>, drops: Seq<CrystalDrop>, i: int, dt: int)
    requires
        0 <= i < s.len(),
        flying(s[i]),
        !is_target(s[i]),
    ensures
        projectile_step(s, drops, i, dt).0[i] == after_own_turn(s, i, dt),
{
    let a = aged(s[i], dt);
    if a.projectile.unwrap().lifetime > 0 {
        let s1 = s.update(i, a);
        let p = |j: int| hits(s1[i], s1[j]);
        lemma_first_index(p, s1.len() as int);
        match first_index(p, s1.len() as int) {
            Some(j) => {
                assert(p(j));
                assert(j != i);
                assert(hits(aged(s[i], dt), s[j]));
            },
            None => {
                assert forall|j: int| 0 <= j < s.len() implies !hits(
                    aged(s[i], dt),
                    #[trigger] s[j],
                ) by {
                    assert(!p(j));
                }
            },
        }
    }
}

/// Whether a projectile hits depends only on the outlines of the two.
proof fn lemma_hits_reads_outlines(p: Entity, t: Entity, q: Entity, u: Entity, dt: int)
    requires
        outline(p) == outline(q),
        outline(t) == outline(u),
    ensures
        hits(aged(p, dt), t) == hits(aged(q, dt), u),
{
    assert(outline(p).projectile == outline(q).projectile);
    assert(outline(p).transform == outline(q).transform);
    assert(outline(t).collider == outline(u).collider);
    assert(outline(t).team == outline(u).team);
    assert(outline(t).health == outline(u).health);
    assert(outline(t).transform == outline(u).transform);
}

/// The turns from `t` on bring a projectile that cannot itself be hit to
/// what its own turn makes of it, and then leave it alone.
proof fn lemma_turns_from(
    s: Seq<Entity>,
    drops: Seq<CrystalDrop>,
    t: int,
    dt: int,
    s0: Seq<Entity>,
    i: int,
)
    requires
        s.len() == s0.len(),
        0 <= t <= s.len(),
        0 <= i < s.len(),
        flying(s0[i]),
        !is_target(s0[i]),
        forall|k: int| 0 <= k < s.len() ==> outline(#[trigger] s[k]) == outline(s0[k]),
        i >= t ==> s[i] == s0[i],
        i < t ==> s[i] == after_own_turn(s0, i, dt),
    ensures
        strike_from(s, drops, t, s.len() as int, dt).0.len() == s.len(),
        strike_from(s, drops, t, s.len() as int, dt).0[i] == after_own_turn(s0, i, dt),
    decreases s.len() - t,
{
    if t < s.len() {
        let r = projectile_step(s, drops, t, dt);
        lemma_turn_keeps_outlines(s, drops, t, dt);
        assert(outline(s[i]) == outline(s0[i]));
        assert(is_target(s[i]) == is_target(s0[i]));
        if t == i {
            lemma_own_turn(s, drops, i, dt);
            if strikes_something(s, i, dt) {
                let j = choose|j: int| 0 <= j < s.len() && hits(aged(s[i], dt), #[trigger] s[j]);
                assert(outline(s[j]) == outline(s0[j]));
                lemma_hits_reads_outlines(s[i], s[j], s0[i], s0[j], dt);
                assert(hits(aged(s0[i], dt), s0[j]));
            }
            if strikes_something(s0, i, dt) {
                let j = choose|j: int|
                    0 <= j < s0.len() && hits(aged(s0[i], dt), #[trigger] s0[j]);
                assert(outline(s[j]) == outline(s0[j]));
                lemma_hits_reads_outlines(s[i], s[j], s0[i], s0[j], dt);
                assert(hits(aged(s[i], dt), s[j]));
            }
        } else {
            assert(r.0[i] == s[i]);
        }
        assert forall|k: int| 0 <= k < r.0.len() implies outline(#[trigger] r.0[k]) == outline(
            s0[k],
        ) by {
            assert(outline(r.0[k]) == outline(s[k]));
            assert(outline(s[k]) == outline(s0[k]));
        }
        lemma_turns_from(r.0, r.1, t + 1, dt, s0, i);
    }
}

/// A turn leaves the projectile component of every entity but the one whose
/// turn it is, and unmarks nothing. The projectile whose turn it is has aged,
/// and is marked if it is spent or strikes something.
proof fn lemma_turn_ages_and_marks(s: Seq<Entity>, drops: Seq<CrystalDrop>, t: int, dt: int)
    requires
        0 <= t < s.len(),
    ensures
        forall|k: int|
            0 <= k < s.len() ==> {
                &&& (#[trigger] projectile_step(s, drops, t, dt).0[k]).projectile == if k == t
                    && flying(s[t]) {
                    aged(s[t], dt).projectile
                } else {
                    s[k].projectile
                }
                &&& s[k].despawn_requested ==> projectile_step(
                    s,
                    drops,
                    t,
                    dt,
                ).0[k].despawn_requested
            },
        flying(s[t]) && (aged(s[t], dt).projectile.unwrap().lifetime <= 0 || strikes_something(
            s,
            t,
            dt,
        )) ==> projectile_step(s, drops, t, dt).0[t].despawn_requested,
{
    if flying(s[t]) {
        let a = aged(s[t], dt);
        if a.projectile.unwrap().lifetime > 0 {
            let s1 = s.update(t, a);
            let p = |j: int| hits(s1[t], s1[j]);
            lemma_first_index(p, s1.len() as int);
            if strikes_something(s, t, dt) {
                let j = choose|j: int| 0 <= j < s.len() && hits(aged(s[t], dt), #[trigger] s[j]);
                assert(p(j));
            }
        }
    }
}

/// The turns from `t` on age a projectile once and leave it marked if it is
/// spent or strikes something. What was marked stays marked.
proof fn lemma_turns_age_and_mark(
    s: Seq<Entity>,
    drops: Seq<CrystalDrop>,
    t: int,
    dt: int,
    s0: Seq<Entity>,
    i: int,
)
    requires
        s.len() == s0.len(),
        0 <= t <= s.len(),
        0 <= i < s.len(),
        flying(s0[i]),
        forall|k: int| 0 <= k < s.len() ==> outline(#[trigger] s[k]) == outline(s0[k]),
        s0[i].despawn_requested ==> s[i].despawn_requested,
        i >= t ==> s[i].projectile == s0[i].projectile,
        i < t ==> s[i].projectile == aged(s0[i], dt).projectile,
        i < t && (aged(s0[i], dt).projectile.unwrap().lifetime <= 0 || strikes_something(
            s0,
            i,
            dt,
        )) ==> s[i].despawn_requested,
    ensures
        strike_from(s, drops, t, s.len() as int, dt).0.len() == s.len(),
        strike_from(s, drops, t, s.len() as int, dt).0[i].projectile == aged(
            s0[i],
            dt,
        ).projectile,
        outline(strike_from(s, drops, t, s.len() as int, dt).0[i]) == outline(s0[i]),
        s0[i].despawn_requested || aged(s0[i], dt).projectile.unwrap().lifetime <= 0
            || strikes_something(s0, i, dt) ==> strike_from(
            s,
            drops,
            t,
            s.len() as int,
            dt,
        ).0[i].despawn_requested,
    decreases s.len() - t,
{
    if t < s.len() {
        let r = projectile_step(s, drops, t, dt);
        lemma_turn_keeps_outlines(s, drops, t, dt);
        lemma_turn_ages_and_marks(s, drops, t, dt);
        assert(outline(s[i]) == outline(s0[i]));
        assert(r.0[i].despawn_requested || !s[i].despawn_requested);
        if t == i {
            assert(flying(s[i]));
            assert(aged(s[i], dt).projectile == aged(s0[i], dt).projectile);
            if strikes_something(s0, i, dt) {
                let j = choose|j: int|
                    0 <= j < s0.len() && hits(aged(s0[i], dt), #[trigger] s0[j]);
                assert(outline(s[j]) == outline(s0[j]));
                lemma_hits_reads_outlines(s[i], s[j], s0[i], s0[j], dt);
                assert(hits(aged(s[i], dt), s[j]));
            }
        }
        assert forall|k: int| 0 <= k < r.0.len() implies outline(#[trigger] r.0[k]) == outline(
            s0[k],
        ) by {
            assert(outline(r.0[k]) == outline(s[k]));
            assert(outline(s[k]) == outline(s0[k]));
        }
        lemma_turns_age_and_mark(r.0, r.1, t + 1, dt, s0, i);
    }
}

/// In a run of the projectiles every projectile in flight, whether or not
/// it can itself be hit, comes out with its lifetime run down by `dt` and
/// otherwise as it was, but for its health and the mark for removal; and it is
/// marked if it was before, if no lifetime is left, or if it hits something.
pub proof fn every_projectile_ages_and_is_removed_when_spent_or_striking(
    before: WorldView,
    after: WorldView,
    i: int,
    dt: int,
)
    requires
        projectile_outcome(before, after, dt),
        0 <= i < before.entities.len(),
        flying(before.entities[i]),
    ensures
        after.entities[i].projectile == aged(before.entities[i], dt).projectile,
        outline(after.entities[i]) == outline(before.entities[i]),
        before.entities[i].despawn_requested || aged(
            before.entities[i],
            dt,
        ).projectile.unwrap().lifetime <= 0 || strikes_something(before.entities, i, dt)
            ==> after.entities[i].despawn_requested,
{
    let s = before.entities;
    lemma_turns_age_and_mark(s, Seq::empty(), 0, dt, s, i);
    let hit = strike_from(s, Seq::empty(), 0, s.len() as int, dt);
    assert(after.entities.subrange(0, hit.0.len() as int)[i] == after.entities[i]);
}

/// In a run of the projectiles, however many are in flight, a projectile
/// that cannot itself be hit comes out with its lifetime run down by `dt`, and
/// marked for removal exactly if it was before, if no lifetime is left, or if
/// it hits something. The turns of the other projectiles leave it alone.
pub proof fn projectile_is_removed_when_spent_or_striking(
    before: WorldView,
    after: WorldView,
    i: int,
    dt: int,
)
    requires
        projectile_outcome(before, after, dt),
        0 <= i < before.entities.len(),
        flying(before.entities[i]),
        !is_target(before.entities[i]),
    ensures
        after.entities[i] == after_own_turn(before.entities, i, dt),
{
    let s = before.entities;
    lemma_turns_from(s, Seq::empty(), 0, dt, s, i);
    let hit = strike_from(s, Seq::empty(), 0, s.len() as int, dt);
    assert(after.entities.subrange(0, hit.0.len() as int)[i] == after.entities[i]);
}

/// A gun that has just fired does not fire again before its cooldown has
/// passed: of two requests less than `cooldown` apart, the second is ignored.
pub proof fn second_shot_within_cooldown_is_ignored(g: Gun, dt: int)
    requires
        g.wf(),
        0 <= dt < g.cooldown,
    ensures
        !g.reloaded().ticked(dt).ready(),
{
}

/// Two requests to an armed entity whose gun is ready, less than its
/// cooldown apart, spawn exactly one projectile: the first adds one entity,
/// and the second, `dt` milliseconds later, changes nothing.
pub proof fn two_requests_within_cooldown_spawn_one_projectile(s: Seq<Entity>, id: int, dt: int)
    requires
        0 <= id < s.len(),
        forall|i: int| 0 <= i < s.len() ==> (#[trigger] s[i]).wf(),
        armed(s[id]),
        s[id].gun.unwrap().ready(),
        0 <= dt < s[id].gun.unwrap().cooldown,
    ensures
        fire(s, id) == s.update(
            id,
            Entity { gun: Some(s[id].gun.unwrap().reloaded()), ..s[id] },
        ).push(shot_by(s[id])),
        fire(s, id).len() == s.len() + 1,
        fire(fire(s, id).map_values(|e: Entity| cooled(e, dt)), id) == fire(s, id).map_values(
            |e: Entity| cooled(e, dt),
        ),
{
    let later = fire(s, id).map_values(|e: Entity| cooled(e, dt));
}

} // verus!
