//! Motion and collisions of round bodies.
use vstd::prelude::*;
use crate::fixed::{
    div_trunc, fine_length, integer_sqrt_up, lemma_fine_length_covers, lemma_isqrt_up,
    lemma_isqrt_up_least, lemma_mul_bounds, lemma_trunc_div_exact, lemma_trunc_div_remainder,
    lemma_trunc_div_shrinks, trunc_div, COORD_LIMIT, MASS_LIMIT, RADIUS_LIMIT, SCALE, SPEED_LIMIT,
};
use crate::transform::Transform;
use crate::vec2::{distance_squared, lemma_shrunk_square, Vec2};
use crate::world::{Entity, World, WorldView};

verus! {

/// The parts into which a step is divided where the distance between two
/// overlapping bodies is taken: fine enough that the push that separates them
/// is right to within a few steps, however close their centres are and
/// however large the bodies.
pub const ROOT_SCALE: i64 = 1_000_000_000;

/// Velocity, per second.
#[derive(Clone, Copy, Debug, PartialEq, Eq)]
pub struct Velocity(pub Vec2);

/// A round outline used for overlap tests.
#[derive(Clone, Copy, Debug, PartialEq, Eq)]
pub struct Collider {
    pub radius: i64,
}

/// Mass of a body.
#[derive(Clone, Copy, Debug, PartialEq, Eq)]
pub struct Mass(pub i64);

impl Velocity {
    /// Neither coordinate is beyond the limit of speeds.
    pub open spec fn wf(self) -> bool {
        self.0.within(SPEED_LIMIT as int)
    }

    /// Tells whether the velocity is inside its range.
    pub fn is_wf(&self) -> (b: bool)
        ensures
            b == self.wf(),
    {
        self.0.is_within(SPEED_LIMIT)
    }
}

impl Collider {
    /// The radius is positive.
    pub open spec fn wf(self) -> bool {
        0 < self.radius <= RADIUS_LIMIT
    }

    /// Tells whether the radius is positive and inside its range.
    pub fn is_wf(&self) -> (b: bool)
        ensures
            b == self.wf(),
    {
        0 < self.radius && self.radius <= RADIUS_LIMIT
    }
}

impl Mass {
    /// The mass is positive.
    pub open spec fn wf(self) -> bool {
        0 < self.0 <= MASS_LIMIT
    }

    /// Tells whether the mass is positive and inside its range.
    pub fn is_wf(&self) -> (b: bool)
        ensures
            b == self.wf(),
    {
        0 < self.0 && self.0 <= MASS_LIMIT
    }
}

/// What the collision rules read and change of an entity.
#[derive(Clone, Copy, Debug, PartialEq, Eq)]
pub struct Body {
    pub position: Vec2,
    pub velocity: Vec2,
    pub radius: i64,
    pub mass: i64,
}

impl Body {
    /// Radius and mass are positive, and every number is inside its range.
    pub open spec fn wf(self) -> bool {
        &&& self.position.within(COORD_LIMIT as int)
        &&& self.velocity.within(SPEED_LIMIT as int)
        &&& 0 < self.radius <= RADIUS_LIMIT
        &&& 0 < self.mass <= MASS_LIMIT
    }

    /// Tells whether radius and mass are positive and every number is inside
    /// its range.
    pub fn is_wf(&self) -> (b: bool)
        ensures
            b == self.wf(),
    {
        self.position.is_within(COORD_LIMIT) && self.velocity.is_within(SPEED_LIMIT) && 0
            < self.radius && self.radius <= RADIUS_LIMIT && 0 < self.mass && self.mass
            <= MASS_LIMIT
    }
}

/// The sum of the two radii: the distance under which the bodies overlap.
pub open spec fn reach(a: Body, b: Body) -> int {
    a.radius + b.radius
}

/// The two bodies overlap: their centres are closer than the sum of their
/// radii.
pub open spec fn overlapping(a: Body, b: Body) -> bool {
    distance_squared(a.position, b.position) < reach(a, b) * reach(a, b)
}

/// The depth of the overlap of two bodies whose centres are `dd` apart,
/// squared, and whose radii add up to `reach`, in parts of `1 / ROOT_SCALE` of
/// a step and rounded down.
pub open spec fn depth(dd: int, reach: int) -> int {
    reach * ROOT_SCALE - fine_length(dd, ROOT_SCALE as int)
}

/// One coordinate of the push that separates two overlapping bodies: half
/// the depth of the overlap along the line of centres, which is
/// `d * depth / (2 * distance)`. `d` is that coordinate of the offset between
/// the centres and `dd` their squared distance. Bodies at the same place are
/// not pushed.
pub open spec fn push_component(d: int, dd: int, reach: int) -> int {
    if dd == 0 {
        0
    } else {
        trunc_div(d * depth(dd, reach), 2 * fine_length(dd, ROOT_SCALE as int))
    }
}

/// The velocity of `a` relative to `b`, taken along the offset from `a` to
/// `b`: the scalar product of `a.velocity - b.velocity` and
/// `b.position - a.position`. It is positive while the bodies approach each
/// other, negative while they move apart, and zero when they do neither.
pub open spec fn normal_velocity(a: Body, b: Body) -> int {
    (a.velocity.x - b.velocity.x) * (b.position.x - a.position.x) + (a.velocity.y
        - b.velocity.y) * (b.position.y - a.position.y)
}

/// One coordinate of the change of velocity that an elastic impulse gives a
/// body: `-2 * vn / (1 / m + 1 / other_mass) / m` along the unit normal,
/// which is `-2 * other_mass * vn * d / ((m + other_mass) * dd)` where `vn`
/// is the normal velocity, `d` the coordinate of the offset between the
/// centres and `dd` their squared distance.
pub open spec fn impulse_component(
    other_mass: int,
    total_mass: int,
    vn: int,
    d: int,
    dd: int,
) -> int {
    trunc_div(-2 * other_mass * vn * d, total_mass * dd)
}

/// The positions of two overlapping bodies after each was pushed away from
/// the other by half the depth of the overlap.
pub open spec fn separated(a: Body, b: Body) -> (Vec2, Vec2) {
    let dx = b.position.x - a.position.x;
    let dy = b.position.y - a.position.y;
    let dd = dx * dx + dy * dy;
    let sx = push_component(dx, dd, reach(a, b));
    let sy = push_component(dy, dd, reach(a, b));
    (
        a.position.plus_saturating(-sx, -sy, COORD_LIMIT as int),
        b.position.plus_saturating(sx, sy, COORD_LIMIT as int),
    )
}

/// The velocities of two overlapping bodies after the impulse. Bodies that
/// approach each other bounce. Bodies that already move apart, or neither
/// approach nor move apart, keep their velocities.
pub open spec fn bounced(a: Body, b: Body) -> (Vec2, Vec2) {
    let dx = b.position.x - a.position.x;
    let dy = b.position.y - a.position.y;
    let dd = dx * dx + dy * dy;
    let vn = normal_velocity(a, b);
    let total = a.mass + b.mass;
    if vn <= 0 {
        (a.velocity, b.velocity)
    } else {
        (
            a.velocity.plus_saturating(
                impulse_component(b.mass as int, total, vn, dx, dd),
                impulse_component(b.mass as int, total, vn, dy, dd),
                SPEED_LIMIT as int,
            ),
            b.velocity.plus_saturating(
                -impulse_component(a.mass as int, total, vn, dx, dd),
                -impulse_component(a.mass as int, total, vn, dy, dd),
                SPEED_LIMIT as int,
            ),
        )
    }
}

/// The two bodies after their collision was resolved. Bodies that do not
/// overlap stay as they are.
pub open spec fn collided(a: Body, b: Body) -> (Body, Body) {
    if overlapping(a, b) {
        (
            Body { position: separated(a, b).0, velocity: bounced(a, b).0, ..a },
            Body { position: separated(a, b).1, velocity: bounced(a, b).1, ..b },
        )
    } else {
        (a, b)
    }
}

/// The way made in `dt` milliseconds at `v` per second.
pub open spec fn displacement(v: int, dt: int) -> int {
    trunc_div(v * dt, SCALE as int)
}

/// The entity after `dt` milliseconds of motion: one full step at its
/// present velocity. An entity without velocity stays.
pub open spec fn moved(e: Entity, dt: int) -> Entity {
    match e.velocity {
        Some(v) => Entity {
            transform: Transform {
                translation: e.transform.translation.plus_saturating(
                    displacement(v.0.x as int, dt),
                    displacement(v.0.y as int, dt),
                    COORD_LIMIT as int,
                ),
                ..e.transform
            },
            ..e
        },
        None => e,
    }
}

/// The world after every entity has moved for `dt` milliseconds.
pub open spec fn after_apply_velocity(w: WorldView, dt: int) -> WorldView {
    WorldView { entities: w.entities.map_values(|e: Entity| moved(e, dt)), ..w }
}

/// A square below another has the smaller root.
proof fn lemma_square_lt(x: int, r: int)
    by (nonlinear_arith)
    requires
        x * x < r * r,
        r >= 0,
    ensures
        -r < x < r,
{
}

/// Resolves the collision of two bodies: if they overlap, each is pushed
/// away from the other by half the depth of the overlap, and if they approach
/// each other, the elastic impulse is applied to both velocities. Bodies that
/// already move apart keep their velocities.
pub fn resolve_collision(a: &Body, b: &Body) -> (r: (Body, Body))
    requires
        a.wf(),
        b.wf(),
    ensures
        r == collided(*a, *b),
        r.0.wf(),
        r.1.wf(),
{
    let reach: i128 = a.radius as i128 + b.radius as i128;
    let dd: i128 = a.position.distance_squared_to(&b.position);
    proof {
        lemma_mul_bounds(reach as int, reach as int, 2 * RADIUS_LIMIT, 2 * RADIUS_LIMIT);
    }
    if dd >= reach * reach {
        return (*a, *b);
    }
    let dx: i128 = b.position.x as i128 - a.position.x as i128;
    let dy: i128 = b.position.y as i128 - a.position.y as i128;
    proof {
        assert(dx * dx >= 0 && dy * dy >= 0) by (nonlinear_arith);
        lemma_square_lt(dx as int, reach as int);
        lemma_square_lt(dy as int, reach as int);
    }
    let mut sx: i128 = 0;
    let mut sy: i128 = 0;
    if dd != 0 {
        let fine: i128 = ROOT_SCALE as i128;
        proof {
            lemma_mul_bounds(dd as int, fine as int, 4 * RADIUS_LIMIT * RADIUS_LIMIT, fine as int);
            lemma_mul_bounds(
                dd * fine,
                fine as int,
                4 * RADIUS_LIMIT * RADIUS_LIMIT * ROOT_SCALE,
                fine as int,
            );
            assert(dd * fine * fine >= 0) by (nonlinear_arith)
                requires
                    dd >= 0,
                    fine >= 0,
            ;
            assert((reach * fine) * (reach * fine) >= dd * fine * fine) by (nonlinear_arith)
                requires
                    dd < reach * reach,
                    fine >= 0,
            ;
            lemma_isqrt_up_least(dd * fine * fine, reach * fine);
            lemma_fine_length_covers(dx as int, dx as int, dy as int, ROOT_SCALE as int);
        }
        let len: i128 = integer_sqrt_up((dd * fine * fine) as u128) as i128;
        let deep: i128 = reach * fine - len;
        proof {
            lemma_mul_bounds(dx as int, deep as int, 2 * RADIUS_LIMIT, 2 * RADIUS_LIMIT * ROOT_SCALE);
            lemma_mul_bounds(dy as int, deep as int, 2 * RADIUS_LIMIT, 2 * RADIUS_LIMIT * ROOT_SCALE);
        }
        sx = div_trunc(dx * deep, 2 * len);
        sy = div_trunc(dy * deep, 2 * len);
        proof {
            lemma_trunc_div_shrinks(dx * deep, 2 * len);
            lemma_trunc_div_shrinks(dy * deep, 2 * len);
        }
    }
    let pa = a.position.add_saturating(-sx, -sy, COORD_LIMIT);
    let pb = b.position.add_saturating(sx, sy, COORD_LIMIT);
    let wx: i128 = a.velocity.x as i128 - b.velocity.x as i128;
    let wy: i128 = a.velocity.y as i128 - b.velocity.y as i128;
    proof {
        lemma_mul_bounds(wx as int, dx as int, 2 * SPEED_LIMIT, 2 * RADIUS_LIMIT);
        lemma_mul_bounds(wy as int, dy as int, 2 * SPEED_LIMIT, 2 * RADIUS_LIMIT);
    }
    let vn: i128 = wx * dx + wy * dy;
    if vn <= 0 {
        return (
            Body { position: pa, velocity: a.velocity, radius: a.radius, mass: a.mass },
            Body { position: pb, velocity: b.velocity, radius: b.radius, mass: b.mass },
        );
    }
    let total: i128 = a.mass as i128 + b.mass as i128;
    proof {
        // the offset is not zero, since the normal velocity is not
        assert(dd > 0) by (nonlinear_arith)
            requires
                vn == wx * dx + wy * dy,
                vn > 0,
                dd == dx * dx + dy * dy,
        ;
        lemma_mul_bounds(total as int, dd as int, 2 * MASS_LIMIT, 4 * RADIUS_LIMIT * RADIUS_LIMIT);
        assert(total * dd > 0) by (nonlinear_arith)
            requires
                total > 0,
                dd > 0,
        ;
    }
    let den: i128 = total * dd;
    let limit_k: Ghost<int> = Ghost(2 * MASS_LIMIT * (8 * SPEED_LIMIT * RADIUS_LIMIT));
    proof {
        lemma_mul_bounds(-2 * b.mass, vn as int, 2 * MASS_LIMIT, 8 * SPEED_LIMIT * RADIUS_LIMIT);
        lemma_mul_bounds(-2 * a.mass, vn as int, 2 * MASS_LIMIT, 8 * SPEED_LIMIT * RADIUS_LIMIT);
    }
    let ka: i128 = -2 * b.mass as i128 * vn;
    let kb: i128 = -2 * a.mass as i128 * vn;
    proof {
        lemma_mul_bounds(ka as int, dx as int, limit_k@, 2 * RADIUS_LIMIT);
        lemma_mul_bounds(ka as int, dy as int, limit_k@, 2 * RADIUS_LIMIT);
        lemma_mul_bounds(kb as int, dx as int, limit_k@, 2 * RADIUS_LIMIT);
        lemma_mul_bounds(kb as int, dy as int, limit_k@, 2 * RADIUS_LIMIT);
    }
    let iax: i128 = div_trunc(ka * dx, den);
    let iay: i128 = div_trunc(ka * dy, den);
    let ibx: i128 = div_trunc(kb * dx, den);
    let iby: i128 = div_trunc(kb * dy, den);
    let va = a.velocity.add_saturating(iax, iay, SPEED_LIMIT);
    let vb = b.velocity.add_saturating(-ibx, -iby, SPEED_LIMIT);
    (
        Body { position: pa, velocity: va, radius: a.radius, mass: a.mass },
        Body { position: pb, velocity: vb, radius: b.radius, mass: b.mass },
    )
}

/// Moves one entity for `dt` milliseconds.
pub fn integrate(e: &Entity, dt: u32) -> (r: Entity)
    requires
        e.wf(),
    ensures
        r == moved(*e, dt as int),
        r.wf(),
{
    match e.velocity {
        Some(v) => {
            proof {
                lemma_mul_bounds(v.0.x as int, dt as int, SPEED_LIMIT as int, 0x1_0000_0000);
                lemma_mul_bounds(v.0.y as int, dt as int, SPEED_LIMIT as int, 0x1_0000_0000);
            }
            let sx: i128 = div_trunc(v.0.x as i128 * dt as i128, SCALE as i128);
            let sy: i128 = div_trunc(v.0.y as i128 * dt as i128, SCALE as i128);
            let mut r = *e;
            r.transform.translation = e.transform.translation.add_saturating(sx, sy, COORD_LIMIT);
            r
        },
        None => *e,
    }
}

/// Advances every entity that has a velocity by `dt` milliseconds:
/// `position += velocity * dt`, in one step.
pub fn apply_velocity(world: &mut World, dt: u32)
    requires
        old(world).wf(),
    ensures
        final(world).wf(),
        final(world)@ == after_apply_velocity(old(world)@, dt as int),
{
    let n = world.entities.len();
    let mut i: usize = 0;
    while i < n
        invariant
            i <= n,
            n == world.entities.len(),
            n == old(world).entities.len(),
            old(world).wf(),
            world.messages == old(world).messages,
            world.score == old(world).score,
            world.sinibombs == old(world).sinibombs,
            world.camera == old(world).camera,
            forall|k: int| 0 <= k < i ==> #[trigger] world.entities@[k] == moved(old(world).entities@[k], dt as int),
            forall|k: int| i <= k < n ==> #[trigger] world.entities@[k] == old(world).entities@[k],
            forall|k: int| 0 <= k < n ==> (#[trigger] world.entities@[k]).wf(),
        decreases n - i,
    {
        let e = integrate(&world.entities[i], dt);
        world.entities[i] = e;
        i += 1;
    }
    assert(world@.entities =~= after_apply_velocity(old(world)@, dt as int).entities);
}

/// The push that separates two overlapping bodies is no longer than half the
/// depth of their overlap, however close their centres are: twice its length
/// is no more than the depth. `(sx, sy)` is the push, taken away from the
/// first body and given to the second, so that the point half way between
/// them stays where it is.
pub proof fn push_is_no_longer_than_half_the_depth(a: Body, b: Body)
    requires
        overlapping(a, b),
        reach(a, b) >= 0,
    ensures
        ({
            let dx = b.position.x - a.position.x;
            let dy = b.position.y - a.position.y;
            let dd = distance_squared(a.position, b.position);
            let sx = push_component(dx, dd, reach(a, b));
            let sy = push_component(dy, dd, reach(a, b));
            &&& depth(dd, reach(a, b)) >= 0
            &&& 4 * (ROOT_SCALE * ROOT_SCALE) * (sx * sx + sy * sy) <= depth(dd, reach(a, b))
                * depth(dd, reach(a, b))
        }),
{
    let dx = b.position.x - a.position.x;
    let dy = b.position.y - a.position.y;
    let dd = distance_squared(a.position, b.position);
    let r = reach(a, b);
    let f = ROOT_SCALE as int;
    let l = fine_length(dd, f);
    let deep = depth(dd, r);
    let sx = push_component(dx, dd, r);
    let sy = push_component(dy, dd, r);
    assert(dd == dx * dx + dy * dy);
    assert(dd >= 0) by (nonlinear_arith)
        requires
            dd == dx * dx + dy * dy,
    ;
    assert(dd * f * f >= 0 && (r * f) * (r * f) >= dd * f * f) by (nonlinear_arith)
        requires
            0 <= dd < r * r,
            f >= 0,
    ;
    lemma_isqrt_up(dd * f * f);
    lemma_isqrt_up_least(dd * f * f, r * f);
    if dd > 0 {
        lemma_fine_length_covers(dx, dx, dy, f);
        let den = 2 * l;
        lemma_trunc_div_remainder(dx * deep, den);
        lemma_trunc_div_remainder(dy * deep, den);
        lemma_shrunk_square(sx, dx * deep, den);
        lemma_shrunk_square(sy, dy * deep, den);
        let ss = sx * sx + sy * sy;
        let ll = l * l;
        let dp = deep * deep;
        assert(ss * (4 * ll) <= dd * dp) by (nonlinear_arith)
            requires
                (sx * sx) * (den * den) <= (dx * deep) * (dx * deep),
                (sy * sy) * (den * den) <= (dy * deep) * (dy * deep),
                den == 2 * l,
                ll == l * l,
                dp == deep * deep,
                ss == sx * sx + sy * sy,
                dd == dx * dx + dy * dy,
        ;
        assert((dd * dp) * (f * f) <= ll * dp) by (nonlinear_arith)
            requires
                ll >= dd * f * f,
                ll == l * l,
                dp == deep * deep,
        ;
        assert((4 * (f * f) * ss) * ll <= dp * ll) by (nonlinear_arith)
            requires
                ss * (4 * ll) <= dd * dp,
                (dd * dp) * (f * f) <= ll * dp,
                f >= 0,
        ;
        assert(4 * (f * f) * ss <= dp) by (nonlinear_arith)
            requires
                (4 * (f * f) * ss) * ll <= dp * ll,
                ll == l * l,
                l >= 1,
        ;
    } else {
        assert(deep * deep >= 0) by (nonlinear_arith);
        assert(4 * (f * f) * (sx * sx + sy * sy) == 0) by (nonlinear_arith)
            requires
                sx == 0,
                sy == 0,
        ;
    }
}

/// The push that separates two overlapping bodies is no shorter than half
/// the depth of their overlap less a step or two: with each coordinate
/// lengthened by one step, twice its length is no less than the depth less two
/// steps. With `push_is_no_longer_than_half_the_depth` this says that two
/// bodies end as far apart as their radii add up to, but for a few steps,
/// however close their centres were.
pub proof fn push_is_no_shorter_than_half_the_depth(a: Body, b: Body)
    requires
        a.wf(),
        b.wf(),
        overlapping(a, b),
        distance_squared(a.position, b.position) > 0,
        depth(distance_squared(a.position, b.position), reach(a, b)) >= 2 * ROOT_SCALE,
    ensures
        ({
            let dx = b.position.x - a.position.x;
            let dy = b.position.y - a.position.y;
            let dd = distance_squared(a.position, b.position);
            let sx = magnitude(push_component(dx, dd, reach(a, b))) + 1;
            let sy = magnitude(push_component(dy, dd, reach(a, b))) + 1;
            let deep = depth(dd, reach(a, b)) - 2 * ROOT_SCALE;
            4 * (ROOT_SCALE * ROOT_SCALE) * (sx * sx + sy * sy) >= deep * deep
        }),
{
    let dx = b.position.x - a.position.x;
    let dy = b.position.y - a.position.y;
    let dd = distance_squared(a.position, b.position);
    let r = reach(a, b);
    let f = ROOT_SCALE as int;
    let l = fine_length(dd, f);
    let deep = depth(dd, r);
    let sx = magnitude(push_component(dx, dd, r)) + 1;
    let sy = magnitude(push_component(dy, dd, r)) + 1;
    let den = 2 * l;
    assert(dd == dx * dx + dy * dy);
    assert(dd * f * f > 0) by (nonlinear_arith)
        requires
            dd > 0,
            f == 1_000_000_000,
    ;
    lemma_isqrt_up(dd * f * f);
    lemma_fine_length_covers(dx, dx, dy, f);
    lemma_trunc_div_remainder(dx * deep, den);
    lemma_trunc_div_remainder(dy * deep, den);
    lemma_grown_square(push_component(dx, dd, r), dx * deep, den);
    lemma_grown_square(push_component(dy, dd, r), dy * deep, den);
    let pp = sx * sx + sy * sy;
    let ll = l * l;
    let dp = deep * deep;
    let low = deep - 2 * f;
    assert(den * den == 4 * ll) by (nonlinear_arith)
        requires
            den == 2 * l,
            ll == l * l,
    ;
    assert((dx * deep) * (dx * deep) == (dx * dx) * dp && (dy * deep) * (dy * deep) == (dy * dy)
        * dp) by (nonlinear_arith)
        requires
            dp == deep * deep,
    ;
    assert((dx * dx) * dp + (dy * dy) * dp == dd * dp) by (nonlinear_arith)
        requires
            dd == dx * dx + dy * dy,
    ;
    assert(pp * (4 * ll) == (sx * sx) * (4 * ll) + (sy * sy) * (4 * ll)) by (nonlinear_arith)
        requires
            pp == sx * sx + sy * sy,
    ;
    assert(pp * (4 * ll) >= dd * dp);
    assert((dd * dp) * (f * f) >= ((l - 1) * (l - 1)) * dp) by (nonlinear_arith)
        requires
            dd * f * f > (l - 1) * (l - 1),
            dp == deep * deep,
    ;
    // the depth is no more than twice the fine length: radii are bounded
    assert(deep <= 2 * f * l) by (nonlinear_arith)
        requires
            deep <= r * f,
            0 <= r <= 2 * f,
            l >= f,
            f >= 0,
    ;
    assert((l - 1) * deep >= l * low && l * low >= 0) by (nonlinear_arith)
        requires
            low == deep - 2 * f,
            deep <= 2 * f * l,
            low >= 0,
            l >= 1,
    ;
    assert(((l - 1) * (l - 1)) * dp >= ll * (low * low)) by (nonlinear_arith)
        requires
            (l - 1) * deep >= l * low,
            l * low >= 0,
            ll == l * l,
            dp == deep * deep,
    ;
    assert((4 * (f * f) * pp) * ll >= (low * low) * ll) by (nonlinear_arith)
        requires
            pp * (4 * ll) >= dd * dp,
            (dd * dp) * (f * f) >= ((l - 1) * (l - 1)) * dp,
            ((l - 1) * (l - 1)) * dp >= ll * (low * low),
            f >= 0,
    ;
    assert(4 * (f * f) * pp >= low * low) by (nonlinear_arith)
        requires
            (4 * (f * f) * pp) * ll >= (low * low) * ll,
            ll == l * l,
            l >= 1,
    ;
}

/// The square of a quotient rounded toward zero and then moved one step away
/// from zero, times the square of the divisor, is no less than the square of
/// the dividend.
proof fn lemma_grown_square(q: int, a: int, d: int)
    by (nonlinear_arith)
    requires
        d > 0,
        a >= 0 ==> 0 <= a - q * d < d,
        a <= 0 ==> -d < a - q * d <= 0,
    ensures
        ((magnitude(q) + 1) * (magnitude(q) + 1)) * (d * d) >= a * a,
{
}

/// Two overlapping bodies that already move apart, or neither approach nor
/// move apart, keep their velocities: there is no bounce. Their positions are
/// still corrected.
pub proof fn separating_bodies_keep_velocities(a: Body, b: Body)
    requires
        a.wf(),
        b.wf(),
        overlapping(a, b),
        normal_velocity(a, b) <= 0,
    ensures
        collided(a, b).0.velocity == a.velocity,
        collided(a, b).1.velocity == b.velocity,
        collided(a, b).0.position == separated(a, b).0,
        collided(a, b).1.position == separated(a, b).1,
{
}

/// Two overlapping bodies of equal mass whose velocities are opposite and
/// lie along the line of their centres leave the collision with their
/// velocities exchanged, so that each has changed its sign: nothing is lost.
/// This holds of bodies that approach each other, and of bodies at rest.
pub proof fn equal_masses_exchange_opposite_velocities(a: Body, b: Body)
    requires
        a.wf(),
        b.wf(),
        overlapping(a, b),
        a.mass == b.mass,
        b.velocity.x == -a.velocity.x,
        b.velocity.y == -a.velocity.y,
        a.velocity.x * (b.position.y - a.position.y) == a.velocity.y * (b.position.x
            - a.position.x),
        normal_velocity(a, b) > 0 || (a.velocity.x == 0 && a.velocity.y == 0),
    ensures
        collided(a, b).0.velocity == b.velocity,
        collided(a, b).1.velocity == a.velocity,
{
    if a.velocity.x != 0 || a.velocity.y != 0 {
        let m = a.mass as int;
        let vx = a.velocity.x as int;
        let vy = a.velocity.y as int;
        let dx = b.position.x - a.position.x;
        let dy = b.position.y - a.position.y;
        let dd = dx * dx + dy * dy;
        let vn = normal_velocity(a, b);
        let den = (m + m) * dd;
        assert(dd > 0) by (nonlinear_arith)
            requires
                vn == (vx + vx) * dx + (vy + vy) * dy,
                vn > 0,
                dd == dx * dx + dy * dy,
        ;
        assert(den > 0) by (nonlinear_arith)
            requires
                den == (m + m) * dd,
                m > 0,
                dd > 0,
        ;
        assert(-2 * m * vn * dx == (-2 * vx) * den) by (nonlinear_arith)
            requires
                vn == (vx + vx) * dx + (vy + vy) * dy,
                den == (m + m) * dd,
                dd == dx * dx + dy * dy,
                vx * dy == vy * dx,
        ;
        assert(-2 * m * vn * dy == (-2 * vy) * den) by (nonlinear_arith)
            requires
                vn == (vx + vx) * dx + (vy + vy) * dy,
                den == (m + m) * dd,
                dd == dx * dx + dy * dy,
                vx * dy == vy * dx,
        ;
        lemma_trunc_div_exact(-2 * vx, den);
        lemma_trunc_div_exact(-2 * vy, den);
    }
}

/// The magnitude of `x`.
pub open spec fn magnitude(x: int) -> int {
    if x >= 0 {
        x
    } else {
        -x
    }
}

/// Between bodies of equal mass the impulse exchanges the velocities along
/// the line of centres and leaves what is across it, up to rounding. `(ix, iy)`
/// is what `a` gains and `b` loses. Along the offset `d` between the centres,
/// `a` loses its velocity relative to `b`: the scalar product of the impulse
/// and `d` is minus the normal velocity. Across it nothing changes: the cross
/// product of the impulse and `d` is zero. Both hold to within the sum of the
/// magnitudes of the coordinates of `d`, which is what rounding each
/// coordinate of the impulse by less than one step can make. So of two bodies
/// whose velocities along the line of centres are opposite, each leaves with
/// that velocity reversed.
pub proof fn equal_masses_exchange_normal_velocities(a: Body, b: Body)
    requires
        a.mass == b.mass,
        a.mass > 0,
        distance_squared(a.position, b.position) > 0,
    ensures
        ({
            let dx = b.position.x - a.position.x;
            let dy = b.position.y - a.position.y;
            let dd = distance_squared(a.position, b.position);
            let vn = normal_velocity(a, b);
            let ix = impulse_component(b.mass as int, a.mass + b.mass, vn, dx, dd);
            let iy = impulse_component(b.mass as int, a.mass + b.mass, vn, dy, dd);
            let slack = magnitude(dx) + magnitude(dy);
            &&& ix == impulse_component(a.mass as int, a.mass + b.mass, vn, dx, dd)
            &&& iy == impulse_component(a.mass as int, a.mass + b.mass, vn, dy, dd)
            &&& -slack < ix * dx + iy * dy + vn < slack
            &&& -slack < ix * dy - iy * dx < slack
        }),
{
    let m = a.mass as int;
    let dx = b.position.x - a.position.x;
    let dy = b.position.y - a.position.y;
    let dd = distance_squared(a.position, b.position);
    let vn = normal_velocity(a, b);
    let den = (m + m) * dd;
    let nx = -2 * m * vn * dx;
    let ny = -2 * m * vn * dy;
    let ix = trunc_div(nx, den);
    let iy = trunc_div(ny, den);
    let ax = magnitude(dx);
    let ay = magnitude(dy);
    assert(dd == dx * dx + dy * dy);
    assert(den > 0) by (nonlinear_arith)
        requires
            den == (m + m) * dd,
            m > 0,
            dd > 0,
    ;
    lemma_trunc_div_remainder(nx, den);
    lemma_trunc_div_remainder(ny, den);
    let rx = nx - ix * den;
    let ry = ny - iy * den;
    // a coordinate of the offset that is zero leaves nothing over
    assert(dx == 0 ==> rx == 0) by (nonlinear_arith)
        requires
            nx == -2 * m * vn * dx,
            rx == nx - ix * den,
            -den < rx < den,
            nx >= 0 ==> rx >= 0,
            nx <= 0 ==> rx <= 0,
    ;
    assert(dy == 0 ==> ry == 0) by (nonlinear_arith)
        requires
            ny == -2 * m * vn * dy,
            ry == ny - iy * den,
            -den < ry < den,
            ny >= 0 ==> ry >= 0,
            ny <= 0 ==> ry <= 0,
    ;
    lemma_product_below(rx, dx, den);
    lemma_product_below(ry, dy, den);
    lemma_product_below(rx, dy, den);
    lemma_product_below(ry, dx, den);
    assert(ax + ay >= 1) by (nonlinear_arith)
        requires
            dx * dx + dy * dy > 0,
            ax == magnitude(dx),
            ay == magnitude(dy),
    ;
    let k = -2 * m * vn;
    let px = ix * den;
    let py = iy * den;
    assert(nx == k * dx && ny == k * dy);
    assert(k * dd == -(vn * den)) by (nonlinear_arith)
        requires
            k == -2 * m * vn,
            den == (m + m) * dd,
    ;
    assert(k * dx * dx + k * dy * dy == k * dd) by (nonlinear_arith)
        requires
            dd == dx * dx + dy * dy,
    ;
    assert(k * dx * dy == k * dy * dx) by (nonlinear_arith);
    assert(px * dx == k * dx * dx - rx * dx && px * dy == k * dx * dy - rx * dy)
        by (nonlinear_arith)
        requires
            px == k * dx - rx,
    ;
    assert(py * dy == k * dy * dy - ry * dy && py * dx == k * dy * dx - ry * dx)
        by (nonlinear_arith)
        requires
            py == k * dy - ry,
    ;
    assert((ix * dx + iy * dy + vn) * den == px * dx + py * dy + vn * den) by (nonlinear_arith)
        requires
            px == ix * den,
            py == iy * den,
    ;
    assert((ix * dy - iy * dx) * den == px * dy - py * dx) by (nonlinear_arith)
        requires
            px == ix * den,
            py == iy * den,
    ;
    let slack = ax + ay;
    assert(den * slack == (den - 1) * ax + (den - 1) * ay + slack) by (nonlinear_arith)
        requires
            slack == ax + ay,
    ;
    lemma_quotient_below(ix * dx + iy * dy + vn, -(rx * dx + ry * dy), den, slack);
    lemma_quotient_below(ix * dy - iy * dx, -(rx * dy - ry * dx), den, slack);
}

/// The impulse reverses the velocity of the bodies relative to each other
/// along the line of centres, whatever their masses: nothing is lost in the
/// bounce. `ia` is what the first body gains and `ib` what the second loses,
/// so that the normal velocity changes by the scalar product of `ia + ib` and
/// the offset `d` between the centres; and that product is minus twice the
/// normal velocity, to within twice the sum of the magnitudes of the
/// coordinates of `d`, which is what rounding can make.
pub proof fn impulse_reverses_normal_velocity(a: Body, b: Body)
    requires
        a.mass > 0,
        b.mass > 0,
        distance_squared(a.position, b.position) > 0,
    ensures
        ({
            let dx = b.position.x - a.position.x;
            let dy = b.position.y - a.position.y;
            let dd = distance_squared(a.position, b.position);
            let vn = normal_velocity(a, b);
            let total = a.mass + b.mass;
            let iax = impulse_component(b.mass as int, total, vn, dx, dd);
            let iay = impulse_component(b.mass as int, total, vn, dy, dd);
            let ibx = impulse_component(a.mass as int, total, vn, dx, dd);
            let iby = impulse_component(a.mass as int, total, vn, dy, dd);
            let slack = 2 * (magnitude(dx) + magnitude(dy));
            -slack < (iax + ibx) * dx + (iay + iby) * dy + 2 * vn < slack
        }),
{
    let ma = a.mass as int;
    let mb = b.mass as int;
    let dx = b.position.x - a.position.x;
    let dy = b.position.y - a.position.y;
    let dd = distance_squared(a.position, b.position);
    let vn = normal_velocity(a, b);
    let den = (ma + mb) * dd;
    let iax = trunc_div(-2 * mb * vn * dx, den);
    let iay = trunc_div(-2 * mb * vn * dy, den);
    let ibx = trunc_div(-2 * ma * vn * dx, den);
    let iby = trunc_div(-2 * ma * vn * dy, den);
    let ax = magnitude(dx);
    let ay = magnitude(dy);
    assert(dd == dx * dx + dy * dy);
    assert(den > 0) by (nonlinear_arith)
        requires
            den == (ma + mb) * dd,
            ma > 0,
            mb > 0,
            dd > 0,
    ;
    lemma_trunc_div_remainder(-2 * mb * vn * dx, den);
    lemma_trunc_div_remainder(-2 * mb * vn * dy, den);
    lemma_trunc_div_remainder(-2 * ma * vn * dx, den);
    lemma_trunc_div_remainder(-2 * ma * vn * dy, den);
    let rax = -2 * mb * vn * dx - iax * den;
    let ray = -2 * mb * vn * dy - iay * den;
    let rbx = -2 * ma * vn * dx - ibx * den;
    let rby = -2 * ma * vn * dy - iby * den;
    lemma_product_below(rax, dx, den);
    lemma_product_below(ray, dy, den);
    lemma_product_below(rbx, dx, den);
    lemma_product_below(rby, dy, den);
    assert(ax + ay >= 1) by (nonlinear_arith)
        requires
            dx * dx + dy * dy > 0,
            ax == magnitude(dx),
            ay == magnitude(dy),
    ;
    let ka = -2 * mb * vn;
    let kb = -2 * ma * vn;
    let k = ka + kb;
    let px = (iax + ibx) * den;
    let py = (iay + iby) * den;
    assert(px == k * dx - (rax + rbx) && py == k * dy - (ray + rby)) by (nonlinear_arith)
        requires
            px == (iax + ibx) * den,
            py == (iay + iby) * den,
            rax == ka * dx - iax * den,
            ray == ka * dy - iay * den,
            rbx == kb * dx - ibx * den,
            rby == kb * dy - iby * den,
            k == ka + kb,
    ;
    assert(k * dd == -(2 * vn * den)) by (nonlinear_arith)
        requires
            k == -2 * mb * vn + -2 * ma * vn,
            den == (ma + mb) * dd,
    ;
    assert(k * dx * dx + k * dy * dy == k * dd) by (nonlinear_arith)
        requires
            dd == dx * dx + dy * dy,
    ;
    assert(px * dx == k * dx * dx - (rax + rbx) * dx && py * dy == k * dy * dy - (ray + rby) * dy)
        by (nonlinear_arith)
        requires
            px == k * dx - (rax + rbx),
            py == k * dy - (ray + rby),
    ;
    assert(((iax + ibx) * dx + (iay + iby) * dy + 2 * vn) * den == px * dx + py * dy + 2 * vn
        * den) by (nonlinear_arith)
        requires
            px == (iax + ibx) * den,
            py == (iay + iby) * den,
    ;
    assert((rax + rbx) * dx == rax * dx + rbx * dx && (ray + rby) * dy == ray * dy + rby * dy)
        by (nonlinear_arith);
    let slack = 2 * (ax + ay);
    assert(den * slack == 2 * ((den - 1) * ax) + 2 * ((den - 1) * ay) + slack) by (nonlinear_arith)
        requires
            slack == 2 * (ax + ay),
    ;
    lemma_quotient_below(
        (iax + ibx) * dx + (iay + iby) * dy + 2 * vn,
        -((rax + rbx) * dx + (ray + rby) * dy),
        den,
        slack,
    );
}

/// The product of a remainder and a coordinate is smaller than the divisor
/// times the magnitude of the coordinate, unless both are zero.
proof fn lemma_product_below(r: int, d: int, den: int)
    by (nonlinear_arith)
    requires
        -den < r < den,
    ensures
        -((den - 1) * magnitude(d)) <= r * d <= (den - 1) * magnitude(d),
{
}

/// What has a product with `den` of magnitude below `den * bound` is itself
/// of magnitude below `bound`.
proof fn lemma_quotient_below(q: int, p: int, den: int, bound: int)
    by (nonlinear_arith)
    requires
        q * den == p,
        den > 0,
        -(den * bound) < p < den * bound,
    ensures
        -bound < q < bound,
{
}

/// The impulse conserves momentum, up to rounding: on each axis, what one
/// body gains in momentum and what the other loses differ by less than the
/// larger of the two masses, that is by less than one step of velocity of the
/// heavier body. `d` is the coordinate of the offset between the centres on
/// that axis.
pub proof fn impulse_conserves_momentum(a: Body, b: Body, d: int)
    requires
        a.mass > 0,
        b.mass > 0,
        distance_squared(a.position, b.position) > 0,
    ensures
        ({
            let total = a.mass + b.mass;
            let dd = distance_squared(a.position, b.position);
            let vn = normal_velocity(a, b);
            let gained = a.mass * impulse_component(b.mass as int, total, vn, d, dd);
            let lost = b.mass * impulse_component(a.mass as int, total, vn, d, dd);
            let larger = if a.mass > b.mass {
                a.mass
            } else {
                b.mass
            };
            -larger < gained - lost < larger
        }),
{
    let ma = a.mass as int;
    let mb = b.mass as int;
    let dd = distance_squared(a.position, b.position);
    let vn = normal_velocity(a, b);
    let den = (ma + mb) * dd;
    let k = -2 * vn * d;
    let na = -2 * mb * vn * d;
    let nb = -2 * ma * vn * d;
    let qa = trunc_div(na, den);
    let qb = trunc_div(nb, den);
    assert(den > 0) by (nonlinear_arith)
        requires
            den == (ma + mb) * dd,
            ma > 0,
            mb > 0,
            dd > 0,
    ;
    assert(na == mb * k && nb == ma * k) by (nonlinear_arith)
        requires
            k == -2 * vn * d,
            na == -2 * mb * vn * d,
            nb == -2 * ma * vn * d,
    ;
    lemma_trunc_div_remainder(na, den);
    lemma_trunc_div_remainder(nb, den);
    let ra = na - qa * den;
    let rb = nb - qb * den;
    assert((ma * qa - mb * qb) * den == mb * rb - ma * ra) by (nonlinear_arith)
        requires
            ra == na - qa * den,
            rb == nb - qb * den,
            na == mb * k,
            nb == ma * k,
    ;
    if k >= 0 {
        assert(-ma < ma * qa - mb * qb < mb) by (nonlinear_arith)
            requires
                (ma * qa - mb * qb) * den == mb * rb - ma * ra,
                0 <= ra < den,
                0 <= rb < den,
                ma > 0,
                mb > 0,
                den > 0,
        ;
    } else {
        assert(na <= 0 && nb <= 0) by (nonlinear_arith)
            requires
                na == mb * k,
                nb == ma * k,
                ma > 0,
                mb > 0,
                k < 0,
        ;
        assert(-mb < ma * qa - mb * qb < ma) by (nonlinear_arith)
            requires
                (ma * qa - mb * qb) * den == mb * rb - ma * ra,
                -den < ra <= 0,
                -den < rb <= 0,
                ma > 0,
                mb > 0,
                den > 0,
        ;
    }
}

/// The body of an entity that takes part in collisions: one that has a
/// velocity, a collider and a mass.
pub open spec fn body_of(e: Entity) -> Option<Body> {
    match (e.velocity, e.collider, e.mass) {
        (Some(v), Some(c), Some(m)) => Some(
            Body { position: e.transform.translation, velocity: v.0, radius: c.radius, mass: m.0 },
        ),
        _ => None,
    }
}

/// The entity with position and velocity taken from `b`.
pub open spec fn with_body(e: Entity, b: Body) -> Entity {
    Entity {
        transform: Transform { translation: b.position, ..e.transform },
        velocity: Some(Velocity(b.velocity)),
        ..e
    }
}

/// The entities after the collision of entities `i` and `j` was resolved.
/// Nothing changes unless both take part in collisions.
pub open spec fn collide_pair(s: Seq<Entity>, i: int, j: int) -> Seq<Entity> {
    if 0 <= i < s.len() && 0 <= j < s.len() {
        match (body_of(s[i]), body_of(s[j])) {
            (Some(a), Some(b)) => s.update(i, with_body(s[i], collided(a, b).0)).update(
                j,
                with_body(s[j], collided(a, b).1),
            ),
            _ => s,
        }
    } else {
        s
    }
}

/// The entities after the pairs from `(i, j)` on were resolved one after the
/// other, each on what the pairs before it left: `(i, j)`, `(i, j + 1)` and so
/// on to the last entity, then `(i + 1, i + 2)` and so on. Every pair is
/// visited once, the lower index first, and none with itself.
pub open spec fn collide_from(s: Seq<Entity>, i: int, j: int) -> Seq<Entity>
    decreases s.len() - i, s.len() - j,
{
    if i + 1 >= s.len() {
        s
    } else if j >= s.len() {
        collide_from(s, i + 1, i + 2)
    } else {
        collide_from(collide_pair(s, i, j), i, j + 1)
    }
}

/// The world after all collisions of a tick were resolved.
pub open spec fn after_collisions(w: WorldView) -> WorldView {
    WorldView { entities: collide_from(w.entities, 0, 1), ..w }
}

/// The body of an entity that takes part in collisions.
pub fn entity_body(e: &Entity) -> (b: Option<Body>)
    ensures
        b == body_of(*e),
{
    match (e.velocity, e.collider, e.mass) {
        (Some(v), Some(c), Some(m)) => Some(
            Body { position: e.transform.translation, velocity: v.0, radius: c.radius, mass: m.0 },
        ),
        _ => None,
    }
}

/// Finds the overlapping bodies and resolves their collisions, pair by pair.
/// Every unordered pair of entities that have a velocity, a collider and a
/// mass is visited once; a body that overlaps several others takes the
/// corrections one after the other.
pub fn handle_collisions(world: &mut World)
    requires
        old(world).wf(),
    ensures
        final(world).wf(),
        final(world)@ == after_collisions(old(world)@),
{
    let n = world.entities.len();
    let mut i: usize = 0;
    while i < n && i + 1 < n
        invariant
            n == world.entities.len(),
            world.wf(),
            world.messages == old(world).messages,
            world.score == old(world).score,
            world.sinibombs == old(world).sinibombs,
            world.camera == old(world).camera,
            collide_from(world.entities@, i as int, i + 1) == collide_from(
                old(world).entities@,
                0,
                1,
            ),
        decreases n - i,
    {
        let mut j: usize = i + 1;
        while j < n
            invariant
                i + 1 < n,
                i < j <= n,
                n == world.entities.len(),
                world.wf(),
                world.messages == old(world).messages,
                world.score == old(world).score,
                world.sinibombs == old(world).sinibombs,
                world.camera == old(world).camera,
                collide_from(world.entities@, i as int, j as int) == collide_from(
                    old(world).entities@,
                    0,
                    1,
                ),
            decreases n - j,
        {
            let ei = world.entities[i];
            let ej = world.entities[j];
            assert(world@.entities[i as int].wf() && world@.entities[j as int].wf());
            match (entity_body(&ei), entity_body(&ej)) {
                (Some(a), Some(b)) => {
                    let (ra, rb) = resolve_collision(&a, &b);
                    let mut ni = ei;
                    ni.transform.translation = ra.position;
                    ni.velocity = Some(Velocity(ra.velocity));
                    let mut nj = ej;
                    nj.transform.translation = rb.position;
                    nj.velocity = Some(Velocity(rb.velocity));
                    world.entities[i] = ni;
                    world.entities[j] = nj;
                },
                _ => {},
            }
            j += 1;
        }
        i += 1;
    }
}

} // verus!
