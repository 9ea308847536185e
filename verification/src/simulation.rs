//! The game as a whole: how it starts, and what one tick does.
use vstd::prelude::*;
use crate::asteroid::{scattered_asteroid, spawn_asteroids, ASTEROID_COUNT};
use crate::camera::{after_camera_follow, after_wrap, camera_follow, wrap_around_camera};
use crate::crystal::{after_crystal_impacts, crystal_impacts};
use crate::physics::{after_apply_velocity, after_collisions, apply_velocity, handle_collisions};
use crate::player::{after_player_input, player_at_start, player_input, spawn_player, PlayerInput};
use crate::score::{GameScore, Sinibombs};
use crate::shooting::{after_gun_system, gun_system, projectile_outcome, projectile_system};
use crate::vec2::Vec2;
use crate::warrior::{
    after_warrior_movement, placed_warrior, spawn_warriors, warrior_ai, warrior_ai_outcome,
    warrior_movement, WARRIOR_COUNT,
};
use crate::worker::{
    after_worker_movement, after_worker_sensor, placed_worker, spawn_workers, worker_movement,
    worker_roaming_ai, worker_roaming_outcome, worker_sensor_ai, WORKER_COUNT,
};
use crate::world::{World, WorldView};

verus! {

/// `w` is a world as the game starts: the viewpoint at the origin, both
/// counters at zero, and the player's ship followed by the asteroids, the
/// workers and the warriors.
pub open spec fn at_start(w: WorldView) -> bool {
    &&& w.camera == Some(Vec2 { x: 0, y: 0 })
    &&& w.score == GameScore(0)
    &&& w.sinibombs == Sinibombs(0)
    &&& w.messages.len() == 0
    &&& w.entities.len() == 1 + ASTEROID_COUNT + WORKER_COUNT + WARRIOR_COUNT
    &&& w.entities[0] == player_at_start()
    &&& forall|k: int| 1 <= k < 1 + ASTEROID_COUNT ==> scattered_asteroid(#[trigger] w.entities[k])
    &&& forall|k: int|
        1 + ASTEROID_COUNT <= k < 1 + ASTEROID_COUNT + WORKER_COUNT ==> placed_worker(
            #[trigger] w.entities[k],
        )
    &&& forall|k: int|
        1 + ASTEROID_COUNT + WORKER_COUNT <= k < w.entities.len() ==> placed_warrior(
            #[trigger] w.entities[k],
        )
}

/// Sets the game up: the viewpoint, the player's ship, and the asteroids,
/// workers and warriors at random places.
pub fn setup() -> (world: World)
    ensures
        world.wf(),
        at_start(world@),
{
    let mut world = World::new();
    world.camera = Some(Vec2 { x: 0, y: 0 });
    spawn_player(&mut world);
    let ghost w1 = world@;
    spawn_asteroids(&mut world);
    let ghost w2 = world@;
    spawn_workers(&mut world);
    let ghost w3 = world@;
    spawn_warriors(&mut world);
    proof {
        let w4 = world@;
        assert(w1.entities.len() == 1 && w1.entities[0] == player_at_start());
        assert forall|k: int| 1 <= k < 1 + ASTEROID_COUNT implies scattered_asteroid(
            #[trigger] w4.entities[k],
        ) by {
            assert(w3.entities.subrange(0, 1 + ASTEROID_COUNT)[k] == w2.entities[k]);
        }
        assert forall|k: int|
            1 + ASTEROID_COUNT <= k < 1 + ASTEROID_COUNT + WORKER_COUNT implies placed_worker(
            #[trigger] w4.entities[k],
        ) by {
            assert(w4.entities.subrange(0, 1 + ASTEROID_COUNT + WORKER_COUNT)[k]
                == w3.entities[k]);
        }
    }
    world
}

/// The world after the agents and guns of a tick: steering, motion,
/// collisions, and the serving of the guns, in this order.
pub open spec fn after_motion(w: WorldView, dt: int) -> WorldView {
    after_gun_system(
        after_collisions(
            after_apply_velocity(after_warrior_movement(after_worker_movement(w, dt), dt), dt),
        ),
        dt,
    )
}

/// The world after the pickups, with the viewpoint on the player and
/// everything wrapped around it.
pub open spec fn settled(w: WorldView) -> WorldView {
    after_wrap(after_camera_follow(after_crystal_impacts(w)))
}

/// `after` is what the systems of one tick of `dt` milliseconds under the
/// controls `input` can make of `before`. They follow one another in a fixed
/// order: the controls and the agents' decisions, then steering and motion,
/// then collisions, then guns, projectiles and pickups, then the viewpoint and
/// the wrapping around it. The three systems that draw random numbers are
/// named by what they can lead to. What was marked for removal is still
/// there.
pub open spec fn step_outcome(
    before: WorldView,
    after: WorldView,
    input: PlayerInput,
    dt: int,
) -> bool {
    exists|a: WorldView, b: WorldView, c: WorldView|
        #![trigger
            worker_roaming_outcome(after_player_input(before, input, dt), a),
            warrior_ai_outcome(after_worker_sensor(a), b),
            projectile_outcome(after_motion(b, dt), c, dt)
        ]
        {
            &&& worker_roaming_outcome(after_player_input(before, input, dt), a)
            &&& warrior_ai_outcome(after_worker_sensor(a), b)
            &&& projectile_outcome(after_motion(b, dt), c, dt)
            &&& after == settled(c)
        }
}

/// `after` is what one tick of `dt` milliseconds under the controls `input`
/// can make of `before`: the systems have run, and then what was marked was
/// removed.
pub open spec fn tick_outcome(
    before: WorldView,
    after: WorldView,
    input: PlayerInput,
    dt: int,
) -> bool {
    exists|m: WorldView| #[trigger] step_outcome(before, m, input, dt) && after == m.flushed()
}

/// Runs the systems of one tick of `dt` milliseconds under the controls
/// `input`, in their order, and leaves the removal of what they marked to a
/// later `flush`.
pub fn step(world: &mut World, input: &PlayerInput, dt: u32)
    requires
        old(world).wf(),
        input.wf(),
    ensures
        final(world).wf(),
        step_outcome(old(world)@, final(world)@, *input, dt as int),
{
    player_input(world, input, dt);
    worker_roaming_ai(world);
    let ghost a = world@;
    worker_sensor_ai(world);
    warrior_ai(world);
    let ghost b = world@;
    worker_movement(world, dt);
    warrior_movement(world, dt);
    apply_velocity(world, dt);
    handle_collisions(world);
    gun_system(world, dt);
    projectile_system(world, dt);
    let ghost c = world@;
    crystal_impacts(world);
    camera_follow(world);
    wrap_around_camera(world);
    proof {
        assert(worker_roaming_outcome(after_player_input(old(world)@, *input, dt as int), a));
        assert(warrior_ai_outcome(after_worker_sensor(a), b));
        assert(projectile_outcome(after_motion(b, dt as int), c, dt as int));
        assert(world@ == settled(c));
    }
}

/// Advances the world by one tick of `dt` milliseconds under the controls
/// `input`: runs the systems, then removes what they marked.
pub fn tick(world: &mut World, input: &PlayerInput, dt: u32)
    requires
        old(world).wf(),
        input.wf(),
    ensures
        final(world).wf(),
        tick_outcome(old(world)@, final(world)@, *input, dt as int),
{
    step(world, input, dt);
    let ghost m = world@;
    world.flush();
    assert(step_outcome(old(world)@, m, *input, dt as int) && world@ == m.flushed());
}

} // verus!
