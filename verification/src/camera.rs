//! The viewpoint, and the endless world around it.
//!
//! The world has no edge. Instead, whatever strays more than half a world
//! from the viewpoint is moved by a whole world to the other side, so that
//! the viewpoint always sits in the middle of what there is.
use vstd::prelude::*;
use crate::fixed::{saturate, saturate_i128, COORD_LIMIT};
use crate::transform::Transform;
use crate::vec2::Vec2;
use crate::world::{Entity, World, WorldView};

verus! {

/// Width of the world that loops around the viewpoint.
pub const WORLD_WIDTH: i64 = 4_000_000;

/// Height of the world that loops around the viewpoint.
pub const WORLD_HEIGHT: i64 = 4_000_000;

/// Marks an entity that is moved to the other side of the world when it
/// gets too far from the viewpoint.
#[derive(Clone, Copy, Debug, PartialEq, Eq)]
pub struct WrapsAroundCamera;

/// A coordinate after wrapping around the viewpoint's coordinate `cam` in a
/// world of size `extent`: moved by `extent` toward the viewpoint if it is
/// more than half of `extent` away from it, and left alone otherwise.
pub open spec fn wrap_axis(pos: int, cam: int, extent: int) -> int {
    if pos - cam > extent / 2 {
        pos - extent
    } else if pos - cam < -(extent / 2) {
        pos + extent
    } else {
        pos
    }
}

/// The entity after wrapping around the viewpoint `cam`. Only entities
/// marked for it are wrapped.
pub open spec fn wrapped(e: Entity, cam: Vec2) -> Entity {
    if e.wraps_around_camera is Some {
        Entity {
            transform: Transform {
                translation: Vec2 {
                    x: saturate(
                        wrap_axis(
                            e.transform.translation.x as int,
                            cam.x as int,
                            WORLD_WIDTH as int,
                        ),
                        COORD_LIMIT as int,
                    ) as i64,
                    y: saturate(
                        wrap_axis(
                            e.transform.translation.y as int,
                            cam.y as int,
                            WORLD_HEIGHT as int,
                        ),
                        COORD_LIMIT as int,
                    ) as i64,
                },
                ..e.transform
            },
            ..e
        }
    } else {
        e
    }
}

/// The world after wrapping. Without a viewpoint nothing is wrapped.
pub open spec fn after_wrap(w: WorldView) -> WorldView {
    match w.camera {
        Some(cam) => WorldView { entities: w.entities.map_values(|e: Entity| wrapped(e, cam)), ..w },
        None => w,
    }
}

/// Entity `p` is the player, and the only one.
pub open spec fn is_sole_player(s: Seq<Entity>, p: int) -> bool {
    &&& 0 <= p < s.len()
    &&& s[p].player is Some
    &&& forall|q: int| 0 <= q < s.len() && q != p ==> (#[trigger] s[q]).player is None
}

/// The one player, if there is exactly one.
pub open spec fn sole_player(s: Seq<Entity>) -> Option<int> {
    if exists|p: int| is_sole_player(s, p) {
        Some(choose|p: int| is_sole_player(s, p))
    } else {
        None
    }
}

/// The world after the viewpoint has followed the player: it is where the
/// player is. Nothing happens without a viewpoint, and nothing unless there is
/// exactly one player.
pub open spec fn after_camera_follow(w: WorldView) -> WorldView {
    match (w.camera, sole_player(w.entities)) {
        (Some(_), Some(p)) => WorldView {
            camera: Some(w.entities[p].transform.translation),
            ..w
        },
        _ => w,
    }
}

/// Wraps a coordinate around the viewpoint's coordinate `cam` in a world of
/// size `extent`.
pub fn wrap_coordinate(pos: i64, cam: i64, extent: i64) -> (r: i64)
    requires
        -COORD_LIMIT <= pos <= COORD_LIMIT,
        -COORD_LIMIT <= cam <= COORD_LIMIT,
        0 <= extent <= COORD_LIMIT,
    ensures
        r == saturate(wrap_axis(pos as int, cam as int, extent as int), COORD_LIMIT as int),
{
    let half = extent / 2;
    let diff = pos - cam;
    if diff > half {
        saturate_i128((pos - extent) as i128, COORD_LIMIT)
    } else if diff < -half {
        saturate_i128((pos + extent) as i128, COORD_LIMIT)
    } else {
        pos
    }
}

/// Wraps one entity around the viewpoint `cam`.
pub fn wrap_entity(e: &Entity, cam: &Vec2) -> (r: Entity)
    requires
        e.wf(),
        cam.within(COORD_LIMIT as int),
    ensures
        r == wrapped(*e, *cam),
        r.wf(),
{
    if e.wraps_around_camera.is_some() {
        let mut r = *e;
        r.transform.translation = Vec2 {
            x: wrap_coordinate(e.transform.translation.x, cam.x, WORLD_WIDTH),
            y: wrap_coordinate(e.transform.translation.y, cam.y, WORLD_HEIGHT),
        };
        r
    } else {
        *e
    }
}

/// Moves every entity marked for wrapping that is more than half a world
/// away from the viewpoint, on either axis, by a whole world toward it.
/// Without a viewpoint nothing happens.
pub fn wrap_around_camera(world: &mut World)
    requires
        old(world).wf(),
    ensures
        final(world).wf(),
        final(world)@ == after_wrap(old(world)@),
{
    let cam = match world.camera {
        Some(cam) => cam,
        None => {
            return ;
        },
    };
    let n = world.entities.len();
    let mut i: usize = 0;
    while i < n
        invariant
            i <= n,
            n == world.entities.len(),
            n == old(world).entities.len(),
            old(world).camera == Some(cam),
            world.messages == old(world).messages,
            world.score == old(world).score,
            world.sinibombs == old(world).sinibombs,
            world.camera == old(world).camera,
            world.wf(),
            forall|k: int|
                0 <= k < i ==> #[trigger] world.entities@[k] == wrapped(
                    old(world).entities@[k],
                    cam,
                ),
            forall|k: int| i <= k < n ==> #[trigger] world.entities@[k] == old(world).entities@[k],
        decreases n - i,
    {
        assert(world@.entities[i as int].wf());
        let e = wrap_entity(&world.entities[i], &cam);
        world.entities[i] = e;
        i += 1;
    }
    assert(world@.entities =~= after_wrap(old(world)@).entities);
}

/// The one player, if there is exactly one.
pub fn find_sole_player(entities: &Vec<Entity>) -> (r: Option<usize>)
    ensures
        match r {
            Some(p) => sole_player(entities@) == Some(p as int) && p < entities.len(),
            None => sole_player(entities@) is None,
        },
{
    let n = entities.len();
    let mut found: Option<usize> = None;
    let mut i: usize = 0;
    while i < n
        invariant
            i <= n,
            n == entities.len(),
            match found {
                Some(p) => p < i && entities@[p as int].player is Some && forall|q: int|
                    0 <= q < i && q != p ==> (#[trigger] entities@[q]).player is None,
                None => forall|q: int| 0 <= q < i ==> (#[trigger] entities@[q]).player is None,
            },
        decreases n - i,
    {
        if entities[i].player.is_some() {
            match found {
                Some(p) => {
                    return None;
                },
                None => {
                    found = Some(i);
                },
            }
        }
        i += 1;
    }
    proof {
        match found {
            Some(p) => {
                assert(is_sole_player(entities@, p as int));
            },
            None => {},
        }
    }
    found
}

/// Puts the viewpoint where the player is, at once and without lag. Nothing
/// happens without a viewpoint, and nothing unless there is exactly one
/// player.
pub fn camera_follow(world: &mut World)
    requires
        old(world).wf(),
    ensures
        final(world).wf(),
        final(world)@ == after_camera_follow(old(world)@),
{
    if world.camera.is_some() {
        match find_sole_player(&world.entities) {
            Some(p) => {
                world.camera = Some(world.entities[p].transform.translation);
            },
            None => {},
        }
    }
}

/// An entity that is exactly half a world away from the viewpoint, on either
/// side, is not moved: only more than half a world is too far.
pub proof fn at_the_boundary_nothing_moves(pos: int, cam: int, extent: int)
    requires
        extent >= 0,
        pos - cam == extent / 2 || pos - cam == -(extent / 2),
    ensures
        wrap_axis(pos, cam, extent) == pos,
{
}

/// An entity that is past the boundary, by no more than a whole world, is
/// moved by exactly one world toward the viewpoint, and is then no more than
/// half a world away from it.
pub proof fn past_the_boundary_one_world_back(pos: int, cam: int, extent: int)
    requires
        extent > 0,
        extent / 2 < pos - cam <= extent / 2 + extent || -(extent / 2) - extent <= pos - cam < -(
        extent / 2),
    ensures
        pos - cam > 0 ==> wrap_axis(pos, cam, extent) == pos - extent,
        pos - cam < 0 ==> wrap_axis(pos, cam, extent) == pos + extent,
        -(extent / 2) <= wrap_axis(pos, cam, extent) - cam <= extent / 2,
{
}

/// Wrapping twice is wrapping once, for whatever is no more than a world and
/// a half away from the viewpoint.
pub proof fn wrapping_twice_is_wrapping_once(pos: int, cam: int, extent: int)
    requires
        extent >= 0,
        -(extent / 2) - extent <= pos - cam <= extent / 2 + extent,
    ensures
        wrap_axis(wrap_axis(pos, cam, extent), cam, extent) == wrap_axis(pos, cam, extent),
{
}

/// How far `e` is from the viewpoint `cam`, on each axis.
pub open spec fn offset_from(e: Entity, cam: Vec2) -> (int, int) {
    (e.transform.translation.x - cam.x, e.transform.translation.y - cam.y)
}

/// `e` is no more than a world and a half away from the viewpoint `cam`, on
/// either axis: one step of wrapping brings it back.
pub open spec fn within_one_wrap(e: Entity, cam: Vec2) -> bool {
    &&& -(WORLD_WIDTH / 2) - WORLD_WIDTH <= offset_from(e, cam).0 <= WORLD_WIDTH / 2 + WORLD_WIDTH
    &&& -(WORLD_HEIGHT / 2) - WORLD_HEIGHT <= offset_from(e, cam).1 <= WORLD_HEIGHT / 2
        + WORLD_HEIGHT
}

/// Where wrapping puts `e` lies inside the coordinate range, so that nothing
/// saturates. Only next to the ends of the range can it be otherwise.
pub open spec fn wraps_inside_the_range(e: Entity, cam: Vec2) -> bool {
    &&& -COORD_LIMIT <= wrap_axis(
        e.transform.translation.x as int,
        cam.x as int,
        WORLD_WIDTH as int,
    ) <= COORD_LIMIT
    &&& -COORD_LIMIT <= wrap_axis(
        e.transform.translation.y as int,
        cam.y as int,
        WORLD_HEIGHT as int,
    ) <= COORD_LIMIT
}

/// While the viewpoint is at least half a world inside the coordinate range,
/// wrapping puts every entity inside the range.
pub proof fn viewpoint_inside_the_range_saturates_nothing(e: Entity, cam: Vec2)
    requires
        e.wf(),
        -(COORD_LIMIT - WORLD_WIDTH / 2) <= cam.x <= COORD_LIMIT - WORLD_WIDTH / 2,
        -(COORD_LIMIT - WORLD_HEIGHT / 2) <= cam.y <= COORD_LIMIT - WORLD_HEIGHT / 2,
    ensures
        wraps_inside_the_range(e, cam),
{
}

/// After wrapping, an entity marked for it that was no more than a world and
/// a half away from the viewpoint is no more than half a world away from it,
/// on either axis; and on an axis on which it was no more than half a world
/// away, it has not moved. This holds next to the ends of the coordinate
/// range too.
pub proof fn wrapped_entity_is_within_half_a_world(e: Entity, cam: Vec2)
    requires
        e.wf(),
        cam.within(COORD_LIMIT as int),
        e.wraps_around_camera is Some,
        within_one_wrap(e, cam),
    ensures
        -(WORLD_WIDTH / 2) <= offset_from(wrapped(e, cam), cam).0 <= WORLD_WIDTH / 2,
        -(WORLD_HEIGHT / 2) <= offset_from(wrapped(e, cam), cam).1 <= WORLD_HEIGHT / 2,
        -(WORLD_WIDTH / 2) <= offset_from(e, cam).0 <= WORLD_WIDTH / 2 ==> wrapped(
            e,
            cam,
        ).transform.translation.x == e.transform.translation.x,
        -(WORLD_HEIGHT / 2) <= offset_from(e, cam).1 <= WORLD_HEIGHT / 2 ==> wrapped(
            e,
            cam,
        ).transform.translation.y == e.transform.translation.y,
{
}

/// An entity marked for wrapping that is more than half a world away from
/// the viewpoint on an axis is moved by exactly one world on that axis, toward
/// the viewpoint. This holds wherever wrapping puts the entity inside the
/// coordinate range; next to the ends of the range the moved coordinate
/// saturates, and the entity may be moved by less.
pub proof fn wrapped_entity_moves_by_one_world(e: Entity, cam: Vec2)
    requires
        e.wf(),
        e.wraps_around_camera is Some,
        wraps_inside_the_range(e, cam),
    ensures
        offset_from(e, cam).0 > WORLD_WIDTH / 2 ==> wrapped(e, cam).transform.translation.x
            == e.transform.translation.x - WORLD_WIDTH,
        offset_from(e, cam).0 < -(WORLD_WIDTH / 2) ==> wrapped(e, cam).transform.translation.x
            == e.transform.translation.x + WORLD_WIDTH,
        offset_from(e, cam).1 > WORLD_HEIGHT / 2 ==> wrapped(e, cam).transform.translation.y
            == e.transform.translation.y - WORLD_HEIGHT,
        offset_from(e, cam).1 < -(WORLD_HEIGHT / 2) ==> wrapped(e, cam).transform.translation.y
            == e.transform.translation.y + WORLD_HEIGHT,
{
}

/// Wrapping an entity twice around the same viewpoint is wrapping it once,
/// if it was no more than a world and a half away from the viewpoint. This
/// holds next to the ends of the coordinate range too.
pub proof fn wrapping_an_entity_twice_is_wrapping_it_once(e: Entity, cam: Vec2)
    requires
        e.wf(),
        cam.within(COORD_LIMIT as int),
        within_one_wrap(e, cam),
    ensures
        wrapped(wrapped(e, cam), cam) == wrapped(e, cam),
{
}

/// Wrapping the world a second time, with the viewpoint where it was,
/// changes nothing, if no entity marked for wrapping was more than a world and
/// a half away from the viewpoint.
pub proof fn wrapping_the_world_twice_is_wrapping_it_once(w: WorldView)
    requires
        w.wf(),
        w.camera matches Some(cam) ==> forall|i: int|
            0 <= i < w.entities.len() && (#[trigger] w.entities[i]).wraps_around_camera is Some
                ==> within_one_wrap(w.entities[i], cam),
    ensures
        after_wrap(after_wrap(w)) == after_wrap(w),
{
    match w.camera {
        Some(cam) => {
            assert forall|i: int| 0 <= i < w.entities.len() implies wrapped(
                wrapped(#[trigger] w.entities[i], cam),
                cam,
            ) == wrapped(w.entities[i], cam) by {
                if w.entities[i].wraps_around_camera is Some {
                    wrapping_an_entity_twice_is_wrapping_it_once(w.entities[i], cam);
                }
            }
            assert(after_wrap(after_wrap(w)).entities =~= after_wrap(w).entities);
        },
        None => {},
    }
}

} // verus!
