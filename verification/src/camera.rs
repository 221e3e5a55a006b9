use vstd::prelude::*;

verus! {

/// Where the camera origin lands along one axis after following the
/// cursor: pulled back onto the cursor when the cursor is before the
/// viewport, pushed so the cursor sits on the far edge when beyond it,
/// then clamped so the viewport stays inside the world (pinned to 0 when
/// the viewport covers the world).
pub open spec fn follow_axis_spec(cursor: int, cam: int, view: int, world: int) -> int {
    let moved = if cursor < cam {
        cursor
    } else if cursor >= cam + view {
        cursor + 1 - view
    } else {
        cam
    };
    if world <= view {
        0
    } else if moved > world - view {
        world - view
    } else {
        moved
    }
}

/// One axis of camera-follow, exactly as `follow_axis_spec` states it.
pub fn follow_axis(cursor: usize, cam: usize, view: usize, world: usize) -> (r: usize)
    requires
        cursor < world,
        1 <= view,
    ensures
        r == follow_axis_spec(cursor as int, cam as int, view as int, world as int),
{
    let mut moved: usize = cam;
    if cursor < cam {
        moved = cursor;
    } else if cursor - cam >= view {
        moved = cursor + 1 - view;
    }
    if world <= view {
        0
    } else if moved > world - view {
        world - view
    } else {
        moved
    }
}

/// After a follow, the cursor lies inside the viewport and the viewport
/// lies inside the world.
pub proof fn lemma_follow_axis_in_view(cursor: int, cam: int, view: int, world: int)
    requires
        0 <= cursor < world,
        0 <= cam,
        1 <= view <= world,
    ensures
        follow_axis_spec(cursor, cam, view, world) <= cursor,
        cursor < follow_axis_spec(cursor, cam, view, world) + view,
        follow_axis_spec(cursor, cam, view, world) + view <= world,
        follow_axis_spec(cursor, cam, view, world) >= 0,
{
}

} // verus!
