pub mod engine;

use vstd::prelude::*;

use crate::engine::fixed::ONE;
use crate::engine::object::{spec_apply, Point, Rot};
use crate::engine::space::{
    rot_one, spec_find, spec_rotated_transform, Space, DEFAULT_TAN_HALF_FOV,
};

verus! {

/// Builds a point from fixed-point coordinates (multiples of
/// `engine::fixed::ONE`).
pub fn point(x: i64, y: i64, z: i64) -> (r: Point)
    ensures
        r == (Point { x, y, z }),
{
    Point { x, y, z }
}

/// Builds an empty scene with the default camera over the given viewport and
/// a cleared frame buffer: pure delegation to the scene constructor.
pub fn space(width: usize, height: usize, fps: usize) -> (r: Space)
    requires
        0 < width <= 32768,
        0 < height <= 32768,
    ensures
        r.wf(),
        r.objects@.len() == 0,
        r.camera.width == width,
        r.camera.height == height,
        r.camera.tan_half_fov == DEFAULT_TAN_HALF_FOV,
        r.camera.pos == (Point { x: 0, y: 0, z: (-50 * (ONE as int)) as i64 }),
        r.fps == fps,
        r.frame@.len() == width as int * height as int,
        forall|i: int| 0 <= i < r.frame@.len() ==> #[trigger] r.frame@[i] == 0u32,
{
    Space::new(width, height, fps)
}

/// Rotates the mesh with the given id, per axis, in the fixed order x, then
/// y, then z; an unknown id is a no-op, and zero angles change nothing.
pub fn rotate_object(space: &mut Space, id: usize, x: Rot, y: Rot, z: Rot)
    requires
        old(space).wf(),
        x.wf(),
        y.wf(),
        z.wf(),
    ensures
        final(space).wf(),
        final(space).camera == old(space).camera,
        final(space).frame == old(space).frame,
        final(space).fps == old(space).fps,
        final(space).objects@.len() == old(space).objects@.len(),
        ({
            let j = spec_find(old(space).objects@, id, 0);
            &&& (j == old(space).objects@.len() ==> final(space).objects@ == old(space).objects@)
            &&& (j < old(space).objects@.len() ==> {
                &&& (forall|k: int|
                    0 <= k < old(space).objects@.len() && k != j ==> #[trigger] final(space).objects@[k] == old(space).objects@[k])
                &&& final(space).objects@[j].id == old(space).objects@[j].id
                &&& final(space).objects@[j].center == old(space).objects@[j].center
                &&& final(space).objects@[j].original_points == old(space).objects@[j].original_points
                &&& final(space).objects@[j].edges == old(space).objects@[j].edges
                &&& final(space).objects@[j].triangles == old(space).objects@[j].triangles
                &&& final(space).objects@[j].transform == spec_rotated_transform(
                    old(space).objects@[j].transform,
                    x,
                    y,
                    z,
                )
                &&& final(space).objects@[j].points@.len() == old(space).objects@[j].points@.len()
                &&& (forall|i: int|
                    0 <= i < final(space).objects@[j].points@.len() ==> #[trigger] final(space).objects@[j].points@[i] == spec_apply(
                        final(space).objects@[j].transform,
                        old(space).objects@[j].original_points@[i],
                        old(space).objects@[j].center,
                    ))
            })
        }),
        x == rot_one() && y == rot_one() && z == rot_one() ==> final(space).objects@ == old(space).objects@,
{
    space.rotate_object(id, x, y, z);
}

/// Rotates every owned mesh, per axis, in the fixed order x, then y, then z;
/// zero angles change nothing.
pub fn rotate_all(space: &mut Space, x: Rot, y: Rot, z: Rot)
    requires
        old(space).wf(),
        x.wf(),
        y.wf(),
        z.wf(),
    ensures
        final(space).wf(),
        final(space).camera == old(space).camera,
        final(space).frame == old(space).frame,
        final(space).fps == old(space).fps,
        final(space).objects@.len() == old(space).objects@.len(),
        forall|j: int|
            0 <= j < old(space).objects@.len() ==> {
                &&& (#[trigger] final(space).objects@[j]).id == old(space).objects@[j].id
                &&& final(space).objects@[j].center == old(space).objects@[j].center
                &&& final(space).objects@[j].original_points == old(space).objects@[j].original_points
                &&& final(space).objects@[j].edges == old(space).objects@[j].edges
                &&& final(space).objects@[j].triangles == old(space).objects@[j].triangles
                &&& final(space).objects@[j].transform == spec_rotated_transform(
                    old(space).objects@[j].transform,
                    x,
                    y,
                    z,
                )
                &&& final(space).objects@[j].points@.len() == old(space).objects@[j].points@.len()
                &&& (forall|i: int|
                    0 <= i < final(space).objects@[j].points@.len() ==> #[trigger] final(space).objects@[j].points@[i] == spec_apply(
                        final(space).objects@[j].transform,
                        old(space).objects@[j].original_points@[i],
                        old(space).objects@[j].center,
                    ))
            },
        x == rot_one() && y == rot_one() && z == rot_one() ==> final(space).objects@ == old(space).objects@,
{
    space.rotate_all(x, y, z);
}

} // verus!
