use vstd::prelude::*;

use crate::engine::fixed::{div_tz, ONE, POS_LIMIT};
use crate::engine::object::{
    point_ok, spec_apply, spec_cube_edges, spec_cube_points, spec_cube_triangles, spec_identity,
    spec_mat_mul, spec_rot_x, spec_rot_y, spec_rot_z, spec_sphere_vertex, Matrix4x4, Object, Point,
    Rot,
};
use crate::engine::shader::{spec_blend, spec_render, Color, Shader};
use vstd::arithmetic::div_mod::{
    lemma_div_by_multiple, lemma_div_is_ordered, lemma_div_pos_is_pos,
};
use vstd::arithmetic::mul::lemma_mul_inequality;

verus! {

/// The fixed-point tangent of half the default 60-degree field of view.
pub const DEFAULT_TAN_HALF_FOV: i64 = 37837;

/// A pinhole camera: position, precomputed tangent of half the field of view
/// (fixed point), and the viewport in pixels.
#[derive(Clone, Copy, Debug, PartialEq, Eq, Structural)]
pub struct Camera {
    pub pos: Point,
    pub tan_half_fov: i64,
    pub width: usize,
    pub height: usize,
}

/// The viewport aspect ratio, width over height, in fixed point.
pub open spec fn spec_aspect(cam: Camera) -> int {
    div_tz(cam.width as int * (ONE as int), cam.height as int)
}

/// The horizontal projection divisor: tangent of half the field of view times
/// the aspect ratio, in fixed point.
pub open spec fn spec_denom(cam: Camera) -> int {
    div_tz(cam.tan_half_fov * spec_aspect(cam), ONE as int)
}

impl Camera {
    /// Viewport and optics stay in ranges where every projection
    /// intermediate fits its machine integer and no divisor is zero.
    pub open spec fn wf(self) -> bool {
        &&& 0 < self.width <= 32768
        &&& 0 < self.height <= 32768
        &&& 1 <= self.tan_half_fov <= 16 * (ONE as int)
        &&& point_ok(self.pos)
        &&& spec_denom(self) >= 1
    }

    /// The default camera: at 50 units before the origin on the z axis,
    /// looking along +z with a 60-degree field of view.
    pub fn new(width: usize, height: usize) -> (r: Camera)
        requires
            0 < width <= 32768,
            0 < height <= 32768,
        ensures
            r.wf(),
            r.width == width,
            r.height == height,
            r.tan_half_fov == DEFAULT_TAN_HALF_FOV,
            r.pos == (Point { x: 0, y: 0, z: (-50 * (ONE as int)) as i64 }),
    {
        let cam = Camera {
            pos: Point { x: 0, y: 0, z: -50 * ONE },
            tan_half_fov: DEFAULT_TAN_HALF_FOV,
            width,
            height,
        };
        proof {
            let a = spec_aspect(cam);
            lemma_div_is_ordered(2 * (height as int), width as int * (ONE as int), height as int);
            lemma_div_by_multiple(2, height as int);
            assert(a >= 2);
            lemma_mul_inequality(2, a, DEFAULT_TAN_HALF_FOV as int);
            lemma_div_is_ordered(2 * (DEFAULT_TAN_HALF_FOV as int), DEFAULT_TAN_HALF_FOV as int * a, ONE as int);
            assert(75674 as int / 65536 == 1);
            lemma_div_pos_is_pos(DEFAULT_TAN_HALF_FOV as int * a, ONE as int);
            assert(spec_denom(cam) >= 1);
        }
        cam
    }
}


/// The rotation by angle zero, which the compositor skips.
pub open spec fn rot_one() -> Rot {
    Rot { cos: ONE, sin: 0 }
}

/// The opaque white color every mesh's vertices are drawn with.
pub open spec fn spec_white() -> Color {
    Color { r: 255, g: 255, b: 255, a: 255 }
}

/// The transform after one rotate call: each axis whose angle is not zero is
/// post-multiplied into the accumulated transform, in the fixed order x, then
/// y, then z.
pub open spec fn spec_rotated_transform(t: Matrix4x4, rx: Rot, ry: Rot, rz: Rot) -> Matrix4x4 {
    let t1 = if rx == rot_one() {
        t
    } else {
        spec_mat_mul(t, spec_rot_x(rx))
    };
    let t2 = if ry == rot_one() {
        t1
    } else {
        spec_mat_mul(t1, spec_rot_y(ry))
    };
    if rz == rot_one() {
        t2
    } else {
        spec_mat_mul(t2, spec_rot_z(rz))
    }
}

/// The index of the first mesh with the given id at or after `i`, or the
/// collection's length if there is none.
pub open spec fn spec_find(objects: Seq<Object>, id: usize, i: int) -> int
    decreases objects.len() - i,
{
    if i < 0 || i >= objects.len() {
        objects.len() as int
    } else if objects[i].id == id {
        i
    } else {
        spec_find(objects, id, i + 1)
    }
}

/// Where a mesh is found always lies between the search start and the
/// collection's length.
pub proof fn lemma_find_range(objects: Seq<Object>, id: usize, i: int)
    requires
        0 <= i <= objects.len(),
    ensures
        i <= spec_find(objects, id, i) <= objects.len(),
    decreases objects.len() - i,
{
    if i < objects.len() && objects[i].id != id {
        lemma_find_range(objects, id, i + 1);
    }
}

/// Skipping a prefix without the id does not change where it is found.
proof fn lemma_find_from(objects: Seq<Object>, id: usize, j: int, i: int)
    requires
        0 <= j <= i <= objects.len(),
        forall|k: int| j <= k < i ==> (#[trigger] objects[k]).id != id,
    ensures
        spec_find(objects, id, j) == spec_find(objects, id, i),
    decreases i - j,
{
    if j < i {
        lemma_find_from(objects, id, j + 1, i);
    }
}

/// One mesh's render blended over a frame, pixel by pixel.
pub open spec fn spec_overlay(frame: Seq<u32>, buf: Seq<Color>) -> Seq<u32> {
    Seq::new(frame.len(), |i: int| if 0 <= i < buf.len() {
            spec_blend(frame[i], buf[i])
        } else {
            frame[i]
        })
}

/// The frame after compositing the first `k` meshes, in storage order, over a
/// cleared frame: each mesh is rendered in opaque white and alpha-blended on.
pub open spec fn spec_composite(objects: Seq<Object>, cam: Camera, k: int) -> Seq<u32>
    decreases k,
{
    if k <= 0 {
        Seq::new((cam.width as int * cam.height as int) as nat, |i: int| 0u32)
    } else {
        spec_overlay(
            spec_composite(objects, cam, k - 1),
            spec_render(objects[k - 1].points@, objects[k - 1].edges@, spec_white(), cam).0,
        )
    }
}

/// The compositor: it owns the meshes, one camera, and the shared frame
/// buffer that every mesh's render is blended onto.
pub struct Space {
    pub objects: Vec<Object>,
    pub camera: Camera,
    pub frame: Vec<u32>,
    pub fps: usize,
}

impl Space {
    /// Every owned mesh and the camera are well formed.
    pub open spec fn wf(self) -> bool {
        &&& self.camera.wf()
        &&& forall|i: int| 0 <= i < self.objects@.len() ==> (#[trigger] self.objects@[i]).wf()
    }

    /// An empty scene with the default camera and a cleared frame buffer.
    pub fn new(width: usize, height: usize, fps: usize) -> (r: Space)
        requires
            0 < width <= 32768,
            0 < height <= 32768,
        ensures
            r.wf(),
            r.objects@.len() == 0,
            r.camera.width == width,
            r.camera.height == height,
            r.camera.tan_half_fov == DEFAULT_TAN_HALF_FOV,
            r.camera.pos == (Point { x: 0, y: 0, z: (-50 * (ONE as int)) as i64 }),
            r.fps == fps,
            r.frame@.len() == width as int * height as int,
            forall|i: int| 0 <= i < r.frame@.len() ==> #[trigger] r.frame@[i] == 0u32,
    {
        proof {
            assert(width as int * height as int <= 32768 * 32768) by (nonlinear_arith)
                requires
                    width <= 32768 && height <= 32768,
            ;
            assert(width as int * height as int >= 0) by (nonlinear_arith)
                requires
                    width >= 0 && height >= 0,
            ;
        }
        let camera = Camera::new(width, height);
        let n = width * height;
        let mut frame: Vec<u32> = Vec::new();
        let mut i: usize = 0;
        while i < n
            invariant
                i <= n,
                frame@.len() == i as int,
                forall|k: int| 0 <= k < i as int ==> #[trigger] frame@[k] == 0u32,
            decreases n - i,
        {
            frame.push(0);
            i = i + 1;
        }
        Space { objects: Vec::new(), camera, frame, fps }
    }

    /// Inserts a mesh, overwriting the mesh with the same id if one is owned.
    #[verifier::loop_isolation(false)]
    pub fn add_object(&mut self, object: Object)
        requires
            old(self).wf(),
            object.wf(),
        ensures
            final(self).wf(),
            final(self).camera == old(self).camera,
            final(self).frame == old(self).frame,
            final(self).fps == old(self).fps,
            ({
                let j = spec_find(old(self).objects@, object.id, 0);
                final(self).objects@ == if j < old(self).objects@.len() {
                    old(self).objects@.update(j, object)
                } else {
                    old(self).objects@.push(object)
                }
            }),
    {
        let n = self.objects.len();
        let mut i: usize = 0;
        while i < n
            invariant
                i <= n,
                n == self.objects@.len(),
                *self == *old(self),
                forall|k: int| 0 <= k < i as int ==> (#[trigger] self.objects@[k]).id != object.id,
            decreases n - i,
        {
            if self.objects[i].id == object.id {
                proof {
                    lemma_find_from(self.objects@, object.id, 0, i as int);
                }
                self.objects.set(i, object);
                proof {
                    assert forall|k: int|
                        0 <= k < self.objects@.len() implies (#[trigger] self.objects@[k]).wf() by {
                        if k != i as int {
                            assert(self.objects@[k] == old(self).objects@[k]);
                            assert(old(self).objects@[k].wf());
                        } else {
                            assert(self.objects@[k] == object);
                        }
                    }
                }
                return;
            }
            i = i + 1;
        }
        proof {
            lemma_find_from(self.objects@, object.id, 0, n as int);
        }
        self.objects.push(object);
    }

    /// Builds a sphere from the given center, radius and resolution and
    /// inserts it under the next sequential id (the current mesh count).
    pub fn add_sphere(
        &mut self,
        x: i64,
        y: i64,
        z: i64,
        radius: i64,
        res: usize,
        lat: &Vec<Rot>,
        ring: &Vec<Rot>,
    ) -> (id: usize)
        requires
            old(self).wf(),
            3 <= res <= 32768,
            lat@.len() == res - 1,
            ring@.len() == res,
            forall|i: int| 0 <= i < lat@.len() ==> (#[trigger] lat@[i]).wf(),
            forall|i: int| 0 <= i < ring@.len() ==> (#[trigger] ring@[i]).wf(),
            0 < radius <= POS_LIMIT,
            -(POS_LIMIT as int) <= x <= POS_LIMIT as int,
            -(POS_LIMIT as int) <= y <= POS_LIMIT as int,
            -(POS_LIMIT as int) <= z <= POS_LIMIT as int,
        ensures
            final(self).wf(),
            final(self).camera == old(self).camera,
            final(self).frame == old(self).frame,
            final(self).fps == old(self).fps,
            id == old(self).objects@.len(),
            ({
                let j = spec_find(old(self).objects@, id, 0);
                let at = if j < old(self).objects@.len() {
                    j
                } else {
                    old(self).objects@.len() as int
                };
                &&& final(self).objects@.len() == (if j < old(self).objects@.len() {
                    old(self).objects@.len() as int
                } else {
                    old(self).objects@.len() as int + 1
                })
                &&& (forall|k: int|
                    0 <= k < old(self).objects@.len() && k != at ==> #[trigger] final(self).objects@[k]
                        == old(self).objects@[k])
                &&& final(self).objects@[at].id == id
                &&& final(self).objects@[at].center == (Point { x, y, z })
                &&& final(self).objects@[at].transform == spec_identity()
                &&& final(self).objects@[at].points@.len() == (res - 1) * res + 2
                &&& final(self).objects@[at].edges@.len() == 2 * res * (res - 1)
                &&& final(self).objects@[at].triangles@.len() == 2 * res * (res - 1)
                &&& final(self).objects@[at].original_points@ == final(self).objects@[at].points@
                &&& (forall|jq: int, iq: int|
                    0 <= jq < res - 1 && 0 <= iq < res ==> final(self).objects@[at].points@[1
                        + jq * (res as int) + iq] == spec_sphere_vertex(
                        radius,
                        Point { x, y, z },
                        ring@[iq],
                        lat@[jq],
                    ))
            }),
    {
        let id = self.objects.len();
        let pos = Point { x, y, z };
        let object = Object::new_sphere(id, radius, pos, res, lat, ring);
        let ghost gobj = object;
        self.add_object(object);
        proof {
            lemma_find_range(old(self).objects@, id, 0);
            let j = spec_find(old(self).objects@, id, 0);
            let at = if j < old(self).objects@.len() {
                j
            } else {
                old(self).objects@.len() as int
            };
            assert(self.objects@[at] == gobj);
        }
        id
    }

    /// Builds a cube from the given center and edge length and inserts it
    /// under the next sequential id (the current mesh count).
    pub fn add_cube(&mut self, x: i64, y: i64, z: i64, size: i64) -> (id: usize)
        requires
            old(self).wf(),
            0 < size <= POS_LIMIT,
            -(POS_LIMIT as int) <= x <= POS_LIMIT as int,
            -(POS_LIMIT as int) <= y <= POS_LIMIT as int,
            -(POS_LIMIT as int) <= z <= POS_LIMIT as int,
        ensures
            final(self).wf(),
            final(self).camera == old(self).camera,
            final(self).frame == old(self).frame,
            final(self).fps == old(self).fps,
            id == old(self).objects@.len(),
            ({
                let j = spec_find(old(self).objects@, id, 0);
                let at = if j < old(self).objects@.len() {
                    j
                } else {
                    old(self).objects@.len() as int
                };
                &&& final(self).objects@.len() == (if j < old(self).objects@.len() {
                    old(self).objects@.len() as int
                } else {
                    old(self).objects@.len() as int + 1
                })
                &&& (forall|k: int|
                    0 <= k < old(self).objects@.len() && k != at ==> #[trigger] final(self).objects@[k]
                        == old(self).objects@[k])
                &&& final(self).objects@[at].id == id
                &&& final(self).objects@[at].center == (Point { x, y, z })
                &&& final(self).objects@[at].transform == spec_identity()
                &&& final(self).objects@[at].points@ == spec_cube_points((size / 2) as int, Point { x, y, z })
                &&& final(self).objects@[at].edges@ == spec_cube_edges()
                &&& final(self).objects@[at].triangles@ == spec_cube_triangles()
                &&& final(self).objects@[at].points@.len() == 8
                &&& final(self).objects@[at].edges@.len() == 12
                &&& final(self).objects@[at].triangles@.len() == 12
                &&& final(self).objects@[at].original_points@ == final(self).objects@[at].points@
            }),
    {
        let id = self.objects.len();
        let pos = Point { x, y, z };
        let object = Object::new_cube(id, size, pos);
        let ghost gobj = object;
        self.add_object(object);
        proof {
            lemma_find_range(old(self).objects@, id, 0);
            let j = spec_find(old(self).objects@, id, 0);
            let at = if j < old(self).objects@.len() {
                j
            } else {
                old(self).objects@.len() as int
            };
            assert(self.objects@[at] == gobj);
        }
        id
    }
}


impl Space {
    /// Applies the given per-axis rotations to the mesh with the given id, in
    /// the fixed order x, then y, then z, skipping zero angles; an unknown id
    /// is a documented no-op, not an error. Rotating every axis by zero
    /// changes nothing at all.
    #[verifier::loop_isolation(false)]
    pub fn rotate_object(&mut self, id: usize, rx: Rot, ry: Rot, rz: Rot)
        requires
            old(self).wf(),
            rx.wf(),
            ry.wf(),
            rz.wf(),
        ensures
            final(self).wf(),
            final(self).camera == old(self).camera,
            final(self).frame == old(self).frame,
            final(self).fps == old(self).fps,
            final(self).objects@.len() == old(self).objects@.len(),
            ({
                let j = spec_find(old(self).objects@, id, 0);
                &&& (j == old(self).objects@.len() ==> final(self).objects@ == old(self).objects@)
                &&& (j < old(self).objects@.len() ==> {
                    &&& (forall|k: int|
                        0 <= k < old(self).objects@.len() && k != j ==> #[trigger] final(self).objects@[k] == old(self).objects@[k])
                    &&& final(self).objects@[j].id == old(self).objects@[j].id
                    &&& final(self).objects@[j].center == old(self).objects@[j].center
                    &&& final(self).objects@[j].original_points == old(self).objects@[j].original_points
                    &&& final(self).objects@[j].edges == old(self).objects@[j].edges
                    &&& final(self).objects@[j].triangles == old(self).objects@[j].triangles
                    &&& final(self).objects@[j].transform == spec_rotated_transform(
                        old(self).objects@[j].transform,
                        rx,
                        ry,
                        rz,
                    )
                    &&& final(self).objects@[j].points@.len() == old(self).objects@[j].points@.len()
                    &&& (forall|i: int|
                        0 <= i < final(self).objects@[j].points@.len() ==> #[trigger] final(self).objects@[j].points@[i] == spec_apply(
                            final(self).objects@[j].transform,
                            old(self).objects@[j].original_points@[i],
                            old(self).objects@[j].center,
                        ))
                })
            }),
            rx == rot_one() && ry == rot_one() && rz == rot_one() ==> final(self).objects@ == old(self).objects@,
    {
        let n = self.objects.len();
        let mut i: usize = 0;
        while i < n
            invariant
                i <= n,
                n == self.objects@.len(),
                *self == *old(self),
                forall|k: int| 0 <= k < i as int ==> (#[trigger] self.objects@[k]).id != id,
            decreases n - i,
        {
            if self.objects[i].id == id {
                proof {
                    lemma_find_from(self.objects@, id, 0, i as int);
                }
                let mut obj = self.objects.remove(i);
                let untouched = rx.cos == ONE && rx.sin == 0 && ry.cos == ONE && ry.sin == 0
                    && rz.cos == ONE && rz.sin == 0;
                if !(rx.cos == ONE && rx.sin == 0) {
                    obj.rotate_x(rx);
                }
                if !(ry.cos == ONE && ry.sin == 0) {
                    obj.rotate_y(ry);
                }
                if !(rz.cos == ONE && rz.sin == 0) {
                    obj.rotate_z(rz);
                }
                self.objects.insert(i, obj);
                proof {
                    assert(self.objects@ =~= old(self).objects@.update(
                        i as int,
                        self.objects@[i as int],
                    ));
                    if untouched {
                        assert(self.objects@ =~= old(self).objects@);
                    }
                    assert forall|k: int|
                        0 <= k < self.objects@.len() implies (#[trigger] self.objects@[k]).wf() by {
                        if k != i as int {
                            assert(self.objects@[k] == old(self).objects@[k]);
                            assert(old(self).objects@[k].wf());
                        }
                    }
                }
                return;
            }
            i = i + 1;
        }
        proof {
            lemma_find_from(self.objects@, id, 0, n as int);
        }
    }

    /// Applies the given per-axis rotations to every owned mesh, with the
    /// same ordering and zero-angle skipping as a single-mesh rotate.
    /// Rotating every axis by zero changes nothing at all.
    #[verifier::loop_isolation(false)]
    pub fn rotate_all(&mut self, rx: Rot, ry: Rot, rz: Rot)
        requires
            old(self).wf(),
            rx.wf(),
            ry.wf(),
            rz.wf(),
        ensures
            final(self).wf(),
            final(self).camera == old(self).camera,
            final(self).frame == old(self).frame,
            final(self).fps == old(self).fps,
            final(self).objects@.len() == old(self).objects@.len(),
            forall|j: int|
                0 <= j < old(self).objects@.len() ==> {
                    &&& (#[trigger] final(self).objects@[j]).id == old(self).objects@[j].id
                    &&& final(self).objects@[j].center == old(self).objects@[j].center
                    &&& final(self).objects@[j].original_points == old(self).objects@[j].original_points
                    &&& final(self).objects@[j].edges == old(self).objects@[j].edges
                    &&& final(self).objects@[j].triangles == old(self).objects@[j].triangles
                    &&& final(self).objects@[j].transform == spec_rotated_transform(
                        old(self).objects@[j].transform,
                        rx,
                        ry,
                        rz,
                    )
                    &&& final(self).objects@[j].points@.len() == old(self).objects@[j].points@.len()
                    &&& (forall|i: int|
                        0 <= i < final(self).objects@[j].points@.len() ==> #[trigger] final(self).objects@[j].points@[i] == spec_apply(
                            final(self).objects@[j].transform,
                            old(self).objects@[j].original_points@[i],
                            old(self).objects@[j].center,
                        ))
                },
            rx == rot_one() && ry == rot_one() && rz == rot_one() ==> final(self).objects@ == old(self).objects@,
    {
        let n = self.objects.len();
        let untouched = rx.cos == ONE && rx.sin == 0 && ry.cos == ONE && ry.sin == 0 && rz.cos
            == ONE && rz.sin == 0;
        let mut i: usize = 0;
        while i < n
            invariant
                i <= n,
                n == self.objects@.len(),
                self.camera == old(self).camera,
                self.frame == old(self).frame,
                self.fps == old(self).fps,
                forall|k: int|
                    i as int <= k < n as int ==> #[trigger] self.objects@[k] == old(self).objects@[k],
                forall|k: int| 0 <= k < n as int ==> (#[trigger] self.objects@[k]).wf(),
                forall|j: int|
                    0 <= j < i as int ==> {
                        &&& (#[trigger] self.objects@[j]).id == old(self).objects@[j].id
                        &&& self.objects@[j].center == old(self).objects@[j].center
                        &&& self.objects@[j].original_points == old(self).objects@[j].original_points
                        &&& self.objects@[j].edges == old(self).objects@[j].edges
                        &&& self.objects@[j].triangles == old(self).objects@[j].triangles
                        &&& self.objects@[j].transform == spec_rotated_transform(
                            old(self).objects@[j].transform,
                            rx,
                            ry,
                            rz,
                        )
                        &&& self.objects@[j].points@.len() == old(self).objects@[j].points@.len()
                        &&& (forall|q: int|
                            0 <= q < self.objects@[j].points@.len() ==> #[trigger] self.objects@[j].points@[q]
                                == spec_apply(
                                self.objects@[j].transform,
                                old(self).objects@[j].original_points@[q],
                                old(self).objects@[j].center,
                            ))
                    },
                untouched ==> (forall|k: int|
                    0 <= k < i as int ==> #[trigger] self.objects@[k] == old(self).objects@[k]),
            decreases n - i,
        {
            let mut obj = self.objects.remove(i);
            if !(rx.cos == ONE && rx.sin == 0) {
                obj.rotate_x(rx);
            }
            if !(ry.cos == ONE && ry.sin == 0) {
                obj.rotate_y(ry);
            }
            if !(rz.cos == ONE && rz.sin == 0) {
                obj.rotate_z(rz);
            }
            self.objects.insert(i, obj);
            proof {
                assert(self.objects@.len() == n as int);
                assert forall|k: int|
                    i as int + 1 <= k < n as int implies #[trigger] self.objects@[k] == old(self).objects@[k] by {
                    assert(self.objects@[k] == self.objects@.subrange(0, n as int)[k]);
                }
            }
            i = i + 1;
        }
        proof {
            if untouched {
                assert(self.objects@ =~= old(self).objects@);
            }
        }
    }

    /// Re-renders every owned mesh in storage order over a cleared frame,
    /// blending each render onto the shared frame buffer: the frame is a
    /// function of the owned meshes and the camera alone.
    #[verifier::loop_isolation(false)]
    pub fn update(&mut self)
        requires
            old(self).wf(),
        ensures
            final(self).wf(),
            final(self).camera == old(self).camera,
            final(self).objects == old(self).objects,
            final(self).fps == old(self).fps,
            final(self).frame@ == spec_composite(
                old(self).objects@,
                old(self).camera,
                old(self).objects@.len() as int,
            ),
    {
        proof {
            assert(self.camera.width as int * self.camera.height as int <= 32768 * 32768)
                by (nonlinear_arith)
                requires
                    self.camera.width <= 32768 && self.camera.height <= 32768,
            ;
            assert(self.camera.width as int * self.camera.height as int >= 0) by (nonlinear_arith)
                requires
                    self.camera.width >= 0 && self.camera.height >= 0,
            ;
        }
        let n = self.camera.width * self.camera.height;
        let mut frame: Vec<u32> = Vec::new();
        let mut f: usize = 0;
        while f < n
            invariant
                f <= n,
                frame@.len() == f as int,
                *self == *old(self),
                forall|k: int| 0 <= k < f as int ==> #[trigger] frame@[k] == 0u32,
            decreases n - f,
        {
            frame.push(0);
            f = f + 1;
        }
        proof {
            assert(frame@ =~= spec_composite(self.objects@, self.camera, 0));
        }
        let count = self.objects.len();
        let white = Color { r: 255, g: 255, b: 255, a: 255 };
        let mut oi: usize = 0;
        while oi < count
            invariant
                oi <= count,
                count == self.objects@.len(),
                *self == *old(self),
                frame@.len() == n as int,
                frame@ == spec_composite(self.objects@, self.camera, oi as int),
            decreases count - oi,
        {
            let buffer = Shader::render(&self.objects[oi], &white, &self.camera);
            let ghost fprev = frame@;
            let mut pi: usize = 0;
            while pi < buffer.len()
                invariant
                    pi <= buffer@.len(),
                    buffer@.len() == n as int,
                    buffer@ == spec_render(
                        self.objects@[oi as int].points@,
                        self.objects@[oi as int].edges@,
                        spec_white(),
                        self.camera,
                    ).0,
                    oi < count,
                    frame@.len() == n as int,
                    forall|k: int|
                        0 <= k < pi as int ==> #[trigger] frame@[k] == spec_blend(
                            fprev[k],
                            buffer@[k],
                        ),
                    forall|k: int| pi as int <= k < n as int ==> #[trigger] frame@[k] == fprev[k],
                decreases buffer@.len() - pi,
            {
                if pi < frame.len() {
                    let blended = Shader::blend(frame[pi], buffer[pi]);
                    frame.set(pi, blended);
                }
                pi = pi + 1;
            }
            proof {
                assert(frame@ =~= spec_overlay(fprev, buffer@));
                assert(frame@ =~= spec_composite(self.objects@, self.camera, oi as int + 1));
            }
            oi = oi + 1;
        }
        self.frame = frame;
    }
}


/// The composited frame is a function of the owned meshes and the camera
/// alone: a scene whose meshes and camera are unchanged (for instance after
/// rotating every mesh by zero angles) re-renders the same frame, byte for
/// byte.
pub proof fn lemma_update_deterministic(a: Space, b: Space)
    requires
        a.objects@ == b.objects@,
        a.camera == b.camera,
    ensures
        spec_composite(a.objects@, a.camera, a.objects@.len() as int) == spec_composite(
            b.objects@,
            b.camera,
            b.objects@.len() as int,
        ),
{
}

} // verus!
