use vstd::prelude::*;

use crate::engine::fixed::{
    div_tz, div_trunc, fmul, lemma_div_tz_exact, lemma_fmul_contracts, lemma_mul_mag, sat64,
    sat_narrow, spec_fmul, COORD_LIMIT, ONE, POS_LIMIT,
};
use vstd::arithmetic::div_mod::{lemma_mod_self_0, lemma_small_mod};
verus! {

/// Bound kept on every intermediate product of a matrix entry: sums of four
/// such products stay far inside `i128`.
pub const PROD_LIMIT: i128 = 0x100_0000_0000_0000_0000_0000_0000_0000;

/// Saturates a product into `[-PROD_LIMIT, PROD_LIMIT]`.
pub open spec fn sat_prod(x: int) -> int {
    if x > PROD_LIMIT {
        PROD_LIMIT as int
    } else if x < -PROD_LIMIT {
        -PROD_LIMIT as int
    } else {
        x
    }
}

/// A rotation angle, given by the fixed-point cosine and sine of the angle
/// (each a multiple of 1/ONE). The caller evaluates the trigonometry; the
/// engine's algebra is exact on the pair it is handed.
#[derive(Clone, Copy, Debug, PartialEq, Eq, Structural)]
pub struct Rot {
    pub cos: i64,
    pub sin: i64,
}

impl Rot {
    /// Cosine and sine both lie in [-1.0, 1.0].
    pub open spec fn wf(self) -> bool {
        -(ONE as int) <= self.cos <= ONE as int && -(ONE as int) <= self.sin <= ONE as int
    }

    /// The pair describes the angle exactly: cos^2 + sin^2 == 1.0 with no
    /// fixed-point rounding left over.
    pub open spec fn exact(self) -> bool {
        self.cos * self.cos + self.sin * self.sin == ONE as int * ONE as int
    }

    /// The rotation of the opposite angle.
    pub open spec fn spec_neg(self) -> Rot
        recommends
            self.wf(),
    {
        Rot { cos: self.cos, sin: (-(self.sin as int)) as i64 }
    }

    /// The rotation by angle zero.
    pub fn identity() -> (r: Rot)
        ensures
            r == (Rot { cos: ONE, sin: 0 }),
            r.wf(),
            r.exact(),
    {
        Rot { cos: ONE, sin: 0 }
    }

    /// Rotation by the opposite angle: same cosine, negated sine.
    pub fn neg(self) -> (r: Rot)
        requires
            self.wf(),
        ensures
            r == self.spec_neg(),
            r.wf(),
            self.exact() ==> r.exact(),
    {
        proof {
            if self.exact() {
                assert((-(self.sin as int)) * (-(self.sin as int)) == self.sin * self.sin)
                    by (nonlinear_arith);
            }
        }
        Rot { cos: self.cos, sin: -self.sin }
    }
}

/// A 4x4 fixed-point transform; the engine only ever builds rotations, so the
/// fourth row and column stay identity padding.
#[derive(Clone, Copy, Debug, PartialEq, Eq, Structural)]
pub struct Matrix4x4 {
    pub m00: i64, pub m01: i64, pub m02: i64, pub m03: i64,
    pub m10: i64, pub m11: i64, pub m12: i64, pub m13: i64,
    pub m20: i64, pub m21: i64, pub m22: i64, pub m23: i64,
    pub m30: i64, pub m31: i64, pub m32: i64, pub m33: i64,
}

/// One entry of a matrix product: the four products are summed at full width
/// and rescaled once, so an exact cancellation (cos^2 + sin^2) stays exact.
#[verifier::opaque]
pub open spec fn spec_mentry(
    a0: int, a1: int, a2: int, a3: int,
    b0: int, b1: int, b2: int, b3: int,
) -> int {
    sat64(
        div_tz(
            sat_prod(a0 * b0) + sat_prod(a1 * b1) + sat_prod(a2 * b2) + sat_prod(a3 * b3),
            ONE as int,
        ),
    )
}

pub open spec fn spec_identity() -> Matrix4x4 {
    Matrix4x4 {
        m00: ONE, m01: 0, m02: 0, m03: 0,
        m10: 0, m11: ONE, m12: 0, m13: 0,
        m20: 0, m21: 0, m22: ONE, m23: 0,
        m30: 0, m31: 0, m32: 0, m33: ONE,
    }
}

/// The standard product `C[i][j] = sum_k A[i][k]*B[k][j]`, each entry rescaled
/// out of fixed point once and saturated into `i64`.
pub open spec fn spec_mat_mul(a: Matrix4x4, b: Matrix4x4) -> Matrix4x4 {
    Matrix4x4 {
        m00: spec_mentry(a.m00 as int, a.m01 as int, a.m02 as int, a.m03 as int,
                         b.m00 as int, b.m10 as int, b.m20 as int, b.m30 as int) as i64,
        m01: spec_mentry(a.m00 as int, a.m01 as int, a.m02 as int, a.m03 as int,
                         b.m01 as int, b.m11 as int, b.m21 as int, b.m31 as int) as i64,
        m02: spec_mentry(a.m00 as int, a.m01 as int, a.m02 as int, a.m03 as int,
                         b.m02 as int, b.m12 as int, b.m22 as int, b.m32 as int) as i64,
        m03: spec_mentry(a.m00 as int, a.m01 as int, a.m02 as int, a.m03 as int,
                         b.m03 as int, b.m13 as int, b.m23 as int, b.m33 as int) as i64,
        m10: spec_mentry(a.m10 as int, a.m11 as int, a.m12 as int, a.m13 as int,
                         b.m00 as int, b.m10 as int, b.m20 as int, b.m30 as int) as i64,
        m11: spec_mentry(a.m10 as int, a.m11 as int, a.m12 as int, a.m13 as int,
                         b.m01 as int, b.m11 as int, b.m21 as int, b.m31 as int) as i64,
        m12: spec_mentry(a.m10 as int, a.m11 as int, a.m12 as int, a.m13 as int,
                         b.m02 as int, b.m12 as int, b.m22 as int, b.m32 as int) as i64,
        m13: spec_mentry(a.m10 as int, a.m11 as int, a.m12 as int, a.m13 as int,
                         b.m03 as int, b.m13 as int, b.m23 as int, b.m33 as int) as i64,
        m20: spec_mentry(a.m20 as int, a.m21 as int, a.m22 as int, a.m23 as int,
                         b.m00 as int, b.m10 as int, b.m20 as int, b.m30 as int) as i64,
        m21: spec_mentry(a.m20 as int, a.m21 as int, a.m22 as int, a.m23 as int,
                         b.m01 as int, b.m11 as int, b.m21 as int, b.m31 as int) as i64,
        m22: spec_mentry(a.m20 as int, a.m21 as int, a.m22 as int, a.m23 as int,
                         b.m02 as int, b.m12 as int, b.m22 as int, b.m32 as int) as i64,
        m23: spec_mentry(a.m20 as int, a.m21 as int, a.m22 as int, a.m23 as int,
                         b.m03 as int, b.m13 as int, b.m23 as int, b.m33 as int) as i64,
        m30: spec_mentry(a.m30 as int, a.m31 as int, a.m32 as int, a.m33 as int,
                         b.m00 as int, b.m10 as int, b.m20 as int, b.m30 as int) as i64,
        m31: spec_mentry(a.m30 as int, a.m31 as int, a.m32 as int, a.m33 as int,
                         b.m01 as int, b.m11 as int, b.m21 as int, b.m31 as int) as i64,
        m32: spec_mentry(a.m30 as int, a.m31 as int, a.m32 as int, a.m33 as int,
                         b.m02 as int, b.m12 as int, b.m22 as int, b.m32 as int) as i64,
        m33: spec_mentry(a.m30 as int, a.m31 as int, a.m32 as int, a.m33 as int,
                         b.m03 as int, b.m13 as int, b.m23 as int, b.m33 as int) as i64,
    }
}

/// The right-handed rotation about the x axis for the angle that `rot` gives.
pub open spec fn spec_rot_x(rot: Rot) -> Matrix4x4
    recommends
        rot.wf(),
{
    Matrix4x4 {
        m00: ONE, m01: 0, m02: 0, m03: 0,
        m10: 0, m11: rot.cos, m12: (-(rot.sin as int)) as i64, m13: 0,
        m20: 0, m21: rot.sin, m22: rot.cos, m23: 0,
        m30: 0, m31: 0, m32: 0, m33: ONE,
    }
}

/// The right-handed rotation about the y axis.
pub open spec fn spec_rot_y(rot: Rot) -> Matrix4x4
    recommends
        rot.wf(),
{
    Matrix4x4 {
        m00: rot.cos, m01: 0, m02: rot.sin, m03: 0,
        m10: 0, m11: ONE, m12: 0, m13: 0,
        m20: (-(rot.sin as int)) as i64, m21: 0, m22: rot.cos, m23: 0,
        m30: 0, m31: 0, m32: 0, m33: ONE,
    }
}

/// The right-handed rotation about the z axis.
pub open spec fn spec_rot_z(rot: Rot) -> Matrix4x4
    recommends
        rot.wf(),
{
    Matrix4x4 {
        m00: rot.cos, m01: (-(rot.sin as int)) as i64, m02: 0, m03: 0,
        m10: rot.sin, m11: rot.cos, m12: 0, m13: 0,
        m20: 0, m21: 0, m22: ONE, m23: 0,
        m30: 0, m31: 0, m32: 0, m33: ONE,
    }
}

/// One matrix product entry, saturated, rescaled out of fixed point.
fn mentry(a0: i64, a1: i64, a2: i64, a3: i64, b0: i64, b1: i64, b2: i64, b3: i64) -> (r: i64)
    ensures
        r as int == spec_mentry(a0 as int, a1 as int, a2 as int, a3 as int,
                                b0 as int, b1 as int, b2 as int, b3 as int),
{
    proof {
        reveal(spec_mentry);
    }
    let p0 = prod_sat(a0, b0);
    let p1 = prod_sat(a1, b1);
    let p2 = prod_sat(a2, b2);
    let p3 = prod_sat(a3, b3);
    let q = div_trunc(p0 + p1 + p2 + p3, ONE as i128);
    sat_narrow(q)
}

/// A full-width product of two scalars, saturated into `[-PROD_LIMIT, PROD_LIMIT]`.
fn prod_sat(a: i64, b: i64) -> (r: i128)
    ensures
        r as int == sat_prod(a as int * b as int),
        -PROD_LIMIT <= r <= PROD_LIMIT,
{
    proof {
        lemma_mul_mag(a as int, b as int, 0x8000_0000_0000_0000, 0x8000_0000_0000_0000);
    }
    let p: i128 = (a as i128) * (b as i128);
    if p > PROD_LIMIT {
        PROD_LIMIT
    } else if p < -PROD_LIMIT {
        -PROD_LIMIT
    } else {
        p
    }
}

impl Matrix4x4 {
    pub fn identity() -> (r: Matrix4x4)
        ensures
            r == spec_identity(),
    {
        Matrix4x4 {
            m00: ONE, m01: 0, m02: 0, m03: 0,
            m10: 0, m11: ONE, m12: 0, m13: 0,
            m20: 0, m21: 0, m22: ONE, m23: 0,
            m30: 0, m31: 0, m32: 0, m33: ONE,
        }
    }

    pub fn multiply(&self, other: &Matrix4x4) -> (r: Matrix4x4)
        ensures
            r == spec_mat_mul(*self, *other),
    {
        Matrix4x4 {
            m00: mentry(self.m00, self.m01, self.m02, self.m03, other.m00, other.m10, other.m20, other.m30),
            m01: mentry(self.m00, self.m01, self.m02, self.m03, other.m01, other.m11, other.m21, other.m31),
            m02: mentry(self.m00, self.m01, self.m02, self.m03, other.m02, other.m12, other.m22, other.m32),
            m03: mentry(self.m00, self.m01, self.m02, self.m03, other.m03, other.m13, other.m23, other.m33),
            m10: mentry(self.m10, self.m11, self.m12, self.m13, other.m00, other.m10, other.m20, other.m30),
            m11: mentry(self.m10, self.m11, self.m12, self.m13, other.m01, other.m11, other.m21, other.m31),
            m12: mentry(self.m10, self.m11, self.m12, self.m13, other.m02, other.m12, other.m22, other.m32),
            m13: mentry(self.m10, self.m11, self.m12, self.m13, other.m03, other.m13, other.m23, other.m33),
            m20: mentry(self.m20, self.m21, self.m22, self.m23, other.m00, other.m10, other.m20, other.m30),
            m21: mentry(self.m20, self.m21, self.m22, self.m23, other.m01, other.m11, other.m21, other.m31),
            m22: mentry(self.m20, self.m21, self.m22, self.m23, other.m02, other.m12, other.m22, other.m32),
            m23: mentry(self.m20, self.m21, self.m22, self.m23, other.m03, other.m13, other.m23, other.m33),
            m30: mentry(self.m30, self.m31, self.m32, self.m33, other.m00, other.m10, other.m20, other.m30),
            m31: mentry(self.m30, self.m31, self.m32, self.m33, other.m01, other.m11, other.m21, other.m31),
            m32: mentry(self.m30, self.m31, self.m32, self.m33, other.m02, other.m12, other.m22, other.m32),
            m33: mentry(self.m30, self.m31, self.m32, self.m33, other.m03, other.m13, other.m23, other.m33),
        }
    }

    pub fn rotate_x(rot: Rot) -> (r: Matrix4x4)
        requires
            rot.wf(),
        ensures
            r == spec_rot_x(rot),
    {
        Matrix4x4 {
            m00: ONE, m01: 0, m02: 0, m03: 0,
            m10: 0, m11: rot.cos, m12: -rot.sin, m13: 0,
            m20: 0, m21: rot.sin, m22: rot.cos, m23: 0,
            m30: 0, m31: 0, m32: 0, m33: ONE,
        }
    }

    pub fn rotate_y(rot: Rot) -> (r: Matrix4x4)
        requires
            rot.wf(),
        ensures
            r == spec_rot_y(rot),
    {
        Matrix4x4 {
            m00: rot.cos, m01: 0, m02: rot.sin, m03: 0,
            m10: 0, m11: ONE, m12: 0, m13: 0,
            m20: -rot.sin, m21: 0, m22: rot.cos, m23: 0,
            m30: 0, m31: 0, m32: 0, m33: ONE,
        }
    }

    pub fn rotate_z(rot: Rot) -> (r: Matrix4x4)
        requires
            rot.wf(),
        ensures
            r == spec_rot_z(rot),
    {
        Matrix4x4 {
            m00: rot.cos, m01: -rot.sin, m02: 0, m03: 0,
            m10: rot.sin, m11: rot.cos, m12: 0, m13: 0,
            m20: 0, m21: 0, m22: ONE, m23: 0,
            m30: 0, m31: 0, m32: 0, m33: ONE,
        }
    }
}

/// A 3-component fixed-point position (x, y, z): a value, no identity.
#[derive(Clone, Copy, Debug, PartialEq, Eq, Structural)]
pub struct Point {
    pub x: i64,
    pub y: i64,
    pub z: i64,
}

/// Coordinates accepted at construction boundaries.
pub open spec fn coord_ok(v: int) -> bool {
    -(COORD_LIMIT as int) <= v <= COORD_LIMIT as int
}

pub open spec fn point_ok(p: Point) -> bool {
    coord_ok(p.x as int) && coord_ok(p.y as int) && coord_ok(p.z as int)
}

pub open spec fn sq(v: int) -> int {
    v * v
}

/// Squared distance between two positions, as a mathematical integer.
pub open spec fn dist_sq(a: Point, b: Point) -> int {
    sq(a.x - b.x) + sq(a.y - b.y) + sq(a.z - b.z)
}

/// One output coordinate of a linear transform: the three products are summed
/// at full width and rescaled out of fixed point once.
#[verifier::opaque]
pub open spec fn spec_row_apply(m0: int, m1: int, m2: int, rx: int, ry: int, rz: int) -> int {
    sat64(div_tz(sat_prod(m0 * rx) + sat_prod(m1 * ry) + sat_prod(m2 * rz), ONE as int))
}

/// A vertex position under a transform about a pivot: translate the pivot to
/// the origin, apply the upper-left 3x3 block, translate back.
pub open spec fn spec_apply(t: Matrix4x4, p: Point, c: Point) -> Point {
    let rx = sat64(p.x - c.x);
    let ry = sat64(p.y - c.y);
    let rz = sat64(p.z - c.z);
    let nx = spec_row_apply(t.m00 as int, t.m01 as int, t.m02 as int, rx, ry, rz);
    let ny = spec_row_apply(t.m10 as int, t.m11 as int, t.m12 as int, rx, ry, rz);
    let nz = spec_row_apply(t.m20 as int, t.m21 as int, t.m22 as int, rx, ry, rz);
    Point { x: sat64(nx + c.x) as i64, y: sat64(ny + c.y) as i64, z: sat64(nz + c.z) as i64 }
}

/// One output coordinate of the transform pipeline.
fn row_apply(m0: i64, m1: i64, m2: i64, rx: i64, ry: i64, rz: i64) -> (r: i64)
    ensures
        r as int == spec_row_apply(m0 as int, m1 as int, m2 as int, rx as int, ry as int, rz as int),
{
    proof {
        reveal(spec_row_apply);
    }
    let p0 = prod_sat(m0, rx);
    let p1 = prod_sat(m1, ry);
    let p2 = prod_sat(m2, rz);
    let q = div_trunc(p0 + p1 + p2, ONE as i128);
    sat_narrow(q)
}

/// Applies a transform to one vertex about a pivot.
pub fn apply_point(t: &Matrix4x4, p: Point, c: Point) -> (r: Point)
    ensures
        r == spec_apply(*t, p, c),
{
    let rx = sat_narrow(p.x as i128 - c.x as i128);
    let ry = sat_narrow(p.y as i128 - c.y as i128);
    let rz = sat_narrow(p.z as i128 - c.z as i128);
    let nx = row_apply(t.m00, t.m01, t.m02, rx, ry, rz);
    let ny = row_apply(t.m10, t.m11, t.m12, rx, ry, rz);
    let nz = row_apply(t.m20, t.m21, t.m22, rx, ry, rz);
    Point {
        x: sat_narrow(nx as i128 + c.x as i128),
        y: sat_narrow(ny as i128 + c.y as i128),
        z: sat_narrow(nz as i128 + c.z as i128),
    }
}

/// The identity transform moves no vertex: applying it about any pivot gives
/// the vertex back exactly.
pub proof fn lemma_identity_apply(p: Point, c: Point)
    requires
        point_ok(p),
        point_ok(c),
    ensures
        spec_apply(spec_identity(), p, c) == p,
{
    reveal(spec_row_apply);
    let rx = p.x - c.x;
    let ry = p.y - c.y;
    let rz = p.z - c.z;
    lemma_div_tz_exact(rx, ONE as int);
    lemma_div_tz_exact(ry, ONE as int);
    lemma_div_tz_exact(rz, ONE as int);
}

/// The successor of an index around a ring of `res` entries is the index
/// plus one, wrapped to zero at the end, and never the index itself.
proof fn lemma_ring_successor(i: int, res: int)
    requires
        0 <= i < res,
        res >= 2,
    ensures
        (i + 1) % res == if i + 1 < res {
            i + 1
        } else {
            0
        },
        (i + 1) % res != i,
{
    if i + 1 < res {
        lemma_small_mod((i + 1) as nat, res as nat);
    } else {
        lemma_mod_self_0(res);
    }
}

/// An unordered pair of vertex indices into a mesh's vertex list.
#[derive(Clone, Copy, Debug, PartialEq, Eq, Structural)]
pub struct Edge {
    pub start: usize,
    pub end: usize,
}

/// An ordered triple of vertex indices into a mesh's vertex list.
#[derive(Clone, Copy, Debug, PartialEq, Eq, Structural)]
pub struct Triangle {
    pub a: usize,
    pub b: usize,
    pub c: usize,
}

/// An edge names two valid, distinct vertices.
pub open spec fn edge_ok(e: Edge, n: int) -> bool {
    e.start < n && e.end < n && e.start != e.end
}

/// A triangle names three valid, pairwise distinct vertices: no degenerate
/// triangle is ever emitted.
pub open spec fn tri_ok(t: Triangle, n: int) -> bool {
    t.a < n && t.b < n && t.c < n && t.a != t.b && t.b != t.c && t.a != t.c
}

/// A positional mesh: live vertices, rest-pose vertices, topology, an
/// accumulated transform and the pivot the transform is applied about.
pub struct Object {
    pub id: usize,
    pub points: Vec<Point>,
    pub original_points: Vec<Point>,
    pub edges: Vec<Edge>,
    pub triangles: Vec<Triangle>,
    pub shader: crate::engine::shader::Shader,
    pub transform: Matrix4x4,
    pub center: Point,
}

impl Object {
    /// The mesh invariant: every live vertex is exactly the rest-pose vertex
    /// carried through the accumulated transform about the pivot, rest-pose
    /// coordinates and pivot are in construction range, and every edge and
    /// triangle names valid vertices.
    pub open spec fn wf(self) -> bool {
        &&& self.points@.len() == self.original_points@.len()
        &&& forall|i: int|
            0 <= i < self.points@.len() ==> #[trigger] self.points@[i] == spec_apply(
                self.transform,
                self.original_points@[i],
                self.center,
            )
        &&& forall|i: int|
            0 <= i < self.original_points@.len() ==> point_ok(#[trigger] self.original_points@[i])
        &&& point_ok(self.center)
        &&& forall|i: int|
            0 <= i < self.edges@.len() ==> edge_ok(#[trigger] self.edges@[i], self.points@.len() as int)
        &&& forall|i: int|
            0 <= i < self.triangles@.len() ==> tri_ok(
                #[trigger] self.triangles@[i],
                self.points@.len() as int,
            )
    }

    /// Recomputes every live vertex from its rest-pose position, the
    /// accumulated transform and the pivot: no incremental drift.
    fn apply_transform(&mut self)
        ensures
            final(self).id == old(self).id,
            final(self).original_points == old(self).original_points,
            final(self).edges == old(self).edges,
            final(self).triangles == old(self).triangles,
            final(self).center == old(self).center,
            final(self).transform == old(self).transform,
            final(self).points@.len() == old(self).original_points@.len(),
            forall|i: int|
                0 <= i < final(self).points@.len() ==> #[trigger] final(self).points@[i]
                    == spec_apply(
                    old(self).transform,
                    old(self).original_points@[i],
                    old(self).center,
                ),
    {
        let n = self.original_points.len();
        let mut pts: Vec<Point> = Vec::new();
        let mut i: usize = 0;
        while i < n
            invariant
                i <= n,
                *self == *old(self),
                n == self.original_points@.len(),
                pts@.len() == i as int,
                forall|j: int|
                    0 <= j < i as int ==> #[trigger] pts@[j] == spec_apply(
                        self.transform,
                        self.original_points@[j],
                        self.center,
                    ),
            decreases n - i,
        {
            let p = apply_point(&self.transform, self.original_points[i], self.center);
            pts.push(p);
            i = i + 1;
        }
        self.points = pts;
    }

    /// Accumulates a rotation about x into the transform (post-multiplied, so
    /// repeated partial-axis calls compose), then recomputes every vertex.
    pub fn rotate_x(&mut self, rot: Rot)
        requires
            old(self).wf(),
            rot.wf(),
        ensures
            final(self).wf(),
            final(self).id == old(self).id,
            final(self).original_points == old(self).original_points,
            final(self).edges == old(self).edges,
            final(self).triangles == old(self).triangles,
            final(self).center == old(self).center,
            final(self).transform == spec_mat_mul(old(self).transform, spec_rot_x(rot)),
            final(self).points@.len() == old(self).points@.len(),
            forall|i: int|
                0 <= i < final(self).points@.len() ==> #[trigger] final(self).points@[i]
                    == spec_apply(
                    final(self).transform,
                    old(self).original_points@[i],
                    old(self).center,
                ),
    {
        let rm = Matrix4x4::rotate_x(rot);
        self.transform = self.transform.multiply(&rm);
        self.apply_transform();
    }

    /// Accumulates a rotation about y, then recomputes every vertex.
    pub fn rotate_y(&mut self, rot: Rot)
        requires
            old(self).wf(),
            rot.wf(),
        ensures
            final(self).wf(),
            final(self).id == old(self).id,
            final(self).original_points == old(self).original_points,
            final(self).edges == old(self).edges,
            final(self).triangles == old(self).triangles,
            final(self).center == old(self).center,
            final(self).transform == spec_mat_mul(old(self).transform, spec_rot_y(rot)),
            final(self).points@.len() == old(self).points@.len(),
            forall|i: int|
                0 <= i < final(self).points@.len() ==> #[trigger] final(self).points@[i]
                    == spec_apply(
                    final(self).transform,
                    old(self).original_points@[i],
                    old(self).center,
                ),
    {
        let rm = Matrix4x4::rotate_y(rot);
        self.transform = self.transform.multiply(&rm);
        self.apply_transform();
    }

    /// Accumulates a rotation about z, then recomputes every vertex.
    pub fn rotate_z(&mut self, rot: Rot)
        requires
            old(self).wf(),
            rot.wf(),
        ensures
            final(self).wf(),
            final(self).id == old(self).id,
            final(self).original_points == old(self).original_points,
            final(self).edges == old(self).edges,
            final(self).triangles == old(self).triangles,
            final(self).center == old(self).center,
            final(self).transform == spec_mat_mul(old(self).transform, spec_rot_z(rot)),
            final(self).points@.len() == old(self).points@.len(),
            forall|i: int|
                0 <= i < final(self).points@.len() ==> #[trigger] final(self).points@[i]
                    == spec_apply(
                    final(self).transform,
                    old(self).original_points@[i],
                    old(self).center,
                ),
    {
        let rm = Matrix4x4::rotate_z(rot);
        self.transform = self.transform.multiply(&rm);
        self.apply_transform();
    }

    /// Builds a UV sphere about `pos`: one north-pole vertex, `res - 1`
    /// latitude rings of `res` vertices each, one south-pole vertex, and the
    /// edges and triangles that close the surface. The caller supplies the
    /// circle samples: `ring[i]` holds the fixed-point cosine and sine of the
    /// longitude `2*pi*i/res`, and `lat[j]` those of the colatitude
    /// `pi*(j+1)/res`.
    #[verifier::loop_isolation(false)]
    pub fn new_sphere(
        id: usize,
        radius: i64,
        pos: Point,
        res: usize,
        lat: &Vec<Rot>,
        ring: &Vec<Rot>,
    ) -> (r: Object)
        requires
            3 <= res <= 32768,
            lat@.len() == res - 1,
            ring@.len() == res,
            forall|i: int| 0 <= i < lat@.len() ==> (#[trigger] lat@[i]).wf(),
            forall|i: int| 0 <= i < ring@.len() ==> (#[trigger] ring@[i]).wf(),
            0 < radius <= POS_LIMIT,
            -(POS_LIMIT as int) <= pos.x <= POS_LIMIT as int,
            -(POS_LIMIT as int) <= pos.y <= POS_LIMIT as int,
            -(POS_LIMIT as int) <= pos.z <= POS_LIMIT as int,
        ensures
            r.wf(),
            r.id == id,
            r.center == pos,
            r.transform == spec_identity(),
            r.original_points@ == r.points@,
            r.points@.len() == (res - 1) * res + 2,
            r.edges@.len() == 2 * res * (res - 1),
            r.triangles@.len() == 2 * res * (res - 1),
            r.points@[0] == (Point { x: pos.x, y: pos.y, z: (pos.z + radius) as i64 }),
            r.points@[r.points@.len() - 1] == (Point {
                x: pos.x,
                y: pos.y,
                z: (pos.z - radius) as i64,
            }),
            forall|j: int, i: int|
                0 <= j < res - 1 && 0 <= i < res ==> r.points@[1 + j * (res as int) + i]
                    == spec_sphere_vertex(radius, pos, ring@[i], lat@[j]),
            forall|i: int|
                0 <= i < res ==> r.edges@[i] == sphere_pole_edge(i) && r.triangles@[i]
                    == sphere_pole_triangle(res as int, i),
            forall|j: int, i: int|
                0 <= j < res - 2 && 0 <= i < res ==> r.edges@[res + 2 * (j * (res as int) + i)]
                    == sphere_band_edge_down(res as int, j, i) && r.edges@[res + 2 * (j * (
                res as int) + i) + 1] == sphere_band_edge_around(res as int, j, i)
                    && r.triangles@[res + 2 * (j * (res as int) + i)] == sphere_band_triangle_a(
                    res as int,
                    j,
                    i,
                ) && r.triangles@[res + 2 * (j * (res as int) + i) + 1] == sphere_band_triangle_b(
                    res as int,
                    j,
                    i,
                ),
            forall|i: int|
                0 <= i < res ==> r.edges@[res + 2 * ((res - 2) * (res as int)) + i]
                    == sphere_south_edge(res as int, i) && r.triangles@[res + 2 * ((res - 2) * (
                res as int)) + i] == sphere_south_triangle(res as int, i),
    {
        proof {
            assert((res - 1) * (res as int) >= 2 * (res as int)) by (nonlinear_arith)
                requires
                    res >= 3,
            ;
            assert((res - 1) * (res as int) <= 32768 * 32768) by (nonlinear_arith)
                requires
                    res <= 32768,
            ;
        }
        let mut points: Vec<Point> = Vec::new();
        points.push(Point { x: pos.x, y: pos.y, z: pos.z + radius });
        let mut j: usize = 1;
        while j < res
            invariant
                1 <= j <= res,
                points@.len() == 1 + (j - 1) * (res as int),
                points@[0] == (Point { x: pos.x, y: pos.y, z: (pos.z + radius) as i64 }),
                forall|jj: int, ii: int|
                    0 <= jj < j - 1 && 0 <= ii < res ==> points@[1 + jj * (res as int) + ii]
                        == spec_sphere_vertex(radius, pos, ring@[ii], lat@[jj]),
                forall|k: int| 0 <= k < points@.len() ==> point_ok(#[trigger] points@[k]),
            decreases res - j,
        {
            let ph = lat[j - 1];
            let mut i: usize = 0;
            while i < res
                invariant
                    1 <= j < res,
                    i <= res,
                    ph == lat@[j - 1],
                    points@.len() == 1 + (j - 1) * (res as int) + i,
                    points@[0] == (Point { x: pos.x, y: pos.y, z: (pos.z + radius) as i64 }),
                    forall|jj: int, ii: int|
                        0 <= jj < j - 1 && 0 <= ii < res ==> points@[1 + jj * (res as int) + ii]
                            == spec_sphere_vertex(radius, pos, ring@[ii], lat@[jj]),
                    forall|ii: int|
                        0 <= ii < i ==> points@[1 + (j - 1) * (res as int) + ii]
                            == spec_sphere_vertex(radius, pos, ring@[ii], lat@[j - 1]),
                    forall|k: int| 0 <= k < points@.len() ==> point_ok(#[trigger] points@[k]),
                decreases res - i,
            {
                let th = ring[i];
                let xs = fmul(radius, th.sin);
                let yc = fmul(radius, th.cos);
                proof {
                    lemma_fmul_contracts(radius as int, th.sin as int, radius as int);
                    lemma_fmul_contracts(radius as int, th.cos as int, radius as int);
                    lemma_fmul_contracts(xs as int, ph.sin as int, radius as int);
                    lemma_fmul_contracts(yc as int, ph.sin as int, radius as int);
                    lemma_fmul_contracts(radius as int, ph.cos as int, radius as int);
                }
                let x = fmul(xs, ph.sin) + pos.x;
                let y = fmul(yc, ph.sin) + pos.y;
                let z = fmul(radius, ph.cos) + pos.z;
                points.push(Point { x, y, z });
                proof {
                    assert forall|jjq: int, iiq: int|
                        0 <= jjq < j - 1 && 0 <= iiq < res implies points@[1 + jjq * (res as int)
                            + iiq] == spec_sphere_vertex(radius, pos, ring@[iiq], lat@[jjq]) by {
                        assert(jjq * (res as int) + iiq < (j as int - 1) * (res as int))
                            by (nonlinear_arith)
                            requires
                                0 <= jjq < j - 1 && 0 <= iiq < res,
                        ;
                    }
                }
                i = i + 1;
            }
            proof {
                assert((j - 1) * (res as int) + res as int == j * (res as int)) by (nonlinear_arith);
                assert forall|jjq: int, iiq: int|
                    0 <= jjq < j && 0 <= iiq < res implies points@[1 + jjq * (res as int) + iiq]
                        == spec_sphere_vertex(radius, pos, ring@[iiq], lat@[jjq]) by {
                    assert(jjq * (res as int) + iiq < (j as int) * (res as int)) by (nonlinear_arith)
                        requires
                            0 <= jjq < j && 0 <= iiq < res,
                    ;
                    if jjq == j - 1 {
                        assert(points@[1 + (j - 1) * (res as int) + iiq] == spec_sphere_vertex(
                            radius,
                            pos,
                            ring@[iiq],
                            lat@[j - 1],
                        ));
                    }
                }
            }
            j = j + 1;
        }
        points.push(Point { x: pos.x, y: pos.y, z: pos.z - radius });
        let npts = points.len();
        proof {
            assert(npts == (res - 1) * res + 2);
            assert forall|jq: int, iq: int|
                0 <= jq < res - 1 && 0 <= iq < res implies points@[1 + jq * (res as int) + iq]
                    == spec_sphere_vertex(radius, pos, ring@[iq], lat@[jq]) by {
                assert(jq * (res as int) + iq < (res - 1) * (res as int)) by (nonlinear_arith)
                    requires
                        0 <= jq < res - 1 && 0 <= iq < res,
                ;
            }
        }
        let mut edges: Vec<Edge> = Vec::new();
        let mut triangles: Vec<Triangle> = Vec::new();
        let mut i: usize = 0;
        while i < res
            invariant
                i <= res,
                edges@.len() == i as int,
                triangles@.len() == i as int,
                forall|k: int| 0 <= k < edges@.len() ==> edge_ok(#[trigger] edges@[k], npts as int),
                forall|k: int|
                    0 <= k < triangles@.len() ==> tri_ok(#[trigger] triangles@[k], npts as int),
                forall|k: int| 0 <= k < i as int ==> edges@[k] == sphere_pole_edge(k),
                forall|k: int|
                    0 <= k < i as int ==> triangles@[k] == sphere_pole_triangle(res as int, k),
            decreases res - i,
        {
            proof {
                lemma_ring_successor(i as int, res as int);
            }
            let next_i = (i + 1) % res;
            let current = i + 1;
            let next = next_i + 1;
            edges.push(Edge { start: 0, end: current });
            triangles.push(Triangle { a: 0, b: current, c: next });
            i = i + 1;
        }
        let ring_size = res;
        let mut jj: usize = 0;
        while jj < res - 2
            invariant
                jj <= res - 2,
                edges@.len() == res + 2 * (jj * (res as int)),
                triangles@.len() == res + 2 * (jj * (res as int)),
                forall|k: int| 0 <= k < edges@.len() ==> edge_ok(#[trigger] edges@[k], npts as int),
                forall|k: int|
                    0 <= k < triangles@.len() ==> tri_ok(#[trigger] triangles@[k], npts as int),
                forall|k: int| 0 <= k < res ==> edges@[k] == sphere_pole_edge(k),
                forall|k: int|
                    0 <= k < res ==> triangles@[k] == sphere_pole_triangle(res as int, k),
                forall|jq: int, iq: int|
                    0 <= jq < jj as int && 0 <= iq < res ==> edges@[res + 2 * (jq * (res as int)
                        + iq)] == sphere_band_edge_down(res as int, jq, iq) && edges@[res + 2 * (
                    jq * (res as int) + iq) + 1] == sphere_band_edge_around(res as int, jq, iq)
                        && triangles@[res + 2 * (jq * (res as int) + iq)]
                        == sphere_band_triangle_a(res as int, jq, iq) && triangles@[res + 2 * (jq
                        * (res as int) + iq) + 1] == sphere_band_triangle_b(res as int, jq, iq),
            decreases res - 2 - jj,
        {
            proof {
                assert((jj + 1) * (res as int) <= 32768 * 32768) by (nonlinear_arith)
                    requires
                        jj + 1 <= 32768 && res <= 32768,
                ;
                assert((jj + 1) * (res as int) <= (res - 2) * (res as int)) by (nonlinear_arith)
                    requires
                        jj + 1 <= res - 2 || jj + 1 == res - 2,
                ;
                assert((res - 2) * (res as int) + res as int <= (res - 1) * res) by (nonlinear_arith);
            }
            let mut ii: usize = 0;
            while ii < ring_size
                invariant
                    ii <= ring_size,
                    jj < res - 2,
                    edges@.len() == res + 2 * (jj * (res as int)) + 2 * ii,
                    triangles@.len() == res + 2 * (jj * (res as int)) + 2 * ii,
                    (jj + 1) * (res as int) <= (res - 2) * (res as int),
                    (res - 2) * (res as int) + res as int <= (res - 1) * res,
                    forall|k: int|
                        0 <= k < edges@.len() ==> edge_ok(#[trigger] edges@[k], npts as int),
                    forall|k: int|
                        0 <= k < triangles@.len() ==> tri_ok(#[trigger] triangles@[k], npts as int),
                    forall|k: int| 0 <= k < res ==> edges@[k] == sphere_pole_edge(k),
                    forall|k: int|
                        0 <= k < res ==> triangles@[k] == sphere_pole_triangle(res as int, k),
                    forall|jq: int, iq: int|
                        0 <= jq < jj as int && 0 <= iq < res ==> edges@[res + 2 * (jq * (
                        res as int) + iq)] == sphere_band_edge_down(res as int, jq, iq) && edges@[
                        res + 2 * (jq * (res as int) + iq) + 1] == sphere_band_edge_around(
                            res as int,
                            jq,
                            iq,
                        ) && triangles@[res + 2 * (jq * (res as int) + iq)]
                            == sphere_band_triangle_a(res as int, jq, iq) && triangles@[res + 2 * (
                        jq * (res as int) + iq) + 1] == sphere_band_triangle_b(res as int, jq, iq),
                    forall|iq: int|
                        0 <= iq < ii as int ==> edges@[res + 2 * ((jj as int) * (res as int) + iq)]
                            == sphere_band_edge_down(res as int, jj as int, iq) && edges@[res + 2
                            * ((jj as int) * (res as int) + iq) + 1] == sphere_band_edge_around(
                            res as int,
                            jj as int,
                            iq,
                        ) && triangles@[res + 2 * ((jj as int) * (res as int) + iq)]
                            == sphere_band_triangle_a(res as int, jj as int, iq) && triangles@[res
                            + 2 * ((jj as int) * (res as int) + iq) + 1] == sphere_band_triangle_b(
                            res as int,
                            jj as int,
                            iq,
                        ),
                decreases ring_size - ii,
            {
                proof {
                    assert((jj + 1) * (res as int) == jj * (res as int) + res as int)
                        by (nonlinear_arith);
                }
                proof {
                    lemma_ring_successor(ii as int, ring_size as int);
                }
                let current = ii + 1 + jj * ring_size;
                let below = ii + 1 + (jj + 1) * ring_size;
                let next_i = (ii + 1) % ring_size;
                let next = next_i + 1 + jj * ring_size;
                let below_next = next_i + 1 + (jj + 1) * ring_size;
                edges.push(Edge { start: current, end: below });
                edges.push(Edge { start: current, end: next });
                triangles.push(Triangle { a: current, b: next, c: below });
                triangles.push(Triangle { a: next, b: below_next, c: below });
                proof {
                    assert forall|jq: int, iq: int|
                        0 <= jq < jj as int && 0 <= iq < res implies edges@[res + 2 * (jq * (
                        res as int) + iq)] == sphere_band_edge_down(res as int, jq, iq) && edges@[
                        res + 2 * (jq * (res as int) + iq) + 1] == sphere_band_edge_around(
                            res as int,
                            jq,
                            iq,
                        ) && triangles@[res + 2 * (jq * (res as int) + iq)]
                            == sphere_band_triangle_a(res as int, jq, iq) && triangles@[res + 2 * (
                        jq * (res as int) + iq) + 1] == sphere_band_triangle_b(
                            res as int,
                            jq,
                            iq,
                        ) by {
                        assert(jq * (res as int) + iq < (jj as int) * (res as int))
                            by (nonlinear_arith)
                            requires
                                0 <= jq < jj as int && 0 <= iq < res as int,
                        ;
                    }
                }
                ii = ii + 1;
            }
            proof {
                assert(2 * (jj * (res as int)) + 2 * (res as int) == 2 * ((jj + 1) * (res as int)))
                    by (nonlinear_arith);
                assert forall|jq: int, iq: int|
                    0 <= jq < jj as int + 1 && 0 <= iq < res implies edges@[res + 2 * (jq * (
                    res as int) + iq)] == sphere_band_edge_down(res as int, jq, iq) && edges@[res
                    + 2 * (jq * (res as int) + iq) + 1] == sphere_band_edge_around(
                        res as int,
                        jq,
                        iq,
                    ) && triangles@[res + 2 * (jq * (res as int) + iq)] == sphere_band_triangle_a(
                        res as int,
                        jq,
                        iq,
                    ) && triangles@[res + 2 * (jq * (res as int) + iq) + 1]
                        == sphere_band_triangle_b(res as int, jq, iq) by {
                    if jq == jj as int {
                        assert(edges@[res + 2 * ((jj as int) * (res as int) + iq)]
                            == sphere_band_edge_down(res as int, jj as int, iq));
                    }
                }
            }
            jj = jj + 1;
        }
        let south_pole_idx = npts - 1;
        let last_ring_start = south_pole_idx - ring_size;
        proof {
            assert(edges@.len() == res + 2 * ((res - 2) * (res as int)));
        }
        let ghost mid_count: int = edges@.len() as int;
        proof {
            assert((res - 1) * (res as int) - res as int == (res - 2) * (res as int))
                by (nonlinear_arith);
            assert((res - 2) * (res as int) >= res as int) by (nonlinear_arith)
                requires
                    res >= 3,
            ;
        }
        let mut i2: usize = 0;
        while i2 < res
            invariant
                i2 <= res,
                edges@.len() == mid_count + i2,
                triangles@.len() == mid_count + i2,
                mid_count == res + 2 * ((res - 2) * (res as int)),
                forall|k: int| 0 <= k < edges@.len() ==> edge_ok(#[trigger] edges@[k], npts as int),
                forall|k: int|
                    0 <= k < triangles@.len() ==> tri_ok(#[trigger] triangles@[k], npts as int),
                forall|k: int| 0 <= k < res ==> edges@[k] == sphere_pole_edge(k),
                forall|k: int|
                    0 <= k < res ==> triangles@[k] == sphere_pole_triangle(res as int, k),
                forall|jq: int, iq: int|
                    0 <= jq < res - 2 && 0 <= iq < res ==> edges@[res + 2 * (jq * (res as int)
                        + iq)] == sphere_band_edge_down(res as int, jq, iq) && edges@[res + 2 * (
                    jq * (res as int) + iq) + 1] == sphere_band_edge_around(res as int, jq, iq)
                        && triangles@[res + 2 * (jq * (res as int) + iq)]
                        == sphere_band_triangle_a(res as int, jq, iq) && triangles@[res + 2 * (jq
                        * (res as int) + iq) + 1] == sphere_band_triangle_b(res as int, jq, iq),
                forall|k: int|
                    0 <= k < i2 as int ==> edges@[mid_count + k] == sphere_south_edge(
                        res as int,
                        k,
                    ) && triangles@[mid_count + k] == sphere_south_triangle(res as int, k),
            decreases res - i2,
        {
            proof {
                lemma_ring_successor(i2 as int, ring_size as int);
            }
            let current = last_ring_start + i2;
            let next = last_ring_start + (i2 + 1) % ring_size;
            edges.push(Edge { start: current, end: south_pole_idx });
            triangles.push(Triangle { a: south_pole_idx, b: next, c: current });
            proof {
                assert forall|jq: int, iq: int|
                    0 <= jq < res - 2 && 0 <= iq < res implies edges@[res + 2 * (jq * (res as int)
                        + iq)] == sphere_band_edge_down(res as int, jq, iq) && edges@[res + 2 * (
                    jq * (res as int) + iq) + 1] == sphere_band_edge_around(res as int, jq, iq)
                        && triangles@[res + 2 * (jq * (res as int) + iq)]
                        == sphere_band_triangle_a(res as int, jq, iq) && triangles@[res + 2 * (jq
                        * (res as int) + iq) + 1] == sphere_band_triangle_b(
                        res as int,
                        jq,
                        iq,
                    ) by {
                    assert(jq * (res as int) + iq < (res - 2) * (res as int)) by (nonlinear_arith)
                        requires
                            0 <= jq < res - 2 && 0 <= iq < res as int,
                    ;
                }
            }
            i2 = i2 + 1;
        }
        proof {
            assert(res + 2 * ((res - 2) * (res as int)) + res == 2 * res * (res - 1))
                by (nonlinear_arith);
        }
        let original_points = points.clone();
        proof {
            assert forall|k: int| 0 <= k < points@.len() implies #[trigger] points@[k] == spec_apply(
                spec_identity(),
                points@[k],
                pos,
            ) by {
                lemma_identity_apply(points@[k], pos);
            }
        }
        Object {
            id,
            points,
            original_points,
            edges,
            triangles,
            shader: crate::engine::shader::Shader::new(),
            transform: Matrix4x4::identity(),
            center: pos,
        }
    }

    /// Builds an axis-aligned cube of the given edge length about `pos`:
    /// exactly 8 vertices, 12 edges and 12 triangles (two per face), with the
    /// fixed vertex order front-bottom-left first, back faces after front.
    pub fn new_cube(id: usize, size: i64, pos: Point) -> (r: Object)
        requires
            0 < size <= POS_LIMIT,
            -(POS_LIMIT as int) <= pos.x <= POS_LIMIT as int,
            -(POS_LIMIT as int) <= pos.y <= POS_LIMIT as int,
            -(POS_LIMIT as int) <= pos.z <= POS_LIMIT as int,
        ensures
            r.wf(),
            r.id == id,
            r.center == pos,
            r.transform == spec_identity(),
            r.original_points@ == r.points@,
            r.points@ == spec_cube_points((size / 2) as int, pos),
            r.edges@ == spec_cube_edges(),
            r.triangles@ == spec_cube_triangles(),
            r.points@.len() == 8,
            r.edges@.len() == 12,
            r.triangles@.len() == 12,
    {
        let half = sat_narrow(div_trunc(size as i128, 2));
        let mut points: Vec<Point> = Vec::new();
        points.push(Point { x: pos.x - half, y: pos.y - half, z: pos.z + half });
        points.push(Point { x: pos.x + half, y: pos.y - half, z: pos.z + half });
        points.push(Point { x: pos.x + half, y: pos.y + half, z: pos.z + half });
        points.push(Point { x: pos.x - half, y: pos.y + half, z: pos.z + half });
        points.push(Point { x: pos.x - half, y: pos.y - half, z: pos.z - half });
        points.push(Point { x: pos.x + half, y: pos.y - half, z: pos.z - half });
        points.push(Point { x: pos.x + half, y: pos.y + half, z: pos.z - half });
        points.push(Point { x: pos.x - half, y: pos.y + half, z: pos.z - half });
        let mut edges: Vec<Edge> = Vec::new();
        edges.push(Edge { start: 0, end: 1 });
        edges.push(Edge { start: 1, end: 2 });
        edges.push(Edge { start: 2, end: 3 });
        edges.push(Edge { start: 3, end: 0 });
        edges.push(Edge { start: 4, end: 5 });
        edges.push(Edge { start: 5, end: 6 });
        edges.push(Edge { start: 6, end: 7 });
        edges.push(Edge { start: 7, end: 4 });
        edges.push(Edge { start: 0, end: 4 });
        edges.push(Edge { start: 1, end: 5 });
        edges.push(Edge { start: 2, end: 6 });
        edges.push(Edge { start: 3, end: 7 });
        let mut triangles: Vec<Triangle> = Vec::new();
        triangles.push(Triangle { a: 0, b: 1, c: 2 });
        triangles.push(Triangle { a: 0, b: 2, c: 3 });
        triangles.push(Triangle { a: 5, b: 4, c: 7 });
        triangles.push(Triangle { a: 5, b: 7, c: 6 });
        triangles.push(Triangle { a: 4, b: 0, c: 3 });
        triangles.push(Triangle { a: 4, b: 3, c: 7 });
        triangles.push(Triangle { a: 1, b: 5, c: 6 });
        triangles.push(Triangle { a: 1, b: 6, c: 2 });
        triangles.push(Triangle { a: 3, b: 2, c: 6 });
        triangles.push(Triangle { a: 3, b: 6, c: 7 });
        triangles.push(Triangle { a: 4, b: 5, c: 1 });
        triangles.push(Triangle { a: 4, b: 1, c: 0 });
        let original_points = points.clone();
        proof {
            assert(points@ =~= spec_cube_points((size / 2) as int, pos));
            assert(edges@ =~= spec_cube_edges());
            assert(triangles@ =~= spec_cube_triangles());
            assert(original_points@ =~= points@);
            assert forall|i: int| 0 <= i < points@.len() implies point_ok(#[trigger] points@[i]) by {
            }
            assert forall|i: int| 0 <= i < points@.len() implies #[trigger] points@[i] == spec_apply(
                spec_identity(),
                points@[i],
                pos,
            ) by {
                lemma_identity_apply(points@[i], pos);
            }
        }
        Object {
            id,
            points,
            original_points,
            edges,
            triangles,
            shader: crate::engine::shader::Shader::new(),
            transform: Matrix4x4::identity(),
            center: pos,
        }
    }
}

/// One latitude-ring vertex of a sphere: radius scaled by the circle samples
/// (`th` around the pole axis, `ph` down from the pole), offset by the center.
pub open spec fn spec_sphere_vertex(radius: i64, pos: Point, th: Rot, ph: Rot) -> Point {
    Point {
        x: (spec_fmul(spec_fmul(radius as int, th.sin as int), ph.sin as int) + pos.x) as i64,
        y: (spec_fmul(spec_fmul(radius as int, th.cos as int), ph.sin as int) + pos.y) as i64,
        z: (spec_fmul(radius as int, ph.cos as int) + pos.z) as i64,
    }
}

/// The sphere's pole edge `i`: the north pole joined to vertex `i` of the
/// first latitude ring.
pub open spec fn sphere_pole_edge(i: int) -> Edge {
    Edge { start: 0, end: (i + 1) as usize }
}

/// The sphere's pole triangle `i`: the north pole and two consecutive
/// first-ring vertices.
pub open spec fn sphere_pole_triangle(res: int, i: int) -> Triangle {
    Triangle { a: 0, b: (i + 1) as usize, c: ((i + 1) % res + 1) as usize }
}

/// The edge from ring `j` vertex `i` down to the vertex below it on ring
/// `j + 1`.
pub open spec fn sphere_band_edge_down(res: int, j: int, i: int) -> Edge {
    Edge { start: (i + 1 + j * res) as usize, end: (i + 1 + (j + 1) * res) as usize }
}

/// The edge from ring `j` vertex `i` around to the next vertex on the same
/// ring.
pub open spec fn sphere_band_edge_around(res: int, j: int, i: int) -> Edge {
    Edge { start: (i + 1 + j * res) as usize, end: ((i + 1) % res + 1 + j * res) as usize }
}

/// The first of the two triangles of the band cell at ring `j`, vertex `i`.
pub open spec fn sphere_band_triangle_a(res: int, j: int, i: int) -> Triangle {
    Triangle {
        a: (i + 1 + j * res) as usize,
        b: ((i + 1) % res + 1 + j * res) as usize,
        c: (i + 1 + (j + 1) * res) as usize,
    }
}

/// The second of the two triangles of the band cell at ring `j`, vertex `i`.
pub open spec fn sphere_band_triangle_b(res: int, j: int, i: int) -> Triangle {
    Triangle {
        a: ((i + 1) % res + 1 + j * res) as usize,
        b: ((i + 1) % res + 1 + (j + 1) * res) as usize,
        c: (i + 1 + (j + 1) * res) as usize,
    }
}

/// The edge from last-ring vertex `i` to the south pole.
pub open spec fn sphere_south_edge(res: int, i: int) -> Edge {
    Edge { start: ((res - 2) * res + 1 + i) as usize, end: ((res - 1) * res + 1) as usize }
}

/// The south-pole triangle `i`: the south pole and two consecutive last-ring
/// vertices.
pub open spec fn sphere_south_triangle(res: int, i: int) -> Triangle {
    Triangle {
        a: ((res - 1) * res + 1) as usize,
        b: ((res - 2) * res + 1 + (i + 1) % res) as usize,
        c: ((res - 2) * res + 1 + i) as usize,
    }
}

/// The cube's twelve edges: four around the front face, four around the back
/// face, and the four that connect the two faces, so each corner lies on
/// exactly three edges.
pub open spec fn spec_cube_edges() -> Seq<Edge> {
    seq![
        Edge { start: 0, end: 1 },
        Edge { start: 1, end: 2 },
        Edge { start: 2, end: 3 },
        Edge { start: 3, end: 0 },
        Edge { start: 4, end: 5 },
        Edge { start: 5, end: 6 },
        Edge { start: 6, end: 7 },
        Edge { start: 7, end: 4 },
        Edge { start: 0, end: 4 },
        Edge { start: 1, end: 5 },
        Edge { start: 2, end: 6 },
        Edge { start: 3, end: 7 },
    ]
}

/// The cube's twelve triangles, two per face, in the fixed documented order
/// front, back, left, right, top, bottom.
pub open spec fn spec_cube_triangles() -> Seq<Triangle> {
    seq![
        Triangle { a: 0, b: 1, c: 2 },
        Triangle { a: 0, b: 2, c: 3 },
        Triangle { a: 5, b: 4, c: 7 },
        Triangle { a: 5, b: 7, c: 6 },
        Triangle { a: 4, b: 0, c: 3 },
        Triangle { a: 4, b: 3, c: 7 },
        Triangle { a: 1, b: 5, c: 6 },
        Triangle { a: 1, b: 6, c: 2 },
        Triangle { a: 3, b: 2, c: 6 },
        Triangle { a: 3, b: 6, c: 7 },
        Triangle { a: 4, b: 5, c: 1 },
        Triangle { a: 4, b: 1, c: 0 },
    ]
}

/// The eight corners of an axis-aligned cube with half-extent `half` about
/// `pos`, in the fixed documented order.
pub open spec fn spec_cube_points(half: int, pos: Point) -> Seq<Point> {
    seq![
        Point { x: (pos.x - half) as i64, y: (pos.y - half) as i64, z: (pos.z + half) as i64 },
        Point { x: (pos.x + half) as i64, y: (pos.y - half) as i64, z: (pos.z + half) as i64 },
        Point { x: (pos.x + half) as i64, y: (pos.y + half) as i64, z: (pos.z + half) as i64 },
        Point { x: (pos.x - half) as i64, y: (pos.y + half) as i64, z: (pos.z + half) as i64 },
        Point { x: (pos.x - half) as i64, y: (pos.y - half) as i64, z: (pos.z - half) as i64 },
        Point { x: (pos.x + half) as i64, y: (pos.y - half) as i64, z: (pos.z - half) as i64 },
        Point { x: (pos.x + half) as i64, y: (pos.y + half) as i64, z: (pos.z - half) as i64 },
        Point { x: (pos.x - half) as i64, y: (pos.y + half) as i64, z: (pos.z - half) as i64 },
    ]
}

/// A dot against the first unit row keeps the first component.
proof fn lemma_mentry_row0(b0: i64, b1: i64, b2: i64, b3: i64)
    ensures
        spec_mentry(ONE as int, 0, 0, 0, b0 as int, b1 as int, b2 as int, b3 as int) == b0 as int,
{
    reveal(spec_mentry);
    lemma_div_tz_exact(b0 as int, ONE as int);
}

proof fn lemma_mentry_row1(b0: i64, b1: i64, b2: i64, b3: i64)
    ensures
        spec_mentry(0, ONE as int, 0, 0, b0 as int, b1 as int, b2 as int, b3 as int) == b1 as int,
{
    reveal(spec_mentry);
    lemma_div_tz_exact(b1 as int, ONE as int);
}

proof fn lemma_mentry_row2(b0: i64, b1: i64, b2: i64, b3: i64)
    ensures
        spec_mentry(0, 0, ONE as int, 0, b0 as int, b1 as int, b2 as int, b3 as int) == b2 as int,
{
    reveal(spec_mentry);
    lemma_div_tz_exact(b2 as int, ONE as int);
}

proof fn lemma_mentry_row3(b0: i64, b1: i64, b2: i64, b3: i64)
    ensures
        spec_mentry(0, 0, 0, ONE as int, b0 as int, b1 as int, b2 as int, b3 as int) == b3 as int,
{
    reveal(spec_mentry);
    lemma_div_tz_exact(b3 as int, ONE as int);
}

proof fn lemma_mentry_col0(a0: i64, a1: i64, a2: i64, a3: i64)
    ensures
        spec_mentry(a0 as int, a1 as int, a2 as int, a3 as int, ONE as int, 0, 0, 0) == a0 as int,
{
    reveal(spec_mentry);
    lemma_div_tz_exact(a0 as int, ONE as int);
}

proof fn lemma_mentry_col1(a0: i64, a1: i64, a2: i64, a3: i64)
    ensures
        spec_mentry(a0 as int, a1 as int, a2 as int, a3 as int, 0, ONE as int, 0, 0) == a1 as int,
{
    reveal(spec_mentry);
    lemma_div_tz_exact(a1 as int, ONE as int);
}

proof fn lemma_mentry_col2(a0: i64, a1: i64, a2: i64, a3: i64)
    ensures
        spec_mentry(a0 as int, a1 as int, a2 as int, a3 as int, 0, 0, ONE as int, 0) == a2 as int,
{
    reveal(spec_mentry);
    lemma_div_tz_exact(a2 as int, ONE as int);
}

proof fn lemma_mentry_col3(a0: i64, a1: i64, a2: i64, a3: i64)
    ensures
        spec_mentry(a0 as int, a1 as int, a2 as int, a3 as int, 0, 0, 0, ONE as int) == a3 as int,
{
    reveal(spec_mentry);
    lemma_div_tz_exact(a3 as int, ONE as int);
}

/// The identity matrix is neutral for the product, on either side and
/// exactly: composing it with any transform yields that transform unchanged.
pub proof fn lemma_identity_neutral(m: Matrix4x4)
    ensures
        spec_mat_mul(spec_identity(), m) == m,
        spec_mat_mul(m, spec_identity()) == m,
{
    lemma_mentry_row0(m.m00, m.m10, m.m20, m.m30);
    lemma_mentry_row0(m.m01, m.m11, m.m21, m.m31);
    lemma_mentry_row0(m.m02, m.m12, m.m22, m.m32);
    lemma_mentry_row0(m.m03, m.m13, m.m23, m.m33);
    lemma_mentry_row1(m.m00, m.m10, m.m20, m.m30);
    lemma_mentry_row1(m.m01, m.m11, m.m21, m.m31);
    lemma_mentry_row1(m.m02, m.m12, m.m22, m.m32);
    lemma_mentry_row1(m.m03, m.m13, m.m23, m.m33);
    lemma_mentry_row2(m.m00, m.m10, m.m20, m.m30);
    lemma_mentry_row2(m.m01, m.m11, m.m21, m.m31);
    lemma_mentry_row2(m.m02, m.m12, m.m22, m.m32);
    lemma_mentry_row2(m.m03, m.m13, m.m23, m.m33);
    lemma_mentry_row3(m.m00, m.m10, m.m20, m.m30);
    lemma_mentry_row3(m.m01, m.m11, m.m21, m.m31);
    lemma_mentry_row3(m.m02, m.m12, m.m22, m.m32);
    lemma_mentry_row3(m.m03, m.m13, m.m23, m.m33);
    lemma_mentry_col0(m.m00, m.m01, m.m02, m.m03);
    lemma_mentry_col0(m.m10, m.m11, m.m12, m.m13);
    lemma_mentry_col0(m.m20, m.m21, m.m22, m.m23);
    lemma_mentry_col0(m.m30, m.m31, m.m32, m.m33);
    lemma_mentry_col1(m.m00, m.m01, m.m02, m.m03);
    lemma_mentry_col1(m.m10, m.m11, m.m12, m.m13);
    lemma_mentry_col1(m.m20, m.m21, m.m22, m.m23);
    lemma_mentry_col1(m.m30, m.m31, m.m32, m.m33);
    lemma_mentry_col2(m.m00, m.m01, m.m02, m.m03);
    lemma_mentry_col2(m.m10, m.m11, m.m12, m.m13);
    lemma_mentry_col2(m.m20, m.m21, m.m22, m.m23);
    lemma_mentry_col2(m.m30, m.m31, m.m32, m.m33);
    lemma_mentry_col3(m.m00, m.m01, m.m02, m.m03);
    lemma_mentry_col3(m.m10, m.m11, m.m12, m.m13);
    lemma_mentry_col3(m.m20, m.m21, m.m22, m.m23);
    lemma_mentry_col3(m.m30, m.m31, m.m32, m.m33);
}

/// The four product entries of R(angle) * R(-angle) that mix the cosine and
/// the sine, for an exact angle pair, with the pair in components 1 and 2.
proof fn lemma_mentry_cs_12(c: i64, s: i64)
    requires
        -(ONE as int) <= c <= ONE as int,
        -(ONE as int) <= s <= ONE as int,
        c * c + s * s == ONE as int * ONE as int,
    ensures
        spec_mentry(0, c as int, -(s as int), 0, 0, c as int, -(s as int), 0) == ONE as int,
        spec_mentry(0, s as int, c as int, 0, 0, s as int, c as int, 0) == ONE as int,
        spec_mentry(0, c as int, -(s as int), 0, 0, s as int, c as int, 0) == 0,
        spec_mentry(0, s as int, c as int, 0, 0, c as int, -(s as int), 0) == 0,
{
    reveal(spec_mentry);
    lemma_mul_mag(c as int, c as int, ONE as int, ONE as int);
    lemma_mul_mag(s as int, s as int, ONE as int, ONE as int);
    lemma_mul_mag(c as int, s as int, ONE as int, ONE as int);
    assert((-(s as int)) * (-(s as int)) == s * s) by (nonlinear_arith);
    assert(c * s + (-(s as int)) * c == 0) by (nonlinear_arith);
    assert(s * c + c * (-(s as int)) == 0) by (nonlinear_arith);
    assert((-(s as int)) * c == -(s * c)) by (nonlinear_arith);
    lemma_div_tz_exact(ONE as int, ONE as int);
    lemma_div_tz_exact(0, ONE as int);
}

/// The same four entries with the pair in components 0 and 2.
proof fn lemma_mentry_cs_02(c: i64, s: i64)
    requires
        -(ONE as int) <= c <= ONE as int,
        -(ONE as int) <= s <= ONE as int,
        c * c + s * s == ONE as int * ONE as int,
    ensures
        spec_mentry(c as int, 0, s as int, 0, c as int, 0, s as int, 0) == ONE as int,
        spec_mentry(-(s as int), 0, c as int, 0, -(s as int), 0, c as int, 0) == ONE as int,
        spec_mentry(c as int, 0, s as int, 0, -(s as int), 0, c as int, 0) == 0,
        spec_mentry(-(s as int), 0, c as int, 0, c as int, 0, s as int, 0) == 0,
{
    reveal(spec_mentry);
    lemma_mul_mag(c as int, c as int, ONE as int, ONE as int);
    lemma_mul_mag(s as int, s as int, ONE as int, ONE as int);
    lemma_mul_mag(c as int, s as int, ONE as int, ONE as int);
    assert((-(s as int)) * (-(s as int)) == s * s) by (nonlinear_arith);
    assert(c * (-(s as int)) + s * c == 0) by (nonlinear_arith);
    assert((-(s as int)) * c + c * s == 0) by (nonlinear_arith);
    assert((-(s as int)) * c == -(s * c)) by (nonlinear_arith);
    lemma_div_tz_exact(ONE as int, ONE as int);
    lemma_div_tz_exact(0, ONE as int);
}

/// The same four entries with the pair in components 0 and 1.
proof fn lemma_mentry_cs_01(c: i64, s: i64)
    requires
        -(ONE as int) <= c <= ONE as int,
        -(ONE as int) <= s <= ONE as int,
        c * c + s * s == ONE as int * ONE as int,
    ensures
        spec_mentry(c as int, -(s as int), 0, 0, c as int, -(s as int), 0, 0) == ONE as int,
        spec_mentry(s as int, c as int, 0, 0, s as int, c as int, 0, 0) == ONE as int,
        spec_mentry(c as int, -(s as int), 0, 0, s as int, c as int, 0, 0) == 0,
        spec_mentry(s as int, c as int, 0, 0, c as int, -(s as int), 0, 0) == 0,
{
    reveal(spec_mentry);
    lemma_mul_mag(c as int, c as int, ONE as int, ONE as int);
    lemma_mul_mag(s as int, s as int, ONE as int, ONE as int);
    lemma_mul_mag(c as int, s as int, ONE as int, ONE as int);
    assert((-(s as int)) * (-(s as int)) == s * s) by (nonlinear_arith);
    assert(c * s + (-(s as int)) * c == 0) by (nonlinear_arith);
    assert(s * c + c * (-(s as int)) == 0) by (nonlinear_arith);
    assert((-(s as int)) * c == -(s * c)) by (nonlinear_arith);
    lemma_div_tz_exact(ONE as int, ONE as int);
    lemma_div_tz_exact(0, ONE as int);
}

/// A rotation about x composed with the rotation of the opposite angle is
/// exactly the identity, for an angle pair with no fixed-point rounding.
pub proof fn lemma_rotation_inverse_x(rot: Rot)
    requires
        rot.wf(),
        rot.exact(),
    ensures
        spec_mat_mul(spec_rot_x(rot), spec_rot_x(rot.spec_neg())) == spec_identity(),
{
    let a = spec_rot_x(rot);
    let b = spec_rot_x(rot.spec_neg());
    lemma_mentry_cs_12(rot.cos, rot.sin);
    lemma_mentry_row0(b.m00, b.m10, b.m20, b.m30);
    lemma_mentry_row0(b.m01, b.m11, b.m21, b.m31);
    lemma_mentry_row0(b.m02, b.m12, b.m22, b.m32);
    lemma_mentry_row0(b.m03, b.m13, b.m23, b.m33);
    lemma_mentry_row3(b.m00, b.m10, b.m20, b.m30);
    lemma_mentry_row3(b.m01, b.m11, b.m21, b.m31);
    lemma_mentry_row3(b.m02, b.m12, b.m22, b.m32);
    lemma_mentry_row3(b.m03, b.m13, b.m23, b.m33);
    lemma_mentry_col0(a.m10, a.m11, a.m12, a.m13);
    lemma_mentry_col0(a.m20, a.m21, a.m22, a.m23);
    lemma_mentry_col3(a.m10, a.m11, a.m12, a.m13);
    lemma_mentry_col3(a.m20, a.m21, a.m22, a.m23);
}

/// The same, about y.
pub proof fn lemma_rotation_inverse_y(rot: Rot)
    requires
        rot.wf(),
        rot.exact(),
    ensures
        spec_mat_mul(spec_rot_y(rot), spec_rot_y(rot.spec_neg())) == spec_identity(),
{
    let a = spec_rot_y(rot);
    let b = spec_rot_y(rot.spec_neg());
    lemma_mentry_cs_02(rot.cos, rot.sin);
    lemma_mentry_row1(b.m00, b.m10, b.m20, b.m30);
    lemma_mentry_row1(b.m01, b.m11, b.m21, b.m31);
    lemma_mentry_row1(b.m02, b.m12, b.m22, b.m32);
    lemma_mentry_row1(b.m03, b.m13, b.m23, b.m33);
    lemma_mentry_row3(b.m00, b.m10, b.m20, b.m30);
    lemma_mentry_row3(b.m01, b.m11, b.m21, b.m31);
    lemma_mentry_row3(b.m02, b.m12, b.m22, b.m32);
    lemma_mentry_row3(b.m03, b.m13, b.m23, b.m33);
    lemma_mentry_col1(a.m00, a.m01, a.m02, a.m03);
    lemma_mentry_col1(a.m20, a.m21, a.m22, a.m23);
    lemma_mentry_col3(a.m00, a.m01, a.m02, a.m03);
    lemma_mentry_col3(a.m20, a.m21, a.m22, a.m23);
}

/// The same, about z.
pub proof fn lemma_rotation_inverse_z(rot: Rot)
    requires
        rot.wf(),
        rot.exact(),
    ensures
        spec_mat_mul(spec_rot_z(rot), spec_rot_z(rot.spec_neg())) == spec_identity(),
{
    let a = spec_rot_z(rot);
    let b = spec_rot_z(rot.spec_neg());
    lemma_mentry_cs_01(rot.cos, rot.sin);
    lemma_mentry_row2(b.m00, b.m10, b.m20, b.m30);
    lemma_mentry_row2(b.m01, b.m11, b.m21, b.m31);
    lemma_mentry_row2(b.m02, b.m12, b.m22, b.m32);
    lemma_mentry_row2(b.m03, b.m13, b.m23, b.m33);
    lemma_mentry_row3(b.m00, b.m10, b.m20, b.m30);
    lemma_mentry_row3(b.m01, b.m11, b.m21, b.m31);
    lemma_mentry_row3(b.m02, b.m12, b.m22, b.m32);
    lemma_mentry_row3(b.m03, b.m13, b.m23, b.m33);
    lemma_mentry_col2(a.m00, a.m01, a.m02, a.m03);
    lemma_mentry_col2(a.m10, a.m11, a.m12, a.m13);
    lemma_mentry_col3(a.m00, a.m01, a.m02, a.m03);
    lemma_mentry_col3(a.m10, a.m11, a.m12, a.m13);
}

/// Rotating a fresh mesh (accumulated transform still the identity) by an
/// exact angle about x and then by the opposite angle restores every vertex
/// position exactly: the accumulated transform of the two rotate calls maps
/// each rest-pose vertex to itself.
pub proof fn lemma_round_trip_x(p: Point, c: Point, rot: Rot)
    requires
        point_ok(p),
        point_ok(c),
        rot.wf(),
        rot.exact(),
    ensures
        spec_apply(
            spec_mat_mul(spec_mat_mul(spec_identity(), spec_rot_x(rot)), spec_rot_x(rot.spec_neg())),
            p,
            c,
        ) == p,
{
    lemma_identity_neutral(spec_rot_x(rot));
    lemma_rotation_inverse_x(rot);
    lemma_identity_apply(p, c);
}

/// The same round trip about y.
pub proof fn lemma_round_trip_y(p: Point, c: Point, rot: Rot)
    requires
        point_ok(p),
        point_ok(c),
        rot.wf(),
        rot.exact(),
    ensures
        spec_apply(
            spec_mat_mul(spec_mat_mul(spec_identity(), spec_rot_y(rot)), spec_rot_y(rot.spec_neg())),
            p,
            c,
        ) == p,
{
    lemma_identity_neutral(spec_rot_y(rot));
    lemma_rotation_inverse_y(rot);
    lemma_identity_apply(p, c);
}

/// The same round trip about z.
pub proof fn lemma_round_trip_z(p: Point, c: Point, rot: Rot)
    requires
        point_ok(p),
        point_ok(c),
        rot.wf(),
        rot.exact(),
    ensures
        spec_apply(
            spec_mat_mul(spec_mat_mul(spec_identity(), spec_rot_z(rot)), spec_rot_z(rot.spec_neg())),
            p,
            c,
        ) == p,
{
    lemma_identity_neutral(spec_rot_z(rot));
    lemma_rotation_inverse_z(rot);
    lemma_identity_apply(p, c);
}

/// A quarter-turn angle pair: cosine and sine are exactly 0 and +-1.
pub open spec fn quarter_turn(rot: Rot) -> bool {
    (rot.cos == 0 && (rot.sin == ONE as int || rot.sin == -(ONE as int))) || (rot.sin == 0 && (
    rot.cos == ONE as int || rot.cos == -(ONE as int)))
}

/// A product against a coefficient that is 0 or +-1.0, written as a multiple
/// of ONE.
proof fn lemma_unit_prod(m: i64, v: int)
    requires
        m == 0 || m == ONE || m as int == -(ONE as int),
    ensures
        m as int * v == unit_pick(m as int, v) * (ONE as int),
{
    if m == ONE {
        assert(m as int * v == v * (ONE as int));
    } else if m as int == -(ONE as int) {
        assert(m as int * v == (-v) * (ONE as int));
    } else {
        assert(m as int * v == 0);
        assert(unit_pick(m as int, v) == 0);
    }
}

/// The component a unit coefficient selects out of a relative position.
spec fn unit_pick(m: int, v: int) -> int {
    if m == ONE as int {
        v
    } else if m == -(ONE as int) {
        -v
    } else {
        0
    }
}

/// A transform row whose entries are all 0 or +-1.0 selects signed
/// components: the fixed-point rescaling is exact there.
proof fn lemma_row_pick(m0: i64, m1: i64, m2: i64, rx: int, ry: int, rz: int)
    requires
        m0 == 0 || m0 == ONE || m0 as int == -(ONE as int),
        m1 == 0 || m1 == ONE || m1 as int == -(ONE as int),
        m2 == 0 || m2 == ONE || m2 as int == -(ONE as int),
        -2 * (COORD_LIMIT as int) <= rx <= 2 * (COORD_LIMIT as int),
        -2 * (COORD_LIMIT as int) <= ry <= 2 * (COORD_LIMIT as int),
        -2 * (COORD_LIMIT as int) <= rz <= 2 * (COORD_LIMIT as int),
    ensures
        spec_row_apply(m0 as int, m1 as int, m2 as int, rx, ry, rz) == unit_pick(m0 as int, rx)
            + unit_pick(m1 as int, ry) + unit_pick(m2 as int, rz),
{
    reveal(spec_row_apply);
    let a = unit_pick(m0 as int, rx) + unit_pick(m1 as int, ry) + unit_pick(m2 as int, rz);
    lemma_unit_prod(m0, rx);
    lemma_unit_prod(m1, ry);
    lemma_unit_prod(m2, rz);
    assert(sat_prod(m0 as int * rx) + sat_prod(m1 as int * ry) + sat_prod(m2 as int * rz) == a * (
    ONE as int));
    lemma_div_tz_exact(a, ONE as int);
}

/// Rotation is rigid where fixed-point rounding vanishes: a quarter turn
/// about x preserves every vertex's squared distance to the pivot exactly.
pub proof fn lemma_quarter_turn_rigid_x(p: Point, c: Point, rot: Rot)
    requires
        point_ok(p),
        point_ok(c),
        quarter_turn(rot),
    ensures
        dist_sq(spec_apply(spec_rot_x(rot), p, c), c) == dist_sq(p, c),
{
    let rx = p.x - c.x;
    let ry = p.y - c.y;
    let rz = p.z - c.z;
    let m = spec_rot_x(rot);
    let q = spec_apply(m, p, c);
    assert(sat64(p.x - c.x) == rx);
    assert(sat64(p.y - c.y) == ry);
    assert(sat64(p.z - c.z) == rz);
    lemma_row_pick(m.m00, m.m01, m.m02, rx, ry, rz);
    lemma_row_pick(m.m10, m.m11, m.m12, rx, ry, rz);
    lemma_row_pick(m.m20, m.m21, m.m22, rx, ry, rz);
    assert((-ry) * (-ry) == ry * ry) by (nonlinear_arith);
    assert((-rz) * (-rz) == rz * rz) by (nonlinear_arith);
    if rot.cos == 0 && rot.sin == ONE as int {
        assert(q.x - c.x == rx);
        assert(q.y - c.y == -rz);
        assert(q.z - c.z == ry);
    } else if rot.cos == 0 {
        assert(q.x - c.x == rx);
        assert(q.y - c.y == rz);
        assert(q.z - c.z == -ry);
    } else if rot.cos == ONE as int {
        assert(q.x - c.x == rx);
        assert(q.y - c.y == ry);
        assert(q.z - c.z == rz);
    } else {
        assert(q.x - c.x == rx);
        assert(q.y - c.y == -ry);
        assert(q.z - c.z == -rz);
    }
}

/// The same rigidity for a quarter turn about y.
pub proof fn lemma_quarter_turn_rigid_y(p: Point, c: Point, rot: Rot)
    requires
        point_ok(p),
        point_ok(c),
        quarter_turn(rot),
    ensures
        dist_sq(spec_apply(spec_rot_y(rot), p, c), c) == dist_sq(p, c),
{
    let rx = p.x - c.x;
    let ry = p.y - c.y;
    let rz = p.z - c.z;
    let m = spec_rot_y(rot);
    let q = spec_apply(m, p, c);
    assert(sat64(p.x - c.x) == rx);
    assert(sat64(p.y - c.y) == ry);
    assert(sat64(p.z - c.z) == rz);
    lemma_row_pick(m.m00, m.m01, m.m02, rx, ry, rz);
    lemma_row_pick(m.m10, m.m11, m.m12, rx, ry, rz);
    lemma_row_pick(m.m20, m.m21, m.m22, rx, ry, rz);
    assert((-rx) * (-rx) == rx * rx) by (nonlinear_arith);
    assert((-rz) * (-rz) == rz * rz) by (nonlinear_arith);
    if rot.cos == 0 && rot.sin == ONE as int {
        assert(q.x - c.x == rz);
        assert(q.y - c.y == ry);
        assert(q.z - c.z == -rx);
    } else if rot.cos == 0 {
        assert(q.x - c.x == -rz);
        assert(q.y - c.y == ry);
        assert(q.z - c.z == rx);
    } else if rot.cos == ONE as int {
        assert(q.x - c.x == rx);
        assert(q.y - c.y == ry);
        assert(q.z - c.z == rz);
    } else {
        assert(q.x - c.x == -rx);
        assert(q.y - c.y == ry);
        assert(q.z - c.z == -rz);
    }
}

/// The same rigidity for a quarter turn about z.
pub proof fn lemma_quarter_turn_rigid_z(p: Point, c: Point, rot: Rot)
    requires
        point_ok(p),
        point_ok(c),
        quarter_turn(rot),
    ensures
        dist_sq(spec_apply(spec_rot_z(rot), p, c), c) == dist_sq(p, c),
{
    let rx = p.x - c.x;
    let ry = p.y - c.y;
    let rz = p.z - c.z;
    let m = spec_rot_z(rot);
    let q = spec_apply(m, p, c);
    assert(sat64(p.x - c.x) == rx);
    assert(sat64(p.y - c.y) == ry);
    assert(sat64(p.z - c.z) == rz);
    lemma_row_pick(m.m00, m.m01, m.m02, rx, ry, rz);
    lemma_row_pick(m.m10, m.m11, m.m12, rx, ry, rz);
    lemma_row_pick(m.m20, m.m21, m.m22, rx, ry, rz);
    assert((-rx) * (-rx) == rx * rx) by (nonlinear_arith);
    assert((-ry) * (-ry) == ry * ry) by (nonlinear_arith);
    if rot.cos == 0 && rot.sin == ONE as int {
        assert(q.x - c.x == -ry);
        assert(q.y - c.y == rx);
        assert(q.z - c.z == rz);
    } else if rot.cos == 0 {
        assert(q.x - c.x == ry);
        assert(q.y - c.y == -rx);
        assert(q.z - c.z == rz);
    } else if rot.cos == ONE as int {
        assert(q.x - c.x == rx);
        assert(q.y - c.y == ry);
        assert(q.z - c.z == rz);
    } else {
        assert(q.x - c.x == -rx);
        assert(q.y - c.y == -ry);
        assert(q.z - c.z == rz);
    }
}

} // verus!
