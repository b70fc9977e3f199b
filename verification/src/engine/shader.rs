use vstd::prelude::*;

use crate::engine::fixed::{
    div_trunc, div_tz, lemma_div_tz_mag, lemma_mul_mag, sat64, sat_narrow, ONE,
};
use crate::engine::object::{Edge, Object, Point};
use crate::engine::space::{spec_aspect, spec_denom, Camera};
use vstd::arithmetic::div_mod::{lemma_div_by_multiple, lemma_div_is_ordered};

verus! {

/// Magnitude of a mathematical integer.
pub open spec fn abs_val(x: int) -> int {
    if x >= 0 {
        x
    } else {
        -x
    }
}

/// A pixel color: four independent 8-bit channels.
#[derive(Clone, Copy, Debug, PartialEq, Eq, Structural)]
pub struct Color {
    pub r: u8,
    pub g: u8,
    pub b: u8,
    pub a: u8,
}

/// The rasterizer. It holds no state; it exists so that every mesh carries
/// the renderer that draws it.
#[derive(Clone, Copy, Debug, PartialEq, Eq, Structural)]
pub struct Shader {}

/// One alpha-over blended channel: `(src*a + bg*(255 - a)) / 255`, with
/// truncating division.
pub open spec fn spec_blend_channel(src: int, a: int, bg: int) -> int {
    (src * a + (255 - a) * bg) / 255
}

/// Alpha-over compositing of a color onto a packed 24-bit background, per
/// channel, repacked as red | green << 8 | blue << 16 with no alpha byte.
pub open spec fn spec_blend(bg: u32, c: Color) -> u32 {
    let br = bg as int % 256;
    let bgn = (bg as int / 256) % 256;
    let bb = (bg as int / 65536) % 256;
    let rr = spec_blend_channel(c.r as int, c.a as int, br);
    let gg = spec_blend_channel(c.g as int, c.a as int, bgn);
    let bl = spec_blend_channel(c.b as int, c.a as int, bb);
    (rr + 256 * gg + 65536 * bl) as u32
}

/// A blended channel stays inside one byte.
proof fn lemma_blend_channel_range(src: int, a: int, bg: int)
    requires
        0 <= src < 256,
        0 <= a < 256,
        0 <= bg < 256,
    ensures
        0 <= spec_blend_channel(src, a, bg) <= 255,
{
    assert(0 <= src * a + (255 - a) * bg <= 65025) by (nonlinear_arith)
        requires
            0 <= src < 256,
            0 <= a < 256,
            0 <= bg < 256,
    ;
    lemma_div_is_ordered(0, src * a + (255 - a) * bg, 255);
    lemma_div_is_ordered(src * a + (255 - a) * bg, 65025, 255);
    lemma_div_by_multiple(255, 255);
    assert(65025 == 255 * 255);
}

impl Shader {
    pub fn new() -> (r: Shader)
        ensures
            r == (Shader {}),
    {
        Shader {}
    }

    /// Alpha-over compositing of one source color onto one packed background
    /// pixel: `out = (src*a + bg*(255 - a)) / 255` on each of red, green and
    /// blue, the background treated as fully opaque.
    pub fn blend(background: u32, rgba: Color) -> (r: u32)
        ensures
            r == spec_blend(background, rgba),
    {
        let cr = rgba.r as u32;
        let cg = rgba.g as u32;
        let cb = rgba.b as u32;
        let ca = rgba.a as u32;
        proof {
            assert(background & 0xFF == background % 256) by (bit_vector);
            assert((background >> 8) & 0xFF == (background / 256) % 256) by (bit_vector);
            assert((background >> 16) & 0xFF == (background / 65536) % 256) by (bit_vector);
        }
        let br = background & 0xFF;
        let bgn = (background >> 8) & 0xFF;
        let bb = (background >> 16) & 0xFF;
        proof {
            lemma_blend_channel_range(cr as int, ca as int, br as int);
            lemma_blend_channel_range(cg as int, ca as int, bgn as int);
            lemma_blend_channel_range(cb as int, ca as int, bb as int);
            assert(cr * ca + (255 - ca) * br <= 65025 && cg * ca + (255 - ca) * bgn <= 65025 && cb
                * ca + (255 - ca) * bb <= 65025) by (nonlinear_arith)
                requires
                    cr < 256 && cg < 256 && cb < 256 && ca < 256 && br < 256 && bgn < 256 && bb
                        < 256,
            ;
        }
        let rr = (cr * ca + (255 - ca) * br) / 255;
        let gg = (cg * ca + (255 - ca) * bgn) / 255;
        let bl = (cb * ca + (255 - ca) * bb) / 255;
        proof {
            assert(rr < 256 && gg < 256 && bl < 256 ==> (rr | (gg << 8) | (bl << 16)) == rr + 256
                * gg + 65536 * bl) by (bit_vector);
        }
        rr | (gg << 8) | (bl << 16)
    }

    /// Rasterizes one mesh through the camera into a fresh color buffer with
    /// a parallel depth buffer: every vertex is projected and drawn under the
    /// nearest-wins depth test, then every edge whose two endpoints are both
    /// visible is rasterized as a line; the depth buffer is discarded and the
    /// color buffer returned.
    #[verifier::loop_isolation(false)]
    pub fn render(object: &Object, color: &Color, cam: &Camera) -> (buffer: Vec<Color>)
        requires
            object.wf(),
            cam.wf(),
        ensures
            buffer@ == spec_render(object.points@, object.edges@, *color, *cam).0,
            buffer@.len() == cam.width as int * cam.height as int,
    {
        proof {
            assert(cam.width as int * cam.height as int <= 32768 * 32768) by (nonlinear_arith)
                requires
                    cam.width <= 32768 && cam.height <= 32768,
            ;
            assert(cam.width as int * cam.height as int >= 0) by (nonlinear_arith)
                requires
                    cam.width >= 0 && cam.height >= 0,
            ;
        }
        let n = cam.width * cam.height;
        let mut buffer: Vec<Color> = Vec::new();
        let mut depth: Vec<i64> = Vec::new();
        let mut f: usize = 0;
        while f < n
            invariant
                f <= n,
                buffer@.len() == f as int,
                depth@.len() == f as int,
                forall|k: int|
                    0 <= k < f as int ==> #[trigger] buffer@[k] == (Color { r: 0, g: 0, b: 0, a: 0 }),
                forall|k: int| 0 <= k < f as int ==> #[trigger] depth@[k] == i64::MAX,
            decreases n - f,
        {
            buffer.push(Color { r: 0, g: 0, b: 0, a: 0 });
            depth.push(i64::MAX);
            f = f + 1;
        }
        proof {
            assert(buffer@ =~= spec_buf_init(n as int));
            assert(depth@ =~= spec_dep_init(n as int));
        }
        let ghost buf0 = buffer@;
        let ghost dep0 = depth@;
        let mut spts: Vec<(usize, usize, i64)> = Vec::new();
        let mut vis: Vec<bool> = Vec::new();
        let npts = object.points.len();
        let mut i: usize = 0;
        while i < npts
            invariant
                i <= npts,
                spts@.len() == i as int,
                vis@.len() == i as int,
                buffer@.len() == n as int,
                depth@.len() == n as int,
                buffer@ == spec_point_pass(buf0, dep0, object.points@, i as int, *color, *cam).0,
                depth@ == spec_point_pass(buf0, dep0, object.points@, i as int, *color, *cam).1,
                forall|k: int|
                    0 <= k < i as int ==> (#[trigger] vis@[k] <==> spec_project(
                        object.points@[k],
                        *cam,
                    ) is Some),
                forall|k: int|
                    0 <= k < i as int && vis@[k] ==> ((#[trigger] spts@[k]).0 as int,
                    spts@[k].1 as int, spts@[k].2 as int) == spec_project(
                        object.points@[k],
                        *cam,
                    ).unwrap(),
                forall|k: int|
                    0 <= k < i as int && vis@[k] ==> (#[trigger] spts@[k]).0 < cam.width
                        && spts@[k].1 < cam.height,
            decreases npts - i,
        {
            let p = object.points[i];
            match project(p, cam) {
                Some(sp) => {
                    proof {
                        assert(sp.1 as int * cam.width as int + (sp.0 as int) < cam.height as int
                            * cam.width as int) by (nonlinear_arith)
                            requires
                                (sp.1 as int) < cam.height as int && 0 <= (sp.0 as int) < cam.width
                                    as int && 0 <= sp.1 as int,
                        ;
                        assert(cam.height as int * cam.width as int == cam.width as int
                            * cam.height as int) by (nonlinear_arith);
                        assert(sp.1 as int * cam.width as int >= 0) by (nonlinear_arith)
                            requires
                                sp.1 as int >= 0 && cam.width as int >= 0,
                        ;
                    }
                    let idx = sp.1 * cam.width + sp.0;
                    if idx < buffer.len() {
                        plot(&mut buffer, &mut depth, idx, *color, sp.2);
                    }
                    vis.push(true);
                    spts.push(sp);
                },
                None => {
                    vis.push(false);
                    spts.push((0, 0, 0));
                },
            }
            i = i + 1;
        }
        let ghost p1buf = buffer@;
        let ghost p1dep = depth@;
        let nedges = object.edges.len();
        let mut e: usize = 0;
        while e < nedges
            invariant
                e <= nedges,
                buffer@.len() == n as int,
                depth@.len() == n as int,
                buffer@ == spec_edge_pass(p1buf, p1dep, object.points@, object.edges@, e as int, *cam).0,
                depth@ == spec_edge_pass(p1buf, p1dep, object.points@, object.edges@, e as int, *cam).1,
            decreases nedges - e,
        {
            let edge = object.edges[e];
            if vis[edge.start] && vis[edge.end] {
                let s = spts[edge.start];
                let d = spts[edge.end];
                Shader::draw_line(
                    &mut buffer,
                    &mut depth,
                    cam.width,
                    cam.height,
                    s.0,
                    s.1,
                    s.2,
                    d.0,
                    d.1,
                    d.2,
                    line_color(),
                );
            }
            e = e + 1;
        }
        buffer
    }

    /// Rasterizes a line between two projected vertices with per-pixel
    /// nearest-wins depth testing.
    #[verifier::loop_isolation(false)]
    pub fn draw_line(
        buffer: &mut Vec<Color>,
        depth: &mut Vec<i64>,
        width: usize,
        height: usize,
        start_x: usize,
        start_y: usize,
        start_z: i64,
        end_x: usize,
        end_y: usize,
        end_z: i64,
        color: Color,
    )
        requires
            old(buffer)@.len() == old(depth)@.len(),
            0 < width <= 32768,
            0 < height <= 32768,
            start_x < width,
            start_y < height,
            end_x < width,
            end_y < height,
        ensures
            final(buffer)@ == spec_draw_line(
                old(buffer)@,
                old(depth)@,
                width as int,
                height as int,
                start_x as int,
                start_y as int,
                start_z,
                end_x as int,
                end_y as int,
                end_z,
                color,
            ).0,
            final(depth)@ == spec_draw_line(
                old(buffer)@,
                old(depth)@,
                width as int,
                height as int,
                start_x as int,
                start_y as int,
                start_z,
                end_x as int,
                end_y as int,
                end_z,
                color,
            ).1,
            final(buffer)@.len() == old(buffer)@.len(),
            final(depth)@.len() == old(depth)@.len(),
    {
        let dx = end_x as i128 - start_x as i128;
        let dy = end_y as i128 - start_y as i128;
        let adx = if dx < 0 { -dx } else { dx };
        let ady = if dy < 0 { -dy } else { dy };
        let steps = if adx > ady { adx } else { ady };
        if steps == 0 {
            proof {
                assert(start_y as int * width as int + (start_x as int) < 32768 * 32768 + 32768)
                    by (nonlinear_arith)
                    requires
                        start_y < 32768 && width <= 32768 && start_x < 32768,
                ;
            }
            let idx = start_y * width + start_x;
            if idx < buffer.len() {
                plot(buffer, depth, idx, color, start_z);
            }
            return;
        }
        proof {
            lemma_mul_mag(dx as int, ONE as int, 0x1_0000, 0x1_0000);
            lemma_mul_mag(dy as int, ONE as int, 0x1_0000, 0x1_0000);
            lemma_mul_mag(
                end_z as int - start_z as int,
                ONE as int,
                0x2_0000_0000_0000_0000,
                0x1_0000,
            );
            lemma_div_tz_mag(dx as int * (ONE as int), steps as int);
            lemma_div_tz_mag(dy as int * (ONE as int), steps as int);
            lemma_div_tz_mag((end_z as int - start_z as int) * (ONE as int), steps as int);
        }
        let x_inc = div_trunc(dx * ONE as i128, steps);
        let y_inc = div_trunc(dy * ONE as i128, steps);
        let z_inc = div_trunc((end_z as i128 - start_z as i128) * ONE as i128, steps);
        let mut xa = start_x as i128 * ONE as i128;
        let mut ya = start_y as i128 * ONE as i128;
        let mut za = start_z as i128 * ONE as i128;
        proof {
            lemma_mul_mag(start_z as int, ONE as int, 0x8000_0000_0000_0000, 0x1_0000);
        }
        let ghost x0 = xa as int;
        let ghost y0 = ya as int;
        let ghost z0 = za as int;
        let steps_u = steps as usize;
        let mut t: usize = 0;
        while t <= steps_u
            invariant
                t <= steps_u + 1,
                xa as int == x0 + t * (x_inc as int),
                ya as int == y0 + t * (y_inc as int),
                za as int == z0 + t * (z_inc as int),
                buffer@.len() == old(buffer)@.len(),
                depth@.len() == old(depth)@.len(),
                buffer@ == spec_line_steps(
                    old(buffer)@,
                    old(depth)@,
                    t as int,
                    x0,
                    y0,
                    z0,
                    x_inc as int,
                    y_inc as int,
                    z_inc as int,
                    color,
                    width as int,
                    height as int,
                ).0,
                depth@ == spec_line_steps(
                    old(buffer)@,
                    old(depth)@,
                    t as int,
                    x0,
                    y0,
                    z0,
                    x_inc as int,
                    y_inc as int,
                    z_inc as int,
                    color,
                    width as int,
                    height as int,
                ).1,
            decreases steps_u + 1 - t,
        {
            let px = div_trunc(xa, ONE as i128);
            let py = div_trunc(ya, ONE as i128);
            proof {
                lemma_div_tz_mag(xa as int, ONE as int);
                lemma_div_tz_mag(ya as int, ONE as int);
                lemma_div_tz_mag(za as int, ONE as int);
            }
            if px >= 0 && px < width as i128 && py >= 0 && py < height as i128 {
                proof {
                    assert(py as int * width as int + (px as int) < 32768 * 32768 + 32768)
                        by (nonlinear_arith)
                        requires
                            0 <= (py as int) < 32768 && width <= 32768 && 0 <= (px as int) < width as int,
                    ;
                    assert(py as int * width as int >= 0) by (nonlinear_arith)
                        requires
                            py as int >= 0 && width as int >= 0,
                    ;
                }
                let idx = (py as usize) * width + (px as usize);
                if idx < buffer.len() {
                    plot(buffer, depth, idx, color, sat_narrow(div_trunc(za, ONE as i128)));
                }
            }
            proof {
                assert((t + 1) * (x_inc as int) == t * (x_inc as int) + x_inc as int)
                    by (nonlinear_arith);
                assert((t + 1) * (y_inc as int) == t * (y_inc as int) + y_inc as int)
                    by (nonlinear_arith);
                assert((t + 1) * (z_inc as int) == t * (z_inc as int) + z_inc as int)
                    by (nonlinear_arith);
                assert(t * (x_inc as int) <= 32769 * 0x1_0000_0000 && t * (x_inc as int) >= -32769
                    * 0x1_0000_0000) by (nonlinear_arith)
                    requires
                        0 <= t <= 32769 && -0x1_0000_0000 <= (x_inc as int) <= 0x1_0000_0000,
                ;
                assert(t * (y_inc as int) <= 32769 * 0x1_0000_0000 && t * (y_inc as int) >= -32769
                    * 0x1_0000_0000) by (nonlinear_arith)
                    requires
                        0 <= t <= 32769 && -0x1_0000_0000 <= (y_inc as int) <= 0x1_0000_0000,
                ;
                assert(t * (z_inc as int) <= 32769 * 0x4_0000_0000_0000_0000_0000 && t * (z_inc as int)
                    >= -32769 * 0x4_0000_0000_0000_0000_0000) by (nonlinear_arith)
                    requires
                        0 <= t <= 32769 && -0x4_0000_0000_0000_0000_0000 <= (z_inc as int)
                            <= 0x4_0000_0000_0000_0000_0000,
                ;
            }
            xa = xa + x_inc;
            ya = ya + y_inc;
            za = za + z_inc;
            t = t + 1;
        }
    }

}

/// One depth-tested pixel write: the color lands, and the depth buffer
/// records its depth, exactly when the new depth is strictly nearer than what
/// the depth buffer holds; otherwise both buffers are unchanged.
pub open spec fn spec_plot(buf: Seq<Color>, dep: Seq<i64>, idx: int, color: Color, z: i64) -> (
    Seq<Color>,
    Seq<i64>,
)
    recommends
        buf.len() == dep.len(),
        0 <= idx < buf.len(),
{
    if z < dep[idx] {
        (buf.update(idx, color), dep.update(idx, z))
    } else {
        (buf, dep)
    }
}

/// Writes one pixel under the nearest-wins depth test.
pub fn plot(buffer: &mut Vec<Color>, depth: &mut Vec<i64>, idx: usize, color: Color, z: i64)
    requires
        old(buffer)@.len() == old(depth)@.len(),
        idx < old(buffer)@.len(),
    ensures
        final(buffer)@ == spec_plot(old(buffer)@, old(depth)@, idx as int, color, z).0,
        final(depth)@ == spec_plot(old(buffer)@, old(depth)@, idx as int, color, z).1,
        final(buffer)@.len() == old(buffer)@.len(),
        final(depth)@.len() == old(depth)@.len(),
{
    if z < depth[idx] {
        buffer.set(idx, color);
        depth.set(idx, z);
    }
}

/// Two draws at one pixel with distinct depths, both nearer than what the
/// buffers held, leave the nearer draw's color and depth whichever order they
/// happen in: the depth test makes draw order irrelevant.
pub proof fn lemma_depth_order_independent(
    buf: Seq<Color>,
    dep: Seq<i64>,
    idx: int,
    c1: Color,
    d1: i64,
    c2: Color,
    d2: i64,
)
    requires
        buf.len() == dep.len(),
        0 <= idx < buf.len(),
        d1 < d2,
        d1 < dep[idx],
    ensures
        ({
            let fwd1 = spec_plot(buf, dep, idx, c1, d1);
            let fwd = spec_plot(fwd1.0, fwd1.1, idx, c2, d2);
            let rev1 = spec_plot(buf, dep, idx, c2, d2);
            let rev = spec_plot(rev1.0, rev1.1, idx, c1, d1);
            fwd.0 == rev.0 && fwd.1 == rev.1 && fwd.0[idx] == c1 && fwd.1[idx] == d1
        }),
{
    let fwd1 = spec_plot(buf, dep, idx, c1, d1);
    let fwd = spec_plot(fwd1.0, fwd1.1, idx, c2, d2);
    let rev1 = spec_plot(buf, dep, idx, c2, d2);
    let rev = spec_plot(rev1.0, rev1.1, idx, c1, d1);
    if d2 < dep[idx] {
        assert(rev.0 =~= fwd.0);
        assert(rev.1 =~= fwd.1);
    } else {
        assert(rev.0 =~= fwd.0);
        assert(rev.1 =~= fwd.1);
    }
}

/// Where a vertex projects on screen, if anywhere: relative position against
/// the camera, near-plane cull at fixed depth 1.0, frustum cull against the
/// view pyramid, perspective division, viewport scaling, truncation to a
/// pixel, and a final bounds check.
pub open spec fn spec_project(p: Point, cam: Camera) -> Option<(int, int, int)> {
    let rel_x = p.x - cam.pos.x;
    let rel_y = p.y - cam.pos.y;
    let rel_z = p.z - cam.pos.z;
    if rel_z <= ONE as int {
        None
    } else {
        let half_h = div_tz(rel_z * cam.tan_half_fov, ONE as int);
        let half_w = div_tz(half_h * spec_aspect(cam), ONE as int);
        if abs_val(rel_x) > half_w || abs_val(rel_y) > half_h {
            None
        } else {
            let tx = div_tz(div_tz(rel_x * (ONE as int), rel_z) * (ONE as int), spec_denom(cam));
            let ty = div_tz(
                div_tz(rel_y * (ONE as int), rel_z) * (ONE as int),
                cam.tan_half_fov as int,
            );
            let sx0 = div_tz((tx + ONE) * (cam.width as int), 2 * (ONE as int));
            let sy0 = div_tz((ty + ONE) * (cam.height as int), 2 * (ONE as int));
            let sx = if sx0 < 0 {
                0
            } else {
                sx0
            };
            let sy = if sy0 < 0 {
                0
            } else {
                sy0
            };
            if sx < cam.width && sy < cam.height {
                Some((sx, sy, sat64(rel_z)))
            } else {
                None
            }
        }
    }
}

/// Projects one vertex through the camera; `None` is a culled vertex.
pub fn project(p: Point, cam: &Camera) -> (r: Option<(usize, usize, i64)>)
    requires
        cam.wf(),
    ensures
        r is Some <==> spec_project(p, *cam) is Some,
        r is Some ==> (r.unwrap().0 as int, r.unwrap().1 as int, r.unwrap().2 as int)
            == spec_project(p, *cam).unwrap(),
        r is Some ==> r.unwrap().0 < cam.width && r.unwrap().1 < cam.height && r.unwrap().2 > ONE,
        p.z - cam.pos.z <= ONE as int ==> r is None,
{
    let rel_x = p.x as i128 - cam.pos.x as i128;
    let rel_y = p.y as i128 - cam.pos.y as i128;
    let rel_z = p.z as i128 - cam.pos.z as i128;
    if rel_z <= ONE as i128 {
        return None;
    }
    proof {
        lemma_mul_mag(rel_z as int, cam.tan_half_fov as int, 0x2_0000_0000_0000_0000, 0x10_0000);
    }
    let half_h = div_trunc(rel_z * cam.tan_half_fov as i128, ONE as i128);
    let aspect = div_trunc(cam.width as i128 * ONE as i128, cam.height as i128);
    proof {
        lemma_div_tz_mag(rel_z as int * cam.tan_half_fov as int, ONE as int);
        lemma_div_tz_mag(cam.width as int * (ONE as int), cam.height as int);
        lemma_mul_mag(half_h as int, aspect as int, 0x200_0000_0000_0000_0000_0000, 0x8000_0000);
    }
    let half_w = div_trunc(half_h * aspect, ONE as i128);
    let ax = if rel_x < 0 { -rel_x } else { rel_x };
    let ay = if rel_y < 0 { -rel_y } else { rel_y };
    if ax > half_w || ay > half_h {
        return None;
    }
    let t1x = div_trunc(rel_x * ONE as i128, rel_z);
    let t1y = div_trunc(rel_y * ONE as i128, rel_z);
    proof {
        lemma_mul_mag(rel_x as int, ONE as int, 0x2_0000_0000_0000_0000, 0x1_0000);
        lemma_mul_mag(rel_y as int, ONE as int, 0x2_0000_0000_0000_0000, 0x1_0000);
        lemma_div_tz_mag(rel_x as int * (ONE as int), rel_z as int);
        lemma_div_tz_mag(rel_y as int * (ONE as int), rel_z as int);
        lemma_mul_mag(t1x as int, ONE as int, 0x2_0000_0000_0000_0000_0000, 0x1_0000);
        lemma_mul_mag(t1y as int, ONE as int, 0x2_0000_0000_0000_0000_0000, 0x1_0000);
        lemma_mul_mag(cam.tan_half_fov as int, aspect as int, 0x10_0000, 0x8000_0000);
    }
    let denom = div_trunc(cam.tan_half_fov as i128 * aspect, ONE as i128);
    let tx = div_trunc(t1x * ONE as i128, denom);
    let ty = div_trunc(t1y * ONE as i128, cam.tan_half_fov as i128);
    proof {
        lemma_div_tz_mag(t1x as int * (ONE as int), denom as int);
        lemma_div_tz_mag(t1y as int * (ONE as int), cam.tan_half_fov as int);
        lemma_mul_mag(
            tx as int + ONE as int,
            cam.width as int,
            0x4_0000_0000_0000_0000_0000_0000,
            0x8000,
        );
        lemma_mul_mag(
            ty as int + ONE as int,
            cam.height as int,
            0x4_0000_0000_0000_0000_0000_0000,
            0x8000,
        );
    }
    let sx0 = div_trunc((tx + ONE as i128) * cam.width as i128, 2 * ONE as i128);
    let sy0 = div_trunc((ty + ONE as i128) * cam.height as i128, 2 * ONE as i128);
    let sxc = if sx0 < 0 { 0 } else { sx0 };
    let syc = if sy0 < 0 { 0 } else { sy0 };
    if sxc < cam.width as i128 && syc < cam.height as i128 {
        Some((sxc as usize, syc as usize, sat_narrow(rel_z)))
    } else {
        None
    }
}

/// A vertex at relative depth at most 1.0 before the camera is never
/// projected, whatever its horizontal and vertical offsets.
pub proof fn lemma_near_plane_culled(p: Point, cam: Camera)
    requires
        p.z - cam.pos.z <= ONE as int,
    ensures
        spec_project(p, cam) is None,
{
}

/// The fixed color wireframe edges are drawn with, distinct from the vertex
/// draw color.
pub open spec fn spec_line_color() -> Color {
    Color { r: 200, g: 200, b: 200, a: 255 }
}

fn line_color() -> (c: Color)
    ensures
        c == spec_line_color(),
{
    Color { r: 200, g: 200, b: 200, a: 255 }
}

/// One step of the constant-step line walk: positions are carried in fixed
/// point scaled by ONE once more; the pixel is the truncation, drawn under
/// the depth test when it lies in the viewport.
pub open spec fn spec_line_plot(
    buf: Seq<Color>,
    dep: Seq<i64>,
    xa: int,
    ya: int,
    za: int,
    color: Color,
    w: int,
    h: int,
) -> (Seq<Color>, Seq<i64>) {
    let px = div_tz(xa, ONE as int);
    let py = div_tz(ya, ONE as int);
    if 0 <= px && px < w && 0 <= py && py < h && py * w + px < buf.len() {
        spec_plot(buf, dep, py * w + px, color, sat64(div_tz(za, ONE as int)) as i64)
    } else {
        (buf, dep)
    }
}

/// The first `k` steps of the line walk from `(x0, y0, z0)` with per-step
/// increments `(xi, yi, zi)`, all in fixed point scaled by ONE.
pub open spec fn spec_line_steps(
    buf: Seq<Color>,
    dep: Seq<i64>,
    k: int,
    x0: int,
    y0: int,
    z0: int,
    xi: int,
    yi: int,
    zi: int,
    color: Color,
    w: int,
    h: int,
) -> (Seq<Color>, Seq<i64>)
    decreases k,
{
    if k <= 0 {
        (buf, dep)
    } else {
        let prev = spec_line_steps(buf, dep, k - 1, x0, y0, z0, xi, yi, zi, color, w, h);
        spec_line_plot(
            prev.0,
            prev.1,
            x0 + (k - 1) * xi,
            y0 + (k - 1) * yi,
            z0 + (k - 1) * zi,
            color,
            w,
            h,
        )
    }
}

/// The line walk never changes the buffers' lengths.
pub proof fn lemma_line_steps_len(
    buf: Seq<Color>,
    dep: Seq<i64>,
    k: int,
    x0: int,
    y0: int,
    z0: int,
    xi: int,
    yi: int,
    zi: int,
    color: Color,
    w: int,
    h: int,
)
    requires
        buf.len() == dep.len(),
    ensures
        spec_line_steps(buf, dep, k, x0, y0, z0, xi, yi, zi, color, w, h).0.len() == buf.len(),
        spec_line_steps(buf, dep, k, x0, y0, z0, xi, yi, zi, color, w, h).1.len() == dep.len(),
    decreases k,
{
    if k > 0 {
        lemma_line_steps_len(buf, dep, k - 1, x0, y0, z0, xi, yi, zi, color, w, h);
        let prev = spec_line_steps(buf, dep, k - 1, x0, y0, z0, xi, yi, zi, color, w, h);
        let stepped = spec_line_plot(
            prev.0,
            prev.1,
            x0 + (k - 1) * xi,
            y0 + (k - 1) * yi,
            z0 + (k - 1) * zi,
            color,
            w,
            h,
        );
        assert(stepped.0.len() == prev.0.len());
        assert(stepped.1.len() == prev.1.len());
    }
}

/// A whole rasterized line: step count is the larger coordinate span; a
/// zero-length line is a single depth-tested pixel; otherwise `steps + 1`
/// constant-step samples with linearly interpolated position and depth.
pub open spec fn spec_draw_line(
    buf: Seq<Color>,
    dep: Seq<i64>,
    w: int,
    h: int,
    sx: int,
    sy: int,
    sz: i64,
    ex: int,
    ey: int,
    ez: i64,
    color: Color,
) -> (Seq<Color>, Seq<i64>) {
    let dx = ex - sx;
    let dy = ey - sy;
    let steps = if abs_val(dx) > abs_val(dy) {
        abs_val(dx)
    } else {
        abs_val(dy)
    };
    if steps == 0 {
        if sy * w + sx < buf.len() {
            spec_plot(buf, dep, sy * w + sx, color, sz)
        } else {
            (buf, dep)
        }
    } else {
        spec_line_steps(
            buf,
            dep,
            steps + 1,
            sx * (ONE as int),
            sy * (ONE as int),
            (sz as int) * (ONE as int),
            div_tz(dx * (ONE as int), steps),
            div_tz(dy * (ONE as int), steps),
            div_tz((ez - sz) * (ONE as int), steps),
            color,
            w,
            h,
        )
    }
}

/// Two zero-length line draws (single depth-tested pixels) at one pixel with
/// distinct depths, both nearer than what the buffers held: the nearer draw's
/// color and depth stand whichever order the two draws happen in.
pub proof fn lemma_single_pixel_draw_order_independent(
    buf: Seq<Color>,
    dep: Seq<i64>,
    w: int,
    h: int,
    x: int,
    y: int,
    c1: Color,
    d1: i64,
    c2: Color,
    d2: i64,
)
    requires
        buf.len() == dep.len(),
        0 <= y * w + x < buf.len(),
        d1 < d2,
        d1 < dep[y * w + x],
    ensures
        ({
            let a1 = spec_draw_line(buf, dep, w, h, x, y, d1, x, y, d1, c1);
            let a2 = spec_draw_line(a1.0, a1.1, w, h, x, y, d2, x, y, d2, c2);
            let b1 = spec_draw_line(buf, dep, w, h, x, y, d2, x, y, d2, c2);
            let b2 = spec_draw_line(b1.0, b1.1, w, h, x, y, d1, x, y, d1, c1);
            a2 == b2 && a2.0[y * w + x] == c1 && a2.1[y * w + x] == d1
        }),
{
    lemma_depth_order_independent(buf, dep, y * w + x, c1, d1, c2, d2);
}

/// A color buffer cleared to fully transparent black.
pub open spec fn spec_buf_init(n: int) -> Seq<Color> {
    Seq::new(n as nat, |i: int| Color { r: 0, g: 0, b: 0, a: 0 })
}

/// A depth buffer cleared to "infinitely far".
pub open spec fn spec_dep_init(n: int) -> Seq<i64> {
    Seq::new(n as nat, |i: int| i64::MAX)
}

/// One vertex drawn into the buffers: projected, and plotted under the depth
/// test where the projection survives culling.
pub open spec fn spec_plot_point(
    buf: Seq<Color>,
    dep: Seq<i64>,
    p: Point,
    color: Color,
    cam: Camera,
) -> (Seq<Color>, Seq<i64>) {
    match spec_project(p, cam) {
        Some(t) => {
            let idx = t.1 * (cam.width as int) + t.0;
            if idx < buf.len() {
                spec_plot(buf, dep, idx, color, t.2 as i64)
            } else {
                (buf, dep)
            }
        },
        None => (buf, dep),
    }
}

/// The first `k` vertices drawn into the buffers, in order.
pub open spec fn spec_point_pass(
    buf: Seq<Color>,
    dep: Seq<i64>,
    pts: Seq<Point>,
    k: int,
    color: Color,
    cam: Camera,
) -> (Seq<Color>, Seq<i64>)
    decreases k,
{
    if k <= 0 {
        (buf, dep)
    } else {
        let prev = spec_point_pass(buf, dep, pts, k - 1, color, cam);
        spec_plot_point(prev.0, prev.1, pts[k - 1], color, cam)
    }
}

/// The first `k` edges drawn into the buffers, in order: an edge is drawn
/// exactly when both endpoints survive culling, and is dropped whole (not
/// clipped) when either endpoint was culled.
pub open spec fn spec_edge_pass(
    buf: Seq<Color>,
    dep: Seq<i64>,
    pts: Seq<Point>,
    edges: Seq<Edge>,
    k: int,
    cam: Camera,
) -> (Seq<Color>, Seq<i64>)
    decreases k,
{
    if k <= 0 {
        (buf, dep)
    } else {
        let prev = spec_edge_pass(buf, dep, pts, edges, k - 1, cam);
        let e = edges[k - 1];
        let ps = spec_project(pts[e.start as int], cam);
        let pe = spec_project(pts[e.end as int], cam);
        if ps is Some && pe is Some {
            let a = ps.unwrap();
            let b = pe.unwrap();
            spec_draw_line(
                prev.0,
                prev.1,
                cam.width as int,
                cam.height as int,
                a.0,
                a.1,
                a.2 as i64,
                b.0,
                b.1,
                b.2 as i64,
                spec_line_color(),
            )
        } else {
            prev
        }
    }
}

/// A whole render pass over one mesh: cleared buffers, every vertex drawn
/// depth-tested, then every edge with both endpoints visible rasterized in
/// the fixed line color.
pub open spec fn spec_render(pts: Seq<Point>, edges: Seq<Edge>, color: Color, cam: Camera) -> (
    Seq<Color>,
    Seq<i64>,
) {
    let n = cam.width as int * cam.height as int;
    let p1 = spec_point_pass(spec_buf_init(n), spec_dep_init(n), pts, pts.len() as int, color, cam);
    spec_edge_pass(p1.0, p1.1, pts, edges, edges.len() as int, cam)
}

/// A vertex at relative depth at most 1.0 before the camera writes nothing
/// into the buffers, whatever its horizontal and vertical offsets.
pub proof fn lemma_culled_vertex_never_drawn(
    buf: Seq<Color>,
    dep: Seq<i64>,
    p: Point,
    color: Color,
    cam: Camera,
)
    requires
        p.z - cam.pos.z <= ONE as int,
    ensures
        spec_plot_point(buf, dep, p, color, cam) == (buf, dep),
{
    lemma_near_plane_culled(p, cam);
}

/// Blending with full alpha yields the source color, repacked, whatever the
/// background was.
pub proof fn lemma_blend_full_alpha(bg: u32, c: Color)
    requires
        c.a == 255,
    ensures
        spec_blend(bg, c) == (c.r as int + 256 * (c.g as int) + 65536 * (c.b as int)) as u32,
{
    let a = c.a as int;
    let br = bg as int % 256;
    let bgn = (bg as int / 256) % 256;
    let bb = (bg as int / 65536) % 256;
    assert(c.r as int * a + (255 - a) * br == c.r as int * 255);
    assert(c.g as int * a + (255 - a) * bgn == c.g as int * 255);
    assert(c.b as int * a + (255 - a) * bb == c.b as int * 255);
    lemma_div_by_multiple(c.r as int, 255);
    lemma_div_by_multiple(c.g as int, 255);
    lemma_div_by_multiple(c.b as int, 255);
    assert(spec_blend_channel(c.r as int, a, br) == c.r as int);
    assert(spec_blend_channel(c.g as int, a, bgn) == c.g as int);
    assert(spec_blend_channel(c.b as int, a, bb) == c.b as int);
}

/// Blending with zero alpha leaves the 24-bit background unchanged.
pub proof fn lemma_blend_zero_alpha(bg: u32, c: Color)
    requires
        c.a == 0,
        bg < 0x1000000,
    ensures
        spec_blend(bg, c) == bg,
{
    let br = bg as int % 256;
    let bgn = (bg as int / 256) % 256;
    let bb = (bg as int / 65536) % 256;
    assert(c.r as int * (c.a as int) + (255 - c.a as int) * br == br * 255);
    assert(c.g as int * (c.a as int) + (255 - c.a as int) * bgn == bgn * 255);
    assert(c.b as int * (c.a as int) + (255 - c.a as int) * bb == bb * 255);
    lemma_div_by_multiple(br, 255);
    lemma_div_by_multiple(bgn, 255);
    lemma_div_by_multiple(bb, 255);
    assert(spec_blend_channel(c.r as int, c.a as int, br) == br);
    assert(spec_blend_channel(c.g as int, c.a as int, bgn) == bgn);
    assert(spec_blend_channel(c.b as int, c.a as int, bb) == bb);
    assert(bg < 0x1000000 ==> bg % 256 + 256 * ((bg / 256) % 256) + 65536 * ((bg / 65536) % 256)
        == bg) by (bit_vector);
    assert(br + 256 * bgn + 65536 * bb == bg as int);
    assert(spec_blend(bg, c) == (br + 256 * bgn + 65536 * bb) as u32);
}

} // verus!
