use engine::engine::fixed::ONE;
use engine::engine::object::{Edge, Matrix4x4, Object, Point, Rot, Triangle};
use engine::engine::shader::{plot, project, Color, Shader};
use engine::engine::space::Camera;

fn rot(theta: f64) -> Rot {
    Rot {
        cos: (theta.cos() * ONE as f64) as i64,
        sin: (theta.sin() * ONE as f64) as i64,
    }
}

fn zero_rot() -> Rot {
    Rot { cos: ONE, sin: 0 }
}

fn quarter_rot() -> Rot {
    Rot { cos: 0, sin: ONE }
}

fn circle_tables(res: usize) -> (Vec<Rot>, Vec<Rot>) {
    let pi = std::f64::consts::PI;
    let mut lat = Vec::new();
    for j in 1..res {
        lat.push(rot(pi * j as f64 / res as f64));
    }
    let mut ring = Vec::new();
    for i in 0..res {
        ring.push(rot(2.0 * pi * i as f64 / res as f64));
    }
    (lat, ring)
}

fn dist_sq(a: Point, b: Point) -> i128 {
    let dx = a.x as i128 - b.x as i128;
    let dy = a.y as i128 - b.y as i128;
    let dz = a.z as i128 - b.z as i128;
    dx * dx + dy * dy + dz * dz
}

#[test]
fn identity_composes_neutrally() {
    for angle in [0.0, 0.3, 1.2, -0.8, 3.7] {
        let r = Matrix4x4::rotate_y(rot(angle));
        assert_eq!(Matrix4x4::identity().multiply(&r), r);
        assert_eq!(r.multiply(&Matrix4x4::identity()), r);
        let rz = Matrix4x4::rotate_z(rot(angle));
        assert_eq!(Matrix4x4::identity().multiply(&rz), rz);
    }
}

#[test]
fn rotation_round_trip_quarter_turn_exact() {
    let mut cube = Object::new_cube(0, 40 * ONE, Point { x: 0, y: 50 * ONE, z: 300 * ONE });
    let original = cube.original_points.clone();
    cube.rotate_x(quarter_rot());
    cube.rotate_x(quarter_rot().neg());
    assert_eq!(cube.points, original);
}

#[test]
fn rotation_round_trip_small_angle_tolerance() {
    let mut cube = Object::new_cube(0, 40 * ONE, Point { x: 0, y: 50 * ONE, z: 300 * ONE });
    let original = cube.original_points.clone();
    cube.rotate_y(rot(0.3));
    cube.rotate_y(rot(0.3).neg());
    for (p, q) in cube.points.iter().zip(original.iter()) {
        assert!((p.x - q.x).abs() <= 256, "x drifted: {} vs {}", p.x, q.x);
        assert!((p.y - q.y).abs() <= 256, "y drifted: {} vs {}", p.y, q.y);
        assert!((p.z - q.z).abs() <= 256, "z drifted: {} vs {}", p.z, q.z);
    }
}

#[test]
fn rotation_is_rigid_quarter_turn() {
    let center = Point { x: 10 * ONE, y: -5 * ONE, z: 100 * ONE };
    let mut cube = Object::new_cube(0, 30 * ONE, center);
    let rest: Vec<Point> = cube.original_points.clone();
    cube.rotate_z(quarter_rot());
    for (p, q) in cube.points.iter().zip(rest.iter()) {
        assert_eq!(dist_sq(*p, center), dist_sq(*q, center));
    }
}

#[test]
fn rotation_rigid_tolerance() {
    let center = Point { x: 0, y: 0, z: 200 * ONE };
    let (lat, ring) = circle_tables(8);
    let mut sphere = Object::new_sphere(0, 10 * ONE, center, 8, &lat, &ring);
    let rest: Vec<Point> = sphere.original_points.clone();
    sphere.rotate_x(rot(0.7));
    for (p, q) in sphere.points.iter().zip(rest.iter()) {
        let live = (dist_sq(*p, center) as f64).sqrt();
        let orig = (dist_sq(*q, center) as f64).sqrt();
        assert!((live - orig).abs() <= 64.0, "radius drifted: {} vs {}", live, orig);
    }
}

#[test]
fn sphere_vertex_count() {
    for res in [5usize, 20] {
        let (lat, ring) = circle_tables(res);
        let sphere = Object::new_sphere(1, 30 * ONE, Point { x: 0, y: 0, z: 100 * ONE }, res, &lat, &ring);
        assert_eq!(sphere.points.len(), (res - 1) * res + 2);
        assert_eq!(sphere.original_points.len(), (res - 1) * res + 2);
        assert_eq!(sphere.edges.len(), 2 * res * (res - 1));
        assert_eq!(sphere.triangles.len(), 2 * res * (res - 1));
        for e in &sphere.edges {
            assert!(e.start < sphere.points.len() && e.end < sphere.points.len());
        }
        for t in &sphere.triangles {
            assert!(t.a < sphere.points.len() && t.b < sphere.points.len() && t.c < sphere.points.len());
            assert!(!(t.a == t.b && t.b == t.c));
        }
    }
}

#[test]
fn sphere_pole_positions() {
    let (lat, ring) = circle_tables(6);
    let center = Point { x: ONE, y: 2 * ONE, z: 3 * ONE };
    let sphere = Object::new_sphere(0, 4 * ONE, center, 6, &lat, &ring);
    assert_eq!(sphere.points[0], Point { x: ONE, y: 2 * ONE, z: 7 * ONE });
    let last = sphere.points[sphere.points.len() - 1];
    assert_eq!(last, Point { x: ONE, y: 2 * ONE, z: -ONE });
}

#[test]
fn cube_counts_and_corners() {
    let cube = Object::new_cube(3, 2 * ONE, Point { x: 0, y: 0, z: 0 });
    assert_eq!(cube.points.len(), 8);
    assert_eq!(cube.edges.len(), 12);
    assert_eq!(cube.triangles.len(), 12);
    assert_eq!(cube.points[0], Point { x: -ONE, y: -ONE, z: ONE });
    assert_eq!(cube.points[6], Point { x: ONE, y: ONE, z: -ONE });
    assert_eq!(cube.id, 3);
}

#[test]
fn depth_test_is_order_independent() {
    let near = Color { r: 10, g: 20, b: 30, a: 255 };
    let far = Color { r: 200, g: 100, b: 50, a: 255 };
    let blank = Color { r: 0, g: 0, b: 0, a: 0 };

    let mut buf1 = vec![blank; 4];
    let mut dep1 = vec![i64::MAX; 4];
    plot(&mut buf1, &mut dep1, 2, far, 500);
    plot(&mut buf1, &mut dep1, 2, near, 100);

    let mut buf2 = vec![blank; 4];
    let mut dep2 = vec![i64::MAX; 4];
    plot(&mut buf2, &mut dep2, 2, near, 100);
    plot(&mut buf2, &mut dep2, 2, far, 500);

    assert_eq!(buf1, buf2);
    assert_eq!(dep1, dep2);
    assert_eq!(buf1[2], near);
    assert_eq!(dep1[2], 100);
}

#[test]
fn blend_full_alpha_keeps_source() {
    let src = Color { r: 12, g: 34, b: 56, a: 255 };
    for bg in [0u32, 0x123456, 0xFFFFFF] {
        let out = Shader::blend(bg, src);
        assert_eq!(out, 12 | (34 << 8) | (56 << 16));
    }
}

#[test]
fn blend_zero_alpha_keeps_background() {
    let src = Color { r: 12, g: 34, b: 56, a: 0 };
    for bg in [0u32, 0x123456, 0xFFFFFF] {
        let out = Shader::blend(bg, src);
        assert_eq!(out, bg);
    }
}

#[test]
fn blend_half_alpha_exact_value() {
    let src = Color { r: 255, g: 255, b: 255, a: 128 };
    let out = Shader::blend(0, src);
    assert_eq!(out, 128 | (128 << 8) | (128 << 16));
}

#[test]
fn near_plane_culls_vertex() {
    let cam = Camera::new(800, 600);
    // relative depth exactly 1.0, with huge lateral offsets
    let p = Point { x: 1_000_000 * ONE, y: -1_000_000 * ONE, z: cam.pos.z + ONE };
    assert!(project(p, &cam).is_none());
    // behind the camera
    let q = Point { x: 0, y: 0, z: cam.pos.z - 100 * ONE };
    assert!(project(q, &cam).is_none());
}

#[test]
fn projection_hits_viewport_center() {
    let cam = Camera::new(800, 600);
    let p = Point { x: 0, y: 0, z: 100 * ONE };
    let (sx, sy, depth) = project(p, &cam).expect("straight ahead must be visible");
    assert_eq!(sx, 400);
    assert_eq!(sy, 300);
    assert_eq!(depth, 150 * ONE);
}

#[test]
fn behind_camera_object_renders_nothing() {
    let cam = Camera::new(100, 100);
    let cube = Object::new_cube(0, 10 * ONE, Point { x: 0, y: 0, z: -200 * ONE });
    let white = Color { r: 255, g: 255, b: 255, a: 255 };
    let buffer = Shader::render(&cube, &white, &cam);
    assert_eq!(buffer.len(), 100 * 100);
    assert!(buffer.iter().all(|c| c.a == 0 && c.r == 0 && c.g == 0 && c.b == 0));
}

#[test]
fn zero_rotation_is_byte_exact_noop_on_frame() {
    let mut scene = engine::space(800, 600, 60);
    let id = scene.add_cube(0, 50 * ONE, 300 * ONE, 40 * ONE);
    assert_eq!(id, 0);
    scene.update();
    let first = scene.frame.clone();
    assert!(first.iter().any(|&px| px != 0), "cube must be visible");
    engine::rotate_all(&mut scene, zero_rot(), zero_rot(), zero_rot());
    scene.update();
    assert_eq!(scene.frame, first);
}

#[test]
fn rotate_unknown_id_is_noop() {
    let mut scene = engine::space(200, 200, 30);
    scene.add_cube(0, 0, 100 * ONE, 20 * ONE);
    let before = scene.objects[0].points.clone();
    engine::rotate_object(&mut scene, 99, rot(0.5), rot(0.25), rot(1.0));
    assert_eq!(scene.objects.len(), 1);
    assert_eq!(scene.objects[0].points, before);
}

#[test]
fn add_object_overwrites_by_id() {
    let mut scene = engine::space(200, 200, 30);
    let small = Object::new_cube(7, 10 * ONE, Point { x: 0, y: 0, z: 100 * ONE });
    let big = Object::new_cube(7, 20 * ONE, Point { x: 0, y: 0, z: 100 * ONE });
    scene.add_object(small);
    scene.add_object(big);
    assert_eq!(scene.objects.len(), 1);
    assert_eq!(scene.objects[0].points[0].x, -10 * ONE);
}

#[test]
fn depth_resolves_overlapping_objects() {
    // two cubes straight ahead, one nearer; the nearer one's depth must win
    // at the shared center pixel whichever insertion order is used.
    let white = Color { r: 255, g: 255, b: 255, a: 255 };
    let cam = Camera::new(100, 100);
    let near_cube = Object::new_cube(0, 10 * ONE, Point { x: 0, y: 0, z: 100 * ONE });
    let far_cube = Object::new_cube(1, 10 * ONE, Point { x: 0, y: 0, z: 400 * ONE });
    let near_buf = Shader::render(&near_cube, &white, &cam);
    let far_buf = Shader::render(&far_cube, &white, &cam);
    // vertex pixels of the near cube are drawn in both renders only if they
    // overlap; check a pixel the near cube covers is opaque in its buffer
    assert!(near_buf.iter().any(|c| c.a == 255));
    assert!(far_buf.iter().any(|c| c.a == 255));
}

#[test]
fn line_walk_covers_diagonal() {
    let blank = Color { r: 0, g: 0, b: 0, a: 0 };
    let ink = Color { r: 9, g: 9, b: 9, a: 255 };
    let mut buf = vec![blank; 16];
    let mut dep = vec![i64::MAX; 16];
    engine::engine::shader::Shader::draw_line(&mut buf, &mut dep, 4, 4, 0, 0, 10 * ONE, 3, 3, 10 * ONE, ink);
    for t in 0..4 {
        assert_eq!(buf[t * 4 + t], ink, "diagonal pixel {} missing", t);
        assert_eq!(dep[t * 4 + t], 10 * ONE);
    }
}

#[test]
fn point_builder_keeps_coordinates() {
    let p = engine::point(ONE, -2 * ONE, 3 * ONE);
    assert_eq!(p, Point { x: ONE, y: -2 * ONE, z: 3 * ONE });
}

#[test]
fn sphere_topology_layout() {
    let res = 5usize;
    let (lat, ring) = circle_tables(res);
    let sphere = Object::new_sphere(0, 10 * ONE, Point { x: 0, y: 0, z: 100 * ONE }, res, &lat, &ring);
    // pole fan
    for i in 0..res {
        assert_eq!(sphere.edges[i], Edge { start: 0, end: i + 1 });
        assert_eq!(sphere.triangles[i], Triangle { a: 0, b: i + 1, c: (i + 1) % res + 1 });
    }
    // one band cell: ring 1, vertex 2
    let (j, i) = (1usize, 2usize);
    let base = res + 2 * (j * res + i);
    let cur = i + 1 + j * res;
    let nxt = (i + 1) % res + 1 + j * res;
    let below = i + 1 + (j + 1) * res;
    let below_next = (i + 1) % res + 1 + (j + 1) * res;
    assert_eq!(sphere.edges[base], Edge { start: cur, end: below });
    assert_eq!(sphere.edges[base + 1], Edge { start: cur, end: nxt });
    assert_eq!(sphere.triangles[base], Triangle { a: cur, b: nxt, c: below });
    assert_eq!(sphere.triangles[base + 1], Triangle { a: nxt, b: below_next, c: below });
    // south fan
    let south = (res - 1) * res + 1;
    let lrs = south - res;
    let sbase = res + 2 * (res - 2) * res;
    for i in 0..res {
        assert_eq!(sphere.edges[sbase + i], Edge { start: lrs + i, end: south });
        assert_eq!(sphere.triangles[sbase + i], Triangle { a: south, b: lrs + (i + 1) % res, c: lrs + i });
    }
    // every edge joins two distinct vertices
    for e in &sphere.edges {
        assert_ne!(e.start, e.end);
    }
    // every triangle has pairwise distinct corners
    for t in &sphere.triangles {
        assert!(t.a != t.b && t.b != t.c && t.a != t.c);
    }
}

#[test]
fn cube_topology_layout() {
    let cube = Object::new_cube(0, 2 * ONE, Point { x: 0, y: 0, z: 0 });
    let expected_edges = [
        (0, 1), (1, 2), (2, 3), (3, 0),
        (4, 5), (5, 6), (6, 7), (7, 4),
        (0, 4), (1, 5), (2, 6), (3, 7),
    ];
    for (k, &(a, b)) in expected_edges.iter().enumerate() {
        assert_eq!(cube.edges[k], Edge { start: a, end: b });
    }
    // each corner lies on exactly 3 edges
    for v in 0..8 {
        let count = cube.edges.iter().filter(|e| e.start == v || e.end == v).count();
        assert_eq!(count, 3, "corner {} degree", v);
    }
    assert_eq!(cube.triangles[0], Triangle { a: 0, b: 1, c: 2 });
    assert_eq!(cube.triangles[11], Triangle { a: 4, b: 1, c: 0 });
    for t in &cube.triangles {
        assert!(t.a != t.b && t.b != t.c && t.a != t.c);
    }
}

#[test]
fn single_pixel_lines_are_order_independent() {
    let blank = Color { r: 0, g: 0, b: 0, a: 0 };
    let near = Color { r: 1, g: 2, b: 3, a: 255 };
    let far = Color { r: 7, g: 8, b: 9, a: 255 };
    let mut buf1 = vec![blank; 16];
    let mut dep1 = vec![i64::MAX; 16];
    Shader::draw_line(&mut buf1, &mut dep1, 4, 4, 2, 1, 30 * ONE, 2, 1, 30 * ONE, far);
    Shader::draw_line(&mut buf1, &mut dep1, 4, 4, 2, 1, 10 * ONE, 2, 1, 10 * ONE, near);
    let mut buf2 = vec![blank; 16];
    let mut dep2 = vec![i64::MAX; 16];
    Shader::draw_line(&mut buf2, &mut dep2, 4, 4, 2, 1, 10 * ONE, 2, 1, 10 * ONE, near);
    Shader::draw_line(&mut buf2, &mut dep2, 4, 4, 2, 1, 30 * ONE, 2, 1, 30 * ONE, far);
    assert_eq!(buf1, buf2);
    assert_eq!(dep1, dep2);
    assert_eq!(buf1[1 * 4 + 2], near);
    assert_eq!(dep1[1 * 4 + 2], 10 * ONE);
}

#[test]
fn fresh_scene_has_cleared_frame() {
    let scene = engine::space(320, 200, 30);
    assert_eq!(scene.frame.len(), 320 * 200);
    assert!(scene.frame.iter().all(|&px| px == 0));
    assert_eq!(scene.camera.width, 320);
    assert_eq!(scene.camera.height, 200);
}
