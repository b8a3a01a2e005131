use soft_renderer::camera::Camera;
use soft_renderer::fixed::{div_floor, div_trunc_i64, isqrt64, ONE};
use soft_renderer::graphics::{
    fill_bottom_flat_triangle, fill_top_flat_triangle, fill_triangle, project, project_triangle,
    projection_matrix, Point, TriangleReject,
};
use soft_renderer::mesh::{cube, triangles_from_vertices, Angle, Mesh};
use soft_renderer::surface::Surface;
use soft_renderer::triangle::{calculate_normal, Triangle};
use soft_renderer::vector3::{
    add, calculate_magnitude, cross_product, dot_product, subtract, Vector3,
};

/// The raw fixed-point form of a real value.
fn fx(v: f64) -> i64 {
    (v * ONE as f64).round() as i64
}

const WHITE: (u8, u8, u8) = (255, 255, 255);
const RED: (u8, u8, u8) = (255, 0, 0);
const BLACK: (u8, u8, u8) = (0, 0, 0);

fn pixel(s: &Surface, x: usize, y: usize) -> (u8, u8, u8) {
    s.pixels[y * s.width + x]
}

#[test]
fn fixed_division_rounds_as_documented() {
    assert_eq!(div_floor(7, 2), 3);
    assert_eq!(div_floor(-7, 2), -4);
    assert_eq!(div_trunc_i64(7, 2), 3);
    assert_eq!(div_trunc_i64(-7, 2), -3);
    assert_eq!(div_trunc_i64(7, -2), -3);
    assert_eq!(isqrt64(0), 0);
    assert_eq!(isqrt64(24), 4);
    assert_eq!(isqrt64(25), 5);
}

#[test]
fn vector_arithmetic_is_exact() {
    let a = Vector3::new(fx(1.0), fx(2.0), fx(3.0));
    let b = Vector3::new(fx(4.0), fx(5.0), fx(6.0));
    let s = add(&a, &b);
    assert_eq!((s.x, s.y, s.z), (fx(5.0), fx(7.0), fx(9.0)));
    let d = subtract(&a, &b);
    assert_eq!((d.x, d.y, d.z), (fx(-3.0), fx(-3.0), fx(-3.0)));
    assert_eq!(dot_product(&a, &b), fx(32.0));
    let c = cross_product(&a, &b);
    assert_eq!((c.x, c.y, c.z), (fx(-3.0), fx(6.0), fx(-3.0)));
}

#[test]
fn cross_of_vector_with_itself_is_zero() {
    let v = Vector3::new(fx(1.25), fx(-7.5), fx(3.0));
    let c = cross_product(&v, &v);
    assert_eq!((c.x, c.y, c.z), (0, 0, 0));
}

#[test]
fn dot_of_vector_with_its_cross_product_is_zero() {
    let a = Vector3::new(fx(1.0), fx(2.0), fx(3.0));
    let b = Vector3::new(fx(4.0), fx(5.0), fx(6.0));
    let c = cross_product(&a, &b);
    assert_eq!(dot_product(&a, &c), 0);
}

#[test]
fn magnitude_and_normalize() {
    let mut v = Vector3::new(fx(3.0), fx(4.0), 0);
    assert_eq!(calculate_magnitude(&v), fx(5.0));
    v.normalize();
    assert_eq!(v.x, 3 * ONE / 5);
    assert_eq!(v.y, 4 * ONE / 5);
    assert_eq!(v.z, 0);
    let mut z = Vector3::new(0, 0, 0);
    z.normalize();
    assert_eq!((z.x, z.y, z.z), (0, 0, 0));
}

#[test]
fn vector_mutators() {
    let mut v = Vector3::new(fx(1.0), fx(2.0), fx(3.0));
    v.translate(fx(0.5), fx(-0.5), fx(1.0));
    assert_eq!((v.x, v.y, v.z), (fx(1.5), fx(1.5), fx(4.0)));
    v.scale(fx(2.0));
    assert_eq!((v.x, v.y, v.z), (fx(3.0), fx(3.0), fx(8.0)));
    v.non_uniform_scale(fx(1.0), fx(2.0), fx(0.5));
    assert_eq!((v.x, v.y, v.z), (fx(3.0), fx(6.0), fx(4.0)));
    v.negate();
    assert_eq!((v.x, v.y, v.z), (fx(-3.0), fx(-6.0), fx(-4.0)));
}

#[test]
fn face_normal_of_planar_triangle() {
    let t = Triangle::new([
        Vector3::new(0, 0, 0),
        Vector3::new(ONE, 0, 0),
        Vector3::new(0, ONE, 0),
    ]);
    let n = calculate_normal(&t);
    assert_eq!((n.x, n.y, n.z), (0, 0, ONE));
}

#[test]
fn mesh_translate_test() {
    let mut cube1 = cube(fx(1.0));
    let cube2 = cube(fx(1.0));
    cube1.translate(fx(10.0), fx(-10.0), fx(30.3));
    for (i, triangle) in cube1.triangles.iter().enumerate() {
        for (j, vertex) in triangle.vertices.iter().enumerate() {
            let x = cube2.triangles[i].vertices[j].x;
            let y = cube2.triangles[i].vertices[j].y;
            let z = cube2.triangles[i].vertices[j].z;
            assert_eq!(vertex.x, x + fx(10.0));
            assert_eq!(vertex.y, y - fx(10.0));
            assert_eq!(vertex.z, z + fx(30.3));
        }
    }
    assert_eq!(cube1.position.x, cube2.position.x + fx(10.0));
    assert_eq!(cube1.position.y, cube2.position.y - fx(10.0));
    assert_eq!(cube1.position.z, cube2.position.z + fx(30.3));
}

#[test]
fn cube_has_twelve_triangles_at_half_extent() {
    let m = cube(fx(2.0));
    assert_eq!(m.triangles.len(), 12);
    assert_eq!((m.position.x, m.position.y, m.position.z), (0, 0, 0));
    for t in &m.triangles {
        for v in &t.vertices {
            assert_eq!(v.x.abs(), fx(1.0));
            assert_eq!(v.y.abs(), fx(1.0));
            assert_eq!(v.z.abs(), fx(1.0));
        }
    }
    assert_eq!(m.triangles[0].vertices[0].x, fx(-1.0));
    assert_eq!(m.triangles[0].vertices[0].y, fx(-1.0));
    assert_eq!(m.triangles[0].vertices[0].z, fx(-1.0));
}

#[test]
fn global_rotate_quarter_turn_about_z() {
    let t = Triangle::new([
        Vector3::new(ONE, 0, 0),
        Vector3::new(0, ONE, 0),
        Vector3::new(0, 0, ONE),
    ]);
    let mut m = Mesh::new(Vector3::new(0, 0, 0), Vector3::new(0, 0, 0), vec![t]);
    let no_turn = Angle { radians: 0, sin: 0, cos: ONE };
    let quarter = Angle { radians: fx(1.5707963), sin: ONE, cos: 0 };
    m.global_rotate(no_turn, no_turn, quarter);
    let v0 = m.triangles[0].vertices[0];
    assert_eq!((v0.x, v0.y, v0.z), (0, ONE, 0));
    let v1 = m.triangles[0].vertices[1];
    assert_eq!((v1.x, v1.y, v1.z), (-ONE, 0, 0));
    let v2 = m.triangles[0].vertices[2];
    assert_eq!((v2.x, v2.y, v2.z), (0, 0, ONE));
    assert_eq!(m.rotation.z, fx(1.5707963));
}

#[test]
fn rotate_about_position_keeps_pivot_fixed() {
    let pivot = Vector3::new(fx(5.0), fx(5.0), 0);
    let t = Triangle::new([pivot, Vector3::new(fx(6.0), fx(5.0), 0), pivot]);
    let mut m = Mesh::new(pivot, Vector3::new(0, 0, 0), vec![t]);
    let no_turn = Angle { radians: 0, sin: 0, cos: ONE };
    let quarter = Angle { radians: fx(1.5707963), sin: ONE, cos: 0 };
    m.rotate(no_turn, no_turn, quarter);
    let v0 = m.triangles[0].vertices[0];
    assert_eq!((v0.x, v0.y, v0.z), (fx(5.0), fx(5.0), 0));
    let v1 = m.triangles[0].vertices[1];
    assert_eq!((v1.x, v1.y, v1.z), (fx(5.0), fx(6.0), 0));
}

#[test]
fn vertex_rows_group_into_triangles() {
    let rows = vec![
        Vector3::new(1, 2, 3),
        Vector3::new(4, 5, 6),
        Vector3::new(7, 8, 9),
        Vector3::new(10, 11, 12),
        Vector3::new(13, 14, 15),
        Vector3::new(16, 17, 18),
        Vector3::new(19, 20, 21),
    ];
    let ts = triangles_from_vertices(&rows);
    assert_eq!(ts.len(), 2);
    assert_eq!(ts[0].vertices[1].y, 5);
    assert_eq!(ts[1].vertices[2].z, 18);
}

#[test]
fn camera_mutators() {
    let mut c = Camera::new(
        Vector3::new(0, 0, 0),
        Vector3::new(0, 0, 0),
        fx(100.0),
        fx(60.0),
        ONE,
        fx(200.0),
    );
    c.translate(fx(1.0), 0, fx(-2.0));
    assert_eq!((c.position.x, c.position.y, c.position.z), (fx(1.0), 0, fx(-2.0)));
    c.rotate(0, fx(0.5), 0);
    assert_eq!(c.rotation.y, fx(0.5));
    assert_eq!(c.z_far, fx(200.0));
}

#[test]
fn surface_primitives_clip_and_paint() {
    let mut s = Surface::new(8, 8, WHITE);
    assert_eq!(s.pixels.len(), 64);
    s.set_pixel(3, 2, RED);
    assert_eq!(pixel(&s, 3, 2), RED);
    s.set_pixel(-1, 2, RED);
    s.set_pixel(3, 9, RED);
    assert_eq!(s.pixels.iter().filter(|p| **p == RED).count(), 1);
    s.draw_horizontal_line(6, 1, 5, BLACK);
    for x in 1..=6 {
        assert_eq!(pixel(&s, x, 5), BLACK);
    }
    assert_eq!(pixel(&s, 0, 5), WHITE);
    assert_eq!(pixel(&s, 7, 5), WHITE);
    s.draw_horizontal_line(-5, 20, 0, BLACK);
    for x in 0..8 {
        assert_eq!(pixel(&s, x, 0), BLACK);
    }
}

#[test]
fn line_walk_marks_each_step() {
    let mut s = Surface::new(8, 8, WHITE);
    s.draw_line(0, 0, 4, 2, BLACK);
    assert_eq!(pixel(&s, 0, 0), BLACK);
    assert_eq!(pixel(&s, 1, 0), BLACK);
    assert_eq!(pixel(&s, 2, 1), BLACK);
    assert_eq!(pixel(&s, 3, 1), BLACK);
    assert_eq!(pixel(&s, 4, 2), BLACK);
    assert_eq!(s.pixels.iter().filter(|p| **p == BLACK).count(), 5);
}

#[test]
fn flat_bottom_fill_covers_expected_spans() {
    let mut s = Surface::new(8, 8, WHITE);
    fill_bottom_flat_triangle(
        &mut s,
        Point::new(2, 1),
        Point::new(1, 3),
        Point::new(4, 3),
        RED,
    );
    assert_eq!(pixel(&s, 2, 1), RED);
    assert_eq!(pixel(&s, 2, 2), RED);
    assert_eq!(pixel(&s, 3, 2), RED);
    for x in 1..=4 {
        assert_eq!(pixel(&s, x, 3), RED);
    }
    assert_eq!(pixel(&s, 1, 1), WHITE);
    assert_eq!(pixel(&s, 0, 3), WHITE);
    assert_eq!(pixel(&s, 2, 4), WHITE);
}

#[test]
fn degenerate_triangle_fills_nothing() {
    let mut s = Surface::new(8, 8, WHITE);
    fill_triangle(&mut s, Point::new(1, 2), Point::new(4, 2), Point::new(6, 2), RED);
    assert!(s.pixels.iter().all(|p| *p == WHITE));
}

#[test]
fn split_triangle_fill_matches_scanline_rule() {
    let mut s = Surface::new(8, 8, WHITE);
    fill_triangle(&mut s, Point::new(2, 0), Point::new(0, 2), Point::new(4, 4), RED);
    assert_eq!(pixel(&s, 2, 0), RED);
    assert_eq!(pixel(&s, 1, 2), RED);
    assert_eq!(pixel(&s, 3, 3), RED);
    assert_eq!(pixel(&s, 4, 4), RED);
    assert_eq!(pixel(&s, 0, 0), WHITE);
    assert_eq!(pixel(&s, 5, 2), WHITE);
}

#[test]
fn scanline_fills_are_point_symmetric() {
    let mut bottom = Surface::new(12, 12, WHITE);
    fill_bottom_flat_triangle(
        &mut bottom,
        Point::new(2, 1),
        Point::new(1, 3),
        Point::new(4, 3),
        RED,
    );
    let mut top = Surface::new(12, 12, WHITE);
    fill_top_flat_triangle(
        &mut top,
        Point::new(9, 7),
        Point::new(6, 7),
        Point::new(8, 9),
        RED,
    );
    for y in 0..11usize {
        for x in 0..11usize {
            assert_eq!(
                pixel(&bottom, x, y) == RED,
                pixel(&top, 10 - x, 10 - y) == RED,
                "mismatch at {} {}",
                x,
                y
            );
        }
    }
}

#[test]
fn rasterizer_is_idempotent() {
    let p0 = Point::new(8, 8);
    let p1 = Point::new(8, 4);
    let p2 = Point::new(12, 8);
    let mut s = Surface::new(16, 16, WHITE);
    fill_triangle(&mut s, p0, p1, p2, RED);
    s.draw_line(p0.x, p0.y, p1.x, p1.y, BLACK);
    s.draw_line(p1.x, p1.y, p2.x, p2.y, BLACK);
    s.draw_line(p2.x, p2.y, p0.x, p0.y, BLACK);
    let once = s.pixels.clone();
    fill_triangle(&mut s, p0, p1, p2, RED);
    s.draw_line(p0.x, p0.y, p1.x, p1.y, BLACK);
    s.draw_line(p1.x, p1.y, p2.x, p2.y, BLACK);
    s.draw_line(p2.x, p2.y, p0.x, p0.y, BLACK);
    assert_eq!(once, s.pixels);
}

fn test_camera() -> Camera {
    Camera::new(
        Vector3::new(0, 0, 0),
        Vector3::new(0, 0, 0),
        fx(90.0),
        fx(90.0),
        ONE,
        3 * ONE,
    )
}

#[test]
fn backface_is_culled() {
    let t = Triangle::new([
        Vector3::new(0, 0, 2 * ONE),
        Vector3::new(ONE, 0, 2 * ONE),
        Vector3::new(0, ONE, 2 * ONE),
    ]);
    let r = project_triangle(&test_camera(), &t, ONE, ONE, 8, 8);
    assert_eq!(r, Err(TriangleReject::Backface));
}

#[test]
fn triangle_behind_near_threshold_draws_no_pixel() {
    let half = ONE / 2;
    let t = Triangle::new([
        Vector3::new(0, 0, half),
        Vector3::new(0, ONE, half),
        Vector3::new(ONE, 0, half),
    ]);
    let cam = test_camera();
    let r = project_triangle(&cam, &t, ONE, ONE, 8, 8);
    assert_eq!(r, Err(TriangleReject::BehindNear));
    let mesh = Mesh::new(Vector3::new(0, 0, 0), Vector3::new(0, 0, 0), vec![t]);
    let mut s = Surface::new(16, 16, WHITE);
    project(&mut s, &cam, &mesh, RED, ONE, ONE);
    assert!(s.pixels.iter().all(|p| *p == WHITE));
}

#[test]
fn vertex_outside_device_bounds_rejects_triangle() {
    let t = Triangle::new([
        Vector3::new(10 * ONE, 0, 2 * ONE),
        Vector3::new(10 * ONE, ONE, 2 * ONE),
        Vector3::new(11 * ONE, 0, 2 * ONE),
    ]);
    let r = project_triangle(&test_camera(), &t, ONE, ONE, 8, 8);
    assert_eq!(r, Err(TriangleReject::OutOfBounds));
}

#[test]
fn vertex_exactly_on_device_boundary_is_retained() {
    let t = Triangle::new([
        Vector3::new(2 * ONE, 0, 2 * ONE),
        Vector3::new(ONE, 0, 2 * ONE),
        Vector3::new(2 * ONE, ONE, 2 * ONE),
    ]);
    let r = project_triangle(&test_camera(), &t, ONE, ONE, 8, 8);
    match r {
        Ok(pts) => {
            assert_eq!(pts[0].x, 16);
        },
        Err(e) => panic!("boundary vertex was rejected: {:?}", e),
    }
}

#[test]
fn visible_triangle_is_filled_and_outlined() {
    let t = Triangle::new([
        Vector3::new(0, 0, 2 * ONE),
        Vector3::new(0, ONE, 2 * ONE),
        Vector3::new(ONE, 0, 2 * ONE),
    ]);
    let cam = test_camera();
    let r = project_triangle(&cam, &t, ONE, ONE, 8, 8);
    let pts = r.expect("triangle should be visible");
    assert_eq!((pts[0].x, pts[0].y), (8, 8));
    assert_eq!((pts[1].x, pts[1].y), (8, 4));
    assert_eq!((pts[2].x, pts[2].y), (12, 8));
    let mesh = Mesh::new(Vector3::new(0, 0, 0), Vector3::new(0, 0, 0), vec![t]);
    let mut s = Surface::new(16, 16, WHITE);
    project(&mut s, &cam, &mesh, RED, ONE, ONE);
    assert_eq!(pixel(&s, 9, 6), RED);
    assert_eq!(pixel(&s, 8, 4), BLACK);
    assert_eq!(pixel(&s, 8, 8), BLACK);
    assert_eq!(pixel(&s, 0, 0), WHITE);
}

#[test]
fn projection_matrix_entries() {
    let pm = projection_matrix(fx(1.0), fx(1.0), ONE, 3 * ONE);
    assert_eq!(pm.m[0][0], ONE);
    assert_eq!(pm.m[1][1], ONE);
    assert_eq!(pm.m[2][2], fx(1.5));
    assert_eq!(pm.m[2][3], -fx(1.5));
    assert_eq!(pm.m[3][2], ONE);
    assert_eq!(pm.m[3][3], 0);
}
