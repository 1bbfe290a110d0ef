use rraayy::box_shape::BoxShape;
use rraayy::camera::{pixel_to_camera, ViewTransform};
use rraayy::plane_shape::PlaneShape;
use rraayy::ray::{Ratio, Ray};
use rraayy::shape::Shape;
use rraayy::triangle_shape::TriangleShape;
use rraayy::vector::{SteppedVector, Vector};

fn v(x: i64, y: i64, z: i64) -> Vector {
    Vector::new(x, y, z)
}

fn sv(x: i32, y: i32, z: i32) -> SteppedVector {
    SteppedVector::new(x, y, z)
}

fn equals(t: Ratio, num: i128, den: i128) -> bool {
    t.den > 0 && t.num * den == num * t.den
}

fn unit_box() -> BoxShape {
    BoxShape::new(sv(-1, -1, -1), sv(1, 1, 1))
}

#[test]
fn box_ray_at_center_hits_at_entry_distance() {
    let ray = Ray::new(v(0, 0, 10), v(0, 0, -1));
    let (hit, t) = unit_box().intersects_ray(&ray);
    assert!(hit);
    assert!(equals(t, 9, 1));
}

#[test]
fn box_diagonal_ray_hits_at_entry_distance() {
    let b = BoxShape::new(sv(0, 0, 0), sv(2, 2, 2));
    let ray = Ray::new(v(-10, -10, -10), v(1, 1, 1));
    let (hit, t) = b.intersects_ray(&ray);
    assert!(hit);
    assert!(equals(t, 10, 1));
}

#[test]
fn box_ray_pointing_away_misses() {
    let ray = Ray::new(v(0, 0, 10), v(0, 0, 1));
    let (hit, _) = unit_box().intersects_ray(&ray);
    assert!(!hit);
}

#[test]
fn box_origin_inside_reports_hit_behind() {
    let ray = Ray::new(v(0, 0, 0), v(0, 0, 1));
    let (hit, t) = unit_box().intersects_ray(&ray);
    assert!(hit);
    assert!(t.num < 0);
    assert!(equals(t, -1, 1));
}

#[test]
fn box_axis_parallel_ray_outside_slab_misses() {
    let ray = Ray::new(v(5, 0, 10), v(0, 0, -1));
    let (hit, _) = unit_box().intersects_ray(&ray);
    assert!(!hit);
}

#[test]
fn box_axis_parallel_ray_on_face_misses() {
    let ray = Ray::new(v(1, 0, 10), v(0, 0, -1));
    let (hit, _) = unit_box().intersects_ray(&ray);
    assert!(!hit);
}

#[test]
fn box_corners_are_kept() {
    let b = unit_box();
    assert_eq!(b.start(), sv(-1, -1, -1));
    assert_eq!(b.end(), sv(1, 1, 1));
}

#[test]
fn plane_parallel_ray_misses_from_any_origin() {
    let plane = PlaneShape::new(v(0, 0, 0), v(0, 0, 1));
    for origin in [v(0, 0, -5), v(0, 0, 5), v(3, -7, 0), v(100, 100, 100)] {
        let (hit, _) = plane.intersects_ray(&Ray::new(origin, v(1, 0, 0)));
        assert!(!hit);
        let (hit, _) = plane.intersects_ray(&Ray::new(origin, v(0, 1, 0)));
        assert!(!hit);
    }
}

#[test]
fn plane_accepted_side_hits_at_distance() {
    let plane = PlaneShape::new(v(0, 0, 0), v(0, 0, 1));
    let (hit, t) = plane.intersects_ray(&Ray::new(v(2, 3, -5), v(0, 0, 1)));
    assert!(hit);
    assert!(equals(t, 5, 1));
}

#[test]
fn plane_oblique_ray_hits_at_fraction() {
    let plane = PlaneShape::new(v(0, 0, 4), v(0, 0, 1));
    let (hit, t) = plane.intersects_ray(&Ray::new(v(0, 0, 0), v(1, 0, 3)));
    assert!(hit);
    assert!(equals(t, 4, 3));
}

#[test]
fn plane_back_side_misses() {
    let plane = PlaneShape::new(v(0, 0, 0), v(0, 0, 1));
    let (hit, _) = plane.intersects_ray(&Ray::new(v(0, 0, 5), v(0, 0, -1)));
    assert!(!hit);
}

#[test]
fn plane_behind_ray_misses() {
    let plane = PlaneShape::new(v(0, 0, 0), v(0, 0, 1));
    let (hit, t) = plane.intersects_ray(&Ray::new(v(0, 0, 5), v(0, 0, 1)));
    assert!(!hit);
    assert!(equals(t, -5, 1));
}

#[test]
fn plane_accessors() {
    let plane = PlaneShape::new(v(1, 2, 3), v(0, 1, 0));
    assert_eq!(plane.origin(), v(1, 2, 3));
    assert_eq!(plane.dir(), v(0, 1, 0));
}

// The triangle a=(0,0,0), b=(2,0,0), c=(0,2,0) and the ray from (0.5,0.5,5)
// along (0,0,-1), with every coordinate doubled so that it is integral:
// distances double too.
#[test]
fn triangle_ray_through_inside_point_hits() {
    let tri = TriangleShape::new(v(0, 0, 0), v(0, 4, 0), v(4, 0, 0));
    let (hit, t) = tri.intersects_ray(&Ray::new(v(1, 1, 10), v(0, 0, -1)));
    assert!(hit);
    assert!(equals(t, 10, 1));
}

#[test]
fn triangle_facing_away_misses() {
    let tri = TriangleShape::new(v(0, 0, 0), v(4, 0, 0), v(0, 4, 0));
    let (hit, _) = tri.intersects_ray(&Ray::new(v(1, 1, 10), v(0, 0, -1)));
    assert!(!hit);
    let (hit, t) = tri.intersects_ray(&Ray::new(v(1, 1, -10), v(0, 0, 1)));
    assert!(hit);
    assert!(equals(t, 10, 1));
}

#[test]
fn triangle_ray_outside_edges_misses() {
    let tri = TriangleShape::new(v(0, 0, 0), v(0, 4, 0), v(4, 0, 0));
    for origin in [v(5, 5, 10), v(-1, 1, 10), v(1, -1, 10), v(8, 0, 10)] {
        let (hit, _) = tri.intersects_ray(&Ray::new(origin, v(0, 0, -1)));
        assert!(!hit);
    }
}

#[test]
fn triangle_ray_through_vertex_hits() {
    let tri = TriangleShape::new(v(0, 0, 0), v(0, 4, 0), v(4, 0, 0));
    let (hit, t) = tri.intersects_ray(&Ray::new(v(0, 0, 3), v(0, 0, -1)));
    assert!(hit);
    assert!(equals(t, 3, 1));
}

#[test]
fn shape_dispatch_matches_variants() {
    let ray = Ray::new(v(1, 1, 10), v(0, 0, -1));
    let tri = TriangleShape::new(v(0, 0, 0), v(0, 4, 0), v(4, 0, 0));
    let (hit, t) = Shape::Triangle(tri).intersects_ray(&ray);
    assert!(hit);
    assert!(equals(t, 10, 1));
    let (hit, t) = Shape::Box(BoxShape::new(sv(0, 0, 0), sv(2, 2, 2))).intersects_ray(&ray);
    assert!(hit);
    assert!(equals(t, 8, 1));
    let plane = PlaneShape::new(v(0, 0, 0), v(0, 0, -1));
    let (hit, t) = Shape::Plane(plane).intersects_ray(&ray);
    assert!(hit);
    assert!(equals(t, 10, 1));
}

#[test]
fn ray_keeps_vectors_and_signs() {
    let ray = Ray::new(v(1, 2, 3), v(-1, 0, 2));
    assert_eq!(ray.origin(), v(1, 2, 3));
    assert_eq!(ray.dir(), v(-1, 0, 2));
    assert!(ray.x_sign());
    assert!(!ray.y_sign());
    assert!(!ray.z_sign());
}

fn identity_view() -> ViewTransform {
    ViewTransform {
        position: v(0, 0, 0),
        right: v(1, 0, 0),
        up: v(0, 1, 0),
        back: v(0, 0, 1),
    }
}

#[test]
fn camera_center_pixel_looks_forward() {
    let ray = pixel_to_camera(320, 180, 640, 360, &identity_view());
    assert_eq!(ray.origin(), v(0, 0, 0));
    let d = ray.dir();
    let len = ((d.x * d.x + d.y * d.y + d.z * d.z) as f64).sqrt();
    let (x, y, z) = (d.x as f64 / len, d.y as f64 / len, d.z as f64 / len);
    assert!(x.abs() < 0.01);
    assert!(y.abs() < 0.01);
    assert!((z + 1.0).abs() < 0.01);
}

#[test]
fn camera_corner_pixels_span_ninety_degrees() {
    // Top-left pixel centre: x = -(639/640) * aspect, y = 359/360, z = -1, times 360.
    let ray = pixel_to_camera(0, 0, 640, 360, &identity_view());
    assert_eq!(ray.dir(), v(-639, 359, -360));
    let ray = pixel_to_camera(639, 359, 640, 360, &identity_view());
    assert_eq!(ray.dir(), v(639, -359, -360));
}

#[test]
fn camera_applies_view_axes_and_position() {
    // A camera at (3, 4, 5) turned to look along +x.
    let view = ViewTransform {
        position: v(3, 4, 5),
        right: v(0, 0, 2),
        up: v(0, 2, 0),
        back: v(-2, 0, 0),
    };
    let ray = pixel_to_camera(320, 180, 640, 360, &view);
    assert_eq!(ray.origin(), v(3, 4, 5));
    assert_eq!(ray.dir(), v(720, -2, 2));
}

#[test]
fn ray_inverse_direction() {
    let ray = Ray::new(v(0, 0, 0), v(-4, 0, 2));
    let (x, y, z) = ray.inv_dir();
    assert_eq!((x.num, x.den), (-1, 4));
    assert_eq!((y.num, y.den), (1, 0));
    assert_eq!((z.num, z.den), (1, 2));
}

#[test]
fn vector_arithmetic() {
    let a = v(1, 2, 3);
    let b = v(-4, 5, 6);
    assert_eq!(a.plus(&b), v(-3, 7, 9));
    assert_eq!(a.minus(&b), v(5, -3, -3));
    assert_eq!(a.scaled(-2), v(-2, -4, -6));
    assert_eq!(a.dot(&b), 24);
    assert_eq!(v(1, 0, 0).cross(&v(0, 1, 0)), v(0, 0, 1));
    assert_eq!(a.cross(&b), v(-3, -18, 13));
}

#[test]
fn vector_bounds() {
    assert!(v(65536, -65536, 0).is_bounded());
    assert!(!v(65537, 0, 0).is_bounded());
}

#[test]
fn box_ray_toward_center_from_side() {
    // Aimed at the centre (1, 1, 1) from (-3, 1, 1), with twice the way as direction.
    let b = BoxShape::new(sv(0, 0, 0), sv(2, 2, 2));
    let (hit, t) = b.intersects_ray(&Ray::new(v(-3, 1, 1), v(8, 0, 0)));
    assert!(hit);
    assert!(equals(t, 3, 8));
}

#[test]
fn box_ray_toward_center_oblique() {
    let b = BoxShape::new(sv(0, 0, 0), sv(4, 2, 6));
    // Centre (2, 1, 3); from (10, -5, 3) the direction is 2 * (-8, 6, 0).
    let (hit, t) = b.intersects_ray(&Ray::new(v(10, -5, 3), v(-16, 12, 0)));
    assert!(hit);
    // Enters through x = 4 at t = 6/16 and through y = 0 at t = 5/12: the later is 5/12.
    assert!(equals(t, 5, 12));
}

#[test]
fn triangle_closed_edges_hit_and_just_outside_misses() {
    let tri = TriangleShape::new(v(0, 0, 0), v(0, 4, 0), v(4, 0, 0));
    // On the edge x + y = 4: inside the closed triangle.
    let (hit, t) = tri.intersects_ray(&Ray::new(v(2, 2, 10), v(0, 0, -1)));
    assert!(hit);
    assert!(equals(t, 10, 1));
    // Just past it, through the plane at (2, 2) + (1, 0) / 10 (oblique ray).
    let (hit, _) = tri.intersects_ray(&Ray::new(v(3, 2, 10), v(-1, 0, -10)));
    assert!(hit);
    let (hit, _) = tri.intersects_ray(&Ray::new(v(3, 2, 10), v(0, 0, -10)));
    assert!(!hit);
}

#[test]
fn box_entry_is_nearest_point_in_box() {
    // Oblique ray entering through the face x = 0 at t = 2: its point (0, 1, 1).
    let b = BoxShape::new(sv(0, 0, 0), sv(4, 4, 4));
    let (hit, t) = b.intersects_ray(&Ray::new(v(-4, -1, 1), v(2, 1, 0)));
    assert!(hit);
    assert!(equals(t, 2, 1));
}
