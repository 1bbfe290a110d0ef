use rraayy::box_shape::BoxShape;
use rraayy::camera::{pixel_to_camera, ViewTransform};
use rraayy::ray::{Ratio, Ray};
use rraayy::depth::depth_to_intensity;
use rraayy::render::{
    merge_cells, nearest_hit, render_cell, render_frame, shade_pixel,
    RenderParams,
};
use rraayy::shape::Shape;
use rraayy::triangle_shape::TriangleShape;
use rraayy::vector::{SteppedVector, Vector};

fn v(x: i64, y: i64, z: i64) -> Vector {
    Vector::new(x, y, z)
}

fn sv(x: i32, y: i32, z: i32) -> SteppedVector {
    SteppedVector::new(x, y, z)
}

fn scene() -> Vec<Shape> {
    vec![
        Shape::Box(BoxShape::new(sv(-5, 0, -30), sv(5, 10, -20))),
        Shape::Box(BoxShape::new(sv(-50, -1, -50), sv(350, 0, 350))),
        Shape::Triangle(TriangleShape::new(v(15, 10, -20), v(5, 0, -20), v(5, 10, -20))),
    ]
}

fn view() -> ViewTransform {
    ViewTransform {
        position: v(0, 5, 0),
        right: v(1, 0, 0),
        up: v(0, 1, 0),
        back: v(0, 0, 1),
    }
}

fn params(cells_hor: u32, cells_vert: u32) -> RenderParams {
    RenderParams {
        width: 64,
        height: 32,
        cells_hor,
        cells_vert,
        near: Ratio::new(1, 10),
        far: Ratio::new(500, 1),
    }
}

#[test]
fn depth_at_far_is_white() {
    let far = Ratio::new(500, 1);
    assert_eq!(depth_to_intensity(Ratio::new(500, 1), 1, far), 255);
    assert_eq!(depth_to_intensity(Ratio::new(1000, 2), 1, far), 255);
    // Direction of length 5: distance 100 * 5.
    assert_eq!(depth_to_intensity(Ratio::new(100, 1), 25, far), 255);
}

#[test]
fn depth_at_zero_is_black() {
    assert_eq!(depth_to_intensity(Ratio::new(0, 1), 1, Ratio::new(500, 1)), 0);
}

#[test]
fn depth_maps_linearly_and_rounds_down() {
    let far = Ratio::new(500, 1);
    assert_eq!(depth_to_intensity(Ratio::new(250, 1), 1, far), 127);
    assert_eq!(depth_to_intensity(Ratio::new(100, 1), 1, far), 51);
    assert_eq!(depth_to_intensity(Ratio::new(1, 10), 1, far), 0);
    // Distance 1 * 250 along a direction of length 250.
    assert_eq!(depth_to_intensity(Ratio::new(1, 1), 62500, far), 127);
}

#[test]
fn depth_uses_exact_square_root() {
    // Distance sqrt(2): 255 * 1.41421... / 2 = 180.31...
    assert_eq!(depth_to_intensity(Ratio::new(1, 1), 2, Ratio::new(2, 1)), 180);
    // Distance 3 * sqrt(3) = 5.196...: 255 * 5.196 / 10 = 132.5...
    assert_eq!(depth_to_intensity(Ratio::new(3, 1), 3, Ratio::new(10, 1)), 132);
}

#[test]
fn depth_out_of_range_is_clamped() {
    let far = Ratio::new(500, 1);
    assert_eq!(depth_to_intensity(Ratio::new(600, 1), 1, far), 255);
    assert_eq!(depth_to_intensity(Ratio::new(-3, 1), 1, far), 0);
}

#[test]
fn no_hit_shows_far_plane() {
    let empty: Vec<Shape> = Vec::new();
    assert_eq!(shade_pixel(&empty, &view(), &params(1, 1), 10, 10), 255);
    let frame = render_frame(&empty, &view(), &params(4, 4));
    assert!(frame.iter().all(|&b| b == 255));
}

fn value(t: Option<Ratio>) -> Option<f64> {
    t.map(|r| r.num as f64 / r.den as f64)
}

#[test]
fn nearest_hit_keeps_closest_in_range() {
    let shapes = vec![
        Shape::Box(BoxShape::new(sv(-1, -1, -20), sv(1, 1, -18))),
        Shape::Box(BoxShape::new(sv(-1, -1, -10), sv(1, 1, -8))),
        Shape::Box(BoxShape::new(sv(-1, -1, -30), sv(1, 1, -28))),
    ];
    let ray = Ray::new(v(0, 0, 0), v(0, 0, -1));
    let best = nearest_hit(&shapes, &ray, Ratio::new(0, 1), Ratio::new(100, 1));
    assert_eq!(value(best), Some(8.0));
    // A near plane beyond the first box leaves the next one.
    let best = nearest_hit(&shapes, &ray, Ratio::new(9, 1), Ratio::new(100, 1));
    assert_eq!(value(best), Some(18.0));
    // Nothing before the far plane.
    let best = nearest_hit(&shapes, &ray, Ratio::new(0, 1), Ratio::new(5, 1));
    assert!(best.is_none());
}

#[test]
fn nearest_hit_measures_distance_along_ray() {
    let shapes = vec![Shape::Box(BoxShape::new(sv(-1, -1, -10), sv(1, 1, -8)))];
    // Direction of length 4: the box is at t = 2, distance 8.
    let ray = Ray::new(v(0, 0, 0), v(0, 0, -4));
    assert_eq!(value(nearest_hit(&shapes, &ray, Ratio::new(0, 1), Ratio::new(100, 1))), Some(2.0));
    assert!(nearest_hit(&shapes, &ray, Ratio::new(0, 1), Ratio::new(8, 1)).is_none());
    assert!(nearest_hit(&shapes, &ray, Ratio::new(8, 1), Ratio::new(100, 1)).is_none());
    assert!(nearest_hit(&shapes, &ray, Ratio::new(79, 10), Ratio::new(81, 10)).is_some());
}

#[test]
fn nearest_hit_ignores_hits_behind_origin() {
    let shapes = vec![Shape::Box(BoxShape::new(sv(-1, -1, -1), sv(1, 1, 1)))];
    let ray = Ray::new(v(0, 0, 0), v(0, 0, -1));
    let best = nearest_hit(&shapes, &ray, Ratio::new(1, 10), Ratio::new(100, 1));
    assert!(best.is_none());
}

#[test]
fn rendering_twice_is_identical() {
    let a = render_frame(&scene(), &view(), &params(4, 4));
    let b = render_frame(&scene(), &view(), &params(4, 4));
    assert_eq!(a, b);
    assert_eq!(a.len(), 64 * 32 * 4);
}

#[test]
fn one_cell_and_sixteen_cells_give_same_frame() {
    let one = render_frame(&scene(), &view(), &params(1, 1));
    let sixteen = render_frame(&scene(), &view(), &params(4, 4));
    assert_eq!(one, sixteen);
    let other = render_frame(&scene(), &view(), &params(8, 2));
    assert_eq!(one, other);
    // The scene is visible: not every pixel shows the far plane.
    assert!(one.chunks(4).any(|p| p[0] < 255));
}

#[test]
fn frame_pixels_are_gray_and_opaque() {
    let frame = render_frame(&scene(), &view(), &params(2, 2));
    for p in frame.chunks(4) {
        assert_eq!(p[0], p[1]);
        assert_eq!(p[1], p[2]);
        assert_eq!(p[3], 255);
    }
}

#[test]
fn frame_matches_shade_pixel() {
    let p = params(4, 2);
    let frame = render_frame(&scene(), &view(), &p);
    for (x, y) in [(0u32, 0u32), (31, 15), (32, 20), (63, 31), (10, 25)] {
        let i = ((y * 64 + x) * 4) as usize;
        assert_eq!(frame[i], shade_pixel(&scene(), &view(), &p, x, y));
    }
}

#[test]
fn cell_buffer_covers_its_rectangle() {
    let p = params(4, 4);
    let cell = render_cell(&scene(), &view(), &p, 5);
    assert_eq!(cell.len(), 16 * 8 * 4);
    // Cell 5 is column 1, row 1: its first pixel is (16, 8).
    assert_eq!(cell[0], shade_pixel(&scene(), &view(), &p, 16, 8));
    // Its last pixel is (31, 15).
    assert_eq!(cell[16 * 8 * 4 - 4], shade_pixel(&scene(), &view(), &p, 31, 15));
}

#[test]
fn merge_places_cells_in_their_rectangles() {
    // A 2 x 2 viewport split into two columns of one pixel each.
    let p = RenderParams {
        width: 2,
        height: 2,
        cells_hor: 2,
        cells_vert: 1,
        near: Ratio::new(1, 10),
        far: Ratio::new(500, 1),
    };
    let left = vec![1, 1, 1, 255, 3, 3, 3, 255];
    let right = vec![2, 2, 2, 255, 4, 4, 4, 255];
    let frame = merge_cells(&vec![left, right], &p);
    assert_eq!(frame, vec![1, 1, 1, 255, 2, 2, 2, 255, 3, 3, 3, 255, 4, 4, 4, 255]);
}

#[test]
fn box_straight_ahead_has_expected_level() {
    // Camera at the origin looking down -z at a wall 100 units away; the
    // central pixels' rays are almost axial, so their depth is 100: 255 * 100 / 500 = 51.
    let shapes = vec![Shape::Box(BoxShape::new(sv(-1000, -1000, -101), sv(1000, 1000, -100)))];
    let view = ViewTransform {
        position: v(0, 0, 0),
        right: v(1, 0, 0),
        up: v(0, 1, 0),
        back: v(0, 0, 1),
    };
    let ray = pixel_to_camera(32, 16, 64, 32, &view);
    assert_eq!(ray.dir(), v(1, -1, -32));
    assert_eq!(shade_pixel(&shapes, &view, &params(1, 1), 32, 16), 51);
}

#[test]
fn off_centre_pixels_use_distance_along_ray() {
    // A wall 100 units away: a pixel at the left edge sees it farther than
    // the centre does, by the length of its ray to the wall.
    let shapes = vec![Shape::Box(BoxShape::new(sv(-1000, -1000, -101), sv(1000, 1000, -100)))];
    for (x, y) in [(0u32, 16u32), (63, 0), (10, 31)] {
        let d = pixel_to_camera(x, y, 64, 32, &view_at_origin()).dir();
        let len = ((d.x * d.x + d.y * d.y + d.z * d.z) as f64).sqrt();
        let distance = 100.0 / (-d.z as f64) * len;
        let expected = (255.0 * distance / 500.0).floor() as u8;
        assert_eq!(shade_pixel(&shapes, &view_at_origin(), &params(1, 1), x, y), expected);
    }
    let left = shade_pixel(&shapes, &view_at_origin(), &params(1, 1), 0, 16);
    let centre = shade_pixel(&shapes, &view_at_origin(), &params(1, 1), 32, 16);
    assert!(left > centre);
}

fn view_at_origin() -> ViewTransform {
    ViewTransform {
        position: v(0, 0, 0),
        right: v(1, 0, 0),
        up: v(0, 1, 0),
        back: v(0, 0, 1),
    }
}

#[test]
fn tiles_are_numbered_row_by_row() {
    let p = params(4, 2);
    let tiles = rraayy::render::render_tiles(&scene(), &view(), &p);
    assert_eq!(tiles.len(), 8);
    for (c, tile) in tiles.iter().enumerate() {
        assert_eq!(tile, &render_cell(&scene(), &view(), &p, c as u32));
        assert_eq!(tile.len(), 16 * 16 * 4);
    }
    let frame = render_frame(&scene(), &view(), &p);
    assert_eq!(merge_cells(&tiles, &p), frame);
}
