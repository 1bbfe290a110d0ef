use vstd::arithmetic::div_mod::{
    lemma_fundamental_div_mod, lemma_fundamental_div_mod_converse, lemma_mod_bound,
};
use rayon::iter::{IndexedParallelIterator, ParallelIterator};
use vstd::prelude::*;

use crate::box_shape::opt_view;
use crate::camera::{camera_dir, pixel_to_camera, ViewTransform};
use crate::depth::{
    depth_to_intensity, farther_than, intensity, is_farther, is_nearer, len_sq_bound, nearer_than,
    range_bound,
};
use crate::vector::vdot;
use crate::ray::{rlt, small_param, Ratio, Ray};
use crate::shape::Shape;

verus! {

/// What a frame is rendered with: the viewport, its division into cells, and
/// the visible depth range `(near, far)`, distances from the camera along each ray.
#[derive(Clone, Copy, Debug)]
pub struct RenderParams {
    pub width: u32,
    pub height: u32,
    pub cells_hor: u32,
    pub cells_vert: u32,
    pub near: Ratio,
    pub far: Ratio,
}

/// Every shape of the scene is small enough for the intersection kernels.
pub open spec fn scene_bounded(scene: Seq<Shape>) -> bool {
    forall|i: int| 0 <= i < scene.len() ==> #[trigger] scene[i].bounded()
}

impl RenderParams {
    /// The parameters describe a viewport that the cells divide evenly and
    /// that the view transform fits, and a depth range of the renderer's size.
    pub open spec fn valid(&self, view: ViewTransform) -> bool {
        &&& self.grid_valid()
        &&& range_bound(self.near@)
        &&& range_bound(self.far@)
        &&& 0 < self.far.num
        &&& view.fits(self.width as int, self.height as int)
    }

    /// The viewport has the size the renderer works with, and the cell grid
    /// divides it evenly.
    pub open spec fn grid_valid(&self) -> bool {
        &&& 0 < self.width <= 0x1000
        &&& 0 < self.height <= 0x1000
        &&& 0 < self.cells_hor
        &&& 0 < self.cells_vert
        &&& self.width % self.cells_hor == 0
        &&& self.height % self.cells_vert == 0
    }

    pub open spec fn cell_width(&self) -> int {
        self.width as int / self.cells_hor as int
    }

    pub open spec fn cell_height(&self) -> int {
        self.height as int / self.cells_vert as int
    }

    pub open spec fn cell_count(&self) -> int {
        self.cells_hor * self.cells_vert
    }
}

/// The hit at `t` is closer than the best so far: nearer than `best` on the
/// same ray, or, while there is none (`None`), nearer than the far plane.
pub open spec fn closer(t: (int, int), best: Option<(int, int)>, len_sq: int, far: (int, int)) -> bool {
    match best {
        None => nearer_than(t, len_sq, far),
        Some(b) => rlt(t, b),
    }
}

/// The nearest visible hit of the ray among the shapes, scanned in order: the
/// parameter `t` of a hit farther than `near` and closer than the best so far,
/// which starts at the far plane. `None` where no hit is visible.
pub open spec fn nearest(
    scene: Seq<Shape>,
    o: (int, int, int),
    d: (int, int, int),
    near: (int, int),
    far: (int, int),
) -> Option<(int, int)>
    decreases scene.len(),
{
    if scene.len() == 0 {
        None
    } else {
        let best = nearest(scene.drop_last(), o, d, near, far);
        let s = scene.last();
        let t = s.t_spec(o, d);
        if s.hit_spec(o, d) && farther_than(t, vdot(d, d), near) && closer(t, best, vdot(d, d), far) {
            Some(t)
        } else {
            best
        }
    }
}

/// The gray level of pixel `(x, y)`: the distance of the nearest visible hit
/// along the pixel's ray, mapped by `intensity`, or 255 (the far plane) where
/// there is none.
pub open spec fn pixel_value(
    scene: Seq<Shape>,
    view: ViewTransform,
    p: RenderParams,
    x: int,
    y: int,
) -> int {
    let d = camera_dir(view, x, y, p.width as int, p.height as int);
    match nearest(scene, view.position@, d, p.near@, p.far@) {
        None => 255,
        Some(t) => intensity(t, vdot(d, d), p.far@),
    }
}

/// A pixel whose ray hits nothing in range shows the far plane's level, 255.
pub proof fn lemma_no_hit_is_far(scene: Seq<Shape>, view: ViewTransform, p: RenderParams, x: int, y: int)
    requires
        nearest(
            scene,
            view.position@,
            camera_dir(view, x, y, p.width as int, p.height as int),
            p.near@,
            p.far@,
        ) is None,
    ensures
        pixel_value(scene, view, p, x, y) == 255,
{
}

fn ratio_lt(a: Ratio, b: Ratio) -> (r: bool)
    requires
        small_param(a@),
        small_param(b@),
    ensures
        r == rlt(a@, b@),
{
    proof {
        crate::vector::lemma_mul_within(a@.0, b@.1, 0x40_0000_0000_0000, 0x40_0000_0000_0000);
        crate::vector::lemma_mul_within(b@.0, a@.1, 0x40_0000_0000_0000, 0x40_0000_0000_0000);
    }
    a.num * b.den < b.num * a.den
}

/// The squared length of a bounded ray's direction.
fn dir_len_sq(ray: &Ray) -> (r: u64)
    requires
        ray.bounded(),
    ensures
        r == vdot(ray.dir_spec()@, ray.dir_spec()@),
        len_sq_bound(r as int),
{
    let d = ray.dir();
    proof {
        crate::vector::lemma_mul_within(d@.0, d@.0, 0x10000, 0x10000);
        crate::vector::lemma_mul_within(d@.1, d@.1, 0x10000, 0x10000);
        crate::vector::lemma_mul_within(d@.2, d@.2, 0x10000, 0x10000);
        assert(0 <= d@.0 * d@.0 && 0 <= d@.1 * d@.1 && 0 <= d@.2 * d@.2) by (nonlinear_arith);
    }
    d.dot(&d) as u64
}

/// The parameter of the nearest hit of `ray` whose distance lies in
/// `(near, far)`, or `None`.
pub fn nearest_hit(scene: &Vec<Shape>, ray: &Ray, near: Ratio, far: Ratio) -> (r: Option<Ratio>)
    requires
        scene_bounded(scene@),
        ray.bounded(),
        range_bound(near@),
        range_bound(far@),
    ensures
        opt_view(r) == nearest(scene@, ray.origin_spec()@, ray.dir_spec()@, near@, far@),
        r is Some ==> small_param(r->0@) && r->0.num > 0,
{
    let len_sq = dir_len_sq(ray);
    let mut best: Option<Ratio> = None;
    let mut i: usize = 0;
    while i < scene.len()
        invariant
            i <= scene@.len(),
            scene_bounded(scene@),
            ray.bounded(),
            range_bound(near@),
            range_bound(far@),
            len_sq == vdot(ray.dir_spec()@, ray.dir_spec()@),
            len_sq_bound(len_sq as int),
            best is Some ==> small_param(best->0@) && best->0.num > 0,
            opt_view(best) == nearest(scene@.subrange(0, i as int), ray.origin_spec()@, ray.dir_spec()@, near@, far@),
        decreases scene@.len() - i,
    {
        let (hit, t) = scene[i].intersects_ray(ray);
        proof {
            assert(scene@.subrange(0, i + 1).drop_last() == scene@.subrange(0, i as int));
        }
        if hit && is_farther(t, len_sq, near) {
            let nearer = match best {
                None => is_nearer(t, len_sq, far),
                Some(b) => ratio_lt(t, b),
            };
            if nearer {
                best = Some(t);
            }
        }
        i = i + 1;
    }
    assert(scene@.subrange(0, scene@.len() as int) == scene@);
    best
}

/// The gray level of pixel `(x, y)`.
pub fn shade_pixel(scene: &Vec<Shape>, view: &ViewTransform, params: &RenderParams, x: u32, y: u32) -> (r: u8)
    requires
        scene_bounded(scene@),
        params.valid(*view),
        x < params.width,
        y < params.height,
    ensures
        r == pixel_value(scene@, *view, *params, x as int, y as int),
{
    let ray = pixel_to_camera(x, y, params.width, params.height, view);
    match nearest_hit(scene, &ray, params.near, params.far) {
        None => 255,
        Some(t) => depth_to_intensity(t, dir_len_sq(&ray), params.far),
    }
}

/// Column of the `k`-th pixel (row-major) of cell `c`.
pub open spec fn cell_pixel_x(p: RenderParams, c: int, k: int) -> int {
    k % p.cell_width() + (c % p.cells_hor as int) * p.cell_width()
}

/// Row of the `k`-th pixel (row-major) of cell `c`.
pub open spec fn cell_pixel_y(p: RenderParams, c: int, k: int) -> int {
    k / p.cell_width() + (c / p.cells_hor as int) * p.cell_height()
}

/// The cell that holds pixel `(x, y)`.
pub open spec fn cell_index(p: RenderParams, x: int, y: int) -> int {
    (y / p.cell_height()) * p.cells_hor + x / p.cell_width()
}

/// The position of pixel `(x, y)` within its cell, row-major.
pub open spec fn local_index(p: RenderParams, x: int, y: int) -> int {
    (y % p.cell_height()) * p.cell_width() + x % p.cell_width()
}

/// Channel `i` of an RGBA8 gray pixel of level `v`.
pub open spec fn pixel_byte(v: int, i: int) -> u8 {
    if i == 3 {
        255
    } else {
        v as u8
    }
}

/// The RGBA8 bytes of cell `c`, its pixels in row-major order.
pub open spec fn cell_bytes(scene: Seq<Shape>, view: ViewTransform, p: RenderParams, c: int) -> Seq<
    u8,
> {
    Seq::new(
        (p.cell_width() * p.cell_height() * 4) as nat,
        |j: int|
            pixel_byte(
                pixel_value(scene, view, p, cell_pixel_x(p, c, j / 4), cell_pixel_y(p, c, j / 4)),
                j % 4,
            ),
    )
}

/// The RGBA8 bytes of the whole frame, its pixels in row-major order.
pub open spec fn frame(scene: Seq<Shape>, view: ViewTransform, p: RenderParams) -> Seq<u8> {
    Seq::new(
        (p.width * p.height * 4) as nat,
        |j: int|
            pixel_byte(
                pixel_value(scene, view, p, (j / 4) % p.width as int, (j / 4) / p.width as int),
                j % 4,
            ),
    )
}

proof fn lemma_cell_sizes(p: RenderParams)
    requires
        p.grid_valid(),
    ensures
        p.width == p.cells_hor * p.cell_width(),
        p.height == p.cells_vert * p.cell_height(),
        0 < p.cell_width() <= p.width,
        0 < p.cell_height() <= p.height,
        0 < p.cell_count(),
        p.cell_width() * p.cell_height() <= p.width * p.height,
        p.cell_count() <= p.width * p.height,
        p.width * p.height <= 0x100_0000,
{
    let w = p.width as int;
    let h = p.height as int;
    let ch = p.cells_hor as int;
    let cv = p.cells_vert as int;
    lemma_fundamental_div_mod(w, ch);
    lemma_fundamental_div_mod(h, cv);
    let tw = p.cell_width();
    let th = p.cell_height();
    assert(0 < tw <= w) by (nonlinear_arith)
        requires
            w == ch * tw,
            0 < w,
            0 < ch,
    ;
    assert(0 < th <= h) by (nonlinear_arith)
        requires
            h == cv * th,
            0 < h,
            0 < cv,
    ;
    assert(0 < ch * cv) by (nonlinear_arith)
        requires
            0 < ch,
            0 < cv,
    ;
    assert(tw * th <= w * h) by (nonlinear_arith)
        requires
            0 < tw <= w,
            0 < th <= h,
    ;
    assert(ch * cv <= w * h) by (nonlinear_arith)
        requires
            w == ch * tw,
            h == cv * th,
            0 < tw,
            0 < th,
            0 < ch,
            0 < cv,
    ;
    assert(w * h <= 0x100_0000) by (nonlinear_arith)
        requires
            0 < w <= 0x1000,
            0 < h <= 0x1000,
    ;
}

/// The `k`-th pixel of cell `c` lies in the viewport.
proof fn lemma_cell_pixel_in_viewport(p: RenderParams, c: int, k: int)
    requires
        p.grid_valid(),
        0 <= c < p.cell_count(),
        0 <= k < p.cell_width() * p.cell_height(),
    ensures
        0 <= cell_pixel_x(p, c, k) < p.width,
        0 <= cell_pixel_y(p, c, k) < p.height,
{
    lemma_cell_sizes(p);
    let ch = p.cells_hor as int;
    let cv = p.cells_vert as int;
    let tw = p.cell_width();
    let th = p.cell_height();
    lemma_fundamental_div_mod(k, tw);
    lemma_mod_bound(k, tw);
    lemma_fundamental_div_mod(c, ch);
    lemma_mod_bound(c, ch);
    let kx = k % tw;
    let ky = k / tw;
    let cx = c % ch;
    let cy = c / ch;
    assert(0 <= ky < th) by (nonlinear_arith)
        requires
            k == tw * ky + kx,
            0 <= kx < tw,
            0 <= k < tw * th,
    ;
    assert(0 <= cy < cv) by (nonlinear_arith)
        requires
            c == ch * cy + cx,
            0 <= cx < ch,
            0 <= c < ch * cv,
    ;
    assert(0 <= kx + cx * tw < ch * tw) by (nonlinear_arith)
        requires
            0 <= kx < tw,
            0 <= cx < ch,
    ;
    assert(0 <= ky + cy * th < cv * th) by (nonlinear_arith)
        requires
            0 <= ky < th,
            0 <= cy < cv,
    ;
}

/// Pixel `(x, y)` is the `local_index`-th pixel of cell `cell_index`.
proof fn lemma_cell_round_trip(p: RenderParams, x: int, y: int)
    requires
        p.grid_valid(),
        0 <= x < p.width,
        0 <= y < p.height,
    ensures
        0 <= cell_index(p, x, y) < p.cell_count(),
        0 <= local_index(p, x, y) < p.cell_width() * p.cell_height(),
        cell_pixel_x(p, cell_index(p, x, y), local_index(p, x, y)) == x,
        cell_pixel_y(p, cell_index(p, x, y), local_index(p, x, y)) == y,
{
    lemma_cell_sizes(p);
    let ch = p.cells_hor as int;
    let cv = p.cells_vert as int;
    let tw = p.cell_width();
    let th = p.cell_height();
    lemma_fundamental_div_mod(x, tw);
    lemma_mod_bound(x, tw);
    lemma_fundamental_div_mod(y, th);
    lemma_mod_bound(y, th);
    let a = x / tw;
    let b = x % tw;
    let cy = y / th;
    let e = y % th;
    assert(0 <= a < ch) by (nonlinear_arith)
        requires
            x == tw * a + b,
            0 <= b < tw,
            0 <= x < ch * tw,
    ;
    assert(0 <= cy < cv) by (nonlinear_arith)
        requires
            y == th * cy + e,
            0 <= e < th,
            0 <= y < cv * th,
    ;
    let ci = cy * ch + a;
    let li = e * tw + b;
    assert(0 <= ci < ch * cv) by (nonlinear_arith)
        requires
            ci == cy * ch + a,
            0 <= a < ch,
            0 <= cy < cv,
    ;
    assert(0 <= li < tw * th) by (nonlinear_arith)
        requires
            li == e * tw + b,
            0 <= b < tw,
            0 <= e < th,
    ;
    lemma_fundamental_div_mod_converse(ci, ch, cy, a);
    lemma_fundamental_div_mod_converse(li, tw, e, b);
    assert(b + a * tw == x) by (nonlinear_arith)
        requires
            x == tw * a + b,
    ;
    assert(e + cy * th == y) by (nonlinear_arith)
        requires
            y == th * cy + e,
    ;
}

/// Renders one cell: for each of its pixels in row-major order, the four
/// bytes `(v, v, v, 255)` of its gray level `v`.
pub fn render_cell(scene: &Vec<Shape>, view: &ViewTransform, params: &RenderParams, cell: u32) -> (r: Vec<u8>)
    requires
        scene_bounded(scene@),
        params.valid(*view),
        cell < params.cell_count(),
    ensures
        r@ == cell_bytes(scene@, *view, *params, cell as int),
{
    proof {
        lemma_cell_sizes(*params);
    }
    let cell_w = params.width / params.cells_hor;
    let cell_h = params.height / params.cells_vert;
    let cell_x = cell % params.cells_hor;
    let cell_y = cell / params.cells_hor;
    let pixels = cell_w * cell_h;
    let ghost want = cell_bytes(scene@, *view, *params, cell as int);
    let mut out: Vec<u8> = Vec::new();
    let mut k: u32 = 0;
    while k < pixels
        invariant
            scene_bounded(scene@),
            params.valid(*view),
            cell < params.cell_count(),
            cell_w == params.cell_width(),
            cell_h == params.cell_height(),
            cell_x == cell % params.cells_hor,
            cell_y == cell / params.cells_hor,
            pixels == params.cell_width() * params.cell_height(),
            want == cell_bytes(scene@, *view, *params, cell as int),
            k <= pixels,
            out@.len() == 4 * k,
            forall|j: int| 0 <= j < 4 * k ==> out@[j] == #[trigger] want[j],
        decreases pixels - k,
    {
        proof {
            lemma_cell_pixel_in_viewport(*params, cell as int, k as int);
            lemma_cell_sizes(*params);
            lemma_fundamental_div_mod(cell as int, params.cells_hor as int);
            lemma_mod_bound(cell as int, params.cells_hor as int);
            lemma_mod_bound(k as int, cell_w as int);
            assert(cell_x * cell_w <= params.width) by (nonlinear_arith)
                requires
                    0 <= cell_x < params.cells_hor,
                    params.width == params.cells_hor * cell_w,
            ;
            assert(cell_y * cell_h <= params.height) by (nonlinear_arith)
                requires
                    cell_y == cell as int / params.cells_hor as int,
                    0 <= cell_y,
                    cell == params.cells_hor * cell_y + cell_x,
                    0 <= cell_x,
                    cell < params.cells_hor * params.cells_vert,
                    params.height == params.cells_vert * cell_h,
                    0 < cell_h,
            ;
        }
        let x = k % cell_w + cell_x * cell_w;
        let y = k / cell_w + cell_y * cell_h;
        let v = shade_pixel(scene, view, params, x, y);
        proof {
            lemma_fundamental_div_mod_converse(4 * k + 0, 4, k as int, 0);
            lemma_fundamental_div_mod_converse(4 * k + 1, 4, k as int, 1);
            lemma_fundamental_div_mod_converse(4 * k + 2, 4, k as int, 2);
            lemma_fundamental_div_mod_converse(4 * k + 3, 4, k as int, 3);
            assert(want[4 * k + 0] == v);
            assert(want[4 * k + 1] == v);
            assert(want[4 * k + 2] == v);
            assert(want[4 * k + 3] == 255);
        }
        out.push(v);
        out.push(v);
        out.push(v);
        out.push(255);
        k = k + 1;
    }
    assert(out@ =~= want);
    out
}

/// Byte `j` of the frame assembled from the cells: channel `j % 4` of pixel
/// `j / 4`, taken from the cell that holds it.
pub open spec fn merged_byte(cells: Seq<Vec<u8>>, p: RenderParams, j: int) -> u8 {
    let x = (j / 4) % p.width as int;
    let y = (j / 4) / p.width as int;
    cells[cell_index(p, x, y)]@[local_index(p, x, y) * 4 + j % 4]
}

/// Pixel `q` of a row-major `width`-wide image is at column `q % width`, row `q / width`.
proof fn lemma_pixel_in_viewport(p: RenderParams, q: int)
    requires
        p.grid_valid(),
        0 <= q < p.width * p.height,
    ensures
        0 <= q % (p.width as int) < p.width,
        0 <= q / (p.width as int) < p.height,
{
    let w = p.width as int;
    lemma_fundamental_div_mod(q, w);
    lemma_mod_bound(q, w);
    assert(0 <= q / w < p.height) by (nonlinear_arith)
        requires
            q == w * (q / w) + q % w,
            0 <= q % w < w,
            0 <= q < w * p.height,
    ;
}

/// Copies the cells into one frame: each pixel of the viewport is read from
/// the cell that covers it. Cells cover disjoint rectangles, so the frame does
/// not depend on the order in which they were computed.
pub fn merge_cells(cells: &Vec<Vec<u8>>, params: &RenderParams) -> (fb: Vec<u8>)
    requires
        params.grid_valid(),
        cells@.len() == params.cell_count(),
        forall|c: int|
            0 <= c < cells@.len() ==> (#[trigger] cells@[c])@.len() == params.cell_width()
                * params.cell_height() * 4,
    ensures
        fb@.len() == params.width * params.height * 4,
        forall|j: int| 0 <= j < fb@.len() ==> fb@[j] == #[trigger] merged_byte(cells@, *params, j),
{
    proof {
        lemma_cell_sizes(*params);
    }
    let cell_w = params.width / params.cells_hor;
    let cell_h = params.height / params.cells_vert;
    let pixels = params.width * params.height;
    let mut fb: Vec<u8> = Vec::new();
    let mut q: u32 = 0;
    while q < pixels
        invariant
            params.grid_valid(),
            cells@.len() == params.cell_count(),
            forall|c: int|
                0 <= c < cells@.len() ==> (#[trigger] cells@[c])@.len() == params.cell_width()
                    * params.cell_height() * 4,
            cell_w == params.cell_width(),
            cell_h == params.cell_height(),
            pixels == params.width * params.height,
            q <= pixels,
            fb@.len() == 4 * q,
            forall|j: int| 0 <= j < 4 * q ==> fb@[j] == #[trigger] merged_byte(cells@, *params, j),
        decreases pixels - q,
    {
        let x = q % params.width;
        let y = q / params.width;
        proof {
            lemma_pixel_in_viewport(*params, q as int);
            lemma_cell_round_trip(*params, x as int, y as int);
            lemma_cell_sizes(*params);
        }
        let c = (y / cell_h) * params.cells_hor + x / cell_w;
        let local = (y % cell_h) * cell_w + x % cell_w;
        let cell = &cells[c as usize];
        let mut i: u32 = 0;
        while i < 4
            invariant
                0 <= i <= 4,
                q < pixels,
                pixels == params.width * params.height,
                params.grid_valid(),
                c == cell_index(*params, x as int, y as int),
                local == local_index(*params, x as int, y as int),
                x == (q as int) % params.width as int,
                y == (q as int) / params.width as int,
                0 <= local < params.cell_width() * params.cell_height(),
                params.cell_width() * params.cell_height() <= 0x100_0000,
                0 <= c < cells@.len(),
                cell@ == cells@[c as int]@,
                cell@.len() == params.cell_width() * params.cell_height() * 4,
                fb@.len() == 4 * q + i,
                forall|j: int| 0 <= j < 4 * q + i ==> fb@[j] == #[trigger] merged_byte(cells@, *params, j),
            decreases 4 - i,
        {
            proof {
                lemma_fundamental_div_mod_converse(4 * q + i, 4, q as int, i as int);
            }
            fb.push(cell[(local * 4 + i) as usize]);
            i = i + 1;
        }
        q = q + 1;
    }
    fb
}

/// Computes every cell in parallel. Relies on rayon's indexed
/// `collect_into_vec`, which places the result for index `c` at position `c`;
/// each cell is computed by `render_cell`.
#[verifier::external_body]
fn render_cells(scene: &Vec<Shape>, view: &ViewTransform, params: &RenderParams, count: u32) -> (r: Vec<Vec<u8>>)
    requires
        scene_bounded(scene@),
        params.valid(*view),
        count == params.cell_count(),
    ensures
        r@.len() == count,
        forall|c: int| 0 <= c < count ==> (#[trigger] r@[c])@ == cell_bytes(scene@, *view, *params, c),
{
    let mut cells = Vec::new();
    rayon::iter::IntoParallelIterator::into_par_iter(0..count)
        .map(|c| render_cell(scene, view, params, c))
        .collect_into_vec(&mut cells);
    cells
}

/// Renders every cell, independently and in parallel: buffer `c` holds the
/// RGBA8 bytes of cell `c`, the cells numbered row by row.
pub fn render_tiles(scene: &Vec<Shape>, view: &ViewTransform, params: &RenderParams) -> (r: Vec<Vec<u8>>)
    requires
        scene_bounded(scene@),
        params.valid(*view),
    ensures
        r@.len() == params.cell_count(),
        forall|c: int|
            0 <= c < params.cell_count() ==> (#[trigger] r@[c])@ == cell_bytes(scene@, *view, *params, c),
{
    proof {
        lemma_cell_sizes(*params);
    }
    let count = params.cells_hor * params.cells_vert;
    render_cells(scene, view, params, count)
}

/// Renders a frame: the cells are computed independently and in parallel,
/// then merged. The result is the frame's RGBA8 bytes, row-major.
pub fn render_frame(scene: &Vec<Shape>, view: &ViewTransform, params: &RenderParams) -> (fb: Vec<u8>)
    requires
        scene_bounded(scene@),
        params.valid(*view),
    ensures
        fb@ == frame(scene@, *view, *params),
{
    proof {
        lemma_cell_sizes(*params);
    }
    let cells = render_tiles(scene, view, params);
    proof {
        assert forall|c: int| 0 <= c < cells@.len() implies (#[trigger] cells@[c])@.len()
            == params.cell_width() * params.cell_height() * 4 by {
            assert(cells@[c]@ == cell_bytes(scene@, *view, *params, c));
        }
    }
    let fb = merge_cells(&cells, params);
    proof {
        let want = frame(scene@, *view, *params);
        assert forall|j: int| 0 <= j < fb@.len() implies fb@[j] == want[j] by {
            let q = j / 4;
            let w = params.width as int;
            lemma_fundamental_div_mod(j, 4);
            lemma_mod_bound(j, 4);
            assert(0 <= q < params.width * params.height) by (nonlinear_arith)
                requires
                    j == 4 * q + j % 4,
                    0 <= j % 4 < 4,
                    0 <= j < params.width * params.height * 4,
            ;
            lemma_pixel_in_viewport(*params, q);
            let x = q % w;
            let y = q / w;
            lemma_cell_round_trip(*params, x, y);
            let ci = cell_index(*params, x, y);
            let li = local_index(*params, x, y);
            assert(fb@[j] == merged_byte(cells@, *params, j));
            assert(cells@[ci]@ == cell_bytes(scene@, *view, *params, ci));
            lemma_fundamental_div_mod_converse(li * 4 + j % 4, 4, li, j % 4);
            assert(0 <= li * 4 + j % 4 < params.cell_width() * params.cell_height() * 4);
        }
        assert(fb@ =~= want);
    }
    fb
}

/// Tiling does not change the image: two renders of the same scene from the
/// same view, over the same viewport and depth range, give the same frame
/// whatever the cell grids.
pub proof fn lemma_frame_independent_of_cells(
    scene: Seq<Shape>,
    view: ViewTransform,
    p1: RenderParams,
    p2: RenderParams,
)
    requires
        p1.width == p2.width,
        p1.height == p2.height,
        p1.near == p2.near,
        p1.far == p2.far,
    ensures
        frame(scene, view, p1) == frame(scene, view, p2),
{
    assert(frame(scene, view, p1) =~= frame(scene, view, p2));
}

} // verus!
