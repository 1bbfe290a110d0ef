use vstd::arithmetic::div_mod::{lemma_fundamental_div_mod, lemma_mod_pos_bound};
use vstd::prelude::*;

use crate::ray::Ray;
use crate::vector::{lemma_mul_within, vadd, vscale, within, Vector, LIMIT};

verus! {

/// The camera-to-world transform: the camera's position and its three axes
/// in world space, of equal length.
///
/// The camera looks along `-back`; `right` and `up` span the image plane.
#[derive(Clone, Copy, Debug)]
pub struct ViewTransform {
    pub position: Vector,
    pub right: Vector,
    pub up: Vector,
    pub back: Vector,
}

/// The largest axis component for which every camera ray of a
/// `width` x `height` viewport stays within `LIMIT`.
pub open spec fn axis_limit(width: int, height: int) -> int {
    LIMIT as int / (width + 2 * height)
}

/// The camera-space direction of the centre of pixel `(x, y)` for a 90 degree
/// field of view, scaled by `height` so that it is integral:
/// `height * (aspect * (2 (x + 0.5) / width - 1), 1 - 2 (y + 0.5) / height, -1)`.
pub open spec fn local_dir(x: int, y: int, width: int, height: int) -> (int, int, int) {
    (2 * x + 1 - width, height - 2 * y - 1, -height)
}

/// The world-space direction of the ray through the centre of pixel `(x, y)`.
pub open spec fn camera_dir(view: ViewTransform, x: int, y: int, width: int, height: int) -> (
    int,
    int,
    int,
) {
    let l = local_dir(x, y, width, height);
    vadd(vadd(vscale(l.0, view.right@), vscale(l.1, view.up@)), vscale(l.2, view.back@))
}

impl ViewTransform {
    /// The transform is small enough for every camera ray of the viewport to
    /// be exact and bounded.
    pub open spec fn fits(&self, width: int, height: int) -> bool {
        &&& self.position.bounded()
        &&& within(self.right@, axis_limit(width, height))
        &&& within(self.up@, axis_limit(width, height))
        &&& within(self.back@, axis_limit(width, height))
    }
}

proof fn lemma_axis_limit(width: int, height: int)
    requires
        0 < width,
        0 < height,
    ensures
        0 <= axis_limit(width, height),
        width * axis_limit(width, height) + 2 * (height * axis_limit(width, height)) <= LIMIT,
{
    let m = width + 2 * height;
    let k = axis_limit(width, height);
    lemma_fundamental_div_mod(LIMIT as int, m);
    lemma_mod_pos_bound(LIMIT as int, m);
    assert(width * k + 2 * (height * k) == m * k) by (nonlinear_arith)
        requires
            m == width + 2 * height,
    ;
    assert(0 <= k) by (nonlinear_arith)
        requires
            m * k + LIMIT as int % m == LIMIT as int,
            0 <= LIMIT as int % m < m,
            0 < m,
    ;
}

/// `a * p + b * q + c * s` with `|a| <= width`, `|b|, |c| <= height` and the
/// other factors within the axis limit.
fn combine(a: i64, p: i64, b: i64, q: i64, c: i64, s: i64, Ghost(width): Ghost<int>, Ghost(height): Ghost<int>) -> (r: i64)
    requires
        0 < width <= 0x10000,
        0 < height <= 0x10000,
        -width <= a <= width,
        -height <= b <= height,
        -height <= c <= height,
        -axis_limit(width, height) <= p <= axis_limit(width, height),
        -axis_limit(width, height) <= q <= axis_limit(width, height),
        -axis_limit(width, height) <= s <= axis_limit(width, height),
    ensures
        r == a * p + b * q + c * s,
        -LIMIT <= r <= LIMIT,
{
    let ghost k = axis_limit(width, height);
    proof {
        lemma_axis_limit(width, height);
        lemma_mul_within(a as int, p as int, width, k);
        lemma_mul_within(b as int, q as int, height, k);
        lemma_mul_within(c as int, s as int, height, k);
    }
    a * p + b * q + c * s
}

/// The ray from the camera through the centre of pixel `(x, y)` of a
/// `width` x `height` viewport with a 90 degree vertical field of view.
///
/// Its direction is `camera_dir`, not normalised: the distance of a hit at
/// parameter `t` is `t` times the direction's length.
pub fn pixel_to_camera(x: u32, y: u32, width: u32, height: u32, view: &ViewTransform) -> (r: Ray)
    requires
        x < width <= 0x10000,
        y < height <= 0x10000,
        view.fits(width as int, height as int),
    ensures
        r.origin_spec() == view.position,
        r.dir_spec()@ == camera_dir(*view, x as int, y as int, width as int, height as int),
        r.bounded(),
        r.wf(),
{
    let w = width as i64;
    let h = height as i64;
    let lx = 2 * (x as i64) + 1 - w;
    let ly = h - 2 * (y as i64) - 1;
    let lz = -h;
    let gw = Ghost(width as int);
    let gh = Ghost(height as int);
    let dir = Vector::new(
        combine(lx, view.right.x, ly, view.up.x, lz, view.back.x, gw, gh),
        combine(lx, view.right.y, ly, view.up.y, lz, view.back.y, gw, gh),
        combine(lx, view.right.z, ly, view.up.z, lz, view.back.z, gw, gh),
    );
    Ray::new(view.position, dir)
}

} // verus!
