use vstd::arithmetic::mul::lemma_mul_is_distributive_add;
use vstd::prelude::*;

use crate::ray::{small_param, Ratio, Ray};
use crate::vector::{vadd, vdot, vscale, vsub, wide_dot, wide_sub, Vector};

verus! {

/// `dot(normal, dir)`: positive when the ray travels along the normal.
pub open spec fn plane_denom(normal: (int, int, int), dir: (int, int, int)) -> int {
    vdot(normal, dir)
}

/// `dot(origin - ray_origin, normal)`: the hit parameter is this over the denominator.
pub open spec fn plane_num(
    origin: (int, int, int),
    normal: (int, int, int),
    ray_origin: (int, int, int),
) -> int {
    vdot(vsub(origin, ray_origin), normal)
}

/// The one-sided plane test: the ray travels along the normal and meets the
/// plane at a parameter `t >= 0`.
pub open spec fn plane_hit(
    origin: (int, int, int),
    normal: (int, int, int),
    ray_origin: (int, int, int),
    dir: (int, int, int),
) -> bool {
    plane_denom(normal, dir) > 0 && plane_num(origin, normal, ray_origin) >= 0
}

/// A ray that runs parallel to the plane, or away from its accepted side,
/// never hits it, wherever it starts.
pub proof fn lemma_parallel_ray_misses_plane(
    origin: (int, int, int),
    normal: (int, int, int),
    ray_origin: (int, int, int),
    dir: (int, int, int),
)
    requires
        plane_denom(normal, dir) <= 0,
    ensures
        !plane_hit(origin, normal, ray_origin, dir),
{
}

/// The point at the reported parameter lies on the plane: with
/// `t = num / den`, `dot(normal, den * (ray_origin + t * dir) - den * origin) == 0`.
pub proof fn lemma_plane_hit_point_on_plane(
    origin: (int, int, int),
    normal: (int, int, int),
    ray_origin: (int, int, int),
    dir: (int, int, int),
)
    ensures
        ({
            let den = plane_denom(normal, dir);
            let num = plane_num(origin, normal, ray_origin);
            vdot(normal, vsub(vadd(vscale(den, ray_origin), vscale(num, dir)), vscale(den, origin))) == 0
        }),
{
    let den = plane_denom(normal, dir);
    let num = plane_num(origin, normal, ray_origin);
    let n = normal;
    let p = vsub(origin, ray_origin);
    let q = vsub(vadd(vscale(den, ray_origin), vscale(num, dir)), vscale(den, origin));
    assert(q.0 == num * dir.0 - den * p.0) by (nonlinear_arith)
        requires
            q.0 == den * ray_origin.0 + num * dir.0 - den * origin.0,
            p.0 == origin.0 - ray_origin.0,
    ;
    assert(q.1 == num * dir.1 - den * p.1) by (nonlinear_arith)
        requires
            q.1 == den * ray_origin.1 + num * dir.1 - den * origin.1,
            p.1 == origin.1 - ray_origin.1,
    ;
    assert(q.2 == num * dir.2 - den * p.2) by (nonlinear_arith)
        requires
            q.2 == den * ray_origin.2 + num * dir.2 - den * origin.2,
            p.2 == origin.2 - ray_origin.2,
    ;
    let (a0, a1, a2) = (n.0 * dir.0, n.1 * dir.1, n.2 * dir.2);
    let (b0, b1, b2) = (p.0 * n.0, p.1 * n.1, p.2 * n.2);
    assert(n.0 * q.0 == num * a0 - den * b0) by (nonlinear_arith)
        requires
            q.0 == num * dir.0 - den * p.0,
            a0 == n.0 * dir.0,
            b0 == p.0 * n.0,
    ;
    assert(n.1 * q.1 == num * a1 - den * b1) by (nonlinear_arith)
        requires
            q.1 == num * dir.1 - den * p.1,
            a1 == n.1 * dir.1,
            b1 == p.1 * n.1,
    ;
    assert(n.2 * q.2 == num * a2 - den * b2) by (nonlinear_arith)
        requires
            q.2 == num * dir.2 - den * p.2,
            a2 == n.2 * dir.2,
            b2 == p.2 * n.2,
    ;
    lemma_mul_is_distributive_add(num, a0 + a1, a2);
    lemma_mul_is_distributive_add(num, a0, a1);
    lemma_mul_is_distributive_add(den, b0 + b1, b2);
    lemma_mul_is_distributive_add(den, b0, b1);
    assert(vdot(n, q) == num * den - den * num);
    assert(num * den - den * num == 0) by (nonlinear_arith);
}

/// An infinite plane through `origin` facing along `dir`.
#[derive(Clone, Copy, Debug)]
pub struct PlaneShape {
    origin: Vector,
    dir: Vector,
}

impl PlaneShape {
    pub closed spec fn origin_spec(&self) -> Vector {
        self.origin
    }

    pub closed spec fn dir_spec(&self) -> Vector {
        self.dir
    }

    pub open spec fn bounded(&self) -> bool {
        self.origin_spec().bounded() && self.dir_spec().bounded()
    }

    pub fn new(origin: Vector, dir: Vector) -> (r: PlaneShape)
        ensures
            r.origin_spec() == origin,
            r.dir_spec() == dir,
    {
        PlaneShape { origin, dir }
    }

    pub fn origin(&self) -> (r: Vector)
        ensures
            r == self.origin_spec(),
    {
        self.origin
    }

    pub fn dir(&self) -> (r: Vector)
        ensures
            r == self.dir_spec(),
    {
        self.dir
    }

    /// Intersects the ray with the plane from its accepted side only.
    ///
    /// On a hit the parameter is `plane_num / plane_denom`; it is also given
    /// when the plane lies behind the ray. A ray with `plane_denom <= 0`,
    /// parallel or facing against the normal, never hits.
    pub fn intersects_ray(&self, ray: &Ray) -> (r: (bool, Ratio))
        requires
            self.bounded(),
            ray.bounded(),
        ensures
            r.0 == plane_hit(self.origin_spec()@, self.dir_spec()@, ray.origin_spec()@, ray.dir_spec()@),
            r.1.valid(),
            small_param(r.1@),
            plane_denom(self.dir_spec()@, ray.dir_spec()@) > 0 ==> r.1@ == (
                plane_num(self.origin_spec()@, self.dir_spec()@, ray.origin_spec()@),
                plane_denom(self.dir_spec()@, ray.dir_spec()@),
            ),
    {
        let l = Ghost(0x10000int);
        let normal = self.dir.widen();
        let denom = wide_dot(normal, ray.dir().widen(), l, l);
        if denom > 0 {
            let centered = wide_sub(self.origin.widen(), ray.origin().widen(), l, l);
            let t = wide_dot(centered, normal, Ghost(0x20000int), l);
            return (t >= 0, Ratio::new(t, denom));
        }
        (false, Ratio::new(0, 1))
    }
}

} // verus!
