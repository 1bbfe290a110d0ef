use vstd::prelude::*;

use crate::plane_shape::lemma_plane_hit_point_on_plane;
use crate::ray::{small_param, Ratio, Ray};
use crate::vector::{
    vadd, vcross, vdot, vscale, vsub, wide_add, wide_cross, wide_dot, wide_scale, wide_sub, Vector,
    Wide,
};

verus! {

/// The (unnormalised) normal `cross(b - a, c - a)`.
pub open spec fn tri_normal(a: (int, int, int), b: (int, int, int), c: (int, int, int)) -> (
    int,
    int,
    int,
) {
    vcross(vsub(b, a), vsub(c, a))
}

/// Denominator of the plane parameter: `dot(normal, dir)`.
pub open spec fn tri_denom(
    a: (int, int, int),
    b: (int, int, int),
    c: (int, int, int),
    dir: (int, int, int),
) -> int {
    vdot(tri_normal(a, b, c), dir)
}

/// Numerator of the plane parameter: `dot(a - ray_origin, normal)`.
pub open spec fn tri_num(
    a: (int, int, int),
    b: (int, int, int),
    c: (int, int, int),
    ray_origin: (int, int, int),
) -> int {
    vdot(vsub(a, ray_origin), tri_normal(a, b, c))
}

/// The point where the ray meets the plane, multiplied by the denominator:
/// `denom * ray_origin + num * dir`.
pub open spec fn tri_scaled_point(
    a: (int, int, int),
    b: (int, int, int),
    c: (int, int, int),
    ray_origin: (int, int, int),
    dir: (int, int, int),
) -> (int, int, int) {
    vadd(
        vscale(tri_denom(a, b, c, dir), ray_origin),
        vscale(tri_num(a, b, c, ray_origin), dir),
    )
}

/// The scaled point `p / scale` lies on the inner side of the edge `u -> v`:
/// `dot(normal, cross(v - u, p / scale - u)) >= 0`, with `scale > 0` multiplied out.
pub open spec fn edge_inside(
    normal: (int, int, int),
    u: (int, int, int),
    v: (int, int, int),
    p: (int, int, int),
    scale: int,
) -> bool {
    vdot(normal, vcross(vsub(v, u), vsub(p, vscale(scale, u)))) >= 0
}

/// The ray meets the triangle's plane from the accepted side at `t >= 0`,
/// and the point lies inside all three edges.
pub open spec fn triangle_hit(
    a: (int, int, int),
    b: (int, int, int),
    c: (int, int, int),
    ray_origin: (int, int, int),
    dir: (int, int, int),
) -> bool {
    let n = tri_normal(a, b, c);
    let den = tri_denom(a, b, c, dir);
    let p = tri_scaled_point(a, b, c, ray_origin, dir);
    &&& den > 0
    &&& tri_num(a, b, c, ray_origin) >= 0
    &&& edge_inside(n, a, b, p, den)
    &&& edge_inside(n, b, c, p, den)
    &&& edge_inside(n, c, a, p, den)
}

/// The point at the reported parameter lies on the triangle's plane:
/// `dot(normal, tri_scaled_point - denom * a) == 0`.
pub proof fn lemma_triangle_hit_point_on_plane(
    a: (int, int, int),
    b: (int, int, int),
    c: (int, int, int),
    ray_origin: (int, int, int),
    dir: (int, int, int),
)
    ensures
        vdot(
            tri_normal(a, b, c),
            vsub(
                tri_scaled_point(a, b, c, ray_origin, dir),
                vscale(tri_denom(a, b, c, dir), a),
            ),
        ) == 0,
{
    lemma_plane_hit_point_on_plane(a, tri_normal(a, b, c), ray_origin, dir);
}

/// Component `i` of a triple.
pub open spec fn tri_get(v: (int, int, int), i: int) -> int {
    if i == 0 {
        v.0
    } else if i == 1 {
        v.1
    } else {
        v.2
    }
}

/// `cross(u, beta * u + gamma * v) == gamma * cross(u, v)`.
proof fn lemma_cross_combo(u: (int, int, int), v: (int, int, int), beta: int, gamma: int, w: (int, int, int))
    requires
        w == (beta * u.0 + gamma * v.0, beta * u.1 + gamma * v.1, beta * u.2 + gamma * v.2),
    ensures
        vcross(u, w) == vscale(gamma, vcross(u, v)),
{
    assert(u.1 * w.2 - u.2 * w.1 == gamma * (u.1 * v.2 - u.2 * v.1)) by (nonlinear_arith)
        requires
            w.1 == beta * u.1 + gamma * v.1,
            w.2 == beta * u.2 + gamma * v.2,
    ;
    assert(u.2 * w.0 - u.0 * w.2 == gamma * (u.2 * v.0 - u.0 * v.2)) by (nonlinear_arith)
        requires
            w.0 == beta * u.0 + gamma * v.0,
            w.2 == beta * u.2 + gamma * v.2,
    ;
    assert(u.0 * w.1 - u.1 * w.0 == gamma * (u.0 * v.1 - u.1 * v.0)) by (nonlinear_arith)
        requires
            w.0 == beta * u.0 + gamma * v.0,
            w.1 == beta * u.1 + gamma * v.1,
    ;
}

/// `dot(n, k * n) == k * dot(n, n)`, and its sign is that of `k` when `n != 0`.
proof fn lemma_dot_scaled_self(n: (int, int, int), k: int)
    requires
        n != (0int, 0int, 0int),
    ensures
        (vdot(n, vscale(k, n)) >= 0) == (k >= 0),
{
    assert(vdot(n, vscale(k, n)) == k * vdot(n, n)) by (nonlinear_arith);
    assert(vdot(n, n) > 0) by (nonlinear_arith)
        requires
            n != (0int, 0int, 0int),
    ;
    assert((k * vdot(n, n) >= 0) == (k >= 0)) by (nonlinear_arith)
        requires
            vdot(n, n) > 0,
    ;
}

/// The edge tests are the barycentric bounds of the closed triangle: where
/// the scaled hit point is `denom * a + beta * (b - a) + gamma * (c - a)`
/// (the point `a + (beta * (b - a) + gamma * (c - a)) / denom` on the plane),
/// the ray hits exactly when the plane test passes and `beta >= 0`,
/// `gamma >= 0`, `beta + gamma <= denom`. So a ray whose plane point lies
/// outside the closed triangle misses.
pub proof fn lemma_triangle_hit_iff_inside(
    a: (int, int, int),
    b: (int, int, int),
    c: (int, int, int),
    ray_origin: (int, int, int),
    dir: (int, int, int),
    beta: int,
    gamma: int,
)
    requires
        tri_denom(a, b, c, dir) > 0,
        vsub(tri_scaled_point(a, b, c, ray_origin, dir), vscale(tri_denom(a, b, c, dir), a)) == vadd(
            vscale(beta, vsub(b, a)),
            vscale(gamma, vsub(c, a)),
        ),
    ensures
        triangle_hit(a, b, c, ray_origin, dir) == (tri_num(a, b, c, ray_origin) >= 0 && beta >= 0
            && gamma >= 0 && beta + gamma <= tri_denom(a, b, c, dir)),
{
    let n = tri_normal(a, b, c);
    let den = tri_denom(a, b, c, dir);
    let p = tri_scaled_point(a, b, c, ray_origin, dir);
    let u = vsub(b, a);
    let v = vsub(c, a);
    assert(n != (0int, 0int, 0int)) by (nonlinear_arith)
        requires
            den == n.0 * dir.0 + n.1 * dir.1 + n.2 * dir.2,
            den > 0,
    ;
    // Edge a -> b.
    let qa = vsub(p, vscale(den, a));
    lemma_cross_combo(u, v, beta, gamma, qa);
    lemma_dot_scaled_self(n, gamma);
    // Edge c -> a: the point relative to c is (den - gamma) * (a - c) + beta * (b - a).
    let qc = vsub(p, vscale(den, c));
    let mv = vsub(a, c);
    let kc = den - gamma;
    assert forall|i: int| 0 <= i < 3 implies #[trigger] tri_get(qc, i) == kc * tri_get(mv, i) + beta
        * tri_get(u, i) by {
        let (qci, qai, ui, vi, mvi, ai, bi, ci, pi) = (
            tri_get(qc, i),
            tri_get(qa, i),
            tri_get(u, i),
            tri_get(v, i),
            tri_get(mv, i),
            tri_get(a, i),
            tri_get(b, i),
            tri_get(c, i),
            tri_get(p, i),
        );
        assert(qci == kc * mvi + beta * ui) by (nonlinear_arith)
            requires
                qai == beta * ui + gamma * vi,
                qai == pi - den * ai,
                qci == pi - den * ci,
                ui == bi - ai,
                vi == ci - ai,
                mvi == ai - ci,
                kc == den - gamma,
        ;
    }
    assert(qc == (kc * mv.0 + beta * u.0, kc * mv.1 + beta * u.1, kc * mv.2 + beta * u.2)) by {
        assert(tri_get(qc, 0) == kc * tri_get(mv, 0) + beta * tri_get(u, 0));
        assert(tri_get(qc, 1) == kc * tri_get(mv, 1) + beta * tri_get(u, 1));
        assert(tri_get(qc, 2) == kc * tri_get(mv, 2) + beta * tri_get(u, 2));
    }
    lemma_cross_combo(mv, u, den - gamma, beta, qc);
    assert(vcross(mv, u) == n) by (nonlinear_arith)
        requires
            mv == (a.0 - c.0, a.1 - c.1, a.2 - c.2),
            u == (b.0 - a.0, b.1 - a.1, b.2 - a.2),
            n == vcross((b.0 - a.0, b.1 - a.1, b.2 - a.2), (c.0 - a.0, c.1 - a.1, c.2 - a.2)),
    ;
    lemma_dot_scaled_self(n, beta);
    // Edge b -> c: the point relative to b is (beta + gamma - den) * u + gamma * (c - b),
    // and cross(c - b, u) == -n.
    let qb = vsub(p, vscale(den, b));
    let cb = vsub(c, b);
    let kb = beta + gamma - den;
    assert forall|i: int| 0 <= i < 3 implies #[trigger] tri_get(qb, i) == kb * tri_get(u, i) + gamma
        * tri_get(cb, i) by {
        let (qbi, qai, ui, vi, cbi, ai, bi, ci, pi) = (
            tri_get(qb, i),
            tri_get(qa, i),
            tri_get(u, i),
            tri_get(v, i),
            tri_get(cb, i),
            tri_get(a, i),
            tri_get(b, i),
            tri_get(c, i),
            tri_get(p, i),
        );
        assert(qbi == kb * ui + gamma * cbi) by (nonlinear_arith)
            requires
                qai == beta * ui + gamma * vi,
                qai == pi - den * ai,
                qbi == pi - den * bi,
                ui == bi - ai,
                vi == ci - ai,
                cbi == ci - bi,
                kb == beta + gamma - den,
        ;
    }
    assert(qb == (kb * u.0 + gamma * cb.0, kb * u.1 + gamma * cb.1, kb * u.2 + gamma * cb.2)) by {
        assert(tri_get(qb, 0) == kb * tri_get(u, 0) + gamma * tri_get(cb, 0));
        assert(tri_get(qb, 1) == kb * tri_get(u, 1) + gamma * tri_get(cb, 1));
        assert(tri_get(qb, 2) == kb * tri_get(u, 2) + gamma * tri_get(cb, 2));
    }
    lemma_cross_combo(cb, u, gamma, kb, qb);
    let m = vcross(cb, u);
    assert(m.0 == -n.0) by (nonlinear_arith)
        requires
            m == vcross(cb, u),
            cb == (c.0 - b.0, c.1 - b.1, c.2 - b.2),
            u == (b.0 - a.0, b.1 - a.1, b.2 - a.2),
            n == vcross((b.0 - a.0, b.1 - a.1, b.2 - a.2), (c.0 - a.0, c.1 - a.1, c.2 - a.2)),
    ;
    assert(m.1 == -n.1) by (nonlinear_arith)
        requires
            m == vcross(cb, u),
            cb == (c.0 - b.0, c.1 - b.1, c.2 - b.2),
            u == (b.0 - a.0, b.1 - a.1, b.2 - a.2),
            n == vcross((b.0 - a.0, b.1 - a.1, b.2 - a.2), (c.0 - a.0, c.1 - a.1, c.2 - a.2)),
    ;
    assert(m.2 == -n.2) by (nonlinear_arith)
        requires
            m == vcross(cb, u),
            cb == (c.0 - b.0, c.1 - b.1, c.2 - b.2),
            u == (b.0 - a.0, b.1 - a.1, b.2 - a.2),
            n == vcross((b.0 - a.0, b.1 - a.1, b.2 - a.2), (c.0 - a.0, c.1 - a.1, c.2 - a.2)),
    ;
    let r = vscale(kb, m);
    assert(r.0 == (den - beta - gamma) * n.0 && r.1 == (den - beta - gamma) * n.1 && r.2 == (den
        - beta - gamma) * n.2) by (nonlinear_arith)
        requires
            r == (kb * m.0, kb * m.1, kb * m.2),
            m.0 == -n.0,
            m.1 == -n.1,
            m.2 == -n.2,
            kb == beta + gamma - den,
    ;
    assert(r == vscale(den - beta - gamma, n));
    lemma_dot_scaled_self(n, den - beta - gamma);
}

/// A triangle with vertices `a`, `b`, `c`, facing along `cross(b - a, c - a)`.
#[derive(Clone, Copy, Debug)]
pub struct TriangleShape {
    a: Vector,
    b: Vector,
    c: Vector,
}

/// Bound on the components of a scaled hit point (`9 * 2^67`).
spec fn point_bound() -> int {
    9int * 0x8_0000_0000_0000_0000
}

fn edge_test(normal: Wide, u: Wide, v: Wide, p: Wide, scale: i128) -> (r: bool)
    requires
        crate::vector::within(normal@, 0x8_0000_0000),
        crate::vector::within(u@, 0x10000),
        crate::vector::within(v@, 0x10000),
        crate::vector::within(p@, point_bound()),
        -(3 * 0x8_0000_0000_0000) <= scale <= 3 * 0x8_0000_0000_0000,
    ensures
        r == edge_inside(normal@, u@, v@, p@, scale as int),
{
    let e = wide_sub(v, u, Ghost(0x10000int), Ghost(0x10000int));
    let su = wide_scale(scale, u, Ghost(3 * 0x8_0000_0000_0000int), Ghost(0x10000int));
    let q = wide_sub(p, su, Ghost(point_bound()), Ghost(3 * 0x8_0000_0000_0000_0000int));
    let cr = wide_cross(e, q, Ghost(0x20000int), Ghost(3 * 0x20_0000_0000_0000_0000int));
    let s = wide_dot(
        normal,
        cr,
        Ghost(0x8_0000_0000int),
        Ghost(3 * 0x80_0000_0000_0000_0000_0000int),
    );
    s >= 0
}

impl TriangleShape {
    pub closed spec fn a_spec(&self) -> Vector {
        self.a
    }

    pub closed spec fn b_spec(&self) -> Vector {
        self.b
    }

    pub closed spec fn c_spec(&self) -> Vector {
        self.c
    }

    pub open spec fn bounded(&self) -> bool {
        self.a_spec().bounded() && self.b_spec().bounded() && self.c_spec().bounded()
    }

    pub fn new(a: Vector, b: Vector, c: Vector) -> (r: TriangleShape)
        ensures
            r.a_spec() == a,
            r.b_spec() == b,
            r.c_spec() == c,
    {
        TriangleShape { a, b, c }
    }

    /// Intersects the ray with the triangle: the one-sided plane test against
    /// the triangle's plane, then the same-side test against each edge.
    /// On a hit the parameter is `tri_num / tri_denom`.
    pub fn intersects_ray(&self, ray: &Ray) -> (r: (bool, Ratio))
        requires
            self.bounded(),
            ray.bounded(),
        ensures
            r.0 == triangle_hit(
                self.a_spec()@,
                self.b_spec()@,
                self.c_spec()@,
                ray.origin_spec()@,
                ray.dir_spec()@,
            ),
            r.1.valid(),
            small_param(r.1@),
            r.0 ==> r.1@ == (
                tri_num(self.a_spec()@, self.b_spec()@, self.c_spec()@, ray.origin_spec()@),
                tri_denom(self.a_spec()@, self.b_spec()@, self.c_spec()@, ray.dir_spec()@),
            ),
    {
        let l = Ghost(0x10000int);
        let a = self.a.widen();
        let b = self.b.widen();
        let c = self.c.widen();
        let ro = ray.origin().widen();
        let d = ray.dir().widen();

        let ab = wide_sub(b, a, l, l);
        let ac = wide_sub(c, a, l, l);
        let normal = wide_cross(ab, ac, Ghost(0x20000int), Ghost(0x20000int));
        let denom = wide_dot(normal, d, Ghost(0x8_0000_0000int), l);
        if denom <= 0 {
            return (false, Ratio::new(0, 1));
        }
        let to_a = wide_sub(a, ro, l, l);
        let t = wide_dot(to_a, normal, Ghost(0x20000int), Ghost(0x8_0000_0000int));
        if t < 0 {
            return (false, Ratio::new(0, 1));
        }
        let p = wide_add(
            wide_scale(denom, ro, Ghost(3 * 0x8_0000_0000_0000int), l),
            wide_scale(t, d, Ghost(3 * 0x10_0000_0000_0000int), l),
            Ghost(3 * 0x8_0000_0000_0000_0000int),
            Ghost(3 * 0x10_0000_0000_0000_0000int),
        );
        if !edge_test(normal, a, b, p, denom) {
            return (false, Ratio::new(0, 1));
        }
        if !edge_test(normal, b, c, p, denom) {
            return (false, Ratio::new(0, 1));
        }
        if !edge_test(normal, c, a, p, denom) {
            return (false, Ratio::new(0, 1));
        }
        (true, Ratio::new(t, denom))
    }
}

} // verus!
