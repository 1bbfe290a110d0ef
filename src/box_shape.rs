use vstd::prelude::*;

use crate::ray::{rle, rlt, Ratio, Ray};
use crate::vector::{SteppedVector, LIMIT};

verus! {

/// The parameter at which the ray crosses the plane `coordinate == c` along one axis,
/// as a fraction with denominator `|d|` (for `d != 0`).
pub open spec fn crossing(c: int, o: int, d: int) -> (int, int) {
    if d < 0 {
        (o - c, -d)
    } else {
        (c - o, d)
    }
}

/// Entry parameter of one slab (`d != 0`).
pub open spec fn slab_entry(c0: int, c1: int, o: int, d: int) -> (int, int) {
    if rle(crossing(c0, o, d), crossing(c1, o, d)) {
        crossing(c0, o, d)
    } else {
        crossing(c1, o, d)
    }
}

/// Exit parameter of one slab (`d != 0`).
pub open spec fn slab_exit(c0: int, c1: int, o: int, d: int) -> (int, int) {
    if rle(crossing(c0, o, d), crossing(c1, o, d)) {
        crossing(c1, o, d)
    } else {
        crossing(c0, o, d)
    }
}

/// A ray with no motion along an axis stays within that slab only if its
/// coordinate lies strictly between the two planes.
pub open spec fn slab_open(c0: int, c1: int, o: int) -> bool {
    (c0 < o && o < c1) || (c1 < o && o < c0)
}

/// The running entry parameter after one more axis; `None` stands for minus infinity.
pub open spec fn raise_entry(t: Option<(int, int)>, c0: int, c1: int, o: int, d: int) -> Option<
    (int, int),
> {
    if d == 0 {
        t
    } else {
        match t {
            None => Some(slab_entry(c0, c1, o, d)),
            Some(cur) => if rle(slab_entry(c0, c1, o, d), cur) {
                Some(cur)
            } else {
                Some(slab_entry(c0, c1, o, d))
            },
        }
    }
}

/// The running exit parameter after one more axis; `None` stands for plus infinity.
pub open spec fn lower_exit(t: Option<(int, int)>, c0: int, c1: int, o: int, d: int) -> Option<
    (int, int),
> {
    if d == 0 {
        t
    } else {
        match t {
            None => Some(slab_exit(c0, c1, o, d)),
            Some(cur) => if rle(cur, slab_exit(c0, c1, o, d)) {
                Some(cur)
            } else {
                Some(slab_exit(c0, c1, o, d))
            },
        }
    }
}

/// The near parameter of the slab test: the latest entry over the three axes.
pub open spec fn box_entry(
    s: (int, int, int),
    e: (int, int, int),
    o: (int, int, int),
    d: (int, int, int),
) -> Option<(int, int)> {
    raise_entry(raise_entry(raise_entry(None, s.0, e.0, o.0, d.0), s.1, e.1, o.1, d.1), s.2, e.2, o.2, d.2)
}

/// The far parameter of the slab test: the earliest exit over the three axes.
pub open spec fn box_exit(
    s: (int, int, int),
    e: (int, int, int),
    o: (int, int, int),
    d: (int, int, int),
) -> Option<(int, int)> {
    lower_exit(lower_exit(lower_exit(None, s.0, e.0, o.0, d.0), s.1, e.1, o.1, d.1), s.2, e.2, o.2, d.2)
}

/// The slab test: every axis without motion is open, and the exit is not
/// before the entry nor behind the ray's origin.
pub open spec fn box_hit(
    s: (int, int, int),
    e: (int, int, int),
    o: (int, int, int),
    d: (int, int, int),
) -> bool {
    &&& d.0 != 0 || slab_open(s.0, e.0, o.0)
    &&& d.1 != 0 || slab_open(s.1, e.1, o.1)
    &&& d.2 != 0 || slab_open(s.2, e.2, o.2)
    &&& box_entry(s, e, o, d) is Some
    &&& box_exit(s, e, o, d) is Some
    &&& rle(box_entry(s, e, o, d)->0, box_exit(s, e, o, d)->0)
    &&& rle((0, 1), box_exit(s, e, o, d)->0)
}

/// The parameter is negative: behind the ray's origin.
pub open spec fn behind(t: (int, int)) -> bool {
    t.0 < 0 && t.1 > 0
}

/// The parameter is positive: ahead of the ray's origin.
pub open spec fn ahead(t: (int, int)) -> bool {
    t.0 > 0 && t.1 > 0
}

proof fn lemma_slab_around_origin(c0: int, c1: int, o: int, d: int)
    requires
        c0 < o < c1,
        d != 0,
    ensures
        behind(slab_entry(c0, c1, o, d)),
        ahead(slab_exit(c0, c1, o, d)),
{
    if d > 0 {
        assert((c0 - o) * d <= (c1 - o) * d) by (nonlinear_arith)
            requires
                c0 < o < c1,
                d > 0,
        ;
    } else {
        assert((o - c1) * (-d) < (o - c0) * (-d)) by (nonlinear_arith)
            requires
                c0 < o < c1,
                d < 0,
        ;
    }
}

proof fn lemma_inside_axis(t_in: Option<(int, int)>, t_out: Option<(int, int)>, c0: int, c1: int, o: int, d: int)
    requires
        c0 < o < c1,
        t_in is Some ==> behind(t_in->0),
        t_out is Some ==> ahead(t_out->0),
        t_in is Some <==> t_out is Some,
    ensures
        d != 0 || slab_open(c0, c1, o),
        raise_entry(t_in, c0, c1, o, d) is Some ==> behind(raise_entry(t_in, c0, c1, o, d)->0),
        lower_exit(t_out, c0, c1, o, d) is Some ==> ahead(lower_exit(t_out, c0, c1, o, d)->0),
        raise_entry(t_in, c0, c1, o, d) is Some <==> lower_exit(t_out, c0, c1, o, d) is Some,
        d != 0 ==> raise_entry(t_in, c0, c1, o, d) is Some,
        t_in is Some ==> raise_entry(t_in, c0, c1, o, d) is Some,
{
    if d != 0 {
        lemma_slab_around_origin(c0, c1, o, d);
    }
}

/// A ray whose origin lies strictly inside a box hits it, and the reported
/// near parameter is negative: the entry lies behind the origin.
pub proof fn lemma_origin_inside_box_hits_behind(
    s: (int, int, int),
    e: (int, int, int),
    o: (int, int, int),
    d: (int, int, int),
)
    requires
        s.0 < o.0 < e.0,
        s.1 < o.1 < e.1,
        s.2 < o.2 < e.2,
        d != (0int, 0int, 0int),
    ensures
        box_hit(s, e, o, d),
        rlt(box_entry(s, e, o, d)->0, (0, 1)),
{
    let n: Option<(int, int)> = None;
    lemma_inside_axis(n, n, s.0, e.0, o.0, d.0);
    let i1 = raise_entry(n, s.0, e.0, o.0, d.0);
    let x1 = lower_exit(n, s.0, e.0, o.0, d.0);
    lemma_inside_axis(i1, x1, s.1, e.1, o.1, d.1);
    let i2 = raise_entry(i1, s.1, e.1, o.1, d.1);
    let x2 = lower_exit(x1, s.1, e.1, o.1, d.1);
    lemma_inside_axis(i2, x2, s.2, e.2, o.2, d.2);
    let t_in = box_entry(s, e, o, d)->0;
    let t_out = box_exit(s, e, o, d)->0;
    assert(t_in.0 * t_out.1 <= t_out.0 * t_in.1) by (nonlinear_arith)
        requires
            behind(t_in),
            ahead(t_out),
    ;
}

proof fn lemma_rle_trans(a: (int, int), b: (int, int), c: (int, int))
    requires
        a.1 > 0,
        b.1 > 0,
        c.1 > 0,
        rle(a, b),
        rle(b, c),
    ensures
        rle(a, c),
{
    assert(a.0 * b.1 * c.1 <= b.0 * a.1 * c.1) by (nonlinear_arith)
        requires
            a.0 * b.1 <= b.0 * a.1,
            c.1 > 0,
    ;
    assert(b.0 * c.1 * a.1 <= c.0 * b.1 * a.1) by (nonlinear_arith)
        requires
            b.0 * c.1 <= c.0 * b.1,
            a.1 > 0,
    ;
    assert(a.0 * c.1 <= c.0 * a.1) by (nonlinear_arith)
        requires
            a.0 * b.1 * c.1 <= b.0 * a.1 * c.1,
            b.0 * c.1 * a.1 <= c.0 * b.1 * a.1,
            b.1 > 0,
    ;
}

proof fn lemma_raise_entry(t: Option<(int, int)>, c0: int, c1: int, o: int, d: int)
    requires
        t is Some ==> (t->0).1 > 0,
    ensures
        raise_entry(t, c0, c1, o, d) is Some ==> (raise_entry(t, c0, c1, o, d)->0).1 > 0,
        d != 0 ==> raise_entry(t, c0, c1, o, d) is Some && rle(
            slab_entry(c0, c1, o, d),
            raise_entry(t, c0, c1, o, d)->0,
        ),
        t is Some ==> raise_entry(t, c0, c1, o, d) is Some && rle(
            t->0,
            raise_entry(t, c0, c1, o, d)->0,
        ),
{
    let r = raise_entry(t, c0, c1, o, d);
    if t is Some {
        let cur = t->0;
        assert(cur.0 * cur.1 <= cur.0 * cur.1);
    }
    if d != 0 {
        let en = slab_entry(c0, c1, o, d);
        assert(en.0 * en.1 <= en.0 * en.1);
    }
}

proof fn lemma_lower_exit(t: Option<(int, int)>, c0: int, c1: int, o: int, d: int)
    requires
        t is Some ==> (t->0).1 > 0,
    ensures
        lower_exit(t, c0, c1, o, d) is Some ==> (lower_exit(t, c0, c1, o, d)->0).1 > 0,
        d != 0 ==> lower_exit(t, c0, c1, o, d) is Some && rle(
            lower_exit(t, c0, c1, o, d)->0,
            slab_exit(c0, c1, o, d),
        ),
        t is Some ==> lower_exit(t, c0, c1, o, d) is Some && rle(
            lower_exit(t, c0, c1, o, d)->0,
            t->0,
        ),
{
    if t is Some {
        let cur = t->0;
        assert(cur.0 * cur.1 <= cur.0 * cur.1);
    }
    if d != 0 {
        let ex = slab_exit(c0, c1, o, d);
        assert(ex.0 * ex.1 <= ex.0 * ex.1);
    }
}

/// Along one axis, a parameter between the slab's entry and exit (or any
/// parameter, for an axis without motion inside the slab) gives a point
/// between the two planes. The point `o + d * t.0 / t.1` is scaled by `t.1`.
proof fn lemma_axis_contains(c0: int, c1: int, o: int, d: int, t: (int, int))
    requires
        c0 <= c1,
        t.1 > 0,
        d != 0 ==> rle(slab_entry(c0, c1, o, d), t) && rle(t, slab_exit(c0, c1, o, d)),
        d == 0 ==> slab_open(c0, c1, o),
    ensures
        c0 * t.1 <= o * t.1 + d * t.0 <= c1 * t.1,
{
    let n = t.0;
    let k = t.1;
    if d > 0 {
        assert((c0 - o) * d <= (c1 - o) * d) by (nonlinear_arith)
            requires
                c0 <= c1,
                d > 0,
        ;
        assert(c0 * k <= o * k + d * n <= c1 * k) by (nonlinear_arith)
            requires
                (c0 - o) * k <= n * d,
                n * d <= (c1 - o) * k,
        ;
    } else if d < 0 {
        assert((o - c1) * (-d) <= (o - c0) * (-d)) by (nonlinear_arith)
            requires
                c0 <= c1,
                d < 0,
        ;
        if (o - c0) * (-d) <= (o - c1) * (-d) {
            assert(c0 == c1) by (nonlinear_arith)
                requires
                    (o - c0) * (-d) <= (o - c1) * (-d),
                    c0 <= c1,
                    d < 0,
            ;
        }
        assert(slab_entry(c0, c1, o, d) == (o - c1, -d));
        assert(slab_exit(c0, c1, o, d) == (o - c0, -d));
        assert(c0 * k <= o * k + d * n <= c1 * k) by (nonlinear_arith)
            requires
                (o - c1) * k <= n * (-d),
                n * (-d) <= (o - c0) * k,
        ;
    } else {
        assert(c0 * k <= o * k <= c1 * k) by (nonlinear_arith)
            requires
                c0 < o < c1,
                k > 0,
        ;
        assert(d * n == 0);
    }
}

/// On a hit, the point at the reported parameter lies in the box: for a
/// parameter `n / k`, `start * k <= origin * k + dir * n <= end * k` on every axis.
pub proof fn lemma_box_hit_point_in_box(
    s: (int, int, int),
    e: (int, int, int),
    o: (int, int, int),
    d: (int, int, int),
)
    requires
        s.0 <= e.0,
        s.1 <= e.1,
        s.2 <= e.2,
        box_hit(s, e, o, d),
    ensures
        ({
            let t = box_entry(s, e, o, d)->0;
            &&& s.0 * t.1 <= o.0 * t.1 + d.0 * t.0 <= e.0 * t.1
            &&& s.1 * t.1 <= o.1 * t.1 + d.1 * t.0 <= e.1 * t.1
            &&& s.2 * t.1 <= o.2 * t.1 + d.2 * t.0 <= e.2 * t.1
        }),
{
    let n: Option<(int, int)> = None;
    let i1 = raise_entry(n, s.0, e.0, o.0, d.0);
    let i2 = raise_entry(i1, s.1, e.1, o.1, d.1);
    let x1 = lower_exit(n, s.0, e.0, o.0, d.0);
    let x2 = lower_exit(x1, s.1, e.1, o.1, d.1);
    lemma_raise_entry(n, s.0, e.0, o.0, d.0);
    lemma_raise_entry(i1, s.1, e.1, o.1, d.1);
    lemma_raise_entry(i2, s.2, e.2, o.2, d.2);
    lemma_lower_exit(n, s.0, e.0, o.0, d.0);
    lemma_lower_exit(x1, s.1, e.1, o.1, d.1);
    lemma_lower_exit(x2, s.2, e.2, o.2, d.2);
    let t = box_entry(s, e, o, d)->0;
    let x = box_exit(s, e, o, d)->0;
    if d.0 != 0 {
        let en = slab_entry(s.0, e.0, o.0, d.0);
        let ex = slab_exit(s.0, e.0, o.0, d.0);
        lemma_rle_trans(en, i1->0, i2->0);
        lemma_rle_trans(en, i2->0, t);
        lemma_rle_trans(x2->0, x1->0, ex);
        lemma_rle_trans(x, x2->0, ex);
        lemma_rle_trans(t, x, ex);
    }
    if d.1 != 0 {
        let en = slab_entry(s.1, e.1, o.1, d.1);
        let ex = slab_exit(s.1, e.1, o.1, d.1);
        lemma_rle_trans(en, i2->0, t);
        lemma_rle_trans(x, x2->0, ex);
        lemma_rle_trans(t, x, ex);
    }
    if d.2 != 0 {
        let ex = slab_exit(s.2, e.2, o.2, d.2);
        lemma_rle_trans(t, x, ex);
    }
    lemma_axis_contains(s.0, e.0, o.0, d.0, t);
    lemma_axis_contains(s.1, e.1, o.1, d.1, t);
    lemma_axis_contains(s.2, e.2, o.2, d.2, t);
}

/// Along one axis, the parameter `1/2` of a ray aimed at twice the slab's
/// middle lies between the slab's entry and exit.
proof fn lemma_axis_toward_middle(c0: int, c1: int, o: int)
    requires
        c0 < c1,
    ensures
        ({
            let d = c0 + c1 - 2 * o;
            &&& d != 0 ==> rle(slab_entry(c0, c1, o, d), (1, 2)) && rle((1, 2), slab_exit(c0, c1, o, d))
            &&& d == 0 ==> slab_open(c0, c1, o)
        }),
{
    let d = c0 + c1 - 2 * o;
    if d != 0 {
        let a = crossing(c0, o, d);
        let b = crossing(c1, o, d);
        if d > 0 {
            assert(rle(a, (1, 2)) && rle((1, 2), b));
            lemma_rle_trans(a, (1, 2), b);
        } else {
            assert(rle(b, (1, 2)) && rle((1, 2), a));
            lemma_rle_trans(b, (1, 2), a);
            if rle(a, b) {
                lemma_rle_trans(a, b, (1, 2));
            }
        }
    }
}

/// A ray aimed at the centre of a box hits it, from inside or out: with the
/// direction `start + end - 2 * origin` (twice the way to the centre), the
/// parameter `1/2` reaches the centre and lies within every slab.
pub proof fn lemma_ray_toward_center_hits(s: (int, int, int), e: (int, int, int), o: (int, int, int))
    requires
        s.0 < e.0,
        s.1 < e.1,
        s.2 < e.2,
        (s.0 + e.0, s.1 + e.1, s.2 + e.2) != (2 * o.0, 2 * o.1, 2 * o.2),
    ensures
        box_hit(s, e, o, (s.0 + e.0 - 2 * o.0, s.1 + e.1 - 2 * o.1, s.2 + e.2 - 2 * o.2)),
        rle(box_entry(s, e, o, (s.0 + e.0 - 2 * o.0, s.1 + e.1 - 2 * o.1, s.2 + e.2 - 2 * o.2))->0, (1, 2)),
{
    let d = (s.0 + e.0 - 2 * o.0, s.1 + e.1 - 2 * o.1, s.2 + e.2 - 2 * o.2);
    let h = (1int, 2int);
    lemma_axis_toward_middle(s.0, e.0, o.0);
    lemma_axis_toward_middle(s.1, e.1, o.1);
    lemma_axis_toward_middle(s.2, e.2, o.2);
    let n: Option<(int, int)> = None;
    let i1 = raise_entry(n, s.0, e.0, o.0, d.0);
    let i2 = raise_entry(i1, s.1, e.1, o.1, d.1);
    let x1 = lower_exit(n, s.0, e.0, o.0, d.0);
    let x2 = lower_exit(x1, s.1, e.1, o.1, d.1);
    lemma_raise_entry(n, s.0, e.0, o.0, d.0);
    lemma_raise_entry(i1, s.1, e.1, o.1, d.1);
    lemma_raise_entry(i2, s.2, e.2, o.2, d.2);
    lemma_lower_exit(n, s.0, e.0, o.0, d.0);
    lemma_lower_exit(x1, s.1, e.1, o.1, d.1);
    lemma_lower_exit(x2, s.2, e.2, o.2, d.2);
    assert(i1 is Some ==> rle(i1->0, h));
    assert(x1 is Some ==> rle(h, x1->0));
    assert(i2 is Some ==> rle(i2->0, h));
    assert(x2 is Some ==> rle(h, x2->0));
    let t = box_entry(s, e, o, d)->0;
    let x = box_exit(s, e, o, d)->0;
    assert(rle(t, h));
    assert(rle(h, x));
    lemma_rle_trans(t, h, x);
}

/// The point at parameter `u = u.0 / u.1` lies between the planes `c0 <= c1`
/// along one axis, scaled by `u.1`.
pub open spec fn in_slab(c0: int, c1: int, o: int, d: int, u: (int, int)) -> bool {
    c0 * u.1 <= o * u.1 + d * u.0 <= c1 * u.1
}

/// A parameter whose point lies between an axis's planes is not before that
/// slab's entry.
proof fn lemma_slab_entry_first(c0: int, c1: int, o: int, d: int, u: (int, int))
    requires
        c0 <= c1,
        d != 0,
        u.1 > 0,
        in_slab(c0, c1, o, d, u),
    ensures
        rle(slab_entry(c0, c1, o, d), u),
{
    let n = u.0;
    let k = u.1;
    if d > 0 {
        assert((c0 - o) * d <= (c1 - o) * d) by (nonlinear_arith)
            requires
                c0 <= c1,
                d > 0,
        ;
        assert((c0 - o) * k <= n * d) by (nonlinear_arith)
            requires
                c0 * k <= o * k + d * n,
        ;
    } else {
        if (o - c0) * (-d) <= (o - c1) * (-d) {
            assert(c0 == c1) by (nonlinear_arith)
                requires
                    (o - c0) * (-d) <= (o - c1) * (-d),
                    c0 <= c1,
                    d < 0,
            ;
        }
        assert(slab_entry(c0, c1, o, d) == (o - c1, -d));
        assert((o - c1) * k <= n * (-d)) by (nonlinear_arith)
            requires
                o * k + d * n <= c1 * k,
        ;
    }
}

proof fn lemma_raise_entry_below(t: Option<(int, int)>, c0: int, c1: int, o: int, d: int, u: (int, int))
    requires
        t is Some ==> rle(t->0, u),
        d != 0 ==> rle(slab_entry(c0, c1, o, d), u),
    ensures
        raise_entry(t, c0, c1, o, d) is Some ==> rle(raise_entry(t, c0, c1, o, d)->0, u),
{
}

/// The reported parameter is the least one whose point lies in the box: no
/// parameter `u` whose point `origin + u * dir` is in the box comes before it.
/// With `lemma_box_hit_point_in_box`, the parameter is the entry distance.
pub proof fn lemma_box_entry_is_least(
    s: (int, int, int),
    e: (int, int, int),
    o: (int, int, int),
    d: (int, int, int),
    u: (int, int),
)
    requires
        s.0 <= e.0,
        s.1 <= e.1,
        s.2 <= e.2,
        box_hit(s, e, o, d),
        u.1 > 0,
        in_slab(s.0, e.0, o.0, d.0, u),
        in_slab(s.1, e.1, o.1, d.1, u),
        in_slab(s.2, e.2, o.2, d.2, u),
    ensures
        rle(box_entry(s, e, o, d)->0, u),
{
    if d.0 != 0 {
        lemma_slab_entry_first(s.0, e.0, o.0, d.0, u);
    }
    if d.1 != 0 {
        lemma_slab_entry_first(s.1, e.1, o.1, d.1, u);
    }
    if d.2 != 0 {
        lemma_slab_entry_first(s.2, e.2, o.2, d.2, u);
    }
    let n: Option<(int, int)> = None;
    let i1 = raise_entry(n, s.0, e.0, o.0, d.0);
    let i2 = raise_entry(i1, s.1, e.1, o.1, d.1);
    lemma_raise_entry_below(n, s.0, e.0, o.0, d.0, u);
    lemma_raise_entry_below(i1, s.1, e.1, o.1, d.1, u);
    lemma_raise_entry_below(i2, s.2, e.2, o.2, d.2, u);
}

/// Along an axis where the origin lies below both planes and the ray moves
/// further down, both crossings are behind the origin.
proof fn lemma_slab_behind(c0: int, c1: int, o: int, d: int)
    requires
        c0 <= c1,
        (o < c0 && d < 0) || (o > c1 && d > 0),
    ensures
        behind(slab_exit(c0, c1, o, d)),
{
}

/// A ray aimed away from the centre of a box, from a point outside it,
/// misses: with the direction `2 * origin - start - end`, the box lies behind
/// the origin on an axis where the origin is outside.
pub proof fn lemma_ray_away_from_center_misses(s: (int, int, int), e: (int, int, int), o: (int, int, int))
    requires
        s.0 <= e.0,
        s.1 <= e.1,
        s.2 <= e.2,
        o.0 < s.0 || o.0 > e.0 || o.1 < s.1 || o.1 > e.1 || o.2 < s.2 || o.2 > e.2,
    ensures
        !box_hit(s, e, o, (2 * o.0 - s.0 - e.0, 2 * o.1 - s.1 - e.1, 2 * o.2 - s.2 - e.2)),
{
    let d = (2 * o.0 - s.0 - e.0, 2 * o.1 - s.1 - e.1, 2 * o.2 - s.2 - e.2);
    let n: Option<(int, int)> = None;
    let x1 = lower_exit(n, s.0, e.0, o.0, d.0);
    let x2 = lower_exit(x1, s.1, e.1, o.1, d.1);
    lemma_lower_exit(n, s.0, e.0, o.0, d.0);
    lemma_lower_exit(x1, s.1, e.1, o.1, d.1);
    lemma_lower_exit(x2, s.2, e.2, o.2, d.2);
    let x = box_exit(s, e, o, d)->0;
    if box_hit(s, e, o, d) {
        let ex = if o.0 < s.0 || o.0 > e.0 {
            lemma_slab_behind(s.0, e.0, o.0, d.0);
            lemma_rle_trans(x2->0, x1->0, slab_exit(s.0, e.0, o.0, d.0));
            lemma_rle_trans(x, x2->0, slab_exit(s.0, e.0, o.0, d.0));
            slab_exit(s.0, e.0, o.0, d.0)
        } else if o.1 < s.1 || o.1 > e.1 {
            lemma_slab_behind(s.1, e.1, o.1, d.1);
            lemma_rle_trans(x, x2->0, slab_exit(s.1, e.1, o.1, d.1));
            slab_exit(s.1, e.1, o.1, d.1)
        } else {
            lemma_slab_behind(s.2, e.2, o.2, d.2);
            slab_exit(s.2, e.2, o.2, d.2)
        };
        assert(rle(x, ex));
        assert(x.0 < 0) by (nonlinear_arith)
            requires
                x.0 * ex.1 <= ex.0 * x.1,
                ex.0 < 0,
                ex.1 > 0,
                x.1 > 0,
        ;
    }
}

pub open spec fn opt_view(t: Option<Ratio>) -> Option<(int, int)> {
    match t {
        None => None,
        Some(r) => Some(r@),
    }
}

/// A slab parameter of a bounded ray: numerator and denominator stay small.
pub open spec fn small(t: Option<Ratio>) -> bool {
    match t {
        None => true,
        Some(r) => -0x20000 <= r.num <= 0x20000 && 0 < r.den <= 0x10000,
    }
}

fn ratio_le(a: Ratio, b: Ratio) -> (r: bool)
    requires
        small(Some(a)),
        small(Some(b)),
    ensures
        r == rle(a@, b@),
{
    proof {
        crate::vector::lemma_mul_within(a.num as int, b.den as int, 0x20000, 0x10000);
        crate::vector::lemma_mul_within(b.num as int, a.den as int, 0x20000, 0x10000);
    }
    a.num * b.den <= b.num * a.den
}

fn crossing_at(c: i128, o: i128, d: i128) -> (r: Ratio)
    requires
        d != 0,
        -0x10000 <= c <= 0x10000,
        -0x10000 <= o <= 0x10000,
        -0x10000 <= d <= 0x10000,
    ensures
        r@ == crossing(c as int, o as int, d as int),
        small(Some(r)),
{
    if d < 0 {
        Ratio::new(o - c, -d)
    } else {
        Ratio::new(c - o, d)
    }
}

/// Narrows the running interval `[entry, exit]` by one axis; the flag is false
/// when the axis has no motion and the ray lies outside its slab.
fn narrow(entry: Option<Ratio>, exit: Option<Ratio>, c0: i128, c1: i128, o: i128, d: i128) -> (r: (
    bool,
    Option<Ratio>,
    Option<Ratio>,
))
    requires
        small(entry),
        small(exit),
        -0x10000 <= c0 <= 0x10000,
        -0x10000 <= c1 <= 0x10000,
        -0x10000 <= o <= 0x10000,
        -0x10000 <= d <= 0x10000,
    ensures
        r.0 == (d != 0 || slab_open(c0 as int, c1 as int, o as int)),
        opt_view(r.1) == raise_entry(opt_view(entry), c0 as int, c1 as int, o as int, d as int),
        opt_view(r.2) == lower_exit(opt_view(exit), c0 as int, c1 as int, o as int, d as int),
        small(r.1),
        small(r.2),
{
    if d == 0 {
        let open = (c0 < o && o < c1) || (c1 < o && o < c0);
        return (open, entry, exit);
    }
    let t0 = crossing_at(c0, o, d);
    let t1 = crossing_at(c1, o, d);
    let (lo, hi) = if ratio_le(t0, t1) {
        (t0, t1)
    } else {
        (t1, t0)
    };
    let new_entry = match entry {
        None => lo,
        Some(cur) => if ratio_le(lo, cur) {
            cur
        } else {
            lo
        },
    };
    let new_exit = match exit {
        None => hi,
        Some(cur) => if ratio_le(cur, hi) {
            cur
        } else {
            hi
        },
    };
    (true, Some(new_entry), Some(new_exit))
}

/// An axis-aligned box between two lattice corners.
#[derive(Clone, Copy, Debug)]
pub struct BoxShape(SteppedVector, SteppedVector);

impl BoxShape {
    pub closed spec fn start_spec(&self) -> SteppedVector {
        self.0
    }

    pub closed spec fn end_spec(&self) -> SteppedVector {
        self.1
    }

    /// Both corners are small enough for the slab test.
    pub open spec fn bounded(&self) -> bool {
        crate::vector::within(self.start_spec()@, LIMIT as int) && crate::vector::within(
            self.end_spec()@,
            LIMIT as int,
        )
    }

    pub fn new(start: SteppedVector, end: SteppedVector) -> (r: BoxShape)
        ensures
            r.start_spec() == start,
            r.end_spec() == end,
    {
        BoxShape(start, end)
    }

    pub fn start(&self) -> (r: SteppedVector)
        ensures
            r == self.start_spec(),
    {
        self.0
    }

    pub fn end(&self) -> (r: SteppedVector)
        ensures
            r == self.end_spec(),
    {
        self.1
    }

    /// The slab test. On a hit the parameter is the entry `box_entry`, which is
    /// negative when the ray starts inside the box.
    pub fn intersects_ray(&self, ray: &Ray) -> (r: (bool, Ratio))
        requires
            self.bounded(),
            ray.bounded(),
        ensures
            r.0 == box_hit(self.start_spec()@, self.end_spec()@, ray.origin_spec()@, ray.dir_spec()@),
            r.1.valid(),
            small(Some(r.1)),
            r.0 ==> r.1@ == box_entry(
                self.start_spec()@,
                self.end_spec()@,
                ray.origin_spec()@,
                ray.dir_spec()@,
            )->0,
    {
        let o = ray.origin();
        let d = ray.dir();
        let (open_x, entry, exit) = narrow(
            None,
            None,
            self.0.x as i128,
            self.1.x as i128,
            o.x as i128,
            d.x as i128,
        );
        let (open_y, entry, exit) = narrow(
            entry,
            exit,
            self.0.y as i128,
            self.1.y as i128,
            o.y as i128,
            d.y as i128,
        );
        let (open_z, entry, exit) = narrow(
            entry,
            exit,
            self.0.z as i128,
            self.1.z as i128,
            o.z as i128,
            d.z as i128,
        );
        match (entry, exit) {
            (Some(t_min), Some(t_max)) => {
                let hit = open_x && open_y && open_z && ratio_le(t_min, t_max) && t_max.num >= 0;
                (hit, t_min)
            },
            _ => (false, Ratio::new(0, 1)),
        }
    }
}

} // verus!
