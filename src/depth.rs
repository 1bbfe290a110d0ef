use vstd::arithmetic::div_mod::{lemma_fundamental_div_mod, lemma_mod_bound};
use vstd::prelude::*;

use crate::ray::{small_param, Ratio};
use crate::vector::lemma_mul_within;

verus! {

/// 2^64.
pub open spec fn two_64() -> int {
    0x1_0000_0000_0000_0000
}

/// 2^128.
pub open spec fn two_128() -> int {
    two_64() * two_64()
}

/// The full 256-bit product of two `u128` values, as `(high, low)` halves.
fn mul_wide(a: u128, b: u128) -> (r: (u128, u128))
    ensures
        r.0 * two_128() + r.1 == a * b,
{
    let base: u128 = 0x1_0000_0000_0000_0000;
    let a0 = a % base;
    let a1 = a / base;
    let b0 = b % base;
    let b1 = b / base;
    proof {
        lemma_fundamental_div_mod(a as int, two_64());
        lemma_fundamental_div_mod(b as int, two_64());
        lemma_mod_bound(a as int, two_64());
        lemma_mod_bound(b as int, two_64());
        assert(a1 < two_64() && b1 < two_64()) by (nonlinear_arith)
            requires
                a == two_64() * a1 + a0,
                b == two_64() * b1 + b0,
                0 <= a0,
                0 <= b0,
                a < two_128(),
                b < two_128(),
        ;
        lemma_mul_within(a0 as int, b0 as int, two_64() - 1, two_64() - 1);
        lemma_mul_within(a0 as int, b1 as int, two_64() - 1, two_64() - 1);
        lemma_mul_within(a1 as int, b0 as int, two_64() - 1, two_64() - 1);
        lemma_mul_within(a1 as int, b1 as int, two_64() - 1, two_64() - 1);
    }
    let p00 = a0 * b0;
    let p01 = a0 * b1;
    let p10 = a1 * b0;
    let p11 = a1 * b1;
    let m = p01 % base + p10 % base + p00 / base;
    let lo = (m % base) * base + p00 % base;
    proof {
        lemma_fundamental_div_mod(p00 as int, two_64());
        lemma_fundamental_div_mod(p01 as int, two_64());
        lemma_fundamental_div_mod(p10 as int, two_64());
        lemma_fundamental_div_mod(m as int, two_64());
        lemma_mod_bound(m as int, two_64());
        assert(a * b == p11 * two_128() + (p01 + p10) * two_64() + p00) by (nonlinear_arith)
            requires
                a == two_64() * a1 + a0,
                b == two_64() * b1 + b0,
                p00 == a0 * b0,
                p01 == a0 * b1,
                p10 == a1 * b0,
                p11 == a1 * b1,
                two_128() == two_64() * two_64(),
        ;
        let hi = p11 + p01 / base + p10 / base + m / base;
        assert(hi * two_128() + lo == a * b);
        assert(hi < two_128()) by (nonlinear_arith)
            requires
                hi * two_128() + lo == a * b,
                0 <= lo,
                0 <= a < two_128(),
                0 <= b < two_128(),
        ;
    }
    let hi = p11 + p01 / base + p10 / base + m / base;
    (hi, lo)
}

/// Whether `a * b <= c * d`, exactly, for any `u128` values.
fn product_le(a: u128, b: u128, c: u128, d: u128) -> (r: bool)
    ensures
        r == (a * b <= c * d),
{
    let (h1, l1) = mul_wide(a, b);
    let (h2, l2) = mul_wide(c, d);
    proof {
        let big = two_128();
        assert(big == 0x1_0000_0000_0000_0000 * 0x1_0000_0000_0000_0000);
        assert((h1 < h2 || (h1 == h2 && l1 <= l2)) == (a * b <= c * d)) by (nonlinear_arith)
            requires
                h1 * big + l1 == a * b,
                h2 * big + l2 == c * d,
                0 <= l1 < big,
                0 <= l2 < big,
                0 <= h1,
                0 <= h2,
        ;
    }
    h1 < h2 || (h1 == h2 && l1 <= l2)
}

/// A depth range bound: a nonnegative distance `num / den`, both within 2^20.
pub open spec fn range_bound(d: (int, int)) -> bool {
    0 <= d.0 <= 0x10_0000 && 0 < d.1 <= 0x10_0000
}

/// The squared length of a ray direction of the kernels' size is below 2^34.
pub open spec fn len_sq_bound(len_sq: int) -> bool {
    0 <= len_sq < 0x4_0000_0000
}

/// The hit at parameter `t` on a ray whose direction has squared length
/// `len_sq` lies farther than distance `d`: `t > 0` and `t² |dir|² > d²`.
pub open spec fn farther_than(t: (int, int), len_sq: int, d: (int, int)) -> bool {
    t.0 > 0 && (t.0 * d.1) * ((t.0 * d.1) * len_sq) > (d.0 * t.1) * (d.0 * t.1)
}

/// The hit at parameter `t > 0` lies nearer than distance `d`: `t² |dir|² < d²`.
pub open spec fn nearer_than(t: (int, int), len_sq: int, d: (int, int)) -> bool {
    (t.0 * d.1) * ((t.0 * d.1) * len_sq) < (d.0 * t.1) * (d.0 * t.1)
}

/// Level `q` is at most `255 * distance / far` for the hit at `t > 0`:
/// `q * t.1 * far.0 <= 255 * t.0 * far.1 * |dir|`, squared.
pub open spec fn level_reached(q: int, t: (int, int), len_sq: int, far: (int, int)) -> bool {
    (q * t.1 * far.0) * (q * t.1 * far.0) <= (255 * t.0 * far.1) * ((255 * t.0 * far.1) * len_sq)
}

/// The largest level `0 <= p <= q` that the hit at `t` reaches (0 at least).
pub open spec fn level_up_to(q: nat, t: (int, int), len_sq: int, far: (int, int)) -> int
    decreases q,
{
    if q == 0 {
        0
    } else if level_reached(q as int, t, len_sq, far) {
        q as int
    } else {
        level_up_to((q - 1) as nat, t, len_sq, far)
    }
}

/// `255 * distance / far`, rounded down and clamped to `[0, 255]`, where the
/// distance of the hit at parameter `t` is `t * |dir|`, `|dir| = sqrt(len_sq)`.
pub open spec fn intensity(t: (int, int), len_sq: int, far: (int, int)) -> int {
    if t.0 <= 0 {
        0
    } else {
        level_up_to(255, t, len_sq, far)
    }
}

/// Whether the hit at `t` lies farther than distance `d` along the ray.
pub fn is_farther(t: Ratio, len_sq: u64, d: Ratio) -> (r: bool)
    requires
        small_param(t@),
        len_sq_bound(len_sq as int),
        range_bound(d@),
    ensures
        r == farther_than(t@, len_sq as int, d@),
{
    if t.num <= 0 {
        return false;
    }
    proof {
        lemma_mul_within(t@.0, d@.1, 0x40_0000_0000_0000, 0x10_0000);
        lemma_mul_within(d@.0, t@.1, 0x10_0000, 0x40_0000_0000_0000);
        lemma_mul_within(t@.0 * d@.1, len_sq as int, 0x400_0000_0000_0000_0000, 0x4_0000_0000);
    }
    let a = (t.num as u128) * (d.den as u128);
    let c = (d.num as u128) * (t.den as u128);
    !product_le(a, a * (len_sq as u128), c, c)
}

/// Whether the hit at `t` lies nearer than distance `d` along the ray.
pub fn is_nearer(t: Ratio, len_sq: u64, d: Ratio) -> (r: bool)
    requires
        small_param(t@),
        t.num > 0,
        len_sq_bound(len_sq as int),
        range_bound(d@),
    ensures
        r == nearer_than(t@, len_sq as int, d@),
{
    proof {
        lemma_mul_within(t@.0, d@.1, 0x40_0000_0000_0000, 0x10_0000);
        lemma_mul_within(d@.0, t@.1, 0x10_0000, 0x40_0000_0000_0000);
        lemma_mul_within(t@.0 * d@.1, len_sq as int, 0x400_0000_0000_0000_0000, 0x4_0000_0000);
    }
    let a = (t.num as u128) * (d.den as u128);
    let c = (d.num as u128) * (t.den as u128);
    !product_le(c, c, a, a * (len_sq as u128))
}

/// Maps the depth of the hit at parameter `t`, on a ray whose direction has
/// squared length `len_sq`, to an 8-bit gray level: `255 * depth / far`,
/// rounded down and clamped to `[0, 255]`, with depth `t * sqrt(len_sq)`.
pub fn depth_to_intensity(t: Ratio, len_sq: u64, far: Ratio) -> (r: u8)
    requires
        small_param(t@),
        len_sq_bound(len_sq as int),
        range_bound(far@),
    ensures
        r == intensity(t@, len_sq as int, far@),
{
    if t.num <= 0 {
        return 0;
    }
    proof {
        lemma_mul_within(t@.0, far@.1, 0x40_0000_0000_0000, 0x10_0000);
        lemma_mul_within(255 * t@.0, far@.1, 255int * 0x40_0000_0000_0000, 0x10_0000);
        lemma_mul_within(
            255 * t@.0 * far@.1,
            len_sq as int,
            255int * 0x400_0000_0000_0000_0000,
            0x4_0000_0000,
        );
    }
    let scaled = 255 * (t.num as u128) * (far.den as u128);
    let scaled_len = scaled * (len_sq as u128);
    let mut q: u32 = 255;
    while q > 0
        invariant
            0 <= q <= 255,
            small_param(t@),
            t.num > 0,
            len_sq_bound(len_sq as int),
            range_bound(far@),
            scaled == 255 * t@.0 * far@.1,
            scaled_len == scaled * len_sq,
            level_up_to(255, t@, len_sq as int, far@) == level_up_to(q as nat, t@, len_sq as int, far@),
        decreases q,
    {
        proof {
            lemma_mul_within(q as int, t@.1, 255, 0x40_0000_0000_0000);
            lemma_mul_within(q * t@.1, far@.0, 255int * 0x40_0000_0000_0000, 0x10_0000);
        }
        let u = (q as u128) * (t.den as u128) * (far.num as u128);
        if product_le(u, u, scaled, scaled_len) {
            return q as u8;
        }
        q = q - 1;
    }
    0
}

/// The ends of the depth mapping: a hit at the far plane's distance maps to
/// 255, one at distance zero to 0.
pub proof fn lemma_depth_mapping_ends(t: (int, int), len_sq: int, far: (int, int))
    requires
        t.1 > 0,
        far.0 > 0,
        far.1 > 0,
        len_sq > 0,
    ensures
        t.0 > 0 && (t.0 * far.1) * ((t.0 * far.1) * len_sq) == (far.0 * t.1) * (far.0 * t.1)
            ==> intensity(t, len_sq, far) == 255,
        t.0 == 0 ==> intensity(t, len_sq, far) == 0,
{
    if t.0 > 0 && (t.0 * far.1) * ((t.0 * far.1) * len_sq) == (far.0 * t.1) * (far.0 * t.1) {
        assert(level_reached(255, t, len_sq, far)) by (nonlinear_arith)
            requires
                (t.0 * far.1) * ((t.0 * far.1) * len_sq) == (far.0 * t.1) * (far.0 * t.1),
        ;
    }
}

} // verus!
