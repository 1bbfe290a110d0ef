use vstd::prelude::*;

use crate::vector::Vector;

verus! {

/// An exact ray parameter `num / den`, with `den > 0` when well formed.
#[derive(Clone, Copy, Debug, PartialEq, Eq, Structural)]
pub struct Ratio {
    pub num: i128,
    pub den: i128,
}

impl View for Ratio {
    type V = (int, int);

    open spec fn view(&self) -> (int, int) {
        (self.num as int, self.den as int)
    }
}

/// `a < b` for fractions with positive denominators.
pub open spec fn rlt(a: (int, int), b: (int, int)) -> bool {
    a.0 * b.1 < b.0 * a.1
}

/// `a <= b` for fractions with positive denominators.
pub open spec fn rle(a: (int, int), b: (int, int)) -> bool {
    a.0 * b.1 <= b.0 * a.1
}

/// A hit parameter small enough for the depth comparisons of the renderer:
/// numerator and denominator within 2^54.
pub open spec fn small_param(t: (int, int)) -> bool {
    -0x40_0000_0000_0000 <= t.0 <= 0x40_0000_0000_0000 && 0 < t.1 <= 0x40_0000_0000_0000
}

impl Ratio {
    pub fn new(num: i128, den: i128) -> (r: Ratio)
        ensures
            r@ == (num as int, den as int),
    {
        Ratio { num, den }
    }

    pub open spec fn valid(&self) -> bool {
        self.den > 0
    }
}

/// The reciprocal `1 / d` as a fraction whose denominator is not negative;
/// `(1, 0)` stands for positive infinity, the reciprocal of zero.
pub open spec fn reciprocal(d: int) -> (int, int) {
    if d < 0 {
        (-1, -d)
    } else if d > 0 {
        (1, d)
    } else {
        (1, 0)
    }
}

/// A half-line `origin + t * dir` for `t >= 0`.
///
/// The direction need not have unit length: a parameter `t` is measured in
/// multiples of `dir`.
#[derive(Clone, Copy, Debug)]
pub struct Ray {
    origin: Vector,
    dir: Vector,
    x_sign: bool,
    y_sign: bool,
    z_sign: bool,
}

fn inverse(d: i64) -> (r: Ratio)
    ensures
        r@ == reciprocal(d as int),
{
    if d < 0 {
        Ratio::new(-1, -(d as i128))
    } else if d > 0 {
        Ratio::new(1, d as i128)
    } else {
        Ratio::new(1, 0)
    }
}

impl Ray {
    pub closed spec fn origin_spec(&self) -> Vector {
        self.origin
    }

    pub closed spec fn dir_spec(&self) -> Vector {
        self.dir
    }

    /// The sign flags agree with the direction.
    pub closed spec fn wf(&self) -> bool {
        &&& self.x_sign == (self.dir.x < 0)
        &&& self.y_sign == (self.dir.y < 0)
        &&& self.z_sign == (self.dir.z < 0)
    }

    /// Both vectors are small enough for the intersection kernels.
    pub open spec fn bounded(&self) -> bool {
        self.origin_spec().bounded() && self.dir_spec().bounded()
    }

    pub fn new(origin: Vector, dir: Vector) -> (r: Ray)
        ensures
            r.origin_spec() == origin,
            r.dir_spec() == dir,
            r.wf(),
    {
        Ray { origin, dir, x_sign: dir.x < 0, y_sign: dir.y < 0, z_sign: dir.z < 0 }
    }

    pub fn origin(&self) -> (r: Vector)
        ensures
            r == self.origin_spec(),
    {
        self.origin
    }

    pub fn dir(&self) -> (r: Vector)
        ensures
            r == self.dir_spec(),
    {
        self.dir
    }

    /// The componentwise reciprocal of the direction, each as a fraction;
    /// a zero component gives `1 / 0`, positive infinity.
    pub fn inv_dir(&self) -> (r: (Ratio, Ratio, Ratio))
        ensures
            r.0@ == reciprocal(self.dir_spec().x as int),
            r.1@ == reciprocal(self.dir_spec().y as int),
            r.2@ == reciprocal(self.dir_spec().z as int),
    {
        (inverse(self.dir.x), inverse(self.dir.y), inverse(self.dir.z))
    }

    /// Whether the reciprocal of the direction's x component is negative.
    pub fn x_sign(&self) -> (r: bool)
        requires
            self.wf(),
        ensures
            r == (self.dir_spec().x < 0),
    {
        self.x_sign
    }

    /// Whether the reciprocal of the direction's y component is negative.
    pub fn y_sign(&self) -> (r: bool)
        requires
            self.wf(),
        ensures
            r == (self.dir_spec().y < 0),
    {
        self.y_sign
    }

    /// Whether the reciprocal of the direction's z component is negative.
    pub fn z_sign(&self) -> (r: bool)
        requires
            self.wf(),
        ensures
            r == (self.dir_spec().z < 0),
    {
        self.z_sign
    }
}

} // verus!
