use vstd::prelude::*;

verus! {

/// The largest magnitude a component of a `Vector` may have for the
/// intersection kernels to be exact without overflow.
pub const LIMIT: i64 = 65536;

/// 2^126: every intermediate product of the kernels stays below this.
pub open spec fn wide_cap() -> int {
    0x4000_0000_0000_0000_0000_0000_0000_0000
}

/// A point or direction in world space, on an integer grid.
#[derive(Clone, Copy, Debug, PartialEq, Eq, Structural)]
pub struct Vector {
    pub x: i64,
    pub y: i64,
    pub z: i64,
}

/// A position on the unit lattice, used to author box extents.
#[derive(Clone, Copy, Debug, PartialEq, Eq, Structural)]
pub struct SteppedVector {
    pub x: i32,
    pub y: i32,
    pub z: i32,
}

/// A vector with wide components, used for the intermediate terms of the kernels.
#[derive(Clone, Copy)]
pub struct Wide {
    pub x: i128,
    pub y: i128,
    pub z: i128,
}

impl View for Vector {
    type V = (int, int, int);

    open spec fn view(&self) -> (int, int, int) {
        (self.x as int, self.y as int, self.z as int)
    }
}

impl View for SteppedVector {
    type V = (int, int, int);

    open spec fn view(&self) -> (int, int, int) {
        (self.x as int, self.y as int, self.z as int)
    }
}

impl View for Wide {
    type V = (int, int, int);

    open spec fn view(&self) -> (int, int, int) {
        (self.x as int, self.y as int, self.z as int)
    }
}

/// Every component of `v` lies in `[-bound, bound]`.
pub open spec fn within(v: (int, int, int), bound: int) -> bool {
    -bound <= v.0 <= bound && -bound <= v.1 <= bound && -bound <= v.2 <= bound
}

pub open spec fn vadd(a: (int, int, int), b: (int, int, int)) -> (int, int, int) {
    (a.0 + b.0, a.1 + b.1, a.2 + b.2)
}

pub open spec fn vsub(a: (int, int, int), b: (int, int, int)) -> (int, int, int) {
    (a.0 - b.0, a.1 - b.1, a.2 - b.2)
}

pub open spec fn vscale(k: int, a: (int, int, int)) -> (int, int, int) {
    (k * a.0, k * a.1, k * a.2)
}

pub open spec fn vdot(a: (int, int, int), b: (int, int, int)) -> int {
    a.0 * b.0 + a.1 * b.1 + a.2 * b.2
}

pub open spec fn vcross(a: (int, int, int), b: (int, int, int)) -> (int, int, int) {
    (a.1 * b.2 - a.2 * b.1, a.2 * b.0 - a.0 * b.2, a.0 * b.1 - a.1 * b.0)
}

/// Every component of `v` fits an `i64`.
pub open spec fn fits_i64(v: (int, int, int)) -> bool {
    &&& i64::MIN <= v.0 <= i64::MAX
    &&& i64::MIN <= v.1 <= i64::MAX
    &&& i64::MIN <= v.2 <= i64::MAX
}

/// The magnitude of a product is bounded by the product of the bounds.
pub proof fn lemma_mul_within(a: int, b: int, x: int, y: int)
    requires
        -x <= a <= x,
        -y <= b <= y,
    ensures
        -(x * y) <= a * b <= x * y,
        0 <= x * y,
{
    assert(-(x * y) <= a * b <= x * y && 0 <= x * y) by (nonlinear_arith)
        requires
            -x <= a <= x,
            -y <= b <= y,
    ;
}

impl Vector {
    pub fn new(x: i64, y: i64, z: i64) -> (r: Vector)
        ensures
            r@ == (x as int, y as int, z as int),
    {
        Vector { x, y, z }
    }

    /// Whether every component is within `[-LIMIT, LIMIT]`.
    pub open spec fn bounded(&self) -> bool {
        within(self@, LIMIT as int)
    }

    /// Whether every component is within `[-LIMIT, LIMIT]`.
    pub fn is_bounded(&self) -> (r: bool)
        ensures
            r == self.bounded(),
    {
        -LIMIT <= self.x && self.x <= LIMIT && -LIMIT <= self.y && self.y <= LIMIT && -LIMIT
            <= self.z && self.z <= LIMIT
    }

    pub(crate) fn widen(&self) -> (r: Wide)
        ensures
            r@ == self@,
    {
        Wide { x: self.x as i128, y: self.y as i128, z: self.z as i128 }
    }

    /// Componentwise sum.
    pub fn plus(&self, o: &Vector) -> (r: Vector)
        requires
            fits_i64(vadd(self@, o@)),
        ensures
            r@ == vadd(self@, o@),
    {
        Vector { x: self.x + o.x, y: self.y + o.y, z: self.z + o.z }
    }

    /// Componentwise difference.
    pub fn minus(&self, o: &Vector) -> (r: Vector)
        requires
            fits_i64(vsub(self@, o@)),
        ensures
            r@ == vsub(self@, o@),
    {
        Vector { x: self.x - o.x, y: self.y - o.y, z: self.z - o.z }
    }

    /// Multiplication by a scalar.
    pub fn scaled(&self, k: i64) -> (r: Vector)
        requires
            fits_i64(vscale(k as int, self@)),
        ensures
            r@ == vscale(k as int, self@),
    {
        Vector { x: k * self.x, y: k * self.y, z: k * self.z }
    }

    /// Dot product.
    pub fn dot(&self, o: &Vector) -> (r: i64)
        requires
            i64::MIN <= vdot(self@, o@) <= i64::MAX,
        ensures
            r == vdot(self@, o@),
    {
        let m = Ghost(0x8000_0000_0000_0000int);
        proof {
            lemma_mul_within(self@.0, o@.0, m@, m@);
            lemma_mul_within(self@.1, o@.1, m@, m@);
            lemma_mul_within(self@.2, o@.2, m@, m@);
        }
        let p0 = (self.x as i128) * (o.x as i128);
        let p1 = (self.y as i128) * (o.y as i128);
        let p2 = (self.z as i128) * (o.z as i128);
        (p0 + p1 + p2) as i64
    }

    /// Cross product.
    pub fn cross(&self, o: &Vector) -> (r: Vector)
        requires
            fits_i64(vcross(self@, o@)),
        ensures
            r@ == vcross(self@, o@),
    {
        let m = Ghost(0x8000_0000_0000_0000int);
        proof {
            lemma_mul_within(self@.1, o@.2, m@, m@);
            lemma_mul_within(self@.2, o@.1, m@, m@);
            lemma_mul_within(self@.2, o@.0, m@, m@);
            lemma_mul_within(self@.0, o@.2, m@, m@);
            lemma_mul_within(self@.0, o@.1, m@, m@);
            lemma_mul_within(self@.1, o@.0, m@, m@);
        }
        let (ax, ay, az) = (self.x as i128, self.y as i128, self.z as i128);
        let (bx, by, bz) = (o.x as i128, o.y as i128, o.z as i128);
        Vector {
            x: (ay * bz - az * by) as i64,
            y: (az * bx - ax * bz) as i64,
            z: (ax * by - ay * bx) as i64,
        }
    }
}

impl SteppedVector {
    pub fn new(x: i32, y: i32, z: i32) -> (r: SteppedVector)
        ensures
            r@ == (x as int, y as int, z as int),
    {
        SteppedVector { x, y, z }
    }

    pub(crate) fn widen(&self) -> (r: Wide)
        ensures
            r@ == self@,
    {
        Wide { x: self.x as i128, y: self.y as i128, z: self.z as i128 }
    }
}

pub(crate) fn wide_add(a: Wide, b: Wide, Ghost(ba): Ghost<int>, Ghost(bb): Ghost<int>) -> (r: Wide)
    requires
        within(a@, ba),
        within(b@, bb),
        ba + bb < wide_cap(),
    ensures
        r@ == vadd(a@, b@),
        within(r@, ba + bb),
{
    Wide { x: a.x + b.x, y: a.y + b.y, z: a.z + b.z }
}

pub(crate) fn wide_sub(a: Wide, b: Wide, Ghost(ba): Ghost<int>, Ghost(bb): Ghost<int>) -> (r: Wide)
    requires
        within(a@, ba),
        within(b@, bb),
        ba + bb < wide_cap(),
    ensures
        r@ == vsub(a@, b@),
        within(r@, ba + bb),
{
    Wide { x: a.x - b.x, y: a.y - b.y, z: a.z - b.z }
}

pub(crate) fn wide_scale(k: i128, a: Wide, Ghost(bk): Ghost<int>, Ghost(ba): Ghost<int>) -> (r: Wide)
    requires
        -bk <= k <= bk,
        within(a@, ba),
        bk * ba < wide_cap(),
    ensures
        r@ == vscale(k as int, a@),
        within(r@, bk * ba),
{
    proof {
        lemma_mul_within(k as int, a@.0, bk, ba);
        lemma_mul_within(k as int, a@.1, bk, ba);
        lemma_mul_within(k as int, a@.2, bk, ba);
    }
    Wide { x: k * a.x, y: k * a.y, z: k * a.z }
}

pub(crate) fn wide_dot(a: Wide, b: Wide, Ghost(ba): Ghost<int>, Ghost(bb): Ghost<int>) -> (r: i128)
    requires
        within(a@, ba),
        within(b@, bb),
        3 * (ba * bb) < wide_cap(),
    ensures
        r == vdot(a@, b@),
        -(3 * (ba * bb)) <= r <= 3 * (ba * bb),
{
    proof {
        lemma_mul_within(a@.0, b@.0, ba, bb);
        lemma_mul_within(a@.1, b@.1, ba, bb);
        lemma_mul_within(a@.2, b@.2, ba, bb);
    }
    a.x * b.x + a.y * b.y + a.z * b.z
}

pub(crate) fn wide_cross(a: Wide, b: Wide, Ghost(ba): Ghost<int>, Ghost(bb): Ghost<int>) -> (r: Wide)
    requires
        within(a@, ba),
        within(b@, bb),
        2 * (ba * bb) < wide_cap(),
    ensures
        r@ == vcross(a@, b@),
        within(r@, 2 * (ba * bb)),
{
    proof {
        lemma_mul_within(a@.1, b@.2, ba, bb);
        lemma_mul_within(a@.2, b@.1, ba, bb);
        lemma_mul_within(a@.2, b@.0, ba, bb);
        lemma_mul_within(a@.0, b@.2, ba, bb);
        lemma_mul_within(a@.0, b@.1, ba, bb);
        lemma_mul_within(a@.1, b@.0, ba, bb);
    }
    Wide {
        x: a.y * b.z - a.z * b.y,
        y: a.z * b.x - a.x * b.z,
        z: a.x * b.y - a.y * b.x,
    }
}

} // verus!
