use vstd::prelude::*;

verus! {

/// Largest magnitude of a coordinate. The range is symmetric, so that every
/// coordinate has a negation.
pub const COORD_MAX: i64 = 0x7fff_ffff_ffff_ffff;

/// A vector in homogeneous form: it stands for `(x / w, y / w, z / w)`.
/// Every well-formed value has `w > 0` and no coordinate equal to `i64::MIN`.
#[derive(Clone, Copy, Debug)]
pub struct Vec3 {
    pub x: i64,
    pub y: i64,
    pub z: i64,
    pub w: i64,
}

/// An exact rational number `num / den`, with `den > 0` when well formed.
#[derive(Clone, Copy, Debug)]
pub struct Ratio {
    pub num: i64,
    pub den: i64,
}

/// Numerators and the shared denominator of a vector.
pub type Coords = (int, int, int, int);

impl View for Vec3 {
    type V = Coords;

    open spec fn view(&self) -> Coords {
        (self.x as int, self.y as int, self.z as int, self.w as int)
    }
}

impl View for Ratio {
    type V = (int, int);

    open spec fn view(&self) -> (int, int) {
        (self.num as int, self.den as int)
    }
}

pub open spec fn in_range(n: int) -> bool {
    -(COORD_MAX as int) <= n <= COORD_MAX as int
}

/// The coordinates can be held by a well-formed `Vec3`.
pub open spec fn representable(c: Coords) -> bool {
    &&& in_range(c.0)
    &&& in_range(c.1)
    &&& in_range(c.2)
    &&& in_range(c.3)
    &&& c.3 > 0
}

/// The pair can be held by a well-formed `Ratio`.
pub open spec fn representable_ratio(q: (int, int)) -> bool {
    in_range(q.0) && in_range(q.1) && q.1 > 0
}

/// Two homogeneous forms stand for the same vector.
pub open spec fn same_vector(a: Coords, b: Coords) -> bool {
    &&& a.0 * b.3 == b.0 * a.3
    &&& a.1 * b.3 == b.1 * a.3
    &&& a.2 * b.3 == b.2 * a.3
}

/// Component-wise sum, over the product of the denominators.
pub open spec fn sum(a: Coords, b: Coords) -> Coords {
    (a.0 * b.3 + b.0 * a.3, a.1 * b.3 + b.1 * a.3, a.2 * b.3 + b.2 * a.3, a.3 * b.3)
}

/// Component-wise difference, over the product of the denominators.
pub open spec fn difference(a: Coords, b: Coords) -> Coords {
    (a.0 * b.3 - b.0 * a.3, a.1 * b.3 - b.1 * a.3, a.2 * b.3 - b.2 * a.3, a.3 * b.3)
}

/// Component-wise product.
pub open spec fn product(a: Coords, b: Coords) -> Coords {
    (a.0 * b.0, a.1 * b.1, a.2 * b.2, a.3 * b.3)
}

/// Uniform scale by an integer.
pub open spec fn scaled(a: Coords, s: int) -> Coords {
    (a.0 * s, a.1 * s, a.2 * s, a.3)
}

/// Uniform division by a nonzero integer: the sign moves to the numerators.
pub open spec fn quotient(a: Coords, s: int) -> Coords {
    if s > 0 {
        (a.0, a.1, a.2, a.3 * s)
    } else {
        (-a.0, -a.1, -a.2, a.3 * -s)
    }
}

pub open spec fn negated(a: Coords) -> Coords {
    (-a.0, -a.1, -a.2, a.3)
}

/// Dot product as a fraction.
pub open spec fn dot_product(a: Coords, b: Coords) -> (int, int) {
    (a.0 * b.0 + a.1 * b.1 + a.2 * b.2, a.3 * b.3)
}

/// Right-handed cross product.
pub open spec fn cross_product(a: Coords, b: Coords) -> Coords {
    (a.1 * b.2 - a.2 * b.1, a.2 * b.0 - a.0 * b.2, a.0 * b.1 - a.1 * b.0, a.3 * b.3)
}

proof fn lemma_product_fits(a: int, b: int)
    requires
        in_range(a),
        in_range(b),
    ensures
        -0x3fff_ffff_ffff_ffff_0000_0000_0000_0001 <= a * b <= 0x3fff_ffff_ffff_ffff_0000_0000_0000_0001,
{
    let m = COORD_MAX as int;
    assert(-(m * m) <= a * b <= m * m) by (nonlinear_arith)
        requires
            -m <= a <= m,
            -m <= b <= m,
            m >= 0,
    ;
}

proof fn lemma_machine_product_fits(a: i64, b: i64)
    ensures
        -0x4000_0000_0000_0000_0000_0000_0000_0000 <= a * b <= 0x4000_0000_0000_0000_0000_0000_0000_0000,
{
    let m = 0x8000_0000_0000_0000int;
    assert(-(m * m) <= a * b <= m * m) by (nonlinear_arith)
        requires
            -m <= a <= m,
            -m <= b <= m,
    ;
}

impl Vec3 {
    pub open spec fn wf(&self) -> bool {
        representable(self@)
    }

    /// The vector `(x, y, z)` with whole coordinates.
    pub fn new(t: (i64, i64, i64)) -> (r: Vec3)
        requires
            in_range(t.0 as int),
            in_range(t.1 as int),
            in_range(t.2 as int),
        ensures
            r.wf(),
            r@ == (t.0 as int, t.1 as int, t.2 as int, 1int),
    {
        Vec3 { x: t.0, y: t.1, z: t.2, w: 1 }
    }

    /// The vector `(x / w, y / w, z / w)`.
    pub fn with_denominator(t: (i64, i64, i64), w: i64) -> (r: Vec3)
        requires
            representable((t.0 as int, t.1 as int, t.2 as int, w as int)),
        ensures
            r.wf(),
            r@ == (t.0 as int, t.1 as int, t.2 as int, w as int),
    {
        Vec3 { x: t.0, y: t.1, z: t.2, w }
    }

    pub fn add(&self, rhs: &Vec3) -> (r: Vec3)
        requires
            self.wf(),
            rhs.wf(),
            representable(sum(self@, rhs@)),
        ensures
            r.wf(),
            r@ == sum(self@, rhs@),
    {
        proof {
            lemma_product_fits(self.x as int, rhs.w as int);
            lemma_product_fits(rhs.x as int, self.w as int);
            lemma_product_fits(self.y as int, rhs.w as int);
            lemma_product_fits(rhs.y as int, self.w as int);
            lemma_product_fits(self.z as int, rhs.w as int);
            lemma_product_fits(rhs.z as int, self.w as int);
            lemma_product_fits(self.w as int, rhs.w as int);
        }
        let (sw, rw) = (self.w as i128, rhs.w as i128);
        Vec3 {
            x: (self.x as i128 * rw + rhs.x as i128 * sw) as i64,
            y: (self.y as i128 * rw + rhs.y as i128 * sw) as i64,
            z: (self.z as i128 * rw + rhs.z as i128 * sw) as i64,
            w: (sw * rw) as i64,
        }
    }

    pub fn sub(&self, rhs: &Vec3) -> (r: Vec3)
        requires
            self.wf(),
            rhs.wf(),
            representable(difference(self@, rhs@)),
        ensures
            r.wf(),
            r@ == difference(self@, rhs@),
    {
        proof {
            lemma_product_fits(self.x as int, rhs.w as int);
            lemma_product_fits(rhs.x as int, self.w as int);
            lemma_product_fits(self.y as int, rhs.w as int);
            lemma_product_fits(rhs.y as int, self.w as int);
            lemma_product_fits(self.z as int, rhs.w as int);
            lemma_product_fits(rhs.z as int, self.w as int);
            lemma_product_fits(self.w as int, rhs.w as int);
        }
        let (sw, rw) = (self.w as i128, rhs.w as i128);
        Vec3 {
            x: (self.x as i128 * rw - rhs.x as i128 * sw) as i64,
            y: (self.y as i128 * rw - rhs.y as i128 * sw) as i64,
            z: (self.z as i128 * rw - rhs.z as i128 * sw) as i64,
            w: (sw * rw) as i64,
        }
    }

    /// Component-wise product of two vectors.
    pub fn mul(&self, rhs: &Vec3) -> (r: Vec3)
        requires
            self.wf(),
            rhs.wf(),
            representable(product(self@, rhs@)),
        ensures
            r.wf(),
            r@ == product(self@, rhs@),
    {
        proof {
            lemma_product_fits(self.x as int, rhs.x as int);
            lemma_product_fits(self.y as int, rhs.y as int);
            lemma_product_fits(self.z as int, rhs.z as int);
            lemma_product_fits(self.w as int, rhs.w as int);
        }
        Vec3 {
            x: (self.x as i128 * rhs.x as i128) as i64,
            y: (self.y as i128 * rhs.y as i128) as i64,
            z: (self.z as i128 * rhs.z as i128) as i64,
            w: (self.w as i128 * rhs.w as i128) as i64,
        }
    }

    /// Uniform scale by an integer.
    pub fn scale(&self, s: i64) -> (r: Vec3)
        requires
            self.wf(),
            in_range(s as int),
            representable(scaled(self@, s as int)),
        ensures
            r.wf(),
            r@ == scaled(self@, s as int),
    {
        proof {
            lemma_product_fits(self.x as int, s as int);
            lemma_product_fits(self.y as int, s as int);
            lemma_product_fits(self.z as int, s as int);
        }
        Vec3 {
            x: (self.x as i128 * s as i128) as i64,
            y: (self.y as i128 * s as i128) as i64,
            z: (self.z as i128 * s as i128) as i64,
            w: self.w,
        }
    }

    /// Uniform division by a nonzero integer, exact.
    pub fn div(&self, s: i64) -> (r: Vec3)
        requires
            self.wf(),
            s != 0,
            in_range(s as int),
            representable(quotient(self@, s as int)),
        ensures
            r.wf(),
            r@ == quotient(self@, s as int),
    {
        proof {
            lemma_product_fits(self.w as int, s as int);
        }
        if s > 0 {
            Vec3 { x: self.x, y: self.y, z: self.z, w: (self.w as i128 * s as i128) as i64 }
        } else {
            Vec3 { x: -self.x, y: -self.y, z: -self.z, w: (self.w as i128 * -(s as i128)) as i64 }
        }
    }

    /// The red channel of a color: the first coordinate, as a fraction.
    pub fn r(&self) -> (r: Ratio)
        ensures
            r@ == (self@.0, self@.3),
    {
        Ratio { num: self.x, den: self.w }
    }

    /// The green channel of a color: the second coordinate, as a fraction.
    pub fn g(&self) -> (r: Ratio)
        ensures
            r@ == (self@.1, self@.3),
    {
        Ratio { num: self.y, den: self.w }
    }

    /// The blue channel of a color: the third coordinate, as a fraction.
    pub fn b(&self) -> (r: Ratio)
        ensures
            r@ == (self@.2, self@.3),
    {
        Ratio { num: self.z, den: self.w }
    }
}

impl PartialEq for Vec3 {
    /// Equality of the vectors that the two forms stand for.
    fn eq(&self, o: &Vec3) -> (r: bool) {
        proof {
            lemma_machine_product_fits(self.x, o.w);
            lemma_machine_product_fits(o.x, self.w);
            lemma_machine_product_fits(self.y, o.w);
            lemma_machine_product_fits(o.y, self.w);
            lemma_machine_product_fits(self.z, o.w);
            lemma_machine_product_fits(o.z, self.w);
        }
        self.x as i128 * o.w as i128 == o.x as i128 * self.w as i128
            && self.y as i128 * o.w as i128 == o.y as i128 * self.w as i128
            && self.z as i128 * o.w as i128 == o.z as i128 * self.w as i128
    }
}

impl vstd::std_specs::cmp::PartialEqSpecImpl for Vec3 {
    open spec fn obeys_eq_spec() -> bool {
        true
    }

    open spec fn eq_spec(&self, o: &Vec3) -> bool {
        same_vector(self@, o@)
    }
}

impl PartialEq for Ratio {
    /// Equality of the numbers that the two fractions stand for.
    fn eq(&self, o: &Ratio) -> (r: bool) {
        proof {
            lemma_machine_product_fits(self.num, o.den);
            lemma_machine_product_fits(o.num, self.den);
        }
        self.num as i128 * o.den as i128 == o.num as i128 * self.den as i128
    }
}

impl vstd::std_specs::cmp::PartialEqSpecImpl for Ratio {
    open spec fn obeys_eq_spec() -> bool {
        true
    }

    open spec fn eq_spec(&self, o: &Ratio) -> bool {
        self@.0 * o@.1 == o@.0 * self@.1
    }
}

/// Dot product of two vectors, as an exact fraction.
pub fn dot(vec1: Vec3, vec2: Vec3) -> (r: Ratio)
    requires
        vec1.wf(),
        vec2.wf(),
        representable_ratio(dot_product(vec1@, vec2@)),
    ensures
        r@ == dot_product(vec1@, vec2@),
{
    proof {
        lemma_product_fits(vec1.x as int, vec2.x as int);
        lemma_product_fits(vec1.y as int, vec2.y as int);
        lemma_product_fits(vec1.z as int, vec2.z as int);
        lemma_product_fits(vec1.w as int, vec2.w as int);
    }
    let partial = vec1.x as i128 * vec2.x as i128 + vec1.y as i128 * vec2.y as i128;
    Ratio {
        num: (partial + vec1.z as i128 * vec2.z as i128) as i64,
        den: (vec1.w as i128 * vec2.w as i128) as i64,
    }
}

/// Right-handed cross product of two vectors.
pub fn cross(vec1: Vec3, vec2: Vec3) -> (r: Vec3)
    requires
        vec1.wf(),
        vec2.wf(),
        representable(cross_product(vec1@, vec2@)),
    ensures
        r.wf(),
        r@ == cross_product(vec1@, vec2@),
{
    proof {
        lemma_product_fits(vec1.y as int, vec2.z as int);
        lemma_product_fits(vec1.z as int, vec2.y as int);
        lemma_product_fits(vec1.z as int, vec2.x as int);
        lemma_product_fits(vec1.x as int, vec2.z as int);
        lemma_product_fits(vec1.x as int, vec2.y as int);
        lemma_product_fits(vec1.y as int, vec2.x as int);
        lemma_product_fits(vec1.w as int, vec2.w as int);
    }
    let (a, b) = (vec1, vec2);
    Vec3 {
        x: (a.y as i128 * b.z as i128 - a.z as i128 * b.y as i128) as i64,
        y: (a.z as i128 * b.x as i128 - a.x as i128 * b.z as i128) as i64,
        z: (a.x as i128 * b.y as i128 - a.y as i128 * b.x as i128) as i64,
        w: (a.w as i128 * b.w as i128) as i64,
    }
}

/// Largest magnitude of a coordinate, denominator or scale that `Vec3::len`
/// takes.
pub const LEN_INPUT_MAX: i64 = 0x10_0000;

/// `scale * |v| >= q - 1/2`, written over the integers:
/// `(2q - 1) * w <= 2 * scale * sqrt(x^2 + y^2 + z^2)`.
pub open spec fn length_reaches(v: Coords, scale: int, q: int) -> bool {
    q <= 0 || (2 * q - 1) * (2 * q - 1) * (v.3 * v.3) <= 4 * (scale * scale) * (v.0 * v.0 + v.1 * v.1
        + v.2 * v.2)
}

pub open spec fn len_input(n: int) -> bool {
    -LEN_INPUT_MAX <= n <= LEN_INPUT_MAX
}

pub open spec fn abs(n: int) -> int {
    if n < 0 {
        -n
    } else {
        n
    }
}

/// Decides `length_reaches` for the bounded inputs of `Vec3::len`.
fn reaches_length(v: &Vec3, scale: i64, q: i64) -> (r: bool)
    requires
        v.wf(),
        len_input(v.x as int),
        len_input(v.y as int),
        len_input(v.z as int),
        len_input(v.w as int),
        1 <= scale <= LEN_INPUT_MAX,
        0 <= q <= 0x400_0000_0000,
    ensures
        r == length_reaches(v@, scale as int, q as int),
{
    if q == 0 {
        return true;
    }
    let (x, y, z, w) = (v.x as i128, v.y as i128, v.z as i128, v.w as i128);
    let (s, k) = (scale as i128, 2 * q as i128 - 1);
    assert(0 <= x * x <= 0x100_0000_0000 && 0 <= y * y <= 0x100_0000_0000 && 0 <= z * z
        <= 0x100_0000_0000) by (nonlinear_arith)
        requires
            -0x10_0000 <= x <= 0x10_0000,
            -0x10_0000 <= y <= 0x10_0000,
            -0x10_0000 <= z <= 0x10_0000,
    ;
    let n = x * x + y * y + z * z;
    assert(0 <= s * s <= 0x100_0000_0000 && 0 <= w * w <= 0x100_0000_0000) by (nonlinear_arith)
        requires
            1 <= s <= 0x10_0000,
            1 <= w <= 0x10_0000,
    ;
    assert(0 <= 4 * (s * s) * n <= 0x1_0000_0000_0000_0000_0000_0000) by (nonlinear_arith)
        requires
            0 <= s * s <= 0x100_0000_0000,
            0 <= n <= 0x300_0000_0000,
    ;
    assert(0 <= k * k <= 0x40_0000_0000_0000_0000_0000) by (nonlinear_arith)
        requires
            1 <= k <= 0x800_0000_0000,
    ;
    assert(0 <= k * k * (w * w) <= 0x4000_0000_0000_0000_0000_0000_0000_0000) by (nonlinear_arith)
        requires
            0 <= k * k <= 0x40_0000_0000_0000_0000_0000,
            0 <= w * w <= 0x100_0000_0000,
    ;
    k * k * (w * w) <= 4 * (s * s) * n
}

proof fn lemma_length_reaches_monotone(v: Coords, scale: int, p: int, q: int)
    requires
        0 <= p <= q,
        length_reaches(v, scale, q),
    ensures
        length_reaches(v, scale, p),
{
    if p > 0 {
        let ww = v.3 * v.3;
        assert(ww >= 0) by (nonlinear_arith)
            requires
                ww == v.3 * v.3,
        ;
        assert((2 * p - 1) * (2 * p - 1) * ww <= (2 * q - 1) * (2 * q - 1) * ww) by (nonlinear_arith)
            requires
                1 <= p <= q,
                ww >= 0,
        ;
    }
}

impl Vec3 {
    /// The length of the vector in units of `1 / scale`, rounded to the
    /// nearest integer (halves up): the `q` with
    /// `q - 1/2 <= scale * |v| < q + 1/2`.
    pub fn len(&self, scale: i64) -> (r: i64)
        requires
            self.wf(),
            len_input(self.x as int),
            len_input(self.y as int),
            len_input(self.z as int),
            len_input(self.w as int),
            1 <= scale <= LEN_INPUT_MAX,
        ensures
            r >= 0,
            length_reaches(self@, scale as int, r as int),
            !length_reaches(self@, scale as int, r as int + 1),
            forall|q: int| 0 <= q <= r ==> length_reaches(self@, scale as int, q),
            forall|q: int| q > r ==> !length_reaches(self@, scale as int, q),
    {
        let ghost c = self@;
        let ghost sc = scale as int;
        let total = (if self.x < 0 { -self.x } else { self.x }) + (if self.y < 0 { -self.y } else { self.y }) + (if self.z < 0 { -self.z } else { self.z });
        assert(0 <= scale * total <= 0x300_0000_0000) by (nonlinear_arith)
            requires
                1 <= scale <= 0x10_0000,
                0 <= total <= 0x30_0000,
        ;
        let mut lo: i64 = 0;
        let mut hi: i64 = scale * total + 1;
        proof {
            let (x, y, z, w) = (c.0, c.1, c.2, c.3);
            let t = total as int;
            let a = sc * t;
            assert(t == abs(x) + abs(y) + abs(z));
            assert(abs(x) * abs(x) == x * x) by (nonlinear_arith)
                requires
                    abs(x) == x || abs(x) == -x,
            ;
            assert(abs(y) * abs(y) == y * y) by (nonlinear_arith)
                requires
                    abs(y) == y || abs(y) == -y,
            ;
            assert(abs(z) * abs(z) == z * z) by (nonlinear_arith)
                requires
                    abs(z) == z || abs(z) == -z,
            ;
            assert(x * x + y * y + z * z <= t * t) by (nonlinear_arith)
                requires
                    t == abs(x) + abs(y) + abs(z),
                    abs(x) * abs(x) == x * x,
                    abs(y) * abs(y) == y * y,
                    abs(z) * abs(z) == z * z,
                    abs(x) >= 0,
                    abs(y) >= 0,
                    abs(z) >= 0,
            ;
            let k = 2 * (hi as int) - 1;
            let n = x * x + y * y + z * z;
            assert(k == 2 * a + 1);
            assert(a >= 0) by (nonlinear_arith)
                requires
                    a == sc * t,
                    sc >= 1,
                    t >= 0,
            ;
            assert(k * k > 4 * (a * a)) by (nonlinear_arith)
                requires
                    k == 2 * a + 1,
                    a >= 0,
            ;
            assert(a * a == (sc * sc) * (t * t)) by (nonlinear_arith)
                requires
                    a == sc * t,
            ;
            assert((sc * sc) * n <= (sc * sc) * (t * t)) by (nonlinear_arith)
                requires
                    n <= t * t,
            ;
            assert(k * k * (w * w) >= k * k) by (nonlinear_arith)
                requires
                    w >= 1,
            ;
            assert(k * k * (w * w) > 4 * (sc * sc) * n) by (nonlinear_arith)
                requires
                    k * k * (w * w) >= k * k,
                    k * k > 4 * (a * a),
                    a * a == (sc * sc) * (t * t),
                    (sc * sc) * n <= (sc * sc) * (t * t),
            ;
            assert(!length_reaches(c, sc, hi as int));
        }
        while hi - lo > 1
            invariant
                0 <= lo < hi <= 0x400_0000_0000,
                self.wf(),
                len_input(self.x as int),
                len_input(self.y as int),
                len_input(self.z as int),
                len_input(self.w as int),
                1 <= scale <= LEN_INPUT_MAX,
                c == self@,
                sc == scale as int,
                length_reaches(c, sc, lo as int),
                !length_reaches(c, sc, hi as int),
            decreases hi - lo,
        {
            let mid = lo + (hi - lo) / 2;
            if reaches_length(self, scale, mid) {
                lo = mid;
            } else {
                hi = mid;
            }
        }
        proof {
            assert forall|q: int| 0 <= q <= lo implies length_reaches(c, sc, q) by {
                lemma_length_reaches_monotone(c, sc, q, lo as int);
            }
            assert forall|q: int| q > lo implies !length_reaches(c, sc, q) by {
                if length_reaches(c, sc, q) {
                    lemma_length_reaches_monotone(c, sc, hi as int, q);
                }
            }
        }
        lo
    }
}

/// Addition of vectors does not depend on the order of the operands.
pub proof fn lemma_add_commutative(a: Vec3, b: Vec3)
    requires
        a.wf(),
        b.wf(),
    ensures
        sum(a@, b@) == sum(b@, a@),
{
    assert(sum(a@, b@) == sum(b@, a@)) by (nonlinear_arith);
}

/// Addition and subtraction act on each component alone: over a shared
/// denominator they add or subtract the numerators.
pub proof fn lemma_add_sub_component_wise(a: Vec3, b: Vec3)
    requires
        a.wf(),
        b.wf(),
        a.w == b.w,
    ensures
        same_vector(sum(a@, b@), (a@.0 + b@.0, a@.1 + b@.1, a@.2 + b@.2, a@.3)),
        same_vector(difference(a@, b@), (a@.0 - b@.0, a@.1 - b@.1, a@.2 - b@.2, a@.3)),
{
    let (a0, a1, a2, d) = (a@.0, a@.1, a@.2, a@.3);
    let (b0, b1, b2) = (b@.0, b@.1, b@.2);
    assert((a0 * d + b0 * d) * d == (a0 + b0) * (d * d)) by (nonlinear_arith);
    assert((a1 * d + b1 * d) * d == (a1 + b1) * (d * d)) by (nonlinear_arith);
    assert((a2 * d + b2 * d) * d == (a2 + b2) * (d * d)) by (nonlinear_arith);
    assert((a0 * d - b0 * d) * d == (a0 - b0) * (d * d)) by (nonlinear_arith);
    assert((a1 * d - b1 * d) * d == (a1 - b1) * (d * d)) by (nonlinear_arith);
    assert((a2 * d - b2 * d) * d == (a2 - b2) * (d * d)) by (nonlinear_arith);
}

/// Scaling distributes over addition: `(a + b) * s == a * s + b * s`.
pub proof fn lemma_scale_distributes(a: Vec3, b: Vec3, s: i64)
    requires
        a.wf(),
        b.wf(),
    ensures
        scaled(sum(a@, b@), s as int) == sum(scaled(a@, s as int), scaled(b@, s as int)),
{
    let (a0, a1, a2, aw) = a@;
    let (b0, b1, b2, bw) = b@;
    let k = s as int;
    assert((a0 * bw + b0 * aw) * k == (a0 * k) * bw + (b0 * k) * aw) by (nonlinear_arith);
    assert((a1 * bw + b1 * aw) * k == (a1 * k) * bw + (b1 * k) * aw) by (nonlinear_arith);
    assert((a2 * bw + b2 * aw) * k == (a2 * k) * bw + (b2 * k) * aw) by (nonlinear_arith);
}

/// The dot product does not depend on the order of the operands.
pub proof fn lemma_dot_commutative(a: Vec3, b: Vec3)
    requires
        a.wf(),
        b.wf(),
    ensures
        dot_product(a@, b@) == dot_product(b@, a@),
{
    assert(dot_product(a@, b@) == dot_product(b@, a@)) by (nonlinear_arith);
}

/// The cross product is anti-commutative: `cross(a, b) == -cross(b, a)`.
pub proof fn lemma_cross_anti_commutative(a: Vec3, b: Vec3)
    requires
        a.wf(),
        b.wf(),
    ensures
        cross_product(a@, b@) == negated(cross_product(b@, a@)),
{
    assert(cross_product(a@, b@) == negated(cross_product(b@, a@))) by (nonlinear_arith);
}

} // verus!
