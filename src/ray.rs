use vstd::prelude::*;
use crate::vec3::{Vec3, Ratio};

verus! {

/// Largest magnitude of a direction coordinate that `Ray::get_color` takes.
pub const DIRECTION_MAX: i64 = 0x100_0000;

/// `255.999 = QUANT_NUM / QUANT_DEN`: a channel value `c` in `[0, 1]` becomes
/// the integer `floor(c * 255.999)`, so that `1.0` gives `255`.
pub const QUANT_NUM: i64 = 255999;

pub const QUANT_DEN: i64 = 1000;

/// The horizon color, white, in tenths per channel.
pub const WHITE_TENTHS: (i64, i64, i64) = (10, 10, 10);

/// The zenith color, sky blue `(0.5, 0.7, 1.0)`, in tenths per channel.
pub const SKY_TENTHS: (i64, i64, i64) = (5, 7, 10);

/// A half-line from `origin` along `direction`; the direction need not have
/// length one.
#[derive(Clone, Copy, Debug)]
pub struct Ray {
    pub origin: Vec3,
    pub direction: Vec3,
}

/// A color with its channels quantized to `0..=255`.
#[derive(Clone, Copy, Debug, PartialEq, Eq, Structural)]
pub struct Pixel {
    pub r: i32,
    pub g: i32,
    pub b: i32,
}

/// The numerators of a direction. A positive denominator only scales the
/// vector, which leaves its unit vector unchanged.
pub open spec fn numerators(v: Vec3) -> (int, int, int) {
    (v.x as int, v.y as int, v.z as int)
}

pub open spec fn widen(d: (i64, i64, i64)) -> (int, int, int) {
    (d.0 as int, d.1 as int, d.2 as int)
}

pub open spec fn norm_squared(d: (int, int, int)) -> int {
    d.0 * d.0 + d.1 * d.1 + d.2 * d.2
}

/// `k * sqrt(n) <= p` for `n >= 0`, decided over the integers.
pub open spec fn scaled_root_at_most(k: int, n: int, p: int) -> bool {
    if k <= 0 && p >= 0 {
        true
    } else if k >= 0 && p < 0 {
        false
    } else if k > 0 {
        k * k * n <= p * p
    } else {
        p * p <= k * k * n
    }
}

/// Whether `q <= 255.999 * c`, for the channel `c` of the sky gradient along
/// direction `d`. With `y = d.1 / |d|` and `t = (1 + y) / 2`, the channel is
/// `(from / 10) * (1 - t) + (to / 10) * t = ((from + to) + (to - from) * y) / 20`.
/// Multiplying out by `20000 * |d|` gives the integer comparison below.
pub open spec fn channel_reaches(from: int, to: int, d: (int, int, int), q: int) -> bool {
    scaled_root_at_most(
        20000 * q - QUANT_NUM * (from + to),
        norm_squared(d),
        QUANT_NUM * (to - from) * d.1,
    )
}

/// `level` is `floor(255.999 * c)` for that channel: the largest level in
/// `0..=255` that the channel reaches.
pub open spec fn is_quantized_channel(level: int, from: int, to: int, d: (int, int, int)) -> bool {
    &&& 0 <= level <= 255
    &&& (level == 0 || channel_reaches(from, to, d, level))
    &&& forall|q: int| level < q <= 255 ==> !channel_reaches(from, to, d, q)
}

/// `p` is the sky color seen along direction `d`, quantized: white toward
/// the ground, sky blue toward the zenith, blended linearly in `d.1 / |d|`.
pub open spec fn is_sky_pixel(p: Pixel, d: (int, int, int)) -> bool {
    &&& is_quantized_channel(p.r as int, WHITE_TENTHS.0 as int, SKY_TENTHS.0 as int, d)
    &&& is_quantized_channel(p.g as int, WHITE_TENTHS.1 as int, SKY_TENTHS.1 as int, d)
    &&& is_quantized_channel(p.b as int, WHITE_TENTHS.2 as int, SKY_TENTHS.2 as int, d)
}

/// A direction that `Ray::get_color` takes: nonzero, with small coordinates.
pub open spec fn colorable(d: (int, int, int)) -> bool {
    &&& -DIRECTION_MAX <= d.0 <= DIRECTION_MAX
    &&& -DIRECTION_MAX <= d.1 <= DIRECTION_MAX
    &&& -DIRECTION_MAX <= d.2 <= DIRECTION_MAX
    &&& norm_squared(d) > 0
}

fn root_at_most(k: i128, n: i128, p: i128) -> (r: bool)
    requires
        -0x100_0000 <= k <= 0x100_0000,
        0 <= n <= 0x4_0000_0000_0000,
        -0x4000_0000_0000 <= p <= 0x4000_0000_0000,
    ensures
        r == scaled_root_at_most(k as int, n as int, p as int),
{
    assert(0 <= k * k <= 0x1_0000_0000_0000) by (nonlinear_arith)
        requires
            -0x100_0000 <= k <= 0x100_0000,
    ;
    assert(0 <= k * k * n <= 0x4_0000_0000_0000_0000_0000_0000) by (nonlinear_arith)
        requires
            0 <= k * k <= 0x1_0000_0000_0000,
            0 <= n <= 0x4_0000_0000_0000,
    ;
    assert(0 <= p * p <= 0x1000_0000_0000_0000_0000_0000) by (nonlinear_arith)
        requires
            -0x4000_0000_0000 <= p <= 0x4000_0000_0000,
    ;
    if k <= 0 && p >= 0 {
        true
    } else if k >= 0 && p < 0 {
        false
    } else if k > 0 {
        k * k * n <= p * p
    } else {
        p * p <= k * k * n
    }
}

/// The quantized channel that runs from `from / 10` to `to / 10` along the
/// sky gradient, seen along direction `d`.
fn quantized_channel(from: i64, to: i64, d: (i64, i64, i64)) -> (level: i32)
    requires
        0 <= from <= 10,
        0 <= to <= 10,
        colorable(widen(d)),
    ensures
        is_quantized_channel(level as int, from as int, to as int, widen(d)),
{
    let (x, y, z) = (d.0 as i128, d.1 as i128, d.2 as i128);
    assert(0 <= x * x <= 0x1_0000_0000_0000) by (nonlinear_arith)
        requires
            -0x100_0000 <= x <= 0x100_0000,
    ;
    assert(0 <= y * y <= 0x1_0000_0000_0000) by (nonlinear_arith)
        requires
            -0x100_0000 <= y <= 0x100_0000,
    ;
    assert(0 <= z * z <= 0x1_0000_0000_0000) by (nonlinear_arith)
        requires
            -0x100_0000 <= z <= 0x100_0000,
    ;
    let n = x * x + y * y + z * z;
    let spread = (to - from) as i128;
    assert(-0x4000_0000_0000 <= 255999 * spread * y <= 0x4000_0000_0000) by (nonlinear_arith)
        requires
            -10 <= spread <= 10,
            -0x100_0000 <= y <= 0x100_0000,
    ;
    let p = 255999 * spread * y;
    let base = QUANT_NUM as i128 * (from + to) as i128;
    let mut q: i128 = 255;
    while q > 0
        invariant
            0 <= q <= 255,
            0 <= from <= 10,
            0 <= to <= 10,
            0 <= n <= 0x4_0000_0000_0000,
            -0x4000_0000_0000 <= p <= 0x4000_0000_0000,
            n == norm_squared(widen(d)),
            p == QUANT_NUM * (to - from) * widen(d).1,
            base == QUANT_NUM * (from + to),
            forall|k: int| q < k <= 255 ==> !channel_reaches(from as int, to as int, widen(d), k),
        decreases q,
    {
        if root_at_most(20000 * q - base, n, p) {
            return q as i32;
        }
        q = q - 1;
    }
    0
}

impl Ray {
    /// The sky color seen along the ray, quantized per channel: white at
    /// `t = 0` (straight down), `(0.5, 0.7, 1.0)` at `t = 1` (straight up),
    /// where `t = (1 + y) / 2` and `y` is the vertical part of the unit
    /// direction. The origin plays no part.
    pub fn get_color(&self) -> (r: Pixel)
        requires
            self.direction.wf(),
            colorable(numerators(self.direction)),
        ensures
            is_sky_pixel(r, numerators(self.direction)),
    {
        let d = (self.direction.x, self.direction.y, self.direction.z);
        Pixel {
            r: quantized_channel(WHITE_TENTHS.0, SKY_TENTHS.0, d),
            g: quantized_channel(WHITE_TENTHS.1, SKY_TENTHS.1, d),
            b: quantized_channel(WHITE_TENTHS.2, SKY_TENTHS.2, d),
        }
    }
}

/// Quantizes one channel value `c` in `[0, 1]`: `floor(c * 255.999)`.
pub fn quantize(c: Ratio) -> (r: i32)
    requires
        0 <= c@.0 <= c@.1,
        c@.1 > 0,
    ensures
        r as int == (QUANT_NUM * c@.0) / (QUANT_DEN * c@.1),
        0 <= r <= 255,
{
    let num = 255999 * c.num as i128;
    let den = 1000 * c.den as i128;
    let ghost (a, b) = (c.num as int, c.den as int);
    assert(num / den <= 255) by (nonlinear_arith)
        requires
            0 <= a <= b,
            num == 255999 * a,
            den == 1000 * b,
            b > 0,
    ;
    (num / den) as i32
}

} // verus!
