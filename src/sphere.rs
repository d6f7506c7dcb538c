use vstd::prelude::*;
use crate::vec3::{Vec3, Ratio, Coords, difference};
use crate::ray::Ray;

verus! {

/// Largest magnitude of a numerator or denominator that `hit_sphere` takes.
pub const SPHERE_INPUT_MAX: i64 = 0x1000;

pub open spec fn sphere_input(v: Coords) -> bool {
    &&& -SPHERE_INPUT_MAX <= v.0 <= SPHERE_INPUT_MAX
    &&& -SPHERE_INPUT_MAX <= v.1 <= SPHERE_INPUT_MAX
    &&& -SPHERE_INPUT_MAX <= v.2 <= SPHERE_INPUT_MAX
    &&& 1 <= v.3 <= SPHERE_INPUT_MAX
}

/// Dot product of the numerators.
pub open spec fn dot3(a: Coords, b: Coords) -> int {
    a.0 * b.0 + a.1 * b.1 + a.2 * b.2
}

/// The discriminant `b^2 - 4ac` of `|origin + s * d - center|^2 = radius^2`
/// as a quadratic in `s`, times the positive factor `ow^2 * dw^2 * rd^2 / 4`,
/// where `oc = origin - center` has numerators `O` over `ow`, `d` has
/// numerators `D` over `dw`, and `radius = rn / rd`:
/// `(O.D)^2 * rd^2 - (D.D) * ((O.O) * rd^2 - rn^2 * ow^2)`.
pub open spec fn sphere_discriminant(
    origin: Coords,
    center: Coords,
    radius: (int, int),
    d: Coords,
) -> int {
    let oc = difference(origin, center);
    let od = dot3(oc, d);
    od * od * (radius.1 * radius.1) - dot3(d, d) * (dot3(oc, oc) * (radius.1 * radius.1) - (
    radius.0 * radius.0) * (oc.3 * oc.3))
}

proof fn lemma_mul_bound(a: int, b: int, x: int, y: int)
    requires
        -x <= a <= x,
        -y <= b <= y,
    ensures
        -(x * y) <= a * b <= x * y,
{
    assert(-(x * y) <= a * b <= x * y) by (nonlinear_arith)
        requires
            -x <= a <= x,
            -y <= b <= y,
    ;
}

/// Whether the line of the ray meets the sphere in two points: the
/// discriminant of the intersection equation is positive.
pub fn hit_sphere(center: Vec3, radius: Ratio, r: &Ray) -> (hit: bool)
    requires
        center.wf(),
        r.origin.wf(),
        r.direction.wf(),
        sphere_input(center@),
        sphere_input(r.origin@),
        sphere_input(r.direction@),
        -SPHERE_INPUT_MAX <= radius@.0 <= SPHERE_INPUT_MAX,
        1 <= radius@.1 <= SPHERE_INPUT_MAX,
    ensures
        hit == (sphere_discriminant(r.origin@, center@, radius@, r.direction@) > 0),
{
    let (o, c) = (r.origin, center);
    let ghost m: int = 0x1000;
    proof {
        lemma_mul_bound(o.x as int, c.w as int, m, m);
        lemma_mul_bound(c.x as int, o.w as int, m, m);
        lemma_mul_bound(o.y as int, c.w as int, m, m);
        lemma_mul_bound(c.y as int, o.w as int, m, m);
        lemma_mul_bound(o.z as int, c.w as int, m, m);
        lemma_mul_bound(c.z as int, o.w as int, m, m);
        lemma_mul_bound(o.w as int, c.w as int, m, m);
        assert(m * m == 0x100_0000);
        assert(o.w * c.w > 0) by (nonlinear_arith)
            requires
                o.w > 0,
                c.w > 0,
        ;
    }
    let oc = o.sub(&c);
    let d = r.direction;
    let (ox, oy, oz, ow) = (oc.x as i128, oc.y as i128, oc.z as i128, oc.w as i128);
    let (dx, dy, dz) = (d.x as i128, d.y as i128, d.z as i128);
    let (rn, rd) = (radius.num as i128, radius.den as i128);
    let ghost big: int = 0x200_0000;
    proof {
        lemma_mul_bound(ox as int, dx as int, big, m);
        lemma_mul_bound(oy as int, dy as int, big, m);
        lemma_mul_bound(oz as int, dz as int, big, m);
        lemma_mul_bound(dx as int, dx as int, m, m);
        lemma_mul_bound(dy as int, dy as int, m, m);
        lemma_mul_bound(dz as int, dz as int, m, m);
        lemma_mul_bound(ox as int, ox as int, big, big);
        lemma_mul_bound(oy as int, oy as int, big, big);
        lemma_mul_bound(oz as int, oz as int, big, big);
        lemma_mul_bound(rn as int, rn as int, m, m);
        lemma_mul_bound(rd as int, rd as int, m, m);
        lemma_mul_bound(ow as int, ow as int, m * m, m * m);
    }
    let od = ox * dx + oy * dy + oz * dz;
    let dd = dx * dx + dy * dy + dz * dz;
    let oo = ox * ox + oy * oy + oz * oz;
    let (rn2, rd2, ow2) = (rn * rn, rd * rd, ow * ow);
    let ghost e39: int = 0x80_0000_0000;
    let ghost e26: int = 0x400_0000;
    let ghost e52: int = 0x10_0000_0000_0000;
    let ghost e24: int = 0x100_0000;
    let ghost e48: int = 0x1_0000_0000_0000;
    proof {
        lemma_mul_bound(od as int, od as int, e39, e39);
        lemma_mul_bound(oo as int, rd2 as int, e52, e24);
        lemma_mul_bound(rn2 as int, ow2 as int, e24, e48);
    }
    let od2 = od * od;
    let oo_rd2 = oo * rd2;
    let rn2_ow2 = rn2 * ow2;
    let inner = oo_rd2 - rn2_ow2;
    let ghost e78: int = 0x4000_0000_0000_0000_0000;
    let ghost e77: int = 0x2000_0000_0000_0000_0000;
    proof {
        lemma_mul_bound(od2 as int, rd2 as int, e78, e24);
        lemma_mul_bound(dd as int, inner as int, e26, e77);
    }
    let disc = od2 * rd2 - dd * inner;
    disc > 0
}

} // verus!
