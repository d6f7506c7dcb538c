use raytracer::vec3::{cross, dot, Ratio, Vec3};

#[test]
fn test_add_vectors() {
    let vec1 = Vec3::new((1, 3, -4));
    let vec2 = Vec3::new((2, 2, -2));

    let vec_expected = Vec3::new((3, 5, -6));

    assert_eq!(vec1.add(&vec2), vec_expected);
}

#[test]
fn test_scalar_mul() {
    let vec1 = Vec3::new((1, 2, 3));
    let scalar = 4;

    let vec_expected = Vec3::new((4, 8, 12));

    assert_eq!(vec1.scale(scalar), vec_expected);
}

#[test]
fn test_mul_vectors() {
    let vec1 = Vec3::new((1, 2, 3));
    let vec2 = Vec3::new((2, 3, 4));

    let vec_expected = Vec3::new((2, 6, 12));

    assert_eq!(vec1.mul(&vec2), vec_expected);
}

#[test]
fn test_scalar_div() {
    let vec = Vec3::new((1, 2, 3));
    let scalar = 2;

    // (0.5, 1.0, 1.5)
    let vec_expected = Vec3::with_denominator((1, 2, 3), 2);

    assert_eq!(vec.div(scalar), vec_expected);
}

#[test]
fn test_dot() {
    let vec1 = Vec3::new((1, 2, 3));
    let vec2 = Vec3::new((3, 2, 1));

    assert_eq!(dot(vec1, vec2), Ratio { num: 10, den: 1 });
}

#[test]
fn test_cross() {
    let vec1 = Vec3::new((1, 2, 3));
    let vec2 = Vec3::new((3, 2, 1));

    let result_vec = Vec3::new((-4, 8, -4));

    assert_eq!(cross(vec1, vec2), result_vec);
}

#[test]
fn add_is_commutative_on_fractions() {
    let a = Vec3::with_denominator((1, -2, 5), 3);
    let b = Vec3::with_denominator((7, 4, -1), 2);
    let ab = a.add(&b);
    let ba = b.add(&a);
    assert_eq!((ab.x, ab.y, ab.z, ab.w), (ba.x, ba.y, ba.z, ba.w));
    // 1/3 + 7/2 = 23/6, -2/3 + 2 = 8/6, 5/3 - 1/2 = 7/6
    assert_eq!(ab, Vec3::with_denominator((23, 8, 7), 6));
}

#[test]
fn sub_is_component_wise() {
    let a = Vec3::new((5, 1, -3));
    let b = Vec3::new((2, 4, -3));
    assert_eq!(a.sub(&b), Vec3::new((3, -3, 0)));
    let half = Vec3::with_denominator((1, 1, 1), 2);
    assert_eq!(a.sub(&half), Vec3::with_denominator((9, 1, -7), 2));
}

#[test]
fn scale_distributes_over_add() {
    let a = Vec3::with_denominator((1, 2, 3), 4);
    let b = Vec3::new((-5, 0, 7));
    let s = -3;
    let left = a.add(&b).scale(s);
    let right = a.scale(s).add(&b.scale(s));
    assert_eq!((left.x, left.y, left.z, left.w), (right.x, right.y, right.z, right.w));
}

#[test]
fn dot_is_commutative() {
    let a = Vec3::with_denominator((1, 2, 3), 5);
    let b = Vec3::new((-4, 0, 9));
    let ab = dot(a, b);
    let ba = dot(b, a);
    assert_eq!((ab.num, ab.den), (ba.num, ba.den));
    assert_eq!(ab, Ratio { num: 23, den: 5 });
}

#[test]
fn cross_is_anti_commutative() {
    let a = Vec3::new((1, 2, 3));
    let b = Vec3::new((3, 2, 1));
    let ab = cross(a, b);
    let ba = cross(b, a);
    assert_eq!((ab.x, ab.y, ab.z, ab.w), (-ba.x, -ba.y, -ba.z, ba.w));
    assert_eq!(ba, Vec3::new((4, -8, 4)));
}

#[test]
fn div_by_negative_keeps_denominator_positive() {
    let v = Vec3::new((2, -4, 6));
    let q = v.div(-4);
    assert!(q.w > 0);
    assert_eq!(q, Vec3::with_denominator((-1, 2, -3), 2));
}

#[test]
fn equality_compares_values_not_forms() {
    assert_eq!(Vec3::with_denominator((2, 4, 6), 4), Vec3::with_denominator((1, 2, 3), 2));
    assert_ne!(Vec3::with_denominator((2, 4, 6), 4), Vec3::new((1, 2, 3)));
}

#[test]
fn color_channels_are_fractions() {
    let c = Vec3::with_denominator((5, 7, 10), 10);
    assert_eq!(c.r(), Ratio { num: 1, den: 2 });
    assert_eq!(c.g(), Ratio { num: 7, den: 10 });
    assert_eq!(c.b(), Ratio { num: 1, den: 1 });
}
