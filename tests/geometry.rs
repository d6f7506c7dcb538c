use raytracer::ray::Ray;
use raytracer::sphere::hit_sphere;
use raytracer::vec3::{Ratio, Vec3};

#[test]
fn test_len() {
    let vec = Vec3::new((1, 2, 3));
    let hundredths = vec.len(100);
    let len = format!("{}.{:02}", hundredths / 100, hundredths % 100);

    assert_eq!(len, "3.74");
}

#[test]
fn len_to_four_places() {
    // |(1, 2, 3)| = 3.74165...
    assert_eq!(Vec3::new((1, 2, 3)).len(10000), 37417);
}

#[test]
fn len_of_fraction_and_zero() {
    assert_eq!(Vec3::with_denominator((3, 4, 0), 5).len(10), 10);
    assert_eq!(Vec3::new((0, 0, 0)).len(1000), 0);
    assert_eq!(Vec3::new((-3, 0, -4)).len(1), 5);
}

#[test]
fn len_rounds_halves_up() {
    // |(1, 1, 0)| = 1.41421...: 1.4 at one place, 14.1 -> 14, 141.4 -> 141
    assert_eq!(Vec3::new((1, 1, 0)).len(10), 14);
    assert_eq!(Vec3::new((1, 1, 0)).len(100), 141);
    // 2.5 exactly: rounds to 3
    assert_eq!(Vec3::with_denominator((5, 0, 0), 2).len(1), 3);
}

#[test]
fn sphere_ahead_is_hit() {
    let ray = Ray { origin: Vec3::new((0, 0, 0)), direction: Vec3::new((0, 0, -1)) };
    assert!(hit_sphere(Vec3::new((0, 0, -1)), Ratio { num: 1, den: 2 }, &ray));
}

#[test]
fn sphere_beside_is_missed() {
    let ray = Ray { origin: Vec3::new((0, 0, 0)), direction: Vec3::new((1, 0, 0)) };
    assert!(!hit_sphere(Vec3::new((0, 0, -1)), Ratio { num: 1, den: 2 }, &ray));
}

#[test]
fn sphere_touched_is_not_hit() {
    let ray = Ray { origin: Vec3::new((0, 0, 0)), direction: Vec3::new((1, 0, 0)) };
    assert!(!hit_sphere(Vec3::new((0, 0, -1)), Ratio { num: 1, den: 1 }, &ray));
}
