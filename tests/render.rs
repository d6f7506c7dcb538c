use raytracer::camera::{render_pixel, Viewport};
use raytracer::image::generate_image;
use raytracer::ray::{quantize, Pixel, Ray};
use raytracer::vec3::{Ratio, Vec3};

fn straight(x: i64, y: i64, z: i64) -> Ray {
    Ray { origin: Vec3::new((0, 0, 0)), direction: Vec3::new((x, y, z)) }
}

fn expected_pixel(col: i64, row: i64, width: i64, height: i64) -> (i32, i32, i32) {
    let u = col as f64 / width as f64;
    let v = row as f64 / height as f64;
    let d = (-2.0 + 4.0 * u, -1.0 + 2.0 * v, -1.0f64);
    let len = (d.0 * d.0 + d.1 * d.1 + d.2 * d.2).sqrt();
    let t = 0.5 * (d.1 / len + 1.0);
    let c = (1.0 - 0.5 * t, 1.0 - 0.3 * t, 1.0f64);
    ((c.0 * 255.999) as i32, (c.1 * 255.999) as i32, (c.2 * 255.999) as i32)
}

#[test]
fn test_get_color() {
    let ray1 = straight(1, 2, 2);
    let ray2 = straight(-2, -2, -2);

    let c1 = ray1.get_color();
    let c2 = ray2.get_color();
    println!("{}, {}, {}\t || {}, {}, {}\t", c1.r, c1.g, c1.b, c2.r, c2.g, c2.b);

    // y = 2/3: t = 5/6; y = -1/sqrt(3): t = 0.2113...
    assert_eq!(c1, Pixel { r: 149, g: 191, b: 255 });
    assert_eq!(c2, Pixel { r: 228, g: 239, b: 255 });
}

#[test]
fn straight_up_is_sky_blue() {
    assert_eq!(straight(0, 1, 0).get_color(), Pixel { r: 127, g: 179, b: 255 });
    assert_eq!(
        straight(0, 1, 0).get_color(),
        Pixel {
            r: quantize(Ratio { num: 1, den: 2 }),
            g: quantize(Ratio { num: 7, den: 10 }),
            b: quantize(Ratio { num: 1, den: 1 }),
        }
    );
}

#[test]
fn straight_down_is_white() {
    assert_eq!(straight(0, -1, 0).get_color(), Pixel { r: 255, g: 255, b: 255 });
}

#[test]
fn color_ignores_length_and_denominator() {
    let long = straight(0, 7, 0).get_color();
    let fraction = Ray {
        origin: Vec3::new((5, 5, 5)),
        direction: Vec3::with_denominator((0, 1, 0), 9),
    };
    assert_eq!(long, fraction.get_color());
}

#[test]
fn horizon_is_halfway() {
    // t = 0.5: (0.75, 0.85, 1.0)
    assert_eq!(straight(1, 0, 0).get_color(), Pixel { r: 191, g: 217, b: 255 });
}

#[test]
fn quantize_bounds() {
    assert_eq!(quantize(Ratio { num: 1, den: 1 }), 255);
    assert_eq!(quantize(Ratio { num: 0, den: 1 }), 0);
    assert_eq!(quantize(Ratio { num: 1, den: 2 }), 127);
    assert_eq!(quantize(Ratio { num: 7, den: 10 }), 179);
}

#[test]
fn ray_for_standard_corners() {
    let vp = Viewport::standard();
    let lower_left = vp.ray_for(0, 200, 0, 100);
    assert_eq!(lower_left.direction, Vec3::new((-2, -1, -1)));
    let upper_right = vp.ray_for(200, 200, 100, 100);
    assert_eq!(upper_right.direction, Vec3::new((2, 1, -1)));
    let center = vp.ray_for(1, 2, 1, 2);
    assert_eq!(center.direction, Vec3::new((0, 0, -1)));
    assert_eq!(center.origin, Vec3::new((0, 0, 0)));
}

#[test]
fn ray_for_extrapolates() {
    let vp = Viewport::standard();
    let beyond = vp.ray_for(3, 2, -1, 2);
    assert_eq!(beyond.direction, Vec3::new((4, -2, -1)));
}

#[test]
fn generate_image_shape_and_corners() {
    let image = generate_image(200, 100);
    assert_eq!(image.len(), 100);
    assert!(image.iter().all(|row| row.len() == 200));

    let top_left = image[0][0];
    let (r, g, b) = expected_pixel(0, 99, 200, 100);
    assert_eq!((top_left.r, top_left.g, top_left.b), (r, g, b));

    let bottom_right = image[99][199];
    let (r, g, b) = expected_pixel(199, 0, 200, 100);
    assert_eq!((bottom_right.r, bottom_right.g, bottom_right.b), (r, g, b));

    assert_eq!(top_left, render_pixel(0, 99, 200, 100));
    assert_eq!(top_left, Pixel { r: 166, g: 202, b: 255 });
    assert_eq!(bottom_right, Pixel { r: 218, g: 233, b: 255 });
}

#[test]
fn generate_single_pixel() {
    let image = generate_image(1, 1);
    assert_eq!(image.len(), 1);
    assert_eq!(image[0].len(), 1);
    // direction (-2, -1, -1)
    let (r, g, b) = expected_pixel(0, 0, 1, 1);
    assert_eq!((image[0][0].r, image[0][0].g, image[0][0].b), (r, g, b));
}
