use vstd::prelude::*;
use crate::vec3::{Vec3, Coords, representable, sum, scaled, quotient, in_range};
use crate::ray::{Ray, Pixel, numerators, is_sky_pixel, colorable};

verus! {

/// The fixed camera plane: rays leave `origin` toward
/// `lower_left_corner + horizontal * u + vertical * v`.
#[derive(Clone, Copy, Debug)]
pub struct Viewport {
    pub origin: Vec3,
    pub horizontal: Vec3,
    pub vertical: Vec3,
    pub lower_left_corner: Vec3,
}

/// Largest number of pixels in an image that `render_pixel` and
/// `generate_image` take.
pub const MAX_PIXELS: i64 = 0x80_0000;

/// The direction toward the point `(u, v) = (col / width, row / height)` of a
/// viewport given by its corner and its two spans.
pub open spec fn plane_direction(
    corner: Coords,
    horizontal: Coords,
    vertical: Coords,
    col: int,
    width: int,
    row: int,
    height: int,
) -> Coords {
    sum(
        sum(corner, quotient(scaled(horizontal, col), width)),
        quotient(scaled(vertical, row), height),
    )
}

/// Every intermediate value of `Viewport::ray_for` fits in a `Vec3`.
pub open spec fn mappable(
    corner: Coords,
    horizontal: Coords,
    vertical: Coords,
    col: int,
    width: int,
    row: int,
    height: int,
) -> bool {
    let h = scaled(horizontal, col);
    let v = scaled(vertical, row);
    &&& in_range(col) && in_range(row) && in_range(width) && in_range(height)
    &&& width != 0 && height != 0
    &&& representable(h)
    &&& representable(quotient(h, width))
    &&& representable(sum(corner, quotient(h, width)))
    &&& representable(v)
    &&& representable(quotient(v, height))
    &&& representable(plane_direction(corner, horizontal, vertical, col, width, row, height))
}

/// The camera of the renderer: at the world origin, looking down `-z`, onto a
/// plane of width 4 and height 2 at distance 1.
pub open spec fn standard_coords() -> (Coords, Coords, Coords, Coords) {
    ((0, 0, 0, 1), (4, 0, 0, 1), (0, 2, 0, 1), (-2, -1, -1, 1))
}

/// The direction of the standard camera's ray through pixel `(col, row)` of a
/// `width` by `height` image, scaled by `width * height`.
pub open spec fn pixel_direction(col: int, row: int, width: int, height: int) -> (int, int, int) {
    ((4 * col - 2 * width) * height, (2 * row - height) * width, -(width * height))
}

/// The sizes that the renderer takes: at least one pixel, at most `MAX_PIXELS`.
pub open spec fn valid_size(width: int, height: int) -> bool {
    1 <= width && 1 <= height && width * height <= MAX_PIXELS
}

impl Viewport {
    pub open spec fn wf(&self) -> bool {
        &&& self.origin.wf()
        &&& self.horizontal.wf()
        &&& self.vertical.wf()
        &&& self.lower_left_corner.wf()
    }

    /// The standard camera.
    pub fn standard() -> (r: Viewport)
        ensures
            r.wf(),
            (r.origin@, r.horizontal@, r.vertical@, r.lower_left_corner@) == standard_coords(),
    {
        Viewport {
            origin: Vec3::new((0, 0, 0)),
            horizontal: Vec3::new((4, 0, 0)),
            vertical: Vec3::new((0, 2, 0)),
            lower_left_corner: Vec3::new((-2, -1, -1)),
        }
    }

    /// The ray from the camera through the point `(u, v)` of the plane, with
    /// `u = col / width` and `v = row / height`. Values outside `[0, 1]`
    /// extrapolate.
    pub fn ray_for(&self, col: i64, width: i64, row: i64, height: i64) -> (r: Ray)
        requires
            self.wf(),
            mappable(
                self.lower_left_corner@,
                self.horizontal@,
                self.vertical@,
                col as int,
                width as int,
                row as int,
                height as int,
            ),
        ensures
            r.origin == self.origin,
            r.direction.wf(),
            r.direction@ == plane_direction(
                self.lower_left_corner@,
                self.horizontal@,
                self.vertical@,
                col as int,
                width as int,
                row as int,
                height as int,
            ),
    {
        let across = self.horizontal.scale(col).div(width);
        let up = self.vertical.scale(row).div(height);
        Ray { origin: self.origin, direction: self.lower_left_corner.add(&across).add(&up) }
    }
}

proof fn lemma_standard_mapping(col: int, row: int, width: int, height: int)
    requires
        valid_size(width, height),
        0 <= col < width,
        0 <= row < height,
    ensures
        mappable(
            standard_coords().3,
            standard_coords().1,
            standard_coords().2,
            col,
            width,
            row,
            height,
        ),
        plane_direction(
            standard_coords().3,
            standard_coords().1,
            standard_coords().2,
            col,
            width,
            row,
            height,
        ) == ({
            let d = pixel_direction(col, row, width, height);
            (d.0, d.1, d.2, width * height)
        }),
        colorable(pixel_direction(col, row, width, height)),
{
    let (w, hh) = (width, height);
    let wh = w * hh;
    assert(w <= wh && hh <= wh && 1 <= wh) by (nonlinear_arith)
        requires
            1 <= w,
            1 <= hh,
            wh == w * hh,
    ;
    assert(-2 * wh <= (4 * col - 2 * w) * hh <= 2 * wh) by (nonlinear_arith)
        requires
            0 <= col < w,
            1 <= hh,
            wh == w * hh,
    ;
    assert(-wh <= (2 * row - hh) * w <= wh) by (nonlinear_arith)
        requires
            0 <= row < hh,
            1 <= w,
            wh == w * hh,
    ;
    let corner = standard_coords().3;
    let across = quotient(scaled(standard_coords().1, col), w);
    assert(across == (4 * col, 0int, 0int, w));
    let left = sum(corner, across);
    assert(left == (4 * col - 2 * w, -w, -w, w)) by (nonlinear_arith)
        requires
            corner == (-2int, -1int, -1int, 1int),
            across == (4 * col, 0int, 0int, w),
            left == sum(corner, across),
    ;
    let up = quotient(scaled(standard_coords().2, row), hh);
    assert(up == (0int, 2 * row, 0int, hh)) by (nonlinear_arith)
        requires
            hh > 0,
            up == quotient(scaled((0int, 2int, 0int, 1int), row), hh),
    ;
    assert(left.0 * up.3 + up.0 * left.3 == (4 * col - 2 * w) * hh);
    assert(left.1 * up.3 + up.1 * left.3 == (2 * row - hh) * w) by (nonlinear_arith)
        requires
            left.1 == -w,
            up.3 == hh,
            up.1 == 2 * row,
            left.3 == w,
    ;
    assert(left.2 * up.3 + up.2 * left.3 == -wh) by (nonlinear_arith)
        requires
            left.2 == -w,
            up.3 == hh,
            up.2 == 0,
            wh == w * hh,
    ;
    let d = pixel_direction(col, row, width, height);
    assert(d.0 * d.0 >= 0 && d.1 * d.1 >= 0 && d.2 * d.2 > 0) by (nonlinear_arith)
        requires
            d.2 <= -1,
    ;
}

/// The quantized sky color of pixel `(col, row)` of a `width` by `height`
/// image, `row` counted from the bottom: the standard camera's ray through
/// `(col / width, row / height)`, colored by `Ray::get_color`.
pub fn render_pixel(col: i64, row: i64, width: i64, height: i64) -> (r: Pixel)
    requires
        valid_size(width as int, height as int),
        0 <= col < width,
        0 <= row < height,
    ensures
        is_sky_pixel(r, pixel_direction(col as int, row as int, width as int, height as int)),
{
    proof {
        lemma_standard_mapping(col as int, row as int, width as int, height as int);
    }
    let vp = Viewport::standard();
    let ray = vp.ray_for(col, width, row, height);
    assert(numerators(ray.direction) == pixel_direction(
        col as int,
        row as int,
        width as int,
        height as int,
    ));
    ray.get_color()
}

} // verus!
