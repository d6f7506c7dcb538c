use vstd::prelude::*;
use crate::ray::{Pixel, is_sky_pixel};
use crate::camera::{pixel_direction, valid_size, render_pixel};

verus! {

/// `rows` holds, for each `i < rows.len()`, the pixels of image row
/// `height - 1 - i` (rows top to bottom), columns left to right.
pub open spec fn scanned(rows: Seq<Vec<Pixel>>, width: int, height: int) -> bool {
    forall|i: int|
        0 <= i < rows.len() ==> {
            &&& (#[trigger] rows[i])@.len() == width
            &&& forall|j: int|
                0 <= j < width ==> is_sky_pixel(
                    #[trigger] rows[i]@[j],
                    pixel_direction(j, height - 1 - i, width, height),
                )
        }
}

/// Renders a `width` by `height` image in scan order: the first row is the
/// top of the image (row index `height - 1`), each row runs from column `0`
/// to `width - 1`, and every pixel is `render_pixel` of its place.
pub fn generate_image(width: i64, height: i64) -> (r: Vec<Vec<Pixel>>)
    requires
        valid_size(width as int, height as int),
    ensures
        r@.len() == height,
        scanned(r@, width as int, height as int),
{
    let mut rows: Vec<Vec<Pixel>> = Vec::new();
    let mut row: i64 = height;
    while row > 0
        invariant
            valid_size(width as int, height as int),
            0 <= row <= height,
            rows@.len() == height - row,
            scanned(rows@, width as int, height as int),
        decreases row,
    {
        row = row - 1;
        let mut line: Vec<Pixel> = Vec::new();
        let mut col: i64 = 0;
        while col < width
            invariant
                valid_size(width as int, height as int),
                0 <= row < height,
                0 <= col <= width,
                line@.len() == col,
                forall|j: int|
                    0 <= j < col ==> is_sky_pixel(
                        #[trigger] line@[j],
                        pixel_direction(j, row as int, width as int, height as int),
                    ),
            decreases width - col,
        {
            line.push(render_pixel(col, row, width, height));
            col = col + 1;
        }
        rows.push(line);
    }
    rows
}

} // verus!
