//! Gray preview of a raster: every visible pixel becomes an opaque gray of its luma, every
//! transparent pixel is cleared.

use vstd::prelude::*;
use crate::pixel::{gray_of, gray_pixel, pixel_luma};
use crate::raster::{
    lemma_grid_ext, lemma_view_wf, raster_dimensions, raster_get, raster_height, raster_pixels,
    raster_put, raster_width, walked_before, Grid, Raster,
};

verus! {

/// The gray preview of a whole grid: every pixel turned gray by itself, the dimensions kept.
pub open spec fn gray_grid(g: Grid) -> Grid {
    Grid::build(g.width, g.height, |x: int, y: int| gray_of(g.at(x, y)))
}

/// After the gray preview a pixel is transparent exactly when it was; a pixel that was
/// transparent is exactly `(0, 0, 0, 0)`, and any other pixel holds its luma in all three
/// colour channels and is fully opaque.
pub proof fn lemma_gray_pixels(g: Grid, x: int, y: int)
    requires
        g.contains(x, y),
    ensures
        gray_grid(g).at(x, y).3 == 0 <==> g.at(x, y).3 == 0,
        g.at(x, y).3 == 0 ==> gray_grid(g).at(x, y) == (0u8, 0u8, 0u8, 0u8),
        g.at(x, y).3 != 0 ==> {
            let q = gray_grid(g).at(x, y);
            &&& q.0 == pixel_luma(g.at(x, y))
            &&& q.1 == pixel_luma(g.at(x, y))
            &&& q.2 == pixel_luma(g.at(x, y))
            &&& q.3 == 255
        },
{
    let p = g.at(x, y);
    crate::pixel::lemma_luma_range(p.0, p.1, p.2);
}

/// Turns a raster gray in place.
pub fn gray_raster(img: &mut Raster)
    ensures
        final(img)@ == gray_grid(old(img)@),
{
    let ghost before = *img;
    let (width, height) = raster_dimensions(img);
    let mut y: u32 = 0;
    while y < height
        invariant
            y <= height,
            width == raster_width(before),
            height == raster_height(before),
            raster_width(*img) == width,
            raster_height(*img) == height,
            forall|i: int, j: int|
                0 <= i < width && 0 <= j < height ==> #[trigger] raster_pixels(*img)[(i, j)] == (
                if j < y {
                    gray_of(raster_pixels(before)[(i, j)])
                } else {
                    raster_pixels(before)[(i, j)]
                }),
        decreases height - y,
    {
        let mut x: u32 = 0;
        while x < width
            invariant
                y < height,
                x <= width,
                width == raster_width(before),
                height == raster_height(before),
                raster_width(*img) == width,
                raster_height(*img) == height,
                forall|i: int, j: int|
                    0 <= i < width && 0 <= j < height ==> #[trigger] raster_pixels(*img)[(i, j)]
                        == (if walked_before(i, j, x as int, y as int) {
                        gray_of(raster_pixels(before)[(i, j)])
                    } else {
                        raster_pixels(before)[(i, j)]
                    }),
            decreases width - x,
        {
            let p = raster_get(img, x, y);
            raster_put(img, x, y, gray_pixel(p));
            x += 1;
        }
        y += 1;
    }
    proof {
        lemma_view_wf(*img);
        lemma_grid_ext(img@, gray_grid(before@));
    }
}

} // verus!
