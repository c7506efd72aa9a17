//! The raster that the transforms read and fill: an 8-bit RGBA pixel buffer of the `image`
//! crate, seen through a mathematical model of its dimensions and its pixels.

use vstd::prelude::*;
use crate::pixel::{clear_pixel, Rgba8};

verus! {

/// The mathematical content of a raster: its dimensions and one pixel for every coordinate
/// inside them. `cells` is defined on exactly the coordinates that `contains` accepts.
#[verifier::ext_equal]
pub struct Grid {
    pub width: nat,
    pub height: nat,
    pub cells: Map<(int, int), Rgba8>,
}

impl Grid {
    /// Whether `(x, y)` lies inside the grid.
    pub open spec fn contains(self, x: int, y: int) -> bool {
        0 <= x < self.width && 0 <= y < self.height
    }

    /// The pixel at `(x, y)`; meaningful only inside the grid.
    pub open spec fn at(self, x: int, y: int) -> Rgba8 {
        self.cells[(x, y)]
    }

    /// The grid of the given dimensions whose pixel at `(x, y)` is `f(x, y)`.
    pub open spec fn build(width: nat, height: nat, f: spec_fn(int, int) -> Rgba8) -> Grid {
        Grid {
            width,
            height,
            cells: Map::new(
                |k: (int, int)| 0 <= k.0 < width && 0 <= k.1 < height,
                |k: (int, int)| f(k.0, k.1),
            ),
        }
    }

    /// The grid of the given dimensions that holds `p` everywhere.
    pub open spec fn filled(width: nat, height: nat, p: Rgba8) -> Grid {
        Grid::build(width, height, |x: int, y: int| p)
    }

    /// This grid with the pixel at `(x, y)` replaced by `p`.
    pub open spec fn with_pixel(self, x: int, y: int, p: Rgba8) -> Grid {
        Grid::build(
            self.width,
            self.height,
            |i: int, j: int|
                if i == x && j == y {
                    p
                } else {
                    self.at(i, j)
                },
        )
    }

    /// A grid is well formed when its cells cover exactly its own coordinates.
    pub open spec fn wf(self) -> bool {
        self.cells.dom() =~= Set::new(|k: (int, int)| self.contains(k.0, k.1))
    }
}

/// Two well-formed grids of equal dimensions that agree at every coordinate are equal.
pub proof fn lemma_grid_ext(a: Grid, b: Grid)
    requires
        a.wf(),
        b.wf(),
        a.width == b.width,
        a.height == b.height,
        forall|x: int, y: int| a.contains(x, y) ==> a.at(x, y) == b.at(x, y),
    ensures
        a == b,
{
    assert forall|k: (int, int)| a.cells.dom().contains(k) implies #[trigger] a.cells[k]
        == b.cells[k] by {
        assert(a.contains(k.0, k.1));
        assert(a.at(k.0, k.1) == b.at(k.0, k.1));
    }
    assert(a.cells =~= b.cells);
}

/// Whether `(i, j)` comes before `(x, y)` when the rows are walked from the top and each
/// row from the left.
pub open spec fn walked_before(i: int, j: int, x: int, y: int) -> bool {
    j < y || (j == y && i < x)
}

/// The number of bytes that a raster of the given dimensions occupies: four for each pixel.
pub open spec fn byte_len(width: int, height: int) -> int {
    4 * (width * height)
}

/// Where the four bytes of the pixel at `(x, y)` start when the pixels are written out row
/// by row, four bytes each.
pub open spec fn byte_offset(width: int, x: int, y: int) -> int {
    4 * (y * width + x)
}

/// The grid that `data` describes when read row by row, four bytes for each pixel: red,
/// green, blue, alpha.
pub open spec fn grid_of_bytes(width: nat, height: nat, data: Seq<u8>) -> Grid {
    Grid::build(
        width,
        height,
        |x: int, y: int|
            {
                let at = byte_offset(width as int, x, y);
                (data[at], data[at + 1], data[at + 2], data[at + 3])
            },
    )
}

/// The bytes of a pixel inside a raster lie inside the bytes of the raster, and the next
/// pixel of the row starts where they end.
pub proof fn lemma_byte_offset(width: int, height: int, x: int, y: int)
    requires
        0 <= x < width,
        0 <= y < height,
    ensures
        0 <= byte_offset(width, x, y),
        byte_offset(width, x, y) + 4 <= byte_len(width, height),
        byte_offset(width, x + 1, y) == byte_offset(width, x, y) + 4,
{
    assert(0 <= y * width && y * width + width <= height * width && height * width == width
        * height) by (nonlinear_arith)
        requires
            0 <= x < width,
            0 <= y < height,
    ;
}

/// A row ends where the next one starts, and the last row ends where the bytes of the
/// raster end.
pub proof fn lemma_row_end(width: int, height: int, y: int)
    requires
        0 <= width,
        0 <= y < height,
    ensures
        byte_offset(width, 0, y + 1) == byte_offset(width, width, y),
        byte_offset(width, 0, y + 1) <= byte_len(width, height),
        y + 1 == height ==> byte_offset(width, 0, y + 1) == byte_len(width, height),
{
    assert((y + 1) * width == y * width + width && (y + 1) * width <= height * width && height
        * width == width * height) by (nonlinear_arith)
        requires
            0 <= width,
            0 <= y < height,
    ;
}

/// A pixel that is walked before another starts four bytes before it at least.
pub proof fn lemma_offsets_ordered(width: int, i: int, j: int, x: int, y: int)
    requires
        0 <= i < width,
        0 <= x <= width,
        0 <= j,
        0 <= y,
        walked_before(i, j, x, y),
    ensures
        byte_offset(width, i, j) + 4 <= byte_offset(width, x, y),
{
    if j < y {
        assert((j + 1) * width <= y * width) by (nonlinear_arith)
            requires
                j + 1 <= y,
                0 <= width,
        ;
        assert((j + 1) * width == j * width + width) by (nonlinear_arith);
    }
}

/// An 8-bit RGBA raster. The pixels live in an `image::RgbaImage`, which decides how they
/// are stored; what this library knows of it is stated by `raster_width`, `raster_height`
/// and `raster_pixels`.
#[verifier::external_body]
pub struct Raster {
    img: image::RgbaImage,
}

/// Number of pixel columns of a raster.
pub uninterp spec fn raster_width(r: Raster) -> nat;

/// Number of pixel rows of a raster.
pub uninterp spec fn raster_height(r: Raster) -> nat;

/// The pixels of a raster, keyed by `(x, y)`.
pub uninterp spec fn raster_pixels(r: Raster) -> Map<(int, int), (u8, u8, u8, u8)>;

impl View for Raster {
    type V = Grid;

    open spec fn view(&self) -> Grid {
        Grid::build(
            raster_width(*self),
            raster_height(*self),
            |x: int, y: int| raster_pixels(*self)[(x, y)],
        )
    }
}

/// `ImageBuffer::dimensions` returns the width and height that the buffer was built with.
/// Every constructor of `ImageBuffer` checks that four bytes per pixel of these dimensions
/// fit the buffer, and a `Vec` holds at most `isize::MAX` bytes: the last clause.
#[verifier::external_body]
pub(crate) fn raster_dimensions(r: &Raster) -> (d: (u32, u32))
    ensures
        d.0 == raster_width(*r),
        d.1 == raster_height(*r),
        byte_len(d.0 as int, d.1 as int) <= isize::MAX,
{
    r.img.dimensions()
}

/// `ImageBuffer::get_pixel` returns the pixel stored at `(x, y)`. It panics outside the
/// dimensions, which the precondition rules out.
#[verifier::external_body]
pub(crate) fn raster_get(r: &Raster, x: u32, y: u32) -> (p: Rgba8)
    requires
        x < raster_width(*r),
        y < raster_height(*r),
    ensures
        p == raster_pixels(*r)[(x as int, y as int)],
{
    let q = r.img.get_pixel(x, y);
    (q.0[0], q.0[1], q.0[2], q.0[3])
}

/// `ImageBuffer::put_pixel` stores `p` at `(x, y)` and changes neither another pixel nor the
/// dimensions. It panics outside the dimensions, which the precondition rules out.
#[verifier::external_body]
pub(crate) fn raster_put(r: &mut Raster, x: u32, y: u32, p: Rgba8)
    requires
        x < raster_width(*old(r)),
        y < raster_height(*old(r)),
    ensures
        raster_width(*final(r)) == raster_width(*old(r)),
        raster_height(*final(r)) == raster_height(*old(r)),
        raster_pixels(*final(r)) == raster_pixels(*old(r)).insert((x as int, y as int), p),
{
    r.img.put_pixel(x, y, image::Rgba([p.0, p.1, p.2, p.3]));
}

/// `ImageBuffer::new` builds a buffer of the given dimensions in which every channel of
/// every pixel is zero. It panics when the buffer would exceed what a `Vec` can hold, which
/// the precondition rules out.
#[verifier::external_body]
pub(crate) fn raster_new(width: u32, height: u32) -> (r: Raster)
    requires
        byte_len(width as int, height as int) <= isize::MAX,
    ensures
        raster_width(r) == width,
        raster_height(r) == height,
        forall|x: int, y: int|
            0 <= x < width && 0 <= y < height ==> #[trigger] raster_pixels(r)[(x, y)] == (
                0u8,
                0u8,
                0u8,
                0u8,
            ),
{
    Raster { img: image::RgbaImage::new(width, height) }
}

/// `ImageBuffer::clone` copies the dimensions and the pixel data.
#[verifier::external_body]
pub(crate) fn raster_clone(r: &Raster) -> (c: Raster)
    ensures
        raster_width(c) == raster_width(*r),
        raster_height(c) == raster_height(*r),
        raster_pixels(c) == raster_pixels(*r),
{
    Raster { img: r.img.clone() }
}

/// The view of a raster is a well-formed grid.
pub proof fn lemma_view_wf(r: Raster)
    ensures
        r@.wf(),
        r@.width == raster_width(r),
        r@.height == raster_height(r),
        forall|x: int, y: int| r@.contains(x, y) ==> r@.at(x, y) == raster_pixels(r)[(x, y)],
{
}

impl Raster {
    /// A raster of the given dimensions with every pixel cleared, or `None` when its
    /// bytes exceed what one allocation can hold.
    pub fn new(width: u32, height: u32) -> (r: Option<Raster>)
        ensures
            r is Some <==> byte_len(width as int, height as int) <= isize::MAX,
            r matches Some(img) ==> img@ == Grid::filled(width as nat, height as nat, clear_pixel()),
    {
        assert(width * height <= 0xFFFF_FFFF * 0xFFFF_FFFF) by (nonlinear_arith)
            requires
                width <= 0xFFFF_FFFF,
                height <= 0xFFFF_FFFF,
        ;
        let bytes: u128 = 4 * ((width as u128) * (height as u128));
        if bytes <= isize::MAX as u128 {
            let img = raster_new(width, height);
            proof {
                lemma_view_wf(img);
                lemma_grid_ext(img@, Grid::filled(width as nat, height as nat, clear_pixel()));
            }
            Some(img)
        } else {
            None
        }
    }

    /// The raster that `data` describes when read row by row, four bytes for each pixel, or
    /// `None` when `data` is not exactly as long as the dimensions ask or is longer than
    /// one allocation can be.
    pub fn from_rgba(width: u32, height: u32, data: &Vec<u8>) -> (r: Option<Raster>)
        ensures
            r is Some <==> data.len() == byte_len(width as int, height as int) && data.len()
                <= isize::MAX,
            r matches Some(img) ==> img@ == grid_of_bytes(width as nat, height as nat, data@),
    {
        assert(width * height <= 0xFFFF_FFFF * 0xFFFF_FFFF) by (nonlinear_arith)
            requires
                width <= 0xFFFF_FFFF,
                height <= 0xFFFF_FFFF,
        ;
        let bytes: u128 = 4 * ((width as u128) * (height as u128));
        if bytes != data.len() as u128 || bytes > isize::MAX as u128 {
            return None;
        }
        let mut img = raster_new(width, height);
        let mut at: usize = 0;
        let mut y: u32 = 0;
        while y < height
            invariant
                y <= height,
                data.len() == byte_len(width as int, height as int),
                raster_width(img) == width,
                raster_height(img) == height,
                at == byte_offset(width as int, 0, y as int),
                forall|i: int, j: int|
                    0 <= i < width && 0 <= j < y ==> #[trigger] raster_pixels(img)[(i, j)]
                        == grid_of_bytes(width as nat, height as nat, data@).at(i, j),
            decreases height - y,
        {
            let mut x: u32 = 0;
            while x < width
                invariant
                    y < height,
                    x <= width,
                    data.len() == byte_len(width as int, height as int),
                    raster_width(img) == width,
                    raster_height(img) == height,
                    at == byte_offset(width as int, x as int, y as int),
                    forall|i: int, j: int|
                        0 <= i < width && 0 <= j < height && walked_before(
                            i,
                            j,
                            x as int,
                            y as int,
                        ) ==> #[trigger] raster_pixels(img)[(i, j)] == grid_of_bytes(
                            width as nat,
                            height as nat,
                            data@,
                        ).at(i, j),
                decreases width - x,
            {
                proof {
                    lemma_byte_offset(width as int, height as int, x as int, y as int);
                }
                let p = (data[at], data[at + 1], data[at + 2], data[at + 3]);
                raster_put(&mut img, x, y, p);
                at += 4;
                x += 1;
            }
            proof {
                lemma_row_end(width as int, height as int, y as int);
            }
            y += 1;
        }
        proof {
            lemma_view_wf(img);
            lemma_grid_ext(img@, grid_of_bytes(width as nat, height as nat, data@));
        }
        Some(img)
    }

    /// The pixels written out row by row, four bytes for each: red, green, blue, alpha.
    pub fn to_rgba(&self) -> (data: Vec<u8>)
        ensures
            data.len() == byte_len(self@.width as int, self@.height as int),
            grid_of_bytes(self@.width, self@.height, data@) == self@,
    {
        let (width, height) = raster_dimensions(self);
        let mut data: Vec<u8> = Vec::new();
        let mut y: u32 = 0;
        while y < height
            invariant
                y <= height,
                width == raster_width(*self),
                height == raster_height(*self),
                byte_len(width as int, height as int) <= isize::MAX,
                data.len() == byte_offset(width as int, 0, y as int),
                forall|i: int, j: int|
                    0 <= i < width && 0 <= j < y ==> #[trigger] raster_pixels(*self)[(i, j)]
                        == grid_of_bytes(width as nat, height as nat, data@).at(i, j),
            decreases height - y,
        {
            let mut x: u32 = 0;
            while x < width
                invariant
                    y < height,
                    x <= width,
                    width == raster_width(*self),
                    height == raster_height(*self),
                    byte_len(width as int, height as int) <= isize::MAX,
                    data.len() == byte_offset(width as int, x as int, y as int),
                    forall|i: int, j: int|
                        0 <= i < width && 0 <= j < height && walked_before(
                            i,
                            j,
                            x as int,
                            y as int,
                        ) ==> #[trigger] raster_pixels(*self)[(i, j)] == grid_of_bytes(
                            width as nat,
                            height as nat,
                            data@,
                        ).at(i, j),
                decreases width - x,
            {
                let ghost before = data@;
                let p = raster_get(self, x, y);
                data.push(p.0);
                data.push(p.1);
                data.push(p.2);
                data.push(p.3);
                proof {
                    lemma_byte_offset(width as int, height as int, x as int, y as int);
                    assert forall|i: int, j: int|
                        0 <= i < width && 0 <= j < height && walked_before(
                            i,
                            j,
                            x as int + 1,
                            y as int,
                        ) implies #[trigger] raster_pixels(*self)[(i, j)] == grid_of_bytes(
                        width as nat,
                        height as nat,
                        data@,
                    ).at(i, j) by {
                        if walked_before(i, j, x as int, y as int) {
                            lemma_byte_offset(width as int, height as int, i, j);
                            lemma_offsets_ordered(width as int, i, j, x as int, y as int);
                            let o = byte_offset(width as int, i, j);
                            assert(data@[o] == before[o]);
                            assert(data@[o + 1] == before[o + 1]);
                            assert(data@[o + 2] == before[o + 2]);
                            assert(data@[o + 3] == before[o + 3]);
                            assert(raster_pixels(*self)[(i, j)] == grid_of_bytes(
                                width as nat,
                                height as nat,
                                before,
                            ).at(i, j));
                        }
                    }
                }
                x += 1;
            }
            proof {
                lemma_row_end(width as int, height as int, y as int);
            }
            y += 1;
        }
        proof {
            if height > 0 {
                lemma_row_end(width as int, height as int, height as int - 1);
            }
            lemma_view_wf(*self);
            lemma_grid_ext(grid_of_bytes(width as nat, height as nat, data@), self@);
        }
        data
    }

    /// The number of pixel columns.
    pub fn width(&self) -> (w: u32)
        ensures
            w == self@.width,
    {
        raster_dimensions(self).0
    }

    /// The number of pixel rows.
    pub fn height(&self) -> (h: u32)
        ensures
            h == self@.height,
    {
        raster_dimensions(self).1
    }

    /// The pixel at `(x, y)`, or `None` outside the raster.
    pub fn pixel(&self, x: u32, y: u32) -> (p: Option<Rgba8>)
        ensures
            p is Some <==> self@.contains(x as int, y as int),
            p matches Some(q) ==> q == self@.at(x as int, y as int),
    {
        let (w, h) = raster_dimensions(self);
        if x < w && y < h {
            Some(raster_get(self, x, y))
        } else {
            None
        }
    }

    /// Stores `p` at `(x, y)` and reports `true`; outside the raster nothing changes and the
    /// report is `false`.
    pub fn set_pixel(&mut self, x: u32, y: u32, p: Rgba8) -> (stored: bool)
        ensures
            stored == old(self)@.contains(x as int, y as int),
            stored ==> final(self)@ == old(self)@.with_pixel(x as int, y as int, p),
            !stored ==> final(self)@ == old(self)@,
    {
        let (w, h) = raster_dimensions(self);
        if x < w && y < h {
            raster_put(self, x, y, p);
            proof {
                lemma_view_wf(*self);
                lemma_grid_ext(self@, old(self)@.with_pixel(x as int, y as int, p));
            }
            true
        } else {
            false
        }
    }
}

impl Clone for Raster {
    /// A copy with the same dimensions and pixels.
    fn clone(&self) -> (c: Raster)
        ensures
            c@ == self@,
    {
        let c = raster_clone(self);
        proof {
            lemma_view_wf(c);
            lemma_grid_ext(c@, self@);
        }
        c
    }
}

} // verus!
