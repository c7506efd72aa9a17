//! Threshold mapping: an ordered list of stops cuts the gray range into segments, and every
//! visible pixel becomes an opaque gray that stands for the segment of its luma.

use vstd::prelude::*;
use crate::pixel::{clear_pixel, luma, opaque_gray, pixel_luma, Rgba8};
use crate::raster::{
    lemma_grid_ext, lemma_view_wf, raster_dimensions, raster_get, raster_height, raster_new,
    raster_pixels, raster_put, raster_width, walked_before, Grid, Raster,
};

verus! {

/// The stops of a threshold mapping and its mode, as a caller supplies them.
///
/// The stops are meant to ascend strictly. They are taken in the order given: the mapping
/// neither sorts them nor checks their order.
pub struct ThresholdSpec {
    pub stops: Vec<u8>,
    pub average_mode: bool,
}

/// Whether every stop is smaller than the one after it.
pub open spec fn strictly_ascending(stops: Seq<u8>) -> bool {
    forall|i: int, j: int| 0 <= i < j < stops.len() ==> stops[i] < stops[j]
}

/// The segment of a gray value: the index of the first stop that the value does not
/// exceed, or the number of stops when it exceeds them all.
pub open spec fn segment_index(stops: Seq<u8>, gray: int) -> int
    decreases stops.len(),
{
    if stops.len() == 0 || gray <= stops[0] {
        0
    } else {
        1 + segment_index(stops.drop_first(), gray)
    }
}

/// Whether `i` is the segment of `gray`: all stops before `i` lie below `gray`, and the stop
/// at `i`, if there is one, does not.
pub open spec fn is_segment_of(stops: Seq<u8>, gray: int, i: int) -> bool {
    &&& 0 <= i <= stops.len()
    &&& forall|j: int| 0 <= j < i ==> stops[j] < gray
    &&& i < stops.len() ==> gray <= stops[i]
}

/// `segment_index` is the segment of `gray`.
pub proof fn lemma_segment_index(stops: Seq<u8>, gray: int)
    ensures
        is_segment_of(stops, gray, segment_index(stops, gray)),
    decreases stops.len(),
{
    if stops.len() == 0 || gray <= stops[0] {
    } else {
        let rest = stops.drop_first();
        lemma_segment_index(rest, gray);
        let i = segment_index(rest, gray);
        assert forall|j: int| 0 <= j < i + 1 implies stops[j] < gray by {
            if j > 0 {
                assert(stops[j] == rest[j - 1]);
            }
        }
        if i + 1 < stops.len() {
            assert(stops[i + 1] == rest[i]);
        }
    }
}

/// A gray value has one segment only.
pub proof fn lemma_segment_unique(stops: Seq<u8>, gray: int, i: int)
    requires
        is_segment_of(stops, gray, i),
    ensures
        i == segment_index(stops, gray),
{
    lemma_segment_index(stops, gray);
    let k = segment_index(stops, gray);
    if k < i {
        assert(stops[k] < gray);
    } else if i < k {
        assert(stops[i] < gray);
    }
}

/// With strictly ascending stops the segments are the bands between neighbouring stops:
/// `gray` lies in segment `i` exactly when it exceeds the stop before `i`, if there is one,
/// and does not exceed the stop at `i`, if there is one.
pub proof fn lemma_segment_band(stops: Seq<u8>, gray: int, i: int)
    requires
        strictly_ascending(stops),
        0 <= i <= stops.len(),
    ensures
        segment_index(stops, gray) == i <==> (i == 0 || stops[i - 1] < gray) && (i == stops.len()
            || gray <= stops[i]),
{
    lemma_segment_index(stops, gray);
    if (i == 0 || stops[i - 1] < gray) && (i == stops.len() || gray <= stops[i]) {
        assert forall|j: int| 0 <= j < i implies stops[j] < gray by {
            if j < i - 1 {
                assert(stops[j] < stops[i - 1]);
            }
        }
        lemma_segment_unique(stops, gray, i);
    }
}

/// The lower bound of segment `i`: the stop before it, or 0 for the first segment.
pub open spec fn segment_lower(stops: Seq<u8>, i: int) -> int {
    if i == 0 {
        0
    } else {
        stops[i - 1] as int
    }
}

/// The upper bound of segment `i`: its stop, or 255 for the segment beyond the last stop.
pub open spec fn segment_upper(stops: Seq<u8>, i: int) -> int {
    if i < stops.len() {
        stops[i] as int
    } else {
        255
    }
}

/// Average mode: the midpoint of the bounds of the segment of `gray`, truncated.
pub open spec fn average_value(stops: Seq<u8>, gray: int) -> int {
    let i = segment_index(stops, gray);
    (segment_lower(stops, i) + segment_upper(stops, i)) / 2
}

/// Segmented mode: 0 for the first segment, 255 for the segment beyond the last stop, and
/// `255 * i / n`, truncated, for segment `i` of `n` stops in between. Without any stop
/// there is a single segment, which maps to 128.
pub open spec fn segmented_value(stops: Seq<u8>, gray: int) -> int {
    let n = stops.len() as int;
    let i = segment_index(stops, gray);
    if n == 0 {
        128
    } else if i == 0 {
        0
    } else if i == n {
        255
    } else {
        255 * i / n
    }
}

/// The gray level that a threshold mapping gives to a luma.
pub open spec fn threshold_value(stops: Seq<u8>, average_mode: bool, gray: int) -> int {
    if average_mode {
        average_value(stops, gray)
    } else {
        segmented_value(stops, gray)
    }
}

/// Both modes give a level that fits a channel.
pub proof fn lemma_threshold_range(stops: Seq<u8>, average_mode: bool, gray: int)
    ensures
        0 <= threshold_value(stops, average_mode, gray) <= 255,
{
    lemma_segment_index(stops, gray);
    let n = stops.len() as int;
    let i = segment_index(stops, gray);
    if !average_mode && 0 < i < n {
        assert(0 <= 255 * i / n <= 255) by (nonlinear_arith)
            requires
                0 < i < n,
        ;
    }
}

/// What a threshold mapping makes of one pixel: a transparent pixel is cleared, any other
/// becomes an opaque gray of the level of its luma.
pub open spec fn threshold_of(stops: Seq<u8>, average_mode: bool, p: Rgba8) -> Rgba8 {
    if p.3 == 0 {
        clear_pixel()
    } else {
        opaque_gray(threshold_value(stops, average_mode, pixel_luma(p)) as u8)
    }
}

/// A threshold mapping leaves a pixel transparent exactly when it was transparent, and
/// makes every other pixel opaque with one level in all three colour channels.
pub proof fn lemma_threshold_monochrome(stops: Seq<u8>, average_mode: bool, p: Rgba8)
    ensures
        threshold_of(stops, average_mode, p).3 == 0 <==> p.3 == 0,
        p.3 != 0 ==> {
            let q = threshold_of(stops, average_mode, p);
            q.0 == q.1 && q.1 == q.2 && q.3 == 255
        },
{
}

/// Finds the segment of a gray value.
pub fn find_segment(stops: &Vec<u8>, gray: u8) -> (i: usize)
    ensures
        i == segment_index(stops@, gray as int),
        i <= stops.len(),
{
    let mut i: usize = 0;
    while i < stops.len() && stops[i] < gray
        invariant
            i <= stops.len(),
            forall|j: int| 0 <= j < i ==> stops@[j] < gray,
        decreases stops.len() - i,
    {
        i += 1;
    }
    proof {
        lemma_segment_unique(stops@, gray as int, i as int);
    }
    i
}

/// Average mode for one gray value.
pub fn average_level(stops: &Vec<u8>, gray: u8) -> (level: u8)
    requires
        stops.len() > 0,
    ensures
        level == average_value(stops@, gray as int),
{
    let i = find_segment(stops, gray);
    let lower: u16 = if i == 0 {
        0
    } else {
        stops[i - 1] as u16
    };
    let upper: u16 = if i < stops.len() {
        stops[i] as u16
    } else {
        255
    };
    ((lower + upper) / 2) as u8
}

/// Segmented mode for one gray value.
pub fn segmented_level(stops: &Vec<u8>, gray: u8) -> (level: u8)
    ensures
        level == segmented_value(stops@, gray as int),
{
    let n = stops.len();
    let i = find_segment(stops, gray);
    if n == 0 {
        128
    } else if i == 0 {
        0
    } else if i == n {
        255
    } else {
        proof {
            lemma_threshold_range(stops@, false, gray as int);
        }
        let scaled: u128 = 255 * (i as u128);
        (scaled / (n as u128)) as u8
    }
}

/// Maps one pixel.
pub fn threshold_pixel(stops: &Vec<u8>, average_mode: bool, p: Rgba8) -> (q: Rgba8)
    requires
        stops.len() > 0,
    ensures
        q == threshold_of(stops@, average_mode, p),
{
    if p.3 == 0 {
        (0, 0, 0, 0)
    } else {
        let gray = luma(p.0, p.1, p.2);
        let level = if average_mode {
            average_level(stops, gray)
        } else {
            segmented_level(stops, gray)
        };
        (level, level, level, 255)
    }
}

/// The threshold mapping of a whole grid: every pixel mapped by itself, the dimensions kept.
pub open spec fn threshold_grid(g: Grid, stops: Seq<u8>, average_mode: bool) -> Grid {
    Grid::build(g.width, g.height, |x: int, y: int| threshold_of(stops, average_mode, g.at(x, y)))
}

/// Maps a raster into a new raster of the same dimensions. The source is left as it is.
pub fn threshold_raster(src: &Raster, stops: &Vec<u8>, average_mode: bool) -> (out: Raster)
    requires
        stops.len() > 0,
    ensures
        out@ == threshold_grid(src@, stops@, average_mode),
{
    let (width, height) = raster_dimensions(src);
    let mut out = raster_new(width, height);
    let mut y: u32 = 0;
    while y < height
        invariant
            stops.len() > 0,
            y <= height,
            width == raster_width(*src),
            height == raster_height(*src),
            raster_width(out) == width,
            raster_height(out) == height,
            forall|i: int, j: int|
                0 <= i < width && 0 <= j < y ==> #[trigger] raster_pixels(out)[(i, j)]
                    == threshold_of(stops@, average_mode, raster_pixels(*src)[(i, j)]),
        decreases height - y,
    {
        let mut x: u32 = 0;
        while x < width
            invariant
                stops.len() > 0,
                y < height,
                x <= width,
                width == raster_width(*src),
                height == raster_height(*src),
                raster_width(out) == width,
                raster_height(out) == height,
                forall|i: int, j: int|
                    0 <= i < width && 0 <= j < height && walked_before(i, j, x as int, y as int)
                        ==> #[trigger] raster_pixels(out)[(i, j)] == threshold_of(
                        stops@,
                        average_mode,
                        raster_pixels(*src)[(i, j)],
                    ),
            decreases width - x,
        {
            let p = raster_get(src, x, y);
            let q = threshold_pixel(stops, average_mode, p);
            raster_put(&mut out, x, y, q);
            x += 1;
        }
        y += 1;
    }
    proof {
        lemma_view_wf(out);
        lemma_view_wf(*src);
        lemma_grid_ext(out@, threshold_grid(src@, stops@, average_mode));
    }
    out
}

} // verus!
