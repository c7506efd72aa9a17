//! Scattered-pixel cleanup: one pass that recolours every visible pixel whose colour none
//! of its visible neighbours shares, with the colour that most of them have.

use vstd::prelude::*;
use crate::pixel::Rgba8;
use crate::raster::{
    lemma_grid_ext, lemma_view_wf, raster_clone, raster_dimensions, raster_get, raster_height,
    raster_pixels, raster_put, raster_width, walked_before, Grid, Raster,
};

verus! {

/// The colour of a pixel: red, green, blue.
pub type Rgb8 = (u8, u8, u8);

/// The colour channels of a pixel.
pub open spec fn color_of(p: Rgba8) -> Rgb8 {
    (p.0, p.1, p.2)
}

/// The steps `(dx, dy)` to the eight neighbours of a pixel, row by row from the top and
/// from left to right within a row.
pub open spec fn neighbor_offsets() -> Seq<(int, int)> {
    seq![
        (-1int, -1int),
        (0int, -1int),
        (1int, -1int),
        (-1int, 0int),
        (1int, 0int),
        (-1int, 1int),
        (0int, 1int),
        (1int, 1int),
    ]
}

/// Whether the neighbour of `(x, y)` at step `k` lies inside the grid and is not
/// transparent.
pub open spec fn neighbor_visible(g: Grid, x: int, y: int, k: int) -> bool {
    let d = neighbor_offsets()[k];
    g.contains(x + d.0, y + d.1) && g.at(x + d.0, y + d.1).3 != 0
}

/// The colours of the visible neighbours of `(x, y)` among its first `k` neighbours, in
/// the order of `neighbor_offsets`.
pub open spec fn visible_neighbors_upto(g: Grid, x: int, y: int, k: int) -> Seq<Rgb8>
    decreases k,
{
    if k <= 0 {
        Seq::empty()
    } else {
        let before = visible_neighbors_upto(g, x, y, k - 1);
        let d = neighbor_offsets()[k - 1];
        if neighbor_visible(g, x, y, k - 1) {
            before.push(color_of(g.at(x + d.0, y + d.1)))
        } else {
            before
        }
    }
}

/// The colours of all visible neighbours of `(x, y)`. Neighbours beyond the edge of the
/// grid do not exist: nothing wraps around.
pub open spec fn visible_neighbors(g: Grid, x: int, y: int) -> Seq<Rgb8> {
    visible_neighbors_upto(g, x, y, 8)
}

/// How often `c` occurs in `colors`.
pub open spec fn occurrences(colors: Seq<Rgb8>, c: Rgb8) -> nat
    decreases colors.len(),
{
    if colors.len() == 0 {
        0
    } else {
        occurrences(colors.drop_last(), c) + if colors.last() == c {
            1nat
        } else {
            0nat
        }
    }
}

/// The average brightness of a colour, truncated.
pub open spec fn brightness_value(c: Rgb8) -> int {
    (c.0 + c.1 + c.2) / 3
}

/// Whether `a` is to be preferred to `b` among `colors`: it occurs more often, or as often
/// and is darker.
pub open spec fn beats(colors: Seq<Rgb8>, a: Rgb8, b: Rgb8) -> bool {
    occurrences(colors, a) > occurrences(colors, b) || (occurrences(colors, a) == occurrences(
        colors,
        b,
    ) && brightness_value(a) < brightness_value(b))
}

/// The preferred colour among the first `k` of `colors`, each judged by how often it occurs
/// in all of `colors`: a later colour replaces an earlier one only if it beats it.
pub open spec fn dominant_upto(colors: Seq<Rgb8>, k: int) -> Rgb8
    decreases k,
{
    if k <= 1 {
        colors[0]
    } else {
        let best = dominant_upto(colors, k - 1);
        if beats(colors, colors[k - 1], best) {
            colors[k - 1]
        } else {
            best
        }
    }
}

/// The colour that replaces an isolated pixel: the most frequent of `colors`; among equally
/// frequent ones the darkest; among equally dark ones the one that comes first.
pub open spec fn dominant(colors: Seq<Rgb8>) -> Rgb8 {
    dominant_upto(colors, colors.len() as int)
}

/// Whether `c` is the dominant colour of `colors` as the rule states it: it occurs at some
/// index `f`, no colour of the list beats it, and it beats every colour before `f`.
pub open spec fn is_dominant(colors: Seq<Rgb8>, c: Rgb8) -> bool {
    exists|f: int|
        {
            &&& 0 <= f < colors.len()
            &&& #[trigger] colors[f] == c
            &&& forall|j: int| 0 <= j < colors.len() ==> !beats(colors, #[trigger] colors[j], c)
            &&& forall|j: int| 0 <= j < f ==> beats(colors, c, #[trigger] colors[j])
        }
}

/// Whether `c` is the preferred colour among the first `k` of `colors`, with `f` the index
/// at which it was taken.
pub open spec fn leads_upto(colors: Seq<Rgb8>, k: int, c: Rgb8, f: int) -> bool {
    &&& 0 <= f < k
    &&& colors[f] == c
    &&& forall|j: int| 0 <= j < k ==> !beats(colors, #[trigger] colors[j], c)
    &&& forall|j: int| 0 <= j < f ==> beats(colors, c, #[trigger] colors[j])
}

/// `dominant_upto` leads among the colours it has looked at.
pub proof fn lemma_dominant_upto(colors: Seq<Rgb8>, k: int) -> (f: int)
    requires
        1 <= k <= colors.len(),
    ensures
        leads_upto(colors, k, dominant_upto(colors, k), f),
    decreases k,
{
    if k <= 1 {
        0
    } else {
        let g = lemma_dominant_upto(colors, k - 1);
        let best = dominant_upto(colors, k - 1);
        if beats(colors, colors[k - 1], best) {
            let c = colors[k - 1];
            assert forall|j: int| 0 <= j < k implies !beats(colors, #[trigger] colors[j], c) by {
                if j < k - 1 {
                    assert(!beats(colors, colors[j], best));
                }
            }
            assert forall|j: int| 0 <= j < k - 1 implies beats(colors, c, #[trigger] colors[j]) by {
                assert(!beats(colors, colors[j], best));
            }
            k - 1
        } else {
            g
        }
    }
}

/// The colour that `dominant` picks is the dominant colour of the rule.
pub proof fn lemma_dominant(colors: Seq<Rgb8>)
    requires
        colors.len() > 0,
    ensures
        is_dominant(colors, dominant(colors)),
        colors.contains(dominant(colors)),
{
    let f = lemma_dominant_upto(colors, colors.len() as int);
    assert(colors[f] == dominant(colors));
}

/// The rule names one colour only.
pub proof fn lemma_dominant_unique(colors: Seq<Rgb8>, a: Rgb8, b: Rgb8)
    requires
        is_dominant(colors, a),
        is_dominant(colors, b),
    ensures
        a == b,
{
    let fa = choose|f: int|
        {
            &&& 0 <= f < colors.len()
            &&& #[trigger] colors[f] == a
            &&& forall|j: int| 0 <= j < colors.len() ==> !beats(colors, #[trigger] colors[j], a)
            &&& forall|j: int| 0 <= j < f ==> beats(colors, a, #[trigger] colors[j])
        };
    let fb = choose|f: int|
        {
            &&& 0 <= f < colors.len()
            &&& #[trigger] colors[f] == b
            &&& forall|j: int| 0 <= j < colors.len() ==> !beats(colors, #[trigger] colors[j], b)
            &&& forall|j: int| 0 <= j < f ==> beats(colors, b, #[trigger] colors[j])
        };
    if fa < fb {
        assert(beats(colors, b, colors[fa]));
        assert(!beats(colors, colors[fb], a));
    } else if fb < fa {
        assert(beats(colors, a, colors[fb]));
        assert(!beats(colors, colors[fa], b));
    }
}

/// Whether the pixel at `(x, y)` is isolated: it is visible, it has a visible neighbour,
/// and no visible neighbour has its colour.
pub open spec fn is_isolated(g: Grid, x: int, y: int) -> bool {
    let p = g.at(x, y);
    let around = visible_neighbors(g, x, y);
    p.3 != 0 && around.len() > 0 && !around.contains(color_of(p))
}

/// What the cleanup makes of the pixel at `(x, y)`: an isolated pixel takes the dominant
/// colour of its visible neighbours and keeps its alpha; any other pixel stays.
pub open spec fn cleaned_pixel(g: Grid, x: int, y: int) -> Rgba8 {
    let p = g.at(x, y);
    if is_isolated(g, x, y) {
        let c = dominant(visible_neighbors(g, x, y));
        (c.0, c.1, c.2, p.3)
    } else {
        p
    }
}

/// The cleanup of a whole grid. Every pixel is judged by the grid as it was: a pixel that
/// the pass recolours does not change what its neighbours see.
pub open spec fn cleanup_grid(g: Grid) -> Grid {
    Grid::build(g.width, g.height, |x: int, y: int| cleaned_pixel(g, x, y))
}

/// A grid is settled when none of its pixels is isolated.
pub open spec fn settled(g: Grid) -> bool {
    forall|x: int, y: int| g.contains(x, y) ==> !is_isolated(g, x, y)
}

/// A settled grid is a fixed point of the cleanup: the pass returns it unchanged, and so
/// does a second pass over the result of the first.
pub proof fn lemma_cleanup_fixed_point(g: Grid)
    requires
        g.wf(),
        settled(g),
    ensures
        cleanup_grid(g) == g,
        cleanup_grid(cleanup_grid(g)) == cleanup_grid(g),
{
    lemma_grid_ext(cleanup_grid(g), g);
}

/// The cleanup changes neither the dimensions nor any alpha, and it leaves transparent
/// pixels as they are.
pub proof fn lemma_cleanup_keeps_alpha(g: Grid, x: int, y: int)
    requires
        g.contains(x, y),
    ensures
        cleanup_grid(g).width == g.width,
        cleanup_grid(g).height == g.height,
        cleanup_grid(g).at(x, y).3 == g.at(x, y).3,
        g.at(x, y).3 == 0 ==> cleanup_grid(g).at(x, y) == g.at(x, y),
{
}

/// The step to neighbour `k`.
fn neighbor_offset(k: usize) -> (d: (i64, i64))
    requires
        k < 8,
    ensures
        (d.0 as int, d.1 as int) == neighbor_offsets()[k as int],
{
    if k == 0 {
        (-1, -1)
    } else if k == 1 {
        (0, -1)
    } else if k == 2 {
        (1, -1)
    } else if k == 3 {
        (-1, 0)
    } else if k == 4 {
        (1, 0)
    } else if k == 5 {
        (-1, 1)
    } else if k == 6 {
        (0, 1)
    } else {
        (1, 1)
    }
}

/// Collects the colours of the visible neighbours of `(x, y)`.
pub fn collect_neighbors(src: &Raster, x: u32, y: u32) -> (around: Vec<Rgb8>)
    requires
        src@.contains(x as int, y as int),
    ensures
        around@ == visible_neighbors(src@, x as int, y as int),
{
    let (width, height) = raster_dimensions(src);
    let mut around: Vec<Rgb8> = Vec::new();
    let mut k: usize = 0;
    while k < 8
        invariant
            k <= 8,
            x < width,
            y < height,
            width == raster_width(*src),
            height == raster_height(*src),
            around@ == visible_neighbors_upto(src@, x as int, y as int, k as int),
        decreases 8 - k,
    {
        let d = neighbor_offset(k);
        let nx: i64 = x as i64 + d.0;
        let ny: i64 = y as i64 + d.1;
        if 0 <= nx && nx < width as i64 && 0 <= ny && ny < height as i64 {
            let p = raster_get(src, nx as u32, ny as u32);
            if p.3 != 0 {
                around.push((p.0, p.1, p.2));
            }
        }
        k += 1;
    }
    around
}

/// Whether two colours are the same.
fn same_color(a: Rgb8, b: Rgb8) -> (same: bool)
    ensures
        same == (a == b),
{
    a.0 == b.0 && a.1 == b.1 && a.2 == b.2
}

/// Counts how often `c` occurs in `colors`.
pub fn count_color(colors: &Vec<Rgb8>, c: Rgb8) -> (n: usize)
    ensures
        n == occurrences(colors@, c),
{
    let mut n: usize = 0;
    let mut i: usize = 0;
    while i < colors.len()
        invariant
            i <= colors.len(),
            n <= i,
            n == occurrences(colors@.take(i as int), c),
        decreases colors.len() - i,
    {
        assert(colors@.take(i + 1).drop_last() == colors@.take(i as int));
        if same_color(colors[i], c) {
            n += 1;
        }
        i += 1;
    }
    assert(colors@.take(i as int) == colors@);
    n
}

/// Whether `c` occurs in `colors`.
pub fn has_color(colors: &Vec<Rgb8>, c: Rgb8) -> (found: bool)
    ensures
        found == colors@.contains(c),
{
    let mut i: usize = 0;
    while i < colors.len()
        invariant
            i <= colors.len(),
            forall|j: int| 0 <= j < i ==> colors@[j] != c,
        decreases colors.len() - i,
    {
        if same_color(colors[i], c) {
            return true;
        }
        i += 1;
    }
    false
}

/// The average brightness of a colour.
pub fn brightness(c: Rgb8) -> (v: u8)
    ensures
        v == brightness_value(c),
{
    ((c.0 as u16 + c.1 as u16 + c.2 as u16) / 3) as u8
}

/// Picks the dominant colour of a list that is not empty.
pub fn dominant_color(colors: &Vec<Rgb8>) -> (c: Rgb8)
    requires
        colors.len() > 0,
    ensures
        c == dominant(colors@),
{
    let mut best = colors[0];
    let mut best_count = count_color(colors, best);
    let mut k: usize = 1;
    while k < colors.len()
        invariant
            1 <= k <= colors.len(),
            best == dominant_upto(colors@, k as int),
            best_count == occurrences(colors@, best),
        decreases colors.len() - k,
    {
        let c = colors[k];
        let count = count_color(colors, c);
        if count > best_count || (count == best_count && brightness(c) < brightness(best)) {
            best = c;
            best_count = count;
        }
        k += 1;
    }
    best
}

/// Cleans the pixel at `(x, y)`.
pub fn clean_pixel(src: &Raster, x: u32, y: u32) -> (q: Rgba8)
    requires
        src@.contains(x as int, y as int),
    ensures
        q == cleaned_pixel(src@, x as int, y as int),
{
    let p = raster_get(src, x, y);
    if p.3 == 0 {
        return p;
    }
    let around = collect_neighbors(src, x, y);
    if around.len() > 0 && !has_color(&around, (p.0, p.1, p.2)) {
        let c = dominant_color(&around);
        (c.0, c.1, c.2, p.3)
    } else {
        p
    }
}

/// Cleans a raster into a new raster of the same dimensions. The source is left as it is,
/// and every pixel is judged by the source alone.
pub fn cleanup_raster(src: &Raster) -> (out: Raster)
    ensures
        out@ == cleanup_grid(src@),
{
    let (width, height) = raster_dimensions(src);
    let mut out = raster_clone(src);
    let mut y: u32 = 0;
    while y < height
        invariant
            y <= height,
            width == raster_width(*src),
            height == raster_height(*src),
            raster_width(out) == width,
            raster_height(out) == height,
            forall|i: int, j: int|
                0 <= i < width && 0 <= j < height ==> #[trigger] raster_pixels(out)[(i, j)] == (
                if j < y {
                    cleaned_pixel(src@, i, j)
                } else {
                    raster_pixels(*src)[(i, j)]
                }),
        decreases height - y,
    {
        let mut x: u32 = 0;
        while x < width
            invariant
                y < height,
                x <= width,
                width == raster_width(*src),
                height == raster_height(*src),
                raster_width(out) == width,
                raster_height(out) == height,
                forall|i: int, j: int|
                    0 <= i < width && 0 <= j < height ==> #[trigger] raster_pixels(out)[(i, j)]
                        == (if walked_before(i, j, x as int, y as int) {
                        cleaned_pixel(src@, i, j)
                    } else {
                        raster_pixels(*src)[(i, j)]
                    }),
            decreases width - x,
        {
            let q = clean_pixel(src, x, y);
            raster_put(&mut out, x, y, q);
            x += 1;
        }
        y += 1;
    }
    proof {
        lemma_view_wf(out);
        lemma_grid_ext(out@, cleanup_grid(src@));
    }
    out
}

} // verus!
