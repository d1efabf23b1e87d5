use vstd::prelude::*;
use crate::colour::{Rgba, median_colour, get_mean_colour};
use crate::raster::{Raster, replicated, pixel_doubling_upscale, grid_wf, grid_uniform, lemma_div_in_range};
use crate::colour::lemma_median_colour_uniform;
use crate::smooth::{smoothed, median_filter, lemma_smoothed_uniform};
use crate::mask::{masked, has_mask_table, mask_scale, apply_circular_mask};

verus! {

/// Why an upscaling run or one of its stages was refused.
#[derive(Clone, Copy, Debug, PartialEq, Eq, Structural)]
pub enum UpscaleError {
    /// The requested scale is not one of 4, 8 and 16.
    ConfigurationError,
    /// The mask stage was reached with a scale that has no mask table.
    MaskLookupError,
}

/// The scale factor and the side of the median window paired with it.
#[derive(Clone, Copy, Debug, PartialEq, Eq, Structural)]
pub struct UpscalingParameters {
    pub scale: i32,
    pub median: i32,
}

impl UpscalingParameters {
    /// One of the fixed pairings: 4 with 3, 8 with 5, 16 with 9.
    pub open spec fn wf(&self) -> bool {
        ||| (self.scale == 4 && self.median == 3)
        ||| (self.scale == 8 && self.median == 5)
        ||| (self.scale == 16 && self.median == 9)
    }

    /// Half the side of the median window.
    pub open spec fn half_window(&self) -> int {
        (self.median - 1) / 2
    }
}

/// Resolves a scale code into its parameters; any scale but 4, 8 and 16 is a
/// configuration error.
pub fn get_upscaling_parameters(scale: i32) -> (r: Result<UpscalingParameters, UpscaleError>)
    ensures
        r is Ok <==> has_mask_table(scale as int),
        r matches Ok(p) ==> p.wf() && p.scale == scale,
        r matches Err(e) ==> e == UpscaleError::ConfigurationError,
{
    match scale {
        4 => Ok(UpscalingParameters { scale: 4, median: 3 }),
        8 => Ok(UpscalingParameters { scale: 8, median: 5 }),
        16 => Ok(UpscalingParameters { scale: 16, median: 9 }),
        _ => Err(UpscaleError::ConfigurationError),
    }
}

/// Enlargement followed by median smoothing, on a `w` by `h` grid.
pub open spec fn replicated_smoothed(g: Seq<Seq<Rgba>>, w: int, h: int, p: UpscalingParameters) -> Seq<Seq<Rgba>> {
    smoothed(replicated(g, w, h, p.scale as int), w * p.scale, h * p.scale, p.half_window())
}

/// Enlarges `img` by the configured scale and smooths the result with the
/// configured median window.
pub fn median_upscale(img: &Raster, upscaling_parameters: &UpscalingParameters) -> (out: Raster)
    requires
        img.wf(),
        upscaling_parameters.wf(),
        img.width * upscaling_parameters.scale <= usize::MAX,
        img.height * upscaling_parameters.scale <= usize::MAX,
    ensures
        out.wf(),
        out.width == img.width * upscaling_parameters.scale,
        out.height == img.height * upscaling_parameters.scale,
        out.grid() == replicated_smoothed(img.grid(), img.width as int, img.height as int, *upscaling_parameters),
{
    let upscaled_img = pixel_doubling_upscale(img, upscaling_parameters.scale as usize);
    median_filter(&upscaled_img, upscaling_parameters.median as usize)
}

/// Overlays the circular mask of the configured scale on `upscaled_img`. At
/// scale 2 every smoothed pixel is kept. Fails with `MaskLookupError`, before
/// touching any pixel, when the scale defines no mask.
pub fn circular_filter(
    source_img: &Raster,
    upscaled_img: Raster,
    upscaling_parameters: &UpscalingParameters,
) -> (r: Result<Raster, UpscaleError>)
    requires
        source_img.wf(),
        upscaled_img.wf(),
        mask_scale(upscaling_parameters.scale as int) ==> upscaled_img.width == source_img.width
            * upscaling_parameters.scale && upscaled_img.height == source_img.height
            * upscaling_parameters.scale,
    ensures
        r is Ok <==> mask_scale(upscaling_parameters.scale as int),
        r matches Ok(out) ==> out.wf() && out.width == upscaled_img.width && out.height
            == upscaled_img.height && out.grid() == masked(
            source_img.grid(),
            upscaled_img.grid(),
            upscaled_img.width as int,
            upscaled_img.height as int,
            upscaling_parameters.scale as int,
        ),
        r matches Err(e) ==> e == UpscaleError::MaskLookupError,
{
    let scale = upscaling_parameters.scale;
    if scale == 2 || scale == 4 || scale == 8 || scale == 16 {
        Ok(apply_circular_mask(source_img, &upscaled_img, scale))
    } else {
        Err(UpscaleError::MaskLookupError)
    }
}

/// The whole transform of an item texture.
pub open spec fn item_result(g: Seq<Seq<Rgba>>, w: int, h: int, p: UpscalingParameters) -> Seq<Seq<Rgba>> {
    masked(g, replicated_smoothed(g, w, h, p), w * p.scale, h * p.scale, p.scale as int)
}

/// Transforms an item texture: enlarge, smooth, and overlay the circular mask
/// with `source` as the fallback colours.
pub fn upscale_item(source: &Raster, upscaling_parameters: &UpscalingParameters) -> (out: Raster)
    requires
        source.wf(),
        upscaling_parameters.wf(),
        source.width * 16 <= usize::MAX,
        source.height * 16 <= usize::MAX,
    ensures
        out.wf(),
        out.width == source.width * upscaling_parameters.scale,
        out.height == source.height * upscaling_parameters.scale,
        out.grid() == item_result(source.grid(), source.width as int, source.height as int, *upscaling_parameters),
{
    let smoothed_img = median_upscale(source, upscaling_parameters);
    apply_circular_mask(source, &smoothed_img, upscaling_parameters.scale)
}

/// The edge pixels of row `y` of a `w` by `h` grid, left to right: the whole
/// row for the top and bottom rows, else its first and last pixels.
pub open spec fn edge_row(g: Seq<Seq<Rgba>>, w: int, h: int, y: int) -> Seq<Rgba> {
    if y == 0 || y == h - 1 {
        g[y]
    } else if w == 1 {
        seq![g[y][0]]
    } else {
        seq![g[y][0], g[y][w - 1]]
    }
}

/// The edge pixels of the first `n` rows, row by row.
pub open spec fn edge_rows(g: Seq<Seq<Rgba>>, w: int, h: int, n: int) -> Seq<Rgba>
    decreases n,
{
    if n <= 0 {
        Seq::empty()
    } else {
        edge_rows(g, w, h, n - 1) + edge_row(g, w, h, n - 1)
    }
}

/// The colour of the synthetic border: the per-channel median of all edge pixels.
pub open spec fn border_colour(g: Seq<Seq<Rgba>>, w: int, h: int) -> Rgba {
    median_colour(edge_rows(g, w, h, h))
}

/// `g` inside a one-pixel ring of its border colour.
pub open spec fn bordered(g: Seq<Seq<Rgba>>, w: int, h: int) -> Seq<Seq<Rgba>> {
    Seq::new(
        (h + 2) as nat,
        |y: int|
            Seq::new(
                (w + 2) as nat,
                |x: int|
                    if 1 <= x <= w && 1 <= y <= h {
                        g[y - 1][x - 1]
                    } else {
                        border_colour(g, w, h)
                    },
            ),
    )
}

proof fn lemma_edge_rows_nonempty(g: Seq<Seq<Rgba>>, w: int, h: int, n: int)
    requires
        w >= 1,
        h >= 1,
        g.len() == h,
        forall|y: int| 0 <= y < h ==> #[trigger] g[y].len() == w,
        1 <= n <= h,
    ensures
        edge_rows(g, w, h, n).len() > 0,
    decreases n,
{
    if n > 1 {
        lemma_edge_rows_nonempty(g, w, h, n - 1);
    } else {
        assert(edge_rows(g, w, h, 0).len() == 0);
    }
}

/// The edge pixels of `source`, row by row.
fn edge_colours(source: &Raster) -> (v: Vec<Rgba>)
    requires
        source.wf(),
        source.width >= 1,
        source.height >= 1,
    ensures
        v@ == edge_rows(source.grid(), source.width as int, source.height as int, source.height as int),
        v@.len() > 0,
{
    let ghost g = source.grid();
    let w = source.width;
    let h = source.height;
    let mut v: Vec<Rgba> = Vec::new();
    let mut y: usize = 0;
    while y < h
        invariant
            source.wf(),
            g == source.grid(),
            w == source.width,
            h == source.height,
            w >= 1,
            y <= h,
            v@ == edge_rows(g, w as int, h as int, y as int),
        decreases h - y,
    {
        let ghost before = v@;
        if y == 0 || y == h - 1 {
            let mut x: usize = 0;
            while x < w
                invariant
                    source.wf(),
                    g == source.grid(),
                    w == source.width,
                    h == source.height,
                    y < h,
                    x <= w,
                    v@ == before + g[y as int].take(x as int),
                decreases w - x,
            {
                let p = source.get_pixel(x, y);
                v.push(p);
                x = x + 1;
                assert(g[y as int].take(x as int) =~= g[y as int].take(x - 1).push(p));
                assert(v@ =~= before + g[y as int].take(x as int));
            }
            assert(g[y as int].take(w as int) =~= g[y as int]);
        } else if w == 1 {
            v.push(source.get_pixel(0, y));
        } else {
            v.push(source.get_pixel(0, y));
            v.push(source.get_pixel(w - 1, y));
        }
        assert(v@ =~= edge_rows(g, w as int, h as int, y as int) + edge_row(g, w as int, h as int, y as int));
        y = y + 1;
    }
    proof {
        lemma_edge_rows_nonempty(g, w as int, h as int, h as int);
    }
    v
}

/// Surrounds `source` with a one-pixel ring whose colour is the per-channel
/// median of the edge pixels of `source`.
pub fn add_border(source: &Raster) -> (out: Raster)
    requires
        source.wf(),
        source.width >= 1,
        source.height >= 1,
        source.width + 2 <= usize::MAX,
        source.height + 2 <= usize::MAX,
    ensures
        out.wf(),
        out.width == source.width + 2,
        out.height == source.height + 2,
        out.grid() == bordered(source.grid(), source.width as int, source.height as int),
{
    let ghost g = source.grid();
    let ghost target = bordered(g, source.width as int, source.height as int);
    let edges = edge_colours(source);
    let border = get_mean_colour(&edges);
    let w = source.width + 2;
    let h = source.height + 2;
    let mut rows: Vec<Vec<Rgba>> = Vec::new();
    let mut y: usize = 0;
    while y < h
        invariant
            source.wf(),
            g == source.grid(),
            w == source.width + 2,
            h == source.height + 2,
            border == border_colour(g, source.width as int, source.height as int),
            target == bordered(g, source.width as int, source.height as int),
            y <= h,
            rows@.len() == y,
            forall|k: int| 0 <= k < y ==> #[trigger] rows@[k]@ == target[k],
        decreases h - y,
    {
        let mut row: Vec<Rgba> = Vec::new();
        let mut x: usize = 0;
        while x < w
            invariant
                source.wf(),
                g == source.grid(),
                w == source.width + 2,
                h == source.height + 2,
                border == border_colour(g, source.width as int, source.height as int),
                target == bordered(g, source.width as int, source.height as int),
                y < h,
                x <= w,
                row@.len() == x,
                forall|k: int| 0 <= k < x ==> #[trigger] row@[k] == target[y as int][k],
            decreases w - x,
        {
            let p = if 1 <= x && x <= source.width && 1 <= y && y <= source.height {
                source.get_pixel(x - 1, y - 1)
            } else {
                border
            };
            row.push(p);
            x = x + 1;
        }
        assert(row@ =~= target[y as int]);
        rows.push(row);
        y = y + 1;
    }
    let out = Raster { width: w, height: h, rows };
    assert(out.grid() =~= target);
    out
}

/// The `w * s` by `h * s` window of `g` that starts at `(s, s)`.
pub open spec fn trimmed(g: Seq<Seq<Rgba>>, w: int, h: int, s: int) -> Seq<Seq<Rgba>> {
    Seq::new((h * s) as nat, |y: int| Seq::new((w * s) as nat, |x: int| g[y + s][x + s]))
}

/// Strips one enlarged border ring of width `scale` from `img`, leaving
/// `width * scale` by `height * scale` pixels.
pub fn trim_border(img: &Raster, width: usize, height: usize, scale: usize) -> (out: Raster)
    requires
        img.wf(),
        img.width == (width + 2) * scale,
        img.height == (height + 2) * scale,
    ensures
        out.wf(),
        out.width == width * scale,
        out.height == height * scale,
        out.grid() == trimmed(img.grid(), width as int, height as int, scale as int),
{
    let ghost g = img.grid();
    let ghost target = trimmed(g, width as int, height as int, scale as int);
    assert(width * scale + 2 * scale == (width + 2) * scale) by (nonlinear_arith);
    assert(height * scale + 2 * scale == (height + 2) * scale) by (nonlinear_arith);
    let w = width * scale;
    let h = height * scale;
    let mut rows: Vec<Vec<Rgba>> = Vec::new();
    let mut y: usize = 0;
    while y < h
        invariant
            img.wf(),
            g == img.grid(),
            w == width * scale,
            h == height * scale,
            img.width == w + 2 * scale,
            img.height == h + 2 * scale,
            target == trimmed(g, width as int, height as int, scale as int),
            y <= h,
            rows@.len() == y,
            forall|k: int| 0 <= k < y ==> #[trigger] rows@[k]@ == target[k],
        decreases h - y,
    {
        let mut row: Vec<Rgba> = Vec::new();
        let mut x: usize = 0;
        while x < w
            invariant
                img.wf(),
                g == img.grid(),
                w == width * scale,
                h == height * scale,
                img.width == w + 2 * scale,
                img.height == h + 2 * scale,
                target == trimmed(g, width as int, height as int, scale as int),
                y < h,
                x <= w,
                row@.len() == x,
                forall|k: int| 0 <= k < x ==> #[trigger] row@[k] == target[y as int][k],
            decreases w - x,
        {
            row.push(img.get_pixel(x + scale, y + scale));
            x = x + 1;
        }
        assert(row@ =~= target[y as int]);
        rows.push(row);
        y = y + 1;
    }
    let out = Raster { width: w, height: h, rows };
    assert(out.grid() =~= target);
    out
}

/// The whole transform of a block texture.
pub open spec fn block_result(g: Seq<Seq<Rgba>>, w: int, h: int, p: UpscalingParameters) -> Seq<Seq<Rgba>> {
    let b = bordered(g, w, h);
    trimmed(item_result(b, w + 2, h + 2, p), w, h, p.scale as int)
}

/// Transforms a block texture: add the border ring, enlarge, smooth, overlay the
/// circular mask with the bordered raster as the fallback colours, and strip the
/// enlarged ring again.
pub fn upscale_block(source: &Raster, upscaling_parameters: &UpscalingParameters) -> (out: Raster)
    requires
        source.wf(),
        upscaling_parameters.wf(),
        source.width >= 1,
        source.height >= 1,
        (source.width + 2) * 16 <= usize::MAX,
        (source.height + 2) * 16 <= usize::MAX,
    ensures
        out.wf(),
        out.width == source.width * upscaling_parameters.scale,
        out.height == source.height * upscaling_parameters.scale,
        out.grid() == block_result(source.grid(), source.width as int, source.height as int, *upscaling_parameters),
{
    let bordered_img = add_border(source);
    let smoothed_img = median_upscale(&bordered_img, upscaling_parameters);
    let masked_img = apply_circular_mask(&bordered_img, &smoothed_img, upscaling_parameters.scale);
    trim_border(&masked_img, source.width, source.height, upscaling_parameters.scale as usize)
}

proof fn lemma_edge_rows_uniform(g: Seq<Seq<Rgba>>, w: int, h: int, n: int, c: Rgba)
    requires
        grid_wf(g, w, h),
        w >= 1,
        0 <= n <= h,
        forall|x: int, y: int|
            0 <= x < w && 0 <= y < h && (x == 0 || x == w - 1 || y == 0 || y == h - 1) ==> #[trigger] g[y][x] == c,
    ensures
        forall|k: int| 0 <= k < edge_rows(g, w, h, n).len() ==> #[trigger] edge_rows(g, w, h, n)[k] == c,
    decreases n,
{
    if n > 0 {
        lemma_edge_rows_uniform(g, w, h, n - 1, c);
        let y = n - 1;
        let a = edge_rows(g, w, h, y);
        let b = edge_row(g, w, h, y);
        assert(g[y].len() == w);
        assert forall|k: int| 0 <= k < b.len() implies #[trigger] b[k] == c by {
            if y == 0 || y == h - 1 {
                assert(b[k] == g[y][k]);
            } else if w == 1 {
                assert(b[k] == g[y][0]);
            } else if k == 0 {
                assert(b[k] == g[y][0]);
            } else {
                assert(b[k] == g[y][w - 1]);
            }
        }
        assert forall|k: int| 0 <= k < (a + b).len() implies #[trigger] (a + b)[k] == c by {
            if k >= a.len() {
                assert((a + b)[k] == b[k - a.len()]);
            }
        }
    }
}

/// When every edge pixel of a source already has the colour `c`, the synthetic
/// border has exactly that colour: every cell of the ring is `c`.
pub proof fn lemma_border_of_uniform_edges(g: Seq<Seq<Rgba>>, w: int, h: int, c: Rgba)
    requires
        grid_wf(g, w, h),
        w >= 1,
        h >= 1,
        forall|x: int, y: int|
            0 <= x < w && 0 <= y < h && (x == 0 || x == w - 1 || y == 0 || y == h - 1) ==> #[trigger] g[y][x] == c,
    ensures
        border_colour(g, w, h) == c,
        forall|x: int, y: int|
            0 <= x < w + 2 && 0 <= y < h + 2 && !(1 <= x <= w && 1 <= y <= h) ==> #[trigger] bordered(g, w, h)[y][x]
                == c,
{
    lemma_edge_rows_uniform(g, w, h, h, c);
    lemma_edge_rows_nonempty(g, w, h, h);
    lemma_median_colour_uniform(edge_rows(g, w, h, h), c);
}

/// Enlarging and smoothing a single-colour source gives `w * scale` by
/// `h * scale` pixels, all of the source colour.
pub proof fn lemma_median_upscale_uniform(g: Seq<Seq<Rgba>>, w: int, h: int, p: UpscalingParameters, c: Rgba)
    requires
        grid_wf(g, w, h),
        w >= 0,
        grid_uniform(g, w, h, c),
        p.wf(),
    ensures
        grid_wf(replicated_smoothed(g, w, h, p), w * p.scale, h * p.scale),
        grid_uniform(replicated_smoothed(g, w, h, p), w * p.scale, h * p.scale, c),
{
    let s = p.scale as int;
    let ws = w * s;
    let hs = h * s;
    assert(ws >= 0 && hs >= 0) by (nonlinear_arith)
        requires
            ws == w * s,
            hs == h * s,
            w >= 0,
            h >= 0,
            s >= 1,
    ;
    let rep = replicated(g, w, h, s);
    assert forall|y: int| 0 <= y < hs implies #[trigger] rep[y].len() == ws by {}
    assert forall|x: int, y: int| 0 <= x < ws && 0 <= y < hs implies #[trigger] rep[y][x] == c by {
        lemma_div_in_range(x, s, w);
        lemma_div_in_range(y, s, h);
    }
    lemma_smoothed_uniform(rep, ws, hs, p.half_window(), c);
}

/// A single-colour source goes through the item transform unchanged in colour:
/// the result is `w * scale` by `h * scale` pixels, all of the source colour.
pub proof fn lemma_item_uniform(g: Seq<Seq<Rgba>>, w: int, h: int, p: UpscalingParameters, c: Rgba)
    requires
        grid_wf(g, w, h),
        w >= 0,
        grid_uniform(g, w, h, c),
        p.wf(),
    ensures
        grid_wf(item_result(g, w, h, p), w * p.scale, h * p.scale),
        grid_uniform(item_result(g, w, h, p), w * p.scale, h * p.scale, c),
{
    let s = p.scale as int;
    let ws = w * s;
    let hs = h * s;
    assert(ws >= 0 && hs >= 0) by (nonlinear_arith)
        requires
            ws == w * s,
            hs == h * s,
            w >= 0,
            h >= 0,
            s >= 1,
    ;
    lemma_median_upscale_uniform(g, w, h, p, c);
    let r = item_result(g, w, h, p);
    assert forall|x: int, y: int| 0 <= x < ws && 0 <= y < hs implies #[trigger] r[y][x] == c by {
        lemma_div_in_range(x, s, w);
        lemma_div_in_range(y, s, h);
    }
}

/// The block transform yields exactly `w * scale` by `h * scale` pixels: the
/// window of the masked bordered raster that starts one enlarged ring in, so
/// that none of the ring is left.
pub proof fn lemma_block_dimensions(g: Seq<Seq<Rgba>>, w: int, h: int, p: UpscalingParameters)
    requires
        grid_wf(g, w, h),
        w >= 0,
        p.wf(),
    ensures
        grid_wf(block_result(g, w, h, p), w * p.scale, h * p.scale),
        forall|x: int, y: int|
            0 <= x < w * p.scale && 0 <= y < h * p.scale ==> {
                &&& #[trigger] block_result(g, w, h, p)[y][x] == item_result(bordered(g, w, h), w + 2, h + 2, p)[y
                    + p.scale][x + p.scale]
                &&& x + p.scale < (w + 1) * p.scale
                &&& y + p.scale < (h + 1) * p.scale
            },
{
    let s = p.scale as int;
    assert(w * s >= 0 && h * s >= 0) by (nonlinear_arith)
        requires
            w >= 0,
            h >= 0,
            s >= 1,
    ;
    assert forall|x: int, y: int| 0 <= x < w * s && 0 <= y < h * s implies {
        &&& #[trigger] block_result(g, w, h, p)[y][x] == item_result(bordered(g, w, h), w + 2, h + 2, p)[y + s][x + s]
        &&& x + s < (w + 1) * s
        &&& y + s < (h + 1) * s
    } by {
        assert(x + s < (w + 1) * s) by (nonlinear_arith)
            requires
                x < w * s,
        ;
        assert(y + s < (h + 1) * s) by (nonlinear_arith)
            requires
                y < h * s,
        ;
    }
}

/// A single-colour source goes through the block transform unchanged in colour:
/// the result is `w * scale` by `h * scale` pixels, all of the source colour.
pub proof fn lemma_block_uniform(g: Seq<Seq<Rgba>>, w: int, h: int, p: UpscalingParameters, c: Rgba)
    requires
        grid_wf(g, w, h),
        w >= 1,
        h >= 1,
        grid_uniform(g, w, h, c),
        p.wf(),
    ensures
        grid_wf(block_result(g, w, h, p), w * p.scale, h * p.scale),
        grid_uniform(block_result(g, w, h, p), w * p.scale, h * p.scale, c),
{
    let s = p.scale as int;
    lemma_border_of_uniform_edges(g, w, h, c);
    let b = bordered(g, w, h);
    assert(grid_wf(b, w + 2, h + 2));
    assert(grid_uniform(b, w + 2, h + 2, c));
    lemma_item_uniform(b, w + 2, h + 2, p, c);
    lemma_block_dimensions(g, w, h, p);
    let ir = item_result(b, w + 2, h + 2, p);
    let r = block_result(g, w, h, p);
    assert forall|x: int, y: int| 0 <= x < w * s && 0 <= y < h * s implies #[trigger] r[y][x] == c by {
        assert(x + s < (w + 2) * s) by (nonlinear_arith)
            requires
                x < w * s,
                s >= 1,
        ;
        assert(y + s < (h + 2) * s) by (nonlinear_arith)
            requires
                y < h * s,
                s >= 1,
        ;
        assert(r[y][x] == ir[y + s][x + s]);
    }
}

} // verus!
