use vstd::prelude::*;
use crate::colour::Rgba;
use crate::raster::{Raster, lemma_div_in_range};

verus! {

/// For a supported scale, the number of positions cut off at each end of
/// row `dy` of its circular mask. The rows describe a discretised circle.
pub open spec fn mask_inset(scale: int, dy: int) -> int {
    if scale == 4 {
        seq![1int, 0, 0, 1][dy]
    } else if scale == 8 {
        seq![2int, 1, 0, 0, 0, 0, 1, 2][dy]
    } else {
        seq![5int, 3, 2, 1, 1, 0, 0, 0, 0, 0, 0, 1, 1, 2, 3, 5][dy]
    }
}

/// The scales that have a mask table.
pub open spec fn has_mask_table(scale: int) -> bool {
    scale == 4 || scale == 8 || scale == 16
}

/// The scales that define a mask: those with a table, and scale 2.
pub open spec fn mask_scale(scale: int) -> bool {
    scale == 2 || has_mask_table(scale)
}

/// Whether the smoothed value is kept at sub-pixel offset `(dy, dx)`: true
/// inside the circle, false in the cut-off corners. At scale 2 every position
/// keeps the smoothed value.
pub open spec fn mask_keeps(scale: int, dy: int, dx: int) -> bool {
    if scale == 2 {
        true
    } else {
        mask_inset(scale, dy) <= dx < scale - mask_inset(scale, dy)
    }
}

/// The scale-4 mask at offset `(y, x)`.
pub fn compare_4x(y_percent_scale: i32, x_percent_scale: i32) -> (r: bool)
    requires
        0 <= y_percent_scale < 4,
        0 <= x_percent_scale < 4,
    ensures
        r == mask_keeps(4, y_percent_scale as int, x_percent_scale as int),
{
    let insets: [i32; 4] = [1, 0, 0, 1];
    let inset = insets[y_percent_scale as usize];
    assert(insets@ == seq![1int, 0, 0, 1].map_values(|v: int| v as i32));
    inset <= x_percent_scale && x_percent_scale < 4 - inset
}

/// The scale-8 mask at offset `(y, x)`.
pub fn compare_8x(y_percent_scale: i32, x_percent_scale: i32) -> (r: bool)
    requires
        0 <= y_percent_scale < 8,
        0 <= x_percent_scale < 8,
    ensures
        r == mask_keeps(8, y_percent_scale as int, x_percent_scale as int),
{
    let insets: [i32; 8] = [2, 1, 0, 0, 0, 0, 1, 2];
    let inset = insets[y_percent_scale as usize];
    assert(insets@ == seq![2int, 1, 0, 0, 0, 0, 1, 2].map_values(|v: int| v as i32));
    inset <= x_percent_scale && x_percent_scale < 8 - inset
}

/// The scale-16 mask at offset `(y, x)`.
pub fn compare_16x(y_percent_scale: i32, x_percent_scale: i32) -> (r: bool)
    requires
        0 <= y_percent_scale < 16,
        0 <= x_percent_scale < 16,
    ensures
        r == mask_keeps(16, y_percent_scale as int, x_percent_scale as int),
{
    let insets: [i32; 16] = [5, 3, 2, 1, 1, 0, 0, 0, 0, 0, 0, 1, 1, 2, 3, 5];
    let inset = insets[y_percent_scale as usize];
    assert(insets@ == seq![5int, 3, 2, 1, 1, 0, 0, 0, 0, 0, 0, 1, 1, 2, 3, 5].map_values(
        |v: int| v as i32,
    ));
    inset <= x_percent_scale && x_percent_scale < 16 - inset
}

/// The offsets at which the mask of `scale` is defined.
pub open spec fn mask_defined(scale: int, dy: int, dx: int) -> bool {
    scale == 2 || (has_mask_table(scale) && 0 <= dy < scale && 0 <= dx < scale)
}

/// Looks up the circular mask of `scale` at sub-pixel offset `(y, x)`; `None`
/// where the scale has no table or the offset lies outside it.
pub fn compare_ssse(scale: i32, y_percent_scale: i32, x_percent_scale: i32) -> (r: Option<bool>)
    ensures
        r == if mask_defined(scale as int, y_percent_scale as int, x_percent_scale as int) {
            Some(mask_keeps(scale as int, y_percent_scale as int, x_percent_scale as int))
        } else {
            None::<bool>
        },
{
    if scale == 2 {
        Some(true)
    } else if y_percent_scale < 0 || x_percent_scale < 0 {
        None
    } else if scale == 4 && y_percent_scale < 4 && x_percent_scale < 4 {
        Some(compare_4x(y_percent_scale, x_percent_scale))
    } else if scale == 8 && y_percent_scale < 8 && x_percent_scale < 8 {
        Some(compare_8x(y_percent_scale, x_percent_scale))
    } else if scale == 16 && y_percent_scale < 16 && x_percent_scale < 16 {
        Some(compare_16x(y_percent_scale, x_percent_scale))
    } else {
        None
    }
}

/// The circular-mask overlay on a `w` by `h` grid: where the mask of scale `s`
/// is false the pixel becomes the pixel of `orig` that it was enlarged from;
/// elsewhere the pixel of `sm` stays.
pub open spec fn masked(orig: Seq<Seq<Rgba>>, sm: Seq<Seq<Rgba>>, w: int, h: int, s: int) -> Seq<Seq<Rgba>> {
    Seq::new(
        h as nat,
        |y: int|
            Seq::new(
                w as nat,
                |x: int|
                    if mask_keeps(s, y % s, x % s) {
                        sm[y][x]
                    } else {
                        orig[y / s][x / s]
                    },
            ),
    )
}

/// Overlays the circular mask of `scale` on `upscaled_img`, taking the fallback
/// colours from `source_img`, which `upscaled_img` was enlarged from.
pub fn apply_circular_mask(source_img: &Raster, upscaled_img: &Raster, scale: i32) -> (out: Raster)
    requires
        source_img.wf(),
        upscaled_img.wf(),
        scale == 2 || has_mask_table(scale as int),
        upscaled_img.width == source_img.width * scale,
        upscaled_img.height == source_img.height * scale,
    ensures
        out.wf(),
        out.width == upscaled_img.width,
        out.height == upscaled_img.height,
        out.grid() == masked(
            source_img.grid(),
            upscaled_img.grid(),
            upscaled_img.width as int,
            upscaled_img.height as int,
            scale as int,
        ),
{
    let ghost w = upscaled_img.width as int;
    let ghost h = upscaled_img.height as int;
    let ghost s = scale as int;
    let ghost target = masked(source_img.grid(), upscaled_img.grid(), w, h, s);
    let su = scale as usize;
    let mut rows: Vec<Vec<Rgba>> = Vec::new();
    let mut y: usize = 0;
    while y < upscaled_img.height
        invariant
            source_img.wf(),
            upscaled_img.wf(),
            scale == 2 || has_mask_table(scale as int),
            su == s,
            s == scale,
            w == upscaled_img.width,
            h == upscaled_img.height,
            w == source_img.width * s,
            h == source_img.height * s,
            target == masked(source_img.grid(), upscaled_img.grid(), w, h, s),
            y <= h,
            rows@.len() == y,
            forall|k: int| 0 <= k < y ==> #[trigger] rows@[k]@ == target[k],
        decreases h - y,
    {
        let mut row: Vec<Rgba> = Vec::new();
        let mut x: usize = 0;
        while x < upscaled_img.width
            invariant
                source_img.wf(),
                upscaled_img.wf(),
                scale == 2 || has_mask_table(scale as int),
                su == s,
                s == scale,
                w == upscaled_img.width,
                h == upscaled_img.height,
                w == source_img.width * s,
                h == source_img.height * s,
                target == masked(source_img.grid(), upscaled_img.grid(), w, h, s),
                y < h,
                x <= w,
                row@.len() == x,
                forall|k: int| 0 <= k < x ==> #[trigger] row@[k] == target[y as int][k],
            decreases w - x,
        {
            proof {
                lemma_div_in_range(x as int, s, source_img.width as int);
                lemma_div_in_range(y as int, s, source_img.height as int);
            }
            let dy = (y % su) as i32;
            let dx = (x % su) as i32;
            let keep = compare_ssse(scale, dy, dx).unwrap();
            let p = if keep {
                upscaled_img.get_pixel(x, y)
            } else {
                source_img.get_pixel(x / su, y / su)
            };
            row.push(p);
            x = x + 1;
        }
        assert(row@ =~= target[y as int]);
        rows.push(row);
        y = y + 1;
    }
    let out = Raster { width: upscaled_img.width, height: upscaled_img.height, rows };
    assert(out.grid() =~= target);
    out
}

/// The overlay is a function of the two rasters and the scale alone. At each
/// pixel it keeps the smoothed colour or takes the source colour, and which of
/// the two is decided by the pixel's offsets modulo the scale alone: pixels
/// with equal offsets are decided alike.
pub proof fn lemma_mask_by_offsets(
    orig: Seq<Seq<Rgba>>,
    sm: Seq<Seq<Rgba>>,
    w: int,
    h: int,
    s: int,
    x1: int,
    y1: int,
    x2: int,
    y2: int,
)
    requires
        0 <= x1 < w,
        0 <= y1 < h,
        0 <= x2 < w,
        0 <= y2 < h,
        x1 % s == x2 % s,
        y1 % s == y2 % s,
    ensures
        ({
            let m = masked(orig, sm, w, h, s);
            ||| (m[y1][x1] == sm[y1][x1] && m[y2][x2] == sm[y2][x2])
            ||| (m[y1][x1] == orig[y1 / s][x1 / s] && m[y2][x2] == orig[y2 / s][x2 / s])
        }),
{
}

} // verus!
