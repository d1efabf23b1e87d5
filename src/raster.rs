use vstd::prelude::*;
use vstd::arithmetic::div_mod::lemma_fundamental_div_mod_converse;
use vstd::arithmetic::div_mod::lemma_fundamental_div_mod;
use crate::colour::Rgba;

verus! {

/// An owned grid of RGBA8 pixels, stored row by row.
pub struct Raster {
    pub width: usize,
    pub height: usize,
    pub rows: Vec<Vec<Rgba>>,
}

/// A grid of `h` rows of `w` pixels each.
pub open spec fn grid_wf(g: Seq<Seq<Rgba>>, w: int, h: int) -> bool {
    &&& g.len() == h
    &&& forall|y: int| 0 <= y < h ==> #[trigger] g[y].len() == w
}

/// Every pixel of the `w` by `h` grid `g` is `c`.
pub open spec fn grid_uniform(g: Seq<Seq<Rgba>>, w: int, h: int, c: Rgba) -> bool {
    forall|x: int, y: int| 0 <= x < w && 0 <= y < h ==> #[trigger] g[y][x] == c
}

/// Nearest-neighbour enlargement: the pixel at `(x, y)` of the result is the
/// source pixel at `(x / s, y / s)`.
pub open spec fn replicated(g: Seq<Seq<Rgba>>, w: int, h: int, s: int) -> Seq<Seq<Rgba>> {
    Seq::new((h * s) as nat, |y: int| Seq::new((w * s) as nat, |x: int| g[y / s][x / s]))
}

impl Raster {
    pub open spec fn wf(&self) -> bool {
        grid_wf(self.grid(), self.width as int, self.height as int)
    }

    /// The pixels, indexed first by row, then by column.
    pub open spec fn grid(&self) -> Seq<Seq<Rgba>> {
        self.rows@.map_values(|r: Vec<Rgba>| r@)
    }

    /// A `width` by `height` raster of one colour.
    pub fn new(width: usize, height: usize, fill: Rgba) -> (r: Raster)
        ensures
            r.wf(),
            r.width == width,
            r.height == height,
            grid_uniform(r.grid(), width as int, height as int, fill),
    {
        let mut rows: Vec<Vec<Rgba>> = Vec::new();
        let mut y: usize = 0;
        while y < height
            invariant
                y <= height,
                rows@.len() == y,
                forall|k: int| 0 <= k < y ==> #[trigger] rows@[k]@ == Seq::new(width as nat, |x: int| fill),
            decreases height - y,
        {
            let mut row: Vec<Rgba> = Vec::new();
            let mut x: usize = 0;
            while x < width
                invariant
                    x <= width,
                    row@ == Seq::new(x as nat, |i: int| fill),
                decreases width - x,
            {
                row.push(fill);
                x = x + 1;
                assert(row@ =~= Seq::new(x as nat, |i: int| fill));
            }
            rows.push(row);
            y = y + 1;
        }
        Raster { width, height, rows }
    }

    /// The pixel in column `x` of row `y`.
    pub fn get_pixel(&self, x: usize, y: usize) -> (p: Rgba)
        requires
            self.wf(),
            x < self.width,
            y < self.height,
        ensures
            p == self.grid()[y as int][x as int],
    {
        assert(self.grid()[y as int] == self.rows@[y as int]@);
        self.rows[y][x]
    }
}

/// A copy of a row of pixels.
pub fn copy_row(row: &Vec<Rgba>) -> (r: Vec<Rgba>)
    ensures
        r@ == row@,
{
    let mut r: Vec<Rgba> = Vec::new();
    let mut i: usize = 0;
    while i < row.len()
        invariant
            i <= row@.len(),
            r@ == row@.take(i as int),
        decreases row@.len() - i,
    {
        r.push(row[i]);
        i = i + 1;
        assert(r@ =~= row@.take(i as int));
    }
    assert(row@.take(i as int) =~= row@);
    r
}

/// `k / s == q` for `k == q * s + r` with `0 <= r < s`.
pub proof fn lemma_div_block(q: int, s: int, r: int)
    requires
        s > 0,
        0 <= r < s,
    ensures
        (q * s + r) / s == q,
        (q * s + r) % s == r,
{
    lemma_fundamental_div_mod_converse(q * s + r, s, q, r);
}

/// A position inside an enlarged extent maps back inside the source extent.
pub proof fn lemma_div_in_range(k: int, s: int, n: int)
    requires
        s > 0,
        0 <= k < n * s,
    ensures
        0 <= k / s < n,
        0 <= k % s < s,
{
    lemma_fundamental_div_mod(k, s);
    let q = k / s;
    let r = k % s;
    assert(0 <= r < s);
    assert(k == s * q + r);
    assert(0 <= q < n) by (nonlinear_arith)
        requires
            k == s * q + r,
            0 <= r < s,
            0 <= k < n * s,
            s > 0,
    ;
}

/// Enlarges `img` by `scale` on both axes by duplicating every pixel into a
/// `scale` by `scale` block.
pub fn pixel_doubling_upscale(img: &Raster, scale: usize) -> (out: Raster)
    requires
        img.wf(),
        scale >= 1,
        img.width * scale <= usize::MAX,
        img.height * scale <= usize::MAX,
    ensures
        out.wf(),
        out.width == img.width * scale,
        out.height == img.height * scale,
        out.grid() == replicated(img.grid(), img.width as int, img.height as int, scale as int),
{
    let ghost g = img.grid();
    let ghost w = img.width as int;
    let ghost h = img.height as int;
    let ghost s = scale as int;
    let ghost target = replicated(g, w, h, s);
    let mut rows: Vec<Vec<Rgba>> = Vec::new();
    let mut y: usize = 0;
    while y < img.height
        invariant
            img.wf(),
            g == img.grid(),
            w == img.width,
            h == img.height,
            s == scale,
            s >= 1,
            target == replicated(g, w, h, s),
            y <= h,
            rows@.len() == y * s,
            forall|k: int| 0 <= k < y * s ==> #[trigger] rows@[k]@ == target[k],
        decreases h - y,
    {
        let src_row = &img.rows[y];
        assert(src_row@ == g[y as int]);
        let mut row: Vec<Rgba> = Vec::new();
        let mut x: usize = 0;
        while x < img.width
            invariant
                img.wf(),
                w == img.width,
                s == scale,
                s >= 1,
                src_row@.len() == w,
                x <= w,
                row@.len() == x * s,
                forall|k: int| 0 <= k < x * s ==> #[trigger] row@[k] == src_row@[k / s],
            decreases w - x,
        {
            let p = src_row[x];
            let mut sx: usize = 0;
            while sx < scale
                invariant
                    s == scale,
                    s >= 1,
                    x < w,
                    src_row@.len() == w,
                    p == src_row@[x as int],
                    sx <= s,
                    row@.len() == x * s + sx,
                    forall|k: int| 0 <= k < x * s + sx ==> #[trigger] row@[k] == src_row@[k / s],
                decreases s - sx,
            {
                proof {
                    lemma_div_block(x as int, s, sx as int);
                }
                row.push(p);
                sx = sx + 1;
            }
            assert((x + 1) * s == x * s + s) by (nonlinear_arith);
            x = x + 1;
        }
        let mut sy: usize = 0;
        while sy < scale
            invariant
                img.wf(),
                g == img.grid(),
                w == img.width,
                h == img.height,
                s == scale,
                s >= 1,
                target == replicated(g, w, h, s),
                y < h,
                src_row@ == g[y as int],
                row@.len() == w * s,
                forall|k: int| 0 <= k < w * s ==> #[trigger] row@[k] == src_row@[k / s],
                sy <= s,
                rows@.len() == y * s + sy,
                forall|k: int| 0 <= k < y * s + sy ==> #[trigger] rows@[k]@ == target[k],
            decreases s - sy,
        {
            proof {
                lemma_div_block(y as int, s, sy as int);
                assert(y * s + sy < h * s) by (nonlinear_arith)
                    requires
                        y < h,
                        sy < s,
                ;
                assert(row@ =~= target[y * s + sy]);
            }
            rows.push(copy_row(&row));
            sy = sy + 1;
        }
        assert((y + 1) * s == y * s + s) by (nonlinear_arith);
        y = y + 1;
    }
    let out = Raster { width: img.width * scale, height: img.height * scale, rows };
    assert(out.grid() =~= target);
    out
}

/// Every source pixel appears as a solid `s` by `s` block of the enlargement,
/// at the offset `(x * s, y * s)`.
pub proof fn lemma_replication_blocks(g: Seq<Seq<Rgba>>, w: int, h: int, s: int)
    requires
        grid_wf(g, w, h),
        w >= 0,
        s >= 1,
    ensures
        grid_wf(replicated(g, w, h, s), w * s, h * s),
        forall|x: int, y: int, sx: int, sy: int|
            0 <= x < w && 0 <= y < h && 0 <= sx < s && 0 <= sy < s
                ==> #[trigger] replicated(g, w, h, s)[y * s + sy][x * s + sx] == #[trigger] g[y][x],
{
    assert(w * s >= 0 && h * s >= 0) by (nonlinear_arith)
        requires
            s >= 1,
            w >= 0,
            h >= 0,
    ;
    assert forall|x: int, y: int, sx: int, sy: int|
        0 <= x < w && 0 <= y < h && 0 <= sx < s && 0 <= sy < s
            implies #[trigger] replicated(g, w, h, s)[y * s + sy][x * s + sx] == #[trigger] g[y][x] by {
        lemma_div_block(x, s, sx);
        lemma_div_block(y, s, sy);
        assert(y * s + sy < h * s) by (nonlinear_arith)
            requires
                0 <= y < h,
                0 <= sy < s,
        ;
        assert(x * s + sx < w * s) by (nonlinear_arith)
            requires
                0 <= x < w,
                0 <= sx < s,
        ;
    }
}

} // verus!
