use vstd::prelude::*;
use crate::colour::{Rgba, median_colour, get_mean_colour};
use crate::raster::{Raster, grid_wf, grid_uniform};
use crate::colour::lemma_median_colour_uniform;

verus! {

/// Column `i` of the `(2 * hw + 1)`-wide square centred on `(x, y)`, top to bottom.
pub open spec fn window_col(g: Seq<Seq<Rgba>>, x: int, y: int, hw: int, i: int) -> Seq<Rgba> {
    Seq::new((2 * hw + 1) as nat, |j: int| g[y - hw + j][x - hw + i])
}

/// The first `n` columns of that square, left to right.
pub open spec fn window_cols(g: Seq<Seq<Rgba>>, x: int, y: int, hw: int, n: int) -> Seq<Rgba>
    decreases n,
{
    if n <= 0 {
        Seq::empty()
    } else {
        window_cols(g, x, y, hw, n - 1) + window_col(g, x, y, hw, n - 1)
    }
}

/// The whole square neighbourhood of `(x, y)` with half-width `hw`.
pub open spec fn neighbourhood(g: Seq<Seq<Rgba>>, x: int, y: int, hw: int) -> Seq<Rgba> {
    window_cols(g, x, y, hw, 2 * hw + 1)
}

/// The full neighbourhood of `(x, y)` lies inside a `w` by `h` grid.
pub open spec fn is_interior(w: int, h: int, hw: int, x: int, y: int) -> bool {
    hw <= x < w - hw && hw <= y < h - hw
}

/// Median smoothing: interior pixels take the per-channel median of their
/// neighbourhood; pixels closer than `hw` to a border keep their value.
pub open spec fn smoothed(g: Seq<Seq<Rgba>>, w: int, h: int, hw: int) -> Seq<Seq<Rgba>> {
    Seq::new(
        h as nat,
        |y: int|
            Seq::new(
                w as nat,
                |x: int|
                    if is_interior(w, h, hw, x, y) {
                        median_colour(neighbourhood(g, x, y, hw))
                    } else {
                        g[y][x]
                    },
            ),
    )
}

pub proof fn lemma_window_cols_len(g: Seq<Seq<Rgba>>, x: int, y: int, hw: int, n: int)
    requires
        hw >= 0,
        n >= 0,
    ensures
        window_cols(g, x, y, hw, n).len() == n * (2 * hw + 1),
    decreases n,
{
    if n > 0 {
        lemma_window_cols_len(g, x, y, hw, n - 1);
        assert(window_col(g, x, y, hw, n - 1).len() == 2 * hw + 1);
        assert(n * (2 * hw + 1) == (n - 1) * (2 * hw + 1) + (2 * hw + 1)) by (nonlinear_arith);
    } else {
        assert(n * (2 * hw + 1) == 0) by (nonlinear_arith)
            requires
                n == 0,
        ;
    }
}

/// The colours of the neighbourhood of `(x, y)`, column by column.
fn neighbourhood_colours(img: &Raster, x: usize, y: usize, hw: usize) -> (v: Vec<Rgba>)
    requires
        img.wf(),
        hw <= x,
        hw <= y,
        img.width - x > hw,
        img.height - y > hw,
    ensures
        v@ == neighbourhood(img.grid(), x as int, y as int, hw as int),
{
    let ghost g = img.grid();
    let m: usize = 2 * hw + 1;
    let mut v: Vec<Rgba> = Vec::new();
    let mut i: usize = 0;
    while i < m
        invariant
            img.wf(),
            g == img.grid(),
            m == 2 * hw + 1,
            hw <= x,
            hw <= y,
            img.width - x > hw,
            img.height - y > hw,
            i <= m,
            v@ == window_cols(g, x as int, y as int, hw as int, i as int),
        decreases m - i,
    {
        let ghost col = window_col(g, x as int, y as int, hw as int, i as int);
        let mut j: usize = 0;
        while j < m
            invariant
                img.wf(),
                g == img.grid(),
                m == 2 * hw + 1,
                hw <= x,
                hw <= y,
                img.width - x > hw,
                img.height - y > hw,
                i < m,
                j <= m,
                col == window_col(g, x as int, y as int, hw as int, i as int),
                v@ == window_cols(g, x as int, y as int, hw as int, i as int) + col.take(j as int),
            decreases m - j,
        {
            let p = img.get_pixel(x - hw + i, y - hw + j);
            v.push(p);
            j = j + 1;
            assert(col.take(j as int) =~= col.take(j - 1).push(p));
            assert(v@ =~= window_cols(g, x as int, y as int, hw as int, (i as int)) + col.take(j as int));
        }
        assert(col.take(m as int) =~= col);
        i = i + 1;
    }
    v
}

/// Replaces every interior pixel of `img` by the per-channel median of its
/// `window` by `window` neighbourhood; border pixels are copied unchanged.
pub fn median_filter(img: &Raster, window: usize) -> (out: Raster)
    requires
        img.wf(),
        window % 2 == 1,
    ensures
        out.wf(),
        out.width == img.width,
        out.height == img.height,
        out.grid() == smoothed(img.grid(), img.width as int, img.height as int, (window as int - 1) / 2),
{
    let ghost g = img.grid();
    let ghost w = img.width as int;
    let ghost h = img.height as int;
    let hw: usize = (window - 1) / 2;
    let ghost target = smoothed(g, w, h, hw as int);
    let mut rows: Vec<Vec<Rgba>> = Vec::new();
    let mut y: usize = 0;
    while y < img.height
        invariant
            img.wf(),
            g == img.grid(),
            w == img.width,
            h == img.height,
            target == smoothed(g, w, h, hw as int),
            y <= h,
            rows@.len() == y,
            forall|k: int| 0 <= k < y ==> #[trigger] rows@[k]@ == target[k],
        decreases h - y,
    {
        let mut row: Vec<Rgba> = Vec::new();
        let mut x: usize = 0;
        while x < img.width
            invariant
                img.wf(),
                g == img.grid(),
                w == img.width,
                h == img.height,
                target == smoothed(g, w, h, hw as int),
                y < h,
                x <= w,
                row@.len() == x,
                forall|k: int| 0 <= k < x ==> #[trigger] row@[k] == target[y as int][k],
            decreases w - x,
        {
            let p = if hw <= x && hw <= y && img.width - x > hw && img.height - y > hw {
                let colours = neighbourhood_colours(img, x, y, hw);
                proof {
                    lemma_window_cols_len(g, x as int, y as int, hw as int, 2 * hw + 1);
                    assert((2 * hw + 1) * (2 * hw + 1) > 0) by (nonlinear_arith);
                }
                get_mean_colour(&colours)
            } else {
                img.get_pixel(x, y)
            };
            row.push(p);
            x = x + 1;
        }
        assert(row@ =~= target[y as int]);
        rows.push(row);
        y = y + 1;
    }
    let out = Raster { width: img.width, height: img.height, rows };
    assert(out.grid() =~= target);
    out
}

proof fn lemma_window_cols_uniform(
    g: Seq<Seq<Rgba>>,
    w: int,
    h: int,
    hw: int,
    x: int,
    y: int,
    n: int,
    c: Rgba,
)
    requires
        grid_uniform(g, w, h, c),
        hw >= 0,
        is_interior(w, h, hw, x, y),
        0 <= n <= 2 * hw + 1,
    ensures
        forall|k: int| 0 <= k < window_cols(g, x, y, hw, n).len() ==> #[trigger] window_cols(g, x, y, hw, n)[k] == c,
    decreases n,
{
    if n > 0 {
        lemma_window_cols_uniform(g, w, h, hw, x, y, n - 1, c);
        let a = window_cols(g, x, y, hw, n - 1);
        let b = window_col(g, x, y, hw, n - 1);
        assert forall|k: int| 0 <= k < b.len() implies #[trigger] b[k] == c by {
            assert(g[y - hw + k][x - hw + n - 1] == c);
        }
        assert forall|k: int| 0 <= k < (a + b).len() implies #[trigger] (a + b)[k] == c by {
            if k >= a.len() {
                assert((a + b)[k] == b[k - a.len()]);
            }
        }
    }
}

/// Smoothing a grid of one colour leaves it unchanged.
pub proof fn lemma_smoothed_uniform(g: Seq<Seq<Rgba>>, w: int, h: int, hw: int, c: Rgba)
    requires
        grid_wf(g, w, h),
        grid_uniform(g, w, h, c),
        w >= 0,
        hw >= 0,
    ensures
        grid_wf(smoothed(g, w, h, hw), w, h),
        grid_uniform(smoothed(g, w, h, hw), w, h, c),
{
    let r = smoothed(g, w, h, hw);
    assert forall|x: int, y: int| 0 <= x < w && 0 <= y < h implies #[trigger] r[y][x] == c by {
        if is_interior(w, h, hw, x, y) {
            let n = neighbourhood(g, x, y, hw);
            lemma_window_cols_uniform(g, w, h, hw, x, y, 2 * hw + 1, c);
            lemma_window_cols_len(g, x, y, hw, 2 * hw + 1);
            assert((2 * hw + 1) * (2 * hw + 1) > 0) by (nonlinear_arith)
                requires
                    hw >= 0,
            ;
            lemma_median_colour_uniform(n, c);
        }
    }
}

/// The neighbourhood of an interior pixel holds `(2 * hw + 1)^2` pixels, the
/// one at position `i * (2 * hw + 1) + j` being the pixel at `(x - hw + i, y - hw + j)`.
pub proof fn lemma_neighbourhood_contents(g: Seq<Seq<Rgba>>, x: int, y: int, hw: int, n: int)
    requires
        hw >= 0,
        0 <= n <= 2 * hw + 1,
    ensures
        window_cols(g, x, y, hw, n).len() == n * (2 * hw + 1),
        forall|i: int, j: int|
            0 <= i < n && 0 <= j < 2 * hw + 1 ==> #[trigger] window_cols(g, x, y, hw, n)[i * (2 * hw + 1) + j]
                == g[y - hw + j][x - hw + i],
    decreases n,
{
    lemma_window_cols_len(g, x, y, hw, n);
    if n > 0 {
        lemma_neighbourhood_contents(g, x, y, hw, n - 1);
        let m = 2 * hw + 1;
        let a = window_cols(g, x, y, hw, n - 1);
        let b = window_col(g, x, y, hw, n - 1);
        assert forall|i: int, j: int| 0 <= i < n && 0 <= j < m implies #[trigger] window_cols(g, x, y, hw, n)[i * m + j]
            == g[y - hw + j][x - hw + i] by {
            if i < n - 1 {
                assert(i * m + j < (n - 1) * m) by (nonlinear_arith)
                    requires
                        0 <= i < n - 1,
                        0 <= j < m,
                ;
                assert(0 <= i * m + j) by (nonlinear_arith)
                    requires
                        0 <= i,
                        0 <= j,
                        m > 0,
                ;
            } else {
                assert(i * m + j == (n - 1) * m + j);
                assert((a + b)[i * m + j] == b[j]);
            }
        }
    }
}

} // verus!
