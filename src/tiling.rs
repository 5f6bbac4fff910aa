use vstd::prelude::*;

verus! {

/// A width and a height in pixels.
#[derive(Debug, Clone, Copy, PartialEq, Eq, Structural)]
pub struct Size {
    pub width: u32,
    pub height: u32,
}

/// How a canvas is cut into a grid of square tiles.
#[derive(Debug, Clone, Copy, PartialEq, Eq, Structural)]
pub struct TilingData {
    pub columns: u32,
    pub rows: u32,
    /// How far the last column and the last row overhang the canvas.
    pub diff: Size,
    /// Edge length of an interior tile.
    pub size: u32,
}

/// Number of tiles of edge `t` needed to cover `total` pixels.
pub open spec fn tile_count(total: int, t: int) -> int
    recommends
        t > 0,
{
    (total + t - 1) / t
}

/// Extent of the `i`-th tile along an axis of `total` pixels cut every `t` pixels.
pub open spec fn tile_extent(total: int, t: int, i: int) -> int {
    if (i + 1) * t <= total {
        t
    } else {
        total - i * t
    }
}

/// Sum of the extents of the first `n` tiles along an axis.
pub open spec fn extent_sum(total: int, t: int, n: nat) -> int
    decreases n,
{
    if n == 0 {
        0
    } else {
        extent_sum(total, t, (n - 1) as nat) + tile_extent(total, t, n - 1)
    }
}

impl TilingData {
    pub open spec fn wf(&self) -> bool {
        &&& self.size > 0
        &&& self.columns * self.size <= u32::MAX
        &&& self.rows * self.size <= u32::MAX
        &&& self.diff.width < self.size
        &&& self.diff.height < self.size
        &&& self.diff.width <= self.columns * self.size
        &&& self.diff.height <= self.rows * self.size
        &&& self.columns == 0 ==> self.diff.width == 0
        &&& self.rows == 0 ==> self.diff.height == 0
    }

    /// Width of the canvas that the grid covers.
    pub open spec fn width(&self) -> int {
        self.columns * self.size - self.diff.width
    }

    /// Height of the canvas that the grid covers.
    pub open spec fn height(&self) -> int {
        self.rows * self.size - self.diff.height
    }

    /// The grid of tiles of edge `size` over a `width` by `height` canvas.
    pub fn new(width: u32, height: u32, size: u32) -> (r: TilingData)
        requires
            size > 0,
            width + size - 1 <= u32::MAX,
            height + size - 1 <= u32::MAX,
        ensures
            r.wf(),
            r.size == size,
            r.columns == tile_count(width as int, size as int),
            r.rows == tile_count(height as int, size as int),
            r.width() == width,
            r.height() == height,
    {
        let columns: u32 = (width + (size - 1)) / size;
        let rows: u32 = (height + (size - 1)) / size;
        proof {
            lemma_ceil_div(width as int, size as int);
            lemma_ceil_div(height as int, size as int);
        }
        let cw: u32 = columns * size;
        let ch: u32 = rows * size;
        TilingData { columns, rows, diff: Size { width: cw - width, height: ch - height }, size }
    }

    /// The size of the tile at column `col` and row `row`: a full tile, but in the last
    /// column and the last row, which keep what is left of the canvas.
    pub fn tile_size(&self, col: u32, row: u32) -> (r: Size)
        requires
            self.wf(),
            col < self.columns,
            row < self.rows,
        ensures
            r.width == (if col != self.columns - 1 { self.size } else { (self.size - self.diff.width) as u32 }),
            r.height == (if row != self.rows - 1 { self.size } else { (self.size - self.diff.height) as u32 }),
            r.width == tile_extent(self.width(), self.size as int, col as int),
            r.height == tile_extent(self.height(), self.size as int, row as int),
            r.width > 0,
            r.height > 0,
    {
        proof {
            lemma_extent_shape(self.columns as int, self.size as int, self.diff.width as int, col as int);
            lemma_extent_shape(self.rows as int, self.size as int, self.diff.height as int, row as int);
        }
        Size {
            width: if col != self.columns - 1 {
                self.size
            } else {
                self.size - self.diff.width
            },
            height: if row != self.rows - 1 {
                self.size
            } else {
                self.size - self.diff.height
            },
        }
    }

    /// The pixel at which the tile at column `col` and row `row` starts.
    pub fn tile_origin(&self, col: u32, row: u32) -> (r: (u32, u32))
        requires
            self.wf(),
            col < self.columns,
            row < self.rows,
        ensures
            r.0 == col * self.size,
            r.1 == row * self.size,
    {
        proof {
            lemma_mul_below(col as int, self.columns as int, self.size as int);
            lemma_mul_below(row as int, self.rows as int, self.size as int);
        }
        (col * self.size, row * self.size)
    }
}

proof fn lemma_mul_below(i: int, n: int, t: int)
    requires
        0 <= i < n,
        t > 0,
    ensures
        i * t < n * t,
        i * t >= 0,
{
    assert(i * t < n * t) by (nonlinear_arith)
        requires
            0 <= i < n,
            t > 0,
    ;
    assert(i * t >= 0) by (nonlinear_arith)
        requires
            0 <= i,
            t > 0,
    ;
}

proof fn lemma_ceil_div(w: int, t: int)
    requires
        w >= 0,
        t > 0,
        w + t - 1 <= u32::MAX,
    ensures
        tile_count(w, t) * t >= w,
        tile_count(w, t) * t - w < t,
        tile_count(w, t) * t <= w + t - 1,
        tile_count(w, t) >= 0,
        tile_count(w, t) == 0 ==> w == 0,
{
    let c = tile_count(w, t);
    let q = w + t - 1;
    assert(c * t <= q && q < c * t + t && c >= 0) by (nonlinear_arith)
        requires
            c == q / t,
            t > 0,
            q >= 0,
    ;
    if c == 0 {
        assert(c * t == 0) by (nonlinear_arith)
            requires
                c == 0,
        ;
    }
}

proof fn lemma_extent_shape(n: int, t: int, d: int, i: int)
    requires
        t > 0,
        0 <= d < t,
        0 <= i < n,
    ensures
        tile_extent(n * t - d, t, i) == (if i != n - 1 { t } else { t - d }),
{
    let w = n * t - d;
    if i != n - 1 {
        assert((i + 1) * t <= (n - 1) * t) by (nonlinear_arith)
            requires
                i + 1 <= n - 1,
                t > 0,
        ;
        assert((n - 1) * t == n * t - t) by (nonlinear_arith);
    } else {
        assert((i + 1) * t == n * t);
        assert(i * t == n * t - t) by (nonlinear_arith)
            requires
                i == n - 1,
        ;
    }
}

proof fn lemma_extent_sum(n: int, t: int, d: int, k: nat)
    requires
        t > 0,
        0 <= d < t,
        n >= 1,
        k <= n,
    ensures
        extent_sum(n * t - d, t, k) == (if k < n { k * t } else { n * t - d }),
    decreases k,
{
    if k > 0 {
        lemma_extent_sum(n, t, d, (k - 1) as nat);
        lemma_extent_shape(n, t, d, k - 1);
        assert((k - 1) * t + t == k * t) by (nonlinear_arith);
        if k == n {
            assert((n - 1) * t + t == n * t) by (nonlinear_arith);
        }
    }
}

/// The tiles of a grid cover its canvas exactly: along any row the tile widths add up to
/// the canvas width, and along any column the tile heights add up to its height.
pub proof fn lemma_tiles_cover_canvas(g: TilingData)
    requires
        g.wf(),
    ensures
        extent_sum(g.width(), g.size as int, g.columns as nat) == g.width(),
        extent_sum(g.height(), g.size as int, g.rows as nat) == g.height(),
{
    if g.columns > 0 {
        lemma_extent_sum(g.columns as int, g.size as int, g.diff.width as int, g.columns as nat);
    }
    if g.rows > 0 {
        lemma_extent_sum(g.rows as int, g.size as int, g.diff.height as int, g.rows as nat);
    }
}

proof fn lemma_axis_disjoint(i: int, k: int, t: int, total: int)
    requires
        0 <= i < k,
        t > 0,
    ensures
        i * t + tile_extent(total, t, i) <= k * t,
{
    assert((i + 1) * t <= k * t) by (nonlinear_arith)
        requires
            i + 1 <= k,
            t > 0,
    ;
    assert((i + 1) * t == i * t + t) by (nonlinear_arith);
    if (i + 1) * t > total {
        assert(total - i * t < t);
    }
}

/// Two different tiles of a grid cover disjoint rectangles: one lies wholly left of, right
/// of, above or below the other. So writing every tile once writes no pixel twice.
pub proof fn lemma_tiles_disjoint(g: TilingData, c1: u32, r1: u32, c2: u32, r2: u32)
    requires
        g.wf(),
        c1 < g.columns && c2 < g.columns,
        r1 < g.rows && r2 < g.rows,
        c1 != c2 || r1 != r2,
    ensures
        c1 * g.size + tile_extent(g.width(), g.size as int, c1 as int) <= c2 * g.size
            || c2 * g.size + tile_extent(g.width(), g.size as int, c2 as int) <= c1 * g.size
            || r1 * g.size + tile_extent(g.height(), g.size as int, r1 as int) <= r2 * g.size
            || r2 * g.size + tile_extent(g.height(), g.size as int, r2 as int) <= r1 * g.size,
{
    if c1 < c2 {
        lemma_axis_disjoint(c1 as int, c2 as int, g.size as int, g.width());
    } else if c2 < c1 {
        lemma_axis_disjoint(c2 as int, c1 as int, g.size as int, g.width());
    } else if r1 < r2 {
        lemma_axis_disjoint(r1 as int, r2 as int, g.size as int, g.height());
    } else {
        lemma_axis_disjoint(r2 as int, r1 as int, g.size as int, g.height());
    }
}

} // verus!
