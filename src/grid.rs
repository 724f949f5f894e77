use vstd::prelude::*;

use crate::color::{channel, lemma_mean_of_uniform, lemma_mean_within_extremes, mean, RGBA};
use crate::plane::ImagePlane;

verus! {

/// The size of one grid cell in pixels.
#[derive(Clone, Copy, Debug, PartialEq, Eq, Structural)]
pub struct GridSize {
    pub width: u32,
    pub height: u32,
}

impl GridSize {
    /// Both cell dimensions are positive.
    pub open spec fn valid(&self) -> bool {
        self.width > 0 && self.height > 0
    }
}

/// `a / b` rounded up.
pub open spec fn ceil_div(a: int, b: int) -> int {
    (a + b - 1) / b
}

/// Number of cell rows: one per started band of `grid.height` pixel rows.
pub open spec fn grid_rows(img: ImagePlane, grid: GridSize) -> int {
    ceil_div(img.height as int, grid.height as int)
}

/// Number of cells in each row: one per started band of `grid.width`
/// pixel columns.
pub open spec fn grid_cols(img: ImagePlane, grid: GridSize) -> int {
    ceil_div(img.width as int, grid.width as int)
}

pub open spec fn min(a: int, b: int) -> int {
    if a <= b {
        a
    } else {
        b
    }
}

/// First pixel column of the cells in column `col`.
pub open spec fn cell_left(grid: GridSize, col: int) -> int {
    col * grid.width as int
}

/// One past the last pixel column of the cells in column `col`, cut at the
/// image's right edge.
pub open spec fn cell_right(img: ImagePlane, grid: GridSize, col: int) -> int {
    min((col + 1) * grid.width as int, img.width as int)
}

/// First pixel row of the cells in row `row`.
pub open spec fn cell_top(grid: GridSize, row: int) -> int {
    row * grid.height as int
}

/// One past the last pixel row of the cells in row `row`, cut at the
/// image's bottom edge.
pub open spec fn cell_bottom(img: ImagePlane, grid: GridSize, row: int) -> int {
    min((row + 1) * grid.height as int, img.height as int)
}

/// The pixels of row `y` from column `x0` up to, not including, `x1`.
pub open spec fn row_run(img: ImagePlane, y: int, x0: int, x1: int) -> Seq<RGBA> {
    Seq::new((x1 - x0) as nat, |i: int| img.pixel(x0 + i, y))
}

/// The pixels of the rectangle `[x0, x1) x [y0, y1)`, row by row.
pub open spec fn block(img: ImagePlane, x0: int, x1: int, y0: int, y1: int) -> Seq<RGBA>
    decreases y1 - y0,
{
    if y1 <= y0 {
        Seq::empty()
    } else {
        block(img, x0, x1, y0, y1 - 1) + row_run(img, y1 - 1, x0, x1)
    }
}

/// The in-bounds pixels of cell `(row, col)`.
pub open spec fn cell_pixels(img: ImagePlane, grid: GridSize, row: int, col: int) -> Seq<RGBA> {
    block(
        img,
        cell_left(grid, col),
        cell_right(img, grid, col),
        cell_top(grid, row),
        cell_bottom(img, grid, row),
    )
}

/// The averaged color of cell `(row, col)`.
pub open spec fn cell_color(img: ImagePlane, grid: GridSize, row: int, col: int) -> RGBA {
    mean(cell_pixels(img, grid, row, col))
}

/// The color matrix: one averaged color per cell, indexed `[row][col]`.
pub open spec fn color_matrix_of(img: ImagePlane, grid: GridSize) -> Seq<Seq<RGBA>> {
    Seq::new(
        grid_rows(img, grid) as nat,
        |row: int| Seq::new(grid_cols(img, grid) as nat, |col: int| cell_color(img, grid, row, col)),
    )
}

/// A rectangle of `x1 - x0` columns and `y1 - y0` rows holds that many
/// pixels.
pub proof fn lemma_block_len(img: ImagePlane, x0: int, x1: int, y0: int, y1: int)
    requires
        x0 <= x1,
        y0 <= y1,
    ensures
        block(img, x0, x1, y0, y1).len() == (x1 - x0) * (y1 - y0),
    decreases y1 - y0,
{
    if y1 > y0 {
        lemma_block_len(img, x0, x1, y0, y1 - 1);
        assert(row_run(img, y1 - 1, x0, x1).len() == x1 - x0);
        assert(block(img, x0, x1, y0, y1) == block(img, x0, x1, y0, y1 - 1) + row_run(
            img,
            y1 - 1,
            x0,
            x1,
        ));
        assert((x1 - x0) * (y1 - y0) == (x1 - x0) * (y1 - 1 - y0) + (x1 - x0))
            by (nonlinear_arith);
    } else {
        assert((x1 - x0) * (y1 - y0) == 0) by (nonlinear_arith)
            requires
                y1 == y0,
        ;
    }
}

/// Bounds of a cell that lies inside the grid.
pub proof fn lemma_cell_bounds(img: ImagePlane, grid: GridSize, row: int, col: int)
    requires
        img.wf(),
        grid.valid(),
        0 <= row < grid_rows(img, grid),
        0 <= col < grid_cols(img, grid),
    ensures
        0 <= cell_left(grid, col) < cell_right(img, grid, col) <= img.width,
        0 <= cell_top(grid, row) < cell_bottom(img, grid, row) <= img.height,
        cell_right(img, grid, col) - cell_left(grid, col) <= grid.width,
        cell_bottom(img, grid, row) - cell_top(grid, row) <= grid.height,
        cell_pixels(img, grid, row, col).len() > 0,
{
    let (w, h, cw, ch) = (img.width as int, img.height as int, grid.width as int, grid.height as int);
    assert(0 <= col * cw < w) by (nonlinear_arith)
        requires
            0 <= col < (w + cw - 1) / cw,
            cw > 0,
            w > 0,
    ;
    assert(0 <= row * ch < h) by (nonlinear_arith)
        requires
            0 <= row < (h + ch - 1) / ch,
            ch > 0,
            h > 0,
    ;
    assert((col + 1) * cw == col * cw + cw) by (nonlinear_arith);
    assert((row + 1) * ch == row * ch + ch) by (nonlinear_arith);
    lemma_block_len(
        img,
        cell_left(grid, col),
        cell_right(img, grid, col),
        cell_top(grid, row),
        cell_bottom(img, grid, row),
    );
    let a = cell_right(img, grid, col) - cell_left(grid, col);
    let b = cell_bottom(img, grid, row) - cell_top(grid, row);
    assert(a * b > 0) by (nonlinear_arith)
        requires
            a > 0,
            b > 0,
    ;
}

/// When `b` divides `a`, rounding the quotient up changes nothing.
pub proof fn lemma_ceil_div_exact(a: int, b: int)
    requires
        a >= 0,
        b > 0,
        a % b == 0,
    ensures
        ceil_div(a, b) == a / b,
{
    let q = a / b;
    vstd::arithmetic::div_mod::lemma_fundamental_div_mod(a, b);
    vstd::arithmetic::div_mod::lemma_fundamental_div_mod_converse(a + b - 1, b, q, b - 1);
}

/// Every channel of a cell's averaged color lies within the smallest and
/// the largest value of that channel among the cell's pixels.
pub proof fn lemma_cell_color_within_extremes(
    img: ImagePlane,
    grid: GridSize,
    row: int,
    col: int,
    c: int,
    lo: int,
    hi: int,
)
    requires
        img.wf(),
        grid.valid(),
        0 <= row < grid_rows(img, grid),
        0 <= col < grid_cols(img, grid),
        0 <= c < 4,
        forall|i: int|
            0 <= i < cell_pixels(img, grid, row, col).len() ==> lo <= #[trigger] channel(
                cell_pixels(img, grid, row, col)[i],
                c,
            ) <= hi,
    ensures
        lo <= channel(color_matrix_of(img, grid)[row][col], c) <= hi,
{
    lemma_cell_bounds(img, grid, row, col);
    lemma_mean_within_extremes(cell_pixels(img, grid, row, col), c, lo, hi);
}

/// A cell whose pixels all equal `p` averages to exactly `p`.
pub proof fn lemma_uniform_cell(img: ImagePlane, grid: GridSize, row: int, col: int, p: RGBA)
    requires
        img.wf(),
        grid.valid(),
        0 <= row < grid_rows(img, grid),
        0 <= col < grid_cols(img, grid),
        forall|i: int|
            0 <= i < cell_pixels(img, grid, row, col).len() ==> #[trigger] cell_pixels(
                img,
                grid,
                row,
                col,
            )[i] == p,
    ensures
        color_matrix_of(img, grid)[row][col] == p,
{
    lemma_cell_bounds(img, grid, row, col);
    lemma_mean_of_uniform(cell_pixels(img, grid, row, col), p);
}

/// Two images with the same dimensions and pixels have the same
/// rectangles.
pub proof fn lemma_block_same(a: ImagePlane, b: ImagePlane, x0: int, x1: int, y0: int, y1: int)
    requires
        a.width == b.width,
        a.pixels@ == b.pixels@,
    ensures
        block(a, x0, x1, y0, y1) == block(b, x0, x1, y0, y1),
    decreases y1 - y0,
{
    if y1 > y0 {
        lemma_block_same(a, b, x0, x1, y0, y1 - 1);
        assert(row_run(a, y1 - 1, x0, x1) =~= row_run(b, y1 - 1, x0, x1));
    }
}

/// Collects the pixels of the rectangle `[x0, x1) x [y0, y1)`, row by row.
pub fn collect_block(img: &ImagePlane, x0: u32, x1: u32, y0: u32, y1: u32) -> (r: Vec<RGBA>)
    requires
        img.wf(),
        x0 <= x1 <= img.width,
        y0 <= y1 <= img.height,
    ensures
        r@ == block(*img, x0 as int, x1 as int, y0 as int, y1 as int),
{
    let mut v: Vec<RGBA> = Vec::new();
    let mut y: u32 = y0;
    while y < y1
        invariant
            img.wf(),
            x0 <= x1 <= img.width,
            y0 <= y <= y1 <= img.height,
            v@ == block(*img, x0 as int, x1 as int, y0 as int, y as int),
        decreases y1 - y,
    {
        let mut x: u32 = x0;
        while x < x1
            invariant
                img.wf(),
                x0 <= x <= x1 <= img.width,
                y0 <= y < y1 <= img.height,
                v@ == block(*img, x0 as int, x1 as int, y0 as int, y as int) + row_run(
                    *img,
                    y as int,
                    x0 as int,
                    x as int,
                ),
            decreases x1 - x,
        {
            let p = img.pixel_at(x, y);
            v.push(p);
            proof {
                assert(row_run(*img, y as int, x0 as int, x as int).push(p) =~= row_run(
                    *img,
                    y as int,
                    x0 as int,
                    x as int + 1,
                ));
            }
            x = x + 1;
        }
        proof {
            assert(x == x1);
            assert(block(*img, x0 as int, x1 as int, y0 as int, y as int + 1) == block(
                *img,
                x0 as int,
                x1 as int,
                y0 as int,
                y as int,
            ) + row_run(*img, y as int, x0 as int, x1 as int));
        }
        y = y + 1;
    }
    v
}

/// `n` whole cells of size `b` start before `a` exactly when `n` is less
/// than `a / b` rounded up.
pub proof fn lemma_ceil_div(n: int, a: int, b: int)
    requires
        n >= 0,
        a >= 0,
        b > 0,
    ensures
        n * b < a <==> n < ceil_div(a, b),
{
    let q = ceil_div(a, b);
    assert(q * b <= a + b - 1 < q * b + b) by (nonlinear_arith)
        requires
            b > 0,
            q == (a + b - 1) / b,
    ;
    if n < q {
        assert(n * b <= q * b - b) by (nonlinear_arith)
            requires
                n <= q - 1,
                b > 0,
        ;
    } else {
        assert(n * b >= q * b) by (nonlinear_arith)
            requires
                n >= q,
                b > 0,
        ;
    }
}

/// Averages the cells of row `row`, left to right.
fn color_row(img: &ImagePlane, grid: GridSize, row: u64) -> (cells: Vec<RGBA>)
    requires
        img.wf(),
        grid.valid(),
        row < grid_rows(*img, grid),
    ensures
        cells@ == color_matrix_of(*img, grid)[row as int],
{
    let ghost cols = grid_cols(*img, grid);
    let w: u64 = img.width as u64;
    let h: u64 = img.height as u64;
    let cw: u64 = grid.width as u64;
    let ch: u64 = grid.height as u64;
    proof {
        lemma_ceil_div(0, w as int, cw as int);
        lemma_ceil_div(row as int, h as int, ch as int);
        assert((row + 1) * ch == row * ch + ch) by (nonlinear_arith);
        assert(cols <= w) by (nonlinear_arith)
            requires
                cols == (w + cw - 1) / (cw as int),
                cw >= 1,
        ;
    }
    let y0: u64 = row * ch;
    let y1: u64 = if y0 + ch < h {
        y0 + ch
    } else {
        h
    };
    let mut cells: Vec<RGBA> = Vec::new();
    let mut x0: u64 = 0;
    let mut col: u64 = 0;
    while x0 < w
        invariant
            img.wf(),
            grid.valid(),
            cols == grid_cols(*img, grid),
            w == img.width,
            cw == grid.width,
            row < grid_rows(*img, grid),
            y0 == cell_top(grid, row as int),
            y1 == cell_bottom(*img, grid, row as int),
            y0 < y1 <= img.height,
            x0 == col * cw,
            x0 < w <==> col < cols,
            col <= cols <= w,
            cells@.len() == col,
            forall|c: int| 0 <= c < col ==> #[trigger] cells@[c] == cell_color(*img, grid, row as int, c),
        decreases cols - col,
    {
        let x1: u64 = if x0 + cw < w {
            x0 + cw
        } else {
            w
        };
        proof {
            lemma_cell_bounds(*img, grid, row as int, col as int);
            assert((col + 1) * cw == col * cw + cw) by (nonlinear_arith);
        }
        let px = collect_block(img, x0 as u32, x1 as u32, y0 as u32, y1 as u32);
        let color = RGBA::from_vrgb(px);
        cells.push(color);
        proof {
            lemma_ceil_div(col + 1, w as int, cw as int);
        }
        x0 = x0 + cw;
        col = col + 1;
    }
    proof {
        assert(cells@ =~= color_matrix_of(*img, grid)[row as int]);
    }
    cells
}

/// Averages every cell of the grid laid over `img`, row by row, each row
/// left to right.
pub fn color_matrix(img: &ImagePlane, grid: GridSize) -> (m: Vec<Vec<RGBA>>)
    requires
        img.wf(),
        grid.valid(),
    ensures
        m@.len() == grid_rows(*img, grid),
        forall|row: int| 0 <= row < m@.len() ==> #[trigger] m@[row]@ == color_matrix_of(*img, grid)[row],
{
    let ghost rows = grid_rows(*img, grid);
    let h: u64 = img.height as u64;
    let ch: u64 = grid.height as u64;
    let mut m: Vec<Vec<RGBA>> = Vec::new();
    let mut y0: u64 = 0;
    let mut row: u64 = 0;
    proof {
        lemma_ceil_div(0, h as int, ch as int);
        assert(rows <= h) by (nonlinear_arith)
            requires
                rows == (h + ch - 1) / (ch as int),
                ch >= 1,
        ;
    }
    while y0 < h
        invariant
            img.wf(),
            grid.valid(),
            rows == grid_rows(*img, grid),
            h == img.height,
            ch == grid.height,
            y0 == row * ch,
            y0 < h <==> row < rows,
            row <= rows <= h,
            m@.len() == row,
            forall|r: int| 0 <= r < row ==> #[trigger] m@[r]@ == color_matrix_of(*img, grid)[r],
        decreases rows - row,
    {
        let cells = color_row(img, grid, row);
        m.push(cells);
        proof {
            assert((row + 1) * ch == row * ch + ch) by (nonlinear_arith);
            lemma_ceil_div(row + 1, h as int, ch as int);
        }
        y0 = y0 + ch;
        row = row + 1;
    }
    m
}

} // verus!
