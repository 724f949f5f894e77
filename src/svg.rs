use vstd::prelude::*;

use crate::color::{color_text, mean, RGBA};
use crate::grid::{
    block, cell_bottom, cell_left, cell_pixels, cell_right, cell_top, color_matrix,
    color_matrix_of, grid_cols, grid_rows, lemma_block_len, lemma_ceil_div_exact, GridSize,
};
use crate::plane::ImagePlane;
use crate::text::{decimal_text, half_text, push_decimal, push_half};

verus! {

/// A filled circle. Lengths are stored doubled, so that centers and radii
/// that fall on half pixels stay whole numbers: the radius is `r2 / 2`,
/// the center `(cx2 / 2, cy2 / 2)`.
#[derive(Clone, Copy, Debug, PartialEq, Eq, Structural)]
pub struct Circle {
    pub r2: u128,
    pub cx2: u128,
    pub cy2: u128,
    pub fill: RGBA,
}

/// A vector document: a canvas of `width` by `height` and its circles, in
/// the order they are drawn.
pub struct VectorDocument {
    pub width: u32,
    pub height: u32,
    pub circles: Vec<Circle>,
}

/// The circle of cell `(row, col)`: radius half the cell width, centers
/// spaced one cell width apart along both axes.
pub open spec fn circle_at(row: int, col: int, cell_width: int, fill: RGBA) -> Circle {
    Circle {
        r2: cell_width as u128,
        cx2: ((2 * col + 1) * cell_width) as u128,
        cy2: ((2 * row + 1) * cell_width) as u128,
        fill,
    }
}

/// The circles of one matrix row.
pub open spec fn row_circles(cells: Seq<RGBA>, row: int, cell_width: int) -> Seq<Circle> {
    Seq::new(cells.len(), |col: int| circle_at(row, col, cell_width, cells[col]))
}

/// The circles of a color matrix, row by row, each row left to right.
pub open spec fn circles_of(m: Seq<Seq<RGBA>>, cell_width: int) -> Seq<Circle>
    decreases m.len(),
{
    if m.len() == 0 {
        Seq::empty()
    } else {
        circles_of(m.drop_last(), cell_width) + row_circles(m.last(), m.len() - 1, cell_width)
    }
}

/// The circles drawn for `img` under `grid`.
pub open spec fn document_circles(img: ImagePlane, grid: GridSize) -> Seq<Circle> {
    circles_of(color_matrix_of(img, grid), grid.width as int)
}

/// The markup of one circle.
pub open spec fn circle_text(c: Circle) -> Seq<char> {
    "<circle r=\""@ + half_text(c.r2 as nat) + "\" cx=\""@ + half_text(c.cx2 as nat)
        + "\" cy=\""@ + half_text(c.cy2 as nat) + "\" fill=\""@ + color_text(c.fill)
        + "\" />"@
}

/// The markup of a run of circles, in order.
pub open spec fn circles_text(cs: Seq<Circle>) -> Seq<char>
    decreases cs.len(),
{
    if cs.len() == 0 {
        Seq::empty()
    } else {
        circles_text(cs.drop_last()) + circle_text(cs.last())
    }
}

/// The opening tag of a document of `width` by `height`.
pub open spec fn svg_open_text(width: nat, height: nat) -> Seq<char> {
    "<svg height=\""@ + decimal_text(height) + "\" width=\""@ + decimal_text(width)
        + "\" xmlns=\"http://www.w3.org/2000/svg\">"@
}

/// The whole markup of a document.
pub open spec fn svg_text(width: nat, height: nat, cs: Seq<Circle>) -> Seq<char> {
    svg_open_text(width, height) + circles_text(cs) + "</svg>"@
}

/// The markup drawn for `img` under `grid`.
pub open spec fn rasterized_text(img: ImagePlane, grid: GridSize) -> Seq<char> {
    svg_text(img.width as nat, img.height as nat, document_circles(img, grid))
}

/// The matrix that a vector of rows stands for.
pub open spec fn matrix_view(m: Seq<Vec<RGBA>>) -> Seq<Seq<RGBA>> {
    Seq::new(m.len(), |i: int| m[i]@)
}

/// A matrix whose rows all hold `k` cells gives `k` circles per row.
pub proof fn lemma_circles_len(m: Seq<Seq<RGBA>>, cell_width: int, k: int)
    requires
        k >= 0,
        forall|r: int| 0 <= r < m.len() ==> (#[trigger] m[r]).len() == k,
    ensures
        circles_of(m, cell_width).len() == m.len() * k,
    decreases m.len(),
{
    if m.len() > 0 {
        let t = m.drop_last();
        assert forall|r: int| 0 <= r < t.len() implies (#[trigger] t[r]).len() == k by {
            assert(t[r] == m[r]);
        }
        lemma_circles_len(t, cell_width, k);
        assert(m.len() * k == t.len() * k + k) by (nonlinear_arith)
            requires
                m.len() == t.len() + 1,
        ;
    } else {
        assert(m.len() * k == 0) by (nonlinear_arith)
            requires
                m.len() == 0,
        ;
    }
}

/// In a matrix whose rows all hold `k` cells, the circle of cell
/// `(row, col)` stands at position `row * k + col`.
pub proof fn lemma_circle_index(m: Seq<Seq<RGBA>>, cell_width: int, k: int, row: int, col: int)
    requires
        k >= 0,
        forall|r: int| 0 <= r < m.len() ==> (#[trigger] m[r]).len() == k,
        0 <= row < m.len(),
        0 <= col < k,
    ensures
        0 <= row * k + col < circles_of(m, cell_width).len(),
        circles_of(m, cell_width)[row * k + col] == circle_at(row, col, cell_width, m[row][col]),
    decreases m.len(),
{
    let t = m.drop_last();
    assert forall|r: int| 0 <= r < t.len() implies (#[trigger] t[r]).len() == k by {
        assert(t[r] == m[r]);
    }
    lemma_circles_len(t, cell_width, k);
    lemma_circles_len(m, cell_width, k);
    if row < m.len() - 1 {
        lemma_circle_index(t, cell_width, k, row, col);
        assert(t[row] == m[row]);
    } else {
        assert(row * k == t.len() * k);
    }
    assert(0 <= row * k + col < m.len() * k) by (nonlinear_arith)
        requires
            0 <= row < m.len(),
            0 <= col < k,
    ;
}

/// For an image whose sides are whole multiples of the cell's sides, the
/// color matrix has `height / cell height` rows of `width / cell width`
/// cells, and the document has one circle for each of them.
pub proof fn lemma_even_grid_counts(img: ImagePlane, grid: GridSize)
    requires
        img.wf(),
        grid.valid(),
        img.width % grid.width == 0,
        img.height % grid.height == 0,
    ensures
        color_matrix_of(img, grid).len() == img.height / grid.height,
        forall|r: int|
            0 <= r < color_matrix_of(img, grid).len() ==> (#[trigger] color_matrix_of(
                img,
                grid,
            )[r]).len() == img.width / grid.width,
        document_circles(img, grid).len() == (img.width / grid.width) * (img.height
            / grid.height),
{
    lemma_ceil_div_exact(img.width as int, grid.width as int);
    lemma_ceil_div_exact(img.height as int, grid.height as int);
    let m = color_matrix_of(img, grid);
    let k = img.width / grid.width;
    lemma_circles_len(m, grid.width as int, k as int);
    assert(m.len() * k == k * m.len()) by (nonlinear_arith);
}

/// Every cell, cut at an image edge or not, is drawn as exactly one circle:
/// the one at position `row * cols + col`, filled with the mean of the
/// cell's in-bounds pixels.
pub proof fn lemma_circle_of_cell(img: ImagePlane, grid: GridSize, row: int, col: int)
    requires
        img.wf(),
        grid.valid(),
        0 <= row < grid_rows(img, grid),
        0 <= col < grid_cols(img, grid),
    ensures
        document_circles(img, grid).len() == grid_rows(img, grid) * grid_cols(img, grid),
        document_circles(img, grid)[row * grid_cols(img, grid) + col] == circle_at(
            row,
            col,
            grid.width as int,
            mean(cell_pixels(img, grid, row, col)),
        ),
{
    let m = color_matrix_of(img, grid);
    let k = grid_cols(img, grid);
    assert(k >= 0) by (nonlinear_arith)
        requires
            k == (img.width + grid.width - 1) / (grid.width as int),
            grid.width > 0,
    ;
    lemma_circles_len(m, grid.width as int, k);
    lemma_circle_index(m, grid.width as int, k, row, col);
}

/// When the cell width does not divide the image width, the last cell of
/// each row is cut at the right edge: it covers only the remaining columns,
/// fewer than a full cell, and is still drawn as exactly one circle filled
/// with the mean of just those pixels.
pub proof fn lemma_truncated_edge_cell(img: ImagePlane, grid: GridSize, row: int)
    requires
        img.wf(),
        grid.valid(),
        img.width % grid.width != 0,
        0 <= row < grid_rows(img, grid),
    ensures
        grid_cols(img, grid) == img.width / grid.width + 1,
        cell_left(grid, (img.width / grid.width) as int) == img.width - img.width % grid.width,
        cell_right(img, grid, (img.width / grid.width) as int) == img.width,
        cell_pixels(img, grid, row, (img.width / grid.width) as int) == block(
            img,
            img.width - img.width % grid.width,
            img.width as int,
            cell_top(grid, row),
            cell_bottom(img, grid, row),
        ),
        cell_pixels(img, grid, row, (img.width / grid.width) as int).len() == (img.width % grid.width) * (
        cell_bottom(img, grid, row) - cell_top(grid, row)),
        document_circles(img, grid)[row * grid_cols(img, grid) + (img.width / grid.width) as int]
            == circle_at(
            row,
            (img.width / grid.width) as int,
            grid.width as int,
            mean(cell_pixels(img, grid, row, (img.width / grid.width) as int)),
        ),
{
    let (w, cw) = (img.width as int, grid.width as int);
    let q = w / cw;
    let r = w % cw;
    vstd::arithmetic::div_mod::lemma_fundamental_div_mod(w, cw);
    assert(0 < r < cw);
    assert(q * cw == cw * q) by (nonlinear_arith);
    assert((q + 1) * cw == q * cw + cw) by (nonlinear_arith);
    vstd::arithmetic::div_mod::lemma_fundamental_div_mod_converse(w + cw - 1, cw, q + 1, r - 1);
    lemma_circle_of_cell(img, grid, row, q);
    crate::grid::lemma_cell_bounds(img, grid, row, q);
    lemma_block_len(img, q * cw, w, cell_top(grid, row), cell_bottom(img, grid, row));
}

/// Lays one circle per matrix cell on a canvas of `width` by `height`.
pub fn build_document(matrix: &Vec<Vec<RGBA>>, width: u32, height: u32, cell_width: u32) -> (r:
    VectorDocument)
    ensures
        r.width == width,
        r.height == height,
        r.circles@ == circles_of(matrix_view(matrix@), cell_width as int),
{
    let mut circles: Vec<Circle> = Vec::new();
    let cw: u128 = cell_width as u128;
    let mut row: usize = 0;
    while row < matrix.len()
        invariant
            0 <= row <= matrix@.len(),
            cw == cell_width,
            circles@ == circles_of(matrix_view(matrix@.take(row as int)), cell_width as int),
        decreases matrix@.len() - row,
    {
        let cells = &matrix[row];
        let ghost before = circles@;
        let mut col: usize = 0;
        while col < cells.len()
            invariant
                0 <= row < matrix@.len(),
                cells == matrix@[row as int],
                0 <= col <= cells@.len(),
                cw == cell_width,
                circles@ == before + row_circles(cells@, row as int, cell_width as int).take(
                    col as int,
                ),
            decreases cells@.len() - col,
        {
            proof {
                assert((2 * row + 1) * cw <= (2 * 0xffff_ffff_ffff_ffffu128 + 1) * 0xffff_ffffu128)
                    by (nonlinear_arith)
                    requires
                        row <= 0xffff_ffff_ffff_ffffu128,
                        cw <= 0xffff_ffffu128,
                ;
                assert((2 * col + 1) * cw <= (2 * 0xffff_ffff_ffff_ffffu128 + 1) * 0xffff_ffffu128)
                    by (nonlinear_arith)
                    requires
                        col <= 0xffff_ffff_ffff_ffffu128,
                        cw <= 0xffff_ffffu128,
                ;
            }
            let c = Circle {
                r2: cw,
                cx2: (2 * col as u128 + 1) * cw,
                cy2: (2 * row as u128 + 1) * cw,
                fill: cells[col],
            };
            circles.push(c);
            proof {
                assert(row_circles(cells@, row as int, cell_width as int).take(col as int + 1)
                    =~= row_circles(cells@, row as int, cell_width as int).take(col as int).push(c));
            }
            col = col + 1;
        }
        proof {
            let m1 = matrix_view(matrix@.take(row as int + 1));
            assert(m1.drop_last() =~= matrix_view(matrix@.take(row as int)));
            assert(m1.last() == cells@);
            assert(row_circles(cells@, row as int, cell_width as int).take(col as int)
                =~= row_circles(cells@, row as int, cell_width as int));
        }
        row = row + 1;
    }
    proof {
        assert(matrix@.take(row as int) =~= matrix@);
    }
    VectorDocument { width, height, circles }
}

/// Appends the markup of one circle to `s`.
fn push_circle(s: &mut String, c: Circle)
    ensures
        final(s)@ == old(s)@ + circle_text(c),
{
    s.append("<circle r=\"");
    push_half(s, c.r2);
    s.append("\" cx=\"");
    push_half(s, c.cx2);
    s.append("\" cy=\"");
    push_half(s, c.cy2);
    s.append("\" fill=\"");
    let color = c.fill.to_str();
    s.append(color.as_str());
    s.append("\" />");
    proof {
        assert(s@ =~= old(s)@ + circle_text(c));
    }
}

impl VectorDocument {
    /// The document's markup: the canvas tag, one tag per circle in order,
    /// and the closing tag.
    pub fn to_svg(&self) -> (r: String)
        ensures
            r@ == svg_text(self.width as nat, self.height as nat, self.circles@),
    {
        let mut s = String::new();
        s.append("<svg height=\"");
        push_decimal(&mut s, self.height as u128);
        s.append("\" width=\"");
        push_decimal(&mut s, self.width as u128);
        s.append("\" xmlns=\"http://www.w3.org/2000/svg\">");
        proof {
            assert(s@ =~= svg_open_text(self.width as nat, self.height as nat));
        }
        let ghost head = s@;
        let mut i: usize = 0;
        while i < self.circles.len()
            invariant
                0 <= i <= self.circles@.len(),
                s@ == head + circles_text(self.circles@.take(i as int)),
            decreases self.circles@.len() - i,
        {
            let c = self.circles[i];
            push_circle(&mut s, c);
            proof {
                let t = self.circles@.take(i as int + 1);
                assert(t.drop_last() =~= self.circles@.take(i as int));
                assert(t.last() == c);
            }
            i = i + 1;
        }
        s.append("</svg>");
        proof {
            assert(self.circles@.take(i as int) =~= self.circles@);
            assert(s@ =~= svg_text(self.width as nat, self.height as nat, self.circles@));
        }
        s
    }
}

/// Turns an image into its vector document: one circle per grid cell,
/// colored by the cell's average.
pub fn rasterize(img: &ImagePlane, grid: GridSize) -> (r: String)
    requires
        img.wf(),
        grid.valid(),
    ensures
        r@ == rasterized_text(*img, grid),
{
    let m = color_matrix(img, grid);
    proof {
        assert(matrix_view(m@) =~= color_matrix_of(*img, grid));
    }
    let doc = build_document(&m, img.width, img.height, grid.width);
    doc.to_svg()
}

/// The markup depends on the image and the grid alone: two images with the
/// same dimensions and pixels render to the same text.
pub proof fn lemma_rasterize_deterministic(a: ImagePlane, b: ImagePlane, grid: GridSize)
    requires
        a.width == b.width,
        a.height == b.height,
        a.pixels@ == b.pixels@,
    ensures
        rasterized_text(a, grid) == rasterized_text(b, grid),
{
    assert forall|x0: int, x1: int, y0: int, y1: int|
        block(a, x0, x1, y0, y1) == block(b, x0, x1, y0, y1) by {
        crate::grid::lemma_block_same(a, b, x0, x1, y0, y1);
    }
    assert forall|row: int, col: int| #[trigger] crate::grid::cell_color(a, grid, row, col)
        == crate::grid::cell_color(b, grid, row, col) by {
        assert(cell_pixels(a, grid, row, col) == cell_pixels(b, grid, row, col));
    }
    assert forall|row: int| 0 <= row < color_matrix_of(a, grid).len() implies #[trigger] color_matrix_of(
        a,
        grid,
    )[row] =~= color_matrix_of(b, grid)[row] by {}
    assert(color_matrix_of(a, grid) =~= color_matrix_of(b, grid));
}

} // verus!
