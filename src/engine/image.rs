use vstd::prelude::*;

use crate::engine::game::{blend, DrawMode, GameObject, Point, Polygon};
use crate::linalg::{Matrix, MatrixError, wrap};

verus! {

/// `n / d` is `q` when `d * q <= n < d * (q + 1)`.
pub proof fn lemma_div_between(n: int, d: int, q: int)
    requires
        d > 0,
        d * q <= n < d * (q + 1),
    ensures
        n / d == q,
{
    vstd::arithmetic::div_mod::lemma_fundamental_div_mod(n, d);
    let k = n / d;
    let m = n % d;
    assert(0 <= m < d);
    if k < q {
        assert(d * k + m < d * q) by (nonlinear_arith)
            requires
                k < q,
                m < d,
                d > 0,
        ;
    } else if k > q {
        assert(d * k + m >= d * (q + 1)) by (nonlinear_arith)
            requires
                k > q,
                m >= 0,
                d > 0,
        ;
    }
}

/// `n / d` lies in `[lo, hi]` when `d * lo <= n < d * (hi + 1)`.
pub proof fn lemma_div_within(n: int, d: int, lo: int, hi: int)
    requires
        d > 0,
        d * lo <= n < d * (hi + 1),
    ensures
        lo <= n / d <= hi,
{
    vstd::arithmetic::div_mod::lemma_fundamental_div_mod(n, d);
    let k = n / d;
    let m = n % d;
    if k < lo {
        assert(d * k + m < d * lo) by (nonlinear_arith)
            requires
                k < lo,
                m < d,
                d > 0,
        ;
    } else if k > hi {
        assert(d * k + m >= d * (hi + 1)) by (nonlinear_arith)
            requires
                k > hi,
                m >= 0,
                d > 0,
        ;
    }
}

/// Minor-axis offset of a line after `i` unit steps along its major axis:
/// `i * minor / major` rounded half up (zero for a single point).
pub open spec fn step(i: int, minor: int, major: int) -> int {
    if major == 0 {
        0
    } else {
        (2 * i * minor + major) / (2 * major)
    }
}

/// Direction of travel from `from` to `to` along one axis.
pub open spec fn dir(from: int, to: int) -> int {
    if to < from {
        -1
    } else {
        1
    }
}

pub open spec fn abs(v: int) -> int {
    if v < 0 {
        -v
    } else {
        v
    }
}

/// Whether the walk that starts at major coordinate `sa`, minor coordinate `sb`, and advances
/// `da` steps along the major axis while drifting `db` along the minor axis in direction `inc`
/// visits (`a`, `b`).
pub open spec fn walk_hits(sa: int, sb: int, da: int, db: int, inc: int, a: int, b: int) -> bool {
    sa <= a <= sa + da && b == sb + inc * step(a - sa, db, da)
}

/// Whether pixel (`x`, `y`) lies on the line from (`x1`, `y1`) to (`x2`, `y2`). The axis with
/// the larger extent is walked one pixel at a time, always from the endpoint with the smaller
/// coordinate on it, so both endpoints are plotted and the set does not depend on their order.
pub open spec fn on_line(x1: int, y1: int, x2: int, y2: int, x: int, y: int) -> bool {
    if abs(x2 - x1) >= abs(y2 - y1) {
        if x1 <= x2 {
            walk_hits(x1, y1, x2 - x1, abs(y2 - y1), dir(y1, y2), x, y)
        } else {
            walk_hits(x2, y2, x1 - x2, abs(y2 - y1), dir(y2, y1), x, y)
        }
    } else {
        if y1 <= y2 {
            walk_hits(y1, x1, y2 - y1, abs(x2 - x1), dir(x1, x2), y, x)
        } else {
            walk_hits(y2, x2, y1 - y2, abs(x2 - x1), dir(x2, x1), y, x)
        }
    }
}

/// One step of the doubled error term: with `p = 2*minor*(i+1) - major*(2*k+1)` for the
/// current offset `k`, the next offset is `k` when `p < 0` and `k + 1` otherwise.
pub proof fn lemma_step_next(i: int, minor: int, major: int)
    requires
        major > 0,
        0 <= minor <= major,
        i >= 0,
    ensures
        ({
            let k = step(i, minor, major);
            let p = 2 * minor * (i + 1) - major * (2 * k + 1);
            &&& step(i + 1, minor, major) == if p < 0 {
                k
            } else {
                k + 1
            }
            &&& 2 * minor - 2 * major <= p < 2 * minor
        }),
{
    let d = 2 * major;
    let n = 2 * i * minor + major;
    let k = step(i, minor, major);
    vstd::arithmetic::div_mod::lemma_fundamental_div_mod(n, d);
    let m = n % d;
    assert(n == d * k + m);
    let p = 2 * minor * (i + 1) - major * (2 * k + 1);
    assert(2 * (i + 1) * minor + major == n + 2 * minor) by (nonlinear_arith)
        requires
            n == 2 * i * minor + major,
    ;
    assert(p == n + 2 * minor - d * (k + 1)) by (nonlinear_arith)
        requires
            d == 2 * major,
            n == 2 * i * minor + major,
            p == 2 * minor * (i + 1) - major * (2 * k + 1),
    ;
    assert(p == m + 2 * minor - d) by (nonlinear_arith)
        requires
            p == n + 2 * minor - d * (k + 1),
            n == d * k + m,
    ;
    if p < 0 {
        lemma_div_between(n + 2 * minor, d, k);
    } else {
        assert(d * (k + 1) <= n + 2 * minor < d * (k + 2)) by (nonlinear_arith)
            requires
                p >= 0,
                p == n + 2 * minor - d * (k + 1),
                n == d * k + m,
                m < d,
                2 * minor <= d,
        ;
        lemma_div_between(n + 2 * minor, d, k + 1);
    }
}

/// The offset stays between zero and the minor extent.
pub proof fn lemma_step_bounds(i: int, minor: int, major: int)
    requires
        0 <= i <= major,
        0 <= minor <= major,
    ensures
        0 <= step(i, minor, major) <= minor,
        step(0, minor, major) == 0,
{
    if major > 0 {
        let d = 2 * major;
        let n = 2 * i * minor + major;
        assert(0 <= n < d * (minor + 1)) by (nonlinear_arith)
            requires
                0 <= i <= major,
                0 <= minor,
                d == 2 * major,
                n == 2 * i * minor + major,
                major > 0,
        ;
        lemma_div_within(n, d, 0, minor);
        assert(2 * 0 * minor + major == major) by (nonlinear_arith);
        lemma_div_between(major, d, 0);
    }
}

/// A horizontal line covers exactly the pixels of its row between its endpoints.
pub proof fn lemma_horizontal_line(x1: int, x2: int, y: int, x: int, yy: int)
    ensures
        on_line(x1, y, x2, y, x, yy) <==> (yy == y && (if x1 <= x2 {
            x1 <= x <= x2
        } else {
            x2 <= x <= x1
        })),
{
    let dx = abs(x2 - x1);
    if dx > 0 {
        lemma_div_between(dx, 2 * dx, 0);
        assert forall|i: int| #[trigger] step(i, 0, dx) == 0 by {
            assert(2 * i * 0 + dx == dx);
        }
    }
}

/// The pixel set of a line does not depend on which endpoint comes first.
pub proof fn lemma_line_symmetric(x1: int, y1: int, x2: int, y2: int, x: int, y: int)
    ensures
        on_line(x1, y1, x2, y2, x, y) == on_line(x2, y2, x1, y1, x, y),
{
}

/// Whether `x` lies between `xa` and `xb`, both included.
pub open spec fn span_hit(xa: int, xb: int, x: int) -> bool {
    if xa <= xb {
        xa <= x <= xb
    } else {
        xb <= x <= xa
    }
}

/// Column of the edge from `a` to `b` (with `a` not below `b`) on row `y`: the exact
/// interpolation rounded down; a horizontal edge gives `a`'s column.
pub open spec fn edge_x(a: Point, b: Point, y: int) -> int {
    let (ax, ay, bx, by) = (a.coord.0 as int, a.coord.1 as int, b.coord.0 as int, b.coord.1 as int);
    if by == ay {
        ax
    } else {
        ax + ((y - ay) * (bx - ax)) / (by - ay)
    }
}

/// Whether pixel (`x`, `y`) is filled when rows `y0..=y1` are filled between the edges
/// `a1 -> b1` and `a2 -> b2`.
pub open spec fn in_band(a1: Point, b1: Point, a2: Point, b2: Point, y0: int, y1: int, x: int, y: int) -> bool {
    y0 <= y <= y1 && span_hit(edge_x(a1, b1, y), edge_x(a2, b2, y), x)
}

/// The three points stably sorted by ascending y.
pub open spec fn sorted3(a: Point, b: Point, c: Point) -> (Point, Point, Point) {
    if a.coord.1 <= b.coord.1 {
        if b.coord.1 <= c.coord.1 {
            (a, b, c)
        } else if a.coord.1 <= c.coord.1 {
            (a, c, b)
        } else {
            (c, a, b)
        }
    } else {
        if a.coord.1 <= c.coord.1 {
            (b, a, c)
        } else if b.coord.1 <= c.coord.1 {
            (b, c, a)
        } else {
            (c, b, a)
        }
    }
}

/// A point at (`x`, `y`, 0) at rest.
pub open spec fn point_at(x: int, y: int) -> Point {
    Point { coord: (x as i32, y as i32, 0i32), velocity: (0i64, 0i64, 0i64), acceleration: (0i64, 0i64, 0i64) }
}

/// Where the horizontal line through `p2` meets the edge `p1 -> p3` (`p1.y < p2.y < p3.y`),
/// its column truncated toward `p1`'s.
pub open spec fn split_point(p1: Point, p2: Point, p3: Point) -> Point {
    let (x1, y1, x3, y3) = (p1.coord.0 as int, p1.coord.1 as int, p3.coord.0 as int, p3.coord.1 as int);
    point_at(
        x1 + crate::engine::game::trunc_div((p2.coord.1 - y1) * (x3 - x1), y3 - y1),
        p2.coord.1 as int,
    )
}

/// Whether pixel (`x`, `y`) is filled by the triangle `p1`, `p2`, `p3` (sorted by y): a
/// flat-bottomed or flat-topped triangle is filled directly; any other is split at the row
/// of `p2` into one of each.
pub open spec fn in_triangle(p1: Point, p2: Point, p3: Point, x: int, y: int) -> bool {
    if p2.coord.1 == p3.coord.1 {
        in_band(p1, p2, p1, p3, p1.coord.1 as int, p2.coord.1 as int, x, y)
    } else if p1.coord.1 == p2.coord.1 {
        in_band(p1, p3, p2, p3, p1.coord.1 as int, p3.coord.1 as int, x, y)
    } else {
        let p4 = split_point(p1, p2, p3);
        in_band(p1, p2, p1, p4, p1.coord.1 as int, p2.coord.1 as int, x, y) || in_band(
            p2,
            p3,
            p4,
            p3,
            p2.coord.1 as int,
            p3.coord.1 as int,
            x,
            y,
        )
    }
}

/// Whether pixel (`x`, `y`) is filled by the fan `(0, i, i + 1)` for `i` in `1..=m`.
pub open spec fn in_fan(pts: Seq<Point>, m: int, x: int, y: int) -> bool
    decreases m,
{
    if m < 1 {
        false
    } else {
        in_fan(pts, m - 1, x, y) || {
            let (p1, p2, p3) = sorted3(pts[0], pts[m], pts[m + 1]);
            in_triangle(p1, p2, p3, x, y)
        }
    }
}

/// Whether pixel (`x`, `y`) lies on one of the first `m` sides of the closed outline through
/// `pts`, side `i` joining `pts[i]` to `pts[(i + 1) % len]`.
pub open spec fn on_outline(pts: Seq<Point>, m: int, x: int, y: int) -> bool
    decreases m,
{
    if m < 1 {
        false
    } else {
        on_outline(pts, m - 1, x, y) || {
            let a = pts[m - 1];
            let b = pts[m % pts.len() as int];
            on_line(a.coord.0 as int, a.coord.1 as int, b.coord.0 as int, b.coord.1 as int, x, y)
        }
    }
}

/// Fan-filling an axis-aligned rectangle given by its corners in order (top-left, top-right,
/// bottom-right, bottom-left) covers exactly the rectangle, edges included, with no gaps. A
/// rectangle of zero height is left out: its degenerate triangles cover only the first corner.
pub proof fn lemma_rectangle_fill(x0: i32, y0: i32, x1: i32, y1: i32, x: int, y: int)
    requires
        x0 <= x1,
        y0 < y1,
    ensures
        in_fan(
            seq![point_at(x0 as int, y0 as int), point_at(x1 as int, y0 as int), point_at(x1 as int, y1 as int), point_at(x0 as int, y1 as int)],
            2,
            x,
            y,
        ) <==> (x0 <= x <= x1 && y0 <= y <= y1),
{
    let pts = seq![
        point_at(x0 as int, y0 as int),
        point_at(x1 as int, y0 as int),
        point_at(x1 as int, y1 as int),
        point_at(x0 as int, y1 as int),
    ];
    let (a, b, c, d) = (pts[0], pts[1], pts[2], pts[3]);
    reveal_with_fuel(in_fan, 3);
    assert(sorted3(a, b, c) == (a, b, c));
    assert(sorted3(a, c, d) == (a, c, d));
    if y0 <= y <= y1 {
        lemma_edge_between(a, c, y);
        let t = y - y0;
        assert(t * 0 == 0) by (nonlinear_arith);
        assert(edge_x(b, c, y) == x1 as int);
        assert(edge_x(a, d, y) == x0 as int);
    }
}

/// Rounding down a negative quotient through a non-negative one.
pub proof fn lemma_floor_negative(m: int, d: int)
    requires
        m > 0,
        d > 0,
    ensures
        (-m) / d == -((m + d - 1) / d),
{
    vstd::arithmetic::div_mod::lemma_fundamental_div_mod(m + d - 1, d);
    let q = (m + d - 1) / d;
    let rem = (m + d - 1) % d;
    assert(d * (-q) <= -m < d * (-q + 1)) by (nonlinear_arith)
        requires
            m + d - 1 == d * q + rem,
            0 <= rem < d,
    ;
    lemma_div_between(-m, d, -q);
}

/// An edge's column on a row between its ends lies between the columns of its ends.
pub proof fn lemma_edge_between(a: Point, b: Point, y: int)
    requires
        a.coord.1 <= y <= b.coord.1,
    ensures
        span_hit(a.coord.0 as int, b.coord.0 as int, edge_x(a, b, y)),
{
    let (ax, ay, bx, by) = (a.coord.0 as int, a.coord.1 as int, b.coord.0 as int, b.coord.1 as int);
    if by != ay {
        let t = y - ay;
        let d = by - ay;
        let w = bx - ax;
        if w >= 0 {
            assert(d * 0 <= t * w < d * (w + 1)) by (nonlinear_arith)
                requires
                    0 <= t <= d,
                    d > 0,
                    w >= 0,
            ;
            lemma_div_within(t * w, d, 0, w);
        } else {
            assert(d * w <= t * w < d * (0 + 1)) by (nonlinear_arith)
                requires
                    0 <= t <= d,
                    d > 0,
                    w < 0,
            ;
            lemma_div_within(t * w, d, w, 0);
        }
    }
}

/// The split point lies on the row of `p2`, between the columns of `p1` and `p3`.
pub proof fn lemma_split_between(p1: Point, p2: Point, p3: Point)
    requires
        p1.coord.1 < p2.coord.1 < p3.coord.1,
    ensures
        span_hit(p1.coord.0 as int, p3.coord.0 as int, p1.coord.0 + crate::engine::game::trunc_div(
            (p2.coord.1 - p1.coord.1) * (p3.coord.0 - p1.coord.0),
            p3.coord.1 - p1.coord.1,
        )),
{
    let t = p2.coord.1 - p1.coord.1;
    let d = p3.coord.1 - p1.coord.1;
    let w = p3.coord.0 - p1.coord.0;
    if w >= 0 {
        assert(d * 0 <= t * w < d * (w + 1)) by (nonlinear_arith)
            requires
                0 < t < d,
                w >= 0,
        ;
        lemma_div_within(t * w, d, 0, w);
    } else {
        assert(d * 0 <= -(t * w) < d * (-w + 1)) by (nonlinear_arith)
            requires
                0 < t < d,
                w < 0,
        ;
        lemma_div_within(-(t * w), d, 0, -w);
    }
}

/// A packed-RGB raster: `pixels` holds `height` rows of `width` cells.
pub struct Image {
    pub width: usize,
    pub height: usize,
    pub pixels: Matrix,
}

impl Image {
    pub open spec fn wf(&self) -> bool {
        &&& self.pixels.wf()
        &&& self.pixels.rows == self.height
        &&& self.pixels.cols == self.width
    }

    pub open spec fn in_bounds(&self, row: int, col: int) -> bool {
        0 <= row < self.height && 0 <= col < self.width
    }

    /// The pixel at row `row`, column `col`.
    pub open spec fn px(&self, row: int, col: int) -> u32 {
        self.pixels@.at(row, col)
    }

    /// Whether the pixel buffer has the image's shape.
    pub fn well_formed(&self) -> (r: bool)
        ensures
            r == self.wf(),
    {
        let rows = self.pixels.rows as u128;
        let cols = self.pixels.cols as u128;
        assert(rows * cols <= 0xffff_ffff * 0xffff_ffff) by (nonlinear_arith)
            requires
                rows <= 0xffff_ffff,
                cols <= 0xffff_ffff,
        ;
        self.pixels.data.len() as u128 == rows * cols && self.pixels.rows as usize == self.height
            && self.pixels.cols as usize == self.width
    }

    /// Black image.
    pub fn new(width: usize, height: usize) -> (r: Image)
        requires
            width <= u32::MAX,
            height <= u32::MAX,
            width * height <= usize::MAX,
        ensures
            r.wf(),
            r.width == width,
            r.height == height,
            forall|i: int, j: int| r.in_bounds(i, j) ==> #[trigger] r.px(i, j) == 0,
    {
        proof {
            assert(height * width == width * height) by (nonlinear_arith);
        }
        Image { width, height, pixels: Matrix::zeros(height as u32, width as u32) }
    }

    /// Image with every pixel equal to `rgb`.
    pub fn new_filled(rgb: u32, width: usize, height: usize) -> (r: Image)
        requires
            width <= u32::MAX,
            height <= u32::MAX,
            width * height <= usize::MAX,
        ensures
            r.wf(),
            r.width == width,
            r.height == height,
            forall|i: int, j: int| r.in_bounds(i, j) ==> #[trigger] r.px(i, j) == rgb,
    {
        let data = vec![rgb; width * height];
        proof {
            assert(height * width == width * height) by (nonlinear_arith);
        }
        let r = Image { width, height, pixels: Matrix::from_data(height as u32, width as u32, data) };
        assert forall|i: int, j: int| r.in_bounds(i, j) implies #[trigger] r.px(i, j) == rgb by {
            crate::linalg::lemma_index_in_range(height as int, width as int, i, j);
        }
        r
    }

    /// Image over an existing row-major buffer of `width * height` pixels.
    pub fn from_data(width: usize, height: usize, data: Vec<u32>) -> (r: Image)
        requires
            width <= u32::MAX,
            height <= u32::MAX,
            data@.len() == width * height,
        ensures
            r.wf(),
            r.width == width,
            r.height == height,
            r.pixels.data@ == data@,
    {
        proof {
            assert(height * width == width * height) by (nonlinear_arith);
        }
        Image { width, height, pixels: Matrix::from_data(height as u32, width as u32, data) }
    }

    /// The pixels in row-major order.
    pub fn flatten(&self) -> (r: Vec<u32>)
        ensures
            r@ == self.pixels.data@,
    {
        self.pixels.flatten()
    }

    /// The pixel at `row`, `col`, or `IndexOutOfRange` outside the image.
    pub fn get(&self, row: usize, col: usize) -> (r: Result<u32, MatrixError>)
        requires
            self.wf(),
        ensures
            r == self.pixels@.get(row as int, col as int),
    {
        if row < self.height && col < self.width {
            self.pixels.get(row as u32, col as u32)
        } else {
            Err(MatrixError::IndexOutOfRange)
        }
    }

    /// Stores `value` at `row`, `col`; outside the image nothing is stored and
    /// `IndexOutOfRange` is returned.
    pub fn set(&mut self, row: usize, col: usize, value: u32) -> (r: Result<(), MatrixError>)
        requires
            old(self).wf(),
        ensures
            final(self).wf(),
            final(self).width == old(self).width,
            final(self).height == old(self).height,
            final(self).pixels@ == old(self).pixels@.set(row as int, col as int, value),
            r is Ok <==> old(self).in_bounds(row as int, col as int),
            r is Err ==> r == Err::<(), MatrixError>(MatrixError::IndexOutOfRange),
    {
        if row < self.height && col < self.width {
            self.pixels.set(row as u32, col as u32, value)
        } else {
            Err(MatrixError::IndexOutOfRange)
        }
    }

    /// Copy of rows `start_row..end_row` and columns `start_col..end_col`; a region that is
    /// reversed or reaches past the image gives `IndexOutOfRange`.
    pub fn get_block(&self, start_row: usize, start_col: usize, end_row: usize, end_col: usize) -> (r:
        Result<Image, MatrixError>)
        requires
            self.wf(),
        ensures
            r is Ok <==> (start_row <= end_row <= self.height && start_col <= end_col <= self.width),
            r is Err ==> r == Err::<Image, MatrixError>(MatrixError::IndexOutOfRange),
            r matches Ok(b) ==> {
                &&& b.wf()
                &&& b.height == end_row - start_row
                &&& b.width == end_col - start_col
                &&& forall|i: int, j: int|
                    b.in_bounds(i, j) ==> #[trigger] b.px(i, j) == self.px(start_row + i, start_col + j)
            },
    {
        if !(start_row <= end_row && end_row <= self.height && start_col <= end_col && end_col
            <= self.width) {
            return Err(MatrixError::IndexOutOfRange);
        }
        match self.pixels.get_block(start_row as u32, start_col as u32, end_row as u32, end_col as u32) {
            Ok(block) => Ok(Image { width: end_col - start_col, height: end_row - start_row, pixels: block }),
            Err(e) => Err(e),
        }
    }

    /// Overwrites the region at (`start_row`, `start_col`) with `block`.
    pub fn set_block(&mut self, start_row: usize, start_col: usize, block: &Image)
        requires
            old(self).wf(),
            block.wf(),
            start_row + block.height <= old(self).height,
            start_col + block.width <= old(self).width,
        ensures
            final(self).wf(),
            final(self).width == old(self).width,
            final(self).height == old(self).height,
            forall|r: int, c: int|
                old(self).in_bounds(r, c) ==> #[trigger] final(self).px(r, c) == if start_row <= r
                    < start_row + block.height && start_col <= c < start_col + block.width {
                    block.px(r - start_row, c - start_col)
                } else {
                    old(self).px(r, c)
                },
    {
        self.pixels.set_block(start_row as u32, start_col as u32, &block.pixels);
    }

    /// Adds `block` pixel by pixel into the region at (`start_row`, `start_col`), wrapping on
    /// overflow.
    pub fn add_block(&mut self, start_row: usize, start_col: usize, block: &Image)
        requires
            old(self).wf(),
            block.wf(),
            start_row + block.height <= old(self).height,
            start_col + block.width <= old(self).width,
        ensures
            final(self).wf(),
            final(self).width == old(self).width,
            final(self).height == old(self).height,
            forall|r: int, c: int|
                old(self).in_bounds(r, c) ==> #[trigger] final(self).px(r, c) == if start_row <= r
                    < start_row + block.height && start_col <= c < start_col + block.width {
                    wrap(old(self).px(r, c) + block.px(r - start_row, c - start_col))
                } else {
                    old(self).px(r, c)
                },
    {
        self.pixels.add_block(start_row as u32, start_col as u32, &block.pixels);
    }

    /// Copies the non-zero pixels of `block` into the region at (`start_row`, `start_col`);
    /// black pixels are transparent.
    pub fn overlay_block(&mut self, start_row: usize, start_col: usize, block: &Image)
        requires
            old(self).wf(),
            block.wf(),
            start_row + block.height <= old(self).height,
            start_col + block.width <= old(self).width,
        ensures
            final(self).wf(),
            final(self).width == old(self).width,
            final(self).height == old(self).height,
            forall|r: int, c: int|
                old(self).in_bounds(r, c) ==> #[trigger] final(self).px(r, c) == if start_row <= r
                    < start_row + block.height && start_col <= c < start_col + block.width
                    && block.px(r - start_row, c - start_col) != 0 {
                    block.px(r - start_row, c - start_col)
                } else {
                    old(self).px(r, c)
                },
    {
        self.pixels.overlay_block(start_row as u32, start_col as u32, &block.pixels);
    }

    /// Packs three colour channels as `0xRRGGBB`.
    pub fn rgb(r: u8, g: u8, b: u8) -> (res: u32)
        ensures
            res == r as int * 0x10000 + g as int * 0x100 + b as int,
    {
        let (r, g, b) = (r as u32, g as u32, b as u32);
        assert((r << 16u32) | (g << 8u32) | b == r * 0x10000 + g * 0x100 + b) by (bit_vector)
            requires
                r < 256,
                g < 256,
                b < 256,
        ;
        (r << 16u32) | (g << 8u32) | b
    }

    /// Plots the walk of `walk_hits(sa, sb, da, db, inc, ..)`; with `steep` the major axis is
    /// the row, otherwise the column.
    fn plot_walk(&mut self, sa: i64, sb: i64, da: i64, db: i64, inc: i64, steep: bool, color: u32)
        requires
            old(self).wf(),
            0 <= db <= da,
            inc == 1 || inc == -1,
            0 <= sa,
            0 <= sb,
            0 <= sb + inc * db,
            steep ==> sa + da < old(self).height && sb < old(self).width && sb + inc * db
                < old(self).width,
            !steep ==> sa + da < old(self).width && sb < old(self).height && sb + inc * db
                < old(self).height,
        ensures
            final(self).wf(),
            final(self).width == old(self).width,
            final(self).height == old(self).height,
            forall|r: int, c: int|
                old(self).in_bounds(r, c) ==> #[trigger] final(self).px(r, c) == if (steep
                    && walk_hits(sa as int, sb as int, da as int, db as int, inc as int, r, c)) || (
                !steep && walk_hits(sa as int, sb as int, da as int, db as int, inc as int, c, r)) {
                    color
                } else {
                    old(self).px(r, c)
                },
    {
        let mut a: i64 = sa;
        let mut b: i64 = sb;
        let mut p: i64 = 2 * db - da;
        let mut i: i64 = 0;
        proof {
            lemma_step_bounds(0, db as int, da as int);
        }
        while i <= da
            invariant
                self.wf(),
                self.width == old(self).width,
                self.height == old(self).height,
                0 <= db <= da,
                inc == 1 || inc == -1,
                0 <= sa,
                0 <= sb,
                0 <= sb + inc * db,
                steep ==> sa + da < self.height && sb < self.width && sb + inc * db < self.width,
                !steep ==> sa + da < self.width && sb < self.height && sb + inc * db < self.height,
                0 <= i <= da + 1,
                i <= da ==> a == sa + i,
                i <= da ==> b == sb + inc * step(i as int, db as int, da as int),
                i <= da && da > 0 ==> p == 2 * db * (i + 1) - da * (2 * step(
                    i as int,
                    db as int,
                    da as int,
                ) + 1),
                i <= da && da > 0 ==> 2 * db - 2 * da <= p < 2 * db,
                forall|r: int, c: int|
                    old(self).in_bounds(r, c) ==> #[trigger] self.px(r, c) == if (steep && r < sa + i
                        && walk_hits(sa as int, sb as int, da as int, db as int, inc as int, r, c)) || (
                    !steep && c < sa + i && walk_hits(
                        sa as int,
                        sb as int,
                        da as int,
                        db as int,
                        inc as int,
                        c,
                        r,
                    )) {
                        color
                    } else {
                        old(self).px(r, c)
                    },
            decreases da + 1 - i,
        {
            let ghost k = step(i as int, db as int, da as int);
            let ghost p_old = p;
            let ghost prev = *self;
            proof {
                lemma_step_bounds(i as int, db as int, da as int);
                if inc == 1 {
                    assert(b == sb + k) by (nonlinear_arith)
                        requires
                            b == sb + inc * k,
                            inc == 1,
                    ;
                    assert(sb + inc * db == sb + db) by (nonlinear_arith)
                        requires
                            inc == 1,
                    ;
                } else {
                    assert(b == sb - k) by (nonlinear_arith)
                        requires
                            b == sb + inc * k,
                            inc == -1,
                    ;
                    assert(sb + inc * db == sb - db) by (nonlinear_arith)
                        requires
                            inc == -1,
                    ;
                }
            }
            if steep {
                self.pixels.write(a as u32, b as u32, color);
            } else {
                self.pixels.write(b as u32, a as u32, color);
            }
            proof {
                assert forall|r: int, c: int| old(self).in_bounds(r, c) implies #[trigger] self.px(r, c)
                    == if (steep && r < sa + i + 1 && walk_hits(
                    sa as int,
                    sb as int,
                    da as int,
                    db as int,
                    inc as int,
                    r,
                    c,
                )) || (!steep && c < sa + i + 1 && walk_hits(
                    sa as int,
                    sb as int,
                    da as int,
                    db as int,
                    inc as int,
                    c,
                    r,
                )) {
                    color
                } else {
                    old(self).px(r, c)
                } by {
                    assert(prev.in_bounds(r, c));
                    assert(prev.px(r, c) == if (steep && r < sa + i && walk_hits(
                        sa as int,
                        sb as int,
                        da as int,
                        db as int,
                        inc as int,
                        r,
                        c,
                    )) || (!steep && c < sa + i && walk_hits(
                        sa as int,
                        sb as int,
                        da as int,
                        db as int,
                        inc as int,
                        c,
                        r,
                    )) {
                        color
                    } else {
                        old(self).px(r, c)
                    });
                    if steep && r == sa + i {
                        assert(r - sa == i);
                    }
                    if !steep && c == sa + i {
                        assert(c - sa == i);
                    }
                }
            }
            a = a + 1;
            if p < 0 {
                p = p + 2 * db;
            } else {
                b = b + inc;
                p = p + 2 * (db - da);
            }
            i = i + 1;
            proof {
                if i <= da {
                    lemma_step_next((i - 1) as int, db as int, da as int);
                    let k1 = step(i as int, db as int, da as int);
                    assert(p == 2 * db * (i + 1) - da * (2 * k1 + 1)) by (nonlinear_arith)
                        requires
                            p_old == 2 * db * i - da * (2 * k + 1),
                            p_old < 0 ==> p == p_old + 2 * db && k1 == k,
                            p_old >= 0 ==> p == p_old + 2 * (db - da) && k1 == k + 1,
                    ;
                    assert(b == sb + inc * k1) by (nonlinear_arith)
                        requires
                            p_old < 0 ==> b == sb + inc * k && k1 == k,
                            p_old >= 0 ==> b == sb + inc * k + inc && k1 == k + 1,
                    ;
                    lemma_step_next(i as int, db as int, da as int);
                }
            }
        }
    }

    /// Plots the line from `point1` to `point2` (x is the column, y the row), both endpoints
    /// included.
    pub fn draw_line(&mut self, point1: &Point, point2: &Point, color: u32)
        requires
            old(self).wf(),
            old(self).in_bounds(point1.coord.1 as int, point1.coord.0 as int),
            old(self).in_bounds(point2.coord.1 as int, point2.coord.0 as int),
        ensures
            final(self).wf(),
            final(self).width == old(self).width,
            final(self).height == old(self).height,
            forall|r: int, c: int|
                old(self).in_bounds(r, c) ==> #[trigger] final(self).px(r, c) == if on_line(
                    point1.coord.0 as int,
                    point1.coord.1 as int,
                    point2.coord.0 as int,
                    point2.coord.1 as int,
                    c,
                    r,
                ) {
                    color
                } else {
                    old(self).px(r, c)
                },
    {
        let x1 = point1.coord.0 as i64;
        let y1 = point1.coord.1 as i64;
        let x2 = point2.coord.0 as i64;
        let y2 = point2.coord.1 as i64;
        let dx: i64 = if x2 >= x1 { x2 - x1 } else { x1 - x2 };
        let dy: i64 = if y2 >= y1 { y2 - y1 } else { y1 - y2 };
        if dx >= dy {
            if x1 <= x2 {
                let inc: i64 = if y2 < y1 { -1 } else { 1 };
                self.plot_walk(x1, y1, dx, dy, inc, false, color);
            } else {
                let inc: i64 = if y1 < y2 { -1 } else { 1 };
                self.plot_walk(x2, y2, dx, dy, inc, false, color);
            }
        } else {
            if y1 <= y2 {
                let inc: i64 = if x2 < x1 { -1 } else { 1 };
                self.plot_walk(y1, x1, dy, dx, inc, true, color);
            } else {
                let inc: i64 = if x1 < x2 { -1 } else { 1 };
                self.plot_walk(y2, x2, dy, dx, inc, true, color);
            }
        }
    }
    /// Column of the edge `a -> b` on row `y`.
    fn edge_at(a: &Point, b: &Point, y: i64) -> (r: i64)
        requires
            0 <= a.coord.0,
            0 <= b.coord.0,
            a.coord.1 <= y <= b.coord.1,
        ensures
            r == edge_x(*a, *b, y as int),
            span_hit(a.coord.0 as int, b.coord.0 as int, r as int),
    {
        proof {
            lemma_edge_between(*a, *b, y as int);
        }
        let ax = a.coord.0 as i64;
        let ay = a.coord.1 as i64;
        let bx = b.coord.0 as i64;
        let by = b.coord.1 as i64;
        if by == ay {
            ax
        } else {
            let t: i128 = (y - ay) as i128;
            let w: i128 = (bx - ax) as i128;
            let d: i128 = (by - ay) as i128;
            assert(-0x8000_0000_0000_0000 < t * w < 0x8000_0000_0000_0000) by (nonlinear_arith)
                requires
                    0 <= t < 0x1_0000_0000,
                    -0x8000_0000 < w < 0x8000_0000,
            ;
            let num: i128 = t * w;
            let q: i128 = if num >= 0 {
                num / d
            } else {
                proof {
                    lemma_floor_negative(-num as int, d as int);
                }
                -((-num + d - 1) / d)
            };
            ax + q as i64
        }
    }

    /// Fills rows `y0..=y1` between the edges `a1 -> b1` and `a2 -> b2`.
    fn fill_band(
        &mut self,
        a1: &Point,
        b1: &Point,
        a2: &Point,
        b2: &Point,
        y0: i32,
        y1: i32,
        color: u32,
    )
        requires
            old(self).wf(),
            y0 <= y1,
            a1.coord.1 <= y0,
            y1 <= b1.coord.1,
            a2.coord.1 <= y0,
            y1 <= b2.coord.1,
            0 <= y0,
            y1 < old(self).height,
            0 <= a1.coord.0 < old(self).width,
            0 <= b1.coord.0 < old(self).width,
            0 <= a2.coord.0 < old(self).width,
            0 <= b2.coord.0 < old(self).width,
        ensures
            final(self).wf(),
            final(self).width == old(self).width,
            final(self).height == old(self).height,
            forall|r: int, c: int|
                old(self).in_bounds(r, c) ==> #[trigger] final(self).px(r, c) == if in_band(
                    *a1,
                    *b1,
                    *a2,
                    *b2,
                    y0 as int,
                    y1 as int,
                    c,
                    r,
                ) {
                    color
                } else {
                    old(self).px(r, c)
                },
    {
        let mut y: i64 = y0 as i64;
        while y <= y1 as i64
            invariant
                self.wf(),
                self.width == old(self).width,
                self.height == old(self).height,
                y0 <= y <= y1 + 1,
                a1.coord.1 <= y0,
                y1 <= b1.coord.1,
                a2.coord.1 <= y0,
                y1 <= b2.coord.1,
                0 <= y0,
                y1 < self.height,
                0 <= a1.coord.0 < self.width,
                0 <= b1.coord.0 < self.width,
                0 <= a2.coord.0 < self.width,
                0 <= b2.coord.0 < self.width,
                forall|r: int, c: int|
                    old(self).in_bounds(r, c) ==> #[trigger] self.px(r, c) == if r < y && in_band(
                        *a1,
                        *b1,
                        *a2,
                        *b2,
                        y0 as int,
                        y1 as int,
                        c,
                        r,
                    ) {
                        color
                    } else {
                        old(self).px(r, c)
                    },
            decreases y1 + 1 - y,
        {
            let xa = Image::edge_at(a1, b1, y);
            let xb = Image::edge_at(a2, b2, y);
            let ghost prev = *self;
            let from = Point::new(xa as i32, y as i32, 0);
            let to = Point::new(xb as i32, y as i32, 0);
            self.draw_line(&from, &to, color);
            proof {
                assert forall|r: int, c: int| old(self).in_bounds(r, c) implies #[trigger] self.px(r, c)
                    == if r < y + 1 && in_band(*a1, *b1, *a2, *b2, y0 as int, y1 as int, c, r) {
                    color
                } else {
                    old(self).px(r, c)
                } by {
                    assert(prev.in_bounds(r, c));
                    lemma_horizontal_line(xa as int, xb as int, y as int, c, r);
                }
            }
            y = y + 1;
        }
    }

    /// Fills the triangle given by exactly three points; any other number of points leaves the
    /// image unchanged.
    pub fn fill_triangle(&mut self, points: Vec<&Point>, color: u32)
        requires
            old(self).wf(),
            points@.len() == 3 ==> forall|i: int|
                0 <= i < 3 ==> old(self).in_bounds(
                    (#[trigger] points@[i]).coord.1 as int,
                    points@[i].coord.0 as int,
                ),
        ensures
            final(self).wf(),
            final(self).width == old(self).width,
            final(self).height == old(self).height,
            points@.len() != 3 ==> *final(self) == *old(self),
            points@.len() == 3 ==> forall|r: int, c: int|
                old(self).in_bounds(r, c) ==> #[trigger] final(self).px(r, c) == if ({
                    let (p1, p2, p3) = sorted3(*points@[0], *points@[1], *points@[2]);
                    in_triangle(p1, p2, p3, c, r)
                }) {
                    color
                } else {
                    old(self).px(r, c)
                },
    {
        if points.len() != 3 {
            return;
        }
        let a = *points[0];
        let b = *points[1];
        let c = *points[2];
        proof {
            assert(old(self).in_bounds(points@[0].coord.1 as int, points@[0].coord.0 as int));
            assert(old(self).in_bounds(points@[1].coord.1 as int, points@[1].coord.0 as int));
            assert(old(self).in_bounds(points@[2].coord.1 as int, points@[2].coord.0 as int));
        }
        let (p1, p2, p3) = sort_by_y(a, b, c);
        if p2.coord.1 == p3.coord.1 {
            self.fill_band(&p1, &p2, &p1, &p3, p1.coord.1, p2.coord.1, color);
        } else if p1.coord.1 == p2.coord.1 {
            self.fill_band(&p1, &p3, &p2, &p3, p1.coord.1, p3.coord.1, color);
        } else {
            let t: i128 = (p2.coord.1 as i128 - p1.coord.1 as i128);
            let w: i128 = p3.coord.0 as i128 - p1.coord.0 as i128;
            let d: i128 = (p3.coord.1 as i128 - p1.coord.1 as i128);
            assert(-0x8000_0000_0000_0000 < t * w < 0x8000_0000_0000_0000) by (nonlinear_arith)
                requires
                    0 <= t < 0x1_0000_0000,
                    -0x8000_0000 < w < 0x8000_0000,
            ;
            let num: i128 = t * w;
            let q: i128 = if num >= 0 {
                num / d
            } else {
                -((-num) / d)
            };
            proof {
                lemma_split_between(p1, p2, p3);
            }
            let p4 = Point::new((p1.coord.0 as i128 + q) as i32, p2.coord.1, 0);
            assert(p4 == split_point(p1, p2, p3));
            let ghost mid = *self;
            self.fill_band(&p1, &p2, &p1, &p4, p1.coord.1, p2.coord.1, color);
            self.fill_band(&p2, &p3, &p4, &p3, p2.coord.1, p3.coord.1, color);
            proof {
                assert forall|r: int, c: int| old(self).in_bounds(r, c) implies #[trigger] self.px(r, c)
                    == if in_triangle(p1, p2, p3, c, r) {
                    color
                } else {
                    old(self).px(r, c)
                } by {
                    assert(mid.in_bounds(r, c));
                }
            }
        }
    }
    /// Fills the fan triangles `(0, i, i + 1)` of `pts`.
    pub(crate) fn fill_fan(&mut self, pts: &Vec<Point>, color: u32)
        requires
            old(self).wf(),
            forall|i: int|
                0 <= i < pts@.len() ==> old(self).in_bounds(
                    (#[trigger] pts@[i]).coord.1 as int,
                    pts@[i].coord.0 as int,
                ),
        ensures
            final(self).wf(),
            final(self).width == old(self).width,
            final(self).height == old(self).height,
            forall|r: int, c: int|
                old(self).in_bounds(r, c) ==> #[trigger] final(self).px(r, c) == if in_fan(
                    pts@,
                    pts@.len() - 2,
                    c,
                    r,
                ) {
                    color
                } else {
                    old(self).px(r, c)
                },
    {
        let n = pts.len();
        if n < 3 {
            proof {
                assert forall|r: int, c: int| old(self).in_bounds(r, c) implies !in_fan(
                    pts@,
                    pts@.len() - 2,
                    c,
                    r,
                ) by {
                    reveal_with_fuel(in_fan, 2);
                }
            }
            return;
        }
        let mut i: usize = 1;
        while i + 1 < n
            invariant
                n == pts@.len(),
                n >= 3,
                1 <= i <= n - 1,
                self.wf(),
                self.width == old(self).width,
                self.height == old(self).height,
                forall|k: int|
                    0 <= k < pts@.len() ==> self.in_bounds(
                        (#[trigger] pts@[k]).coord.1 as int,
                        pts@[k].coord.0 as int,
                    ),
                forall|r: int, c: int|
                    old(self).in_bounds(r, c) ==> #[trigger] self.px(r, c) == if in_fan(
                        pts@,
                        i - 1,
                        c,
                        r,
                    ) {
                        color
                    } else {
                        old(self).px(r, c)
                    },
            decreases n - i,
        {
            let ghost prev = *self;
            let tri = vec![&pts[0], &pts[i], &pts[i + 1]];
            proof {
                assert(self.in_bounds(pts@[0].coord.1 as int, pts@[0].coord.0 as int));
                assert(self.in_bounds(pts@[i as int].coord.1 as int, pts@[i as int].coord.0 as int));
                assert(self.in_bounds(
                    pts@[i + 1].coord.1 as int,
                    pts@[i + 1].coord.0 as int,
                ));
            }
            self.fill_triangle(tri, color);
            proof {
                assert forall|r: int, c: int| old(self).in_bounds(r, c) implies #[trigger] self.px(r, c)
                    == if in_fan(pts@, i as int, c, r) {
                    color
                } else {
                    old(self).px(r, c)
                } by {
                    assert(prev.in_bounds(r, c));
                    assert(prev.px(r, c) == if in_fan(pts@, i - 1, c, r) {
                        color
                    } else {
                        old(self).px(r, c)
                    });
                }
            }
            i = i + 1;
        }
    }

    /// Fills a convex polygon by fan triangulation from its first vertex. Concave polygons are
    /// not filled correctly near their reflex vertices; fewer than three points fill nothing.
    pub fn fill_convex_polygon(&mut self, polygon: &Polygon, color: u32)
        requires
            old(self).wf(),
            forall|i: int|
                0 <= i < polygon.points.points@.len() ==> old(self).in_bounds(
                    (#[trigger] polygon.points.points@[i]).coord.1 as int,
                    polygon.points.points@[i].coord.0 as int,
                ),
        ensures
            final(self).wf(),
            final(self).width == old(self).width,
            final(self).height == old(self).height,
            forall|r: int, c: int|
                old(self).in_bounds(r, c) ==> #[trigger] final(self).px(r, c) == if in_fan(
                    polygon.points.points@,
                    polygon.points.points@.len() - 2,
                    c,
                    r,
                ) {
                    color
                } else {
                    old(self).px(r, c)
                },
    {
        self.fill_fan(&polygon.points.points, color);
    }

    /// Draws the closed outline through `pts`.
    pub(crate) fn draw_outline(&mut self, pts: &Vec<Point>, color: u32)
        requires
            old(self).wf(),
            forall|i: int|
                0 <= i < pts@.len() ==> old(self).in_bounds(
                    (#[trigger] pts@[i]).coord.1 as int,
                    pts@[i].coord.0 as int,
                ),
        ensures
            final(self).wf(),
            final(self).width == old(self).width,
            final(self).height == old(self).height,
            forall|r: int, c: int|
                old(self).in_bounds(r, c) ==> #[trigger] final(self).px(r, c) == if on_outline(
                    pts@,
                    pts@.len() as int,
                    c,
                    r,
                ) {
                    color
                } else {
                    old(self).px(r, c)
                },
    {
        let n = pts.len();
        let mut i: usize = 0;
        while i < n
            invariant
                n == pts@.len(),
                i <= n,
                self.wf(),
                self.width == old(self).width,
                self.height == old(self).height,
                forall|k: int|
                    0 <= k < pts@.len() ==> self.in_bounds(
                        (#[trigger] pts@[k]).coord.1 as int,
                        pts@[k].coord.0 as int,
                    ),
                forall|r: int, c: int|
                    old(self).in_bounds(r, c) ==> #[trigger] self.px(r, c) == if on_outline(
                        pts@,
                        i as int,
                        c,
                        r,
                    ) {
                        color
                    } else {
                        old(self).px(r, c)
                    },
            decreases n - i,
        {
            let ghost prev = *self;
            let j = (i + 1) % n;
            proof {
                assert(self.in_bounds(pts@[i as int].coord.1 as int, pts@[i as int].coord.0 as int));
                assert(self.in_bounds(pts@[j as int].coord.1 as int, pts@[j as int].coord.0 as int));
            }
            self.draw_line(&pts[i], &pts[j], color);
            proof {
                assert forall|r: int, c: int| old(self).in_bounds(r, c) implies #[trigger] self.px(r, c)
                    == if on_outline(pts@, i + 1, c, r) {
                    color
                } else {
                    old(self).px(r, c)
                } by {
                    assert(prev.in_bounds(r, c));
                    assert(prev.px(r, c) == if on_outline(pts@, i as int, c, r) {
                        color
                    } else {
                        old(self).px(r, c)
                    });
                }
            }
            i = i + 1;
        }
    }
    /// Regenerates the object's image and composites it at the object's origin with the
    /// object's draw mode.
    fn draw_object_2d(&mut self, obj: &mut GameObject, filled: bool)
        requires
            old(self).wf(),
            old(obj).drawable(),
            old(obj).fits(old(self).width as int, old(self).height as int),
        ensures
            final(self).wf(),
            final(self).width == old(self).width,
            final(self).height == old(self).height,
            final(obj).drawable(),
            final(obj).shows(filled),
            old(obj).same_but_image(*final(obj)),
            forall|r: int, c: int|
                old(self).in_bounds(r, c) ==> #[trigger] final(self).px(r, c) == if old(obj).covers(
                    r,
                    c,
                ) {
                    blend(
                        old(obj).mode_of(),
                        old(self).px(r, c),
                        old(obj).pixel(filled, r - old(obj).origin().1, c - old(obj).origin().0),
                    )
                } else {
                    old(self).px(r, c)
                },
    {
        proof {
            let o: GameObject = *old(obj);
            if let GameObject::Polygon(p) = o {
                crate::engine::game::lemma_extremes(p.points.points@, 0);
                crate::engine::game::lemma_extremes(p.points.points@, 1);
            }
        }
        let (x, y, _) = obj.coord();
        if filled {
            obj.generate_image();
        } else {
            obj.generate_image_hollow();
        }
        let image = obj.image();
        match obj.mode() {
            DrawMode::Addition => self.add_block(y as usize, x as usize, image),
            DrawMode::Overlay => self.overlay_block(y as usize, x as usize, image),
            DrawMode::Override => self.set_block(y as usize, x as usize, image),
        }
    }

    /// Regenerates the object's image filled and composites it at the object's origin.
    pub fn draw_object_2d_filled(&mut self, obj: &mut GameObject)
        requires
            old(self).wf(),
            old(obj).drawable(),
            old(obj).fits(old(self).width as int, old(self).height as int),
        ensures
            final(self).wf(),
            final(self).width == old(self).width,
            final(self).height == old(self).height,
            final(obj).drawable(),
            final(obj).shows(true),
            old(obj).same_but_image(*final(obj)),
            forall|r: int, c: int|
                old(self).in_bounds(r, c) ==> #[trigger] final(self).px(r, c) == if old(obj).covers(
                    r,
                    c,
                ) {
                    blend(
                        old(obj).mode_of(),
                        old(self).px(r, c),
                        old(obj).pixel(true, r - old(obj).origin().1, c - old(obj).origin().0),
                    )
                } else {
                    old(self).px(r, c)
                },
    {
        self.draw_object_2d(obj, true);
    }

    /// Regenerates the object's image as an outline and composites it at the object's origin.
    pub fn draw_object_2d_hollow(&mut self, obj: &mut GameObject)
        requires
            old(self).wf(),
            old(obj).drawable(),
            old(obj).fits(old(self).width as int, old(self).height as int),
        ensures
            final(self).wf(),
            final(self).width == old(self).width,
            final(self).height == old(self).height,
            final(obj).drawable(),
            final(obj).shows(false),
            old(obj).same_but_image(*final(obj)),
            forall|r: int, c: int|
                old(self).in_bounds(r, c) ==> #[trigger] final(self).px(r, c) == if old(obj).covers(
                    r,
                    c,
                ) {
                    blend(
                        old(obj).mode_of(),
                        old(self).px(r, c),
                        old(obj).pixel(false, r - old(obj).origin().1, c - old(obj).origin().0),
                    )
                } else {
                    old(self).px(r, c)
                },
    {
        self.draw_object_2d(obj, false);
    }
}

/// The three points stably sorted by ascending y.
fn sort_by_y(a: Point, b: Point, c: Point) -> (r: (Point, Point, Point))
    ensures
        r == sorted3(a, b, c),
        r.0.coord.1 <= r.1.coord.1 <= r.2.coord.1,
{
    if a.coord.1 <= b.coord.1 {
        if b.coord.1 <= c.coord.1 {
            (a, b, c)
        } else if a.coord.1 <= c.coord.1 {
            (a, c, b)
        } else {
            (c, a, b)
        }
    } else {
        if a.coord.1 <= c.coord.1 {
            (b, a, c)
        } else if b.coord.1 <= c.coord.1 {
            (b, c, a)
        } else {
            (c, b, a)
        }
    }
}

} // verus!
