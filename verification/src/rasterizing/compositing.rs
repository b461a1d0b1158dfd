//! Depth-tested compositing of projected triangles.
//!
//! A triangle arrives here already projected: each corner is a pixel position
//! with a depth. Depths are integers and a greater depth is nearer to the
//! viewer. A cell that nothing has been drawn to holds [`EMPTY_DEPTH`], the
//! least integer. That value is the mark alone: the depth at which a triangle
//! is tested is always above it, so the mark loses against every triangle.

use crate::geometry::{trunc_div, IVec2, UVec2};
use crate::printing::drawing::{edge_column, flat_covers, flat_span, sort_by_row, split_point, triangle_covers};
use crate::printing::{Cell, CharBuffer, CharBufferView, RgbColor, FILLED};
use crate::rasterizing::RasterizationError;
use vstd::prelude::*;

verus! {

/// The depth of a cell that no triangle has been drawn to. No triangle is
/// ever tested at this depth: see [`clamp_depth`].
pub const EMPTY_DEPTH: i32 = i32::MIN;

/// The least depth at which a triangle is tested: one above the mark of an
/// empty cell.
pub const FARTHEST_DEPTH: i32 = -2147483647;

/// A projected corner: where it falls on the screen, and how near it is.
#[derive(Clone, Copy, Debug, PartialEq, Eq, Structural)]
pub struct ScreenVertex {
    pub position: IVec2,
    pub depth: i32,
}

/// A projected triangle with the colour it is lit in.
#[derive(Clone, Copy, Debug)]
pub struct ScreenTriangle {
    pub v: [ScreenVertex; 3],
    pub color: RgbColor,
}

/// Twice the signed area of the triangle on the screen.
pub open spec fn doubled_area(t: ScreenTriangle) -> int {
    let (p0, p1, p2) = (t.v[0].position, t.v[1].position, t.v[2].position);
    (p1.x - p0.x) * (p2.y - p0.y) - (p2.x - p0.x) * (p1.y - p0.y)
}

/// The change of depth per column, times [`doubled_area`].
pub open spec fn depth_run(t: ScreenTriangle) -> int {
    let (p0, p1, p2) = (t.v[0].position, t.v[1].position, t.v[2].position);
    (t.v[1].depth - t.v[0].depth) * (p2.y - p0.y) - (t.v[2].depth - t.v[0].depth) * (p1.y - p0.y)
}

/// The change of depth per row, times [`doubled_area`].
pub open spec fn depth_rise(t: ScreenTriangle) -> int {
    let (p0, p1, p2) = (t.v[0].position, t.v[1].position, t.v[2].position);
    (t.v[2].depth - t.v[0].depth) * (p1.x - p0.x) - (t.v[1].depth - t.v[0].depth) * (p2.x - p0.x)
}

/// The greatest of three integers.
pub open spec fn greatest(a: int, b: int, c: int) -> int {
    vstd::math::max(a, vstd::math::max(b, c))
}

/// `value` brought into the range of the depths of triangles, from
/// [`FARTHEST_DEPTH`] to the greatest integer: what is at or below the mark
/// of an empty cell counts as the farthest depth.
pub open spec fn clamp_depth(value: int) -> int {
    if value < FARTHEST_DEPTH {
        FARTHEST_DEPTH as int
    } else if value > i32::MAX {
        i32::MAX as int
    } else {
        value
    }
}

/// The depth of the triangle at column `x` of row `y`: the plane through its
/// three corners, the offset from the first corner truncated toward zero and
/// the result kept in the range of the depths of triangles. A triangle whose
/// corners lie on one line of the screen has no plane; it has the depth of
/// its nearest corner everywhere. In every case the depth is above
/// [`EMPTY_DEPTH`].
pub open spec fn depth_at(t: ScreenTriangle, x: int, y: int) -> int {
    let area = doubled_area(t);
    let p0 = t.v[0].position;
    let lean = (x - p0.x) * depth_run(t) + (y - p0.y) * depth_rise(t);
    if area == 0 {
        clamp_depth(greatest(t.v[0].depth as int, t.v[1].depth as int, t.v[2].depth as int))
    } else if area > 0 {
        clamp_depth(t.v[0].depth + trunc_div(lean, area))
    } else {
        clamp_depth(t.v[0].depth + trunc_div(-lean, -area))
    }
}

/// What a cell and its stored depth become when the triangle is tested
/// against them at column `x` of row `y`: where the triangle is nearer than
/// what is stored, the cell is filled in the triangle's colour and the depth
/// is the triangle's; otherwise both stay.
pub open spec fn tested(t: ScreenTriangle, x: int, y: int, cell: Cell, stored: i32) -> (Cell, i32) {
    if depth_at(t, x, y) > stored {
        ((FILLED, t.color), depth_at(t, x, y) as i32)
    } else {
        (cell, stored)
    }
}

/// Whether the triangle covers column `x` of row `y` on the screen.
pub open spec fn covers(t: ScreenTriangle, x: int, y: int) -> bool {
    triangle_covers(t.v[0].position, t.v[1].position, t.v[2].position, x, y)
}

/// What a cell and its stored depth become when the triangle is drawn: they
/// are tested where the triangle covers the cell and stay where it does not.
pub open spec fn composited(t: ScreenTriangle, x: int, y: int, cell: Cell, stored: i32) -> (Cell, i32) {
    if covers(t, x, y) {
        tested(t, x, y, cell, stored)
    } else {
        (cell, stored)
    }
}

/// The mathematical content of a [`DepthBuffer`]: its extent and its rows of
/// depths, `depths[y][x]` being the depth stored for column `x` of row `y`.
pub struct DepthBufferView {
    pub dimensions: UVec2,
    pub depths: Seq<Seq<i32>>,
}

impl DepthBufferView {
    /// The grid has exactly `dimensions.y` rows of `dimensions.x` depths each.
    pub open spec fn wf(self) -> bool {
        &&& self.depths.len() == self.dimensions.y
        &&& forall|y: int| 0 <= y < self.depths.len() ==> (#[trigger] self.depths[y]).len() == self.dimensions.x
    }

    /// Whether column `x` of row `y` lies inside the grid.
    pub open spec fn contains(self, x: int, y: int) -> bool {
        0 <= x < self.dimensions.x && 0 <= y < self.dimensions.y
    }

    /// The grid with the depth at `(x, y)` replaced.
    pub open spec fn with_depth(self, x: int, y: int, value: i32) -> Self {
        DepthBufferView { dimensions: self.dimensions, depths: self.depths.update(y, self.depths[y].update(x, value)) }
    }

    /// The grid of the given extent that holds [`EMPTY_DEPTH`] everywhere.
    pub open spec fn cleared(dimensions: UVec2) -> Self {
        DepthBufferView {
            dimensions,
            depths: Seq::new(dimensions.y as nat, |y: int| Seq::new(dimensions.x as nat, |x: int| EMPTY_DEPTH)),
        }
    }

    /// The depths after the triangle has been drawn over them.
    pub open spec fn composited(self, t: ScreenTriangle) -> Self {
        DepthBufferView {
            dimensions: self.dimensions,
            depths: Seq::new(
                self.dimensions.y as nat,
                |y: int|
                    Seq::new(
                        self.dimensions.x as nat,
                        |x: int| composited(t, x, y, (FILLED, t.color), self.depths[y][x]).1,
                    ),
            ),
        }
    }
}

/// The cells after the triangle has been drawn over them, against the depths
/// stored before.
pub open spec fn composited_frame(frame: CharBufferView, depths: DepthBufferView, t: ScreenTriangle) -> CharBufferView {
    CharBufferView {
        dimensions: frame.dimensions,
        cells: Seq::new(
            frame.dimensions.y as nat,
            |y: int|
                Seq::new(
                    frame.dimensions.x as nat,
                    |x: int| composited(t, x, y, frame.cells[y][x], depths.depths[y][x]).0,
                ),
        ),
    }
}

/// One depth per cell of a frame: the nearest that has been drawn there.
#[derive(Clone, Debug)]
pub struct DepthBuffer {
    data: Vec<Vec<i32>>,
    dimensions: UVec2,
}

impl View for DepthBuffer {
    type V = DepthBufferView;

    closed spec fn view(&self) -> DepthBufferView {
        DepthBufferView { dimensions: self.dimensions, depths: Seq::new(self.data.len() as nat, |y: int| self.data[y]@) }
    }
}

impl DepthBuffer {
    /// The buffer's invariant: its grid has the shape its extent says.
    pub open spec fn wf(&self) -> bool {
        self@.wf()
    }

    /// A buffer of the given extent that holds [`EMPTY_DEPTH`] everywhere.
    /// Fails only where an extent does not fit the index type.
    pub fn new(dimensions: UVec2) -> (result: Result<Self, RasterizationError>)
        ensures
            match result {
                Ok(buffer) => CharBuffer::fits_index(dimensions) && buffer.wf() && buffer@ == DepthBufferView::cleared(
                    dimensions,
                ),
                Err(e) => !CharBuffer::fits_index(dimensions) && e == RasterizationError::U32ToUsize,
            },
    {
        let width: usize = match usize::try_from(dimensions.x) {
            Ok(w) => w,
            Err(_) => {
                return Err(RasterizationError::U32ToUsize);
            },
        };
        let height: usize = match usize::try_from(dimensions.y) {
            Ok(h) => h,
            Err(_) => {
                return Err(RasterizationError::U32ToUsize);
            },
        };
        let mut data: Vec<Vec<i32>> = Vec::new();
        let mut y: usize = 0;
        while y < height
            invariant
                y <= height,
                data.len() == y,
                forall|j: int| 0 <= j < y ==> (#[trigger] data[j])@ == Seq::new(width as nat, |x: int| EMPTY_DEPTH),
            decreases height - y,
        {
            let mut row: Vec<i32> = Vec::new();
            let mut x: usize = 0;
            while x < width
                invariant
                    x <= width,
                    row@ == Seq::new(x as nat, |i: int| EMPTY_DEPTH),
                decreases width - x,
            {
                row.push(EMPTY_DEPTH);
                x = x + 1;
                assert(row@ =~= Seq::new(x as nat, |i: int| EMPTY_DEPTH));
            }
            data.push(row);
            y = y + 1;
        }
        let buffer = DepthBuffer { data, dimensions };
        assert(buffer@.depths =~= DepthBufferView::cleared(dimensions).depths);
        Ok(buffer)
    }

    /// The extent of the buffer: `x` columns by `y` rows.
    pub fn dimensions(&self) -> (d: UVec2)
        ensures
            d == self@.dimensions,
    {
        self.dimensions
    }

    /// Sets every depth to [`EMPTY_DEPTH`].
    pub fn clear(&mut self)
        requires
            old(self).wf(),
        ensures
            final(self).wf(),
            final(self)@ == DepthBufferView::cleared(old(self)@.dimensions),
    {
        let ghost dimensions = self@.dimensions;
        let height: usize = self.data.len();
        assert forall|j: int| 0 <= j < height implies (#[trigger] self.data[j]).len() == dimensions.x by {
            assert(self@.depths[j] == self.data[j]@);
        }
        let mut y: usize = 0;
        while y < height
            invariant
                y <= height,
                height == dimensions.y,
                self.dimensions == dimensions,
                self.data.len() == height,
                forall|j: int| 0 <= j < height ==> (#[trigger] self.data[j]).len() == dimensions.x,
                forall|j: int, i: int| 0 <= j < y && 0 <= i < dimensions.x ==> (#[trigger] self.data[j][i]) == EMPTY_DEPTH,
            decreases height - y,
        {
            let width: usize = self.data[y].len();
            let mut x: usize = 0;
            while x < width
                invariant
                    y < height,
                    x <= width,
                    width == dimensions.x,
                    height == dimensions.y,
                    self.dimensions == dimensions,
                    self.data.len() == height,
                    forall|j: int| 0 <= j < height ==> (#[trigger] self.data[j]).len() == dimensions.x,
                    forall|j: int, i: int|
                        0 <= j < y && 0 <= i < dimensions.x ==> (#[trigger] self.data[j][i]) == EMPTY_DEPTH,
                    forall|i: int| 0 <= i < x ==> (#[trigger] self.data[y as int][i]) == EMPTY_DEPTH,
                decreases width - x,
            {
                self.data[y][x] = EMPTY_DEPTH;
                x = x + 1;
            }
            y = y + 1;
        }
        assert(self@.depths =~~= DepthBufferView::cleared(dimensions).depths);
    }

    /// The depth stored at `position`, or `None` outside the buffer.
    pub fn get_value(&self, position: UVec2) -> (value: Option<i32>)
        requires
            self.wf(),
        ensures
            value == if self@.contains(position.x as int, position.y as int) {
                Some(self@.depths[position.y as int][position.x as int])
            } else {
                None
            },
    {
        if position.x < self.dimensions.x && position.y < self.dimensions.y {
            let x: usize = position.x as usize;
            let y: usize = position.y as usize;
            assert(self@.depths[y as int] == self.data[y as int]@);
            Some(self.data[y][x])
        } else {
            None
        }
    }

    /// Stores `value` at `position`; outside the buffer nothing changes.
    pub fn set_value(&mut self, position: UVec2, value: i32)
        requires
            old(self).wf(),
        ensures
            final(self).wf(),
            final(self)@ == if old(self)@.contains(position.x as int, position.y as int) {
                old(self)@.with_depth(position.x as int, position.y as int, value)
            } else {
                old(self)@
            },
    {
        if position.x < self.dimensions.x && position.y < self.dimensions.y {
            let x: usize = position.x as usize;
            let y: usize = position.y as usize;
            assert(self@.depths[y as int] == self.data[y as int]@);
            self.data[y][x] = value;
            assert(self.data[y as int]@ =~= old(self).data[y as int]@.update(x as int, value));
            assert(self@.depths =~= old(self)@.with_depth(position.x as int, position.y as int, value).depths);
        }
    }
}

/// The product of two bounded integers is bounded by the product of the
/// bounds.
proof fn lemma_product_bound(a: int, b: int, m: int, n: int)
    requires
        -m <= a <= m,
        -n <= b <= n,
    ensures
        -(m * n) <= a * b <= m * n,
{
    assert(-(m * n) <= a * b <= m * n) by (nonlinear_arith)
        requires
            -m <= a <= m,
            -n <= b <= n,
    ;
}

/// Computes [`depth_at`] for a cell of the screen.
fn depth_of(t: &ScreenTriangle, x: i32, y: i32) -> (depth: i32)
    ensures
        depth == depth_at(*t, x as int, y as int),
{
    let x0: i128 = t.v[0].position.x as i128;
    let y0: i128 = t.v[0].position.y as i128;
    let z0: i128 = t.v[0].depth as i128;
    let x1: i128 = t.v[1].position.x as i128 - x0;
    let y1: i128 = t.v[1].position.y as i128 - y0;
    let z1: i128 = t.v[1].depth as i128 - z0;
    let x2: i128 = t.v[2].position.x as i128 - x0;
    let y2: i128 = t.v[2].position.y as i128 - y0;
    let z2: i128 = t.v[2].depth as i128 - z0;
    let dx: i128 = x as i128 - x0;
    let dy: i128 = y as i128 - y0;
    proof {
        let w: int = 0x1_0000_0000;
        lemma_product_bound(x1 as int, y2 as int, w, w);
        lemma_product_bound(x2 as int, y1 as int, w, w);
        lemma_product_bound(z1 as int, y2 as int, w, w);
        lemma_product_bound(z2 as int, y1 as int, w, w);
        lemma_product_bound(z2 as int, x1 as int, w, w);
        lemma_product_bound(z1 as int, x2 as int, w, w);
    }
    let area: i128 = x1 * y2 - x2 * y1;
    let run: i128 = z1 * y2 - z2 * y1;
    let rise: i128 = z2 * x1 - z1 * x2;
    if area == 0 {
        let mut nearest: i32 = t.v[0].depth;
        if t.v[1].depth > nearest {
            nearest = t.v[1].depth;
        }
        if t.v[2].depth > nearest {
            nearest = t.v[2].depth;
        }
        if nearest < FARTHEST_DEPTH {
            nearest = FARTHEST_DEPTH;
        }
        return nearest;
    }
    proof {
        let w: int = 0x1_0000_0000;
        lemma_product_bound(dx as int, run as int, w, 2 * (w * w));
        lemma_product_bound(dy as int, rise as int, w, 2 * (w * w));
    }
    let lean: i128 = dx * run + dy * rise;
    let offset: i128 = if area > 0 {
        lean / area
    } else {
        (-lean) / (-area)
    };
    proof {
        let n: int = if area > 0 {
            lean as int
        } else {
            -lean as int
        };
        let d: int = if area > 0 {
            area as int
        } else {
            -area as int
        };
        let bound: int = 4 * 0x1_0000_0000int * 0x1_0000_0000int * 0x1_0000_0000int;
        assert(-bound * d <= n <= bound * d) by (nonlinear_arith)
            requires
                d >= 1,
                -bound <= n <= bound,
                bound >= 0,
        ;
        crate::geometry::lemma_trunc_div_between(n, d, -bound, bound);
    }
    let depth: i128 = z0 + offset;
    if depth < FARTHEST_DEPTH as i128 {
        FARTHEST_DEPTH
    } else if depth > i32::MAX as i128 {
        i32::MAX
    } else {
        depth as i32
    }
}

/// The depths that a draw onto a frame of extent `dimensions` starts from:
/// those of the buffer if it has that extent, a cleared grid otherwise.
pub open spec fn depths_for(buffer: Option<DepthBuffer>, dimensions: UVec2) -> DepthBufferView {
    match buffer {
        Some(depths) if depths@.dimensions == dimensions => depths@,
        _ => DepthBufferView::cleared(dimensions),
    }
}

/// Tests the triangle against the cells of row `y` in columns `lo..=hi` that
/// lie in the frame.
fn composite_span(depths: &mut DepthBuffer, frame: &mut CharBuffer, t: &ScreenTriangle, y: i32, lo: i32, hi: i32)
    requires
        old(depths).wf(),
        old(frame).wf(),
        old(depths)@.dimensions == old(frame)@.dimensions,
        0 <= y < old(frame)@.dimensions.y,
    ensures
        final(depths).wf(),
        final(frame).wf(),
        final(depths)@.dimensions == old(depths)@.dimensions,
        final(frame)@.dimensions == old(frame)@.dimensions,
        forall|i: int, j: int|
            old(frame)@.contains(i, j) ==> #[trigger] final(frame)@.cells[j][i] == if j == y && lo <= i <= hi {
                tested(*t, i, j, old(frame)@.cells[j][i], old(depths)@.depths[j][i]).0
            } else {
                old(frame)@.cells[j][i]
            },
        forall|i: int, j: int|
            old(frame)@.contains(i, j) ==> #[trigger] final(depths)@.depths[j][i] == if j == y && lo <= i <= hi {
                tested(*t, i, j, old(frame)@.cells[j][i], old(depths)@.depths[j][i]).1
            } else {
                old(depths)@.depths[j][i]
            },
{
    let ghost frame0 = frame@;
    let ghost depths0 = depths@;
    let width: i64 = frame.dimensions().x as i64;
    let first: i64 = if lo > 0 {
        lo as i64
    } else {
        0
    };
    let last: i64 = if (hi as i64) < width - 1 {
        hi as i64
    } else {
        width - 1
    };
    let mut x: i64 = first;
    while x <= last
        invariant
            depths.wf(),
            frame.wf(),
            depths@.dimensions == frame0.dimensions,
            frame@.dimensions == frame0.dimensions,
            depths0.dimensions == frame0.dimensions,
            frame0.wf(),
            depths0.wf(),
            0 <= y < frame0.dimensions.y,
            first == if lo > 0 {
                lo as int
            } else {
                0
            },
            0 <= first <= x,
            x <= last + 1 || x == first,
            last == if hi < frame0.dimensions.x - 1 {
                hi as int
            } else {
                frame0.dimensions.x - 1
            },
            forall|i: int, j: int|
                frame0.contains(i, j) ==> #[trigger] frame@.cells[j][i] == if j == y && first <= i < x {
                    tested(*t, i, j, frame0.cells[j][i], depths0.depths[j][i]).0
                } else {
                    frame0.cells[j][i]
                },
            forall|i: int, j: int|
                frame0.contains(i, j) ==> #[trigger] depths@.depths[j][i] == if j == y && first <= i < x {
                    tested(*t, i, j, frame0.cells[j][i], depths0.depths[j][i]).1
                } else {
                    depths0.depths[j][i]
                },
        decreases last + 1 - x,
    {
        let position = UVec2 { x: x as u32, y: y as u32 };
        let depth: i32 = depth_of(t, x as i32, y);
        let stored: Option<i32> = depths.get_value(position);
        let nearer: bool = match stored {
            Some(s) => depth > s,
            None => false,
        };
        if nearer {
            depths.set_value(position, depth);
            let written = frame.set_char(position, Some(FILLED), Some(t.color));
            assert(written is Ok);
        }
        x = x + 1;
    }
}

/// Tests the triangle against the cells that one of its two flat-based parts
/// covers: `a` and `b` are the ends of the part's horizontal base, `apex` its
/// third corner.
fn composite_flat(
    depths: &mut DepthBuffer,
    frame: &mut CharBuffer,
    t: &ScreenTriangle,
    a: IVec2,
    b: IVec2,
    apex: IVec2,
)
    requires
        old(depths).wf(),
        old(frame).wf(),
        old(depths)@.dimensions == old(frame)@.dimensions,
        a.y == b.y,
        a.y != apex.y,
    ensures
        final(depths).wf(),
        final(frame).wf(),
        final(depths)@.dimensions == old(depths)@.dimensions,
        final(frame)@.dimensions == old(frame)@.dimensions,
        forall|i: int, j: int|
            old(frame)@.contains(i, j) ==> #[trigger] final(frame)@.cells[j][i] == if flat_covers(a, b, apex, i, j) {
                tested(*t, i, j, old(frame)@.cells[j][i], old(depths)@.depths[j][i]).0
            } else {
                old(frame)@.cells[j][i]
            },
        forall|i: int, j: int|
            old(frame)@.contains(i, j) ==> #[trigger] final(depths)@.depths[j][i] == if flat_covers(a, b, apex, i, j) {
                tested(*t, i, j, old(frame)@.cells[j][i], old(depths)@.depths[j][i]).1
            } else {
                old(depths)@.depths[j][i]
            },
{
    let ghost frame0 = frame@;
    let ghost depths0 = depths@;
    let height: i64 = frame.dimensions().y as i64;
    let (top, bottom) = if a.y < apex.y {
        (a.y, apex.y)
    } else {
        (apex.y, a.y)
    };
    let first: i64 = if top > 0 {
        top as i64
    } else {
        0
    };
    let last: i64 = if (bottom as i64) < height - 1 {
        bottom as i64
    } else {
        height - 1
    };
    let mut y: i64 = first;
    while y <= last
        invariant
            depths.wf(),
            frame.wf(),
            depths@.dimensions == frame0.dimensions,
            frame@.dimensions == frame0.dimensions,
            depths0.dimensions == frame0.dimensions,
            a.y == b.y,
            a.y != apex.y,
            top == vstd::math::min(a.y as int, apex.y as int),
            bottom == vstd::math::max(a.y as int, apex.y as int),
            first == if top > 0 {
                top as int
            } else {
                0
            },
            0 <= first <= y,
            y <= last + 1 || y == first,
            last == if bottom < frame0.dimensions.y - 1 {
                bottom as int
            } else {
                frame0.dimensions.y - 1
            },
            forall|i: int, j: int|
                frame0.contains(i, j) ==> #[trigger] frame@.cells[j][i] == if j < y && flat_covers(a, b, apex, i, j) {
                    tested(*t, i, j, frame0.cells[j][i], depths0.depths[j][i]).0
                } else {
                    frame0.cells[j][i]
                },
            forall|i: int, j: int|
                frame0.contains(i, j) ==> #[trigger] depths@.depths[j][i] == if j < y && flat_covers(a, b, apex, i, j) {
                    tested(*t, i, j, frame0.cells[j][i], depths0.depths[j][i]).1
                } else {
                    depths0.depths[j][i]
                },
        decreases last + 1 - y,
    {
        let row: i32 = y as i32;
        let xa: i32 = edge_column(a, apex, row);
        let xb: i32 = edge_column(b, apex, row);
        let (lo, hi) = if xa <= xb {
            (xa, xb)
        } else {
            (xb, xa)
        };
        assert(flat_span(a, b, apex, y as int) == (lo as int, hi as int));
        composite_span(depths, frame, t, row, lo, hi);
        y = y + 1;
    }
}

/// Sets every depth of the buffer, where there is one, to [`EMPTY_DEPTH`].
pub fn clear_depths(depth_buffer: &mut Option<DepthBuffer>)
    requires
        *old(depth_buffer) matches Some(depths) ==> depths.wf(),
    ensures
        match *old(depth_buffer) {
            Some(before) => *final(depth_buffer) matches Some(depths) && depths.wf() && depths@
                == DepthBufferView::cleared(before@.dimensions),
            None => *final(depth_buffer) is None,
        },
{
    match depth_buffer.take() {
        Some(mut depths) => {
            depths.clear();
            *depth_buffer = Some(depths);
        },
        None => {},
    }
}

/// Draws the projected triangle into `char_buffer`: every cell that the
/// triangle covers and at which it is nearer than what was drawn before is
/// filled in the triangle's colour, and its depth is stored; every other cell
/// and depth stays. The depth buffer is made, or made anew, where there is
/// none of the frame's extent.
pub fn composite_triangle(
    depth_buffer: &mut Option<DepthBuffer>,
    triangle: ScreenTriangle,
    char_buffer: &mut CharBuffer,
) -> (result: Result<(), RasterizationError>)
    requires
        *old(depth_buffer) matches Some(depths) ==> depths.wf(),
        old(char_buffer).wf(),
    ensures
        final(char_buffer).wf(),
        *final(depth_buffer) matches Some(depths) ==> depths.wf(),
        match result {
            Ok(()) => {
                let start = depths_for(*old(depth_buffer), old(char_buffer)@.dimensions);
                &&& CharBuffer::fits_index(old(char_buffer)@.dimensions)
                &&& *final(depth_buffer) matches Some(depths) && depths@ == start.composited(triangle)
                &&& final(char_buffer)@ == composited_frame(old(char_buffer)@, start, triangle)
            },
            Err(e) => {
                &&& !CharBuffer::fits_index(old(char_buffer)@.dimensions)
                &&& e == RasterizationError::U32ToUsize
                &&& final(char_buffer)@ == old(char_buffer)@
                &&& *final(depth_buffer) == *old(depth_buffer)
            },
        },
{
    let dimensions: UVec2 = *char_buffer.dimensions();
    let mut depths: DepthBuffer = match ready_depths(depth_buffer, dimensions) {
        Ok(depths) => depths,
        Err(e) => {
            return Err(e);
        },
    };
    let ghost frame0 = char_buffer@;
    let ghost depths0 = depths@;
    let (v0, v1, v2) = sort_by_row(triangle.v[0].position, triangle.v[1].position, triangle.v[2].position);
    let top_triangle: bool = v2.y != v1.y;
    let bottom_triangle: bool = v0.y != v1.y;
    if top_triangle || bottom_triangle {
        let midpoint = IVec2 { x: edge_column(v0, v2, v1.y), y: v1.y };
        assert(midpoint == split_point(v0, v1, v2));
        if top_triangle {
            composite_flat(&mut depths, char_buffer, &triangle, v1, midpoint, v2);
        }
        if bottom_triangle {
            composite_flat(&mut depths, char_buffer, &triangle, v1, midpoint, v0);
        }
    }
    proof {
        assert forall|i: int, j: int| frame0.contains(i, j) implies #[trigger] char_buffer@.cells[j][i] == composited(
            triangle,
            i,
            j,
            frame0.cells[j][i],
            depths0.depths[j][i],
        ).0 by {}
        assert forall|i: int, j: int| frame0.contains(i, j) implies #[trigger] depths@.depths[j][i] == composited(
            triangle,
            i,
            j,
            (FILLED, triangle.color),
            depths0.depths[j][i],
        ).1 by {}
        assert(char_buffer@.cells =~~= composited_frame(frame0, depths0, triangle).cells);
        assert(depths@.depths =~~= depths0.composited(triangle).depths);
    }
    *depth_buffer = Some(depths);
    Ok(())
}

/// Takes the depth buffer out for a draw onto a frame of extent
/// `dimensions`: the one at hand if it has that extent, a cleared one
/// otherwise. Where no buffer of that extent can be made, the one at hand
/// stays.
pub(crate) fn ready_depths(depth_buffer: &mut Option<DepthBuffer>, dimensions: UVec2) -> (result: Result<
    DepthBuffer,
    RasterizationError,
>)
    requires
        *old(depth_buffer) matches Some(depths) ==> depths.wf(),
    ensures
        match result {
            Ok(depths) => {
                &&& CharBuffer::fits_index(dimensions)
                &&& depths.wf()
                &&& depths@ == depths_for(*old(depth_buffer), dimensions)
                &&& *final(depth_buffer) is None
            },
            Err(e) => {
                &&& !CharBuffer::fits_index(dimensions)
                &&& e == RasterizationError::U32ToUsize
                &&& *final(depth_buffer) == *old(depth_buffer)
            },
        },
{
    match depth_buffer.take() {
        Some(depths) if depths.dimensions() == dimensions => Ok(depths),
        kept => {
            match DepthBuffer::new(dimensions) {
                Ok(depths) => Ok(depths),
                Err(e) => {
                    *depth_buffer = kept;
                    Err(e)
                },
            }
        },
    }
}

/// The cell at `(x, y)` after two triangles have been drawn one after the
/// other over the given cells and depths.
pub open spec fn cell_after_two(
    frame: CharBufferView,
    depths: DepthBufferView,
    first: ScreenTriangle,
    second: ScreenTriangle,
    x: int,
    y: int,
) -> Cell {
    composited_frame(composited_frame(frame, depths, first), depths.composited(first), second).cells[y][x]
}

/// The depth at `(x, y)` after two triangles have been drawn one after the
/// other over the given depths.
pub open spec fn depth_after_two(
    depths: DepthBufferView,
    first: ScreenTriangle,
    second: ScreenTriangle,
    x: int,
    y: int,
) -> i32 {
    depths.composited(first).composited(second).depths[y][x]
}

/// The depth of a triangle at a cell can be stored, and is above the mark of
/// an empty cell: the mark loses against every triangle.
pub proof fn lemma_depth_at_in_range(t: ScreenTriangle, x: int, y: int)
    ensures
        EMPTY_DEPTH < depth_at(t, x, y) <= i32::MAX,
{
}

/// On cleared depths a triangle shows in every cell that it covers, and the
/// depth stored there is its own; no other cell and no other depth changes.
pub proof fn lemma_triangle_shows_on_cleared_frame(frame: CharBufferView, t: ScreenTriangle, x: int, y: int)
    requires
        frame.wf(),
        frame.contains(x, y),
    ensures
        ({
            let depths = DepthBufferView::cleared(frame.dimensions);
            let shown = composited_frame(frame, depths, t).cells[y][x];
            let stored = depths.composited(t).depths[y][x];
            if covers(t, x, y) {
                shown == (FILLED, t.color) && stored == depth_at(t, x, y) && stored > EMPTY_DEPTH
            } else {
                shown == frame.cells[y][x] && stored == EMPTY_DEPTH
            }
        }),
{
}

/// Of two triangles that cover a cell at different depths, the nearer one
/// shows there in whichever order the two are drawn, provided it is nearer
/// than what was drawn there before; on a cleared frame that is every
/// triangle.
pub proof fn lemma_nearer_triangle_shows(
    frame: CharBufferView,
    depths: DepthBufferView,
    near: ScreenTriangle,
    far: ScreenTriangle,
    x: int,
    y: int,
)
    requires
        frame.wf(),
        depths.wf(),
        frame.dimensions == depths.dimensions,
        frame.contains(x, y),
        covers(near, x, y),
        covers(far, x, y),
        depth_at(near, x, y) > depth_at(far, x, y),
        depth_at(near, x, y) > depths.depths[y][x],
    ensures
        cell_after_two(frame, depths, near, far, x, y) == (FILLED, near.color),
        cell_after_two(frame, depths, far, near, x, y) == (FILLED, near.color),
        depth_after_two(depths, near, far, x, y) == depth_at(near, x, y),
        depth_after_two(depths, far, near, x, y) == depth_at(near, x, y),
{
}

/// The order in which two triangles are drawn makes no difference to the
/// depth stored at any cell, and none to what the cell shows unless both
/// cover it at one and the same depth in different colours.
pub proof fn lemma_order_independent(
    frame: CharBufferView,
    depths: DepthBufferView,
    a: ScreenTriangle,
    b: ScreenTriangle,
    x: int,
    y: int,
)
    requires
        frame.wf(),
        depths.wf(),
        frame.dimensions == depths.dimensions,
        frame.contains(x, y),
    ensures
        depth_after_two(depths, a, b, x, y) == depth_after_two(depths, b, a, x, y),
        !(covers(a, x, y) && covers(b, x, y) && depth_at(a, x, y) == depth_at(b, x, y) && a.color != b.color)
            ==> cell_after_two(frame, depths, a, b, x, y) == cell_after_two(frame, depths, b, a, x, y),
{
}

/// A triangle drawn a second time changes nothing.
pub proof fn lemma_redraw_changes_nothing(
    frame: CharBufferView,
    depths: DepthBufferView,
    t: ScreenTriangle,
    x: int,
    y: int,
)
    requires
        frame.wf(),
        depths.wf(),
        frame.dimensions == depths.dimensions,
        frame.contains(x, y),
    ensures
        cell_after_two(frame, depths, t, t, x, y) == composited_frame(frame, depths, t).cells[y][x],
        depth_after_two(depths, t, t, x, y) == depths.composited(t).depths[y][x],
{
}

} // verus!
