//! Lines and triangles, shaded pixel by pixel into a [`CharBuffer`].

use crate::geometry::{blend_toward, blend_toward_exec, step_toward, step_toward_exec, IVec2, UVec2};
use crate::printing::{painted, Cell, CharBuffer, CharBufferView, RgbColor};
use vstd::prelude::*;

verus! {

/// What a shader returns for one pixel: the character and the colour to
/// write, each `None` where the cell keeps what it has.
pub type Shade = (Option<char>, Option<RgbColor>);

/// Why a drawing operation failed: a cell inside the buffer could not be
/// written. The contracts of the drawing operations show that this does not
/// happen; the kinds are there for callers that pass drawing results on.
#[derive(Clone, Copy, Debug, PartialEq, Eq)]
pub enum DrawError {
    /// A cell of the line between the two points could not be written.
    Line(IVec2, IVec2),
    /// A cell of the triangle with the three corners could not be written.
    Triangle([IVec2; 3]),
}

/// The shader may be called on every cell of every well-formed buffer of the
/// given extent.
pub open spec fn shader_total<F: Fn(IVec2, &CharBuffer) -> Shade>(shading: F, dimensions: UVec2) -> bool {
    forall|pos: IVec2, buffer: CharBuffer|
        buffer.wf() && buffer@.dimensions == dimensions && buffer.valid_point(pos) ==> #[trigger] call_requires(
            shading,
            (pos, &buffer),
        )
}

/// `after` is what `before` becomes when `pixels` are shaded in order: for each
/// pixel the shader is asked once, on the buffer as the pixels before it have
/// left it, and what it returns is written to that cell.
pub open spec fn shaded<F: Fn(IVec2, &CharBuffer) -> Shade>(
    shading: F,
    pixels: Seq<IVec2>,
    before: CharBufferView,
    after: CharBufferView,
) -> bool
    decreases pixels.len(),
{
    if pixels.len() == 0 {
        after == before
    } else {
        exists|seen: CharBuffer, shade: Shade|
            {
                &&& seen.wf()
                &&& shaded(shading, pixels.drop_last(), before, seen@)
                &&& #[trigger] call_ensures(shading, (pixels.last(), &seen), shade)
                &&& after == seen@.with_cell(pixels.last().x as int, pixels.last().y as int, shade.0, shade.1)
            }
    }
}

/// The rows of `y0..=y1` that lie in a grid of the given extent, as the pair
/// of the first and the last; there is none where the first exceeds the last.
pub open spec fn rows_inside(y0: int, y1: int, dimensions: UVec2) -> (int, int) {
    (
        if y0 > 0 {
            y0
        } else {
            0
        },
        if y1 < dimensions.y - 1 {
            y1
        } else {
            dimensions.y - 1
        },
    )
}

/// The cells of column `x` in rows `y0..=y1` that lie in a grid of the given
/// extent, by increasing row; none where the column itself lies outside.
pub open spec fn vertical_pixels(x: int, y0: int, y1: int, dimensions: UVec2) -> Seq<IVec2> {
    let (first, last) = rows_inside(y0, y1, dimensions);
    if 0 <= x < dimensions.x && first <= last {
        Seq::new((last - first + 1) as nat, |i: int| IVec2 { x: x as i32, y: (first + i) as i32 })
    } else {
        Seq::empty()
    }
}

/// The column at which the edge from `anchor` to `apex` crosses row `y`, by
/// linear interpolation along the edge; the offset from the anchor truncates
/// toward zero.
pub open spec fn edge_x(anchor: IVec2, apex: IVec2, y: int) -> int {
    step_toward(
        anchor.x as int,
        apex.x - anchor.x,
        vstd::math::abs(y - anchor.y) as int,
        vstd::math::abs(apex.y - anchor.y) as int,
    )
}

/// The columns that a flat-based triangle covers in row `y`, as the pair of
/// the leftmost and the rightmost: `a` and `b` are the ends of the horizontal
/// base, and the two sides run from them to `apex`.
pub open spec fn flat_span(a: IVec2, b: IVec2, apex: IVec2, y: int) -> (int, int) {
    let xa = edge_x(a, apex, y);
    let xb = edge_x(b, apex, y);
    if xa <= xb {
        (xa, xb)
    } else {
        (xb, xa)
    }
}

/// The columns of `lo..=hi` that lie in a grid of the given extent, as the
/// pair of the first and the last; there is none where the first exceeds the
/// last.
pub open spec fn columns_inside(lo: int, hi: int, dimensions: UVec2) -> (int, int) {
    (
        if lo > 0 {
            lo
        } else {
            0
        },
        if hi < dimensions.x - 1 {
            hi
        } else {
            dimensions.x - 1
        },
    )
}

/// The cells of row `y` in columns `lo..=hi` that lie in a grid of the given
/// extent, by increasing column.
pub open spec fn span_pixels(y: int, lo: int, hi: int, dimensions: UVec2) -> Seq<IVec2> {
    let (first, last) = columns_inside(lo, hi, dimensions);
    if first <= last {
        Seq::new((last - first + 1) as nat, |i: int| IVec2 { x: (first + i) as i32, y: y as i32 })
    } else {
        Seq::empty()
    }
}

/// The cells that a flat-based triangle covers in the `rows` rows from
/// `first` on, row by row.
pub open spec fn flat_rows_pixels(
    a: IVec2,
    b: IVec2,
    apex: IVec2,
    first: int,
    rows: nat,
    dimensions: UVec2,
) -> Seq<IVec2>
    decreases rows,
{
    if rows == 0 {
        Seq::empty()
    } else {
        let y = first + rows - 1;
        let (lo, hi) = flat_span(a, b, apex, y);
        flat_rows_pixels(a, b, apex, first, (rows - 1) as nat, dimensions) + span_pixels(y, lo, hi, dimensions)
    }
}

/// The cells of a grid that a flat-based triangle covers in its rows
/// `top..=bottom`: the rows by increasing row, and in each the columns between
/// the two sides by increasing column.
pub open spec fn flat_part_pixels(
    a: IVec2,
    b: IVec2,
    apex: IVec2,
    top: int,
    bottom: int,
    dimensions: UVec2,
) -> Seq<IVec2> {
    let (first, last) = rows_inside(top, bottom, dimensions);
    if first <= last {
        flat_rows_pixels(a, b, apex, first, (last - first + 1) as nat, dimensions)
    } else {
        Seq::empty()
    }
}

/// Shading no pixel changes nothing.
pub proof fn lemma_shaded_nothing<F: Fn(IVec2, &CharBuffer) -> Shade>(
    shading: F,
    pixels: Seq<IVec2>,
    before: CharBufferView,
    after: CharBufferView,
)
    requires
        pixels.len() == 0,
        shaded(shading, pixels, before, after),
    ensures
        after == before,
{
}

/// Shading one run of pixels and then another is shading the two runs joined.
pub proof fn lemma_shaded_concat<F: Fn(IVec2, &CharBuffer) -> Shade>(
    shading: F,
    first: Seq<IVec2>,
    second: Seq<IVec2>,
    before: CharBufferView,
    between: CharBufferView,
    after: CharBufferView,
)
    requires
        shaded(shading, first, before, between),
        shaded(shading, second, between, after),
    ensures
        shaded(shading, first + second, before, after),
    decreases second.len(),
{
    if second.len() == 0 {
        assert(first + second =~= first);
    } else {
        let (seen, shade) = choose|seen: CharBuffer, shade: Shade|
            {
                &&& seen.wf()
                &&& shaded(shading, second.drop_last(), between, seen@)
                &&& #[trigger] call_ensures(shading, (second.last(), &seen), shade)
                &&& after == seen@.with_cell(second.last().x as int, second.last().y as int, shade.0, shade.1)
            };
        lemma_shaded_concat(shading, first, second.drop_last(), before, between, seen@);
        assert((first + second).drop_last() =~= first + second.drop_last());
        assert((first + second).last() == second.last());
    }
}

/// The test by which a candidate pixel is kept: it lies in a grid of the given
/// extent.
pub open spec fn inside(dimensions: UVec2) -> spec_fn(IVec2) -> bool {
    |p: IVec2| 0 <= p.x < dimensions.x && 0 <= p.y < dimensions.y
}

/// The pixel of a steep line in row `y`: the column is found from the row by
/// `x = low.x + (y - low.y) * (high.x - low.x) / (high.y - low.y)`, computed
/// exactly and then truncated toward zero.
pub open spec fn steep_point(low: IVec2, high: IVec2, y: int) -> IVec2 {
    IVec2 { x: blend_toward(low.x as int, high.x - low.x, y - low.y, high.y - low.y) as i32, y: y as i32 }
}

/// `count` candidate pixels of a steep line, one per row from row `first`
/// on.
pub open spec fn steep_candidates(low: IVec2, high: IVec2, first: int, count: nat) -> Seq<IVec2> {
    Seq::new(count, |i: int| steep_point(low, high, first + i))
}

/// The cells of a grid that the steep line from `low` up to `high` covers, by
/// increasing row: in every row of the line that lies in the grid, the
/// line's pixel if its column lies in the grid too.
pub open spec fn steep_pixels(low: IVec2, high: IVec2, dimensions: UVec2) -> Seq<IVec2> {
    let (first, last) = rows_inside(low.y as int, high.y as int, dimensions);
    if first <= last {
        steep_candidates(low, high, first, (last - first + 1) as nat).filter(inside(dimensions))
    } else {
        Seq::empty()
    }
}

/// The pixel of a shallow line in column `x`: the row is found from the
/// column by `y = left.y + (x - left.x) * (right.y - left.y) / (right.x -
/// left.x)`, computed exactly and then truncated toward zero.
pub open spec fn shallow_point(left: IVec2, right: IVec2, x: int) -> IVec2 {
    IVec2 { x: x as i32, y: blend_toward(left.y as int, right.y - left.y, x - left.x, right.x - left.x) as i32 }
}

/// `count` candidate pixels of a shallow line, one per column from column
/// `first` on.
pub open spec fn shallow_candidates(left: IVec2, right: IVec2, first: int, count: nat) -> Seq<IVec2> {
    Seq::new(count, |i: int| shallow_point(left, right, first + i))
}

/// The cells of a grid that the shallow line from `left` to `right` covers, by
/// increasing column: in every column of the line that lies in the grid, the
/// line's pixel if its row lies in the grid too.
pub open spec fn shallow_pixels(left: IVec2, right: IVec2, dimensions: UVec2) -> Seq<IVec2> {
    let (first, last) = columns_inside(left.x as int, right.x as int, dimensions);
    if first <= last {
        shallow_candidates(left, right, first, (last - first + 1) as nat).filter(inside(dimensions))
    } else {
        Seq::empty()
    }
}

/// Whether the line between the two points, `left.x < right.x`, has a slope
/// of magnitude above one.
pub open spec fn is_steep(left: IVec2, right: IVec2) -> bool {
    vstd::math::abs(right.y - left.y) > right.x - left.x
}

/// The two points ordered by `x`, the first given first where they tie.
pub open spec fn by_column(p: IVec2, q: IVec2) -> (IVec2, IVec2) {
    if p.x > q.x {
        (q, p)
    } else {
        (p, q)
    }
}

/// The two points ordered by `y`, the first given first where they tie.
pub open spec fn by_row(p: IVec2, q: IVec2) -> (IVec2, IVec2) {
    if p.y > q.y {
        (q, p)
    } else {
        (p, q)
    }
}

/// The cells of a grid that the line between the two points covers, in the
/// order in which they are shaded. A vertical line covers its column in the
/// rows between its ends. Any other line is walked from its left end: along
/// the rows if it is steep, along the columns if not, and the candidates that
/// fall outside the grid are left out.
pub open spec fn line_pixels(start: IVec2, end: IVec2, dimensions: UVec2) -> Seq<IVec2> {
    if start.x == end.x {
        let (low, high) = by_row(start, end);
        vertical_pixels(start.x as int, low.y as int, high.y as int, dimensions)
    } else {
        let (left, right) = by_column(start, end);
        if is_steep(left, right) {
            let (low, high) = by_row(left, right);
            steep_pixels(low, high, dimensions)
        } else {
            shallow_pixels(left, right, dimensions)
        }
    }
}

/// The three corners by increasing `y`, corners of equal `y` in the order
/// given.
pub open spec fn sorted_by_row(a: IVec2, b: IVec2, c: IVec2) -> (IVec2, IVec2, IVec2) {
    if a.y <= b.y {
        if b.y <= c.y {
            (a, b, c)
        } else if a.y <= c.y {
            (a, c, b)
        } else {
            (c, a, b)
        }
    } else {
        if a.y <= c.y {
            (b, a, c)
        } else if b.y <= c.y {
            (b, c, a)
        } else {
            (c, b, a)
        }
    }
}

/// The point at which the horizontal cut through the middle corner meets the
/// long side of a triangle whose corners are given by increasing row.
pub open spec fn split_point(v0: IVec2, v1: IVec2, v2: IVec2) -> IVec2 {
    IVec2 { x: edge_x(v0, v2, v1.y as int) as i32, y: v1.y }
}

/// Whether the flat-based triangle with base ends `a` and `b` and the given
/// apex covers column `x` of row `y`.
pub open spec fn flat_covers(a: IVec2, b: IVec2, apex: IVec2, x: int, y: int) -> bool {
    let (lo, hi) = flat_span(a, b, apex, y);
    &&& vstd::math::min(a.y as int, apex.y as int) <= y <= vstd::math::max(a.y as int, apex.y as int)
    &&& lo <= x <= hi
}

/// Whether the triangle with the three corners covers column `x` of row `y`:
/// one of the two parts into which the cut through its middle corner divides
/// it does.
pub open spec fn triangle_covers(a: IVec2, b: IVec2, c: IVec2, x: int, y: int) -> bool {
    let (v0, v1, v2) = sorted_by_row(a, b, c);
    let split = split_point(v0, v1, v2);
    ||| v2.y != v1.y && flat_covers(v1, split, v2, x, y)
    ||| v0.y != v1.y && flat_covers(v1, split, v0, x, y)
}

/// The last row of the part of a triangle toward its least row, the corners
/// given by increasing row: the row above the cut where there is a part
/// toward the greatest row, which takes the cut, and the cut itself where
/// there is none.
pub open spec fn lower_part_end(v1: IVec2, v2: IVec2) -> int {
    if v2.y != v1.y {
        v1.y - 1
    } else {
        v1.y as int
    }
}

/// The cells of a grid that a triangle covers, in the order in which they are
/// shaded: by increasing row, and in each row by increasing column, every
/// cell once. The triangle is cut at the row of its middle corner into the
/// part toward the least row, which comes first, and the part toward the
/// greatest row, to which the row of the cut belongs. Three corners in one
/// row cover nothing.
pub open spec fn triangle_pixels(v: [IVec2; 3], dimensions: UVec2) -> Seq<IVec2> {
    let (v0, v1, v2) = sorted_by_row(v[0], v[1], v[2]);
    let split = split_point(v0, v1, v2);
    let lower = if v0.y != v1.y {
        flat_part_pixels(v1, split, v0, v0.y as int, lower_part_end(v1, v2), dimensions)
    } else {
        Seq::empty()
    };
    let upper = if v2.y != v1.y {
        flat_part_pixels(v1, split, v2, v1.y as int, v2.y as int, dimensions)
    } else {
        Seq::empty()
    };
    lower + upper
}

/// Computes [`edge_x`] for a row between the anchor and the apex.
pub(crate) fn edge_column(anchor: IVec2, apex: IVec2, y: i32) -> (x: i32)
    requires
        anchor.y != apex.y,
        anchor.y <= y <= apex.y || apex.y <= y <= anchor.y,
    ensures
        x == edge_x(anchor, apex, y as int),
        anchor.x <= x <= apex.x || apex.x <= x <= anchor.x,
{
    let t: i64 = if y >= anchor.y {
        y as i64 - anchor.y as i64
    } else {
        anchor.y as i64 - y as i64
    };
    let d: i64 = if apex.y >= anchor.y {
        apex.y as i64 - anchor.y as i64
    } else {
        anchor.y as i64 - apex.y as i64
    };
    step_toward_exec(anchor.x, apex.x, t, d)
}

/// The three corners by increasing row, ties in the order given.
pub(crate) fn sort_by_row(a: IVec2, b: IVec2, c: IVec2) -> (s: (IVec2, IVec2, IVec2))
    ensures
        s == sorted_by_row(a, b, c),
{
    if a.y <= b.y {
        if b.y <= c.y {
            (a, b, c)
        } else if a.y <= c.y {
            (a, c, b)
        } else {
            (c, a, b)
        }
    } else {
        if a.y <= c.y {
            (b, a, c)
        } else if b.y <= c.y {
            (b, c, a)
        } else {
            (c, b, a)
        }
    }
}

/// Every pixel of the sequence lies in a grid of the given extent.
pub open spec fn all_inside(pixels: Seq<IVec2>, dimensions: UVec2) -> bool {
    forall|i: int| 0 <= i < pixels.len() ==> inside(dimensions)(#[trigger] pixels[i])
}

/// Whatever buffer it is shown, the shader returns for each position what
/// `by_position` says.
pub open spec fn shades_by_position<F: Fn(IVec2, &CharBuffer) -> Shade>(
    shading: F,
    by_position: spec_fn(IVec2) -> Shade,
) -> bool {
    forall|pos: IVec2, buffer: CharBuffer, shade: Shade| #[trigger]
        call_ensures(shading, (pos, &buffer), shade) ==> shade == by_position(pos)
}

/// Shading keeps the grid's shape, and changes no cell but those shaded.
pub proof fn lemma_shaded_frame<F: Fn(IVec2, &CharBuffer) -> Shade>(
    shading: F,
    pixels: Seq<IVec2>,
    before: CharBufferView,
    after: CharBufferView,
)
    requires
        before.wf(),
        all_inside(pixels, before.dimensions),
        shaded(shading, pixels, before, after),
    ensures
        after.wf(),
        after.dimensions == before.dimensions,
        forall|p: IVec2| inside(before.dimensions)(p) && !pixels.contains(p) ==> #[trigger] after.at(p) == before.at(p),
        forall|x: int, y: int|
            before.contains(x, y) && (x > i32::MAX || y > i32::MAX) ==> #[trigger] after.cells[y][x]
                == before.cells[y][x],
    decreases pixels.len(),
{
    if pixels.len() > 0 {
        let (seen, shade) = choose|seen: CharBuffer, shade: Shade|
            {
                &&& seen.wf()
                &&& shaded(shading, pixels.drop_last(), before, seen@)
                &&& #[trigger] call_ensures(shading, (pixels.last(), &seen), shade)
                &&& after == seen@.with_cell(pixels.last().x as int, pixels.last().y as int, shade.0, shade.1)
            };
        let rest = pixels.drop_last();
        let p = pixels.last();
        assert forall|i: int| 0 <= i < rest.len() implies inside(before.dimensions)(#[trigger] rest[i]) by {
            assert(rest[i] == pixels[i]);
        }
        lemma_shaded_frame(shading, rest, before, seen@);
        assert(inside(before.dimensions)(pixels[pixels.len() - 1]));
        assert forall|q: IVec2| inside(before.dimensions)(q) && !pixels.contains(q) implies #[trigger] after.at(q)
            == before.at(q) by {
            assert(pixels[pixels.len() - 1] == p);
            assert(seen@.at(q) == seen@.cells[q.y as int][q.x as int]);
            if rest.contains(q) {
                let i = choose|i: int| 0 <= i < rest.len() && rest[i] == q;
                assert(pixels[i] == q);
            }
        }
    }
}

/// Where the shader goes by the position alone, shading paints exactly the
/// cells of the pixels with what the shader returns for them, however often
/// a pixel comes, and leaves the others as they were.
pub proof fn lemma_shaded_by_position<F: Fn(IVec2, &CharBuffer) -> Shade>(
    shading: F,
    by_position: spec_fn(IVec2) -> Shade,
    pixels: Seq<IVec2>,
    before: CharBufferView,
    after: CharBufferView,
)
    requires
        before.wf(),
        all_inside(pixels, before.dimensions),
        shades_by_position(shading, by_position),
        shaded(shading, pixels, before, after),
    ensures
        after.wf(),
        after.dimensions == before.dimensions,
        forall|p: IVec2|
            inside(before.dimensions)(p) ==> #[trigger] after.at(p) == if pixels.contains(p) {
                painted(before.at(p), by_position(p).0, by_position(p).1)
            } else {
                before.at(p)
            },
    decreases pixels.len(),
{
    if pixels.len() > 0 {
        let (seen, shade) = choose|seen: CharBuffer, shade: Shade|
            {
                &&& seen.wf()
                &&& shaded(shading, pixels.drop_last(), before, seen@)
                &&& #[trigger] call_ensures(shading, (pixels.last(), &seen), shade)
                &&& after == seen@.with_cell(pixels.last().x as int, pixels.last().y as int, shade.0, shade.1)
            };
        let rest = pixels.drop_last();
        let last = pixels.last();
        assert forall|i: int| 0 <= i < rest.len() implies inside(before.dimensions)(#[trigger] rest[i]) by {
            assert(rest[i] == pixels[i]);
        }
        lemma_shaded_by_position(shading, by_position, rest, before, seen@);
        assert(inside(before.dimensions)(pixels[pixels.len() - 1]));
        assert(shade == by_position(last));
        assert forall|p: IVec2| inside(before.dimensions)(p) implies #[trigger] after.at(p) == if pixels.contains(p) {
            painted(before.at(p), by_position(p).0, by_position(p).1)
        } else {
            before.at(p)
        } by {
            assert(pixels[pixels.len() - 1] == last);
            assert(seen@.at(p) == seen@.cells[p.y as int][p.x as int]);
            if rest.contains(p) {
                let i = choose|i: int| 0 <= i < rest.len() && rest[i] == p;
                assert(pixels[i] == p);
            }
            if pixels.contains(p) && p != last {
                let i = choose|i: int| 0 <= i < pixels.len() && pixels[i] == p;
                assert(rest[i] == p);
            }
        }
    }
}

/// The shader goes by the position and by what the cell there shows: for
/// each cell of a well-formed buffer it returns what `by_cell` says of the
/// position and the cell.
pub open spec fn shades_by_cell<F: Fn(IVec2, &CharBuffer) -> Shade>(
    shading: F,
    by_cell: spec_fn(IVec2, Cell) -> Shade,
) -> bool {
    forall|pos: IVec2, buffer: CharBuffer, shade: Shade|
        buffer.wf() && buffer.valid_point(pos) && #[trigger] call_ensures(shading, (pos, &buffer), shade) ==> shade
            == by_cell(pos, buffer@.at(pos))
}

/// Where the shader goes by the position and the cell there, and no pixel
/// comes twice, shading paints every pixel with what the shader returns for
/// the cell as it was before, and leaves the other cells as they were.
pub proof fn lemma_shaded_by_cell<F: Fn(IVec2, &CharBuffer) -> Shade>(
    shading: F,
    by_cell: spec_fn(IVec2, Cell) -> Shade,
    pixels: Seq<IVec2>,
    before: CharBufferView,
    after: CharBufferView,
)
    requires
        before.wf(),
        all_inside(pixels, before.dimensions),
        pixels.no_duplicates(),
        shades_by_cell(shading, by_cell),
        shaded(shading, pixels, before, after),
    ensures
        after.wf(),
        after.dimensions == before.dimensions,
        forall|p: IVec2|
            inside(before.dimensions)(p) ==> #[trigger] after.at(p) == if pixels.contains(p) {
                painted(before.at(p), by_cell(p, before.at(p)).0, by_cell(p, before.at(p)).1)
            } else {
                before.at(p)
            },
    decreases pixels.len(),
{
    if pixels.len() > 0 {
        let (seen, shade) = choose|seen: CharBuffer, shade: Shade|
            {
                &&& seen.wf()
                &&& shaded(shading, pixels.drop_last(), before, seen@)
                &&& #[trigger] call_ensures(shading, (pixels.last(), &seen), shade)
                &&& after == seen@.with_cell(pixels.last().x as int, pixels.last().y as int, shade.0, shade.1)
            };
        let rest = pixels.drop_last();
        let last = pixels.last();
        assert forall|i: int| 0 <= i < rest.len() implies inside(before.dimensions)(#[trigger] rest[i]) by {
            assert(rest[i] == pixels[i]);
        }
        assert forall|i: int, j: int| 0 <= i < rest.len() && 0 <= j < rest.len() && i != j implies rest[i]
            != rest[j] by {
            assert(rest[i] == pixels[i] && rest[j] == pixels[j]);
        }
        lemma_shaded_by_cell(shading, by_cell, rest, before, seen@);
        assert(inside(before.dimensions)(pixels[pixels.len() - 1]));
        assert(pixels[pixels.len() - 1] == last);
        if rest.contains(last) {
            let i = choose|i: int| 0 <= i < rest.len() && rest[i] == last;
            assert(pixels[i] == pixels[pixels.len() - 1]);
        }
        assert(seen@.at(last) == before.at(last));
        assert(seen.valid_point(last));
        assert(shade == by_cell(last, before.at(last)));
        assert forall|p: IVec2| inside(before.dimensions)(p) implies #[trigger] after.at(p) == if pixels.contains(p) {
            painted(before.at(p), by_cell(p, before.at(p)).0, by_cell(p, before.at(p)).1)
        } else {
            before.at(p)
        } by {
            assert(seen@.at(p) == seen@.cells[p.y as int][p.x as int]);
            if rest.contains(p) {
                let i = choose|i: int| 0 <= i < rest.len() && rest[i] == p;
                assert(pixels[i] == p);
            }
            if pixels.contains(p) && p != last {
                let i = choose|i: int| 0 <= i < pixels.len() && pixels[i] == p;
                assert(rest[i] == p);
            }
        }
    }
}

impl CharBuffer {
    /// Shades one cell of the buffer, extending the trace of pixels shaded so
    /// far.
    fn shade_point<F: Fn(IVec2, &CharBuffer) -> Shade>(
        &mut self,
        pos: IVec2,
        shading: &F,
        Ghost(before): Ghost<CharBufferView>,
        Ghost(done): Ghost<Seq<IVec2>>,
    )
        requires
            old(self).wf(),
            old(self).valid_point(pos),
            shader_total(*shading, old(self)@.dimensions),
            shaded(*shading, done, before, old(self)@),
        ensures
            final(self).wf(),
            final(self)@.dimensions == old(self)@.dimensions,
            shaded(*shading, done.push(pos), before, final(self)@),
    {
        let shade = shading(pos, &*self);
        let ghost seen = *self;
        let written = self.set_char(UVec2 { x: pos.x as u32, y: pos.y as u32 }, shade.0, shade.1);
        proof {
            assert(written is Ok);
            assert(done.push(pos).drop_last() =~= done);
            assert(done.push(pos).last() == pos);
            assert(call_ensures(*shading, (pos, &seen), shade));
        }
    }

    /// Draws the vertical line from `start_point` to `end_point`, which share
    /// their `x`: every cell of that column between the two that lies in the
    /// buffer is shaded, by increasing row. Cells outside the buffer are
    /// skipped, so a column beside the buffer draws nothing.
    fn draw_vertical_line<F: Fn(IVec2, &CharBuffer) -> Shade>(
        &mut self,
        start_point: IVec2,
        end_point: IVec2,
        shading: &F,
    ) -> (result: Result<(), DrawError>)
        requires
            old(self).wf(),
            start_point.x == end_point.x,
            shader_total(*shading, old(self)@.dimensions),
        ensures
            final(self).wf(),
            final(self)@.dimensions == old(self)@.dimensions,
            shaded(
                *shading,
                vertical_pixels(
                    start_point.x as int,
                    vstd::math::min(start_point.y as int, end_point.y as int),
                    vstd::math::max(start_point.y as int, end_point.y as int),
                    old(self)@.dimensions,
                ),
                old(self)@,
                final(self)@,
            ),
            result == Ok::<(), DrawError>(()),
    {
        let ghost before = self@;
        let ghost dimensions = self@.dimensions;
        let (low, high) = if start_point.y > end_point.y {
            (end_point, start_point)
        } else {
            (start_point, end_point)
        };
        let x: i32 = low.x;
        let height: i64 = self.dimensions().y as i64;
        let first: i64 = if low.y > 0 {
            low.y as i64
        } else {
            0
        };
        let last: i64 = if (high.y as i64) < height - 1 {
            high.y as i64
        } else {
            height - 1
        };
        let column_inside: bool = x >= 0 && (x as i64) < self.dimensions().x as i64;
        let mut y: i64 = first;
        while y <= last
            invariant
                self.wf(),
                self@.dimensions == dimensions,
                shader_total(*shading, dimensions),
                0 <= first <= y,
                y <= last + 1 || y == first,
                last <= dimensions.y - 1,
                last <= high.y,
                column_inside == (0 <= x < dimensions.x),
                column_inside ==> shaded(
                    *shading,
                    Seq::new((y - first) as nat, |i: int| IVec2 { x: x as i32, y: (first + i) as i32 }),
                    before,
                    self@,
                ),
                !column_inside ==> self@ == before,
            decreases last + 1 - y,
        {
            let point = IVec2 { x, y: y as i32 };
            if self.is_valid_point(point) {
                let ghost done = Seq::new((y - first) as nat, |i: int| IVec2 { x: x as i32, y: (first + i) as i32 });
                self.shade_point(point, shading, Ghost(before), Ghost(done));
                assert(done.push(point) =~= Seq::new(
                    (y + 1 - first) as nat,
                    |i: int| IVec2 { x: x as i32, y: (first + i) as i32 },
                ));
            }
            y = y + 1;
        }
        Ok(())
    }

    /// Shades the cells of row `y` in columns `lo..=hi` that lie in the
    /// buffer, by increasing column.
    fn draw_span<F: Fn(IVec2, &CharBuffer) -> Shade>(&mut self, y: i32, lo: i32, hi: i32, shading: &F)
        requires
            old(self).wf(),
            0 <= y < old(self)@.dimensions.y,
            shader_total(*shading, old(self)@.dimensions),
        ensures
            final(self).wf(),
            final(self)@.dimensions == old(self)@.dimensions,
            shaded(*shading, span_pixels(y as int, lo as int, hi as int, old(self)@.dimensions), old(self)@, final(self)@),
    {
        let ghost before = self@;
        let ghost dimensions = self@.dimensions;
        let width: i64 = self.dimensions().x as i64;
        let first: i64 = if lo > 0 {
            lo as i64
        } else {
            0
        };
        let last: i64 = if (hi as i64) < width - 1 {
            hi as i64
        } else {
            width - 1
        };
        let mut x: i64 = first;
        while x <= last
            invariant
                self.wf(),
                self@.dimensions == dimensions,
                shader_total(*shading, dimensions),
                0 <= y < dimensions.y,
                0 <= first <= x,
                x <= last + 1 || x == first,
                last <= dimensions.x - 1,
                last <= hi,
                shaded(
                    *shading,
                    Seq::new((x - first) as nat, |i: int| IVec2 { x: (first + i) as i32, y: y as i32 }),
                    before,
                    self@,
                ),
            decreases last + 1 - x,
        {
            let point = IVec2 { x: x as i32, y };
            let ghost done = Seq::new((x - first) as nat, |i: int| IVec2 { x: (first + i) as i32, y: y as i32 });
            self.shade_point(point, shading, Ghost(before), Ghost(done));
            assert(done.push(point) =~= Seq::new(
                (x + 1 - first) as nat,
                |i: int| IVec2 { x: (first + i) as i32, y: y as i32 },
            ));
            x = x + 1;
        }
    }

    /// Shades the rows `top..=bottom` of a flat-based triangle: `a` and `b`
    /// are the ends of its horizontal base, `apex` the corner above or below
    /// it.
    fn draw_flat_triangle<F: Fn(IVec2, &CharBuffer) -> Shade>(
        &mut self,
        a: IVec2,
        b: IVec2,
        apex: IVec2,
        top: i64,
        bottom: i64,
        shading: &F,
    )
        requires
            old(self).wf(),
            a.y == b.y,
            a.y != apex.y,
            vstd::math::min(a.y as int, apex.y as int) <= top,
            bottom <= vstd::math::max(a.y as int, apex.y as int),
            shader_total(*shading, old(self)@.dimensions),
        ensures
            final(self).wf(),
            final(self)@.dimensions == old(self)@.dimensions,
            shaded(
                *shading,
                flat_part_pixels(a, b, apex, top as int, bottom as int, old(self)@.dimensions),
                old(self)@,
                final(self)@,
            ),
    {
        let ghost before = self@;
        let ghost dimensions = self@.dimensions;
        let height: i64 = self.dimensions().y as i64;
        let first: i64 = if top > 0 {
            top
        } else {
            0
        };
        let last: i64 = if bottom < height - 1 {
            bottom
        } else {
            height - 1
        };
        let mut y: i64 = first;
        while y <= last
            invariant
                self.wf(),
                self@.dimensions == dimensions,
                shader_total(*shading, dimensions),
                a.y == b.y,
                a.y != apex.y,
                vstd::math::min(a.y as int, apex.y as int) <= top,
                bottom <= vstd::math::max(a.y as int, apex.y as int),
                0 <= first <= y,
                top <= first,
                y <= last + 1 || y == first,
                last <= dimensions.y - 1,
                last <= bottom,
                shaded(*shading, flat_rows_pixels(a, b, apex, first as int, (y - first) as nat, dimensions), before, self@),
            decreases last + 1 - y,
        {
            let row: i32 = y as i32;
            let xa: i32 = edge_column(a, apex, row);
            let xb: i32 = edge_column(b, apex, row);
            let (lo, hi) = if xa <= xb {
                (xa, xb)
            } else {
                (xb, xa)
            };
            let ghost between = self@;
            self.draw_span(row, lo, hi, shading);
            proof {
                let done = flat_rows_pixels(a, b, apex, first as int, (y - first) as nat, dimensions);
                lemma_shaded_concat(
                    *shading,
                    done,
                    span_pixels(y as int, lo as int, hi as int, dimensions),
                    before,
                    between,
                    self@,
                );
                assert(flat_span(a, b, apex, y as int) == (lo as int, hi as int));
                assert(flat_rows_pixels(a, b, apex, first as int, (y + 1 - first) as nat, dimensions) == done
                    + span_pixels(y as int, lo as int, hi as int, dimensions));
            }
            y = y + 1;
        }
    }

    /// Shades the part of a triangle toward the greater rows, from the row of
    /// its horizontal cut on: `verticies[0]` and `verticies[1]` are the ends
    /// of the cut, `verticies[2]` the corner with the greatest row.
    fn draw_top_triangle<F: Fn(IVec2, &CharBuffer) -> Shade>(&mut self, verticies: [IVec2; 3], shading: &F) -> (result:
        Result<(), DrawError>)
        requires
            old(self).wf(),
            verticies[0].y == verticies[1].y,
            verticies[1].y < verticies[2].y,
            shader_total(*shading, old(self)@.dimensions),
        ensures
            final(self).wf(),
            final(self)@.dimensions == old(self)@.dimensions,
            shaded(
                *shading,
                flat_part_pixels(
                    verticies[1],
                    verticies[0],
                    verticies[2],
                    verticies[1].y as int,
                    verticies[2].y as int,
                    old(self)@.dimensions,
                ),
                old(self)@,
                final(self)@,
            ),
            result == Ok::<(), DrawError>(()),
    {
        self.draw_flat_triangle(
            verticies[1],
            verticies[0],
            verticies[2],
            verticies[1].y as i64,
            verticies[2].y as i64,
            shading,
        );
        Ok(())
    }

    /// Shades the part of a triangle toward the lesser rows: `verticies[0]` is
    /// the corner with the least row, `verticies[1]` and `verticies[2]` are
    /// the ends of the horizontal cut. The row of the cut is shaded with this
    /// part only where `through_cut` says so; otherwise it is left to the
    /// other part.
    fn draw_bottom_triangle<F: Fn(IVec2, &CharBuffer) -> Shade>(
        &mut self,
        verticies: [IVec2; 3],
        through_cut: bool,
        shading: &F,
    ) -> (result: Result<(), DrawError>)
        requires
            old(self).wf(),
            verticies[1].y == verticies[2].y,
            verticies[0].y < verticies[1].y,
            shader_total(*shading, old(self)@.dimensions),
        ensures
            final(self).wf(),
            final(self)@.dimensions == old(self)@.dimensions,
            shaded(
                *shading,
                flat_part_pixels(
                    verticies[1],
                    verticies[2],
                    verticies[0],
                    verticies[0].y as int,
                    if through_cut {
                        verticies[1].y as int
                    } else {
                        verticies[1].y - 1
                    },
                    old(self)@.dimensions,
                ),
                old(self)@,
                final(self)@,
            ),
            result == Ok::<(), DrawError>(()),
    {
        let end: i64 = if through_cut {
            verticies[1].y as i64
        } else {
            verticies[1].y as i64 - 1
        };
        self.draw_flat_triangle(verticies[1], verticies[2], verticies[0], verticies[0].y as i64, end, shading);
        Ok(())
    }

    /// Shades the steep line from `low` up to `high`, one candidate per row.
    fn draw_steep_line<F: Fn(IVec2, &CharBuffer) -> Shade>(&mut self, low: IVec2, high: IVec2, shading: &F) -> (result:
        Result<(), DrawError>)
        requires
            old(self).wf(),
            low.y < high.y,
            shader_total(*shading, old(self)@.dimensions),
        ensures
            final(self).wf(),
            final(self)@.dimensions == old(self)@.dimensions,
            shaded(*shading, steep_pixels(low, high, old(self)@.dimensions), old(self)@, final(self)@),
            result == Ok::<(), DrawError>(()),
    {
        let ghost before = self@;
        let ghost dimensions = self@.dimensions;
        let height: i64 = self.dimensions().y as i64;
        let d: i64 = high.y as i64 - low.y as i64;
        let first: i64 = if low.y > 0 {
            low.y as i64
        } else {
            0
        };
        let last: i64 = if (high.y as i64) < height - 1 {
            high.y as i64
        } else {
            height - 1
        };
        proof {
            assert(steep_candidates(low, high, first as int, 0).filter(inside(dimensions)) =~= Seq::empty()) by {
                reveal(Seq::filter);
            }
        }
        let mut y: i64 = first;
        while y <= last
            invariant
                self.wf(),
                self@.dimensions == dimensions,
                shader_total(*shading, dimensions),
                d == high.y - low.y,
                0 < d,
                low.y <= first <= y,
                0 <= first,
                y <= last + 1 || y == first,
                last <= high.y,
                shaded(
                    *shading,
                    steep_candidates(low, high, first as int, (y - first) as nat).filter(inside(dimensions)),
                    before,
                    self@,
                ),
            decreases last + 1 - y,
        {
            let x: i32 = blend_toward_exec(low.x, high.x, y - low.y as i64, d);
            let point = IVec2 { x, y: y as i32 };
            proof {
                let seen = steep_candidates(low, high, first as int, (y - first) as nat);
                assert(point == steep_point(low, high, y as int));
                assert(steep_candidates(low, high, first as int, (y + 1 - first) as nat) =~= seen.push(point));
                seen.lemma_filter_push(point, inside(dimensions));
            }
            if self.is_valid_point(point) {
                self.shade_point(
                    point,
                    shading,
                    Ghost(before),
                    Ghost(steep_candidates(low, high, first as int, (y - first) as nat).filter(inside(dimensions))),
                );
            }
            y = y + 1;
        }
        Ok(())
    }

    /// Shades the shallow line from `left` to `right`, one candidate per
    /// column.
    fn draw_shallow_line<F: Fn(IVec2, &CharBuffer) -> Shade>(
        &mut self,
        left: IVec2,
        right: IVec2,
        shading: &F,
    ) -> (result: Result<(), DrawError>)
        requires
            old(self).wf(),
            left.x < right.x,
            shader_total(*shading, old(self)@.dimensions),
        ensures
            final(self).wf(),
            final(self)@.dimensions == old(self)@.dimensions,
            shaded(*shading, shallow_pixels(left, right, old(self)@.dimensions), old(self)@, final(self)@),
            result == Ok::<(), DrawError>(()),
    {
        let ghost before = self@;
        let ghost dimensions = self@.dimensions;
        let width: i64 = self.dimensions().x as i64;
        let d: i64 = right.x as i64 - left.x as i64;
        let first: i64 = if left.x > 0 {
            left.x as i64
        } else {
            0
        };
        let last: i64 = if (right.x as i64) < width - 1 {
            right.x as i64
        } else {
            width - 1
        };
        proof {
            assert(shallow_candidates(left, right, first as int, 0).filter(inside(dimensions)) =~= Seq::empty()) by {
                reveal(Seq::filter);
            }
        }
        let mut x: i64 = first;
        while x <= last
            invariant
                self.wf(),
                self@.dimensions == dimensions,
                shader_total(*shading, dimensions),
                d == right.x - left.x,
                0 < d,
                left.x <= first <= x,
                0 <= first,
                x <= last + 1 || x == first,
                last <= right.x,
                shaded(
                    *shading,
                    shallow_candidates(left, right, first as int, (x - first) as nat).filter(inside(dimensions)),
                    before,
                    self@,
                ),
            decreases last + 1 - x,
        {
            let y: i32 = blend_toward_exec(left.y, right.y, x - left.x as i64, d);
            let point = IVec2 { x: x as i32, y };
            proof {
                let seen = shallow_candidates(left, right, first as int, (x - first) as nat);
                assert(point == shallow_point(left, right, x as int));
                assert(shallow_candidates(left, right, first as int, (x + 1 - first) as nat) =~= seen.push(point));
                seen.lemma_filter_push(point, inside(dimensions));
            }
            if self.is_valid_point(point) {
                self.shade_point(
                    point,
                    shading,
                    Ghost(before),
                    Ghost(shallow_candidates(left, right, first as int, (x - first) as nat).filter(inside(dimensions))),
                );
            }
            x = x + 1;
        }
        Ok(())
    }

    /// Draws the line between the two points, asking `shading` once for every
    /// cell of the line that lies in the buffer, in the order of
    /// [`line_pixels`]. Cells outside the buffer are skipped. A write to a
    /// cell inside the buffer cannot fail, so the line always succeeds.
    pub fn draw_line<F: Fn(IVec2, &CharBuffer) -> Shade>(
        &mut self,
        start_point: IVec2,
        end_point: IVec2,
        shading: F,
    ) -> (result: Result<(), DrawError>)
        requires
            old(self).wf(),
            shader_total(shading, old(self)@.dimensions),
        ensures
            final(self).wf(),
            final(self)@.dimensions == old(self)@.dimensions,
            shaded(shading, line_pixels(start_point, end_point, old(self)@.dimensions), old(self)@, final(self)@),
            line_pixels(start_point, end_point, old(self)@.dimensions).len() == 0 ==> final(self)@ == old(self)@,
            result == Ok::<(), DrawError>(()),
    {
        if start_point.x == end_point.x {
            return self.draw_vertical_line(start_point, end_point, &shading);
        }
        let (left, right) = if start_point.x > end_point.x {
            (end_point, start_point)
        } else {
            (start_point, end_point)
        };
        let run: i64 = right.x as i64 - left.x as i64;
        let rise: i64 = if right.y >= left.y {
            right.y as i64 - left.y as i64
        } else {
            left.y as i64 - right.y as i64
        };
        if rise > run {
            let (low, high) = if left.y > right.y {
                (right, left)
            } else {
                (left, right)
            };
            return self.draw_steep_line(low, high, &shading);
        }
        self.draw_shallow_line(left, right, &shading)
    }

    /// Fills the triangle with the three corners, asking `shading` once for
    /// every cell that the triangle covers in the buffer, by increasing row
    /// and in each row by increasing column, as [`triangle_pixels`] lists
    /// them. Cells outside the buffer are skipped; three corners in one row
    /// draw nothing.
    pub fn draw_triangle<F: Fn(IVec2, &CharBuffer) -> Shade>(&mut self, verticies: [IVec2; 3], shading: F) -> (result:
        Result<(), DrawError>)
        requires
            old(self).wf(),
            shader_total(shading, old(self)@.dimensions),
        ensures
            final(self).wf(),
            final(self)@.dimensions == old(self)@.dimensions,
            shaded(shading, triangle_pixels(verticies, old(self)@.dimensions), old(self)@, final(self)@),
            triangle_pixels(verticies, old(self)@.dimensions).len() == 0 ==> final(self)@ == old(self)@,
            result == Ok::<(), DrawError>(()),
    {
        let ghost before = self@;
        let ghost dimensions = self@.dimensions;
        let (v0, v1, v2) = sort_by_row(verticies[0], verticies[1], verticies[2]);
        let top_triangle: bool = v2.y != v1.y;
        let bottom_triangle: bool = v0.y != v1.y;
        if !top_triangle && !bottom_triangle {
            assert(triangle_pixels(verticies, dimensions) =~= Seq::empty());
            return Ok(());
        }
        let midpoint = IVec2 { x: edge_column(v0, v2, v1.y), y: v1.y };
        let ghost lower = if bottom_triangle {
            flat_part_pixels(v1, midpoint, v0, v0.y as int, lower_part_end(v1, v2), dimensions)
        } else {
            Seq::empty()
        };
        let ghost upper = if top_triangle {
            flat_part_pixels(v1, midpoint, v2, v1.y as int, v2.y as int, dimensions)
        } else {
            Seq::empty()
        };
        if bottom_triangle {
            self.draw_bottom_triangle([v0, v1, midpoint], !top_triangle, &shading)?;
        }
        let ghost between = self@;
        if top_triangle {
            self.draw_top_triangle([midpoint, v1, v2], &shading)?;
        }
        proof {
            lemma_shaded_concat(shading, lower, upper, before, between, self@);
        }
        Ok(())
    }
}

} // verus!
