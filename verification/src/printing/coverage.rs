//! Which cells lines and triangles cover: facts about the pixel sequences
//! that the drawing operations shade.

use crate::geometry::{blend_toward, lemma_trunc_div_between, IVec2, UVec2};
use crate::printing::drawing::{
    all_inside, by_column, by_row, columns_inside, edge_x, flat_covers, flat_part_pixels, flat_rows_pixels, flat_span, inside,
    is_steep, line_pixels, lower_part_end, rows_inside, shallow_candidates, steep_candidates, sorted_by_row, span_pixels, split_point, triangle_covers, triangle_pixels,
};
use vstd::prelude::*;

verus! {

/// An element is in two sequences joined exactly when it is in one of them.
pub proof fn lemma_concat_contains<A>(first: Seq<A>, second: Seq<A>, a: A)
    ensures
        (first + second).contains(a) <==> first.contains(a) || second.contains(a),
{
    let joined = first + second;
    if joined.contains(a) {
        let i = choose|i: int| 0 <= i < joined.len() && joined[i] == a;
        if i < first.len() {
            assert(first[i] == a);
        } else {
            assert(second[i - first.len()] == a);
        }
    }
    if first.contains(a) {
        let i = choose|i: int| 0 <= i < first.len() && first[i] == a;
        assert(joined[i] == a);
    }
    if second.contains(a) {
        let i = choose|i: int| 0 <= i < second.len() && second[i] == a;
        assert(joined[first.len() + i] == a);
    }
}

/// Between its two ends an edge stays between their columns.
pub proof fn lemma_edge_x_between(anchor: IVec2, apex: IVec2, y: int)
    requires
        anchor.y != apex.y,
        anchor.y <= y <= apex.y || apex.y <= y <= anchor.y,
    ensures
        anchor.x <= edge_x(anchor, apex, y) <= apex.x || apex.x <= edge_x(anchor, apex, y) <= anchor.x,
{
    let delta: int = apex.x - anchor.x;
    let t: int = vstd::math::abs(y - anchor.y) as int;
    let d: int = vstd::math::abs(apex.y - anchor.y) as int;
    assert(if delta >= 0 {
        0 <= delta * t <= delta * d
    } else {
        delta * d <= delta * t <= 0
    }) by (nonlinear_arith)
        requires
            0 <= t <= d,
    ;
    if delta >= 0 {
        lemma_trunc_div_between(delta * t, d, 0, delta);
    } else {
        lemma_trunc_div_between(delta * t, d, delta, 0);
    }
}

/// A pixel is among those of a span exactly when it lies in the span's row,
/// between its ends, and in the grid's columns.
pub proof fn lemma_span_pixels_contains(y: int, lo: int, hi: int, dimensions: UVec2, p: IVec2)
    requires
        i32::MIN <= y <= i32::MAX,
        hi <= i32::MAX,
    ensures
        span_pixels(y, lo, hi, dimensions).contains(p) <==> p.y == y && lo <= p.x <= hi && 0 <= p.x < dimensions.x,
{
    let (first, last) = columns_inside(lo, hi, dimensions);
    let span = span_pixels(y, lo, hi, dimensions);
    if span.contains(p) {
        let i = choose|i: int| 0 <= i < span.len() && span[i] == p;
        assert(p.x == first + i);
    }
    if p.y == y && lo <= p.x <= hi && 0 <= p.x < dimensions.x {
        assert(span[p.x - first] == p);
    }
}

/// A pixel is among those of the first `rows` rows of a flat-based triangle
/// exactly when it lies in one of these rows, between the two sides, and in
/// the grid's columns.
pub proof fn lemma_flat_rows_contains(
    a: IVec2,
    b: IVec2,
    apex: IVec2,
    first: int,
    rows: nat,
    dimensions: UVec2,
    p: IVec2,
)
    requires
        a.y == b.y,
        a.y != apex.y,
        vstd::math::min(a.y as int, apex.y as int) <= first,
        first + rows - 1 <= vstd::math::max(a.y as int, apex.y as int),
    ensures
        flat_rows_pixels(a, b, apex, first, rows, dimensions).contains(p) <==> {
            let (lo, hi) = flat_span(a, b, apex, p.y as int);
            first <= p.y < first + rows && lo <= p.x <= hi && 0 <= p.x < dimensions.x
        },
    decreases rows,
{
    if rows > 0 {
        let y = first + rows - 1;
        let (lo, hi) = flat_span(a, b, apex, y);
        let rest = flat_rows_pixels(a, b, apex, first, (rows - 1) as nat, dimensions);
        lemma_flat_rows_contains(a, b, apex, first, (rows - 1) as nat, dimensions, p);
        lemma_edge_x_between(a, apex, y);
        lemma_edge_x_between(b, apex, y);
        lemma_span_pixels_contains(y, lo, hi, dimensions, p);
        lemma_concat_contains(rest, span_pixels(y, lo, hi, dimensions), p);
    }
}

/// A pixel is among those of the rows `top..=bottom` of a flat-based triangle
/// exactly when it lies in the grid, in one of these rows, and between the
/// two sides.
pub proof fn lemma_flat_part_contains(
    a: IVec2,
    b: IVec2,
    apex: IVec2,
    top: int,
    bottom: int,
    dimensions: UVec2,
    p: IVec2,
)
    requires
        a.y == b.y,
        a.y != apex.y,
        vstd::math::min(a.y as int, apex.y as int) <= top,
        bottom <= vstd::math::max(a.y as int, apex.y as int),
    ensures
        flat_part_pixels(a, b, apex, top, bottom, dimensions).contains(p) <==> {
            let (lo, hi) = flat_span(a, b, apex, p.y as int);
            inside(dimensions)(p) && top <= p.y <= bottom && lo <= p.x <= hi
        },
{
    let (first, last) = rows_inside(top, bottom, dimensions);
    if first <= last {
        lemma_flat_rows_contains(a, b, apex, first, (last - first + 1) as nat, dimensions, p);
    }
}

/// In the row of its anchor an edge is at the anchor's column.
pub proof fn lemma_edge_x_at_anchor(anchor: IVec2, apex: IVec2)
    requires
        anchor.y != apex.y,
    ensures
        edge_x(anchor, apex, anchor.y as int) == anchor.x,
{
    let delta: int = apex.x - anchor.x;
    let d: int = vstd::math::abs(apex.y - anchor.y) as int;
    assert(delta * 0 == 0) by (nonlinear_arith);
    lemma_trunc_div_between(0, d, 0, 0);
}

/// A pixel is among those that drawing a triangle shades exactly when it lies
/// in the grid and the triangle covers it.
pub proof fn lemma_triangle_pixels_contains(v: [IVec2; 3], dimensions: UVec2, p: IVec2)
    ensures
        triangle_pixels(v, dimensions).contains(p) <==> inside(dimensions)(p) && triangle_covers(
            v[0],
            v[1],
            v[2],
            p.x as int,
            p.y as int,
        ),
{
    let (v0, v1, v2) = sorted_by_row(v[0], v[1], v[2]);
    let split = split_point(v0, v1, v2);
    let lower = if v0.y != v1.y {
        flat_part_pixels(v1, split, v0, v0.y as int, lower_part_end(v1, v2), dimensions)
    } else {
        Seq::empty()
    };
    let upper = if v2.y != v1.y {
        flat_part_pixels(v1, split, v2, v1.y as int, v2.y as int, dimensions)
    } else {
        Seq::empty()
    };
    if v0.y != v1.y {
        lemma_flat_part_contains(v1, split, v0, v0.y as int, lower_part_end(v1, v2), dimensions, p);
    }
    if v2.y != v1.y {
        lemma_flat_part_contains(v1, split, v2, v1.y as int, v2.y as int, dimensions, p);
    }
    if v0.y != v1.y && v2.y != v1.y {
        // In the row of the cut both parts span from one end of the cut to
        // the other.
        lemma_edge_x_at_anchor(v1, v0);
        lemma_edge_x_at_anchor(split, v0);
        lemma_edge_x_at_anchor(v1, v2);
        lemma_edge_x_at_anchor(split, v2);
        assert(flat_span(v1, split, v0, v1.y as int) == flat_span(v1, split, v2, v1.y as int));
    }
    lemma_concat_contains(lower, upper, p);
}

/// Two sequences without a repeated element and without a common element
/// join to a sequence without a repeated element.
pub proof fn lemma_concat_no_duplicates<A>(first: Seq<A>, second: Seq<A>)
    requires
        first.no_duplicates(),
        second.no_duplicates(),
        forall|a: A| first.contains(a) ==> !second.contains(a),
    ensures
        (first + second).no_duplicates(),
{
    let joined = first + second;
    assert forall|i: int, j: int| 0 <= i < joined.len() && 0 <= j < joined.len() && i != j implies joined[i]
        != joined[j] by {
        if i < first.len() && j >= first.len() {
            assert(first.contains(first[i]));
            assert(second.contains(second[j - first.len()]));
        } else if j < first.len() && i >= first.len() {
            assert(first.contains(first[j]));
            assert(second.contains(second[i - first.len()]));
        }
    }
}

/// No pixel comes twice among those of the first `rows` rows of a flat-based
/// triangle.
pub proof fn lemma_flat_rows_no_duplicates(
    a: IVec2,
    b: IVec2,
    apex: IVec2,
    first: int,
    rows: nat,
    dimensions: UVec2,
)
    requires
        a.y == b.y,
        a.y != apex.y,
        vstd::math::min(a.y as int, apex.y as int) <= first,
        first + rows - 1 <= vstd::math::max(a.y as int, apex.y as int),
    ensures
        flat_rows_pixels(a, b, apex, first, rows, dimensions).no_duplicates(),
    decreases rows,
{
    if rows > 0 {
        let y = first + rows - 1;
        let (lo, hi) = flat_span(a, b, apex, y);
        let rest = flat_rows_pixels(a, b, apex, first, (rows - 1) as nat, dimensions);
        let span = span_pixels(y, lo, hi, dimensions);
        lemma_flat_rows_no_duplicates(a, b, apex, first, (rows - 1) as nat, dimensions);
        lemma_edge_x_between(a, apex, y);
        lemma_edge_x_between(b, apex, y);
        assert(span.no_duplicates());
        assert forall|p: IVec2| rest.contains(p) implies !span.contains(p) by {
            lemma_flat_rows_contains(a, b, apex, first, (rows - 1) as nat, dimensions, p);
            lemma_span_pixels_contains(y, lo, hi, dimensions, p);
        }
        lemma_concat_no_duplicates(rest, span);
    }
}

/// Drawing a triangle shades no pixel twice: the shader is asked once for
/// every cell that the triangle covers.
pub proof fn lemma_triangle_pixels_no_duplicates(v: [IVec2; 3], dimensions: UVec2)
    ensures
        triangle_pixels(v, dimensions).no_duplicates(),
{
    let (v0, v1, v2) = sorted_by_row(v[0], v[1], v[2]);
    let split = split_point(v0, v1, v2);
    let lower = if v0.y != v1.y {
        flat_part_pixels(v1, split, v0, v0.y as int, lower_part_end(v1, v2), dimensions)
    } else {
        Seq::empty()
    };
    let upper = if v2.y != v1.y {
        flat_part_pixels(v1, split, v2, v1.y as int, v2.y as int, dimensions)
    } else {
        Seq::empty()
    };
    if v0.y != v1.y {
        let (first, last) = rows_inside(v0.y as int, lower_part_end(v1, v2), dimensions);
        if first <= last {
            lemma_flat_rows_no_duplicates(v1, split, v0, first, (last - first + 1) as nat, dimensions);
        }
    }
    if v2.y != v1.y {
        let (first, last) = rows_inside(v1.y as int, v2.y as int, dimensions);
        if first <= last {
            lemma_flat_rows_no_duplicates(v1, split, v2, first, (last - first + 1) as nat, dimensions);
        }
    }
    assert forall|p: IVec2| lower.contains(p) implies !upper.contains(p) by {
        if v0.y != v1.y {
            lemma_flat_part_contains(v1, split, v0, v0.y as int, lower_part_end(v1, v2), dimensions, p);
        }
        if v2.y != v1.y {
            lemma_flat_part_contains(v1, split, v2, v1.y as int, v2.y as int, dimensions, p);
        }
    }
    lemma_concat_no_duplicates(lower, upper);
}

/// Drawing a triangle shades no pixel outside the grid.
pub proof fn lemma_triangle_pixels_inside(v: [IVec2; 3], dimensions: UVec2)
    ensures
        all_inside(triangle_pixels(v, dimensions), dimensions),
{
    let pixels = triangle_pixels(v, dimensions);
    assert forall|i: int| 0 <= i < pixels.len() implies inside(dimensions)(#[trigger] pixels[i]) by {
        assert(pixels.contains(pixels[i]));
        lemma_triangle_pixels_contains(v, dimensions, pixels[i]);
    }
}

/// Three corners in one row make a triangle that covers nothing: drawing it
/// shades no pixel.
pub proof fn lemma_level_triangle_is_empty(v: [IVec2; 3], dimensions: UVec2)
    requires
        v[0].y == v[1].y,
        v[1].y == v[2].y,
    ensures
        triangle_pixels(v, dimensions) == Seq::<IVec2>::empty(),
{
    assert(triangle_pixels(v, dimensions) =~= Seq::<IVec2>::empty());
}

/// The three points lie on one line.
pub open spec fn collinear(a: IVec2, b: IVec2, c: IVec2) -> bool {
    (b.x - a.x) * (c.y - a.y) == (c.x - a.x) * (b.y - a.y)
}

/// Three corners on one line make a triangle that shades no pixel, if the
/// line is level or no cell of the grid lies on what the corners span. On a
/// slanted line the two sides of each part meet in every row, and the cells
/// where they meet are shaded.
pub proof fn lemma_collinear_triangle_is_empty(v: [IVec2; 3], dimensions: UVec2)
    requires
        collinear(v[0], v[1], v[2]),
        (v[0].y == v[1].y && v[1].y == v[2].y) || forall|p: IVec2|
            inside(dimensions)(p) ==> !#[trigger] triangle_covers(v[0], v[1], v[2], p.x as int, p.y as int),
    ensures
        triangle_pixels(v, dimensions) == Seq::<IVec2>::empty(),
{
    let pixels = triangle_pixels(v, dimensions);
    if v[0].y == v[1].y && v[1].y == v[2].y {
        lemma_level_triangle_is_empty(v, dimensions);
    } else {
        if pixels.len() > 0 {
            assert(pixels.contains(pixels[0]));
            lemma_triangle_pixels_contains(v, dimensions, pixels[0]);
        }
        assert(pixels =~= Seq::<IVec2>::empty());
    }
}

/// Drawing a line shades no pixel outside the grid.
pub proof fn lemma_line_pixels_inside(start: IVec2, end: IVec2, dimensions: UVec2)
    ensures
        all_inside(line_pixels(start, end, dimensions), dimensions),
{
    broadcast use vstd::seq_lib::group_filter_ensures;

    let pixels = line_pixels(start, end, dimensions);
    assert forall|i: int| 0 <= i < pixels.len() implies inside(dimensions)(#[trigger] pixels[i]) by {}
}

/// A line from a point to itself covers that point if it lies in the grid and
/// nothing otherwise.
pub proof fn lemma_point_line(p: IVec2, dimensions: UVec2)
    ensures
        line_pixels(p, p, dimensions) == if inside(dimensions)(p) {
            seq![p]
        } else {
            Seq::<IVec2>::empty()
        },
{
    assert(line_pixels(p, p, dimensions) =~= if inside(dimensions)(p) {
        seq![p]
    } else {
        Seq::<IVec2>::empty()
    });
}

/// A vertical line that lies in the grid covers one cell in every row from
/// its one end to the other, all in its column.
pub proof fn lemma_vertical_line_inside(start: IVec2, end: IVec2, dimensions: UVec2)
    requires
        start.x == end.x,
        inside(dimensions)(start),
        inside(dimensions)(end),
    ensures
        ({
            let (low, high) = by_row(start, end);
            line_pixels(start, end, dimensions) == Seq::new(
                (high.y - low.y + 1) as nat,
                |i: int| IVec2 { x: start.x, y: (low.y + i) as i32 },
            )
        }),
{
    let (low, high) = by_row(start, end);
    assert(line_pixels(start, end, dimensions) =~= Seq::new(
        (high.y - low.y + 1) as nat,
        |i: int| IVec2 { x: start.x, y: (low.y + i) as i32 },
    ));
}

/// Sorting three corners by row gives the same three corners in rising rows.
pub proof fn lemma_sorted_by_row(a: IVec2, b: IVec2, c: IVec2)
    ensures
        ({
            let (v0, v1, v2) = sorted_by_row(a, b, c);
            &&& v0.y <= v1.y <= v2.y
            &&& seq![v0, v1, v2].to_multiset() == seq![a, b, c].to_multiset()
        }),
{
    broadcast use vstd::seq_lib::group_to_multiset_ensures;

    let (v0, v1, v2) = sorted_by_row(a, b, c);
    let given = Seq::empty().push(a).push(b).push(c);
    let sorted = Seq::empty().push(v0).push(v1).push(v2);
    assert(given =~= seq![a, b, c]);
    assert(sorted =~= seq![v0, v1, v2]);
    assert(sorted.to_multiset() =~= given.to_multiset());
}

/// A vertical line whose column lies beside the grid covers nothing.
pub proof fn lemma_vertical_line_beside(start: IVec2, end: IVec2, dimensions: UVec2)
    requires
        start.x == end.x,
        !(0 <= start.x < dimensions.x),
    ensures
        line_pixels(start, end, dimensions) == Seq::<IVec2>::empty(),
{
}

/// Keeping some elements of a sequence without a repeated element leaves no
/// repeated element.
pub proof fn lemma_filter_no_duplicates<A>(s: Seq<A>, pred: spec_fn(A) -> bool)
    requires
        s.no_duplicates(),
    ensures
        s.filter(pred).no_duplicates(),
    decreases s.len(),
{
    reveal(Seq::filter);
    if s.len() > 0 {
        let rest = s.drop_last();
        assert forall|i: int, j: int| 0 <= i < rest.len() && 0 <= j < rest.len() && i != j implies rest[i]
            != rest[j] by {
            assert(rest[i] == s[i] && rest[j] == s[j]);
        }
        lemma_filter_no_duplicates(rest, pred);
        if pred(s.last()) {
            let kept = rest.filter(pred);
            assert forall|a: A| kept.contains(a) implies !seq![s.last()].contains(a) by {
                rest.lemma_filter_contains_rev(pred, a);
                if a == s.last() {
                    let i = choose|i: int| 0 <= i < rest.len() && rest[i] == a;
                    assert(s[i] == s[s.len() - 1]);
                }
            }
            lemma_concat_no_duplicates(kept, seq![s.last()]);
            assert(kept + seq![s.last()] =~= kept.push(s.last()));
        }
    }
}

/// Drawing a line shades no pixel twice: the shader is asked once for every
/// cell of the line.
pub proof fn lemma_line_pixels_no_duplicates(start: IVec2, end: IVec2, dimensions: UVec2)
    ensures
        line_pixels(start, end, dimensions).no_duplicates(),
{
    if start.x == end.x {
    } else {
        let (left, right) = by_column(start, end);
        if is_steep(left, right) {
            let (low, high) = by_row(left, right);
            let (first, last) = rows_inside(low.y as int, high.y as int, dimensions);
            if first <= last {
                let candidates = steep_candidates(low, high, first, (last - first + 1) as nat);
                assert(candidates.no_duplicates());
                lemma_filter_no_duplicates(candidates, inside(dimensions));
            }
        } else {
            let (first, last) = columns_inside(left.x as int, right.x as int, dimensions);
            if first <= last {
                let candidates = shallow_candidates(left, right, first, (last - first + 1) as nat);
                assert(candidates.no_duplicates());
                lemma_filter_no_duplicates(candidates, inside(dimensions));
            }
        }
    }
}

/// Keeping the elements that pass a test that all elements pass keeps the
/// sequence.
pub proof fn lemma_filter_keeps_all<A>(s: Seq<A>, pred: spec_fn(A) -> bool)
    requires
        forall|i: int| 0 <= i < s.len() ==> pred(#[trigger] s[i]),
    ensures
        s.filter(pred) == s,
    decreases s.len(),
{
    reveal(Seq::filter);
    if s.len() > 0 {
        let rest = s.drop_last();
        assert forall|i: int| 0 <= i < rest.len() implies pred(#[trigger] rest[i]) by {
            assert(rest[i] == s[i]);
        }
        lemma_filter_keeps_all(rest, pred);
        assert(pred(s[s.len() - 1]));
        assert(rest.push(s.last()) =~= s);
    }
}

/// Between its two ends a line stays between their coordinates, and it
/// starts at the one end and arrives at the other.
pub proof fn lemma_blend_toward_between(value: int, delta: int, t: int, d: int)
    requires
        0 <= t <= d,
        0 < d,
    ensures
        value <= blend_toward(value, delta, t, d) <= value + delta || value + delta <= blend_toward(
            value,
            delta,
            t,
            d,
        ) <= value,
        t == 0 ==> blend_toward(value, delta, t, d) == value,
        t == d ==> blend_toward(value, delta, t, d) == value + delta,
{
    assert(if delta >= 0 {
        0 <= delta * t <= delta * d
    } else {
        delta * d <= delta * t <= 0
    }) by (nonlinear_arith)
        requires
            0 <= t <= d,
    ;
    assert(value * d + delta * d == (value + delta) * d) by (nonlinear_arith);
    assert(t == 0 ==> delta * t == 0) by (nonlinear_arith);
    if delta >= 0 {
        lemma_trunc_div_between(value * d + delta * t, d, value, value + delta);
    } else {
        lemma_trunc_div_between(value * d + delta * t, d, value + delta, value);
    }
    if t == 0 {
        lemma_trunc_div_between(value * d + delta * t, d, value, value);
    }
    if t == d {
        lemma_trunc_div_between(value * d + delta * t, d, value + delta, value + delta);
    }
}

/// A line that is not vertical and has both ends in the grid shades one cell
/// for every step along its longer extent, the two ends included: it starts
/// at the end from which it is walked and arrives at the other.
pub proof fn lemma_line_inside(start: IVec2, end: IVec2, dimensions: UVec2)
    requires
        start.x != end.x,
        inside(dimensions)(start),
        inside(dimensions)(end),
    ensures
        ({
            let pixels = line_pixels(start, end, dimensions);
            let (left, right) = by_column(start, end);
            let run = right.x - left.x;
            let rise = vstd::math::abs(right.y - left.y) as int;
            let (from, to) = if is_steep(left, right) {
                by_row(left, right)
            } else {
                (left, right)
            };
            &&& pixels.len() == vstd::math::max(run, rise) + 1
            &&& pixels[0] == from
            &&& pixels[pixels.len() - 1] == to
        }),
{
    let (left, right) = by_column(start, end);
    if is_steep(left, right) {
        let (low, high) = by_row(left, right);
        let d = high.y - low.y;
        let candidates = steep_candidates(low, high, low.y as int, (d + 1) as nat);
        assert forall|i: int| 0 <= i < candidates.len() implies inside(dimensions)(#[trigger] candidates[i]) by {
            lemma_blend_toward_between(low.x as int, high.x - low.x, i, d);
        }
        lemma_filter_keeps_all(candidates, inside(dimensions));
        lemma_blend_toward_between(low.x as int, high.x - low.x, 0, d);
        lemma_blend_toward_between(low.x as int, high.x - low.x, d, d);
        assert(candidates[0] == low);
        assert(candidates[d] == high);
    } else {
        let d = right.x - left.x;
        let candidates = shallow_candidates(left, right, left.x as int, (d + 1) as nat);
        assert forall|i: int| 0 <= i < candidates.len() implies inside(dimensions)(#[trigger] candidates[i]) by {
            lemma_blend_toward_between(left.y as int, right.y - left.y, i, d);
        }
        lemma_filter_keeps_all(candidates, inside(dimensions));
        lemma_blend_toward_between(left.y as int, right.y - left.y, 0, d);
        lemma_blend_toward_between(left.y as int, right.y - left.y, d, d);
        assert(candidates[0] == left);
        assert(candidates[d] == right);
    }
}

/// The cells that a triangle covers lie in the rows and the columns that its
/// corners span.
pub proof fn lemma_triangle_covers_in_bounding_box(a: IVec2, b: IVec2, c: IVec2, x: int, y: int)
    requires
        triangle_covers(a, b, c, x, y),
    ensures
        vstd::math::min(a.x as int, vstd::math::min(b.x as int, c.x as int)) <= x <= vstd::math::max(
            a.x as int,
            vstd::math::max(b.x as int, c.x as int),
        ),
        vstd::math::min(a.y as int, vstd::math::min(b.y as int, c.y as int)) <= y <= vstd::math::max(
            a.y as int,
            vstd::math::max(b.y as int, c.y as int),
        ),
{
    let (v0, v1, v2) = sorted_by_row(a, b, c);
    let split = split_point(v0, v1, v2);
    lemma_edge_x_between(v0, v2, v1.y as int);
    if v2.y != v1.y && flat_covers(v1, split, v2, x, y) {
        lemma_edge_x_between(v1, v2, y);
        lemma_edge_x_between(split, v2, y);
    } else {
        lemma_edge_x_between(v1, v0, y);
        lemma_edge_x_between(split, v0, y);
    }
}

/// In every row the cells that a triangle covers are one run of columns:
/// with two cells of a row, every cell between them is covered.
pub proof fn lemma_triangle_row_is_one_run(a: IVec2, b: IVec2, c: IVec2, x0: int, x: int, x1: int, y: int)
    requires
        triangle_covers(a, b, c, x0, y),
        triangle_covers(a, b, c, x1, y),
        x0 <= x <= x1,
    ensures
        triangle_covers(a, b, c, x, y),
{
    let (v0, v1, v2) = sorted_by_row(a, b, c);
    let split = split_point(v0, v1, v2);
    if v0.y != v1.y && v2.y != v1.y && y == v1.y {
        lemma_edge_x_at_anchor(v1, v0);
        lemma_edge_x_at_anchor(split, v0);
        lemma_edge_x_at_anchor(v1, v2);
        lemma_edge_x_at_anchor(split, v2);
        assert(flat_span(v1, split, v0, y) == flat_span(v1, split, v2, y));
    }
}

} // verus!
