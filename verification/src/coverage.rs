//! Which pixels a polygon covers: the even-odd rule, sampled at pixel centres,
//! and the crossings of one scanline with the polygon's edges.

use crate::fixed::{ceil_div, div_ceil, lemma_ceil_div_bound, lemma_remainder_range, mul_wide};
use crate::geometry::Point;
use vstd::prelude::*;

verus! {

/// The coordinate of the centre of pixel column (or row) `p`, in steps of 1/256
/// of a pixel.
pub open spec fn pixel_center(p: int) -> int {
    256 * p + 128
}

/// For an edge that runs from `lower` to `upper`, whose `y` is the greater,
/// and meets the horizontal line at `sy`: the meeting point lies at `sx` or to
/// the left of it.
pub open spec fn left_of(lower: Point, upper: Point, sx: int, sy: int) -> bool {
    (sy - lower.y) * (upper.x - lower.x) <= (sx - lower.x) * (upper.y - lower.y)
}

/// The edge between `a` and `b` crosses the horizontal line at `sy`, at `sx` or
/// to the left of it. An edge owns its end with the smaller `y` and not the
/// other one, so that a line through a vertex meets one of the two edges there;
/// a horizontal edge crosses no line.
pub open spec fn edge_crossing_left(a: Point, b: Point, sx: int, sy: int) -> bool {
    if a.y <= sy < b.y {
        left_of(a, b, sx, sy)
    } else if b.y <= sy < a.y {
        left_of(b, a, sx, sy)
    } else {
        false
    }
}

/// The edge number `i` of a closed polygon runs from point `i` to the next
/// point, and from the last point back to the first.
pub open spec fn edge_end(points: Seq<Point>, i: int) -> Point {
    points[(i + 1) % (points.len() as int)]
}

/// How many of the first `n` edges of the polygon cross the horizontal line at
/// `sy`, at `sx` or to the left of it.
pub open spec fn crossings(points: Seq<Point>, n: nat, sx: int, sy: int) -> nat
    decreases n,
{
    if n == 0 {
        0
    } else {
        crossings(points, (n - 1) as nat, sx, sy) + if edge_crossing_left(
            points[n - 1],
            edge_end(points, n - 1),
            sx,
            sy,
        ) {
            1nat
        } else {
            0nat
        }
    }
}

/// The even-odd rule: a pixel is covered if an odd number of edges pass its
/// centre on the left.
pub open spec fn polygon_covers(points: Seq<Point>, x: int, y: int) -> bool {
    crossings(points, points.len(), pixel_center(x), pixel_center(y)) % 2 == 1
}

/// The four corners of the axis-aligned rectangle between `(x0, y0)` and
/// `(x1, y1)`, in the order in which its outline runs.
pub open spec fn rectangle_corners(x0: i32, y0: i32, x1: i32, y1: i32) -> Seq<Point> {
    seq![Point { x: x0, y: y0 }, Point { x: x1, y: y0 }, Point { x: x1, y: y1 }, Point { x: x0, y: y1 }]
}

/// A vertical edge is passed on the left by exactly the centres at or to the
/// right of it.
pub proof fn lemma_vertical_edge(lower: Point, upper: Point, sx: int, sy: int)
    requires
        lower.x == upper.x,
        lower.y < upper.y,
    ensures
        left_of(lower, upper, sx, sy) <==> lower.x <= sx,
{
    let rise = upper.y - lower.y;
    let offset = sx - lower.x;
    assert((sy - lower.y) * (upper.x - lower.x) == 0) by (nonlinear_arith)
        requires
            upper.x - lower.x == 0,
    ;
    assert(0 <= offset * rise <==> 0 <= offset) by (nonlinear_arith)
        requires
            rise > 0,
    ;
}

/// An axis-aligned rectangle covers exactly the pixels whose centres lie in it,
/// its left and upper sides included and its right and lower sides excluded.
pub proof fn lemma_rectangle_covers(x0: i32, y0: i32, x1: i32, y1: i32, x: int, y: int)
    requires
        x0 <= x1,
        y0 <= y1,
    ensures
        polygon_covers(rectangle_corners(x0, y0, x1, y1), x, y) <==> x0 <= pixel_center(x) < x1
            && y0 <= pixel_center(y) < y1,
{
    let corners = rectangle_corners(x0, y0, x1, y1);
    let sx = pixel_center(x);
    let sy = pixel_center(y);
    reveal_with_fuel(crossings, 5);
    assert(corners.len() == 4);
    assert(edge_end(corners, 0) == corners[1]);
    assert(edge_end(corners, 1) == corners[2]);
    assert(edge_end(corners, 2) == corners[3]);
    assert(edge_end(corners, 3) == corners[0]);
    if y0 < y1 {
        lemma_vertical_edge(corners[1], corners[2], sx, sy);
        lemma_vertical_edge(corners[0], corners[3], sx, sy);
    }
    assert(!edge_crossing_left(corners[0], corners[1], sx, sy));
    assert(!edge_crossing_left(corners[2], corners[3], sx, sy));
    assert(edge_crossing_left(corners[1], corners[2], sx, sy) <==> y0 <= sy < y1 && x1 <= sx);
    assert(edge_crossing_left(corners[3], corners[0], sx, sy) <==> y0 <= sy < y1 && x0 <= sx);
}

/// `moved` is `points`, every point moved by `columns` pixels to the right and
/// by `rows` pixels down.
pub open spec fn moved_by(points: Seq<Point>, moved: Seq<Point>, columns: int, rows: int) -> bool {
    &&& moved.len() == points.len()
    &&& forall|k: int|
        0 <= k < points.len() ==> (#[trigger] moved[k]).x == points[k].x + 256 * columns
            && moved[k].y == points[k].y + 256 * rows
}

/// An edge that is moved by whole pixels passes the centres that are moved
/// with it as it passed the centres before.
pub proof fn lemma_moved_edge(
    a: Point,
    b: Point,
    moved_a: Point,
    moved_b: Point,
    columns: int,
    rows: int,
    x: int,
    y: int,
)
    requires
        moved_a.x == a.x + 256 * columns,
        moved_a.y == a.y + 256 * rows,
        moved_b.x == b.x + 256 * columns,
        moved_b.y == b.y + 256 * rows,
    ensures
        edge_crossing_left(moved_a, moved_b, pixel_center(x + columns), pixel_center(y + rows))
            == edge_crossing_left(a, b, pixel_center(x), pixel_center(y)),
{
    let sx = pixel_center(x);
    let sy = pixel_center(y);
    let moved_sx = pixel_center(x + columns);
    let moved_sy = pixel_center(y + rows);
    assert(moved_sy - moved_a.y == sy - a.y);
    assert(moved_sy - moved_b.y == sy - b.y);
    assert(moved_sx - moved_a.x == sx - a.x);
    assert(moved_sx - moved_b.x == sx - b.x);
    assert(moved_b.x - moved_a.x == b.x - a.x);
    assert(moved_b.y - moved_a.y == b.y - a.y);
    assert(moved_a.x - moved_b.x == a.x - b.x);
    assert(moved_a.y - moved_b.y == a.y - b.y);
    assert(left_of(moved_a, moved_b, moved_sx, moved_sy) == left_of(a, b, sx, sy));
    assert(left_of(moved_b, moved_a, moved_sx, moved_sy) == left_of(b, a, sx, sy));
}

/// Coverage moves with the outline: an outline that is moved by whole pixels
/// covers the pixels that are moved with it, and no others.
pub proof fn lemma_coverage_moves(
    points: Seq<Point>,
    moved: Seq<Point>,
    columns: int,
    rows: int,
    x: int,
    y: int,
)
    requires
        moved_by(points, moved, columns, rows),
    ensures
        polygon_covers(moved, x + columns, y + rows) == polygon_covers(points, x, y),
{
    lemma_crossings_move(points, moved, points.len(), columns, rows, x, y);
}

/// The same, for the crossings of the first `n` edges.
proof fn lemma_crossings_move(
    points: Seq<Point>,
    moved: Seq<Point>,
    n: nat,
    columns: int,
    rows: int,
    x: int,
    y: int,
)
    requires
        moved_by(points, moved, columns, rows),
        n <= points.len(),
    ensures
        crossings(moved, n, pixel_center(x + columns), pixel_center(y + rows)) == crossings(
            points,
            n,
            pixel_center(x),
            pixel_center(y),
        ),
    decreases n,
{
    if n > 0 {
        lemma_crossings_move(points, moved, (n - 1) as nat, columns, rows, x, y);
        lemma_remainder_range(n as int, points.len() as int);
        let next = n as int % (points.len() as int);
        assert(edge_end(points, n - 1) == points[next]);
        assert(edge_end(moved, n - 1) == moved[next]);
        lemma_moved_edge(
            points[n - 1],
            points[next],
            moved[n - 1],
            moved[next],
            columns,
            rows,
            x,
            y,
        );
    }
}

/// Every point of the outline has its `y` between `low` and `high`.
pub open spec fn within_rows(points: Seq<Point>, low: int, high: int) -> bool {
    forall|k: int| 0 <= k < points.len() ==> low <= (#[trigger] points[k]).y <= high
}

/// A horizontal line above or below all points of the outline crosses none of
/// its edges.
pub proof fn lemma_no_crossings_outside(
    points: Seq<Point>,
    n: nat,
    low: int,
    high: int,
    sx: int,
    sy: int,
)
    requires
        within_rows(points, low, high),
        n <= points.len(),
        sy < low || sy >= high,
    ensures
        crossings(points, n, sx, sy) == 0,
    decreases n,
{
    if n > 0 {
        lemma_no_crossings_outside(points, (n - 1) as nat, low, high, sx, sy);
        lemma_remainder_range(n as int, points.len() as int);
        let a = points[n - 1];
        let b = edge_end(points, n - 1);
        assert(low <= a.y <= high);
        assert(low <= b.y <= high);
    }
}

/// An outline without height covers no pixel.
pub proof fn lemma_flat_outline_covers_nothing(points: Seq<Point>, level: int, x: int, y: int)
    requires
        within_rows(points, level, level),
    ensures
        !polygon_covers(points, x, y),
{
    lemma_no_crossings_outside(points, points.len(), level, level, pixel_center(x), pixel_center(y));
}

/// An outline covers no pixel whose centre has a smaller `y` than all of its
/// points, or a `y` that is at least the greatest of theirs.
pub proof fn lemma_outline_within_rows(points: Seq<Point>, low: int, high: int, x: int, y: int)
    requires
        within_rows(points, low, high),
        pixel_center(y) < low || pixel_center(y) >= high,
    ensures
        !polygon_covers(points, x, y),
{
    lemma_no_crossings_outside(points, points.len(), low, high, pixel_center(x), pixel_center(y));
}

/// The least and the greatest `y` among the points of an outline.
pub(crate) fn vertical_extent(points: &Vec<Point>) -> (extent: (i32, i32))
    requires
        points@.len() > 0,
    ensures
        within_rows(points@, extent.0 as int, extent.1 as int),
{
    let mut low: i32 = points[0].y;
    let mut high: i32 = points[0].y;
    let mut i: usize = 1;
    while i < points.len()
        invariant
            1 <= i <= points@.len(),
            forall|k: int| 0 <= k < i ==> low <= (#[trigger] points@[k]).y <= high,
        decreases points@.len() - i,
    {
        let y = points[i].y;
        if y < low {
            low = y;
        }
        if y > high {
            high = y;
        }
        i = i + 1;
    }
    (low, high)
}

/// The first pixel row whose centre lies at `y` or below it, held to the rows
/// `first ..= last`.
pub(crate) fn row_from(y: i32, first: u32, last: u32) -> (row: u32)
    requires
        first <= last,
    ensures
        first <= row <= last,
        forall|r: int| first <= r < last ==> (row <= r <==> y <= #[trigger] pixel_center(r)),
{
    let exact = div_ceil(y as i128 - 128, 256);
    if exact < first as i128 {
        first
    } else if exact > last as i128 {
        last
    } else {
        exact as u32
    }
}

/// The pixels that the outline covers, as a predicate on pixel coordinates.
pub open spec fn outline_cover(outline: Seq<Point>) -> spec_fn(int, int) -> bool {
    |x: int, y: int| polygon_covers(outline, x, y)
}

/// How many members of `columns` are at most `x`.
pub open spec fn count_up_to(columns: Seq<u32>, x: int) -> nat
    decreases columns.len(),
{
    if columns.len() == 0 {
        0
    } else {
        count_up_to(columns.drop_last(), x) + if columns.last() <= x {
            1nat
        } else {
            0nat
        }
    }
}

/// The members of `columns` ascend.
pub open spec fn ascending(columns: Seq<u32>) -> bool {
    forall|i: int, j: int| 0 <= i <= j < columns.len() ==> columns[i] <= columns[j]
}

/// A new member adds one to the count exactly if it is at most `x`.
pub proof fn lemma_count_insert(columns: Seq<u32>, at: int, column: u32, x: int)
    requires
        0 <= at <= columns.len(),
    ensures
        count_up_to(columns.insert(at, column), x) == count_up_to(columns, x) + if column <= x {
            1nat
        } else {
            0nat
        },
    decreases columns.len(),
{
    let longer = columns.insert(at, column);
    if at == columns.len() {
        assert(longer.drop_last() =~= columns);
    } else {
        assert(longer.drop_last() =~= columns.drop_last().insert(at, column));
        assert(longer.last() == columns.last());
        lemma_count_insert(columns.drop_last(), at, column, x);
    }
}

/// In an ascending sequence the count is the position of the first member
/// above `x`.
pub proof fn lemma_count_ascending(columns: Seq<u32>, x: int, position: int)
    requires
        ascending(columns),
        0 <= position <= columns.len(),
        position == 0 || columns[position - 1] <= x,
        position == columns.len() || x < columns[position],
    ensures
        count_up_to(columns, x) == position,
    decreases columns.len(),
{
    if columns.len() > 0 {
        let shorter = columns.drop_last();
        if position == columns.len() {
            lemma_count_ascending(shorter, x, position - 1);
        } else {
            assert(columns[position] <= columns.last());
            lemma_count_ascending(shorter, x, position);
        }
    }
}

/// The first pixel column whose centre lies at or to the right of the point
/// where the edge from `lower` to `upper` meets the horizontal line `sy`.
pub open spec fn crossing_column(lower: Point, upper: Point, sy: int) -> int {
    ceil_div(
        (sy - lower.y) * (upper.x - lower.x) + (lower.x - 128) * (upper.y - lower.y),
        256 * (upper.y - lower.y),
    )
}

/// A pixel centre lies at or to the right of the meeting point exactly from the
/// crossing column on.
pub proof fn lemma_crossing_column(lower: Point, upper: Point, sy: int, x: int)
    requires
        lower.y < upper.y,
    ensures
        crossing_column(lower, upper, sy) <= x <==> left_of(lower, upper, pixel_center(x), sy),
{
    let rise = upper.y - lower.y;
    let run = upper.x - lower.x;
    let numerator = (sy - lower.y) * run + (lower.x - 128) * rise;
    lemma_ceil_div_bound(numerator, 256 * rise, x);
    assert(x * (256 * rise) == (256 * x + 128 - lower.x) * rise + (lower.x - 128) * rise)
        by (nonlinear_arith);
}

/// The column of an edge's crossing with the scanline of pixel row `row`, held
/// to the columns `first ..= last`; `None` for an edge that does not cross.
pub(crate) fn edge_column(a: Point, b: Point, row: u32, first: u32, last: u32) -> (column: Option<
    u32,
>)
    requires
        first <= last,
    ensures
        column is None ==> forall|sx: int| !edge_crossing_left(a, b, sx, pixel_center(row as int)),
        column matches Some(c) ==> first <= c <= last && forall|x: int|
            first <= x < last ==> (c <= x <==> #[trigger] edge_crossing_left(
                a,
                b,
                pixel_center(x),
                pixel_center(row as int),
            )),
{
    let sy: i128 = 256 * (row as i128) + 128;
    let ay = a.y as i128;
    let by = b.y as i128;
    let (lower, upper) = if ay <= sy && sy < by {
        (a, b)
    } else if by <= sy && sy < ay {
        (b, a)
    } else {
        return None;
    };
    let rise: i128 = upper.y as i128 - lower.y as i128;
    let run: i128 = upper.x as i128 - lower.x as i128;
    let numerator: i128 = mul_wide(sy - lower.y as i128, run) + mul_wide(
        lower.x as i128 - 128,
        rise,
    );
    let exact = div_ceil(numerator, 256 * rise);
    let column: u32 = if exact < first as i128 {
        first
    } else if exact > last as i128 {
        last
    } else {
        exact as u32
    };
    proof {
        assert(exact == crossing_column(lower, upper, sy as int));
        assert forall|x: int| first <= x < last implies (column <= x <==> #[trigger] edge_crossing_left(
            a,
            b,
            pixel_center(x),
            pixel_center(row as int),
        )) by {
            lemma_crossing_column(lower, upper, sy as int, x);
        }
    }
    Some(column)
}

/// Puts a column into an ascending list, before the first member above it.
pub(crate) fn insert_ascending(columns: &mut Vec<u32>, column: u32) -> (at: usize)
    requires
        ascending(old(columns)@),
    ensures
        at <= old(columns)@.len(),
        final(columns)@ == old(columns)@.insert(at as int, column),
        ascending(final(columns)@),
{
    let mut at: usize = 0;
    while at < columns.len() && columns[at] <= column
        invariant
            at <= columns@.len(),
            columns@ == old(columns)@,
            forall|i: int| 0 <= i < at ==> columns@[i] <= column,
        decreases columns@.len() - at,
    {
        at = at + 1;
    }
    columns.insert(at, column);
    proof {
        let before = old(columns)@;
        let after = columns@;
        assert forall|i: int, j: int| 0 <= i <= j < after.len() implies after[i] <= after[j] by {
            if i < at && j > at {
                assert(before[i] <= before[j - 1]);
            } else if i > at {
                assert(before[i - 1] <= before[j - 1]);
            } else if j < at {
                assert(before[i] <= before[j]);
            }
        }
    }
    at
}

/// The ascending list of the columns at which the polygon's edges cross the
/// scanline of pixel row `row`, each held to the columns `first ..= last`.
pub(crate) fn scan_edges(points: &Vec<Point>, row: u32, first: u32, last: u32, columns: &mut Vec<
    u32,
>)
    requires
        first <= last,
    ensures
        ascending(final(columns)@),
        forall|k: int| 0 <= k < final(columns)@.len() ==> first <= #[trigger] final(columns)@[k] <= last,
        forall|x: int|
            first <= x < last ==> #[trigger] count_up_to(final(columns)@, x) == crossings(
                points@,
                points@.len(),
                pixel_center(x),
                pixel_center(row as int),
            ),
{
    columns.clear();
    let count = points.len();
    let mut i: usize = 0;
    while i < count
        invariant
            first <= last,
            count == points@.len(),
            i <= count,
            ascending(columns@),
            forall|k: int| 0 <= k < columns@.len() ==> first <= #[trigger] columns@[k] <= last,
            forall|x: int|
                first <= x < last ==> #[trigger] count_up_to(columns@, x) == crossings(
                    points@,
                    i as nat,
                    pixel_center(x),
                    pixel_center(row as int),
                ),
        decreases count - i,
    {
        let next: usize = if i + 1 == count {
            0
        } else {
            i + 1
        };
        assert(points@[next as int] == edge_end(points@, i as int)) by {
            if i + 1 == count {
                assert((i + 1) % (count as int) == 0) by (nonlinear_arith)
                    requires
                        i + 1 == count,
                        count > 0,
                ;
            } else {
                assert((i + 1) % (count as int) == i + 1) by (nonlinear_arith)
                    requires
                        0 <= i + 1 < count,
                ;
            }
        }
        let ghost before = columns@;
        match edge_column(points[i], points[next], row, first, last) {
            Some(column) => {
                let at = insert_ascending(columns, column);
                proof {
                    assert forall|x: int| first <= x < last implies #[trigger] count_up_to(
                        columns@,
                        x,
                    ) == crossings(
                        points@,
                        (i + 1) as nat,
                        pixel_center(x),
                        pixel_center(row as int),
                    ) by {
                        lemma_count_insert(before, at as int, column, x);
                        assert(count_up_to(before, x) == crossings(
                            points@,
                            i as nat,
                            pixel_center(x),
                            pixel_center(row as int),
                        ));
                    }
                }
            },
            None => {
                proof {
                    assert forall|x: int| first <= x < last implies #[trigger] count_up_to(
                        columns@,
                        x,
                    ) == crossings(
                        points@,
                        (i + 1) as nat,
                        pixel_center(x),
                        pixel_center(row as int),
                    ) by {
                        assert(count_up_to(before, x) == crossings(
                            points@,
                            i as nat,
                            pixel_center(x),
                            pixel_center(row as int),
                        ));
                    }
                }
            },
        }
        i = i + 1;
    }
}

} // verus!
