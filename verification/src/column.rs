//! Rendering one screen column: march the ray, then paint what it uncovered.

use vstd::prelude::*;
use crate::occlusion::{
    column_pixel, lemma_each_row_painted_once, lemma_filled_column_is_final,
    lemma_open_above_watermark, lemma_spans_stacked, lemma_watermark_is_least, march_spans,
    pixel_after, watermark, Span,
};
use crate::pixel::{SCREEN_HEIGHT, SCREEN_WIDTH};
use crate::snapshot::{Cell, Snapshot};
use crate::terrain::Terrain;

verus! {

/// The screen rows onto which the steps of a column's march project: at each
/// step, the row that the snapshot assigns to the elevation found under the
/// ray.
pub open spec fn column_rows(terrain: Terrain, snapshot: Snapshot, column: int) -> Seq<int> {
    Seq::new(
        snapshot.depth(),
        |step: int|
            {
                let cell = snapshot.cell_at(column, step);
                snapshot.row_at(step, terrain.elevation_at(cell.x as int, cell.y as int))
            },
    )
}

/// The terrain colours found under the steps of a column's march.
pub open spec fn column_colors(terrain: Terrain, snapshot: Snapshot, column: int) -> Seq<u32> {
    Seq::new(
        snapshot.depth(),
        |step: int|
            {
                let cell = snapshot.cell_at(column, step);
                terrain.color_at(cell.x as int, cell.y as int)
            },
    )
}

/// A frame buffer after one span has been painted into `column`.
pub open spec fn fill(buffer: Seq<u32>, column: int, span: Span) -> Seq<u32> {
    Seq::new(
        buffer.len(),
        |i: int|
            if i % (SCREEN_WIDTH as int) == column && span.covers(i / (SCREEN_WIDTH as int)) {
                span.color
            } else {
                buffer[i]
            },
    )
}

/// A frame buffer after spans have been painted into `column`, one after another.
pub open spec fn painted(buffer: Seq<u32>, column: int, spans: Seq<Span>) -> Seq<u32>
    decreases spans.len(),
{
    if spans.len() == 0 {
        buffer
    } else {
        fill(painted(buffer, column, spans.drop_last()), column, spans.last())
    }
}

/// A frame buffer after a column has been rendered into it: in that column
/// every row shows the nearest terrain that reaches up to it, and what it
/// showed before where none does; all other columns are untouched.
pub open spec fn column_painted(
    buffer: Seq<u32>,
    column: int,
    rows: Seq<int>,
    colors: Seq<u32>,
) -> Seq<u32> {
    Seq::new(
        buffer.len(),
        |i: int|
            if i % (SCREEN_WIDTH as int) == column {
                column_pixel(rows, colors, i / (SCREEN_WIDTH as int), buffer[i])
            } else {
                buffer[i]
            },
    )
}

/// Painting the spans of a march gives every row of the column the colour of
/// the nearest step that reaches up to it and leaves all other pixels alone.
pub proof fn lemma_spans_paint_nearest(
    buffer: Seq<u32>,
    column: int,
    rows: Seq<int>,
    colors: Seq<u32>,
    n: int,
)
    requires
        buffer.len() == SCREEN_WIDTH * SCREEN_HEIGHT,
        0 <= column < SCREEN_WIDTH,
        0 <= n,
    ensures
        painted(buffer, column, march_spans(rows, colors, n)) == Seq::new(
            buffer.len(),
            |i: int|
                if i % (SCREEN_WIDTH as int) == column {
                    pixel_after(rows, colors, n, i / (SCREEN_WIDTH as int), buffer[i])
                } else {
                    buffer[i]
                },
        ),
    decreases n,
{
    let target = Seq::new(
        buffer.len(),
        |i: int|
            if i % (SCREEN_WIDTH as int) == column {
                pixel_after(rows, colors, n, i / (SCREEN_WIDTH as int), buffer[i])
            } else {
                buffer[i]
            },
    );
    if n == 0 {
        assert(painted(buffer, column, march_spans(rows, colors, n)) =~= target);
    } else {
        lemma_spans_paint_nearest(buffer, column, rows, colors, n - 1);
        lemma_watermark_is_least(rows, n - 1);
        let before = march_spans(rows, colors, n - 1);
        let spans = march_spans(rows, colors, n);
        let mark = watermark(rows, n - 1);
        if rows[n - 1] < mark && 0 < mark {
            assert(spans.drop_last() =~= before);
        }
        assert forall|i: int| 0 <= i < buffer.len() implies painted(buffer, column, spans)[i]
            == target[i] by {
            let y = i / (SCREEN_WIDTH as int);
            assert(0 <= y < SCREEN_HEIGHT);
            lemma_open_above_watermark(rows, n - 1, y);
        }
        assert(painted(buffer, column, spans) =~= target);
    }
}

/// After a column has been rendered, every row of it either lies in exactly
/// one span of the march and shows that span's colour, or lies in none and
/// shows what it showed before.
pub proof fn lemma_rows_painted_once_or_untouched(
    buffer: Seq<u32>,
    column: int,
    rows: Seq<int>,
    colors: Seq<u32>,
    y: int,
)
    requires
        buffer.len() == SCREEN_WIDTH * SCREEN_HEIGHT,
        0 <= column < SCREEN_WIDTH,
        0 <= y < SCREEN_HEIGHT,
    ensures
        ({
            let spans = march_spans(rows, colors, rows.len() as int);
            let at = SCREEN_WIDTH * y + column;
            let pixel = column_painted(buffer, column, rows, colors)[at];
            ||| exists|a: int|
                {
                    &&& 0 <= a < spans.len()
                    &&& (#[trigger] spans[a]).covers(y)
                    &&& pixel == spans[a].color
                    &&& forall|b: int|
                        0 <= b < spans.len() && b != a ==> !(#[trigger] spans[b]).covers(y)
                }
            ||| {
                &&& forall|a: int| 0 <= a < spans.len() ==> !(#[trigger] spans[a]).covers(y)
                &&& pixel == buffer[at]
            }
        }),
{
    let at = SCREEN_WIDTH * y + column;
    assert(at % (SCREEN_WIDTH as int) == column && at / (SCREEN_WIDTH as int) == y);
    lemma_each_row_painted_once(rows, colors, rows.len() as int, y);
}

/// Marches the ray of `column` and returns the spans it paints, nearest first.
///
/// The march stops early once the watermark has reached the top of the screen.
/// Each span lies on the screen, and each begins at or below the end of the
/// next, so that no row is painted twice.
pub fn march_column(terrain: &Terrain, snapshot: &Snapshot, column: usize) -> (spans: Vec<Span>)
    requires
        column < SCREEN_WIDTH,
    ensures
        spans@ == march_spans(
            column_rows(*terrain, *snapshot, column as int),
            column_colors(*terrain, *snapshot, column as int),
            snapshot.depth() as int,
        ),
        forall|a: int|
            0 <= a < spans@.len() ==> (#[trigger] spans@[a]).top < spans@[a].bottom
                <= SCREEN_HEIGHT,
        forall|a: int, b: int|
            0 <= a < b < spans@.len() ==> (#[trigger] spans@[b]).bottom <= (
            #[trigger] spans@[a]).top,
{
    let ghost rows = column_rows(*terrain, *snapshot, column as int);
    let ghost colors = column_colors(*terrain, *snapshot, column as int);
    let depth: usize = snapshot.steps();
    let mut spans: Vec<Span> = Vec::new();
    let mut max_height: i32 = SCREEN_HEIGHT as i32;
    let mut step: usize = 0;
    while step < depth && max_height > 0
        invariant
            step <= depth,
            depth == snapshot.depth(),
            column < SCREEN_WIDTH,
            rows == column_rows(*terrain, *snapshot, column as int),
            colors == column_colors(*terrain, *snapshot, column as int),
            max_height == watermark(rows, step as int),
            spans@ == march_spans(rows, colors, step as int),
        decreases depth - step,
    {
        let cell: Cell = snapshot.cell(column, step);
        let row: i32 = snapshot.row(step, terrain.elevation(cell.x, cell.y));
        proof {
            lemma_watermark_is_least(rows, step as int);
        }
        if row < max_height {
            let top: usize = if row < 0 {
                0
            } else {
                row as usize
            };
            spans.push(
                Span { top, bottom: max_height as usize, color: terrain.color(cell.x, cell.y) },
            );
            max_height = row;
        }
        step += 1;
    }
    proof {
        if step < depth {
            lemma_filled_column_is_final(rows, colors, step as int, depth as int);
        }
        lemma_spans_stacked(rows, colors, depth as int);
    }
    spans
}

/// Paints spans into `column` of the frame buffer, one after another. Rows
/// below the bottom of the screen are left out.
pub fn paint_spans(buffer: &mut Vec<u32>, column: usize, spans: &Vec<Span>)
    requires
        column < SCREEN_WIDTH,
        old(buffer)@.len() == SCREEN_WIDTH * SCREEN_HEIGHT,
    ensures
        final(buffer)@ == painted(old(buffer)@, column as int, spans@),
        final(buffer)@.len() == old(buffer)@.len(),
{
    let mut s: usize = 0;
    while s < spans.len()
        invariant
            s <= spans@.len(),
            column < SCREEN_WIDTH,
            buffer@.len() == SCREEN_WIDTH * SCREEN_HEIGHT,
            buffer@ == painted(old(buffer)@, column as int, spans@.take(s as int)),
        decreases spans@.len() - s,
    {
        let span: Span = spans[s];
        let ghost base = buffer@;
        let bottom: usize = if span.bottom < SCREEN_HEIGHT {
            span.bottom
        } else {
            SCREEN_HEIGHT
        };
        let mut y: usize = span.top;
        while y < bottom
            invariant
                span.top <= y,
                y <= bottom || y == span.top,
                bottom <= SCREEN_HEIGHT,
                bottom <= span.bottom,
                bottom == span.bottom || bottom == SCREEN_HEIGHT,
                column < SCREEN_WIDTH,
                base.len() == SCREEN_WIDTH * SCREEN_HEIGHT,
                buffer@.len() == base.len(),
                forall|i: int|
                    0 <= i < base.len() ==> #[trigger] buffer@[i] == if i % (SCREEN_WIDTH as int)
                        == column && span.top <= i / (SCREEN_WIDTH as int) < y {
                        span.color
                    } else {
                        base[i]
                    },
            decreases bottom - y,
        {
            buffer.set(SCREEN_WIDTH * y + column, span.color);
            y += 1;
        }
        proof {
            assert forall|i: int| 0 <= i < base.len() implies buffer@[i] == fill(
                base,
                column as int,
                span,
            )[i] by {
                assert(i / (SCREEN_WIDTH as int) < SCREEN_HEIGHT);
            }
            assert(buffer@ =~= fill(base, column as int, span));
            assert(spans@.take(s + 1).drop_last() =~= spans@.take(s as int));
            assert(spans@.take(s + 1).last() == span);
        }
        s += 1;
    }
    assert(spans@.take(s as int) =~= spans@);
}

/// Renders one column into the frame buffer: marches its ray and paints every
/// row that some step of the march uncovers.
pub fn render_column(terrain: &Terrain, snapshot: &Snapshot, column: usize, buffer: &mut Vec<u32>)
    requires
        column < SCREEN_WIDTH,
        old(buffer)@.len() == SCREEN_WIDTH * SCREEN_HEIGHT,
    ensures
        final(buffer)@ == column_painted(
            old(buffer)@,
            column as int,
            column_rows(*terrain, *snapshot, column as int),
            column_colors(*terrain, *snapshot, column as int),
        ),
{
    let spans: Vec<Span> = march_column(terrain, snapshot, column);
    paint_spans(buffer, column, &spans);
    proof {
        lemma_spans_paint_nearest(
            old(buffer)@,
            column as int,
            column_rows(*terrain, *snapshot, column as int),
            column_colors(*terrain, *snapshot, column as int),
            snapshot.depth() as int,
        );
    }
}

} // verus!
