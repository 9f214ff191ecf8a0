//! Rendering a whole frame, column by column.

use vstd::prelude::*;
use crate::column::{column_colors, column_painted, column_rows, render_column};
use crate::occlusion::column_pixel;
use crate::pixel::{clear_buffer, cleared, SCREEN_HEIGHT, SCREEN_WIDTH, SKY};
use crate::snapshot::Snapshot;
use crate::terrain::Terrain;

verus! {

/// The frame that a terrain shows through a snapshot: every pixel has the
/// colour of the nearest terrain on its column's ray that reaches up to its
/// row, and the sky colour where none does.
pub open spec fn frame_pixels(terrain: Terrain, snapshot: Snapshot) -> Seq<u32> {
    Seq::new(
        (SCREEN_WIDTH * SCREEN_HEIGHT) as nat,
        |i: int|
            {
                let column = i % (SCREEN_WIDTH as int);
                column_pixel(
                    column_rows(terrain, snapshot, column),
                    column_colors(terrain, snapshot, column),
                    i / (SCREEN_WIDTH as int),
                    SKY,
                )
            },
    )
}

/// A frame buffer after the listed columns have been rendered into it, one
/// after another. A column may be listed more than once.
pub open spec fn columns_painted(
    buffer: Seq<u32>,
    terrain: Terrain,
    snapshot: Snapshot,
    order: Seq<int>,
) -> Seq<u32>
    decreases order.len(),
{
    if order.len() == 0 {
        buffer
    } else {
        column_painted(
            columns_painted(buffer, terrain, snapshot, order.drop_last()),
            order.last(),
            column_rows(terrain, snapshot, order.last()),
            column_colors(terrain, snapshot, order.last()),
        )
    }
}

/// The screen columns from left to right.
pub open spec fn left_to_right() -> Seq<int> {
    Seq::new(SCREEN_WIDTH as nat, |column: int| column)
}

/// What rendering a frame makes of a buffer: the buffer is cleared to sky and
/// the columns are rendered into it from left to right.
pub open spec fn rendered(before: Seq<u32>, terrain: Terrain, snapshot: Snapshot) -> Seq<u32> {
    columns_painted(cleared(before.len()), terrain, snapshot, left_to_right())
}

/// Rendering a list of columns affects exactly the listed columns, and each of
/// them as if it had been rendered alone, once.
pub proof fn lemma_columns_painted(
    buffer: Seq<u32>,
    terrain: Terrain,
    snapshot: Snapshot,
    order: Seq<int>,
)
    ensures
        columns_painted(buffer, terrain, snapshot, order) == Seq::new(
            buffer.len(),
            |i: int|
                {
                    let column = i % (SCREEN_WIDTH as int);
                    if order.contains(column) {
                        column_pixel(
                            column_rows(terrain, snapshot, column),
                            column_colors(terrain, snapshot, column),
                            i / (SCREEN_WIDTH as int),
                            buffer[i],
                        )
                    } else {
                        buffer[i]
                    }
                },
        ),
    decreases order.len(),
{
    let target = Seq::new(
        buffer.len(),
        |i: int|
            {
                let column = i % (SCREEN_WIDTH as int);
                if order.contains(column) {
                    column_pixel(
                        column_rows(terrain, snapshot, column),
                        column_colors(terrain, snapshot, column),
                        i / (SCREEN_WIDTH as int),
                        buffer[i],
                    )
                } else {
                    buffer[i]
                }
            },
    );
    if order.len() == 0 {
        assert(columns_painted(buffer, terrain, snapshot, order) =~= target);
    } else {
        let earlier = order.drop_last();
        lemma_columns_painted(buffer, terrain, snapshot, earlier);
        assert forall|c: int| order.contains(c) <==> (earlier.contains(c) || c == order.last()) by {
            if order.contains(c) {
                let k = choose|k: int| 0 <= k < order.len() && order[k] == c;
                if k < earlier.len() {
                    assert(earlier[k] == c);
                }
            }
            if earlier.contains(c) {
                let k = choose|k: int| 0 <= k < earlier.len() && earlier[k] == c;
                assert(order[k] == c);
            }
            if c == order.last() {
                assert(order[order.len() - 1] == c);
            }
        }
        assert(columns_painted(buffer, terrain, snapshot, order) =~= target);
    }
}

/// Columns do not depend on one another: rendered into a cleared buffer in any
/// order that names every column, with or without repetition, they give the
/// same frame.
pub proof fn lemma_any_column_order(terrain: Terrain, snapshot: Snapshot, order: Seq<int>)
    requires
        forall|column: int| 0 <= column < SCREEN_WIDTH ==> order.contains(column),
    ensures
        columns_painted(
            cleared((SCREEN_WIDTH * SCREEN_HEIGHT) as nat),
            terrain,
            snapshot,
            order,
        ) == frame_pixels(terrain, snapshot),
{
    let sky = cleared((SCREEN_WIDTH * SCREEN_HEIGHT) as nat);
    lemma_columns_painted(sky, terrain, snapshot, order);
    assert(columns_painted(sky, terrain, snapshot, order) =~= frame_pixels(terrain, snapshot));
}

/// A rendered frame shows nothing of what the buffer held before: it is
/// determined by the terrain and the snapshot. Rendering twice in a row, or
/// into two different buffers, gives identical pixels.
pub proof fn lemma_frame_is_determined(
    terrain: Terrain,
    snapshot: Snapshot,
    first: Seq<u32>,
    second: Seq<u32>,
)
    requires
        first.len() == SCREEN_WIDTH * SCREEN_HEIGHT,
        second.len() == SCREEN_WIDTH * SCREEN_HEIGHT,
    ensures
        rendered(first, terrain, snapshot) == frame_pixels(terrain, snapshot),
        rendered(first, terrain, snapshot) == rendered(second, terrain, snapshot),
        rendered(rendered(first, terrain, snapshot), terrain, snapshot) == rendered(
            first,
            terrain,
            snapshot,
        ),
{
    assert forall|column: int| 0 <= column < SCREEN_WIDTH implies left_to_right().contains(
        column,
    ) by {
        assert(left_to_right()[column] == column);
    }
    lemma_any_column_order(terrain, snapshot, left_to_right());
}

/// Renders one frame: clears the buffer to the sky colour and renders every
/// screen column into it, from left to right.
pub fn render_frame(terrain: &Terrain, snapshot: &Snapshot, buffer: &mut Vec<u32>)
    requires
        old(buffer)@.len() == SCREEN_WIDTH * SCREEN_HEIGHT,
    ensures
        final(buffer)@ == frame_pixels(*terrain, *snapshot),
        final(buffer)@ == rendered(old(buffer)@, *terrain, *snapshot),
{
    clear_buffer(buffer);
    let mut column: usize = 0;
    while column < SCREEN_WIDTH
        invariant
            column <= SCREEN_WIDTH,
            buffer@.len() == SCREEN_WIDTH * SCREEN_HEIGHT,
            forall|i: int|
                0 <= i < buffer@.len() ==> #[trigger] buffer@[i] == if i % (SCREEN_WIDTH as int)
                    < column {
                    frame_pixels(*terrain, *snapshot)[i]
                } else {
                    SKY
                },
        decreases SCREEN_WIDTH - column,
    {
        render_column(terrain, snapshot, column, buffer);
        column += 1;
    }
    proof {
        assert(buffer@ =~= frame_pixels(*terrain, *snapshot));
        lemma_frame_is_determined(*terrain, *snapshot, old(buffer)@, old(buffer)@);
    }
}

} // verus!
