//! The occlusion rule of a single column, as mathematics.
//!
//! A march is described by the screen rows onto which its steps project,
//! nearest step first. Rows count downward from the top of the screen, so a
//! smaller row is higher up. Everything here is stated for a prefix of `n`
//! steps, so that the state of a march in progress can be spoken of.

use vstd::prelude::*;
use crate::pixel::SCREEN_HEIGHT;

verus! {

/// A vertical run of pixels in one column: rows `top` up to but excluding
/// `bottom`, all of one colour.
#[derive(Clone, Copy, Debug, PartialEq, Eq, Structural)]
pub struct Span {
    pub top: usize,
    pub bottom: usize,
    pub color: u32,
}

impl Span {
    /// Whether the span includes screen row `y`.
    pub open spec fn covers(self, y: int) -> bool {
        self.top <= y < self.bottom
    }
}

/// A projected row with everything above the screen cut off.
pub open spec fn clip(row: int) -> int {
    if row < 0 {
        0
    } else {
        row
    }
}

/// The topmost row reached by the first `n` steps: the least of their rows,
/// and the screen height while none of them reaches the screen.
pub open spec fn watermark(rows: Seq<int>, n: int) -> int
    decreases n,
{
    if n <= 0 {
        SCREEN_HEIGHT as int
    } else {
        let before = watermark(rows, n - 1);
        if rows[n - 1] < before {
            rows[n - 1]
        } else {
            before
        }
    }
}

/// The nearest of the first `n` steps whose terrain reaches up to row `y`.
pub open spec fn first_cover(rows: Seq<int>, n: int, y: int) -> Option<int>
    decreases n,
{
    if n <= 0 {
        None
    } else {
        match first_cover(rows, n - 1, y) {
            Some(k) => Some(k),
            None => if rows[n - 1] <= y {
                Some(n - 1)
            } else {
                None
            },
        }
    }
}

/// The spans that the first `n` steps paint, in the order of the march. A step
/// paints when it rises above the watermark and the watermark is still on
/// screen; it paints from its own row, clipped to the screen, down to the
/// watermark.
pub open spec fn march_spans(rows: Seq<int>, colors: Seq<u32>, n: int) -> Seq<Span>
    decreases n,
{
    if n <= 0 {
        Seq::empty()
    } else {
        let before = march_spans(rows, colors, n - 1);
        let mark = watermark(rows, n - 1);
        if rows[n - 1] < mark && 0 < mark {
            before.push(
                Span {
                    top: clip(rows[n - 1]) as usize,
                    bottom: mark as usize,
                    color: colors[n - 1],
                },
            )
        } else {
            before
        }
    }
}

/// The colour of row `y` after the first `n` steps over a pixel that showed
/// `under`: the colour of the nearest step that reaches up to the row, and
/// `under` where no step does.
pub open spec fn pixel_after(rows: Seq<int>, colors: Seq<u32>, n: int, y: int, under: u32) -> u32 {
    match first_cover(rows, n, y) {
        Some(k) => colors[k],
        None => under,
    }
}

/// The colour of row `y` after the whole march over a pixel that showed `under`.
pub open spec fn column_pixel(rows: Seq<int>, colors: Seq<u32>, y: int, under: u32) -> u32 {
    pixel_after(rows, colors, rows.len() as int, y, under)
}

/// The watermark never exceeds the screen height and is the least row among
/// the steps taken, unless none of them is on screen.
pub proof fn lemma_watermark_is_least(rows: Seq<int>, n: int)
    requires
        0 <= n,
    ensures
        watermark(rows, n) <= SCREEN_HEIGHT,
        forall|k: int| 0 <= k < n ==> watermark(rows, n) <= #[trigger] rows[k],
        watermark(rows, n) == SCREEN_HEIGHT || exists|k: int|
            0 <= k < n && #[trigger] rows[k] == watermark(rows, n),
    decreases n,
{
    if n > 0 {
        lemma_watermark_is_least(rows, n - 1);
        if watermark(rows, n) != SCREEN_HEIGHT {
            if rows[n - 1] < watermark(rows, n - 1) {
                assert(rows[n - 1] == watermark(rows, n));
            } else {
                let k = choose|k: int|
                    0 <= k < n - 1 && #[trigger] rows[k] == watermark(rows, n - 1);
                assert(rows[k] == watermark(rows, n));
            }
        }
    }
}

/// Within one march the watermark only ever moves up the screen.
pub proof fn lemma_watermark_non_increasing(rows: Seq<int>, i: int, j: int)
    requires
        0 <= i <= j,
    ensures
        watermark(rows, j) <= watermark(rows, i),
    decreases j - i,
{
    if i < j {
        lemma_watermark_non_increasing(rows, i, j - 1);
    }
}

/// What `first_cover` finds: a step that reaches the row and has no nearer
/// step doing so; and it finds nothing only if no step reaches the row.
pub proof fn lemma_first_cover(rows: Seq<int>, n: int, y: int)
    requires
        0 <= n,
    ensures
        match first_cover(rows, n, y) {
            Some(k) => 0 <= k < n && rows[k] <= y && forall|j: int|
                0 <= j < k ==> #[trigger] rows[j] > y,
            None => forall|j: int| 0 <= j < n ==> #[trigger] rows[j] > y,
        },
    decreases n,
{
    if n > 0 {
        lemma_first_cover(rows, n - 1, y);
    }
}

/// A row of the screen is still open exactly while it lies above the watermark.
pub proof fn lemma_open_above_watermark(rows: Seq<int>, n: int, y: int)
    requires
        0 <= n,
        y < SCREEN_HEIGHT,
    ensures
        first_cover(rows, n, y) is None <==> y < watermark(rows, n),
    decreases n,
{
    if n > 0 {
        lemma_open_above_watermark(rows, n - 1, y);
    }
}

/// The spans of a march are stacked: each is a non-empty run of rows on the
/// screen, none reaches above the clipped watermark, and each later span ends
/// where an earlier one begins or higher. No two of them share a row.
pub proof fn lemma_spans_stacked(rows: Seq<int>, colors: Seq<u32>, n: int)
    requires
        0 <= n,
    ensures
        forall|a: int|
            0 <= a < march_spans(rows, colors, n).len() ==> {
                let span = #[trigger] march_spans(rows, colors, n)[a];
                clip(watermark(rows, n)) <= span.top < span.bottom <= SCREEN_HEIGHT
            },
        forall|a: int, b: int|
            0 <= a < b < march_spans(rows, colors, n).len() ==> (#[trigger] march_spans(
                rows,
                colors,
                n,
            )[b]).bottom <= (#[trigger] march_spans(rows, colors, n)[a]).top,
    decreases n,
{
    if n > 0 {
        lemma_spans_stacked(rows, colors, n - 1);
        lemma_watermark_is_least(rows, n - 1);
        let before = march_spans(rows, colors, n - 1);
        let spans = march_spans(rows, colors, n);
        let mark = watermark(rows, n - 1);
        assert(watermark(rows, n) <= mark);
        assert forall|a: int| 0 <= a < spans.len() implies {
            let span = #[trigger] spans[a];
            clip(watermark(rows, n)) <= span.top < span.bottom <= SCREEN_HEIGHT
        } by {
            if a < before.len() {
                assert(spans[a] == before[a]);
            }
        }
        assert forall|a: int, b: int| 0 <= a < b < spans.len() implies (#[trigger] spans[b]).bottom
            <= (#[trigger] spans[a]).top by {
            assert(spans[a] == before[a]);
            if b < before.len() {
                assert(spans[b] == before[b]);
            }
        }
    }
}

/// Once the watermark has reached the top of the screen, further steps paint
/// nothing.
pub proof fn lemma_filled_column_is_final(rows: Seq<int>, colors: Seq<u32>, k: int, n: int)
    requires
        0 <= k <= n,
        watermark(rows, k) <= 0,
    ensures
        march_spans(rows, colors, n) == march_spans(rows, colors, k),
    decreases n - k,
{
    if k < n {
        lemma_filled_column_is_final(rows, colors, k, n - 1);
        lemma_watermark_non_increasing(rows, k, n - 1);
    }
}

/// Every row of the screen is either painted by exactly one span of the march,
/// in the colour of the nearest step that reaches up to it, or by none, when
/// no step reaches it.
pub proof fn lemma_each_row_painted_once(rows: Seq<int>, colors: Seq<u32>, n: int, y: int)
    requires
        0 <= n,
        0 <= y < SCREEN_HEIGHT,
    ensures
        match first_cover(rows, n, y) {
            Some(k) => exists|a: int|
                {
                    &&& 0 <= a < march_spans(rows, colors, n).len()
                    &&& (#[trigger] march_spans(rows, colors, n)[a]).covers(y)
                    &&& march_spans(rows, colors, n)[a].color == colors[k]
                    &&& forall|b: int|
                        0 <= b < march_spans(rows, colors, n).len() && b != a ==> !(
                        #[trigger] march_spans(rows, colors, n)[b]).covers(y)
                },
            None => forall|a: int|
                0 <= a < march_spans(rows, colors, n).len() ==> !(#[trigger] march_spans(
                    rows,
                    colors,
                    n,
                )[a]).covers(y),
        },
    decreases n,
{
    let spans = march_spans(rows, colors, n);
    lemma_spans_stacked(rows, colors, n);
    lemma_open_above_watermark(rows, n, y);
    if n > 0 {
        lemma_each_row_painted_once(rows, colors, n - 1, y);
        lemma_open_above_watermark(rows, n - 1, y);
        lemma_watermark_is_least(rows, n - 1);
        let before = march_spans(rows, colors, n - 1);
        match first_cover(rows, n, y) {
            Some(k) => {
                let a = if first_cover(rows, n - 1, y) is Some {
                    choose|a: int|
                        0 <= a < before.len() && (#[trigger] before[a]).covers(y) && before[a].color
                            == colors[k]
                } else {
                    before.len() as int
                };
                assert(0 <= a < spans.len());
                if first_cover(rows, n - 1, y) is Some {
                    assert(spans[a] == before[a]);
                }
                assert(spans[a].covers(y));
                assert(spans[a].color == colors[k]);
                assert forall|b: int| 0 <= b < spans.len() && b != a implies !(
                #[trigger] spans[b]).covers(y) by {
                    if b < a {
                        assert(spans[a].bottom <= spans[b].top);
                    } else {
                        assert(spans[b].bottom <= spans[a].top);
                    }
                }
            },
            None => {},
        }
    }
}

/// Over ground that projects onto one and the same row at every step, a march
/// paints a single span: from that row, clipped, to the bottom of the screen,
/// in the colour of the nearest step. It paints nothing if the row lies below
/// the screen.
pub proof fn lemma_level_ground_one_span(rows: Seq<int>, colors: Seq<u32>, n: int, row: int)
    requires
        1 <= n,
        forall|k: int| 0 <= k < n ==> #[trigger] rows[k] == row,
    ensures
        row < SCREEN_HEIGHT ==> march_spans(rows, colors, n) == seq![
            Span { top: clip(row) as usize, bottom: SCREEN_HEIGHT, color: colors[0] },
        ],
        row >= SCREEN_HEIGHT ==> march_spans(rows, colors, n) == Seq::<Span>::empty(),
    decreases n,
{
    reveal_with_fuel(march_spans, 2);
    reveal_with_fuel(watermark, 2);
    if n > 1 {
        lemma_level_ground_one_span(rows, colors, n - 1, row);
        lemma_watermark_is_least(rows, n - 1);
        assert(rows[n - 2] == row);
    } else {
        assert(rows[0] == row);
        if row < SCREEN_HEIGHT {
            assert(march_spans(rows, colors, n) =~= seq![
                Span { top: clip(row) as usize, bottom: SCREEN_HEIGHT, color: colors[0] },
            ]);
        }
    }
}

} // verus!
