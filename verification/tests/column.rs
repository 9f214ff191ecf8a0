use voxel_space::column::{march_column, paint_spans, render_column};
use voxel_space::occlusion::Span;
use voxel_space::pixel::{from_rgb8_to_u32, SCREEN_HEIGHT, SCREEN_WIDTH, SKY};
use voxel_space::snapshot::{Cell, Snapshot, ELEVATIONS};
use voxel_space::terrain::{Raster, Terrain, MAP_CELLS};

/// Terrain whose cell `(x, y)` has elevation `x mod 256` and colour `(x mod 256, y mod 256, 7)`.
fn striped_terrain() -> Terrain {
    let mut heights = vec![0u8; MAP_CELLS];
    let mut colors = vec![0u8; 3 * MAP_CELLS];
    for y in 0..1024usize {
        for x in 0..1024usize {
            let at = y * 1024 + x;
            heights[at] = (x % 256) as u8;
            colors[3 * at] = (x % 256) as u8;
            colors[3 * at + 1] = (y % 256) as u8;
            colors[3 * at + 2] = 7;
        }
    }
    Terrain::new(
        Raster { width: 1024, height: 1024, bytes: heights },
        Raster { width: 1024, height: 1024, bytes: colors },
    )
    .unwrap()
}

fn striped_color(x: i32, y: i32) -> u32 {
    from_rgb8_to_u32(x.rem_euclid(256) as u8, y.rem_euclid(256) as u8, 7)
}

/// A snapshot in which the ray of column `c` visits the cells `(k, c)` for
/// `k = 0, 1, ..` and the projected row of step `k` over elevation `h` is `row(k, h)`.
fn snapshot_with(depth: usize, row: impl Fn(usize, u8) -> i32) -> Snapshot {
    let mut rows = Vec::with_capacity(depth * ELEVATIONS);
    for step in 0..depth {
        for h in 0..ELEVATIONS {
            rows.push(row(step, h as u8));
        }
    }
    let rays = (0..SCREEN_WIDTH)
        .map(|column| (0..depth).map(|k| Cell { x: k as i32, y: column as i32 }).collect())
        .collect();
    Snapshot::new(rows, rays).unwrap()
}

fn by_step(rows: &'static [i32]) -> impl Fn(usize, u8) -> i32 {
    move |step, _| rows[step]
}

fn frame_of(pixel: u32) -> Vec<u32> {
    vec![pixel; SCREEN_WIDTH * SCREEN_HEIGHT]
}

fn column_of(buffer: &[u32], column: usize) -> Vec<u32> {
    (0..SCREEN_HEIGHT).map(|y| buffer[SCREEN_WIDTH * y + column]).collect()
}

#[test]
fn nearer_terrain_hides_what_lies_behind_and_below() {
    let terrain = striped_terrain();
    let snapshot = snapshot_with(4, by_step(&[150, 160, 100, 120]));
    let spans = march_column(&terrain, &snapshot, 5);
    assert_eq!(
        spans,
        vec![
            Span { top: 150, bottom: 200, color: striped_color(0, 5) },
            Span { top: 100, bottom: 150, color: striped_color(2, 5) },
        ]
    );
}

#[test]
fn a_step_level_with_the_watermark_paints_nothing() {
    let terrain = striped_terrain();
    let snapshot = snapshot_with(3, by_step(&[120, 120, 119]));
    let spans = march_column(&terrain, &snapshot, 0);
    assert_eq!(
        spans,
        vec![
            Span { top: 120, bottom: 200, color: striped_color(0, 0) },
            Span { top: 119, bottom: 120, color: striped_color(2, 0) },
        ]
    );
}

#[test]
fn terrain_below_the_screen_paints_nothing() {
    let terrain = striped_terrain();
    let snapshot = snapshot_with(4, by_step(&[250, 200, 1_000_000, 199]));
    let spans = march_column(&terrain, &snapshot, 319);
    assert_eq!(spans, vec![Span { top: 199, bottom: 200, color: striped_color(3, 319) }]);
}

#[test]
fn terrain_above_the_screen_is_clipped_to_the_top_row() {
    let terrain = striped_terrain();
    let snapshot = snapshot_with(1, by_step(&[-5]));
    let spans = march_column(&terrain, &snapshot, 1);
    assert_eq!(spans, vec![Span { top: 0, bottom: 200, color: striped_color(0, 1) }]);

    let snapshot = snapshot_with(2, by_step(&[i32::MIN, i32::MIN]));
    let spans = march_column(&terrain, &snapshot, 1);
    assert_eq!(spans, vec![Span { top: 0, bottom: 200, color: striped_color(0, 1) }]);
}

#[test]
fn a_filled_column_ends_the_march() {
    let terrain = striped_terrain();
    let snapshot = snapshot_with(5, by_step(&[100, 0, -50, -70, 30]));
    let spans = march_column(&terrain, &snapshot, 9);
    assert_eq!(
        spans,
        vec![
            Span { top: 100, bottom: 200, color: striped_color(0, 9) },
            Span { top: 0, bottom: 100, color: striped_color(1, 9) },
        ]
    );
}

#[test]
fn a_march_without_steps_paints_nothing() {
    let terrain = striped_terrain();
    let snapshot = snapshot_with(0, |_, _| 0);
    assert_eq!(march_column(&terrain, &snapshot, 100), Vec::new());
    let mut buffer = frame_of(42);
    render_column(&terrain, &snapshot, 100, &mut buffer);
    assert_eq!(buffer, frame_of(42));
}

#[test]
fn the_projected_row_follows_the_elevation_under_the_ray() {
    let terrain = striped_terrain();
    // Elevation under step k is k, so the rows are 180, 179, 178, ..
    let snapshot = snapshot_with(4, |_, h| 180 - h as i32);
    let spans = march_column(&terrain, &snapshot, 2);
    assert_eq!(
        spans,
        vec![
            Span { top: 180, bottom: 200, color: striped_color(0, 2) },
            Span { top: 179, bottom: 180, color: striped_color(1, 2) },
            Span { top: 178, bottom: 179, color: striped_color(2, 2) },
            Span { top: 177, bottom: 178, color: striped_color(3, 2) },
        ]
    );
}

#[test]
fn the_projected_row_follows_the_step() {
    let terrain = striped_terrain();
    let snapshot = snapshot_with(3, |step, h| 100 * (step as i32 + 1) - 151 * h as i32);
    // Rows: step 0 over elevation 0: 100; step 1 over 1: 49; step 2 over 2: -2.
    let spans = march_column(&terrain, &snapshot, 0);
    assert_eq!(
        spans,
        vec![
            Span { top: 100, bottom: 200, color: striped_color(0, 0) },
            Span { top: 49, bottom: 100, color: striped_color(1, 0) },
            Span { top: 0, bottom: 49, color: striped_color(2, 0) },
        ]
    );
}

#[test]
fn the_watermark_only_moves_up_and_spans_never_overlap() {
    let terrain = striped_terrain();
    let snapshot = snapshot_with(40, |step, h| {
        let wobble = ((step * 37 + h as usize * 11) % 90) as i32;
        190 - 3 * step as i32 + wobble
    });
    for column in [0usize, 1, 160, 319] {
        let spans = march_column(&terrain, &snapshot, column);
        assert!(!spans.is_empty());
        let mut watermark = SCREEN_HEIGHT;
        for span in &spans {
            assert!(span.top < span.bottom);
            assert_eq!(span.bottom, watermark);
            assert!(span.top < watermark);
            watermark = span.top;
        }
    }
}

#[test]
fn every_row_is_painted_once_or_left_as_it_was() {
    let terrain = striped_terrain();
    let snapshot = snapshot_with(6, by_step(&[170, 180, 130, 131, 90, 95]));
    let column = 17;
    let spans = march_column(&terrain, &snapshot, column);
    let mut buffer = frame_of(SKY);
    render_column(&terrain, &snapshot, column, &mut buffer);
    for y in 0..SCREEN_HEIGHT {
        let covering: Vec<&Span> = spans.iter().filter(|s| s.top <= y && y < s.bottom).collect();
        let pixel = buffer[SCREEN_WIDTH * y + column];
        if y < 90 {
            assert!(covering.is_empty());
            assert_eq!(pixel, SKY);
        } else {
            assert_eq!(covering.len(), 1);
            assert_eq!(pixel, covering[0].color);
        }
    }
    let expected: Vec<u32> = (0..SCREEN_HEIGHT)
        .map(|y| {
            if y < 90 {
                SKY
            } else if y < 130 {
                striped_color(4, 17)
            } else if y < 170 {
                striped_color(2, 17)
            } else {
                striped_color(0, 17)
            }
        })
        .collect();
    assert_eq!(column_of(&buffer, column), expected);
}

#[test]
fn rendering_a_column_leaves_the_others_alone() {
    let terrain = striped_terrain();
    let snapshot = snapshot_with(2, by_step(&[50, 10]));
    let mut buffer: Vec<u32> =
        (0..SCREEN_WIDTH * SCREEN_HEIGHT).map(|i| i as u32 | 0xFF00_0000).collect();
    let before = buffer.clone();
    render_column(&terrain, &snapshot, 300, &mut buffer);
    for i in 0..buffer.len() {
        let (column, y) = (i % SCREEN_WIDTH, i / SCREEN_WIDTH);
        if column != 300 || y < 10 {
            assert_eq!(buffer[i], before[i]);
        } else if y < 50 {
            assert_eq!(buffer[i], striped_color(1, 300));
        } else {
            assert_eq!(buffer[i], striped_color(0, 300));
        }
    }
}

#[test]
fn rendering_a_column_twice_changes_nothing_more() {
    let terrain = striped_terrain();
    let snapshot = snapshot_with(3, by_step(&[150, 20, 60]));
    let mut once = frame_of(SKY);
    render_column(&terrain, &snapshot, 8, &mut once);
    let mut twice = once.clone();
    render_column(&terrain, &snapshot, 8, &mut twice);
    assert_eq!(once, twice);
}

#[test]
fn rays_may_leave_the_map() {
    let terrain = striped_terrain();
    let rows: Vec<i32> = vec![100; ELEVATIONS];
    let rays: Vec<Vec<Cell>> = (0..SCREEN_WIDTH)
        .map(|column| vec![Cell { x: -1 - column as i32, y: 1024 * 3 + 2 }])
        .collect();
    let snapshot = Snapshot::new(rows, rays).unwrap();
    let spans = march_column(&terrain, &snapshot, 4);
    // Cell (-5, 3074) falls on grid cell (1019, 2).
    assert_eq!(spans, vec![Span { top: 100, bottom: 200, color: from_rgb8_to_u32(251, 2, 7) }]);
}

#[test]
fn painting_spans_fills_their_rows_in_one_column() {
    let mut buffer = frame_of(1);
    let spans = vec![
        Span { top: 190, bottom: 200, color: 5 },
        Span { top: 0, bottom: 2, color: 6 },
    ];
    paint_spans(&mut buffer, 3, &spans);
    for i in 0..buffer.len() {
        let (column, y) = (i % SCREEN_WIDTH, i / SCREEN_WIDTH);
        let expected = if column != 3 {
            1
        } else if y >= 190 {
            5
        } else if y < 2 {
            6
        } else {
            1
        };
        assert_eq!(buffer[i], expected);
    }
}

#[test]
fn painting_spans_cuts_them_off_at_the_bottom_of_the_screen() {
    let mut buffer = frame_of(1);
    let spans = vec![
        Span { top: 198, bottom: 5000, color: 5 },
        Span { top: 200, bottom: 300, color: 6 },
        Span { top: usize::MAX, bottom: usize::MAX, color: 7 },
    ];
    paint_spans(&mut buffer, 319, &spans);
    let mut expected = vec![1u32; SCREEN_HEIGHT];
    expected[198] = 5;
    expected[199] = 5;
    assert_eq!(column_of(&buffer, 319), expected);
    assert_eq!(column_of(&buffer, 318), vec![1u32; SCREEN_HEIGHT]);
}

#[test]
fn painting_an_empty_or_inverted_span_changes_nothing() {
    let mut buffer = frame_of(1);
    let spans = vec![
        Span { top: 10, bottom: 10, color: 5 },
        Span { top: 50, bottom: 20, color: 6 },
    ];
    paint_spans(&mut buffer, 0, &spans);
    assert_eq!(buffer, frame_of(1));
    paint_spans(&mut buffer, 0, &Vec::new());
    assert_eq!(buffer, frame_of(1));
}

#[test]
fn later_spans_paint_over_earlier_ones() {
    let mut buffer = frame_of(1);
    let spans = vec![
        Span { top: 10, bottom: 20, color: 5 },
        Span { top: 15, bottom: 25, color: 6 },
    ];
    paint_spans(&mut buffer, 7, &spans);
    let column = column_of(&buffer, 7);
    assert_eq!(column[9], 1);
    assert_eq!(column[10], 5);
    assert_eq!(column[14], 5);
    assert_eq!(column[15], 6);
    assert_eq!(column[24], 6);
    assert_eq!(column[25], 1);
}
