use voxel_space::pixel::SCREEN_WIDTH;
use voxel_space::snapshot::{march_steps, Cell, Snapshot, SnapshotError, ELEVATIONS};

fn rays(count: usize, length: usize) -> Vec<Vec<Cell>> {
    (0..count)
        .map(|column| {
            (0..length).map(|step| Cell { x: column as i32, y: step as i32 }).collect()
        })
        .collect()
}

fn table(depth: usize) -> Vec<i32> {
    (0..depth * ELEVATIONS).map(|i| i as i32).collect()
}

#[test]
fn snapshot_keeps_table_and_rays() {
    let snapshot = Snapshot::new(table(3), rays(SCREEN_WIDTH, 3)).unwrap();
    assert_eq!(snapshot.steps(), 3);
    assert_eq!(snapshot.row(0, 0), 0);
    assert_eq!(snapshot.row(0, 255), 255);
    assert_eq!(snapshot.row(1, 0), 256);
    assert_eq!(snapshot.row(2, 17), 2 * 256 + 17);
    assert_eq!(snapshot.cell(0, 0), Cell { x: 0, y: 0 });
    assert_eq!(snapshot.cell(319, 2), Cell { x: 319, y: 2 });
    assert_eq!(snapshot.cell(7, 1), Cell { x: 7, y: 1 });
}

#[test]
fn snapshot_may_have_no_steps() {
    let snapshot = Snapshot::new(Vec::new(), rays(SCREEN_WIDTH, 0)).unwrap();
    assert_eq!(snapshot.steps(), 0);
}

#[test]
fn snapshot_rejects_a_ragged_table() {
    let result = Snapshot::new(vec![0; 255], rays(SCREEN_WIDTH, 0));
    assert_eq!(result.err(), Some(SnapshotError::RowTable));
    let result = Snapshot::new(vec![0; 257], rays(SCREEN_WIDTH, 1));
    assert_eq!(result.err(), Some(SnapshotError::RowTable));
}

#[test]
fn snapshot_rejects_a_wrong_number_of_rays() {
    let result = Snapshot::new(table(2), rays(SCREEN_WIDTH - 1, 2));
    assert_eq!(result.err(), Some(SnapshotError::RayCount));
    let result = Snapshot::new(table(2), rays(SCREEN_WIDTH + 1, 2));
    assert_eq!(result.err(), Some(SnapshotError::RayCount));
    let result = Snapshot::new(table(2), Vec::new());
    assert_eq!(result.err(), Some(SnapshotError::RayCount));
}

#[test]
fn snapshot_rejects_a_ray_of_the_wrong_length() {
    let mut uneven = rays(SCREEN_WIDTH, 2);
    uneven[200].pop();
    assert_eq!(Snapshot::new(table(2), uneven).err(), Some(SnapshotError::RayLength));
    let mut uneven = rays(SCREEN_WIDTH, 2);
    uneven[319].push(Cell { x: 0, y: 0 });
    assert_eq!(Snapshot::new(table(2), uneven).err(), Some(SnapshotError::RayLength));
    assert_eq!(
        Snapshot::new(table(2), rays(SCREEN_WIDTH, 3)).err(),
        Some(SnapshotError::RayLength)
    );
}

#[test]
fn snapshot_reports_the_first_fault() {
    assert_eq!(Snapshot::new(vec![0; 1], Vec::new()).err(), Some(SnapshotError::RowTable));
    assert_eq!(Snapshot::new(table(1), rays(3, 9)).err(), Some(SnapshotError::RayCount));
}

#[test]
fn a_march_takes_one_step_per_unit_of_view_distance() {
    assert_eq!(march_steps(400), 400);
    assert_eq!(march_steps(2), 2);
    assert_eq!(march_steps(1), 1);
    assert_eq!(march_steps(i32::MAX), i32::MAX as usize);
}

#[test]
fn a_march_takes_no_step_without_view_distance() {
    assert_eq!(march_steps(0), 0);
    assert_eq!(march_steps(-1), 0);
    assert_eq!(march_steps(i32::MIN), 0);
}
