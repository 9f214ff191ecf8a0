//! What one frame needs to know of the camera, reduced to integers.
//!
//! A snapshot fixes, for every screen column, the world cells that the column's
//! ray visits, nearest first, and, for every step of the march and every
//! elevation, the screen row onto which terrain of that elevation projects at
//! that step. Steps count from zero: step `k` lies `k + 1` units from the eye.

use vstd::prelude::*;
use crate::pixel::SCREEN_WIDTH;

verus! {

/// Number of distinct elevation values.
pub const ELEVATIONS: usize = 256;

/// Number of steps in a march for a view distance in whole world units: one
/// step per unit, the first one unit from the eye and the last at the view
/// distance itself. A view distance of zero or less gives no steps.
pub fn march_steps(view_distance: i32) -> (steps: usize)
    ensures
        steps == if view_distance > 0 {
            view_distance as nat
        } else {
            0
        },
{
    if view_distance > 0 {
        view_distance as usize
    } else {
        0
    }
}

/// A cell of the unbounded world grid.
#[derive(Clone, Copy, Debug, PartialEq, Eq, Structural)]
pub struct Cell {
    pub x: i32,
    pub y: i32,
}

/// Why a projection table and a set of rays do not form a snapshot.
#[derive(Clone, Copy, Debug, PartialEq, Eq, Structural)]
pub enum SnapshotError {
    /// The projection table is not a whole number of steps long.
    RowTable,
    /// There is not exactly one ray per screen column.
    RayCount,
    /// Some ray does not have one cell per step of the projection table.
    RayLength,
}

/// The first reason, if any, for which a projection table of `rows` entries and
/// rays of the given lengths are rejected.
pub open spec fn snapshot_fault(rows: nat, ray_lengths: Seq<nat>) -> Option<SnapshotError> {
    if rows % (ELEVATIONS as nat) != 0 {
        Some(SnapshotError::RowTable)
    } else if ray_lengths.len() != SCREEN_WIDTH {
        Some(SnapshotError::RayCount)
    } else if exists|column: int|
        0 <= column < ray_lengths.len() && #[trigger] ray_lengths[column] != rows / (
        ELEVATIONS as nat) {
        Some(SnapshotError::RayLength)
    } else {
        None
    }
}

/// The lengths of a sequence of rays.
pub open spec fn lengths(rays: Seq<Vec<Cell>>) -> Seq<nat> {
    Seq::new(rays.len(), |column: int| rays[column]@.len())
}

/// The camera as the renderer sees it during one frame.
#[derive(Debug)]
pub struct Snapshot {
    depth: usize,
    rows: Vec<i32>,
    rays: Vec<Vec<Cell>>,
}

impl Snapshot {
    /// Number of steps in every march.
    pub closed spec fn depth(&self) -> nat {
        self.depth as nat
    }

    /// The projection table, step by step, `ELEVATIONS` entries per step.
    pub closed spec fn rows(&self) -> Seq<i32> {
        self.rows@
    }

    /// Number of rays.
    pub closed spec fn columns(&self) -> nat {
        self.rays@.len()
    }

    /// The cells that the ray of `column` visits, nearest first.
    pub closed spec fn ray(&self, column: int) -> Seq<Cell> {
        self.rays@[column]@
    }

    /// The table has a row for every step and elevation, and every screen
    /// column has a ray with one cell per step.
    #[verifier::type_invariant]
    pub open spec fn wf(&self) -> bool {
        &&& self.rows().len() == self.depth() * ELEVATIONS
        &&& self.columns() == SCREEN_WIDTH
        &&& forall|column: int|
            0 <= column < SCREEN_WIDTH ==> (#[trigger] self.ray(column)).len() == self.depth()
    }

    /// Screen row onto which terrain of the given elevation projects at `step`.
    pub open spec fn row_at(&self, step: int, elevation: u8) -> int {
        self.rows()[step * ELEVATIONS + elevation] as int
    }

    /// World cell that the ray of `column` visits at `step`.
    pub open spec fn cell_at(&self, column: int, step: int) -> Cell {
        self.ray(column)[step]
    }

    /// Bundles a projection table and one ray per screen column, after checking
    /// that they agree on the number of steps.
    pub fn new(rows: Vec<i32>, rays: Vec<Vec<Cell>>) -> (result: Result<Snapshot, SnapshotError>)
        ensures
            match result {
                Ok(snapshot) => {
                    &&& snapshot_fault(rows@.len(), lengths(rays@)) is None
                    &&& snapshot.wf()
                    &&& snapshot.depth() == rows@.len() / (ELEVATIONS as nat)
                    &&& snapshot.rows() == rows@
                    &&& forall|column: int|
                        0 <= column < SCREEN_WIDTH ==> #[trigger] snapshot.ray(column)
                            == rays@[column]@
                },
                Err(e) => snapshot_fault(rows@.len(), lengths(rays@)) == Some(e),
            },
    {
        if rows.len() % ELEVATIONS != 0 {
            return Err(SnapshotError::RowTable);
        }
        if rays.len() != SCREEN_WIDTH {
            return Err(SnapshotError::RayCount);
        }
        let depth: usize = rows.len() / ELEVATIONS;
        let mut column: usize = 0;
        while column < SCREEN_WIDTH
            invariant
                column <= SCREEN_WIDTH,
                rays@.len() == SCREEN_WIDTH,
                rows@.len() % (ELEVATIONS as nat) == 0,
                depth == rows@.len() / (ELEVATIONS as nat),
                forall|c: int| 0 <= c < column ==> (#[trigger] rays@[c])@.len() == depth,
            decreases SCREEN_WIDTH - column,
        {
            if rays[column].len() != depth {
                assert(lengths(rays@)[column as int] != rows@.len() / (ELEVATIONS as nat));
                return Err(SnapshotError::RayLength);
            }
            column += 1;
        }
        assert forall|c: int| 0 <= c < lengths(rays@).len() implies #[trigger] lengths(rays@)[c]
            == rows@.len() / (ELEVATIONS as nat) by {
            assert(rays@[c]@.len() == depth);
        }
        Ok(Snapshot { depth, rows, rays })
    }

    /// Number of steps in every march.
    pub fn steps(&self) -> (n: usize)
        ensures
            n == self.depth(),
    {
        self.depth
    }

    /// World cell that the ray of `column` visits at `step`.
    pub fn cell(&self, column: usize, step: usize) -> (cell: Cell)
        requires
            column < SCREEN_WIDTH,
            step < self.depth(),
        ensures
            cell == self.cell_at(column as int, step as int),
    {
        proof {
            use_type_invariant(self);
            assert(self.ray(column as int).len() == self.depth());
        }
        self.rays[column][step]
    }

    /// Screen row onto which terrain of the given elevation projects at `step`.
    pub fn row(&self, step: usize, elevation: u8) -> (row: i32)
        requires
            step < self.depth(),
        ensures
            row == self.row_at(step as int, elevation),
    {
        let entries: usize = self.rows.len();
        proof {
            use_type_invariant(self);
            assert(step * ELEVATIONS + elevation < entries) by (nonlinear_arith)
                requires
                    step < self.depth,
                    elevation < ELEVATIONS,
                    entries == self.depth * ELEVATIONS,
            ;
        }
        self.rows[step * ELEVATIONS + elevation as usize]
    }
}

} // verus!
