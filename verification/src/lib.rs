//! Voxel-space terrain rendering on integers, with machine-checked contracts.
//!
//! A frame is drawn column by column. For each screen column a ray is marched
//! away from the eye over a tiling grid of elevations and colours; each step
//! projects the terrain under it onto a screen row, and paints the part of the
//! column between that row and the highest row painted so far. Nearer terrain
//! thereby hides whatever lies behind and below it.
//!
//! The renderer works on whole numbers only. The camera reaches it as a
//! [`snapshot::Snapshot`]: the cells under every ray and the screen row of every
//! elevation at every step. How a camera position, angle and eye height turn
//! into those numbers is left to the caller.
//!
//! - [`pixel`]: packed pixels, screen dimensions, clearing a buffer
//! - [`terrain`]: the grid, its wraparound indexing, and its validation
//! - [`decode`]: terrain from images decoded by the `image` crate
//! - [`snapshot`]: the per-frame view of the camera
//! - [`occlusion`]: the occlusion rule of one column, and what follows from it
//! - [`column`]: marching and painting one column
//! - [`frame`]: rendering all columns, and their independence

pub mod pixel;
pub mod terrain;
pub mod decode;
pub mod snapshot;
pub mod occlusion;
pub mod column;
pub mod frame;
