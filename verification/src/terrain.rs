//! The terrain: a square, endlessly tiling grid of elevations and colours.

use vstd::prelude::*;
use crate::pixel::{packed, from_rgb8_to_u32};

verus! {

/// Side length of the terrain grid, a power of two.
pub const MAP_SIZE: i32 = 1024;

/// The bits of a coordinate that survive wrapping.
pub const MAP_MASK: i32 = MAP_SIZE - 1;

/// Number of cells in the terrain grid.
pub const MAP_CELLS: usize = 1_048_576;

/// A world coordinate folded onto the grid: the terrain repeats every `MAP_SIZE` cells.
pub open spec fn wrap(c: int) -> int {
    c % (MAP_SIZE as int)
}

/// Flat, row-major index of the grid cell that the world cell `(x, y)` falls on.
pub open spec fn cell_index(x: int, y: int) -> int {
    MAP_SIZE * wrap(y) + wrap(x)
}

/// The side length is a power of two, so masking a coordinate reduces it
/// modulo the side length, whatever its sign.
pub proof fn lemma_mask_wraps(c: i32)
    ensures
        MAP_SIZE & MAP_MASK == 0,
        c & MAP_MASK == wrap(c as int),
        0 <= c & MAP_MASK < MAP_SIZE,
{
    assert(1024i32 & 1023i32 == 0) by (bit_vector);
    assert(c & 1023i32 == c % 1024 && 0 <= (c & 1023i32) < 1024) by (bit_vector);
}

/// Flat index into the elevation and colour arrays for the world cell `(x, y)`.
pub fn map_offset(x: i32, y: i32) -> (offset: usize)
    ensures
        offset == cell_index(x as int, y as int),
        offset < MAP_CELLS,
{
    let col: i32 = x & MAP_MASK;
    let row: i32 = y & MAP_MASK;
    proof {
        lemma_mask_wraps(x);
        lemma_mask_wraps(y);
    }
    (MAP_SIZE * row + col) as usize
}

/// A decoded raster image: its dimensions and its samples, row by row.
#[derive(Debug)]
pub struct Raster {
    pub width: u32,
    pub height: u32,
    pub bytes: Vec<u8>,
}

/// Why a pair of rasters cannot serve as terrain.
#[derive(Clone, Copy, Debug, PartialEq, Eq, Structural)]
pub enum TerrainError {
    /// The heightmap and the colormap differ in width or height.
    DimensionMismatch,
    /// The rasters agree with each other but are not `MAP_SIZE` by `MAP_SIZE`.
    NotMapSized,
    /// The heightmap does not hold exactly one byte per cell.
    HeightmapBytes,
    /// The colormap does not hold exactly three bytes per cell.
    ColormapBytes,
}

/// The first reason, if any, for which rasters of these dimensions and sample
/// counts are rejected as terrain.
pub open spec fn terrain_fault(
    height_dims: (u32, u32),
    height_len: nat,
    color_dims: (u32, u32),
    color_len: nat,
) -> Option<TerrainError> {
    if height_dims != color_dims {
        Some(TerrainError::DimensionMismatch)
    } else if height_dims != (MAP_SIZE as u32, MAP_SIZE as u32) {
        Some(TerrainError::NotMapSized)
    } else if height_len != MAP_CELLS {
        Some(TerrainError::HeightmapBytes)
    } else if color_len != 3 * MAP_CELLS {
        Some(TerrainError::ColormapBytes)
    } else {
        None
    }
}

/// Elevation and colour of every grid cell, as two parallel arrays that share
/// one index: a byte of elevation and three bytes of red, green and blue per cell.
#[derive(Debug)]
pub struct Terrain {
    heights: Vec<u8>,
    colors: Vec<u8>,
}

impl Terrain {
    /// The elevations, one per cell, in row-major order.
    pub closed spec fn heights(&self) -> Seq<u8> {
        self.heights@
    }

    /// The colour channels, three per cell, in row-major order.
    pub closed spec fn colors(&self) -> Seq<u8> {
        self.colors@
    }

    /// Both arrays cover the whole grid.
    #[verifier::type_invariant]
    pub open spec fn wf(&self) -> bool {
        &&& self.heights().len() == MAP_CELLS
        &&& self.colors().len() == 3 * MAP_CELLS
    }

    /// Elevation of the terrain under the world cell `(x, y)`.
    pub open spec fn elevation_at(&self, x: int, y: int) -> u8 {
        self.heights()[cell_index(x, y)]
    }

    /// Packed colour of the terrain under the world cell `(x, y)`.
    pub open spec fn color_at(&self, x: int, y: int) -> u32 {
        let i = cell_index(x, y);
        packed(self.colors()[3 * i], self.colors()[3 * i + 1], self.colors()[3 * i + 2]) as u32
    }

    /// Builds the terrain from a grayscale heightmap and an RGB colormap,
    /// rejecting rasters whose dimensions or sample counts do not fit the grid.
    pub fn new(heightmap: Raster, colormap: Raster) -> (result: Result<Terrain, TerrainError>)
        ensures
            match result {
                Ok(terrain) => {
                    &&& terrain_fault(
                        (heightmap.width, heightmap.height),
                        heightmap.bytes@.len(),
                        (colormap.width, colormap.height),
                        colormap.bytes@.len(),
                    ) is None
                    &&& terrain.wf()
                    &&& terrain.heights() == heightmap.bytes@
                    &&& terrain.colors() == colormap.bytes@
                },
                Err(e) => terrain_fault(
                    (heightmap.width, heightmap.height),
                    heightmap.bytes@.len(),
                    (colormap.width, colormap.height),
                    colormap.bytes@.len(),
                ) == Some(e),
            },
    {
        if heightmap.width != colormap.width || heightmap.height != colormap.height {
            return Err(TerrainError::DimensionMismatch);
        }
        if heightmap.width != MAP_SIZE as u32 || heightmap.height != MAP_SIZE as u32 {
            return Err(TerrainError::NotMapSized);
        }
        if heightmap.bytes.len() != MAP_CELLS {
            return Err(TerrainError::HeightmapBytes);
        }
        if colormap.bytes.len() != 3 * MAP_CELLS {
            return Err(TerrainError::ColormapBytes);
        }
        Ok(Terrain { heights: heightmap.bytes, colors: colormap.bytes })
    }

    /// Samples the elevation under the world cell `(x, y)`.
    pub fn elevation(&self, x: i32, y: i32) -> (h: u8)
        ensures
            h == self.elevation_at(x as int, y as int),
    {
        proof {
            use_type_invariant(self);
        }
        self.heights[map_offset(x, y)]
    }

    /// Samples the colour under the world cell `(x, y)`, packed as a pixel.
    pub fn color(&self, x: i32, y: i32) -> (c: u32)
        ensures
            c == self.color_at(x as int, y as int),
    {
        proof {
            use_type_invariant(self);
        }
        let i: usize = map_offset(x, y);
        from_rgb8_to_u32(self.colors[i * 3], self.colors[i * 3 + 1], self.colors[i * 3 + 2])
    }
}

/// Every world cell falls on a grid cell, and moving by whole map widths in
/// either axis does not change which one.
pub proof fn lemma_cell_index_wraps(x: int, y: int, k: int)
    ensures
        0 <= cell_index(x, y) < MAP_SIZE * MAP_SIZE == MAP_CELLS,
        cell_index(x + k * MAP_SIZE, y) == cell_index(x, y),
        cell_index(x, y + k * MAP_SIZE) == cell_index(x, y),
{
    vstd::arithmetic::div_mod::lemma_mod_multiples_vanish(k, x, MAP_SIZE as int);
    vstd::arithmetic::div_mod::lemma_mod_multiples_vanish(k, y, MAP_SIZE as int);
    assert(x + k * MAP_SIZE == MAP_SIZE * k + x) by (nonlinear_arith);
    assert(y + k * MAP_SIZE == MAP_SIZE * k + y) by (nonlinear_arith);
}

} // verus!
