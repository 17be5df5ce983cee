//! Game loop pacing and the terrain payload sent to the display.

use vstd::prelude::*;

use crate::constants::NANOS_PER_SEC;
use crate::display_scale::{scale_side, scaled_side};
use crate::terrain::coastline::{coastline_crossings_spec, extract_coastline_crossings, CoastCrossing};
use crate::terrain::grid::{TerrainGrid, TerrainHeader};

verus! {

/// Nominal duration of one tick at 1x speed, in nanoseconds (30 Hz).
pub const TICK_DURATION_NANOS: u64 = NANOS_PER_SEC / 30;

/// Largest width or height of the elevation grid sent to the display.
pub const MAX_PAYLOAD_DIM: u32 = 512;

/// Size of the display grid for a terrain of `w` by `h` cells: the terrain's
/// own size when it fits, else each side multiplied by the binary64 scale
/// `512 / max(w, h)` in binary64 arithmetic and truncated (see
/// [`scaled_side`]).
pub open spec fn payload_dims(w: u32, h: u32) -> (u32, u32) {
    if w <= MAX_PAYLOAD_DIM && h <= MAX_PAYLOAD_DIM {
        (w, h)
    } else {
        let m: nat = if w >= h {
            w as nat
        } else {
            h as nat
        };
        (scaled_side(w as nat, m) as u32, scaled_side(h as nat, m) as u32)
    }
}

/// Size of the display grid for a terrain of `w` by `h` cells.
pub fn payload_dimensions(w: u32, h: u32) -> (d: (u32, u32))
    ensures
        d == payload_dims(w, h),
        d.0 <= MAX_PAYLOAD_DIM,
        d.1 <= MAX_PAYLOAD_DIM,
{
    if w <= MAX_PAYLOAD_DIM && h <= MAX_PAYLOAD_DIM {
        (w, h)
    } else {
        let m: u32 = if w >= h {
            w
        } else {
            h
        };
        (scale_side(w, m), scale_side(h, m))
    }
}

/// Terrain data for the display: the size of the downsampled elevation
/// grid, the source header, and the coastline crossings of the full grid.
#[derive(Debug, Clone)]
pub struct TerrainPayloadLayout {
    /// Width of the downsampled elevation grid.
    pub width: u32,
    /// Height of the downsampled elevation grid.
    pub height: u32,
    /// Header of the source terrain grid.
    pub header: TerrainHeader,
    /// Land/ocean boundary crossings of the source grid.
    pub coastline_crossings: Vec<CoastCrossing>,
}

/// Build the terrain payload for the display: the downsampled grid size
/// (at most 512 by 512) and the coastline crossings of the terrain.
pub fn build_terrain_payload(terrain: &TerrainGrid) -> (p: TerrainPayloadLayout)
    requires
        terrain.covers_header(),
    ensures
        (p.width, p.height) == payload_dims(terrain.header.width, terrain.header.height),
        p.header == terrain.header,
        p.coastline_crossings@ == coastline_crossings_spec(
            terrain.elevations@,
            terrain.header.width as int,
            terrain.header.height as int,
        ),
{
    let (width, height) = payload_dimensions(terrain.header.width, terrain.header.height);
    let coastline_crossings = extract_coastline_crossings(terrain);
    TerrainPayloadLayout { width, height, header: terrain.header, coastline_crossings }
}

} // verus!
