//! Terrain grid: header metadata, elevations and the optional ocean mask.
//!
//! Geographic quantities of the header (corner latitude/longitude and cell
//! size) are carried as the IEEE-754 bit patterns of their `f64` values:
//! the library stores and transports them exactly but never computes on them.

use vstd::prelude::*;

verus! {

/// Terrain grid header metadata.
#[derive(Debug, Clone, Copy, PartialEq, Eq, Structural)]
pub struct TerrainHeader {
    /// Southwest corner latitude (degrees), as `f64` bits.
    pub origin_lat_bits: u64,
    /// Southwest corner longitude (degrees), as `f64` bits.
    pub origin_lon_bits: u64,
    /// Arc-seconds per grid cell, as `f64` bits.
    pub cell_size_bits: u64,
    /// Number of columns (west to east).
    pub width: u32,
    /// Number of rows (north to south).
    pub height: u32,
    /// Minimum elevation in the grid (meters).
    pub min_elevation: i16,
    /// Maximum elevation in the grid (meters).
    pub max_elevation: i16,
}

impl TerrainHeader {
    /// Number of cells the header describes.
    pub open spec fn cell_count(self) -> nat {
        (self.width as nat) * (self.height as nat)
    }
}

/// Loaded terrain heightmap grid.
#[derive(Debug, Clone)]
pub struct TerrainGrid {
    pub header: TerrainHeader,
    /// Elevation values in meters, row-major (north-to-south, west-to-east).
    pub elevations: Vec<i16>,
    /// Packed ocean mask: bit 1 = land, bit 0 = ocean. One bit per cell.
    pub ocean_mask: Option<Vec<u8>>,
}

/// Mathematical model of a terrain grid.
pub struct TerrainGridView {
    pub header: TerrainHeader,
    pub elevations: Seq<i16>,
    pub ocean_mask: Option<Seq<u8>>,
}

/// The model of an optional byte vector.
pub open spec fn opt_bytes_view(m: Option<Vec<u8>>) -> Option<Seq<u8>> {
    match m {
        Some(v) => Some(v@),
        None => None,
    }
}

impl View for TerrainGrid {
    type V = TerrainGridView;

    open spec fn view(&self) -> TerrainGridView {
        TerrainGridView {
            header: self.header,
            elevations: self.elevations@,
            ocean_mask: opt_bytes_view(self.ocean_mask),
        }
    }
}

/// Number of bytes a one-bit-per-cell mask needs for `cells` cells.
pub open spec fn mask_len_for(cells: nat) -> nat {
    (cells + 7) / 8
}

/// Elevation stored for cell (`row`, `col`), or 0 outside the grid.
pub open spec fn raw_elevation_spec(g: TerrainGridView, row: int, col: int) -> i16 {
    if row >= g.header.height || col >= g.header.width {
        0
    } else {
        g.elevations[row * g.header.width + col]
    }
}

/// Whether bit `bit` (0 = least significant) of `b` is set.
pub open spec fn bit_set(b: u8, bit: int) -> bool {
    (b as int / pow2_byte(bit)) % 2 == 1
}

/// `2^bit` for bit positions within a byte.
pub open spec fn pow2_byte(bit: int) -> int {
    if bit == 0 {
        1
    } else if bit == 1 {
        2
    } else if bit == 2 {
        4
    } else if bit == 3 {
        8
    } else if bit == 4 {
        16
    } else if bit == 5 {
        32
    } else if bit == 6 {
        64
    } else {
        128
    }
}

/// Ocean-mask verdict for the flat cell index `idx`: a clear bit means ocean,
/// and an index beyond the mask counts as ocean.
pub open spec fn mask_says_ocean(mask: Seq<u8>, idx: int) -> bool {
    let byte_idx = idx / 8;
    if byte_idx < mask.len() {
        !bit_set(mask[byte_idx], idx % 8)
    } else {
        true
    }
}

impl TerrainGrid {
    /// Create a TerrainGrid from pre-loaded data.
    pub fn new(header: TerrainHeader, elevations: Vec<i16>, ocean_mask: Option<Vec<u8>>) -> (g:
        TerrainGrid)
        ensures
            g@ == (TerrainGridView {
                header: header,
                elevations: elevations@,
                ocean_mask: opt_bytes_view(ocean_mask),
            }),
    {
        TerrainGrid { header, elevations, ocean_mask }
    }

    /// Whether the elevation array covers every cell the header describes.
    pub open spec fn covers_header(&self) -> bool {
        self.elevations@.len() >= self.header.cell_count()
    }

    /// Get the raw elevation at integer grid coordinates; 0 outside the grid.
    pub fn raw_elevation(&self, row: usize, col: usize) -> (e: i16)
        requires
            self.covers_header(),
        ensures
            e == raw_elevation_spec(self@, row as int, col as int),
    {
        let w = self.header.width as usize;
        let n = self.elevations.len();
        if row >= self.header.height as usize || col >= w {
            return 0;
        }
        proof {
            let hh = self.header.height as int;
            let ww = w as int;
            assert((row as int) * ww + (col as int) < ww * hh) by (nonlinear_arith)
                requires
                    (row as int) < hh,
                    (col as int) < ww,
            ;
            assert((row as int) * ww + (col as int) < self.elevations@.len());
        }
        self.elevations[row * w + col]
    }

    /// Ocean-mask lookup for grid cell (`row`, `col`): `None` when the grid has
    /// no mask, otherwise whether the mask marks that cell as ocean (cells past
    /// the end of the mask count as ocean).
    pub fn mask_ocean_at(&self, row: usize, col: usize) -> (r: Option<bool>)
        requires
            row as int * self.header.width as int + col as int <= usize::MAX,
        ensures
            match opt_bytes_view(self.ocean_mask) {
                None => r is None,
                Some(m) => r == Some(
                    mask_says_ocean(m, row as int * self.header.width as int + col as int),
                ),
            },
    {
        match &self.ocean_mask {
            None => None,
            Some(mask) => {
                let idx = row * (self.header.width as usize) + col;
                let byte_idx = idx / 8;
                if byte_idx < mask.len() {
                    let bit = idx % 8;
                    let b = mask[byte_idx];
                    let divisor: u8 = if bit == 0 {
                        1
                    } else if bit == 1 {
                        2
                    } else if bit == 2 {
                        4
                    } else if bit == 3 {
                        8
                    } else if bit == 4 {
                        16
                    } else if bit == 5 {
                        32
                    } else if bit == 6 {
                        64
                    } else {
                        128
                    };
                    Some((b / divisor) % 2 == 0)
                } else {
                    Some(true)
                }
            },
        }
    }
}

} // verus!
