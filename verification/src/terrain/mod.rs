//! Terrain data: heightmap grids and the `.dtrn` / `.hgt` file formats.

pub mod bytes;
pub mod grid;
pub mod dtrn;
pub mod hgt;
pub mod coastline;
