//! NASADEM HGT tiles: flat arrays of big-endian `i16` elevations covering
//! a 1° × 1° tile, either 3601 × 3601 (1 arc-second) or 1201 × 1201
//! (3 arc-second) samples.

use vstd::prelude::*;

use crate::terrain::bytes::{i16_from_be, read_i16_be};
use crate::terrain::grid::{TerrainGrid, TerrainGridView, TerrainHeader};

verus! {

/// Void value in HGT files (no data).
pub const HGT_VOID: i16 = -32768;

/// Why a byte buffer is not an HGT tile.
#[derive(Debug, Clone, Copy, PartialEq, Eq, Structural)]
pub enum HgtError {
    /// The byte count matches neither tile size; carries the byte count.
    UnexpectedSize(usize),
}

// ---------------------------------------------------------------------------
// Tile size
// ---------------------------------------------------------------------------

/// `side` is the nearest integer to the square root of `samples`.
pub open spec fn rounds_to_side(samples: nat, side: nat) -> bool {
    &&& side >= 1
    &&& (2 * side - 1) * (2 * side - 1) <= 4 * samples
    &&& 4 * samples < (2 * side + 1) * (2 * side + 1)
}

/// Grid side and arc-seconds per cell for a tile of `byte_count` bytes.
pub open spec fn hgt_grid_spec(byte_count: nat) -> Option<(u32, u32)> {
    let samples = byte_count / 2;
    if rounds_to_side(samples, 3601) {
        Some((3601u32, 1u32))
    } else if rounds_to_side(samples, 1201) {
        Some((1201u32, 3u32))
    } else {
        None
    }
}

/// Determine the grid side and arc-seconds per cell from the file size:
/// the side is the nearest integer to the square root of the sample count.
/// 1 arc-second: 3601 × 3601 samples; 3 arc-second: 1201 × 1201 samples.
pub fn grid_size_from_byte_count(byte_count: usize) -> (r: Option<(u32, u32)>)
    ensures
        r == hgt_grid_spec(byte_count as nat),
{
    let samples = (byte_count / 2) as u128;
    let q = 4 * samples;
    if 7201 * 7201 <= q && q < 7203 * 7203 {
        Some((3601, 1))
    } else if 2401 * 2401 <= q && q < 2403 * 2403 {
        Some((1201, 3))
    } else {
        None
    }
}

// ---------------------------------------------------------------------------
// Sample decoding
// ---------------------------------------------------------------------------

/// Parse raw HGT bytes into elevation values, the grid side and the
/// arc-seconds per cell.
pub fn parse_hgt_bytes(data: &[u8]) -> (r: Result<(Vec<i16>, u32, u32), HgtError>)
    requires
        hgt_grid_spec(data@.len()) matches Some((side, _)) ==> 2 * ((side as int) * (side as int))
            <= data@.len(),
    ensures
        match r {
            Ok((elevations, side, cell_size)) => {
                &&& hgt_grid_spec(data@.len()) == Some((side, cell_size))
                &&& elevations@.len() == (side as int) * (side as int)
                &&& forall|i: int|
                    0 <= i < elevations@.len() ==> #[trigger] elevations@[i] == i16_from_be(
                        data@,
                        2 * i,
                    )
            },
            Err(e) => hgt_grid_spec(data@.len()) is None && e == HgtError::UnexpectedSize(
                data@.len() as usize,
            ),
        },
{
    let (grid_side, cell_size) = match grid_size_from_byte_count(data.len()) {
        Some(g) => g,
        None => return Err(HgtError::UnexpectedSize(data.len())),
    };
    assert(grid_side == 3601 || grid_side == 1201);
    assert(2 * ((grid_side as int) * (grid_side as int)) <= data@.len());
    let sample_count = (grid_side as usize) * (grid_side as usize);
    let mut elevations: Vec<i16> = Vec::new();
    let n = data.len();
    let mut i: usize = 0;
    while i < sample_count
        invariant
            n == data@.len(),
            i <= sample_count,
            sample_count == (grid_side as int) * (grid_side as int),
            2 * sample_count <= data@.len(),
            elevations@.len() == i,
            forall|j: int| 0 <= j < i ==> #[trigger] elevations@[j] == i16_from_be(data@, 2 * j),
        decreases sample_count - i,
    {
        elevations.push(read_i16_be(data, i * 2));
        i = i + 1;
    }
    Ok((elevations, grid_side, cell_size))
}

// ---------------------------------------------------------------------------
// Void filling
// ---------------------------------------------------------------------------

/// Cell (`r`, `c`) lies in the `w` × `h` grid and holds data.
pub open spec fn cell_valid(s: Seq<i16>, w: int, h: int, r: int, c: int) -> bool {
    0 <= r < h && 0 <= c < w && s[r * w + c] != HGT_VOID
}

/// Elevation of cell (`r`, `c`) when it holds data, else 0.
#[verifier::opaque]
pub open spec fn cell_contrib(s: Seq<i16>, w: int, h: int, r: int, c: int) -> int {
    if cell_valid(s, w, h, r, c) {
        s[r * w + c] as int
    } else {
        0
    }
}

/// 1 when cell (`r`, `c`) holds data, else 0.
#[verifier::opaque]
pub open spec fn cell_flag(s: Seq<i16>, w: int, h: int, r: int, c: int) -> int {
    if cell_valid(s, w, h, r, c) {
        1
    } else {
        0
    }
}

/// Sum of the valid elevations among the eight neighbours of (`r`, `c`).
pub open spec fn neighbor_sum(s: Seq<i16>, w: int, h: int, r: int, c: int) -> int {
    cell_contrib(s, w, h, r - 1, c - 1) + cell_contrib(s, w, h, r - 1, c) + cell_contrib(
        s,
        w,
        h,
        r - 1,
        c + 1,
    ) + cell_contrib(s, w, h, r, c - 1) + cell_contrib(s, w, h, r, c + 1) + cell_contrib(
        s,
        w,
        h,
        r + 1,
        c - 1,
    ) + cell_contrib(s, w, h, r + 1, c) + cell_contrib(s, w, h, r + 1, c + 1)
}

/// Number of valid cells among the eight neighbours of (`r`, `c`).
pub open spec fn neighbor_count(s: Seq<i16>, w: int, h: int, r: int, c: int) -> int {
    cell_flag(s, w, h, r - 1, c - 1) + cell_flag(s, w, h, r - 1, c) + cell_flag(s, w, h, r - 1, c
        + 1) + cell_flag(s, w, h, r, c - 1) + cell_flag(s, w, h, r, c + 1) + cell_flag(
        s,
        w,
        h,
        r + 1,
        c - 1,
    ) + cell_flag(s, w, h, r + 1, c) + cell_flag(s, w, h, r + 1, c + 1)
}

/// Integer division rounding toward zero (for a positive divisor).
pub open spec fn trunc_div(a: int, b: int) -> int {
    if a >= 0 {
        a / b
    } else {
        -((-a) / b)
    }
}

/// Replacement for a void at (`r`, `c`): the mean of its valid neighbours,
/// rounded toward zero, or sea level (0) when no neighbour holds data.
pub open spec fn filled_value(s: Seq<i16>, w: int, h: int, r: int, c: int) -> i16 {
    let n = neighbor_count(s, w, h, r, c);
    if n > 0 {
        trunc_div(neighbor_sum(s, w, h, r, c), n) as i16
    } else {
        0
    }
}

/// The elevations after one void-filling pass over the `w` × `h` grid.
/// Every value is computed from the elevations before the pass.
pub open spec fn fill_voids_spec(s: Seq<i16>, w: int, h: int) -> Seq<i16> {
    Seq::new(
        s.len(),
        |i: int|
            if i < w * h && s[i] == HGT_VOID {
                filled_value(s, w, h, i / w, i % w)
            } else {
                s[i]
            },
    )
}

/// Contribution and presence of one neighbour.
fn neighbor(snapshot: &Vec<i16>, w: usize, h: usize, nr: i64, nc: i64) -> (out: (i64, u32))
    requires
        snapshot@.len() >= (w as int) * (h as int),
        w <= u32::MAX,
        h <= u32::MAX,
        -1 <= nr <= u32::MAX,
        -1 <= nc <= u32::MAX,
    ensures
        out.0 == cell_contrib(snapshot@, w as int, h as int, nr as int, nc as int),
        out.1 == cell_flag(snapshot@, w as int, h as int, nr as int, nc as int),
        -32767 <= out.0 <= 32767,
        out.1 <= 1,
        out.1 == 0 ==> out.0 == 0,
{
    reveal(cell_contrib);
    reveal(cell_flag);
    if nr >= 0 && nr < h as i64 && nc >= 0 && nc < w as i64 {
        let r = nr as usize;
        let c = nc as usize;
        let len = snapshot.len();
        proof {
            assert((r as int) * (w as int) + (c as int) < (w as int) * (h as int)) by (nonlinear_arith)
                requires
                    (r as int) < (h as int),
                    (c as int) < (w as int),
            ;
        }
        assert(r * w + c < len);
        let v = snapshot[r * w + c];
        if v != HGT_VOID {
            (v as i64, 1)
        } else {
            (0, 0)
        }
    } else {
        (0, 0)
    }
}

proof fn lemma_mean_in_range(sum: int, n: int)
    requires
        1 <= n <= 8,
        -32767 * n <= sum <= 32767 * n,
    ensures
        -32767 <= trunc_div(sum, n) <= 32767,
{
    if sum >= 0 {
        assert(sum / n <= 32767) by (nonlinear_arith)
            requires
                1 <= n,
                0 <= sum <= 32767 * n,
        ;
        assert(sum / n >= 0) by (nonlinear_arith)
            requires
                1 <= n,
                0 <= sum,
        ;
    } else {
        assert((-sum) / n <= 32767) by (nonlinear_arith)
            requires
                1 <= n,
                0 <= -sum <= 32767 * n,
        ;
        assert((-sum) / n >= 0) by (nonlinear_arith)
            requires
                1 <= n,
                0 <= -sum,
        ;
    }
}

/// Replacement value for the void at (`r`, `c`), computed from `snapshot`.
fn void_replacement(snapshot: &Vec<i16>, w: usize, h: usize, r: usize, c: usize) -> (v: i16)
    requires
        snapshot@.len() >= (w as int) * (h as int),
        w <= u32::MAX,
        h <= u32::MAX,
        r < h,
        c < w,
    ensures
        v == filled_value(snapshot@, w as int, h as int, r as int, c as int),
{
    let ghost s = snapshot@;
    let ri = r as i64;
    let ci = c as i64;
    let n0 = neighbor(snapshot, w, h, ri - 1, ci - 1);
    let n1 = neighbor(snapshot, w, h, ri - 1, ci);
    let n2 = neighbor(snapshot, w, h, ri - 1, ci + 1);
    let n3 = neighbor(snapshot, w, h, ri, ci - 1);
    let n4 = neighbor(snapshot, w, h, ri, ci + 1);
    let n5 = neighbor(snapshot, w, h, ri + 1, ci - 1);
    let n6 = neighbor(snapshot, w, h, ri + 1, ci);
    let n7 = neighbor(snapshot, w, h, ri + 1, ci + 1);
    let sum: i64 = n0.0 + n1.0 + n2.0 + n3.0 + n4.0 + n5.0 + n6.0 + n7.0;
    let count: u32 = n0.1 + n1.1 + n2.1 + n3.1 + n4.1 + n5.1 + n6.1 + n7.1;
    assert(sum == neighbor_sum(s, w as int, h as int, r as int, c as int));
    assert(count == neighbor_count(s, w as int, h as int, r as int, c as int));
    assert(count <= 8);
    assert(-32767 * (count as int) <= sum <= 32767 * (count as int));
    if count > 0 {
        mean_toward_zero(sum, count)
    } else {
        0
    }
}

/// `sum / count` rounded toward zero, for the sum of `count` elevations.
fn mean_toward_zero(sum: i64, count: u32) -> (v: i16)
    requires
        1 <= count <= 8,
        -32767 * (count as int) <= sum <= 32767 * (count as int),
    ensures
        v == trunc_div(sum as int, count as int) as i16,
        -32767 <= v <= 32767,
{
    proof {
        lemma_mean_in_range(sum as int, count as int);
    }
    let mean: i64 = if sum >= 0 {
        ((sum as u64) / (count as u64)) as i64
    } else {
        -((((-sum) as u64) / (count as u64)) as i64)
    };
    mean as i16
}

/// Fill void values (-32768) by averaging non-void neighbors.
///
/// One pass over the `width` × `height` grid: each void becomes the mean of
/// its valid neighbours in the grid as it was before the pass, rounded
/// toward zero, or 0 when none of them holds data. Other values are kept.
pub fn fill_voids(elevations: &mut Vec<i16>, width: u32, height: u32)
    requires
        old(elevations)@.len() >= (width as int) * (height as int),
    ensures
        final(elevations)@ == fill_voids_spec(old(elevations)@, width as int, height as int),
{
    let w = width as usize;
    let h = height as usize;
    let len = elevations.len();
    let snapshot = elevations.clone();
    let ghost s = snapshot@;
    assert(s == old(elevations)@);
    let mut r: usize = 0;
    while r < h
        invariant
            r <= h,
            w == width,
            h == height,
            w <= u32::MAX,
            h <= u32::MAX,
            snapshot@ == s,
            s.len() >= (w as int) * (h as int),
            len == s.len(),
            elevations@.len() == s.len(),
            forall|i: int|
                0 <= i < elevations@.len() ==> #[trigger] elevations@[i] == if i < (r as int) * (
                w as int) {
                    fill_voids_spec(s, w as int, h as int)[i]
                } else {
                    s[i]
                },
        decreases h - r,
    {
        let mut c: usize = 0;
        while c < w
            invariant
                r < h,
                c <= w,
                w == width,
                h == height,
                w <= u32::MAX,
                h <= u32::MAX,
                snapshot@ == s,
                s.len() >= (w as int) * (h as int),
                len == s.len(),
                elevations@.len() == s.len(),
                forall|i: int|
                    0 <= i < elevations@.len() ==> #[trigger] elevations@[i] == if i < (r as int)
                        * (w as int) + (c as int) {
                        fill_voids_spec(s, w as int, h as int)[i]
                    } else {
                        s[i]
                    },
            decreases w - c,
        {
            proof {
                assert((r as int) * (w as int) + (c as int) < (w as int) * (h as int))
                    by (nonlinear_arith)
                    requires
                        (r as int) < (h as int),
                        (c as int) < (w as int),
                ;
            }
            let idx = r * w + c;
            let ghost gi = idx as int;
            proof {
                assert(gi / (w as int) == r as int && gi % (w as int) == c as int)
                    by (nonlinear_arith)
                    requires
                        gi == (r as int) * (w as int) + (c as int),
                        0 <= (c as int) < (w as int),
                ;
            }
            if snapshot[idx] == HGT_VOID {
                let value = void_replacement(&snapshot, w, h, r, c);
                elevations.set(idx, value);
                proof {
                    assert(fill_voids_spec(s, w as int, h as int)[gi] == value);
                }
            } else {
                proof {
                    assert(fill_voids_spec(s, w as int, h as int)[gi] == s[gi]);
                }
            }
            proof {
                assert forall|i: int| 0 <= i < elevations@.len() implies #[trigger] elevations@[i] == if i < (r as int)
                        * (w as int) + (c as int) + 1 {
                        fill_voids_spec(s, w as int, h as int)[i]
                    } else {
                        s[i]
                    } by {
                    if i != gi {
                    }
                }
            }
            c = c + 1;
        }
        proof {
            assert((r as int) * (w as int) + (w as int) == ((r + 1) as int) * (w as int))
                by (nonlinear_arith);
        }
        r = r + 1;
    }
    proof {
        assert((r as int) * (w as int) == (w as int) * (h as int)) by (nonlinear_arith)
            requires
                r == h,
        ;
        assert(elevations@ =~= fill_voids_spec(s, w as int, h as int));
    }
}

proof fn lemma_cell_bounds(s: Seq<i16>, w: int, h: int, r: int, c: int)
    ensures
        0 <= cell_flag(s, w, h, r, c) <= 1,
        -32767 * cell_flag(s, w, h, r, c) <= cell_contrib(s, w, h, r, c) <= 32767 * cell_flag(
            s,
            w,
            h,
            r,
            c,
        ),
{
    reveal(cell_contrib);
    reveal(cell_flag);
}

/// After one pass, no cell inside the grid is void, and every cell that
/// held data before holds the same value.
pub proof fn lemma_fill_voids_clears_voids(s: Seq<i16>, w: int, h: int)
    requires
        w >= 0,
        h >= 0,
        s.len() >= w * h,
    ensures
        fill_voids_spec(s, w, h).len() == s.len(),
        forall|i: int| 0 <= i < w * h ==> #[trigger] fill_voids_spec(s, w, h)[i] != HGT_VOID,
        forall|i: int|
            0 <= i < s.len() && s[i] != HGT_VOID ==> #[trigger] fill_voids_spec(s, w, h)[i]
                == s[i],
{
    assert forall|i: int| 0 <= i < w * h implies #[trigger] fill_voids_spec(s, w, h)[i]
        != HGT_VOID by {
        if s[i] == HGT_VOID {
            let r = i / w;
            let c = i % w;
            lemma_cell_bounds(s, w, h, r - 1, c - 1);
            lemma_cell_bounds(s, w, h, r - 1, c);
            lemma_cell_bounds(s, w, h, r - 1, c + 1);
            lemma_cell_bounds(s, w, h, r, c - 1);
            lemma_cell_bounds(s, w, h, r, c + 1);
            lemma_cell_bounds(s, w, h, r + 1, c - 1);
            lemma_cell_bounds(s, w, h, r + 1, c);
            lemma_cell_bounds(s, w, h, r + 1, c + 1);
            let n = neighbor_count(s, w, h, r, c);
            let sum = neighbor_sum(s, w, h, r, c);
            if n > 0 {
                lemma_mean_in_range(sum, n);
            }
        }
    }
}

/// Filling voids twice is the same as filling them once: after one pass no
/// void is left inside the grid, so a second pass changes nothing.
pub proof fn lemma_fill_voids_idempotent(s: Seq<i16>, w: int, h: int)
    requires
        w >= 0,
        h >= 0,
        s.len() >= w * h,
    ensures
        fill_voids_spec(fill_voids_spec(s, w, h), w, h) == fill_voids_spec(s, w, h),
{
    lemma_fill_voids_clears_voids(s, w, h);
    let t = fill_voids_spec(s, w, h);
    assert(fill_voids_spec(t, w, h) =~= t);
}

// ---------------------------------------------------------------------------
// Tile assembly
// ---------------------------------------------------------------------------

/// `f64` bits of 1.0 (arc-seconds per cell of a 1 arc-second tile).
pub const ONE_ARCSEC_BITS: u64 = 0x3FF0_0000_0000_0000;

/// `f64` bits of 3.0 (arc-seconds per cell of a 3 arc-second tile).
pub const THREE_ARCSEC_BITS: u64 = 0x4008_0000_0000_0000;

/// `(lo, hi)` is the smallest and largest value of `s`, or `(0, 0)` when `s` is empty.
pub open spec fn is_elevation_range(s: Seq<i16>, lo: i16, hi: i16) -> bool {
    if s.len() == 0 {
        lo == 0 && hi == 0
    } else {
        &&& s.contains(lo)
        &&& s.contains(hi)
        &&& forall|i: int| 0 <= i < s.len() ==> lo <= #[trigger] s[i] <= hi
    }
}

/// Minimum and maximum elevation, or `(0, 0)` for an empty grid.
pub fn elevation_range(elevations: &Vec<i16>) -> (r: (i16, i16))
    ensures
        is_elevation_range(elevations@, r.0, r.1),
{
    let n = elevations.len();
    if n == 0 {
        return (0, 0);
    }
    let mut lo = elevations[0];
    let mut hi = elevations[0];
    let mut lo_at: usize = 0;
    let mut hi_at: usize = 0;
    let mut i: usize = 1;
    while i < n
        invariant
            n == elevations@.len(),
            1 <= i <= n,
            lo_at < i,
            hi_at < i,
            elevations@[lo_at as int] == lo,
            elevations@[hi_at as int] == hi,
            forall|j: int| 0 <= j < i ==> lo <= #[trigger] elevations@[j] <= hi,
        decreases n - i,
    {
        let v = elevations[i];
        if v < lo {
            lo = v;
            lo_at = i;
        }
        if v > hi {
            hi = v;
            hi_at = i;
        }
        i = i + 1;
    }
    assert(elevations@.contains(lo));
    assert(elevations@.contains(hi));
    (lo, hi)
}

/// The grid an HGT tile of `data` describes, with the SW corner given as
/// `f64` bits: samples decoded, voids filled, elevation range computed.
pub open spec fn hgt_tile_grid(data: Seq<u8>, g: TerrainGridView, lat_bits: u64, lon_bits: u64) -> bool {
    match hgt_grid_spec(data.len()) {
        None => false,
        Some((side, cell_size)) => {
            let decoded = Seq::new((side as nat) * (side as nat), |i: int| i16_from_be(data, 2 * i));
            &&& g.elevations == fill_voids_spec(decoded, side as int, side as int)
            &&& g.ocean_mask is None
            &&& g.header.origin_lat_bits == lat_bits
            &&& g.header.origin_lon_bits == lon_bits
            &&& g.header.cell_size_bits == (if cell_size == 1 { ONE_ARCSEC_BITS } else { THREE_ARCSEC_BITS })
            &&& g.header.width == side
            &&& g.header.height == side
            &&& is_elevation_range(g.elevations, g.header.min_elevation, g.header.max_elevation)
        },
    }
}

/// Build a terrain grid from the bytes of an HGT tile whose SW corner is
/// (`origin_lat_bits`, `origin_lon_bits`): decode, fill voids, compute the
/// elevation range.
pub fn hgt_tile_to_grid(data: &[u8], origin_lat_bits: u64, origin_lon_bits: u64) -> (r: Result<
    TerrainGrid,
    HgtError,
>)
    requires
        hgt_grid_spec(data@.len()) matches Some((side, _)) ==> 2 * ((side as int) * (side as int))
            <= data@.len(),
    ensures
        match r {
            Ok(g) => hgt_tile_grid(data@, g@, origin_lat_bits, origin_lon_bits),
            Err(e) => hgt_grid_spec(data@.len()) is None && e == HgtError::UnexpectedSize(
                data@.len() as usize,
            ),
        },
{
    let (mut elevations, grid_side, cell_size) = match parse_hgt_bytes(data) {
        Ok(t) => t,
        Err(e) => return Err(e),
    };
    let ghost decoded = elevations@;
    assert(decoded =~= Seq::new((grid_side as nat) * (grid_side as nat), |i: int| i16_from_be(data@, 2 * i)));
    assert(grid_side == 3601 || grid_side == 1201);
    fill_voids(&mut elevations, grid_side, grid_side);
    let (min_elevation, max_elevation) = elevation_range(&elevations);
    let header = TerrainHeader {
        origin_lat_bits,
        origin_lon_bits,
        cell_size_bits: if cell_size == 1 {
            ONE_ARCSEC_BITS
        } else {
            THREE_ARCSEC_BITS
        },
        width: grid_side,
        height: grid_side,
        min_elevation,
        max_elevation,
    };
    Ok(TerrainGrid::new(header, elevations, None))
}

} // verus!
