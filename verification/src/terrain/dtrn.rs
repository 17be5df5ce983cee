//! `.dtrn` binary terrain format: parser and writer.
//!
//! Layout: a 64-byte header (magic `DTRN`, version, flags, corner
//! coordinates, cell size, dimensions, elevation range, reserved bytes),
//! then `width * height` big-endian `i16` elevations, then an optional
//! packed ocean mask of `ceil(width * height / 8)` bytes.

use vstd::prelude::*;

use crate::terrain::bytes::{
    i16_from_be, i16_from_le, i16_to_be, i16_to_le, lemma_i16_be_roundtrip,
    lemma_i16_le_roundtrip, lemma_u16_roundtrip, lemma_u32_roundtrip, lemma_u64_roundtrip,
    push_i16_be, push_i16_le, push_u16_le, push_u32_le, push_u64_le, push_zeros, read_i16_be,
    read_i16_le, read_u16_le, read_u32_le, read_u64_le, u16_from_le, u16_to_le, u32_from_le,
    u32_to_le, u64_from_le, u64_to_le, zeros,
};
use crate::terrain::grid::{
    mask_len_for, opt_bytes_view, TerrainGrid, TerrainGridView, TerrainHeader,
};

verus! {

/// Current format version.
pub const DTRN_VERSION: u16 = 1;

/// Header flag: has ocean mask.
pub const FLAG_HAS_OCEAN_MASK: u16 = 0x0001;

/// Header flag: has texture index (reserved for future use).
pub const FLAG_HAS_TEXTURE: u16 = 0x0002;

/// Total header size in bytes.
pub const HEADER_SIZE: usize = 64;

/// Why a byte buffer is not a readable `.dtrn` file.
#[derive(Debug, Clone, Copy, PartialEq, Eq, Structural)]
pub enum DtrnError {
    /// Fewer bytes than the 64-byte header.
    TooSmallForHeader,
    /// The first four bytes are not `DTRN`.
    InvalidMagic,
    /// The header names a format version other than 1.
    UnsupportedVersion(u16),
    /// The buffer ends before all `width * height` elevations.
    TooSmallForElevations,
}

// ---------------------------------------------------------------------------
// Specification of the format
// ---------------------------------------------------------------------------

/// The four magic bytes `DTRN`.
pub open spec fn dtrn_magic() -> Seq<u8> {
    seq![68u8, 84u8, 82u8, 78u8]
}

/// Header fields as stored in the first 64 bytes.
pub open spec fn header_from_bytes(d: Seq<u8>) -> TerrainHeader {
    TerrainHeader {
        origin_lat_bits: u64_from_le(d, 8),
        origin_lon_bits: u64_from_le(d, 16),
        cell_size_bits: u64_from_le(d, 24),
        width: u32_from_le(d, 32),
        height: u32_from_le(d, 36),
        min_elevation: i16_from_le(d, 40),
        max_elevation: i16_from_le(d, 42),
    }
}

/// `count` big-endian elevations starting at byte `start`.
pub open spec fn elevations_from_bytes(d: Seq<u8>, start: int, count: nat) -> Seq<i16> {
    Seq::new(count, |i: int| i16_from_be(d, start + 2 * i))
}

/// The grid a byte buffer describes, or the reason it describes none.
pub open spec fn parse_dtrn_spec(d: Seq<u8>) -> Result<TerrainGridView, DtrnError> {
    if d.len() < 64 {
        Err(DtrnError::TooSmallForHeader)
    } else if d.subrange(0, 4) != dtrn_magic() {
        Err(DtrnError::InvalidMagic)
    } else if u16_from_le(d, 4) != 1 {
        Err(DtrnError::UnsupportedVersion(u16_from_le(d, 4)))
    } else {
        let h = header_from_bytes(d);
        let cc = h.cell_count();
        let elev_end = 64 + 2 * cc;
        if d.len() < elev_end {
            Err(DtrnError::TooSmallForElevations)
        } else {
            let flags = u16_from_le(d, 6);
            let mb = mask_len_for(cc);
            let mask = if flags & 1u16 != 0 && d.len() >= elev_end + mb {
                Some(d.subrange(elev_end as int, (elev_end + mb) as int))
            } else {
                None
            };
            Ok(
                TerrainGridView {
                    header: h,
                    elevations: elevations_from_bytes(d, 64, cc),
                    ocean_mask: mask,
                },
            )
        }
    }
}

/// The 64 header bytes written for `h` with the given flags.
pub open spec fn header_bytes(h: TerrainHeader, flags: u16) -> Seq<u8> {
    dtrn_magic() + u16_to_le(1) + u16_to_le(flags) + u64_to_le(h.origin_lat_bits) + u64_to_le(
        h.origin_lon_bits,
    ) + u64_to_le(h.cell_size_bits) + u32_to_le(h.width) + u32_to_le(h.height) + i16_to_le(
        h.min_elevation,
    ) + i16_to_le(h.max_elevation) + zeros(20)
}

/// Big-endian encoding of all elevations, in order.
pub open spec fn elevation_bytes(e: Seq<i16>) -> Seq<u8>
    decreases e.len(),
{
    if e.len() == 0 {
        Seq::empty()
    } else {
        elevation_bytes(e.drop_last()) + i16_to_be(e.last())
    }
}

/// The mask section: the mask itself, zero-padded up to the size the cell count needs.
pub open spec fn mask_section(mask: Option<Seq<u8>>, cells: nat) -> Seq<u8> {
    match mask {
        None => Seq::empty(),
        Some(m) => if m.len() < mask_len_for(cells) {
            m + zeros((mask_len_for(cells) - m.len()) as nat)
        } else {
            m
        },
    }
}

/// The flags word written for a grid.
pub open spec fn flags_for(g: TerrainGridView) -> u16 {
    if g.ocean_mask is Some {
        1
    } else {
        0
    }
}

/// The bytes written for a grid.
pub open spec fn serialize_dtrn_spec(g: TerrainGridView) -> Seq<u8> {
    header_bytes(g.header, flags_for(g)) + elevation_bytes(g.elevations) + mask_section(
        g.ocean_mask,
        g.header.cell_count(),
    )
}

/// A grid whose arrays have exactly the sizes its header announces.
pub open spec fn dtrn_consistent(g: TerrainGridView) -> bool {
    &&& g.elevations.len() == g.header.cell_count()
    &&& g.ocean_mask matches Some(m) ==> m.len() == mask_len_for(g.header.cell_count())
}

// ---------------------------------------------------------------------------
// Parser
// ---------------------------------------------------------------------------

/// Parse a `.dtrn` from a byte buffer.
pub fn parse_dtrn(data: &[u8]) -> (r: Result<TerrainGrid, DtrnError>)
    ensures
        match r {
            Ok(g) => parse_dtrn_spec(data@) == Ok::<TerrainGridView, DtrnError>(g@),
            Err(e) => parse_dtrn_spec(data@) == Err::<TerrainGridView, DtrnError>(e),
        },
{
    let len = data.len();
    if len < HEADER_SIZE {
        return Err(DtrnError::TooSmallForHeader);
    }
    if !(data[0] == 68u8 && data[1] == 84u8 && data[2] == 82u8 && data[3] == 78u8) {
        proof {
            if data@.subrange(0, 4) == dtrn_magic() {
                assert(data@.subrange(0, 4)[0] == data@[0]);
                assert(data@.subrange(0, 4)[1] == data@[1]);
                assert(data@.subrange(0, 4)[2] == data@[2]);
                assert(data@.subrange(0, 4)[3] == data@[3]);
            }
        }
        return Err(DtrnError::InvalidMagic);
    }
    assert(data@.subrange(0, 4) =~= dtrn_magic());
    let version = read_u16_le(data, 4);
    if version != DTRN_VERSION {
        return Err(DtrnError::UnsupportedVersion(version));
    }
    let flags = read_u16_le(data, 6);
    let origin_lat_bits = read_u64_le(data, 8);
    let origin_lon_bits = read_u64_le(data, 16);
    let cell_size_bits = read_u64_le(data, 24);
    let width = read_u32_le(data, 32);
    let height = read_u32_le(data, 36);
    let min_elevation = read_i16_le(data, 40);
    let max_elevation = read_i16_le(data, 42);
    let header = TerrainHeader {
        origin_lat_bits,
        origin_lon_bits,
        cell_size_bits,
        width,
        height,
        min_elevation,
        max_elevation,
    };
    assert(header == header_from_bytes(data@));

    assert((width as int) * (height as int) <= u64::MAX) by (nonlinear_arith)
        requires
            width <= u32::MAX,
            height <= u32::MAX,
    ;
    let cell_count: u64 = (width as u64) * (height as u64);
    assert(cell_count == header.cell_count()) by (nonlinear_arith)
        requires
            cell_count == (width as u64) * (height as u64),
            header.width == width,
            header.height == height,
    ;
    let avail = (len - HEADER_SIZE) as u64;
    if avail / 2 < cell_count {
        return Err(DtrnError::TooSmallForElevations);
    }
    let cc = cell_count as usize;
    let elev_end = HEADER_SIZE + 2 * cc;

    let mut elevations: Vec<i16> = Vec::new();
    let mut i: usize = 0;
    while i < cc
        invariant
            i <= cc,
            elev_end == 64 + 2 * cc,
            elev_end <= data@.len(),
            elevations@.len() == i,
            forall|j: int| 0 <= j < i ==> elevations@[j] == i16_from_be(data@, 64 + 2 * j),
        decreases cc - i,
    {
        elevations.push(read_i16_be(data, HEADER_SIZE + 2 * i));
        i = i + 1;
    }
    assert(elevations@ =~= elevations_from_bytes(data@, 64, cc as nat));

    let mask_bytes = cc / 8 + if cc % 8 == 0 {
        0
    } else {
        1
    };
    assert(mask_bytes == mask_len_for(cc as nat));
    let ocean_mask = if flags & FLAG_HAS_OCEAN_MASK != 0 && len - elev_end >= mask_bytes {
        let mask_end = elev_end + mask_bytes;
        let slice = vstd::slice::slice_subrange(data, elev_end, mask_end);
        Some(vstd::slice::slice_to_vec(slice))
    } else {
        None
    };

    Ok(TerrainGrid { header, elevations, ocean_mask })
}

// ---------------------------------------------------------------------------
// Writer
// ---------------------------------------------------------------------------

proof fn lemma_elevation_bytes_len(e: Seq<i16>)
    ensures
        elevation_bytes(e).len() == 2 * e.len(),
    decreases e.len(),
{
    if e.len() > 0 {
        lemma_elevation_bytes_len(e.drop_last());
    }
}

/// Serialize a TerrainGrid to `.dtrn` bytes.
pub fn serialize_dtrn(grid: &TerrainGrid) -> (buf: Vec<u8>)
    requires
        64 + 2 * grid.header.cell_count() + mask_len_for(grid.header.cell_count())
            <= isize::MAX,
    ensures
        buf@ == serialize_dtrn_spec(grid@),
{
    let h = grid.header;
    assert((h.width as int) * (h.height as int) == h.cell_count());
    let cell_count = (h.width as usize) * (h.height as usize);
    let has_mask = grid.ocean_mask.is_some();
    let flags: u16 = if has_mask {
        FLAG_HAS_OCEAN_MASK
    } else {
        0
    };
    let mask_bytes = cell_count / 8 + if cell_count % 8 == 0 {
        0
    } else {
        1
    };
    assert(mask_bytes == mask_len_for(cell_count as nat));

    let mut buf: Vec<u8> = Vec::new();
    // Header (64 bytes)
    buf.push(68u8);
    buf.push(84u8);
    buf.push(82u8);
    buf.push(78u8);
    assert(buf@ =~= dtrn_magic());
    push_u16_le(&mut buf, DTRN_VERSION);
    push_u16_le(&mut buf, flags);
    push_u64_le(&mut buf, h.origin_lat_bits);
    push_u64_le(&mut buf, h.origin_lon_bits);
    push_u64_le(&mut buf, h.cell_size_bits);
    push_u32_le(&mut buf, h.width);
    push_u32_le(&mut buf, h.height);
    push_i16_le(&mut buf, h.min_elevation);
    push_i16_le(&mut buf, h.max_elevation);
    // Reserved bytes (pad to 64)
    push_zeros(&mut buf, HEADER_SIZE - 44);
    assert(buf@ =~= header_bytes(h, flags_for(grid@)));

    // Elevation data (big-endian i16)
    let ghost head = buf@;
    let n = grid.elevations.len();
    let mut i: usize = 0;
    while i < n
        invariant
            i <= n,
            n == grid.elevations@.len(),
            buf@ =~= head + elevation_bytes(grid.elevations@.take(i as int)),
        decreases n - i,
    {
        push_i16_be(&mut buf, grid.elevations[i]);
        assert(grid.elevations@.take(i + 1).drop_last() =~= grid.elevations@.take(i as int));
        i = i + 1;
    }
    assert(grid.elevations@.take(n as int) =~= grid.elevations@);

    // Ocean mask (if present), padded to the size the cell count needs
    match &grid.ocean_mask {
        Some(mask) => {
            let ghost before = buf@;
            let m = mask.len();
            let mut j: usize = 0;
            while j < m
                invariant
                    j <= m,
                    m == mask@.len(),
                    buf@ =~= before + mask@.take(j as int),
                decreases m - j,
            {
                buf.push(mask[j]);
                j = j + 1;
            }
            assert(mask@.take(m as int) =~= mask@);
            if m < mask_bytes {
                push_zeros(&mut buf, mask_bytes - m);
            }
        },
        None => {},
    }
    assert(buf@ =~= serialize_dtrn_spec(grid@));
    buf
}

// ---------------------------------------------------------------------------
// Round trip
// ---------------------------------------------------------------------------

proof fn lemma_elevation_bytes_at(e: Seq<i16>, i: int)
    requires
        0 <= i < e.len(),
    ensures
        elevation_bytes(e).len() == 2 * e.len(),
        elevation_bytes(e)[2 * i] == i16_to_be(e[i])[0],
        elevation_bytes(e)[2 * i + 1] == i16_to_be(e[i])[1],
    decreases e.len(),
{
    lemma_elevation_bytes_len(e);
    lemma_elevation_bytes_len(e.drop_last());
    if i < e.len() - 1 {
        lemma_elevation_bytes_at(e.drop_last(), i);
    }
}

/// Writing a grid whose arrays match its header and reading the bytes back
/// gives the same grid: header, elevations and ocean mask.
pub proof fn lemma_dtrn_roundtrip(g: TerrainGridView)
    requires
        dtrn_consistent(g),
    ensures
        parse_dtrn_spec(serialize_dtrn_spec(g)) == Ok::<TerrainGridView, DtrnError>(g),
{
    let h = g.header;
    let cc = h.cell_count();
    let flags = flags_for(g);
    let hb = header_bytes(h, flags);
    let eb = elevation_bytes(g.elevations);
    let ms = mask_section(g.ocean_mask, cc);
    let d = serialize_dtrn_spec(g);
    lemma_elevation_bytes_len(g.elevations);
    assert(hb.len() == 64);
    assert(d =~= hb + eb + ms);
    assert(d.subrange(0, 4) =~= dtrn_magic());
    assert(d.subrange(4, 6) =~= u16_to_le(1));
    assert(d.subrange(6, 8) =~= u16_to_le(flags));
    assert(d.subrange(8, 16) =~= u64_to_le(h.origin_lat_bits));
    assert(d.subrange(16, 24) =~= u64_to_le(h.origin_lon_bits));
    assert(d.subrange(24, 32) =~= u64_to_le(h.cell_size_bits));
    assert(d.subrange(32, 36) =~= u32_to_le(h.width));
    assert(d.subrange(36, 40) =~= u32_to_le(h.height));
    assert(d.subrange(40, 42) =~= i16_to_le(h.min_elevation));
    assert(d.subrange(42, 44) =~= i16_to_le(h.max_elevation));
    lemma_u16_roundtrip(1);
    lemma_u16_roundtrip(flags);
    lemma_u64_roundtrip(h.origin_lat_bits);
    lemma_u64_roundtrip(h.origin_lon_bits);
    lemma_u64_roundtrip(h.cell_size_bits);
    lemma_u32_roundtrip(h.width);
    lemma_u32_roundtrip(h.height);
    lemma_i16_le_roundtrip(h.min_elevation);
    lemma_i16_le_roundtrip(h.max_elevation);
    assert(u16_from_le(d, 4) == u16_from_le(u16_to_le(1), 0));
    assert(u16_from_le(d, 6) == u16_from_le(u16_to_le(flags), 0));
    assert(u64_from_le(d, 8) == u64_from_le(u64_to_le(h.origin_lat_bits), 0));
    assert(u64_from_le(d, 16) == u64_from_le(u64_to_le(h.origin_lon_bits), 0));
    assert(u64_from_le(d, 24) == u64_from_le(u64_to_le(h.cell_size_bits), 0));
    assert(u32_from_le(d, 32) == u32_from_le(u32_to_le(h.width), 0));
    assert(u32_from_le(d, 36) == u32_from_le(u32_to_le(h.height), 0));
    assert(i16_from_le(d, 40) == i16_from_le(i16_to_le(h.min_elevation), 0));
    assert(i16_from_le(d, 42) == i16_from_le(i16_to_le(h.max_elevation), 0));
    assert(header_from_bytes(d) == h);

    // Elevations
    assert forall|i: int| 0 <= i < cc implies #[trigger] i16_from_be(d, 64 + 2 * i)
        == g.elevations[i] by {
        lemma_elevation_bytes_at(g.elevations, i);
        lemma_i16_be_roundtrip(g.elevations[i]);
        assert(d[64 + 2 * i] == eb[2 * i]);
        assert(d[64 + 2 * i + 1] == eb[2 * i + 1]);
    }
    assert(elevations_from_bytes(d, 64, cc) =~= g.elevations);

    // Ocean mask
    let elev_end = 64 + 2 * cc;
    match g.ocean_mask {
        Some(m) => {
            assert(flags == 1u16);
            assert(flags & 1u16 != 0) by (bit_vector)
                requires
                    flags == 1u16,
            ;
            assert(ms =~= m);
            assert(d.subrange(elev_end as int, (elev_end + mask_len_for(cc)) as int) =~= m);
        },
        None => {
            assert(flags == 0u16);
            assert(flags & 1u16 == 0) by (bit_vector)
                requires
                    flags == 0u16,
            ;
        },
    }
}

} // verus!
