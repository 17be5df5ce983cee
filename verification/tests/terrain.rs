use deterrence::game_loop::{build_terrain_payload, payload_dimensions, TICK_DURATION_NANOS};
use deterrence::terrain::bytes::read_i16_be;
use deterrence::terrain::coastline::{extract_coastline_crossings, EdgeDirection};
use deterrence::terrain::dtrn::{parse_dtrn, serialize_dtrn, DtrnError};
use deterrence::terrain::grid::{TerrainGrid, TerrainHeader};
use deterrence::terrain::hgt::{
    elevation_range, fill_voids, grid_size_from_byte_count, parse_hgt_bytes, HgtError, HGT_VOID,
};
use std::time::Duration;

fn header(width: u32, height: u32, min_elevation: i16, max_elevation: i16) -> TerrainHeader {
    TerrainHeader {
        origin_lat_bits: 26.0f64.to_bits(),
        origin_lon_bits: 56.0f64.to_bits(),
        cell_size_bits: 3.0f64.to_bits(),
        width,
        height,
        min_elevation,
        max_elevation,
    }
}

#[test]
fn test_tick_duration_constant() {
    // 30Hz = 33.333ms per tick
    let expected_nanos = 1_000_000_000u64 / 30;
    assert_eq!(
        Duration::from_nanos(TICK_DURATION_NANOS).as_nanos(),
        expected_nanos as u128
    );
}

#[test]
fn test_dtrn_roundtrip() {
    let elevations: Vec<i16> = vec![0, 10, 20, 30, 40, 50, 100, 200, 0, 0, 0, 0, -10, -5, 0, 500];
    let grid = TerrainGrid::new(header(4, 4, -10, 500), elevations.clone(), None);

    let bytes = serialize_dtrn(&grid);
    let grid2 = parse_dtrn(&bytes).expect("Failed to parse .dtrn");

    assert_eq!(grid2.header.width, 4);
    assert_eq!(grid2.header.height, 4);
    assert!((f64::from_bits(grid2.header.origin_lat_bits) - 26.0).abs() < 1e-10);
    assert!((f64::from_bits(grid2.header.origin_lon_bits) - 56.0).abs() < 1e-10);
    assert!((f64::from_bits(grid2.header.cell_size_bits) - 3.0).abs() < 1e-10);
    assert_eq!(grid2.header.min_elevation, -10);
    assert_eq!(grid2.header.max_elevation, 500);
    assert_eq!(grid2.elevations, elevations);
}

#[test]
fn test_dtrn_with_ocean_mask() {
    let elevations: Vec<i16> = vec![0, 100, 0, 0, 0, 0, 50, 0];
    // Ocean mask: 8 cells = 1 byte. Cells 1 and 6 are land.
    let ocean_mask = vec![0b0100_0010u8];
    let grid = TerrainGrid::new(header(4, 2, 0, 100), elevations, Some(ocean_mask.clone()));

    let bytes = serialize_dtrn(&grid);
    let grid2 = parse_dtrn(&bytes).expect("Failed to parse .dtrn with mask");

    assert!(grid2.ocean_mask.is_some());
    assert_eq!(grid2.ocean_mask.unwrap(), ocean_mask);
}

#[test]
fn test_dtrn_invalid_magic() {
    let data = vec![0u8; 64]; // All zeros, wrong magic
    let result = parse_dtrn(&data);
    assert!(result.is_err());
    assert_eq!(result.err(), Some(DtrnError::InvalidMagic));
}

#[test]
fn dtrn_short_buffer_is_refused() {
    assert_eq!(parse_dtrn(&[b'D', b'T', b'R', b'N']).err(), Some(DtrnError::TooSmallForHeader));
}

#[test]
fn dtrn_wrong_version_is_refused() {
    let grid = TerrainGrid::new(header(2, 1, 0, 5), vec![0, 5], None);
    let mut bytes = serialize_dtrn(&grid);
    bytes[4] = 2;
    bytes[5] = 0;
    assert_eq!(parse_dtrn(&bytes).err(), Some(DtrnError::UnsupportedVersion(2)));
}

#[test]
fn dtrn_truncated_elevations_are_refused() {
    let grid = TerrainGrid::new(header(2, 2, 0, 5), vec![0, 5, 1, 2], None);
    let mut bytes = serialize_dtrn(&grid);
    bytes.truncate(bytes.len() - 1);
    assert_eq!(parse_dtrn(&bytes).err(), Some(DtrnError::TooSmallForElevations));
}

#[test]
fn dtrn_layout_is_header_then_big_endian_samples() {
    let grid = TerrainGrid::new(header(2, 1, -1, 258), vec![-1, 258], None);
    let bytes = serialize_dtrn(&grid);
    assert_eq!(&bytes[0..4], b"DTRN");
    assert_eq!(bytes.len(), 64 + 4);
    assert_eq!(&bytes[64..68], &[0xFF, 0xFF, 0x01, 0x02]);
}

#[test]
fn test_hgt_parse_small() {
    // A synthetic 5x5 buffer of big-endian i16 samples.
    let values: Vec<i16> = vec![
        100, 200, 300, 400, 500, 110, 210, 310, 410, 510, 120, 220, 320, 420, 520, 130, 230, 330,
        430, 530, 140, 240, 340, 440, 540,
    ];

    let mut data = Vec::with_capacity(values.len() * 2);
    for &v in &values {
        data.extend_from_slice(&v.to_be_bytes());
    }

    // This matches no standard tile size, so decode the samples one by one.
    let sample_count = data.len() / 2;
    let mut parsed = Vec::with_capacity(sample_count);
    for i in 0..sample_count {
        parsed.push(read_i16_be(&data, i * 2));
    }

    assert_eq!(parsed, values);
}

#[test]
fn test_fill_voids() {
    let mut elevations: Vec<i16> = vec![100, 200, 300, 100, HGT_VOID, 300, 100, 200, 300];

    fill_voids(&mut elevations, 3, 3);

    // Center void: average of 8 neighbors = 200
    assert_eq!(elevations[4], 200);
}

#[test]
fn fill_voids_twice_changes_nothing_more() {
    let mut elevations = vec![HGT_VOID, 10, HGT_VOID, 30, HGT_VOID, -7, HGT_VOID, HGT_VOID, 4, HGT_VOID];
    fill_voids(&mut elevations, 3, 3);
    let once = elevations.clone();
    assert!(once[..9].iter().all(|&v| v != HGT_VOID));
    fill_voids(&mut elevations, 3, 3);
    assert_eq!(elevations, once);
}

#[test]
fn fill_voids_on_empty_grids_of_any_width_changes_nothing() {
    let mut elevations = vec![HGT_VOID, 5, HGT_VOID];
    fill_voids(&mut elevations, u32::MAX, 0);
    assert_eq!(elevations, vec![HGT_VOID, 5, HGT_VOID]);
    fill_voids(&mut elevations, 0, u32::MAX);
    assert_eq!(elevations, vec![HGT_VOID, 5, HGT_VOID]);
}

#[test]
fn fill_voids_single_row_wider_than_tall() {
    let mut elevations = vec![10, HGT_VOID, 20, HGT_VOID];
    fill_voids(&mut elevations, 4, 1);
    assert_eq!(elevations, vec![10, 15, 20, 20]);
}

#[test]
fn test_fill_voids_corner() {
    let mut elevations: Vec<i16> = vec![HGT_VOID, 100, 100, 100];

    fill_voids(&mut elevations, 2, 2);

    // Corner void has 3 neighbors all at 100
    assert_eq!(elevations[0], 100);
}

#[test]
fn fill_voids_isolated_by_voids_becomes_zero() {
    let mut elevations: Vec<i16> = vec![HGT_VOID, HGT_VOID, HGT_VOID, HGT_VOID];
    fill_voids(&mut elevations, 2, 2);
    assert_eq!(elevations, vec![0, 0, 0, 0]);
}

#[test]
fn fill_voids_rounds_toward_zero_and_uses_old_values() {
    // Void at 0 sees 1, 2 and the other void (ignored): (1 + 2) / 2 = 1.
    let mut elevations: Vec<i16> = vec![HGT_VOID, 1, 2, HGT_VOID];
    fill_voids(&mut elevations, 2, 2);
    assert_eq!(elevations, vec![1, 1, 2, 1]);
    let mut negative: Vec<i16> = vec![HGT_VOID, -1, -2, -2];
    fill_voids(&mut negative, 2, 2);
    assert_eq!(negative[0], -1);
}

#[test]
fn hgt_tile_sizes() {
    assert_eq!(grid_size_from_byte_count(3601 * 3601 * 2), Some((3601, 1)));
    assert_eq!(grid_size_from_byte_count(1201 * 1201 * 2), Some((1201, 3)));
    assert_eq!(grid_size_from_byte_count(50), None);
    assert_eq!(parse_hgt_bytes(&[0u8; 50]).err(), Some(HgtError::UnexpectedSize(50)));
}

#[test]
fn hgt_elevation_range() {
    assert_eq!(elevation_range(&vec![-5, 40, 7]), (-5, 40));
    assert_eq!(elevation_range(&Vec::new()), (0, 0));
}

#[test]
fn test_coastline_extraction() {
    // An island: ocean around the edges, land in the center 4x4 block.
    let width = 10u32;
    let height = 10u32;
    let mut elevations = vec![0i16; (width * height) as usize];
    for r in 3..7 {
        for c in 3..7 {
            elevations[r * width as usize + c] = 100;
        }
    }
    let grid = TerrainGrid::new(header(width, height, 0, 100), elevations, None);

    let crossings = extract_coastline_crossings(&grid);

    assert!(!crossings.is_empty(), "Island should produce coastline crossings");
    // The perimeter of a 4x4 island crosses 16 cell edges.
    assert_eq!(crossings.len(), 16);
    let east = crossings.iter().filter(|c| c.direction == EdgeDirection::East).count();
    assert_eq!(east, 8);
    for c in &crossings {
        assert!((c.from_elevation > 0) != (c.to_elevation > 0));
    }
}

#[test]
fn test_coastline_all_ocean() {
    let grid = TerrainGrid::new(header(5, 5, 0, 0), vec![0i16; 25], None);
    assert!(
        extract_coastline_crossings(&grid).is_empty(),
        "All-ocean grid should have no coastlines"
    );
}

#[test]
fn test_coastline_all_land() {
    let grid = TerrainGrid::new(header(5, 5, 100, 100), vec![100i16; 25], None);
    assert!(
        extract_coastline_crossings(&grid).is_empty(),
        "All-land grid should have no coastlines"
    );
}

#[test]
fn terrain_payload_keeps_small_grids_and_scales_large_ones() {
    assert_eq!(payload_dimensions(300, 200), (300, 200));
    assert_eq!(payload_dimensions(1024, 512), (512, 256));
    assert_eq!(payload_dimensions(3601, 3601), (512, 512));
    assert_eq!(payload_dimensions(1000, 3000), (170, 512));
}

#[test]
fn terrain_payload_size_follows_binary64_scaling() {
    // The scale 512 / 561 rounds down, so the product falls just short of 512.
    assert_eq!(payload_dimensions(561, 561), (511, 511));
    assert_eq!(payload_dimensions(513, 1), (512, 0));
    assert_eq!(payload_dimensions(0, 600), (0, 512));
    assert_eq!(payload_dimensions(u32::MAX, u32::MAX), (512, 512));
    assert_eq!(payload_dimensions(u32::MAX, 3), (512, 0));
    let float_dims = |w: u32, h: u32| -> (u32, u32) {
        let scale = f64::min(512.0 / w as f64, 512.0 / h as f64);
        ((w as f64 * scale) as u32, (h as f64 * scale) as u32)
    };
    let mut seed: u64 = 0x9E37_79B9_7F4A_7C15;
    for m in 513u32..4000 {
        seed = seed.wrapping_mul(6364136223846793005).wrapping_add(1442695040888963407);
        let other = (seed >> 33) as u32 % (m + 1);
        assert_eq!(payload_dimensions(m, m), float_dims(m, m), "side {}", m);
        assert_eq!(payload_dimensions(m, other), float_dims(m, other), "{} x {}", m, other);
        assert_eq!(payload_dimensions(other, m), float_dims(other, m), "{} x {}", other, m);
    }
    for _ in 0..2000 {
        seed = seed.wrapping_mul(6364136223846793005).wrapping_add(1442695040888963407);
        let m = 513 + ((seed >> 20) as u32 % (u32::MAX - 513));
        let other = (seed >> 7) as u32 % (m + 1);
        assert_eq!(payload_dimensions(m, other), float_dims(m, other), "{} x {}", m, other);
        let d = payload_dimensions(m, other);
        assert!(d.0 <= 512 && d.1 <= 512);
    }
}

#[test]
fn terrain_payload_carries_header_and_crossings() {
    let grid = TerrainGrid::new(header(2, 2, 0, 10), vec![0, 10, 0, 0], None);
    let payload = build_terrain_payload(&grid);
    assert_eq!((payload.width, payload.height), (2, 2));
    assert_eq!(payload.header, grid.header);
    assert_eq!(payload.coastline_crossings.len(), 2);
}
