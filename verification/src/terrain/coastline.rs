//! Coastline detection: the grid edges where land meets ocean.
//!
//! A cell is land when its elevation is above 0 and ocean otherwise.
//! Every pair of horizontally or vertically adjacent cells whose kinds
//! differ yields one crossing. The order of crossings is the order in which
//! polylines are later chained: for each cell of the interior sweep (rows
//! `0..h-1`, columns `0..w-1`) its east edge then its south edge; then the
//! south edges of the last column; then the east edges of the last row.

use vstd::prelude::*;

use crate::terrain::grid::TerrainGrid;

verus! {

/// Which neighbour of cell (`row`, `col`) the crossing edge leads to.
#[derive(Debug, Clone, Copy, PartialEq, Eq, Structural)]
pub enum EdgeDirection {
    /// Edge between (`row`, `col`) and (`row`, `col + 1`).
    East,
    /// Edge between (`row`, `col`) and (`row + 1`, `col`).
    South,
}

/// One land/ocean boundary crossing on a grid edge.
#[derive(Debug, Clone, Copy, PartialEq, Eq, Structural)]
pub struct CoastCrossing {
    pub row: u32,
    pub col: u32,
    pub direction: EdgeDirection,
    /// Elevation of cell (`row`, `col`).
    pub from_elevation: i16,
    /// Elevation of the neighbour the edge leads to.
    pub to_elevation: i16,
}

/// Land is anything above sea level.
pub open spec fn is_land(e: i16) -> bool {
    e > 0
}

/// Elevation of cell (`r`, `c`) in a row-major grid of width `w`.
pub open spec fn elev(s: Seq<i16>, w: int, r: int, c: int) -> i16 {
    s[r * w + c]
}

/// The crossing on the east edge of (`r`, `c`), if that edge is a coastline.
pub open spec fn east_crossing(s: Seq<i16>, w: int, r: int, c: int) -> Seq<CoastCrossing> {
    if is_land(elev(s, w, r, c)) != is_land(elev(s, w, r, c + 1)) {
        seq![
            CoastCrossing {
                row: r as u32,
                col: c as u32,
                direction: EdgeDirection::East,
                from_elevation: elev(s, w, r, c),
                to_elevation: elev(s, w, r, c + 1),
            },
        ]
    } else {
        Seq::empty()
    }
}

/// The crossing on the south edge of (`r`, `c`), if that edge is a coastline.
pub open spec fn south_crossing(s: Seq<i16>, w: int, r: int, c: int) -> Seq<CoastCrossing> {
    if is_land(elev(s, w, r, c)) != is_land(elev(s, w, r + 1, c)) {
        seq![
            CoastCrossing {
                row: r as u32,
                col: c as u32,
                direction: EdgeDirection::South,
                from_elevation: elev(s, w, r, c),
                to_elevation: elev(s, w, r + 1, c),
            },
        ]
    } else {
        Seq::empty()
    }
}

/// Crossings of the first `k` cells of the interior sweep (row-major over
/// `h - 1` rows and `w - 1` columns).
pub open spec fn interior_crossings(s: Seq<i16>, w: int, k: int) -> Seq<CoastCrossing>
    decreases k,
{
    if k <= 0 || w < 2 {
        Seq::empty()
    } else {
        let r = (k - 1) / (w - 1);
        let c = (k - 1) % (w - 1);
        interior_crossings(s, w, k - 1) + east_crossing(s, w, r, c) + south_crossing(s, w, r, c)
    }
}

/// South-edge crossings of the last column for its first `k` rows.
pub open spec fn last_column_crossings(s: Seq<i16>, w: int, k: int) -> Seq<CoastCrossing>
    decreases k,
{
    if k <= 0 {
        Seq::empty()
    } else {
        last_column_crossings(s, w, k - 1) + south_crossing(s, w, k - 1, w - 1)
    }
}

/// East-edge crossings of the last row for its first `k` columns.
pub open spec fn last_row_crossings(s: Seq<i16>, w: int, h: int, k: int) -> Seq<CoastCrossing>
    decreases k,
{
    if k <= 0 {
        Seq::empty()
    } else {
        last_row_crossings(s, w, h, k - 1) + east_crossing(s, w, h - 1, k - 1)
    }
}

/// All coastline crossings of a `w` × `h` grid, in sweep order.
pub open spec fn coastline_crossings_spec(s: Seq<i16>, w: int, h: int) -> Seq<CoastCrossing> {
    if w < 2 || h < 2 {
        Seq::empty()
    } else {
        interior_crossings(s, w, (h - 1) * (w - 1)) + last_column_crossings(s, w, h - 1)
            + last_row_crossings(s, w, h, w - 1)
    }
}

fn push_east(out: &mut Vec<CoastCrossing>, elevations: &Vec<i16>, w: usize, h: usize, r: usize, c: usize)
    requires
        elevations@.len() >= (w as int) * (h as int),
        w <= u32::MAX,
        h <= u32::MAX,
        r < h,
        c + 1 < w,
    ensures
        final(out)@ == old(out)@ + east_crossing(elevations@, w as int, r as int, c as int),
{
    let n = elevations.len();
    proof {
        assert((r as int) * (w as int) + (c as int) + 1 < (w as int) * (h as int))
            by (nonlinear_arith)
            requires
                (r as int) < (h as int),
                (c as int) + 1 < (w as int),
        ;
    }
    let a = elevations[r * w + c];
    let b = elevations[r * w + c + 1];
    if (a > 0) != (b > 0) {
        out.push(
            CoastCrossing {
                row: r as u32,
                col: c as u32,
                direction: EdgeDirection::East,
                from_elevation: a,
                to_elevation: b,
            },
        );
    }
    assert(out@ =~= old(out)@ + east_crossing(elevations@, w as int, r as int, c as int));
}

fn push_south(out: &mut Vec<CoastCrossing>, elevations: &Vec<i16>, w: usize, h: usize, r: usize, c: usize)
    requires
        elevations@.len() >= (w as int) * (h as int),
        w <= u32::MAX,
        h <= u32::MAX,
        r + 1 < h,
        c < w,
    ensures
        final(out)@ == old(out)@ + south_crossing(elevations@, w as int, r as int, c as int),
{
    let n = elevations.len();
    proof {
        assert(((r + 1) as int) * (w as int) + (c as int) < (w as int) * (h as int))
            by (nonlinear_arith)
            requires
                (r as int) + 1 < (h as int),
                (c as int) < (w as int),
        ;
        assert(((r + 1) as int) * (w as int) == (r as int) * (w as int) + (w as int))
            by (nonlinear_arith);
    }
    let a = elevations[r * w + c];
    let b = elevations[(r + 1) * w + c];
    if (a > 0) != (b > 0) {
        out.push(
            CoastCrossing {
                row: r as u32,
                col: c as u32,
                direction: EdgeDirection::South,
                from_elevation: a,
                to_elevation: b,
            },
        );
    }
    assert(out@ =~= old(out)@ + south_crossing(elevations@, w as int, r as int, c as int));
}

/// Extract the land/ocean boundary crossings of a terrain grid.
pub fn extract_coastline_crossings(grid: &TerrainGrid) -> (out: Vec<CoastCrossing>)
    requires
        grid.covers_header(),
    ensures
        out@ == coastline_crossings_spec(
            grid.elevations@,
            grid.header.width as int,
            grid.header.height as int,
        ),
{
    let w = grid.header.width as usize;
    let ht = grid.header.height as usize;
    let ghost s = grid.elevations@;
    let mut out: Vec<CoastCrossing> = Vec::new();
    if w < 2 || ht < 2 {
        return out;
    }
    assert(s.len() >= (w as int) * (ht as int));

    let mut r: usize = 0;
    while r < ht - 1
        invariant
            2 <= w,
            2 <= ht,
            w == grid.header.width,
            ht == grid.header.height,
            s == grid.elevations@,
            s.len() >= (w as int) * (ht as int),
            r <= ht - 1,
            out@ == interior_crossings(s, w as int, (r as int) * ((w - 1) as int)),
        decreases ht - 1 - r,
    {
        let mut c: usize = 0;
        while c < w - 1
            invariant
                2 <= w,
                2 <= ht,
                w == grid.header.width,
                ht == grid.header.height,
                s == grid.elevations@,
                s.len() >= (w as int) * (ht as int),
                r < ht - 1,
                c <= w - 1,
                out@ == interior_crossings(
                    s,
                    w as int,
                    (r as int) * ((w - 1) as int) + (c as int),
                ),
            decreases w - 1 - c,
        {
            let ghost k = (r as int) * ((w - 1) as int) + (c as int);
            proof {
                assert(k / ((w - 1) as int) == r as int && k % ((w - 1) as int) == c as int)
                    by (nonlinear_arith)
                    requires
                        k == (r as int) * ((w - 1) as int) + (c as int),
                        0 <= (c as int) < ((w - 1) as int),
                ;
            }
            push_east(&mut out, &grid.elevations, w, ht, r, c);
            push_south(&mut out, &grid.elevations, w, ht, r, c);
            c = c + 1;
        }
        proof {
            assert((r as int) * ((w - 1) as int) + ((w - 1) as int) == ((r + 1) as int) * ((w
                - 1) as int)) by (nonlinear_arith);
        }
        r = r + 1;
    }

    // South edges of the last column.
    let ghost interior = out@;
    let mut r2: usize = 0;
    while r2 < ht - 1
        invariant
            2 <= w,
            2 <= ht,
            w == grid.header.width,
            ht == grid.header.height,
            s == grid.elevations@,
            s.len() >= (w as int) * (ht as int),
            r2 <= ht - 1,
            out@ == interior + last_column_crossings(s, w as int, r2 as int),
        decreases ht - 1 - r2,
    {
        push_south(&mut out, &grid.elevations, w, ht, r2, w - 1);
        assert(out@ =~= interior + last_column_crossings(s, w as int, (r2 + 1) as int));
        r2 = r2 + 1;
    }

    // East edges of the last row.
    let ghost before_row = out@;
    let mut c2: usize = 0;
    while c2 < w - 1
        invariant
            2 <= w,
            2 <= ht,
            w == grid.header.width,
            ht == grid.header.height,
            s == grid.elevations@,
            s.len() >= (w as int) * (ht as int),
            c2 <= w - 1,
            out@ == before_row + last_row_crossings(s, w as int, ht as int, c2 as int),
        decreases w - 1 - c2,
    {
        push_east(&mut out, &grid.elevations, w, ht, ht - 1, c2);
        assert(out@ =~= before_row + last_row_crossings(s, w as int, ht as int, (c2 + 1) as int));
        c2 = c2 + 1;
    }
    assert(out@ =~= coastline_crossings_spec(s, w as int, ht as int));
    out
}

// ---------------------------------------------------------------------------
// Laws
// ---------------------------------------------------------------------------

/// Every cell among the first `n` has the same kind (land or ocean) as cell 0.
pub open spec fn uniform_kind(s: Seq<i16>, n: int) -> bool {
    forall|i: int| 0 <= i < n ==> is_land(#[trigger] s[i]) == is_land(s[0])
}

/// Each crossing separates a land cell from an ocean cell.
pub open spec fn all_separate(xs: Seq<CoastCrossing>) -> bool {
    forall|i: int|
        0 <= i < xs.len() ==> is_land(#[trigger] xs[i].from_elevation) != is_land(
            xs[i].to_elevation,
        )
}

proof fn lemma_interior_separate(s: Seq<i16>, w: int, k: int)
    ensures
        all_separate(interior_crossings(s, w, k)),
    decreases k,
{
    if k > 0 && w >= 2 {
        lemma_interior_separate(s, w, k - 1);
        let r = (k - 1) / (w - 1);
        let c = (k - 1) % (w - 1);
        let a = interior_crossings(s, w, k - 1);
        let b = east_crossing(s, w, r, c);
        let d = south_crossing(s, w, r, c);
        assert(interior_crossings(s, w, k) == a + b + d);
        assert forall|i: int| 0 <= i < (a + b + d).len() implies is_land(
            #[trigger] (a + b + d)[i].from_elevation,
        ) != is_land((a + b + d)[i].to_elevation) by {
            if i < a.len() {
            } else if i < a.len() + b.len() {
                assert((a + b + d)[i] == b[i - a.len()]);
            } else {
                assert((a + b + d)[i] == d[i - a.len() - b.len()]);
            }
        }
    }
}

proof fn lemma_last_column_separate(s: Seq<i16>, w: int, k: int)
    ensures
        all_separate(last_column_crossings(s, w, k)),
    decreases k,
{
    if k > 0 {
        lemma_last_column_separate(s, w, k - 1);
        let a = last_column_crossings(s, w, k - 1);
        let b = south_crossing(s, w, k - 1, w - 1);
        assert forall|i: int| 0 <= i < (a + b).len() implies is_land(
            #[trigger] (a + b)[i].from_elevation,
        ) != is_land((a + b)[i].to_elevation) by {
            if i >= a.len() {
                assert((a + b)[i] == b[i - a.len()]);
            }
        }
    }
}

proof fn lemma_last_row_separate(s: Seq<i16>, w: int, h: int, k: int)
    ensures
        all_separate(last_row_crossings(s, w, h, k)),
    decreases k,
{
    if k > 0 {
        lemma_last_row_separate(s, w, h, k - 1);
        let a = last_row_crossings(s, w, h, k - 1);
        let b = east_crossing(s, w, h - 1, k - 1);
        assert forall|i: int| 0 <= i < (a + b).len() implies is_land(
            #[trigger] (a + b)[i].from_elevation,
        ) != is_land((a + b)[i].to_elevation) by {
            if i >= a.len() {
                assert((a + b)[i] == b[i - a.len()]);
            }
        }
    }
}

/// Every coastline crossing lies between a land cell and an ocean cell.
pub proof fn lemma_crossings_separate_land_and_ocean(s: Seq<i16>, w: int, h: int)
    ensures
        all_separate(coastline_crossings_spec(s, w, h)),
{
    if w >= 2 && h >= 2 {
        let a = interior_crossings(s, w, (h - 1) * (w - 1));
        let b = last_column_crossings(s, w, h - 1);
        let d = last_row_crossings(s, w, h, w - 1);
        lemma_interior_separate(s, w, (h - 1) * (w - 1));
        lemma_last_column_separate(s, w, h - 1);
        lemma_last_row_separate(s, w, h, w - 1);
        assert forall|i: int| 0 <= i < (a + b + d).len() implies is_land(
            #[trigger] (a + b + d)[i].from_elevation,
        ) != is_land((a + b + d)[i].to_elevation) by {
            if i < a.len() {
            } else if i < a.len() + b.len() {
                assert((a + b + d)[i] == b[i - a.len()]);
            } else {
                assert((a + b + d)[i] == d[i - a.len() - b.len()]);
            }
        }
    }
}

proof fn lemma_interior_uniform_empty(s: Seq<i16>, w: int, h: int, k: int)
    requires
        w >= 2,
        h >= 2,
        s.len() >= w * h,
        uniform_kind(s, w * h),
        k <= (h - 1) * (w - 1),
    ensures
        interior_crossings(s, w, k).len() == 0,
    decreases k,
{
    if k > 0 {
        lemma_interior_uniform_empty(s, w, h, k - 1);
        let r = (k - 1) / (w - 1);
        let c = (k - 1) % (w - 1);
        assert(0 <= r < h - 1 && 0 <= c < w - 1) by (nonlinear_arith)
            requires
                w >= 2,
                0 <= k - 1 < (h - 1) * (w - 1),
                r == (k - 1) / (w - 1),
                c == (k - 1) % (w - 1),
        ;
        assert(0 <= r * w + c && r * w + c + 1 < w * h && (r + 1) * w + c < w * h)
            by (nonlinear_arith)
            requires
                0 <= r < h - 1,
                0 <= c < w - 1,
        ;
        assert(is_land(s[r * w + c]) == is_land(s[0]));
        assert(is_land(s[r * w + c + 1]) == is_land(s[0]));
        assert(is_land(s[(r + 1) * w + c]) == is_land(s[0]));
    }
}

proof fn lemma_last_column_uniform_empty(s: Seq<i16>, w: int, h: int, k: int)
    requires
        w >= 2,
        h >= 2,
        s.len() >= w * h,
        uniform_kind(s, w * h),
        k <= h - 1,
    ensures
        last_column_crossings(s, w, k).len() == 0,
    decreases k,
{
    if k > 0 {
        lemma_last_column_uniform_empty(s, w, h, k - 1);
        let r = k - 1;
        assert(0 <= r * w + (w - 1) && r * w + (w - 1) < w * h && (r + 1) * w + (w - 1) < w * h) by (nonlinear_arith)
            requires
                0 <= r < h - 1,
                w >= 2,
        ;
        assert(is_land(s[r * w + (w - 1)]) == is_land(s[0]));
        assert(is_land(s[(r + 1) * w + (w - 1)]) == is_land(s[0]));
    }
}

proof fn lemma_last_row_uniform_empty(s: Seq<i16>, w: int, h: int, k: int)
    requires
        w >= 2,
        h >= 2,
        s.len() >= w * h,
        uniform_kind(s, w * h),
        k <= w - 1,
    ensures
        last_row_crossings(s, w, h, k).len() == 0,
    decreases k,
{
    if k > 0 {
        lemma_last_row_uniform_empty(s, w, h, k - 1);
        let c = k - 1;
        assert(0 <= (h - 1) * w + c && (h - 1) * w + c + 1 < w * h) by (nonlinear_arith)
            requires
                0 <= c < w - 1,
                h >= 2,
        ;
        assert(is_land(s[(h - 1) * w + c]) == is_land(s[0]));
        assert(is_land(s[(h - 1) * w + c + 1]) == is_land(s[0]));
    }
}

/// A grid that is entirely land, or entirely ocean, has no coastline.
pub proof fn lemma_uniform_grid_has_no_coastline(s: Seq<i16>, w: int, h: int)
    requires
        s.len() >= w * h,
        uniform_kind(s, w * h),
    ensures
        coastline_crossings_spec(s, w, h).len() == 0,
{
    if w >= 2 && h >= 2 {
        lemma_interior_uniform_empty(s, w, h, (h - 1) * (w - 1));
        lemma_last_column_uniform_empty(s, w, h, h - 1);
        lemma_last_row_uniform_empty(s, w, h, w - 1);
    }
}

} // verus!
