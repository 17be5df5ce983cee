//! Display views of launcher and illuminator status.

use vstd::prelude::*;

use crate::components::{Illuminator, LauncherSystem};
use crate::illuminator::{lemma_pair_order_total, pair_order, sort_pairs};
use crate::enums::{CellStatus, IlluminatorStatus, WeaponType};
use crate::fire_control::count_cells;

verus! {

/// VLS (launcher) status for display.
#[derive(Debug, Clone, Default)]
pub struct VlsView {
    pub cells: Vec<CellStatus>,
    /// Ready rounds by weapon type.
    pub ready_standard: u32,
    pub ready_extended_range: u32,
    pub ready_point_defense: u32,
    pub total_ready: u32,
    pub total_capacity: u32,
}

/// Illuminator channel status for display.
#[derive(Debug, Clone, Copy, PartialEq, Eq, Structural)]
pub struct IlluminatorView {
    pub channel_id: u8,
    pub status: IlluminatorStatus,
    pub assigned_engagement: Option<u32>,
    /// Number of engagements waiting for this channel type.
    pub queue_depth: u32,
}

/// Ready rounds of all types.
pub open spec fn total_ready_spec(cells: Seq<CellStatus>) -> nat {
    count_cells(cells, CellStatus::Ready(WeaponType::Standard)) + count_cells(
        cells,
        CellStatus::Ready(WeaponType::ExtendedRange),
    ) + count_cells(cells, CellStatus::Ready(WeaponType::PointDefense))
}

proof fn lemma_ready_total_bound(cells: Seq<CellStatus>)
    ensures
        total_ready_spec(cells) <= cells.len(),
    decreases cells.len(),
{
    if cells.len() > 0 {
        lemma_ready_total_bound(cells.drop_last());
    }
}

/// Build the VLS view of a launcher: its cells and the count of ready rounds
/// of each type.
pub fn build_vls_view(launcher: &LauncherSystem) -> (v: VlsView)
    requires
        launcher.cells@.len() <= u32::MAX,
    ensures
        v.cells@ == launcher.cells@,
        v.ready_standard == count_cells(launcher.cells@, CellStatus::Ready(WeaponType::Standard)),
        v.ready_extended_range == count_cells(
            launcher.cells@,
            CellStatus::Ready(WeaponType::ExtendedRange),
        ),
        v.ready_point_defense == count_cells(
            launcher.cells@,
            CellStatus::Ready(WeaponType::PointDefense),
        ),
        v.total_ready == total_ready_spec(launcher.cells@),
        v.total_capacity == launcher.cells@.len(),
        v.total_ready <= v.total_capacity,
{
    let n = launcher.cells.len();
    let mut ready_standard: u32 = 0;
    let mut ready_extended_range: u32 = 0;
    let mut ready_point_defense: u32 = 0;
    let mut cells: Vec<CellStatus> = Vec::new();
    let mut i: usize = 0;
    while i < n
        invariant
            i <= n,
            n == launcher.cells@.len(),
            n <= u32::MAX,
            cells@ =~= launcher.cells@.take(i as int),
            ready_standard == count_cells(
                launcher.cells@.take(i as int),
                CellStatus::Ready(WeaponType::Standard),
            ),
            ready_extended_range == count_cells(
                launcher.cells@.take(i as int),
                CellStatus::Ready(WeaponType::ExtendedRange),
            ),
            ready_point_defense == count_cells(
                launcher.cells@.take(i as int),
                CellStatus::Ready(WeaponType::PointDefense),
            ),
        decreases n - i,
    {
        let ghost t = launcher.cells@.take(i as int);
        proof {
            assert(launcher.cells@.take(i + 1).drop_last() =~= t);
            lemma_ready_total_bound(t);
        }
        let cell = launcher.cells[i];
        match cell {
            CellStatus::Ready(WeaponType::Standard) => ready_standard = ready_standard + 1,
            CellStatus::Ready(WeaponType::ExtendedRange) => ready_extended_range =
            ready_extended_range + 1,
            CellStatus::Ready(WeaponType::PointDefense) => ready_point_defense =
            ready_point_defense + 1,
            _ => {},
        }
        cells.push(cell);
        i = i + 1;
    }
    assert(launcher.cells@.take(n as int) =~= launcher.cells@);
    proof {
        lemma_ready_total_bound(launcher.cells@);
    }
    VlsView {
        total_ready: ready_standard + ready_extended_range + ready_point_defense,
        total_capacity: n as u32,
        cells,
        ready_standard,
        ready_extended_range,
        ready_point_defense,
    }
}

/// Display view of a channel (no queue depth is reported).
pub open spec fn illuminator_view_of(ch: Illuminator) -> IlluminatorView {
    IlluminatorView {
        channel_id: ch.channel_id,
        status: ch.status,
        assigned_engagement: ch.assigned_engagement,
        queue_depth: 0,
    }
}

/// Views of the channels ordered by channel id (channels with equal ids in
/// their given order).
pub open spec fn illuminator_views_spec(chans: Seq<Illuminator>) -> Seq<IlluminatorView> {
    Seq::new(chans.len(), |p: int| (chans[p].channel_id as u64, p as u64)).sort_by(
        pair_order(),
    ).map_values(|pr: (u64, u64)| illuminator_view_of(chans[pr.1 as int]))
}

/// Build the illuminator views for display, ordered by channel id.
pub fn build_illuminator_views(chans: &Vec<Illuminator>) -> (views: Vec<IlluminatorView>)
    ensures
        views@ == illuminator_views_spec(chans@),
{
    let mut keyed: Vec<(u64, u64)> = Vec::new();
    let mut p: usize = 0;
    while p < chans.len()
        invariant
            p <= chans@.len(),
            keyed@ =~= Seq::new(p as nat, |t: int| (chans@[t].channel_id as u64, t as u64)),
        decreases chans@.len() - p,
    {
        keyed.push((chans[p].channel_id as u64, p as u64));
        p = p + 1;
    }
    let sorted = sort_pairs(&keyed);
    proof {
        lemma_pair_order_total();
        keyed@.lemma_sort_by_ensures(pair_order());
        assert forall|t: int| 0 <= t < sorted@.len() implies (#[trigger] sorted@[t]).1 < chans@.len() by {
            assert(sorted@.contains(sorted@[t]));
            assert(keyed@.contains(sorted@[t]));
        }
    }
    let mut views: Vec<IlluminatorView> = Vec::new();
    let mut t: usize = 0;
    while t < sorted.len()
        invariant
            t <= sorted@.len(),
            forall|u: int| 0 <= u < sorted@.len() ==> (#[trigger] sorted@[u]).1 < chans@.len(),
            views@ =~= sorted@.take(t as int).map_values(
                |pr: (u64, u64)| illuminator_view_of(chans@[pr.1 as int]),
            ),
        decreases sorted@.len() - t,
    {
        let n = chans.len();
        assert(sorted@[t as int].1 < n);
        let idx = sorted[t].1 as usize;
        let ch = chans[idx];
        views.push(
            IlluminatorView {
                channel_id: ch.channel_id,
                status: ch.status,
                assigned_engagement: ch.assigned_engagement,
                queue_depth: 0,
            },
        );
        assert(sorted@.take(t + 1) =~= sorted@.take(t as int).push(sorted@[t as int]));
        t = t + 1;
    }
    assert(sorted@.take(sorted@.len() as int) =~= sorted@);
    views
}

} // verus!
