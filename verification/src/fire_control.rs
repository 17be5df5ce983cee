//! Fire control: weapon and launcher-cell selection, VLS cell bookkeeping,
//! engagement planning and the lifecycle rules of an engagement.
//!
//! Ranges are given in whole meters rounded up (the ceiling of the
//! floating-point range). Every range threshold of the fire-control rules
//! is a whole number of meters, and for a whole number `t` a range `x`
//! satisfies `x > t` exactly when its ceiling does, so the decisions below
//! are the same as on the unrounded range.

use vstd::prelude::*;

use crate::components::LauncherSystem;
use crate::constants::{
    BDA_DELAY_TICKS, EXTENDED_RANGE_PREFERENCE_M, MAX_SIMULTANEOUS_ENGAGEMENTS,
    SOLUTION_CALC_TICKS, STANDARD_PREFERENCE_M, VETO_CLOCK_TICKS, VETO_WARNING_1_TICKS,
    VETO_WARNING_2_TICKS,
};
use crate::engagement::{Engagement, FlightObservation, ScoreState};
use crate::enums::{
    CellStatus, Classification, DoctrineMode, EngagementPhase, MissilePhase, WeaponType,
};

verus! {

// ---------------------------------------------------------------------------
// Weapon and cell selection
// ---------------------------------------------------------------------------

/// Weapon preferred at a range: extended range beyond 100 km, standard
/// beyond 20 km, point defense otherwise.
pub open spec fn preferred_weapon(range_m: u64) -> WeaponType {
    if range_m > EXTENDED_RANGE_PREFERENCE_M {
        WeaponType::ExtendedRange
    } else if range_m > STANDARD_PREFERENCE_M {
        WeaponType::Standard
    } else {
        WeaponType::PointDefense
    }
}

/// Order in which weapon types are tried, starting from the preferred one.
pub open spec fn fallback_order(preferred: WeaponType) -> Seq<WeaponType> {
    match preferred {
        WeaponType::ExtendedRange => seq![
            WeaponType::ExtendedRange,
            WeaponType::Standard,
            WeaponType::PointDefense,
        ],
        WeaponType::Standard => seq![
            WeaponType::Standard,
            WeaponType::ExtendedRange,
            WeaponType::PointDefense,
        ],
        WeaponType::PointDefense => seq![
            WeaponType::PointDefense,
            WeaponType::Standard,
            WeaponType::ExtendedRange,
        ],
    }
}

/// Index of the first cell equal to `target`, if any.
pub open spec fn first_index_of(cells: Seq<CellStatus>, target: CellStatus) -> Option<int>
    decreases cells.len(),
{
    if cells.len() == 0 {
        None
    } else {
        match first_index_of(cells.drop_last(), target) {
            Some(i) => Some(i),
            None => if cells.last() == target {
                Some(cells.len() - 1)
            } else {
                None
            },
        }
    }
}

/// The weapon and cell fire control selects at `range_m`: the first weapon
/// type in the fallback order that has a ready cell, and its first ready cell.
pub open spec fn select_spec(cells: Seq<CellStatus>, range_m: u64) -> Option<(WeaponType, int)> {
    let order = fallback_order(preferred_weapon(range_m));
    match first_index_of(cells, CellStatus::Ready(order[0])) {
        Some(i) => Some((order[0], i)),
        None => match first_index_of(cells, CellStatus::Ready(order[1])) {
            Some(i) => Some((order[1], i)),
            None => match first_index_of(cells, CellStatus::Ready(order[2])) {
                Some(i) => Some((order[2], i)),
                None => None,
            },
        },
    }
}

pub proof fn lemma_first_index_of(cells: Seq<CellStatus>, target: CellStatus)
    ensures
        match first_index_of(cells, target) {
            Some(i) => 0 <= i < cells.len() && cells[i] == target && forall|j: int|
                0 <= j < i ==> cells[j] != target,
            None => forall|j: int| 0 <= j < cells.len() ==> cells[j] != target,
        },
    decreases cells.len(),
{
    if cells.len() > 0 {
        let d = cells.drop_last();
        lemma_first_index_of(d, target);
        assert forall|j: int| 0 <= j < d.len() implies d[j] == cells[j] by {}
        match first_index_of(d, target) {
            Some(i) => {},
            None => {
                assert forall|j: int| 0 <= j < cells.len() - 1 implies cells[j] != target by {
                    assert(d[j] == cells[j]);
                }
            },
        }
    }
}

/// First index of `target` in `cells`.
fn find_cell(cells: &Vec<CellStatus>, target: CellStatus) -> (r: Option<usize>)
    ensures
        match first_index_of(cells@, target) {
            Some(i) => r is Some && r.unwrap() as int == i,
            None => r is None,
        },
{
    let n = cells.len();
    let mut i: usize = 0;
    while i < n
        invariant
            i <= n,
            n == cells@.len(),
            first_index_of(cells@.take(i as int), target) is None,
        decreases n - i,
    {
        assert(cells@.take(i + 1).drop_last() =~= cells@.take(i as int));
        if cells[i] == target {
            assert(first_index_of(cells@.take(i + 1), target) == Some(i as int));
            proof {
                lemma_first_index_prefix(cells@, target, i as int + 1);
            }
            return Some(i);
        }
        i = i + 1;
    }
    assert(cells@.take(n as int) =~= cells@);
    None
}

/// A hit found in a prefix is the hit of the whole sequence.
proof fn lemma_first_index_prefix(cells: Seq<CellStatus>, target: CellStatus, k: int)
    requires
        0 <= k <= cells.len(),
        first_index_of(cells.take(k), target) is Some,
    ensures
        first_index_of(cells, target) == first_index_of(cells.take(k), target),
    decreases cells.len() - k,
{
    if k < cells.len() {
        assert(cells.take(k + 1).drop_last() =~= cells.take(k));
        lemma_first_index_prefix(cells, target, k + 1);
    } else {
        assert(cells.take(k) =~= cells);
    }
}

/// Select weapon type based on range and find an available VLS cell.
pub fn select_weapon_and_cell(launcher: &LauncherSystem, range_m: u64) -> (r: Option<(WeaponType, usize)>)
    ensures
        match select_spec(launcher.cells@, range_m) {
            Some((w, i)) => r is Some && r.unwrap().0 == w && r.unwrap().1 as int == i,
            None => r is None,
        },
{
    let preferred = if range_m > EXTENDED_RANGE_PREFERENCE_M {
        WeaponType::ExtendedRange
    } else if range_m > STANDARD_PREFERENCE_M {
        WeaponType::Standard
    } else {
        WeaponType::PointDefense
    };
    let order: [WeaponType; 3] = match preferred {
        WeaponType::ExtendedRange => [
            WeaponType::ExtendedRange,
            WeaponType::Standard,
            WeaponType::PointDefense,
        ],
        WeaponType::Standard => [
            WeaponType::Standard,
            WeaponType::ExtendedRange,
            WeaponType::PointDefense,
        ],
        WeaponType::PointDefense => [
            WeaponType::PointDefense,
            WeaponType::Standard,
            WeaponType::ExtendedRange,
        ],
    };
    let ghost spec_order = fallback_order(preferred_weapon(range_m));
    assert(order@ =~= spec_order);
    match find_cell(&launcher.cells, CellStatus::Ready(order[0])) {
        Some(i) => {
            return Some((order[0], i));
        },
        None => {},
    }
    match find_cell(&launcher.cells, CellStatus::Ready(order[1])) {
        Some(i) => {
            return Some((order[1], i));
        },
        None => {},
    }
    match find_cell(&launcher.cells, CellStatus::Ready(order[2])) {
        Some(i) => Some((order[2], i)),
        None => None,
    }
}

/// A selection is a ready cell of the selected weapon, the first such cell,
/// of the first weapon type in the fallback order that has one.
pub proof fn lemma_selection_is_first_ready(cells: Seq<CellStatus>, range_m: u64)
    ensures
        ({
            let order = fallback_order(preferred_weapon(range_m));
            match select_spec(cells, range_m) {
                Some((w, i)) => {
                    &&& 0 <= i < cells.len()
                    &&& cells[i] == CellStatus::Ready(w)
                    &&& forall|j: int| 0 <= j < i ==> cells[j] != CellStatus::Ready(w)
                    &&& exists|k: int|
                        0 <= k < 3 && order[k] == w && forall|k2: int, j: int|
                            #![trigger order[k2], cells[j]]
                            0 <= k2 < k && 0 <= j < cells.len() ==> cells[j]
                                != CellStatus::Ready(order[k2])
                },
                None => forall|j: int, w: WeaponType|
                    0 <= j < cells.len() ==> cells[j] != CellStatus::Ready(w),
            }
        }),
{
    let order = fallback_order(preferred_weapon(range_m));
    lemma_first_index_of(cells, CellStatus::Ready(order[0]));
    lemma_first_index_of(cells, CellStatus::Ready(order[1]));
    lemma_first_index_of(cells, CellStatus::Ready(order[2]));
    match select_spec(cells, range_m) {
        Some((w, i)) => {
            if w == order[0] {
                assert(order[0] == w);
            } else if w == order[1] {
                assert(order[1] == w);
            } else {
                assert(order[2] == w);
            }
        },
        None => {
            assert forall|j: int, w: WeaponType|
                0 <= j < cells.len() implies cells[j] != CellStatus::Ready(w) by {
                assert(w == order[0] || w == order[1] || w == order[2]);
            }
        },
    }
}

// ---------------------------------------------------------------------------
// Cell bookkeeping
// ---------------------------------------------------------------------------

/// Cells after setting cell `idx` (when it exists) to `status`.
pub open spec fn set_cell(cells: Seq<CellStatus>, idx: int, status: CellStatus) -> Seq<CellStatus> {
    if 0 <= idx < cells.len() {
        cells.update(idx, status)
    } else {
        cells
    }
}

/// Mark a VLS cell as Assigned (no change for an index past the launcher).
pub fn assign_vls_cell(launcher: &mut LauncherSystem, cell_idx: usize, weapon_type: WeaponType)
    ensures
        final(launcher).cells@ == set_cell(
            old(launcher).cells@,
            cell_idx as int,
            CellStatus::Assigned(weapon_type),
        ),
{
    if cell_idx < launcher.cells.len() {
        launcher.cells.set(cell_idx, CellStatus::Assigned(weapon_type));
    }
}

/// Mark a VLS cell as Expended (no change for an index past the launcher).
pub fn expend_vls_cell(launcher: &mut LauncherSystem, cell_idx: usize)
    ensures
        final(launcher).cells@ == set_cell(old(launcher).cells@, cell_idx as int, CellStatus::Expended),
{
    if cell_idx < launcher.cells.len() {
        launcher.cells.set(cell_idx, CellStatus::Expended);
    }
}

/// Release a VLS cell back to Ready (on veto/abort).
pub fn release_vls_cell(launcher: &mut LauncherSystem, cell_idx: usize, weapon_type: WeaponType)
    ensures
        final(launcher).cells@ == set_cell(
            old(launcher).cells@,
            cell_idx as int,
            CellStatus::Ready(weapon_type),
        ),
{
    if cell_idx < launcher.cells.len() {
        launcher.cells.set(cell_idx, CellStatus::Ready(weapon_type));
    }
}

/// Releasing a cell that was assigned from a ready missile restores the
/// launcher exactly as it was.
pub proof fn lemma_assign_then_release_restores(cells: Seq<CellStatus>, idx: int, w: WeaponType)
    requires
        0 <= idx < cells.len(),
        cells[idx] == CellStatus::Ready(w),
    ensures
        set_cell(set_cell(cells, idx, CellStatus::Assigned(w)), idx, CellStatus::Ready(w)) == cells,
{
    assert(set_cell(set_cell(cells, idx, CellStatus::Assigned(w)), idx, CellStatus::Ready(w))
        =~= cells);
}

/// Number of cells equal to `status`.
pub open spec fn count_cells(cells: Seq<CellStatus>, status: CellStatus) -> nat
    decreases cells.len(),
{
    if cells.len() == 0 {
        0
    } else {
        count_cells(cells.drop_last(), status) + if cells.last() == status {
            1nat
        } else {
            0nat
        }
    }
}

/// Setting one cell changes each count by the cell's old and new status only.
pub proof fn lemma_count_after_update(
    cells: Seq<CellStatus>,
    idx: int,
    x: CellStatus,
    status: CellStatus,
)
    requires
        0 <= idx < cells.len(),
    ensures
        count_cells(cells.update(idx, x), status) + (if cells[idx] == status {
            1int
        } else {
            0int
        }) == count_cells(cells, status) + (if x == status {
            1int
        } else {
            0int
        }),
    decreases cells.len(),
{
    let u = cells.update(idx, x);
    if idx < cells.len() - 1 {
        assert(u.drop_last() =~= cells.drop_last().update(idx, x));
        lemma_count_after_update(cells.drop_last(), idx, x, status);
    } else {
        assert(u.drop_last() =~= cells.drop_last());
    }
}

/// Assigning the selected cell takes exactly one ready round of the selected
/// weapon type out of the launcher and leaves the other types' counts alone.
pub proof fn lemma_assignment_consumes_one_ready_round(cells: Seq<CellStatus>, range_m: u64)
    requires
        select_spec(cells, range_m) is Some,
    ensures
        ({
            let (w, i) = select_spec(cells, range_m).unwrap();
            let after = set_cell(cells, i, CellStatus::Assigned(w));
            &&& count_cells(after, CellStatus::Ready(w)) + 1 == count_cells(
                cells,
                CellStatus::Ready(w),
            )
            &&& forall|w2: WeaponType|
                w2 != w ==> count_cells(after, CellStatus::Ready(w2)) == count_cells(
                    cells,
                    CellStatus::Ready(w2),
                )
        }),
{
    lemma_selection_is_first_ready(cells, range_m);
    let (w, i) = select_spec(cells, range_m).unwrap();
    lemma_count_after_update(cells, i, CellStatus::Assigned(w), CellStatus::Ready(w));
    assert forall|w2: WeaponType| w2 != w implies count_cells(
        set_cell(cells, i, CellStatus::Assigned(w)),
        CellStatus::Ready(w2),
    ) == count_cells(cells, CellStatus::Ready(w2)) by {
        lemma_count_after_update(cells, i, CellStatus::Assigned(w), CellStatus::Ready(w2));
    }
}

// ---------------------------------------------------------------------------
// Engagement planning
// ---------------------------------------------------------------------------

/// A tracked threat examined by fire control for a new engagement.
#[derive(Debug, Clone, Copy, PartialEq, Eq, Structural)]
pub struct EngagementCandidate {
    pub track_number: u32,
    pub classification: Classification,
    /// The track's quality has reached the firm-track threshold.
    pub firm: bool,
    /// Range from own ship in whole meters, rounded up.
    pub range_m: u64,
}

/// A new engagement decided by fire control; its launcher cell is now assigned.
#[derive(Debug, Clone, Copy, PartialEq, Eq, Structural)]
pub struct PlannedEngagement {
    pub engagement_id: u32,
    /// Position of the engaged track in the candidate list.
    pub candidate_index: usize,
    pub track_number: u32,
    pub weapon_type: WeaponType,
    /// Launcher cell assigned to the engagement.
    pub cell: usize,
}

/// Whether a doctrine lets the system engage a track of this classification
/// on its own: hostiles under AUTO-SPECIAL, hostiles and suspects under
/// AUTO-COMPOSITE, nothing under MANUAL.
pub open spec fn doctrine_permits_spec(doctrine: DoctrineMode, c: Classification) -> bool {
    match doctrine {
        DoctrineMode::AutoSpecial => c == Classification::Hostile,
        DoctrineMode::AutoComposite => c == Classification::Hostile || c
            == Classification::Suspect,
        DoctrineMode::Manual => false,
    }
}

/// Whether a doctrine lets the system engage a track of this classification.
pub fn doctrine_permits(doctrine: DoctrineMode, classification: Classification) -> (b: bool)
    ensures
        b == doctrine_permits_spec(doctrine, classification),
{
    match doctrine {
        DoctrineMode::AutoSpecial => classification == Classification::Hostile,
        DoctrineMode::AutoComposite => classification == Classification::Hostile
            || classification == Classification::Suspect,
        DoctrineMode::Manual => false,
    }
}

/// State threaded through engagement planning.
pub struct PlanState {
    pub cells: Seq<CellStatus>,
    /// Engagements in the table (including finished ones awaiting cleanup).
    pub count: int,
    pub next_id: int,
    pub planned: Seq<PlannedEngagement>,
}

/// Candidate `c` (at position `ci`) qualifies for an engagement.
pub open spec fn qualifies(c: EngagementCandidate, engaged: Seq<u32>, doctrine: DoctrineMode) -> bool {
    &&& !engaged.contains(c.track_number)
    &&& doctrine_permits_spec(doctrine, c.classification)
    &&& c.firm
}

/// One planning step: engage candidate `c` when the table has room, the
/// candidate qualifies, and a weapon with a ready cell exists.
pub open spec fn plan_step(
    st: PlanState,
    c: EngagementCandidate,
    ci: int,
    engaged: Seq<u32>,
    doctrine: DoctrineMode,
) -> PlanState {
    if st.count >= MAX_SIMULTANEOUS_ENGAGEMENTS || !qualifies(c, engaged, doctrine) {
        st
    } else {
        match select_spec(st.cells, c.range_m) {
            None => st,
            Some((w, i)) => PlanState {
                cells: st.cells.update(i, CellStatus::Assigned(w)),
                count: st.count + 1,
                next_id: st.next_id + 1,
                planned: st.planned.push(
                    PlannedEngagement {
                        engagement_id: st.next_id as u32,
                        candidate_index: ci as usize,
                        track_number: c.track_number,
                        weapon_type: w,
                        cell: i as usize,
                    },
                ),
            },
        }
    }
}

/// Planning over the candidates in order.
pub open spec fn plan_fold(
    st0: PlanState,
    cands: Seq<EngagementCandidate>,
    engaged: Seq<u32>,
    doctrine: DoctrineMode,
) -> PlanState
    decreases cands.len(),
{
    if cands.len() == 0 {
        st0
    } else {
        plan_step(
            plan_fold(st0, cands.drop_last(), engaged, doctrine),
            cands.last(),
            cands.len() - 1,
            engaged,
            doctrine,
        )
    }
}

/// Initial planning state.
pub open spec fn plan_start(cells: Seq<CellStatus>, count: int, next_id: int) -> PlanState {
    PlanState { cells, count, next_id, planned: Seq::empty() }
}

proof fn lemma_manual_plan_keeps_state(st0: PlanState, cands: Seq<EngagementCandidate>, engaged: Seq<u32>)
    ensures
        plan_fold(st0, cands, engaged, DoctrineMode::Manual) == st0,
    decreases cands.len(),
{
    if cands.len() > 0 {
        lemma_manual_plan_keeps_state(st0, cands.drop_last(), engaged);
    }
}

/// Planning more candidates never lowers the next engagement id.
proof fn lemma_plan_next_id_grows(
    st0: PlanState,
    cands: Seq<EngagementCandidate>,
    engaged: Seq<u32>,
    doctrine: DoctrineMode,
    k: int,
)
    requires
        0 <= k <= cands.len(),
    ensures
        plan_fold(st0, cands.take(k), engaged, doctrine).next_id <= plan_fold(
            st0,
            cands,
            engaged,
            doctrine,
        ).next_id,
    decreases cands.len() - k,
{
    if k < cands.len() {
        lemma_plan_next_id_grows(st0, cands, engaged, doctrine, k + 1);
        assert(cands.take(k + 1).drop_last() =~= cands.take(k));
        assert(cands.take(k + 1).last() == cands[k]);
    } else {
        assert(cands.take(k) =~= cands);
    }
}

/// Facts that hold along every planning fold.
pub open spec fn plan_shape(st0: PlanState, st: PlanState, ncands: int) -> bool {
    &&& st.cells.len() == st0.cells.len()
    &&& st.count == st0.count + (st.planned.len() - st0.planned.len())
    &&& st.next_id == st0.next_id + (st.planned.len() - st0.planned.len())
    &&& st.planned.len() >= st0.planned.len()
    &&& (st.planned.len() > st0.planned.len() ==> st.count <= MAX_SIMULTANEOUS_ENGAGEMENTS)
    &&& forall|k: int|
        st0.planned.len() <= k < st.planned.len() ==> #[trigger] st.planned[k].candidate_index
            < ncands
}

pub proof fn lemma_plan_shape(
    st0: PlanState,
    cands: Seq<EngagementCandidate>,
    engaged: Seq<u32>,
    doctrine: DoctrineMode,
)
    ensures
        plan_shape(st0, plan_fold(st0, cands, engaged, doctrine), cands.len() as int),
        plan_fold(st0, cands, engaged, doctrine).planned.take(st0.planned.len() as int)
            == st0.planned,
    decreases cands.len(),
{
    if cands.len() > 0 {
        let prev = plan_fold(st0, cands.drop_last(), engaged, doctrine);
        lemma_plan_shape(st0, cands.drop_last(), engaged, doctrine);
        let c = cands.last();
        if prev.count < MAX_SIMULTANEOUS_ENGAGEMENTS && qualifies(c, engaged, doctrine) {
            lemma_selection_is_first_ready(prev.cells, c.range_m);
            let st = plan_fold(st0, cands, engaged, doctrine);
            assert(st.planned.take(st0.planned.len() as int) =~= prev.planned.take(
                st0.planned.len() as int,
            ));
        }
    }
}

fn contains_track(tracks: &Vec<u32>, t: u32) -> (b: bool)
    ensures
        b == tracks@.contains(t),
{
    let n = tracks.len();
    let mut i: usize = 0;
    while i < n
        invariant
            i <= n,
            n == tracks@.len(),
            forall|j: int| 0 <= j < i ==> tracks@[j] != t,
        decreases n - i,
    {
        if tracks[i] == t {
            assert(tracks@[i as int] == t);
            return true;
        }
        i = i + 1;
    }
    false
}

/// Decide the new engagements of one fire-control pass.
///
/// Candidates are examined in order. A candidate is engaged when the table
/// (`engagement_count` entries, finished ones included) holds fewer than the
/// maximum number of simultaneous engagements, its track is not already in an
/// active engagement, the doctrine permits its classification, its track is
/// firm, and a weapon with a ready cell exists for its range. Each new
/// engagement takes the next engagement id and assigns its launcher cell.
pub fn plan_new_engagements(
    launcher: &mut LauncherSystem,
    engagement_count: usize,
    engaged_tracks: &Vec<u32>,
    candidates: &Vec<EngagementCandidate>,
    doctrine: DoctrineMode,
    next_engagement_id: &mut u32,
) -> (planned: Vec<PlannedEngagement>)
    requires
        plan_fold(
            plan_start(old(launcher).cells@, engagement_count as int, *old(next_engagement_id) as int),
            candidates@,
            engaged_tracks@,
            doctrine,
        ).next_id <= u32::MAX,
    ensures
        ({
            let st = plan_fold(
                plan_start(
                    old(launcher).cells@,
                    engagement_count as int,
                    *old(next_engagement_id) as int,
                ),
                candidates@,
                engaged_tracks@,
                doctrine,
            );
            &&& final(launcher).cells@ == st.cells
            &&& *final(next_engagement_id) == st.next_id
            &&& planned@ == st.planned
        }),
{
    let ghost st0 = plan_start(
        launcher.cells@,
        engagement_count as int,
        *next_engagement_id as int,
    );
    let mut planned: Vec<PlannedEngagement> = Vec::new();
    let mut count = engagement_count;
    let n = candidates.len();
    let mut k: usize = 0;
    while k < n
        invariant
            k <= n,
            n == candidates@.len(),
            st0 == plan_start(old(launcher).cells@, engagement_count as int, *old(next_engagement_id) as int),
            plan_fold(st0, candidates@, engaged_tracks@, doctrine).next_id <= u32::MAX,
            ({
                let st = plan_fold(st0, candidates@.take(k as int), engaged_tracks@, doctrine);
                &&& launcher.cells@ == st.cells
                &&& *next_engagement_id == st.next_id
                &&& count == st.count
                &&& planned@ == st.planned
            }),
        decreases n - k,
    {
        let ghost prefix = candidates@.take(k as int);
        assert(candidates@.take(k + 1).drop_last() =~= prefix);
        assert(candidates@.take(k + 1).last() == candidates@[k as int]);
        proof {
            lemma_plan_shape(st0, prefix, engaged_tracks@, doctrine);
            lemma_plan_next_id_grows(st0, candidates@, engaged_tracks@, doctrine, k as int + 1);
        }
        let ghost prev = plan_fold(st0, prefix, engaged_tracks@, doctrine);
        assert(plan_fold(st0, candidates@.take(k + 1), engaged_tracks@, doctrine) == plan_step(
            prev,
            candidates@[k as int],
            k as int,
            engaged_tracks@,
            doctrine,
        ));
        let c = candidates[k];
        if count < MAX_SIMULTANEOUS_ENGAGEMENTS && !contains_track(engaged_tracks, c.track_number)
            && doctrine_permits(doctrine, c.classification) && c.firm {
            match select_weapon_and_cell(launcher, c.range_m) {
                Some((weapon_type, cell)) => {
                    proof {
                        lemma_selection_is_first_ready(launcher.cells@, c.range_m);
                        let sel = select_spec(prev.cells, c.range_m);
                        assert(sel is Some);
                        assert(sel.unwrap().1 == cell as int);
                        assert(sel == Some((weapon_type, cell as int)));
                    }
                    assign_vls_cell(launcher, cell, weapon_type);
                    let id = *next_engagement_id;
                    *next_engagement_id = id + 1;
                    count = count + 1;
                    planned.push(
                        PlannedEngagement {
                            engagement_id: id,
                            candidate_index: k,
                            track_number: c.track_number,
                            weapon_type,
                            cell,
                        },
                    );
                    assert(launcher.cells@ =~= prev.cells.update(cell as int, CellStatus::Assigned(weapon_type)));
                },
                None => {},
            }
        }
        let ghost nxt = plan_step(prev, candidates@[k as int], k as int, engaged_tracks@, doctrine);
        assert(launcher.cells@ == nxt.cells);
        assert(*next_engagement_id == nxt.next_id);
        assert(count == nxt.count);
        assert(planned@ == nxt.planned);
        k = k + 1;
    }
    assert(candidates@.take(n as int) =~= candidates@);
    planned
}

/// Whether launcher cell `j` was assigned by one of the planned engagements.
pub open spec fn is_planned_cell(planned: Seq<PlannedEngagement>, j: int) -> bool {
    exists|k: int| 0 <= k < planned.len() && #[trigger] planned[k].cell == j
}

/// What every planning pass guarantees about its result.
pub open spec fn plan_guarantees(
    cells0: Seq<CellStatus>,
    count0: int,
    next0: int,
    cands: Seq<EngagementCandidate>,
    engaged: Seq<u32>,
    doctrine: DoctrineMode,
    st: PlanState,
) -> bool {
    let p = st.planned;
    // the table never grows past the maximum through planning
    &&& st.count == count0 + p.len()
    &&& (p.len() > 0 ==> st.count <= MAX_SIMULTANEOUS_ENGAGEMENTS)
    // ids are handed out consecutively
    &&& st.next_id == next0 + p.len()
    &&& forall|k: int| 0 <= k < p.len() ==> #[trigger] p[k].engagement_id == next0 + k
    // each engagement answers a qualifying candidate, in candidate order
    &&& forall|k: int|
        0 <= k < p.len() ==> {
            &&& 0 <= #[trigger] p[k].candidate_index < cands.len()
            &&& p[k].track_number == cands[p[k].candidate_index as int].track_number
            &&& qualifies(cands[p[k].candidate_index as int], engaged, doctrine)
        }
    &&& forall|k1: int, k2: int|
        0 <= k1 < k2 < p.len() ==> #[trigger] p[k1].candidate_index
            < #[trigger] p[k2].candidate_index
    // each engagement takes a ready round of its weapon and assigns that cell
    &&& st.cells.len() == cells0.len()
    &&& forall|k: int|
        0 <= k < p.len() ==> {
            &&& 0 <= #[trigger] p[k].cell < cells0.len()
            &&& cells0[p[k].cell as int] == CellStatus::Ready(p[k].weapon_type)
            &&& st.cells[p[k].cell as int] == CellStatus::Assigned(p[k].weapon_type)
        }
    &&& forall|j: int|
        0 <= j < cells0.len() && !is_planned_cell(p, j) ==> #[trigger] st.cells[j] == cells0[j]
}

/// The guarantees of a planning pass, proved over the candidates in order.
pub proof fn lemma_plan_guarantees(
    cells0: Seq<CellStatus>,
    count0: int,
    next0: int,
    cands: Seq<EngagementCandidate>,
    engaged: Seq<u32>,
    doctrine: DoctrineMode,
)
    requires
        cells0.len() <= usize::MAX,
        cands.len() <= usize::MAX,
        0 <= count0,
        0 <= next0,
        plan_fold(plan_start(cells0, count0, next0), cands, engaged, doctrine).next_id <= u32::MAX,
    ensures
        plan_guarantees(
            cells0,
            count0,
            next0,
            cands,
            engaged,
            doctrine,
            plan_fold(plan_start(cells0, count0, next0), cands, engaged, doctrine),
        ),
    decreases cands.len(),
{
    let st0 = plan_start(cells0, count0, next0);
    let st = plan_fold(st0, cands, engaged, doctrine);
    if cands.len() == 0 {
        assert(st == st0);
    } else {
        let pre = cands.drop_last();
        lemma_plan_guarantees(cells0, count0, next0, pre, engaged, doctrine);
        let prev = plan_fold(st0, pre, engaged, doctrine);
        let c = cands.last();
        let ci = cands.len() - 1;
        assert forall|k: int| 0 <= k < pre.len() implies pre[k] == cands[k] by {}
        if prev.count < MAX_SIMULTANEOUS_ENGAGEMENTS && qualifies(c, engaged, doctrine) {
            lemma_selection_is_first_ready(prev.cells, c.range_m);
            match select_spec(prev.cells, c.range_m) {
                None => {},
                Some((w, i)) => {
                    let p = st.planned;
                    assert(p == prev.planned.push(p[p.len() - 1]));
                    // the new cell was not taken by an earlier engagement
                    assert(!is_planned_cell(prev.planned, i)) by {
                        if is_planned_cell(prev.planned, i) {
                            let k = choose|k: int|
                                0 <= k < prev.planned.len() && #[trigger] prev.planned[k].cell
                                    == i;
                            assert(prev.cells[prev.planned[k].cell as int]
                                == CellStatus::Assigned(prev.planned[k].weapon_type));
                        }
                    }
                    assert(cells0[i] == CellStatus::Ready(w));
                    assert forall|k: int| 0 <= k < p.len() implies {
                        &&& 0 <= #[trigger] p[k].cell < cells0.len()
                        &&& cells0[p[k].cell as int] == CellStatus::Ready(p[k].weapon_type)
                        &&& st.cells[p[k].cell as int] == CellStatus::Assigned(p[k].weapon_type)
                    } by {
                        if k < p.len() - 1 {
                            assert(p[k] == prev.planned[k]);
                            assert(p[k].cell != i) by {
                                if p[k].cell == i {
                                    assert(is_planned_cell(prev.planned, i));
                                }
                            }
                        }
                    }
                    assert forall|j: int|
                        0 <= j < cells0.len() && !is_planned_cell(p, j) implies #[trigger] st.cells[j]
                        == cells0[j] by {
                        assert(j != i) by {
                            if j == i {
                                assert(p[p.len() - 1].cell == i);
                            }
                        }
                        assert(!is_planned_cell(prev.planned, j)) by {
                            if is_planned_cell(prev.planned, j) {
                                let k = choose|k: int|
                                    0 <= k < prev.planned.len() && #[trigger] prev.planned[k].cell
                                        == j;
                                assert(p[k] == prev.planned[k]);
                            }
                        }
                    }
                    assert forall|k: int| 0 <= k < p.len() implies {
                        &&& 0 <= #[trigger] p[k].candidate_index < cands.len()
                        &&& p[k].track_number == cands[p[k].candidate_index as int].track_number
                        &&& qualifies(cands[p[k].candidate_index as int], engaged, doctrine)
                    } by {
                        if k < p.len() - 1 {
                            assert(p[k] == prev.planned[k]);
                        }
                    }
                    assert forall|k1: int, k2: int| 0 <= k1 < k2 < p.len() implies #[trigger] p[k1].candidate_index
                        < #[trigger] p[k2].candidate_index by {
                        assert(p[k1] == prev.planned[k1]);
                        if k2 < p.len() - 1 {
                            assert(p[k2] == prev.planned[k2]);
                        }
                    }
                    assert forall|k: int| 0 <= k < p.len() implies #[trigger] p[k].engagement_id
                        == next0 + k by {
                        if k < p.len() - 1 {
                            assert(p[k] == prev.planned[k]);
                        }
                    }
                },
            }
        }
    }
}

/// Under MANUAL doctrine fire control never creates an engagement.
pub proof fn lemma_manual_doctrine_plans_nothing(
    cells0: Seq<CellStatus>,
    count0: int,
    next0: int,
    cands: Seq<EngagementCandidate>,
    engaged: Seq<u32>,
)
    requires
        cells0.len() <= usize::MAX,
        cands.len() <= usize::MAX,
        0 <= count0,
        0 <= next0,
        next0 <= u32::MAX,
    ensures
        plan_fold(plan_start(cells0, count0, next0), cands, engaged, DoctrineMode::Manual).planned.len()
            == 0,
{
    lemma_manual_plan_keeps_state(plan_start(cells0, count0, next0), cands, engaged);
    lemma_plan_guarantees(cells0, count0, next0, cands, engaged, DoctrineMode::Manual);
    let p = plan_fold(plan_start(cells0, count0, next0), cands, engaged, DoctrineMode::Manual).planned;
    if p.len() > 0 {
        assert(qualifies(cands[p[0].candidate_index as int], engaged, DoctrineMode::Manual));
    }
}

/// When the candidates carry distinct track numbers, no two new engagements
/// share a track, and none duplicates an already active engagement.
pub proof fn lemma_no_duplicate_engagements(
    cells0: Seq<CellStatus>,
    count0: int,
    next0: int,
    cands: Seq<EngagementCandidate>,
    engaged: Seq<u32>,
    doctrine: DoctrineMode,
)
    requires
        cells0.len() <= usize::MAX,
        cands.len() <= usize::MAX,
        0 <= count0,
        0 <= next0,
        plan_fold(plan_start(cells0, count0, next0), cands, engaged, doctrine).next_id <= u32::MAX,
        forall|a: int, b: int|
            0 <= a < b < cands.len() ==> #[trigger] cands[a].track_number
                != #[trigger] cands[b].track_number,
    ensures
        ({
            let p = plan_fold(plan_start(cells0, count0, next0), cands, engaged, doctrine).planned;
            &&& forall|k1: int, k2: int|
                0 <= k1 < k2 < p.len() ==> #[trigger] p[k1].track_number
                    != #[trigger] p[k2].track_number
            &&& forall|k: int| 0 <= k < p.len() ==> !engaged.contains(#[trigger] p[k].track_number)
        }),
{
    lemma_plan_guarantees(cells0, count0, next0, cands, engaged, doctrine);
    let p = plan_fold(plan_start(cells0, count0, next0), cands, engaged, doctrine).planned;
    assert forall|k1: int, k2: int| 0 <= k1 < k2 < p.len() implies #[trigger] p[k1].track_number
        != #[trigger] p[k2].track_number by {
        let a = p[k1].candidate_index as int;
        let b = p[k2].candidate_index as int;
        assert(a < b);
        assert(cands[a].track_number != cands[b].track_number);
    }
    assert forall|k: int| 0 <= k < p.len() implies !engaged.contains(#[trigger] p[k].track_number) by {
        assert(qualifies(cands[p[k].candidate_index as int], engaged, doctrine));
    }
}

// ---------------------------------------------------------------------------
// Engagement lifecycle rules
// ---------------------------------------------------------------------------

/// A finished engagement: complete or aborted.
pub open spec fn is_finished_phase(phase: EngagementPhase) -> bool {
    phase == EngagementPhase::Complete || phase == EngagementPhase::Aborted
}

/// Whether an engagement is still in progress (neither complete nor aborted).
pub fn engagement_active(phase: EngagementPhase) -> (b: bool)
    ensures
        b == !is_finished_phase(phase),
{
    !matches!(phase, EngagementPhase::Complete | EngagementPhase::Aborted)
}

/// Ticks elapsed since `start`, or 0 when `now` is earlier.
pub open spec fn elapsed_ticks(start: u64, now: u64) -> int {
    if now >= start {
        now - start
    } else {
        0
    }
}

/// Whether an engagement stays in the table: unfinished engagements always do,
/// finished ones until the battle damage assessment delay has passed.
pub fn retain_engagement(phase: EngagementPhase, phase_start_tick: u64, current_tick: u64) -> (b:
    bool)
    ensures
        b == (!is_finished_phase(phase) || elapsed_ticks(phase_start_tick, current_tick)
            < BDA_DELAY_TICKS),
{
    if engagement_active(phase) {
        true
    } else {
        current_tick.saturating_sub(phase_start_tick) < BDA_DELAY_TICKS
    }
}

/// Whether an engagement stays in the table at `now`.
pub open spec fn retained(e: Engagement, now: u64) -> bool {
    !is_finished_phase(e.phase) || elapsed_ticks(e.phase_start_tick, now) < BDA_DELAY_TICKS
}

/// The engagements that stay in the table, in order.
pub open spec fn cleanup_spec(engs: Seq<Engagement>, now: u64) -> Seq<Engagement>
    decreases engs.len(),
{
    if engs.len() == 0 {
        engs
    } else {
        let rest = cleanup_spec(engs.drop_last(), now);
        if retained(engs.last(), now) {
            rest.push(engs.last())
        } else {
            rest
        }
    }
}

/// Remove the engagements that have been complete or aborted for longer than
/// the battle damage assessment delay.
pub fn cleanup_completed_engagements(engs: &mut Vec<Engagement>, current_tick: u64)
    ensures
        final(engs)@ == cleanup_spec(old(engs)@, current_tick),
{
    let ghost e0 = engs@;
    let mut kept: Vec<Engagement> = Vec::new();
    let mut i: usize = 0;
    while i < engs.len()
        invariant
            engs@ == e0,
            i <= e0.len(),
            kept@ == cleanup_spec(e0.take(i as int), current_tick),
        decreases e0.len() - i,
    {
        assert(e0.take(i + 1).drop_last() =~= e0.take(i as int));
        let e = engs[i];
        if retain_engagement(e.phase, e.phase_start_tick, current_tick) {
            kept.push(e);
        }
        i = i + 1;
    }
    assert(e0.take(e0.len() as int) =~= e0);
    *engs = kept;
}

/// Whether the fire-control solution started at `phase_start_tick` is done
/// (the solution calculation time has elapsed).
pub fn solution_complete(phase_start_tick: u64, current_tick: u64) -> (b: bool)
    ensures
        b == (elapsed_ticks(phase_start_tick, current_tick) >= SOLUTION_CALC_TICKS),
{
    current_tick.saturating_sub(phase_start_tick) >= SOLUTION_CALC_TICKS
}

/// Whether the player may still veto an engagement in this phase (before launch).
pub fn veto_permitted(phase: EngagementPhase) -> (b: bool)
    ensures
        b == (phase == EngagementPhase::SolutionCalc || phase == EngagementPhase::Ready),
{
    matches!(phase, EngagementPhase::SolutionCalc | EngagementPhase::Ready)
}

/// Engagement phase of an in-flight engagement after following its missile:
/// midcourse and terminal missiles move the engagement along, any other
/// missile phase leaves it as it is.
pub open spec fn synced_phase_spec(phase: EngagementPhase, missile: MissilePhase) -> EngagementPhase {
    match missile {
        MissilePhase::Midcourse => EngagementPhase::Midcourse,
        MissilePhase::Terminal => EngagementPhase::Terminal,
        _ => phase,
    }
}

/// Engagement phase that follows the interceptor's missile phase.
pub fn synced_engagement_phase(phase: EngagementPhase, missile: MissilePhase) -> (p:
    EngagementPhase)
    ensures
        p == synced_phase_spec(phase, missile),
{
    match missile {
        MissilePhase::Midcourse => EngagementPhase::Midcourse,
        MissilePhase::Terminal => EngagementPhase::Terminal,
        _ => phase,
    }
}

/// Whether a missile in midcourse may enter terminal guidance once it is in
/// terminal range: extended range missiles have an active seeker, the others
/// need an illuminator channel.
pub fn can_enter_terminal(weapon_type: WeaponType, has_illuminator: bool) -> (b: bool)
    ensures
        b == (weapon_type == WeaponType::ExtendedRange || has_illuminator),
{
    weapon_type == WeaponType::ExtendedRange || has_illuminator
}

/// A finished engagement stays finished while it waits in the table, and it
/// is dropped exactly when the assessment delay has run out.
pub proof fn lemma_finished_engagements_expire(phase: EngagementPhase, start: u64, now: u64)
    requires
        is_finished_phase(phase),
        now >= start + BDA_DELAY_TICKS,
    ensures
        !(!is_finished_phase(phase) || elapsed_ticks(start, now) < BDA_DELAY_TICKS),
{
}

// ---------------------------------------------------------------------------
// Engagement state machine
// ---------------------------------------------------------------------------

/// A new engagement for a planned one: solution calculation starts now on
/// the planned cell.
pub open spec fn new_engagement_spec(p: PlannedEngagement, now: u64) -> Engagement {
    Engagement {
        id: p.engagement_id,
        target_track_number: p.track_number,
        phase: EngagementPhase::SolutionCalc,
        weapon_type: p.weapon_type,
        assigned_cell: Some(p.cell),
        phase_start_tick: now,
        veto_remaining_ticks: 0,
        warned_3s: false,
        warned_1s: false,
        illuminator_channel: None,
        has_interceptor: false,
        result: None,
    }
}

/// The engagement created for a planned engagement.
pub fn new_engagement(p: &PlannedEngagement, current_tick: u64) -> (e: Engagement)
    ensures
        e == new_engagement_spec(*p, current_tick),
{
    Engagement {
        id: p.engagement_id,
        target_track_number: p.track_number,
        phase: EngagementPhase::SolutionCalc,
        weapon_type: p.weapon_type,
        assigned_cell: Some(p.cell),
        phase_start_tick: current_tick,
        veto_remaining_ticks: 0,
        warned_3s: false,
        warned_1s: false,
        illuminator_channel: None,
        has_interceptor: false,
        result: None,
    }
}

/// Track numbers of the engagements still in progress, in table order.
pub open spec fn engaged_tracks_spec(engs: Seq<Engagement>) -> Seq<u32>
    decreases engs.len(),
{
    if engs.len() == 0 {
        Seq::empty()
    } else {
        let rest = engaged_tracks_spec(engs.drop_last());
        if is_finished_phase(engs.last().phase) {
            rest
        } else {
            rest.push(engs.last().target_track_number)
        }
    }
}

/// Track numbers already engaged: those of the engagements in progress.
pub fn engaged_track_numbers(engs: &Vec<Engagement>) -> (tracks: Vec<u32>)
    ensures
        tracks@ == engaged_tracks_spec(engs@),
{
    let mut tracks: Vec<u32> = Vec::new();
    let mut i: usize = 0;
    while i < engs.len()
        invariant
            i <= engs@.len(),
            tracks@ == engaged_tracks_spec(engs@.take(i as int)),
        decreases engs@.len() - i,
    {
        assert(engs@.take(i + 1).drop_last() =~= engs@.take(i as int));
        if engagement_active(engs[i].phase) {
            tracks.push(engs[i].target_track_number);
        }
        i = i + 1;
    }
    assert(engs@.take(engs@.len() as int) =~= engs@);
    tracks
}

/// What one step of an engagement asks of the world.
#[derive(Debug, Clone, Copy, PartialEq, Eq, Structural)]
pub struct EngagementStep {
    /// The solution is complete and the veto clock started.
    pub veto_clock_started: bool,
    /// The 3-second veto warning is due.
    pub warning_3s: bool,
    /// The 1-second veto warning is due.
    pub warning_1s: bool,
    /// An interceptor is launched, with this track number.
    pub launched_track: Option<u32>,
    /// The target is gone: the engagement is aborted and its interceptor
    /// must be removed.
    pub interceptor_removed: bool,
}

/// A step that asks for nothing.
pub open spec fn quiet_step() -> EngagementStep {
    EngagementStep {
        veto_clock_started: false,
        warning_3s: false,
        warning_1s: false,
        launched_track: None,
        interceptor_removed: false,
    }
}

/// Veto clock ticks left after one more tick.
pub open spec fn clock_after_tick(remaining: u64) -> u64 {
    if remaining > 0 {
        (remaining - 1) as u64
    } else {
        0
    }
}

/// Whether the engagement launches on this step: it is ready and its veto
/// clock runs out.
pub open spec fn launches(e: Engagement) -> bool {
    e.phase == EngagementPhase::Ready && clock_after_tick(e.veto_remaining_ticks) == 0
}

/// One step of an engagement's state machine, with `track` the track number
/// an interceptor launched on this step receives.
pub open spec fn advance_spec(e: Engagement, o: FlightObservation, now: u64, track: u32) -> (
    Engagement,
    EngagementStep,
) {
    match e.phase {
        EngagementPhase::SolutionCalc => {
            if elapsed_ticks(e.phase_start_tick, now) >= SOLUTION_CALC_TICKS {
                (
                    Engagement {
                        phase: EngagementPhase::Ready,
                        phase_start_tick: now,
                        veto_remaining_ticks: VETO_CLOCK_TICKS,
                        ..e
                    },
                    EngagementStep { veto_clock_started: true, ..quiet_step() },
                )
            } else {
                (e, quiet_step())
            }
        },
        EngagementPhase::Ready => {
            let r = clock_after_tick(e.veto_remaining_ticks);
            let w3 = r <= VETO_WARNING_1_TICKS && !e.warned_3s;
            let w1 = r <= VETO_WARNING_2_TICKS && !e.warned_1s;
            let e1 = Engagement {
                veto_remaining_ticks: r,
                warned_3s: e.warned_3s || w3,
                warned_1s: e.warned_1s || w1,
                ..e
            };
            if r == 0 {
                (
                    Engagement {
                        phase: EngagementPhase::Launched,
                        phase_start_tick: now,
                        has_interceptor: true,
                        ..e1
                    },
                    EngagementStep {
                        warning_3s: w3,
                        warning_1s: w1,
                        launched_track: Some(track),
                        ..quiet_step()
                    },
                )
            } else {
                (e1, EngagementStep { warning_3s: w3, warning_1s: w1, ..quiet_step() })
            }
        },
        EngagementPhase::Launched | EngagementPhase::Midcourse | EngagementPhase::Terminal => {
            let synced = match o.missile_phase {
                Some(m) => if e.has_interceptor {
                    synced_phase_spec(e.phase, m)
                } else {
                    e.phase
                },
                None => e.phase,
            };
            let e1 = if synced != e.phase {
                Engagement { phase: synced, phase_start_tick: now, ..e }
            } else {
                e
            };
            if !o.target_present {
                (
                    Engagement {
                        phase: EngagementPhase::Aborted,
                        phase_start_tick: now,
                        has_interceptor: false,
                        ..e1
                    },
                    EngagementStep { interceptor_removed: e.has_interceptor, ..quiet_step() },
                )
            } else {
                (e1, quiet_step())
            }
        },
        _ => (e, quiet_step()),
    }
}

/// Launcher cells after a launch: the engagement's cell is expended.
pub open spec fn cells_after_launch(cells: Seq<CellStatus>, e: Engagement) -> Seq<CellStatus> {
    match e.assigned_cell {
        Some(idx) => set_cell(cells, idx as int, CellStatus::Expended),
        None => cells,
    }
}

/// Advance one engagement's state machine by one tick.
///
/// Solution calculation completes after its set time and starts the veto
/// clock; the veto clock counts down, warns at 3 s and 1 s, and on expiry
/// launches: the engagement's cell is expended, the interceptor gets the
/// next track number and the launch is scored. In flight, the engagement
/// follows its missile's phase and is aborted when its target is gone.
pub fn advance_engagement(
    eng: &mut Engagement,
    launcher: &mut LauncherSystem,
    score: &mut ScoreState,
    next_track_number: &mut u32,
    obs: FlightObservation,
    current_tick: u64,
) -> (step: EngagementStep)
    requires
        launches(*old(eng)) ==> old(score).interceptors_fired < u32::MAX,
        launches(*old(eng)) ==> *old(next_track_number) < u32::MAX,
    ensures
        (*final(eng), step) == advance_spec(*old(eng), obs, current_tick, *old(next_track_number)),
        launches(*old(eng)) ==> {
            &&& final(launcher).cells@ == cells_after_launch(old(launcher).cells@, *old(eng))
            &&& *final(score) == ScoreState {
                interceptors_fired: (old(score).interceptors_fired + 1) as u32,
                ..*old(score)
            }
            &&& *final(next_track_number) == *old(next_track_number) + 1
        },
        !launches(*old(eng)) ==> {
            &&& final(launcher).cells@ == old(launcher).cells@
            &&& *final(score) == *old(score)
            &&& *final(next_track_number) == *old(next_track_number)
        },
{
    let mut step = EngagementStep {
        veto_clock_started: false,
        warning_3s: false,
        warning_1s: false,
        launched_track: None,
        interceptor_removed: false,
    };
    match eng.phase {
        EngagementPhase::SolutionCalc => {
            if solution_complete(eng.phase_start_tick, current_tick) {
                eng.phase = EngagementPhase::Ready;
                eng.phase_start_tick = current_tick;
                eng.veto_remaining_ticks = VETO_CLOCK_TICKS;
                step.veto_clock_started = true;
            }
        },
        EngagementPhase::Ready => {
            eng.veto_remaining_ticks = if eng.veto_remaining_ticks > 0 {
                eng.veto_remaining_ticks - 1
            } else {
                0
            };
            if eng.veto_remaining_ticks <= VETO_WARNING_1_TICKS && !eng.warned_3s {
                step.warning_3s = true;
                eng.warned_3s = true;
            }
            if eng.veto_remaining_ticks <= VETO_WARNING_2_TICKS && !eng.warned_1s {
                step.warning_1s = true;
                eng.warned_1s = true;
            }
            if eng.veto_remaining_ticks == 0 {
                if let Some(cell_idx) = eng.assigned_cell {
                    expend_vls_cell(launcher, cell_idx);
                }
                let track_number = *next_track_number;
                *next_track_number = track_number + 1;
                eng.has_interceptor = true;
                eng.phase = EngagementPhase::Launched;
                eng.phase_start_tick = current_tick;
                score.interceptors_fired = score.interceptors_fired + 1;
                step.launched_track = Some(track_number);
            }
        },
        EngagementPhase::Launched | EngagementPhase::Midcourse | EngagementPhase::Terminal => {
            if eng.has_interceptor {
                if let Some(missile) = obs.missile_phase {
                    let synced = synced_engagement_phase(eng.phase, missile);
                    if synced != eng.phase {
                        eng.phase = synced;
                        eng.phase_start_tick = current_tick;
                    }
                }
            }
            if !obs.target_present {
                eng.phase = EngagementPhase::Aborted;
                eng.phase_start_tick = current_tick;
                step.interceptor_removed = eng.has_interceptor;
                eng.has_interceptor = false;
            }
        },
        _ => {},
    }
    step
}

/// The engagement after a veto: one still before launch is aborted now and
/// gives its cell back.
pub open spec fn veto_spec(e: Engagement, now: u64) -> Engagement {
    if e.phase == EngagementPhase::SolutionCalc || e.phase == EngagementPhase::Ready {
        Engagement {
            phase: EngagementPhase::Aborted,
            phase_start_tick: now,
            assigned_cell: None,
            ..e
        }
    } else {
        e
    }
}

/// Launcher cells after a veto: the vetoed engagement's cell is ready again.
pub open spec fn cells_after_veto(cells: Seq<CellStatus>, e: Engagement) -> Seq<CellStatus> {
    if e.phase == EngagementPhase::SolutionCalc || e.phase == EngagementPhase::Ready {
        match e.assigned_cell {
            Some(idx) => set_cell(cells, idx as int, CellStatus::Ready(e.weapon_type)),
            None => cells,
        }
    } else {
        cells
    }
}

/// Veto an engagement: before launch it is aborted and its VLS cell is
/// released; after launch the veto has no effect. Returns whether it took
/// effect.
pub fn veto_engagement(eng: &mut Engagement, launcher: &mut LauncherSystem, current_tick: u64) -> (b:
    bool)
    ensures
        b == veto_permitted_spec(old(eng).phase),
        *final(eng) == veto_spec(*old(eng), current_tick),
        final(launcher).cells@ == cells_after_veto(old(launcher).cells@, *old(eng)),
{
    if veto_permitted(eng.phase) {
        eng.phase = EngagementPhase::Aborted;
        eng.phase_start_tick = current_tick;
        if let Some(cell_idx) = eng.assigned_cell {
            release_vls_cell(launcher, cell_idx, eng.weapon_type);
        }
        eng.assigned_cell = None;
        true
    } else {
        false
    }
}

/// Whether the player may still veto in this phase.
pub open spec fn veto_permitted_spec(phase: EngagementPhase) -> bool {
    phase == EngagementPhase::SolutionCalc || phase == EngagementPhase::Ready
}

/// Confirm an engagement: a ready engagement's veto clock is run out, so it
/// launches on its next step. Other engagements are unchanged.
pub fn confirm_engagement(eng: &mut Engagement)
    ensures
        *final(eng) == (if old(eng).phase == EngagementPhase::Ready {
            Engagement { veto_remaining_ticks: 0, ..*old(eng) }
        } else {
            *old(eng)
        }),
{
    if eng.phase == EngagementPhase::Ready {
        eng.veto_remaining_ticks = 0;
    }
}

/// A confirmed engagement launches on its next step.
pub proof fn lemma_confirmed_engagement_launches(e: Engagement, o: FlightObservation, now: u64, track: u32)
    requires
        e.phase == EngagementPhase::Ready,
    ensures
        ({
            let (e2, step) = advance_spec(
                Engagement { veto_remaining_ticks: 0, ..e },
                o,
                now,
                track,
            );
            &&& e2.phase == EngagementPhase::Launched
            &&& e2.has_interceptor
            &&& step.launched_track == Some(track)
        }),
{
}

/// A finished engagement is left as it is by its step, which asks nothing.
pub proof fn lemma_finished_engagement_is_inert(e: Engagement, o: FlightObservation, now: u64, track: u32)
    requires
        is_finished_phase(e.phase),
    ensures
        advance_spec(e, o, now, track) == (e, quiet_step()),
{
}

/// An unconfirmed ready engagement launches exactly when its veto clock
/// reaches zero: a clock of `r > 1` ticks leaves `r - 1` ticks and no launch.
pub proof fn lemma_veto_clock_counts_down(e: Engagement, o: FlightObservation, now: u64, track: u32)
    requires
        e.phase == EngagementPhase::Ready,
        e.veto_remaining_ticks > 1,
    ensures
        ({
            let (e2, step) = advance_spec(e, o, now, track);
            &&& e2.phase == EngagementPhase::Ready
            &&& e2.veto_remaining_ticks == e.veto_remaining_ticks - 1
            &&& step.launched_track.is_none()
        }),
{
}

/// Vetoing an engagement whose cell was assigned from a ready round of its
/// weapon type gives the launcher back that ready round.
pub proof fn lemma_veto_returns_round(
    cells: Seq<CellStatus>,
    e: Engagement,
    idx: int,
)
    requires
        veto_permitted_spec(e.phase),
        e.assigned_cell == Some(idx as usize),
        0 <= idx < cells.len(),
        idx <= usize::MAX,
        cells[idx] == CellStatus::Ready(e.weapon_type),
    ensures
        cells_after_veto(set_cell(cells, idx, CellStatus::Assigned(e.weapon_type)), e) == cells,
{
    lemma_assign_then_release_restores(cells, idx, e.weapon_type);
}

/// The engagement after `n` steps at tick `now` with the same observation.
pub open spec fn advance_repeatedly(
    e: Engagement,
    o: FlightObservation,
    now: u64,
    track: u32,
    n: nat,
) -> Engagement
    decreases n,
{
    if n == 0 {
        e
    } else {
        advance_spec(advance_repeatedly(e, o, now, track, (n - 1) as nat), o, now, track).0
    }
}

/// An unconfirmed ready engagement with `r` ticks on its veto clock stays
/// ready, its clock counting down one tick per step, for `r - 1` steps, and
/// launches on step `r`.
pub proof fn lemma_veto_clock_runs_out(e: Engagement, o: FlightObservation, now: u64, track: u32)
    requires
        e.phase == EngagementPhase::Ready,
        e.veto_remaining_ticks >= 1,
    ensures
        forall|n: nat|
            n < e.veto_remaining_ticks ==> {
                let en = #[trigger] advance_repeatedly(e, o, now, track, n);
                &&& en.phase == EngagementPhase::Ready
                &&& en.veto_remaining_ticks == e.veto_remaining_ticks - n
            },
        advance_repeatedly(e, o, now, track, e.veto_remaining_ticks as nat).phase
            == EngagementPhase::Launched,
{
    assert forall|n: nat| n < e.veto_remaining_ticks implies {
        let en = #[trigger] advance_repeatedly(e, o, now, track, n);
        &&& en.phase == EngagementPhase::Ready
        &&& en.veto_remaining_ticks == e.veto_remaining_ticks - n
    } by {
        lemma_countdown_prefix(e, o, now, track, n);
    }
    let r = e.veto_remaining_ticks as nat;
    lemma_countdown_prefix(e, o, now, track, (r - 1) as nat);
}

proof fn lemma_countdown_prefix(e: Engagement, o: FlightObservation, now: u64, track: u32, n: nat)
    requires
        e.phase == EngagementPhase::Ready,
        n < e.veto_remaining_ticks,
    ensures
        advance_repeatedly(e, o, now, track, n).phase == EngagementPhase::Ready,
        advance_repeatedly(e, o, now, track, n).veto_remaining_ticks == e.veto_remaining_ticks - n,
    decreases n,
{
    if n > 0 {
        lemma_countdown_prefix(e, o, now, track, (n - 1) as nat);
    }
}


/// In flight, an engagement whose interceptor is observed in terminal
/// guidance is in the Terminal phase after the step (its phase clock
/// restarting now if it just got there), and one whose interceptor is observed
/// in midcourse is in the Midcourse phase; while its target exists, it is
/// neither aborted nor completed by this step.
pub proof fn lemma_flight_phase_follows_missile(
    e: Engagement,
    o: FlightObservation,
    now: u64,
    track: u32,
)
    requires
        e.phase == EngagementPhase::Launched || e.phase == EngagementPhase::Midcourse || e.phase
            == EngagementPhase::Terminal,
        e.has_interceptor,
        o.target_present,
    ensures
        o.missile_phase == Some(MissilePhase::Terminal) ==> {
            &&& advance_spec(e, o, now, track).0.phase == EngagementPhase::Terminal
            &&& e.phase != EngagementPhase::Terminal ==> advance_spec(e, o, now, track).0.phase_start_tick
                == now
        },
        o.missile_phase == Some(MissilePhase::Midcourse) ==> {
            &&& advance_spec(e, o, now, track).0.phase == EngagementPhase::Midcourse
            &&& e.phase != EngagementPhase::Midcourse ==> advance_spec(e, o, now, track).0.phase_start_tick
                == now
        },
        advance_spec(e, o, now, track).0.has_interceptor,
        advance_spec(e, o, now, track).1.launched_track.is_none(),
{
}

/// A doctrine lets the system engage exactly the classifications it names:
/// AUTO-COMPOSITE hostiles and suspects, AUTO-SPECIAL hostiles only, MANUAL
/// nothing.
pub proof fn lemma_doctrine_permits_exactly(doctrine: DoctrineMode, c: Classification)
    ensures
        doctrine_permits_spec(doctrine, c) <==> (c == Classification::Hostile && doctrine
            != DoctrineMode::Manual) || (c == Classification::Suspect && doctrine
            == DoctrineMode::AutoComposite),
{
}

/// Every engagement that planning creates targets a firm track whose
/// classification the doctrine names: a hostile, or under AUTO-COMPOSITE a
/// suspect; MANUAL plans nothing, and no unknown, pending, friendly or
/// neutral track is ever engaged on the system's own decision.
pub proof fn lemma_planned_targets_are_hostile_or_suspect(
    cells0: Seq<CellStatus>,
    count0: int,
    next0: int,
    cands: Seq<EngagementCandidate>,
    engaged: Seq<u32>,
    doctrine: DoctrineMode,
)
    requires
        cells0.len() <= usize::MAX,
        cands.len() <= usize::MAX,
        0 <= count0,
        0 <= next0,
        plan_fold(plan_start(cells0, count0, next0), cands, engaged, doctrine).next_id <= u32::MAX,
    ensures
        ({
            let planned = plan_fold(plan_start(cells0, count0, next0), cands, engaged, doctrine).planned;
            &&& doctrine == DoctrineMode::Manual ==> planned.len() == 0
            &&& forall|k: int|
                0 <= k < planned.len() ==> {
                    let c = cands[#[trigger] planned[k].candidate_index as int];
                    &&& c.firm
                    &&& !engaged.contains(c.track_number)
                    &&& (c.classification == Classification::Hostile || (c.classification
                        == Classification::Suspect && doctrine == DoctrineMode::AutoComposite))
                }
        }),
{
    lemma_plan_guarantees(cells0, count0, next0, cands, engaged, doctrine);
    let planned = plan_fold(plan_start(cells0, count0, next0), cands, engaged, doctrine).planned;
    if doctrine == DoctrineMode::Manual && planned.len() > 0 {
        assert(qualifies(cands[planned[0].candidate_index as int], engaged, doctrine));
    }
}

} // verus!
