//! Initial mission equipment.

use vstd::prelude::*;

use crate::constants::VLS_CELL_COUNT;
use crate::enums::{CellStatus, WeaponType};

verus! {

/// The default loadout: 32 Standard, then 16 Extended Range, then 16 Point
/// Defense rounds, all ready.
pub open spec fn default_loadout_spec() -> Seq<CellStatus> {
    Seq::new(
        VLS_CELL_COUNT as nat,
        |i: int|
            if i < 32 {
                CellStatus::Ready(WeaponType::Standard)
            } else if i < 48 {
                CellStatus::Ready(WeaponType::ExtendedRange)
            } else {
                CellStatus::Ready(WeaponType::PointDefense)
            },
    )
}

/// Build the default VLS loadout: 64 cells.
/// 32 Standard, 16 Extended Range, 16 Point Defense.
pub fn build_default_vls_loadout() -> (cells: Vec<CellStatus>)
    ensures
        cells@ == default_loadout_spec(),
{
    let mut cells: Vec<CellStatus> = Vec::new();
    let mut i: usize = 0;
    while i < VLS_CELL_COUNT
        invariant
            i <= VLS_CELL_COUNT,
            cells@ =~= default_loadout_spec().take(i as int),
        decreases VLS_CELL_COUNT - i,
    {
        let status = if i < 32 {
            CellStatus::Ready(WeaponType::Standard)
        } else if i < 48 {
            CellStatus::Ready(WeaponType::ExtendedRange)
        } else {
            CellStatus::Ready(WeaponType::PointDefense)
        };
        cells.push(status);
        i = i + 1;
    }
    cells
}

} // verus!
