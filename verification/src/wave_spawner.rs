//! Wave schedules: which threats spawn at which tick.
//!
//! A wave may fix the spawn bearing (radians) and range (meters) of its
//! threats; both are carried as the IEEE-754 bit patterns of their `f64`
//! values, which the spawner turns into positions.

use vstd::prelude::*;

use crate::enums::ThreatArchetype;

verus! {

/// A single wave definition.
#[derive(Debug, Clone)]
pub struct WaveEntry {
    /// Tick at which this wave spawns.
    pub spawn_at_tick: u64,
    /// Threats to spawn: (archetype, count).
    pub threats: Vec<(ThreatArchetype, u32)>,
    /// Whether this wave has already been spawned.
    pub spawned: bool,
    /// Fixed spawn bearing (radians, `f64` bits). `None` = random.
    pub spawn_bearing_bits: Option<u64>,
    /// Spawn range override (meters, `f64` bits). `None` = random 150-180 km.
    pub spawn_range_bits: Option<u64>,
}

/// Model of a wave.
pub struct WaveEntryView {
    pub spawn_at_tick: u64,
    pub threats: Seq<(ThreatArchetype, u32)>,
    pub spawned: bool,
    pub spawn_bearing_bits: Option<u64>,
    pub spawn_range_bits: Option<u64>,
}

impl View for WaveEntry {
    type V = WaveEntryView;

    open spec fn view(&self) -> WaveEntryView {
        WaveEntryView {
            spawn_at_tick: self.spawn_at_tick,
            threats: self.threats@,
            spawned: self.spawned,
            spawn_bearing_bits: self.spawn_bearing_bits,
            spawn_range_bits: self.spawn_range_bits,
        }
    }
}

/// An unspawned wave.
pub open spec fn wave_spec(
    tick: u64,
    threats: Seq<(ThreatArchetype, u32)>,
    bearing: Option<u64>,
    range: Option<u64>,
) -> WaveEntryView {
    WaveEntryView {
        spawn_at_tick: tick,
        threats,
        spawned: false,
        spawn_bearing_bits: bearing,
        spawn_range_bits: range,
    }
}

impl WaveEntry {
    /// Create a wave entry with default (random) bearing and range.
    pub fn new(spawn_at_tick: u64, threats: Vec<(ThreatArchetype, u32)>) -> (w: WaveEntry)
        ensures
            w@ == wave_spec(spawn_at_tick, threats@, None, None),
    {
        WaveEntry {
            spawn_at_tick,
            threats,
            spawned: false,
            spawn_bearing_bits: None,
            spawn_range_bits: None,
        }
    }

    /// Create a wave entry with a fixed bearing (`f64` bits of radians).
    pub fn with_bearing(
        spawn_at_tick: u64,
        threats: Vec<(ThreatArchetype, u32)>,
        bearing_bits: u64,
    ) -> (w: WaveEntry)
        ensures
            w@ == wave_spec(spawn_at_tick, threats@, Some(bearing_bits), None),
    {
        WaveEntry {
            spawn_at_tick,
            threats,
            spawned: false,
            spawn_bearing_bits: Some(bearing_bits),
            spawn_range_bits: None,
        }
    }

    /// Create a wave entry with a fixed bearing and range (`f64` bits).
    pub fn with_bearing_and_range(
        spawn_at_tick: u64,
        threats: Vec<(ThreatArchetype, u32)>,
        bearing_bits: u64,
        range_bits: u64,
    ) -> (w: WaveEntry)
        ensures
            w@ == wave_spec(spawn_at_tick, threats@, Some(bearing_bits), Some(range_bits)),
    {
        WaveEntry {
            spawn_at_tick,
            threats,
            spawned: false,
            spawn_bearing_bits: Some(bearing_bits),
            spawn_range_bits: Some(range_bits),
        }
    }
}

/// The complete wave schedule for a mission.
#[derive(Debug, Clone, Default)]
pub struct WaveSchedule {
    pub waves: Vec<WaveEntry>,
}

impl View for WaveSchedule {
    type V = Seq<WaveEntryView>;

    open spec fn view(&self) -> Seq<WaveEntryView> {
        self.waves@.map_values(|w: WaveEntry| w@)
    }
}

/// Number of threats in one wave's threat list.
pub open spec fn wave_threat_count(ts: Seq<(ThreatArchetype, u32)>) -> nat
    decreases ts.len(),
{
    if ts.len() == 0 {
        0
    } else {
        wave_threat_count(ts.drop_last()) + ts.last().1 as nat
    }
}

/// Number of threats across all waves.
pub open spec fn total_threat_count(waves: Seq<WaveEntryView>) -> nat
    decreases waves.len(),
{
    if waves.len() == 0 {
        0
    } else {
        total_threat_count(waves.drop_last()) + wave_threat_count(waves.last().threats)
    }
}

/// The waves after those due at `tick` are taken: each wave whose tick has
/// come is marked spawned.
pub open spec fn after_take(ws: Seq<WaveEntryView>, tick: u64) -> Seq<WaveEntryView> {
    ws.map_values(
        |w: WaveEntryView| WaveEntryView { spawned: w.spawned || tick >= w.spawn_at_tick, ..w },
    )
}

/// The wave is due at `tick` and has not spawned yet.
pub open spec fn wave_due(w: WaveEntryView, tick: u64) -> bool {
    !w.spawned && tick >= w.spawn_at_tick
}

impl WaveSchedule {
    /// Default 3-wave mission with escalating difficulty.
    pub fn default_mission() -> (s: WaveSchedule)
        ensures
            s@ == seq![
                wave_spec(0, seq![(ThreatArchetype::SeaSkimmerMk1, 3u32)], None, None),
                wave_spec(
                    300,
                    seq![
                        (ThreatArchetype::SeaSkimmerMk1, 2u32),
                        (ThreatArchetype::SupersonicCruiser, 1u32),
                    ],
                    None,
                    None,
                ),
                wave_spec(
                    600,
                    seq![
                        (ThreatArchetype::SeaSkimmerMk2, 2u32),
                        (ThreatArchetype::SupersonicCruiser, 1u32),
                        (ThreatArchetype::SubsonicDrone, 1u32),
                    ],
                    None,
                    None,
                ),
            ],
    {
        let t0 = vec![(ThreatArchetype::SeaSkimmerMk1, 3u32)];
        let t1 = vec![(ThreatArchetype::SeaSkimmerMk1, 2u32), (ThreatArchetype::SupersonicCruiser, 1u32)];
        let t2 = vec![
            (ThreatArchetype::SeaSkimmerMk2, 2u32),
            (ThreatArchetype::SupersonicCruiser, 1u32),
            (ThreatArchetype::SubsonicDrone, 1u32),
        ];
        assert(t0@ =~= seq![(ThreatArchetype::SeaSkimmerMk1, 3u32)]);
        assert(t1@ =~= seq![(ThreatArchetype::SeaSkimmerMk1, 2u32), (ThreatArchetype::SupersonicCruiser, 1u32)]);
        assert(t2@ =~= seq![
            (ThreatArchetype::SeaSkimmerMk2, 2u32),
            (ThreatArchetype::SupersonicCruiser, 1u32),
            (ThreatArchetype::SubsonicDrone, 1u32),
        ]);
        let mut waves: Vec<WaveEntry> = Vec::new();
        waves.push(WaveEntry::new(0, t0));
        waves.push(WaveEntry::new(300, t1));
        waves.push(WaveEntry::new(600, t2));
        let s = WaveSchedule { waves };
        assert(s@ =~= seq![
            wave_spec(0, seq![(ThreatArchetype::SeaSkimmerMk1, 3u32)], None, None),
            wave_spec(
                300,
                seq![
                    (ThreatArchetype::SeaSkimmerMk1, 2u32),
                    (ThreatArchetype::SupersonicCruiser, 1u32),
                ],
                None,
                None,
            ),
            wave_spec(
                600,
                seq![
                    (ThreatArchetype::SeaSkimmerMk2, 2u32),
                    (ThreatArchetype::SupersonicCruiser, 1u32),
                    (ThreatArchetype::SubsonicDrone, 1u32),
                ],
                None,
                None,
            ),
        ]);
        s
    }

    /// Total number of threats across all waves.
    pub fn total_threats(&self) -> (n: u32)
        requires
            total_threat_count(self@) <= u32::MAX,
        ensures
            n == total_threat_count(self@),
    {
        let mut total: u32 = 0;
        let mut i: usize = 0;
        let nw = self.waves.len();
        while i < nw
            invariant
                i <= nw,
                nw == self.waves@.len(),
                total_threat_count(self@) <= u32::MAX,
                total == total_threat_count(self@.take(i as int)),
            decreases nw - i,
        {
            let wave = &self.waves[i];
            let ghost before = total;
            proof {
                assert(self@.take(i + 1).drop_last() =~= self@.take(i as int));
                lemma_total_prefix_bound(self@, i as int + 1);
            }
            let mut j: usize = 0;
            let nt = wave.threats.len();
            while j < nt
                invariant
                    j <= nt,
                    nt == wave.threats@.len(),
                    wave.threats@ == self@[i as int].threats,
                    before + wave_threat_count(wave.threats@) <= u32::MAX,
                    total == before + wave_threat_count(wave.threats@.take(j as int)),
                decreases nt - j,
            {
                proof {
                    assert(wave.threats@.take(j + 1).drop_last() =~= wave.threats@.take(j as int));
                    lemma_wave_prefix_bound(wave.threats@, j as int + 1);
                }
                total = total + wave.threats[j].1;
                j = j + 1;
            }
            assert(wave.threats@.take(nt as int) =~= wave.threats@);
            i = i + 1;
        }
        assert(self@.take(nw as int) =~= self@);
        total
    }

    /// Whether all waves have been spawned.
    pub fn all_spawned(&self) -> (b: bool)
        ensures
            b == forall|i: int| 0 <= i < self@.len() ==> #[trigger] self@[i].spawned,
    {
        let n = self.waves.len();
        let mut i: usize = 0;
        while i < n
            invariant
                i <= n,
                n == self.waves@.len(),
                forall|j: int| 0 <= j < i ==> #[trigger] self@[j].spawned,
            decreases n - i,
        {
            if !self.waves[i].spawned {
                assert(!self@[i as int].spawned);
                return false;
            }
            i = i + 1;
        }
        true
    }

    /// Mark every wave that is due at `current_tick` as spawned, and return
    /// the positions of those waves, in schedule order. The caller spawns
    /// their threats.
    pub fn take_due_waves(&mut self, current_tick: u64) -> (due: Vec<usize>)
        ensures
            final(self)@ == after_take(old(self)@, current_tick),
            final(self)@.len() == old(self)@.len(),
            forall|i: int|
                0 <= i < old(self)@.len() ==> {
                    let o = old(self)@[i];
                    let n = #[trigger] final(self)@[i];
                    &&& n.spawned == (o.spawned || current_tick >= o.spawn_at_tick)
                    &&& n.spawn_at_tick == o.spawn_at_tick
                    &&& n.threats == o.threats
                    &&& n.spawn_bearing_bits == o.spawn_bearing_bits
                    &&& n.spawn_range_bits == o.spawn_range_bits
                },
            forall|k: int|
                0 <= k < due@.len() ==> 0 <= #[trigger] due@[k] < old(self)@.len() && wave_due(
                    old(self)@[due@[k] as int],
                    current_tick,
                ),
            forall|k1: int, k2: int|
                0 <= k1 < k2 < due@.len() ==> #[trigger] due@[k1] < #[trigger] due@[k2],
            forall|i: int|
                0 <= i < old(self)@.len() && wave_due(old(self)@[i], current_tick) ==> exists|
                    k: int,
                | 0 <= k < due@.len() && #[trigger] due@[k] == i,
    {
        let ghost old_view = self@;
        let n = self.waves.len();
        let mut due: Vec<usize> = Vec::new();
        let mut i: usize = 0;
        while i < n
            invariant
                i <= n,
                n == self.waves@.len(),
                old_view.len() == n,
                self@.len() == n,
                forall|j: int|
                    0 <= j < n ==> {
                        let o = old_view[j];
                        let w = #[trigger] self@[j];
                        &&& w.spawned == if j < i {
                            o.spawned || current_tick >= o.spawn_at_tick
                        } else {
                            o.spawned
                        }
                        &&& w.spawn_at_tick == o.spawn_at_tick
                        &&& w.threats == o.threats
                        &&& w.spawn_bearing_bits == o.spawn_bearing_bits
                        &&& w.spawn_range_bits == o.spawn_range_bits
                    },
                forall|k: int|
                    0 <= k < due@.len() ==> 0 <= #[trigger] due@[k] < i && wave_due(
                        old_view[due@[k] as int],
                        current_tick,
                    ),
                forall|k1: int, k2: int|
                    0 <= k1 < k2 < due@.len() ==> #[trigger] due@[k1] < #[trigger] due@[k2],
                forall|j: int|
                    0 <= j < i && wave_due(old_view[j], current_tick) ==> exists|k: int|
                        0 <= k < due@.len() && #[trigger] due@[k] == j,
            decreases n - i,
        {
            assert(self@[i as int] == self.waves@[i as int]@);
            if !self.waves[i].spawned && current_tick >= self.waves[i].spawn_at_tick {
                let ghost before = self@;
                let ghost old_due = due@;
                let mut wave = self.waves[i].clone_entry();
                wave.spawned = true;
                self.waves.set(i, wave);
                due.push(i);
                proof {
                    assert forall|j: int| 0 <= j < n && j != i implies #[trigger] self@[j]
                        == before[j] by {}
                    assert(due@[due@.len() - 1] == i);
                    assert forall|k: int| 0 <= k < old_due.len() implies due@[k] == old_due[k] by {}
                    assert forall|j: int|
                        0 <= j < i + 1 && wave_due(old_view[j], current_tick) implies exists|k: int|
                        0 <= k < due@.len() && #[trigger] due@[k] == j by {
                        if j == i {
                            assert(due@[due@.len() - 1] == j);
                        } else {
                            let k = choose|k: int| 0 <= k < old_due.len() && #[trigger] old_due[k] == j;
                            assert(due@[k] == old_due[k]);
                        }
                    }
                }
            }
            i = i + 1;
        }
        assert(self@ =~= after_take(old_view, current_tick));
        due
    }
}

impl WaveEntry {
    /// A copy of this wave.
    pub fn clone_entry(&self) -> (c: WaveEntry)
        ensures
            c@ == self@,
    {
        let mut threats: Vec<(ThreatArchetype, u32)> = Vec::new();
        let n = self.threats.len();
        let mut j: usize = 0;
        while j < n
            invariant
                j <= n,
                n == self.threats@.len(),
                threats@ =~= self.threats@.take(j as int),
            decreases n - j,
        {
            threats.push(self.threats[j]);
            j = j + 1;
        }
        assert(self.threats@.take(n as int) =~= self.threats@);
        WaveEntry {
            spawn_at_tick: self.spawn_at_tick,
            threats,
            spawned: self.spawned,
            spawn_bearing_bits: self.spawn_bearing_bits,
            spawn_range_bits: self.spawn_range_bits,
        }
    }
}

proof fn lemma_wave_prefix_bound(ts: Seq<(ThreatArchetype, u32)>, k: int)
    requires
        0 <= k <= ts.len(),
    ensures
        wave_threat_count(ts.take(k)) <= wave_threat_count(ts),
    decreases ts.len() - k,
{
    if k < ts.len() {
        assert(ts.take(k + 1).drop_last() =~= ts.take(k));
        lemma_wave_prefix_bound(ts, k + 1);
    } else {
        assert(ts.take(k) =~= ts);
    }
}

proof fn lemma_total_prefix_bound(ws: Seq<WaveEntryView>, k: int)
    requires
        0 <= k <= ws.len(),
    ensures
        total_threat_count(ws.take(k)) <= total_threat_count(ws),
    decreases ws.len() - k,
{
    if k < ws.len() {
        assert(ws.take(k + 1).drop_last() =~= ws.take(k));
        lemma_total_prefix_bound(ws, k + 1);
    } else {
        assert(ws.take(k) =~= ws);
    }
}

/// Each wave spawns once: after the due waves are taken at a tick, none is
/// due at that tick any more, a spawned wave stays spawned, a wave taken at
/// one tick is due at no tick after, and taking again at the same tick
/// changes nothing.
pub proof fn lemma_waves_spawn_once(ws: Seq<WaveEntryView>, t1: u64, t2: u64)
    ensures
        after_take(ws, t1).len() == ws.len(),
        forall|i: int| 0 <= i < ws.len() ==> !wave_due(#[trigger] after_take(ws, t1)[i], t1),
        forall|i: int|
            0 <= i < ws.len() && ws[i].spawned ==> (#[trigger] after_take(ws, t1)[i]).spawned,
        forall|i: int|
            0 <= i < ws.len() && wave_due(ws[i], t1) ==> !wave_due(
                #[trigger] after_take(ws, t1)[i],
                t2,
            ),
        after_take(after_take(ws, t1), t1) == after_take(ws, t1),
{
    assert(after_take(after_take(ws, t1), t1) =~= after_take(ws, t1));
}

} // verus!
