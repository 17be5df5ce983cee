//! Illuminator scheduler: channel assignment, release and time-sharing.
//!
//! A few illuminator channels provide terminal guidance for semi-active
//! missiles. When more engagements need illumination than channels are
//! available, the channels are time-shared: each one dwells on an engagement
//! for a share of the full dwell and then moves on to the next waiting one.
//!
//! The engagement table is a sequence of engagements with distinct ids; the
//! waiting queue holds engagement ids, most urgent first.

use vstd::prelude::*;

use crate::components::Illuminator;
use crate::constants::{ILLUMINATION_REQUEST_RANGE_M, ILLUMINATOR_DWELL_TICKS};
use crate::engagement::{Engagement, FlightObservation};
use crate::enums::{EngagementPhase, IlluminatorStatus, MissilePhase, WeaponType};
use crate::fire_control::{engagement_active, is_finished_phase};

verus! {

// ---------------------------------------------------------------------------
// Lookups
// ---------------------------------------------------------------------------

/// Whether the table holds an engagement with this id.
pub open spec fn has_engagement(engs: Seq<Engagement>, id: u32) -> bool {
    exists|i: int| 0 <= i < engs.len() && (#[trigger] engs[i]).id == id
}

/// Engagement ids in the table are distinct (the table is keyed by id).
pub open spec fn ids_distinct(engs: Seq<Engagement>) -> bool {
    forall|i: int, j: int|
        0 <= i < engs.len() && 0 <= j < engs.len() && i != j ==> (#[trigger] engs[i]).id != (
        #[trigger] engs[j]).id
}

/// Two tables with the same ids, position by position.
pub open spec fn same_ids(a: Seq<Engagement>, b: Seq<Engagement>) -> bool {
    a.len() == b.len() && forall|i: int| 0 <= i < a.len() ==> (#[trigger] a[i]).id == b[i].id
}

proof fn lemma_same_ids_has(a: Seq<Engagement>, b: Seq<Engagement>, id: u32)
    requires
        same_ids(a, b),
    ensures
        has_engagement(a, id) == has_engagement(b, id),
{
    if has_engagement(a, id) {
        let i = choose|i: int| 0 <= i < a.len() && (#[trigger] a[i]).id == id;
        assert(b[i].id == id);
    }
    if has_engagement(b, id) {
        let i = choose|i: int| 0 <= i < b.len() && (#[trigger] b[i]).id == id;
        assert(a[i].id == id);
    }
}

/// Index of the first engagement with this id, if any.
pub fn find_engagement(engs: &Vec<Engagement>, id: u32) -> (r: Option<usize>)
    ensures
        match r {
            Some(i) => i < engs@.len() && engs@[i as int].id == id && forall|k: int|
                0 <= k < i ==> (#[trigger] engs@[k]).id != id,
            None => !has_engagement(engs@, id),
        },
{
    let mut i: usize = 0;
    while i < engs.len()
        invariant
            i <= engs@.len(),
            forall|k: int| 0 <= k < i ==> (#[trigger] engs@[k]).id != id,
        decreases engs@.len() - i,
    {
        if engs[i].id == id {
            return Some(i);
        }
        i = i + 1;
    }
    None
}

/// Whether a list of channel ids holds `c`.
fn list_contains(list: &Vec<u8>, c: u8) -> (b: bool)
    ensures
        b == list@.contains(c),
{
    let mut i: usize = 0;
    while i < list.len()
        invariant
            i <= list@.len(),
            forall|k: int| 0 <= k < i ==> list@[k] != c,
        decreases list@.len() - i,
    {
        if list[i] == c {
            assert(list@[i as int] == c);
            return true;
        }
        i = i + 1;
    }
    false
}

// ---------------------------------------------------------------------------
// Step 1: release
// ---------------------------------------------------------------------------

/// An engagement gives its channel back when it is complete, aborted, or
/// has lost its interceptor.
pub open spec fn should_release(e: Engagement) -> bool {
    is_finished_phase(e.phase) || !e.has_interceptor
}

/// The engagement after the release step.
pub open spec fn released_engagement(e: Engagement) -> Engagement {
    if e.illuminator_channel.is_some() && should_release(e) {
        Engagement { illuminator_channel: None, ..e }
    } else {
        e
    }
}

/// Whether a channel id is released: an engagement that gives its channel
/// back holds it, or a channel with that id serves an engagement that is no
/// longer in the table.
pub open spec fn releases_channel(engs: Seq<Engagement>, chans: Seq<Illuminator>, c: u8) -> bool {
    (exists|i: int|
        0 <= i < engs.len() && (#[trigger] engs[i]).illuminator_channel == Some(c)
            && should_release(engs[i])) || (exists|j: int|
        0 <= j < chans.len() && (#[trigger] chans[j]).channel_id == c && match chans[j].assigned_engagement {
            Some(e) => !has_engagement(engs, e),
            None => false,
        })
}

/// A channel returned to idle.
pub open spec fn idle_channel(ch: Illuminator) -> Illuminator {
    Illuminator {
        status: IlluminatorStatus::Idle,
        assigned_engagement: None,
        dwell_remaining_ticks: 0,
        ..ch
    }
}

/// The engagement table after the release step.
pub open spec fn release_engagements_spec(engs: Seq<Engagement>) -> Seq<Engagement> {
    engs.map_values(|e: Engagement| released_engagement(e))
}

/// The channels after the release step.
pub open spec fn release_channels_spec(engs: Seq<Engagement>, chans: Seq<Illuminator>) -> Seq<
    Illuminator,
> {
    chans.map_values(
        |ch: Illuminator|
            if releases_channel(engs, chans, ch.channel_id) {
                idle_channel(ch)
            } else {
                ch
            },
    )
}

/// Release illuminators from engagements that are complete, aborted, or no
/// longer have an interceptor, and from engagements that no longer exist.
pub fn release_completed(engs: &mut Vec<Engagement>, chans: &mut Vec<Illuminator>)
    ensures
        final(engs)@ == release_engagements_spec(old(engs)@),
        final(chans)@ == release_channels_spec(old(engs)@, old(chans)@),
{
    let ghost engs0 = engs@;
    let ghost chans0 = chans@;
    let mut to_release: Vec<u8> = Vec::new();
    let mut i: usize = 0;
    while i < engs.len()
        invariant
            engs@.len() == engs0.len(),
            i <= engs0.len(),
            forall|k: int| 0 <= k < i ==> engs@[k] == released_engagement(#[trigger] engs0[k]),
            forall|k: int| i <= k < engs0.len() ==> engs@[k] == engs0[k],
            forall|c: u8|
                to_release@.contains(c) <==> exists|k: int|
                    0 <= k < i && (#[trigger] engs0[k]).illuminator_channel == Some(c)
                        && should_release(engs0[k]),
        decreases engs0.len() - i,
    {
        let e = engs[i];
        if e.illuminator_channel.is_some() && (!engagement_active(e.phase) || !e.has_interceptor) {
            let c = e.illuminator_channel.unwrap();
            let ghost before = to_release@;
            to_release.push(c);
            proof {
                assert forall|c2: u8|
                    to_release@.contains(c2) <==> exists|k: int|
                        0 <= k < i + 1 && (#[trigger] engs0[k]).illuminator_channel == Some(c2)
                            && should_release(engs0[k]) by {
                    if to_release@.contains(c2) {
                        let m = choose|m: int| 0 <= m < to_release@.len() && to_release@[m] == c2;
                        if m < before.len() {
                            assert(before[m] == c2);
                            assert(before.contains(c2));
                        } else {
                            assert(engs0[i as int].illuminator_channel == Some(c2));
                        }
                    }
                    if exists|k: int|
                        0 <= k < i + 1 && (#[trigger] engs0[k]).illuminator_channel == Some(c2)
                            && should_release(engs0[k]) {
                        let k = choose|k: int|
                            0 <= k < i + 1 && (#[trigger] engs0[k]).illuminator_channel == Some(c2)
                                && should_release(engs0[k]);
                        if k < i {
                            assert(before.contains(c2));
                            let m = choose|m: int| 0 <= m < before.len() && before[m] == c2;
                            assert(to_release@[m] == c2);
                        } else {
                            assert(to_release@[before.len() as int] == c2);
                        }
                    }
                }
            }
            let mut e2 = e;
            e2.illuminator_channel = None;
            engs.set(i, e2);
        } else {
            proof {
                assert forall|c2: u8|
                    to_release@.contains(c2) <==> exists|k: int|
                        0 <= k < i + 1 && (#[trigger] engs0[k]).illuminator_channel == Some(c2)
                            && should_release(engs0[k]) by {
                    if exists|k: int|
                        0 <= k < i + 1 && (#[trigger] engs0[k]).illuminator_channel == Some(c2)
                            && should_release(engs0[k]) {
                        let k = choose|k: int|
                            0 <= k < i + 1 && (#[trigger] engs0[k]).illuminator_channel == Some(c2)
                                && should_release(engs0[k]);
                        assert(k < i);
                    }
                }
            }
        }
        i = i + 1;
    }
    assert(engs@ =~= release_engagements_spec(engs0));
    proof {
        assert forall|k: int| 0 <= k < engs@.len() implies (#[trigger] engs@[k]).id == engs0[k].id by {
        }
    }
    // Orphaned channels: assigned to engagements that no longer exist.
    let mut j: usize = 0;
    while j < chans.len()
        invariant
            chans@ == chans0,
            same_ids(engs@, engs0),
            j <= chans0.len(),
            forall|c: u8|
                to_release@.contains(c) <==> ((exists|k: int|
                    0 <= k < engs0.len() && (#[trigger] engs0[k]).illuminator_channel == Some(c)
                        && should_release(engs0[k])) || (exists|m: int|
                    0 <= m < j && (#[trigger] chans0[m]).channel_id == c && match chans0[m].assigned_engagement {
                        Some(e) => !has_engagement(engs0, e),
                        None => false,
                    })),
        decreases chans0.len() - j,
    {
        let ch = chans[j];
        let orphan = match ch.assigned_engagement {
            Some(e) => {
                let found = find_engagement(engs, e);
                proof {
                    lemma_same_ids_has(engs@, engs0, e);
                }
                found.is_none()
            },
            None => false,
        };
        let ghost before = to_release@;
        if orphan && !list_contains(&to_release, ch.channel_id) {
            to_release.push(ch.channel_id);
        }
        proof {
            assert forall|c2: u8|
                to_release@.contains(c2) <==> ((exists|k: int|
                    0 <= k < engs0.len() && (#[trigger] engs0[k]).illuminator_channel == Some(c2)
                        && should_release(engs0[k])) || (exists|m: int|
                    0 <= m < j + 1 && (#[trigger] chans0[m]).channel_id == c2 && match chans0[m].assigned_engagement {
                        Some(e) => !has_engagement(engs0, e),
                        None => false,
                    })) by {
                if to_release@.contains(c2) {
                    let m = choose|m: int| 0 <= m < to_release@.len() && to_release@[m] == c2;
                    if m < before.len() {
                        assert(before[m] == c2);
                        assert(before.contains(c2));
                    } else {
                        assert(chans0[j as int].channel_id == c2);
                    }
                }
                if exists|m: int|
                    0 <= m < j + 1 && (#[trigger] chans0[m]).channel_id == c2 && match chans0[m].assigned_engagement {
                        Some(e) => !has_engagement(engs0, e),
                        None => false,
                    } {
                    let m = choose|m: int|
                        0 <= m < j + 1 && (#[trigger] chans0[m]).channel_id == c2 && match chans0[m].assigned_engagement {
                            Some(e) => !has_engagement(engs0, e),
                            None => false,
                        };
                    if m == j {
                        if before.contains(c2) {
                            let t = choose|t: int| 0 <= t < before.len() && before[t] == c2;
                            assert(to_release@[t] == c2);
                        } else {
                            assert(to_release@[before.len() as int] == c2);
                        }
                    }
                }
                if before.contains(c2) {
                    let t = choose|t: int| 0 <= t < before.len() && before[t] == c2;
                    assert(to_release@[t] == c2);
                }
            }
        }
        j = j + 1;
    }
    // Reset the released channels.
    let mut j: usize = 0;
    while j < chans.len()
        invariant
            chans@.len() == chans0.len(),
            j <= chans0.len(),
            forall|c: u8| to_release@.contains(c) <==> releases_channel(engs0, chans0, c),
            forall|k: int|
                0 <= k < j ==> chans@[k] == (if releases_channel(
                    engs0,
                    chans0,
                    (#[trigger] chans0[k]).channel_id,
                ) {
                    idle_channel(chans0[k])
                } else {
                    chans0[k]
                }),
            forall|k: int| j <= k < chans0.len() ==> chans@[k] == chans0[k],
        decreases chans0.len() - j,
    {
        let ch = chans[j];
        if list_contains(&to_release, ch.channel_id) {
            let mut ch2 = ch;
            ch2.status = IlluminatorStatus::Idle;
            ch2.assigned_engagement = None;
            ch2.dwell_remaining_ticks = 0;
            chans.set(j, ch2);
        }
        j = j + 1;
    }
    assert(chans@ =~= release_channels_spec(engs0, chans0));
}

// ---------------------------------------------------------------------------
// Ordering by urgency
// ---------------------------------------------------------------------------

/// Order on (key, position) pairs: by key, then by position.
pub open spec fn pair_leq(a: (u64, u64), b: (u64, u64)) -> bool {
    a.0 < b.0 || (a.0 == b.0 && a.1 <= b.1)
}

/// [`pair_leq`] as a relation.
pub open spec fn pair_order() -> spec_fn((u64, u64), (u64, u64)) -> bool {
    |a: (u64, u64), b: (u64, u64)| pair_leq(a, b)
}

pub(crate) proof fn lemma_pair_order_total()
    ensures
        vstd::relations::total_ordering(pair_order()),
{
    assert(vstd::relations::reflexive(pair_order()));
    assert(vstd::relations::antisymmetric(pair_order()));
    assert(vstd::relations::transitive(pair_order()));
    assert(vstd::relations::strongly_connected(pair_order()));
}

/// Sort (key, position) pairs by key, then by position.
pub(crate) fn sort_pairs(v: &Vec<(u64, u64)>) -> (r: Vec<(u64, u64)>)
    ensures
        r@ == v@.sort_by(pair_order()),
{
    broadcast use vstd::seq_lib::group_to_multiset_ensures;

    let mut r: Vec<(u64, u64)> = Vec::new();
    let mut i: usize = 0;
    while i < v.len()
        invariant
            i <= v@.len(),
            vstd::relations::sorted_by(r@, pair_order()),
            r@.to_multiset() == v@.take(i as int).to_multiset(),
        decreases v@.len() - i,
    {
        let x = v[i];
        let mut p: usize = 0;
        while p < r.len() && (r[p].0 < x.0 || (r[p].0 == x.0 && r[p].1 <= x.1))
            invariant
                p <= r@.len(),
                forall|k: int| 0 <= k < p ==> pair_leq(#[trigger] r@[k], x),
            decreases r@.len() - p,
        {
            p = p + 1;
        }
        let ghost before = r@;
        r.insert(p, x);
        proof {
            assert forall|a: int, b: int| 0 <= a < b < r@.len() implies #[trigger] pair_order()(
                r@[a],
                r@[b],
            ) by {
                if p < before.len() {
                    assert(!pair_leq(before[p as int], x));
                    if a < p && b > p {
                        assert(pair_order()(before[a], before[b - 1]));
                    }
                    if a > p {
                        assert(pair_order()(before[a - 1], before[b - 1]));
                    }
                    if a == p && b > p {
                        assert(pair_order()(before[p as int], before[b - 1]));
                    }
                    if b < p {
                        assert(pair_order()(before[a], before[b]));
                    }
                } else {
                    if b < p {
                        assert(pair_order()(before[a], before[b]));
                    }
                }
            }
            assert(v@.take(i + 1) =~= v@.take(i as int).push(x));
            vstd::seq_lib::to_multiset_insert(before, p as int, x);
            vstd::seq_lib::to_multiset_build(v@.take(i as int), x);
        }
        i = i + 1;
    }
    proof {
        assert(v@.take(v@.len() as int) =~= v@);
        lemma_pair_order_total();
        v@.lemma_sort_by_ensures(pair_order());
        vstd::seq_lib::lemma_sorted_unique(r@, v@.sort_by(pair_order()), pair_order());
    }
    r
}

/// Stable sort of a queue by key: the entries in ascending key order, and
/// entries with equal keys in their queue order.
pub open spec fn sort_by_key(q: Seq<u32>, keys: spec_fn(u32) -> u64) -> Seq<u32> {
    Seq::new(q.len(), |p: int| (keys(q[p]), p as u64)).sort_by(pair_order()).map_values(
        |pr: (u64, u64)| q[pr.1 as int],
    )
}

// ---------------------------------------------------------------------------
// Step 2: the waiting queue
// ---------------------------------------------------------------------------

/// An engagement that waits for a channel: no channel yet, interceptor in
/// flight, not finished, and not an extended range missile (those have an
/// active seeker).
pub open spec fn waiting_engagement(e: Engagement) -> bool {
    e.illuminator_channel.is_none() && e.has_interceptor && !is_finished_phase(e.phase)
        && e.weapon_type != WeaponType::ExtendedRange
}

/// Whether the engagement with this id is in the table and waits.
pub open spec fn still_waiting(engs: Seq<Engagement>, id: u32) -> bool {
    exists|i: int| 0 <= i < engs.len() && (#[trigger] engs[i]).id == id && waiting_engagement(engs[i])
}

/// The queue entries that still wait, in queue order.
pub open spec fn retain_waiting(q: Seq<u32>, engs: Seq<Engagement>) -> Seq<u32>
    decreases q.len(),
{
    if q.len() == 0 {
        q
    } else {
        let rest = retain_waiting(q.drop_last(), engs);
        if still_waiting(engs, q.last()) {
            rest.push(q.last())
        } else {
            rest
        }
    }
}

/// Whether an engagement asks for illumination this tick: no channel yet,
/// in flight, not extended range, and its interceptor is in midcourse within
/// the request range of its target.
pub open spec fn requests_illumination(e: Engagement, o: FlightObservation) -> bool {
    &&& e.illuminator_channel.is_none()
    &&& (e.phase == EngagementPhase::Launched || e.phase == EngagementPhase::Midcourse || e.phase
        == EngagementPhase::Terminal)
    &&& e.weapon_type != WeaponType::ExtendedRange
    &&& e.has_interceptor
    &&& o.missile_phase == Some(MissilePhase::Midcourse)
    &&& match o.interceptor_range_m {
        Some(r) => r <= ILLUMINATION_REQUEST_RANGE_M,
        None => false,
    }
}

/// The queue after the first `k` engagements of the table have been looked
/// at: each one that asks for illumination and is not queued yet is added.
pub open spec fn add_requests(
    q: Seq<u32>,
    engs: Seq<Engagement>,
    obs: Seq<FlightObservation>,
    k: nat,
) -> Seq<u32>
    decreases k,
{
    if k == 0 {
        q
    } else {
        let q1 = add_requests(q, engs, obs, (k - 1) as nat);
        let e = engs[k - 1];
        if requests_illumination(e, obs[k - 1]) && !q1.contains(e.id) {
            q1.push(e.id)
        } else {
            q1
        }
    }
}

/// Urgency key of a queued engagement: its time-to-intercept order, or the
/// largest key when it is not in the table.
pub open spec fn urgency_key(engs: Seq<Engagement>, obs: Seq<FlightObservation>, id: u32) -> u64 {
    if has_engagement(engs, id) {
        obs[choose|i: int| 0 <= i < engs.len() && (#[trigger] engs[i]).id == id].tti_order
    } else {
        u64::MAX
    }
}

/// The waiting queue after the identification step.
pub open spec fn identify_spec(
    engs: Seq<Engagement>,
    obs: Seq<FlightObservation>,
    q: Seq<u32>,
) -> Seq<u32> {
    sort_by_key(
        add_requests(retain_waiting(q, engs), engs, obs, engs.len()),
        |id: u32| urgency_key(engs, obs, id),
    )
}

/// Every entry of a key-sorted queue comes from the queue.
proof fn lemma_sort_by_key_members(q: Seq<u32>, keys: spec_fn(u32) -> u64, x: u32)
    requires
        sort_by_key(q, keys).contains(x),
    ensures
        q.contains(x),
{
    let pairs = Seq::new(q.len(), |p: int| (keys(q[p]), p as u64));
    let sorted = pairs.sort_by(pair_order());
    lemma_pair_order_total();
    pairs.lemma_sort_by_ensures(pair_order());
    let t = choose|t: int| 0 <= t < sort_by_key(q, keys).len() && sort_by_key(q, keys)[t] == x;
    assert(sorted.contains(sorted[t]));
    assert(pairs.contains(sorted[t]));
    let p = choose|p: int| 0 <= p < pairs.len() && pairs[p] == sorted[t];
    let j = sorted[t].1 as int;
    assert(sort_by_key(q, keys)[t] == q[j]);
    assert(0 <= j < q.len()) by {
        if p <= u64::MAX {
            assert(j == p);
        }
    }
    assert(q[j] == x);
}

/// Every entry of the queue after adding requests was queued before, or
/// belongs to an engagement among the first `k` that asks for illumination.
proof fn lemma_added_requests_ask(
    q: Seq<u32>,
    engs: Seq<Engagement>,
    obs: Seq<FlightObservation>,
    k: nat,
    x: u32,
)
    requires
        k <= engs.len(),
        add_requests(q, engs, obs, k).contains(x),
        !q.contains(x),
    ensures
        exists|i: int|
            0 <= i < k && (#[trigger] engs[i]).id == x && requests_illumination(engs[i], obs[i]),
    decreases k,
{
    if k > 0 {
        let q1 = add_requests(q, engs, obs, (k - 1) as nat);
        if q1.contains(x) {
            lemma_added_requests_ask(q, engs, obs, (k - 1) as nat, x);
        } else {
            let e = engs[k - 1];
            assert(requests_illumination(e, obs[k - 1]) && e.id == x) by {
                if !(requests_illumination(e, obs[k - 1]) && !q1.contains(e.id)) {
                    assert(add_requests(q, engs, obs, k) == q1);
                } else {
                    assert(q1.push(e.id).contains(x));
                    if e.id != x {
                        let j = choose|j: int| 0 <= j < q1.push(e.id).len() && q1.push(e.id)[j] == x;
                        assert(j < q1.len());
                        assert(q1.contains(x));
                    }
                }
            }
        }
    }
}

/// Entries that still wait were in the queue.
proof fn lemma_retained_were_queued(q: Seq<u32>, engs: Seq<Engagement>, x: u32)
    requires
        retain_waiting(q, engs).contains(x),
    ensures
        q.contains(x),
    decreases q.len(),
{
    if q.len() > 0 {
        let rest = retain_waiting(q.drop_last(), engs);
        if rest.contains(x) {
            lemma_retained_were_queued(q.drop_last(), engs, x);
            let j = choose|j: int| 0 <= j < q.drop_last().len() && q.drop_last()[j] == x;
            assert(q[j] == x);
        } else {
            if still_waiting(engs, q.last()) {
                let j = choose|j: int| 0 <= j < rest.push(q.last()).len() && rest.push(q.last())[j] == x;
                assert(j == rest.len());
                assert(q[q.len() - 1] == x);
            }
        }
    }
}

/// The identification step adds to the waiting queue only engagements that
/// ask for illumination: each newly queued id belongs to an engagement in
/// flight with its interceptor, no channel yet, not extended range, whose
/// interceptor is observed in midcourse within the request range.
pub proof fn lemma_new_requests_are_midcourse(
    engs: Seq<Engagement>,
    obs: Seq<FlightObservation>,
    q: Seq<u32>,
    id: u32,
)
    requires
        obs.len() == engs.len(),
        identify_spec(engs, obs, q).contains(id),
        !q.contains(id),
    ensures
        exists|i: int|
            0 <= i < engs.len() && (#[trigger] engs[i]).id == id && {
                &&& obs[i].missile_phase == Some(MissilePhase::Midcourse)
                &&& engs[i].has_interceptor
                &&& engs[i].illuminator_channel.is_none()
                &&& engs[i].weapon_type != WeaponType::ExtendedRange
                &&& (engs[i].phase == EngagementPhase::Launched || engs[i].phase
                    == EngagementPhase::Midcourse || engs[i].phase == EngagementPhase::Terminal)
                &&& obs[i].interceptor_range_m matches Some(r) && r <= ILLUMINATION_REQUEST_RANGE_M
            },
{
    let kept = retain_waiting(q, engs);
    let added = add_requests(kept, engs, obs, engs.len());
    lemma_sort_by_key_members(added, |x: u32| urgency_key(engs, obs, x), id);
    if kept.contains(id) {
        lemma_retained_were_queued(q, engs, id);
    }
    lemma_added_requests_ask(kept, engs, obs, engs.len(), id);
    let i = choose|i: int|
        0 <= i < engs.len() && (#[trigger] engs[i]).id == id && requests_illumination(engs[i], obs[i]);
    assert(engs[i].id == id);
}

/// Whether a list of engagement ids holds `id`.
fn queue_contains(list: &Vec<u32>, id: u32) -> (b: bool)
    ensures
        b == list@.contains(id),
{
    let mut i: usize = 0;
    while i < list.len()
        invariant
            i <= list@.len(),
            forall|k: int| 0 <= k < i ==> list@[k] != id,
        decreases list@.len() - i,
    {
        if list[i] == id {
            assert(list@[i as int] == id);
            return true;
        }
        i = i + 1;
    }
    false
}

/// Refresh the waiting queue: drop entries that no longer wait, add the
/// engagements that ask for illumination, and order the queue by time to
/// intercept, most urgent first.
pub fn identify_candidates(
    engs: &Vec<Engagement>,
    obs: &Vec<FlightObservation>,
    queue: &mut Vec<u32>,
)
    requires
        ids_distinct(engs@),
        obs@.len() == engs@.len(),
    ensures
        final(queue)@ == identify_spec(engs@, obs@, old(queue)@),
{
    let ghost q0 = queue@;
    let mut kept: Vec<u32> = Vec::new();
    let mut k: usize = 0;
    while k < queue.len()
        invariant
            queue@ == q0,
            ids_distinct(engs@),
            k <= q0.len(),
            kept@ == retain_waiting(q0.take(k as int), engs@),
        decreases q0.len() - k,
    {
        let id = queue[k];
        let waits = match find_engagement(engs, id) {
            Some(i) => {
                let e = engs[i];
                e.illuminator_channel.is_none() && e.has_interceptor && engagement_active(e.phase)
                    && e.weapon_type != WeaponType::ExtendedRange
            },
            None => false,
        };
        proof {
            assert(q0.take(k + 1).drop_last() =~= q0.take(k as int));
            assert(q0.take(k + 1).last() == id);
            if still_waiting(engs@, id) {
                let j = choose|j: int|
                    0 <= j < engs@.len() && (#[trigger] engs@[j]).id == id && waiting_engagement(
                        engs@[j],
                    );
                assert(has_engagement(engs@, id));
            }
        }
        if waits {
            kept.push(id);
        }
        k = k + 1;
    }
    assert(q0.take(q0.len() as int) =~= q0);
    let ghost retained = kept@;
    let mut i: usize = 0;
    while i < engs.len()
        invariant
            i <= engs@.len(),
            obs@.len() == engs@.len(),
            kept@ == add_requests(retained, engs@, obs@, i as nat),
        decreases engs@.len() - i,
    {
        let e = engs[i];
        let o = obs[i];
        let in_flight = match e.phase {
            EngagementPhase::Launched | EngagementPhase::Midcourse | EngagementPhase::Terminal => true,
            _ => false,
        };
        let near = match o.interceptor_range_m {
            Some(r) => r <= ILLUMINATION_REQUEST_RANGE_M,
            None => false,
        };
        let midcourse = match o.missile_phase {
            Some(MissilePhase::Midcourse) => true,
            _ => false,
        };
        if e.illuminator_channel.is_none() && in_flight && e.weapon_type
            != WeaponType::ExtendedRange && e.has_interceptor && midcourse && near {
            if !queue_contains(&kept, e.id) {
                kept.push(e.id);
            }
        }
        i = i + 1;
    }
    // Order by urgency.
    let ghost pre = kept@;
    let mut pairs: Vec<(u64, u64)> = Vec::new();
    let mut p: usize = 0;
    while p < kept.len()
        invariant
            p <= pre.len(),
            kept@ == pre,
            ids_distinct(engs@),
            obs@.len() == engs@.len(),
            pairs@ =~= Seq::new(p as nat, |t: int| (urgency_key(engs@, obs@, pre[t]), t as u64)),
        decreases pre.len() - p,
    {
        let id = kept[p];
        let key = match find_engagement(engs, id) {
            Some(j) => {
                proof {
                    let c = choose|c: int| 0 <= c < engs@.len() && (#[trigger] engs@[c]).id == id;
                    assert(engs@[j as int].id == id);
                    assert(c == j);
                    assert(has_engagement(engs@, id));
                }
                obs[j].tti_order
            },
            None => u64::MAX,
        };
        assert(key == urgency_key(engs@, obs@, id));
        pairs.push((key, p as u64));
        p = p + 1;
    }
    let sorted = sort_pairs(&pairs);
    proof {
        let keys = |id: u32| urgency_key(engs@, obs@, id);
        assert(pairs@ =~= Seq::new(pre.len(), |t: int| (keys(pre[t]), t as u64)));
        lemma_pair_order_total();
        pairs@.lemma_sort_by_ensures(pair_order());
        assert forall|t: int| 0 <= t < sorted@.len() implies (#[trigger] sorted@[t]).1 < pre.len() by {
            assert(sorted@.contains(sorted@[t]));
            assert(pairs@.contains(sorted@[t]));
        }
    }
    let mut result: Vec<u32> = Vec::new();
    let mut t: usize = 0;
    while t < sorted.len()
        invariant
            t <= sorted@.len(),
            kept@ == pre,
            forall|u: int| 0 <= u < sorted@.len() ==> (#[trigger] sorted@[u]).1 < pre.len(),
            result@ =~= sorted@.take(t as int).map_values(|pr: (u64, u64)| pre[pr.1 as int]),
        decreases sorted@.len() - t,
    {
        let pos = sorted[t].1 as usize;
        result.push(kept[pos]);
        t = t + 1;
    }
    assert(sorted@.take(sorted@.len() as int) =~= sorted@);
    *queue = result;
}

// ---------------------------------------------------------------------------
// Step 3: assignment of idle channels
// ---------------------------------------------------------------------------

/// An engagement with its channel set to `c`.
pub open spec fn with_channel(e: Engagement, c: Option<u8>) -> Engagement {
    Engagement { illuminator_channel: c, ..e }
}

/// The table with the channel of the engagement(s) with this id set to `c`.
pub open spec fn set_engagement_channel_spec(engs: Seq<Engagement>, id: u32, c: Option<u8>) -> Seq<
    Engagement,
> {
    engs.map_values(|e: Engagement| if e.id == id { with_channel(e, c) } else { e })
}

/// Set the channel of the engagement(s) with this id.
fn set_engagement_channel(engs: &mut Vec<Engagement>, id: u32, c: Option<u8>)
    ensures
        final(engs)@ == set_engagement_channel_spec(old(engs)@, id, c),
{
    let ghost engs0 = engs@;
    let mut i: usize = 0;
    while i < engs.len()
        invariant
            engs@.len() == engs0.len(),
            i <= engs0.len(),
            forall|k: int|
                0 <= k < i ==> engs@[k] == (if (#[trigger] engs0[k]).id == id {
                    with_channel(engs0[k], c)
                } else {
                    engs0[k]
                }),
            forall|k: int| i <= k < engs0.len() ==> engs@[k] == engs0[k],
        decreases engs0.len() - i,
    {
        let e = engs[i];
        if e.id == id {
            let mut e2 = e;
            e2.illuminator_channel = c;
            engs.set(i, e2);
        }
        i = i + 1;
    }
    assert(engs@ =~= set_engagement_channel_spec(engs0, id, c));
}

/// A channel serving engagement `id` with `dwell` ticks of dwell.
pub open spec fn serving(ch: Illuminator, status: IlluminatorStatus, id: u32, dwell: u64) -> Illuminator {
    Illuminator { status, assigned_engagement: Some(id), dwell_remaining_ticks: dwell, ..ch }
}

/// The channels with every channel of id `c` set to serve engagement `id`.
pub open spec fn set_channel_service_spec(
    chans: Seq<Illuminator>,
    c: u8,
    status: IlluminatorStatus,
    id: u32,
    dwell: u64,
) -> Seq<Illuminator> {
    chans.map_values(
        |ch: Illuminator|
            if ch.channel_id == c {
                serving(ch, status, id, dwell)
            } else {
                ch
            },
    )
}

/// Set every channel of id `c` to serve engagement `id`.
fn set_channel_service(
    chans: &mut Vec<Illuminator>,
    c: u8,
    status: IlluminatorStatus,
    id: u32,
    dwell: u64,
)
    ensures
        final(chans)@ == set_channel_service_spec(old(chans)@, c, status, id, dwell),
{
    let ghost chans0 = chans@;
    let mut j: usize = 0;
    while j < chans.len()
        invariant
            chans@.len() == chans0.len(),
            j <= chans0.len(),
            forall|k: int|
                0 <= k < j ==> chans@[k] == (if (#[trigger] chans0[k]).channel_id == c {
                    serving(chans0[k], status, id, dwell)
                } else {
                    chans0[k]
                }),
            forall|k: int| j <= k < chans0.len() ==> chans@[k] == chans0[k],
        decreases chans0.len() - j,
    {
        let ch = chans[j];
        if ch.channel_id == c {
            let mut ch2 = ch;
            ch2.status = status;
            ch2.assigned_engagement = Some(id);
            ch2.dwell_remaining_ticks = dwell;
            chans.set(j, ch2);
        }
        j = j + 1;
    }
    assert(chans@ =~= set_channel_service_spec(chans0, c, status, id, dwell));
}

/// Ids of the idle channels, in channel order.
pub open spec fn idle_ids(chans: Seq<Illuminator>) -> Seq<u8>
    decreases chans.len(),
{
    if chans.len() == 0 {
        Seq::empty()
    } else {
        let rest = idle_ids(chans.drop_last());
        if chans.last().status == IlluminatorStatus::Idle {
            rest.push(chans.last().channel_id)
        } else {
            rest
        }
    }
}

/// Channel ids in ascending order.
pub open spec fn ascending_ids(ids: Seq<u8>) -> Seq<u8> {
    Seq::new(ids.len(), |p: int| (ids[p] as u64, p as u64)).sort_by(pair_order()).map_values(
        |pr: (u64, u64)| ids[pr.1 as int],
    )
}

/// Apply (engagement, channel) assignments to the table, in order.
pub open spec fn assign_engagements(engs: Seq<Engagement>, pairs: Seq<(u32, u8)>) -> Seq<Engagement>
    decreases pairs.len(),
{
    if pairs.len() == 0 {
        engs
    } else {
        let prev = assign_engagements(engs, pairs.drop_last());
        set_engagement_channel_spec(prev, pairs.last().0, Some(pairs.last().1))
    }
}

/// Apply (engagement, channel) assignments to the channels, in order: each
/// assigned channel becomes active with a full dwell.
pub open spec fn assign_channels(chans: Seq<Illuminator>, pairs: Seq<(u32, u8)>) -> Seq<Illuminator>
    decreases pairs.len(),
{
    if pairs.len() == 0 {
        chans
    } else {
        let prev = assign_channels(chans, pairs.drop_last());
        set_channel_service_spec(
            prev,
            pairs.last().1,
            IlluminatorStatus::Active,
            pairs.last().0,
            ILLUMINATOR_DWELL_TICKS,
        )
    }
}

/// State of the scheduler: engagement table, channels and waiting queue.
pub struct SchedulerState {
    pub engs: Seq<Engagement>,
    pub chans: Seq<Illuminator>,
    pub queue: Seq<u32>,
}

/// Number of assignments made: one per idle channel while the queue lasts.
pub open spec fn assignment_count(chans: Seq<Illuminator>, q: Seq<u32>) -> int {
    if idle_ids(chans).len() < q.len() {
        idle_ids(chans).len() as int
    } else {
        q.len() as int
    }
}

/// The assignments made: the head of the queue paired with the idle
/// channels in ascending id order.
pub open spec fn assignment_pairs(chans: Seq<Illuminator>, q: Seq<u32>) -> Seq<(u32, u8)> {
    Seq::new(
        assignment_count(chans, q) as nat,
        |t: int| (q[t], ascending_ids(idle_ids(chans))[t]),
    )
}

/// The scheduler state after the assignment step.
pub open spec fn assign_spec(st: SchedulerState) -> SchedulerState {
    let pairs = assignment_pairs(st.chans, st.queue);
    SchedulerState {
        engs: assign_engagements(st.engs, pairs),
        chans: assign_channels(st.chans, pairs),
        queue: st.queue.skip(assignment_count(st.chans, st.queue)),
    }
}

/// Assign idle channels, lowest id first, to the engagements at the head of
/// the queue.
pub fn assign_illuminators(
    engs: &mut Vec<Engagement>,
    chans: &mut Vec<Illuminator>,
    queue: &mut Vec<u32>,
)
    ensures
        ({
            let st = assign_spec(
                SchedulerState { engs: old(engs)@, chans: old(chans)@, queue: old(queue)@ },
            );
            &&& final(engs)@ == st.engs
            &&& final(chans)@ == st.chans
            &&& final(queue)@ == st.queue
        }),
{
    let ghost engs0 = engs@;
    let ghost chans0 = chans@;
    let ghost q0 = queue@;
    if queue.len() == 0 {
        assert(q0.skip(0) =~= q0);
        assert(assignment_pairs(chans0, q0) =~= Seq::<(u32, u8)>::empty());
        return;
    }
    // Idle channel ids, in channel order.
    let mut idle: Vec<u8> = Vec::new();
    let mut j: usize = 0;
    while j < chans.len()
        invariant
            j <= chans@.len(),
            idle@ == idle_ids(chans@.take(j as int)),
        decreases chans@.len() - j,
    {
        assert(chans@.take(j + 1).drop_last() =~= chans@.take(j as int));
        if chans[j].status == IlluminatorStatus::Idle {
            idle.push(chans[j].channel_id);
        }
        j = j + 1;
    }
    assert(chans@.take(chans@.len() as int) =~= chans@);
    // Ascending order.
    let mut keyed: Vec<(u64, u64)> = Vec::new();
    let mut p: usize = 0;
    while p < idle.len()
        invariant
            p <= idle@.len(),
            keyed@ =~= Seq::new(p as nat, |t: int| (idle@[t] as u64, t as u64)),
        decreases idle@.len() - p,
    {
        keyed.push((idle[p] as u64, p as u64));
        p = p + 1;
    }
    let sorted = sort_pairs(&keyed);
    proof {
        lemma_pair_order_total();
        keyed@.lemma_sort_by_ensures(pair_order());
        assert forall|t: int| 0 <= t < sorted@.len() implies (#[trigger] sorted@[t]).1 < idle@.len() by {
            assert(sorted@.contains(sorted@[t]));
            assert(keyed@.contains(sorted@[t]));
        }
    }
    let mut order: Vec<u8> = Vec::new();
    let mut t: usize = 0;
    while t < sorted.len()
        invariant
            t <= sorted@.len(),
            forall|u: int| 0 <= u < sorted@.len() ==> (#[trigger] sorted@[u]).1 < idle@.len(),
            order@ =~= sorted@.take(t as int).map_values(|pr: (u64, u64)| idle@[pr.1 as int]),
        decreases sorted@.len() - t,
    {
        let pos = sorted[t].1 as usize;
        order.push(idle[pos]);
        t = t + 1;
    }
    assert(sorted@.take(sorted@.len() as int) =~= sorted@);
    assert(order@ == ascending_ids(idle_ids(chans0)));
    proof {
        vstd::seq_lib::to_multiset_len(sorted@);
        vstd::seq_lib::to_multiset_len(keyed@);
        assert(order@.len() == idle@.len());
    }
    // Pair the head of the queue with the channels.
    let mut pairs: Vec<(u32, u8)> = Vec::new();
    let mut t: usize = 0;
    while t < order.len() && queue.len() > 0
        invariant
            t <= order@.len(),
            t <= q0.len(),
            queue@ == q0.skip(t as int),
            pairs@ =~= Seq::new(t as nat, |u: int| (q0[u], order@[u])),
        decreases order@.len() - t,
    {
        let eng_id = queue.remove(0);
        assert(eng_id == q0[t as int]);
        pairs.push((eng_id, order[t]));
        assert(q0.skip(t as int).remove(0) =~= q0.skip(t + 1));
        t = t + 1;
    }
    assert(t == assignment_count(chans0, q0));
    assert(pairs@ =~= assignment_pairs(chans0, q0));
    // Apply to the engagements, then to the channels.
    let mut u: usize = 0;
    while u < pairs.len()
        invariant
            u <= pairs@.len(),
            engs@ == assign_engagements(engs0, pairs@.take(u as int)),
        decreases pairs@.len() - u,
    {
        assert(pairs@.take(u + 1).drop_last() =~= pairs@.take(u as int));
        let (eng_id, channel_id) = pairs[u];
        set_engagement_channel(engs, eng_id, Some(channel_id));
        u = u + 1;
    }
    assert(pairs@.take(pairs@.len() as int) =~= pairs@);
    let mut u: usize = 0;
    while u < pairs.len()
        invariant
            u <= pairs@.len(),
            chans@ == assign_channels(chans0, pairs@.take(u as int)),
        decreases pairs@.len() - u,
    {
        assert(pairs@.take(u + 1).drop_last() =~= pairs@.take(u as int));
        let (eng_id, channel_id) = pairs[u];
        set_channel_service(chans, channel_id, IlluminatorStatus::Active, eng_id, ILLUMINATOR_DWELL_TICKS);
        u = u + 1;
    }
}

// ---------------------------------------------------------------------------
// Step 4: time-sharing
// ---------------------------------------------------------------------------

/// A channel that is illuminating (actively or time-shared).
pub open spec fn is_busy(ch: Illuminator) -> bool {
    ch.status == IlluminatorStatus::Active || ch.status == IlluminatorStatus::TimeSharing
}

/// A channel after one tick of time-sharing: busy channels time-share and
/// lose one tick of dwell.
pub open spec fn ticked(ch: Illuminator) -> Illuminator {
    if is_busy(ch) {
        Illuminator {
            status: IlluminatorStatus::TimeSharing,
            dwell_remaining_ticks: if ch.dwell_remaining_ticks > 0 {
                (ch.dwell_remaining_ticks - 1) as u64
            } else {
                0
            },
            ..ch
        }
    } else {
        ch
    }
}

/// Busy channels whose dwell runs out this tick, with the engagement they
/// served, in channel order.
pub open spec fn expired_of(chans: Seq<Illuminator>) -> Seq<(u8, u32)>
    decreases chans.len(),
{
    if chans.len() == 0 {
        Seq::empty()
    } else {
        let rest = expired_of(chans.drop_last());
        let ch = chans.last();
        if is_busy(ch) && ticked(ch).dwell_remaining_ticks == 0 && ch.assigned_engagement.is_some() {
            rest.push((ch.channel_id, ch.assigned_engagement.unwrap()))
        } else {
            rest
        }
    }
}

/// Number of busy channels.
pub open spec fn busy_count(chans: Seq<Illuminator>) -> nat
    decreases chans.len(),
{
    if chans.len() == 0 {
        0
    } else {
        busy_count(chans.drop_last()) + if is_busy(chans.last()) {
            1nat
        } else {
            0nat
        }
    }
}

/// Dwell of a time-shared channel, in ticks: the full dwell split among the
/// engagements that need illumination, rounded up.
pub open spec fn shared_dwell(total: int) -> int {
    (ILLUMINATOR_DWELL_TICKS + total - 1) / total
}

/// A time-shared dwell lasts at least one tick and at most the full dwell,
/// and it is shorter than the full dwell as soon as two engagements share.
pub proof fn lemma_shared_dwell_bounds(total: int)
    requires
        total >= 1,
    ensures
        1 <= shared_dwell(total) <= ILLUMINATOR_DWELL_TICKS,
        total >= 2 ==> shared_dwell(total) < ILLUMINATOR_DWELL_TICKS,
{
    let d = ILLUMINATOR_DWELL_TICKS as int;
    assert(1 <= (d + total - 1) / total <= d) by (nonlinear_arith)
        requires
            total >= 1,
            d == 90,
    ;
    assert(total >= 2 ==> (d + total - 1) / total < d) by (nonlinear_arith)
        requires
            total >= 1,
            d == 90,
    ;
}

/// Whether the engagement with this id may wait for illumination again:
/// it is in the table, not finished, and still has its interceptor.
pub open spec fn may_requeue(engs: Seq<Engagement>, id: u32) -> bool {
    exists|i: int|
        0 <= i < engs.len() && (#[trigger] engs[i]).id == id && !is_finished_phase(engs[i].phase)
            && engs[i].has_interceptor
}

/// The channels with every channel of id `c` moved to engagement `id` with
/// `dwell` ticks of dwell (its status is kept).
pub open spec fn retarget_spec(chans: Seq<Illuminator>, c: u8, id: u32, dwell: u64) -> Seq<
    Illuminator,
> {
    chans.map_values(
        |ch: Illuminator|
            if ch.channel_id == c {
                Illuminator { assigned_engagement: Some(id), dwell_remaining_ticks: dwell, ..ch }
            } else {
                ch
            },
    )
}

/// Move every channel of id `c` to engagement `id`, keeping its status.
fn retarget_channel(chans: &mut Vec<Illuminator>, c: u8, id: u32, dwell: u64)
    ensures
        final(chans)@ == retarget_spec(old(chans)@, c, id, dwell),
{
    let ghost chans0 = chans@;
    let mut j: usize = 0;
    while j < chans.len()
        invariant
            chans@.len() == chans0.len(),
            j <= chans0.len(),
            forall|k: int|
                0 <= k < j ==> chans@[k] == (if (#[trigger] chans0[k]).channel_id == c {
                    Illuminator {
                        assigned_engagement: Some(id),
                        dwell_remaining_ticks: dwell,
                        ..chans0[k]
                    }
                } else {
                    chans0[k]
                }),
            forall|k: int| j <= k < chans0.len() ==> chans@[k] == chans0[k],
        decreases chans0.len() - j,
    {
        let ch = chans[j];
        if ch.channel_id == c {
            let mut ch2 = ch;
            ch2.assigned_engagement = Some(id);
            ch2.dwell_remaining_ticks = dwell;
            chans.set(j, ch2);
        }
        j = j + 1;
    }
    assert(chans@ =~= retarget_spec(chans0, c, id, dwell));
}

/// One rotation: the engagement served by expired channel `c` loses it and,
/// if it still may, waits again at the back of the queue; the channel then
/// serves the head of the queue, if any.
pub open spec fn rotate(st: SchedulerState, c: u8, old_id: u32, dwell: u64) -> SchedulerState {
    let engs1 = set_engagement_channel_spec(st.engs, old_id, None);
    let q1 = if may_requeue(st.engs, old_id) {
        st.queue.push(old_id)
    } else {
        st.queue
    };
    if q1.len() > 0 {
        SchedulerState {
            engs: set_engagement_channel_spec(engs1, q1[0], Some(c)),
            chans: retarget_spec(st.chans, c, q1[0], dwell),
            queue: q1.drop_first(),
        }
    } else {
        SchedulerState { engs: engs1, chans: st.chans, queue: q1 }
    }
}

/// The rotations of all expired channels, in order.
pub open spec fn rotate_all(st: SchedulerState, expired: Seq<(u8, u32)>, dwell: u64) -> SchedulerState
    decreases expired.len(),
{
    if expired.len() == 0 {
        st
    } else {
        let prev = rotate_all(st, expired.drop_last(), dwell);
        rotate(prev, expired.last().0, expired.last().1, dwell)
    }
}

/// The scheduler state after the time-sharing step.
pub open spec fn timeshare_spec(st: SchedulerState) -> SchedulerState {
    if st.queue.len() == 0 {
        SchedulerState {
            chans: st.chans.map_values(
                |ch: Illuminator|
                    if ch.status == IlluminatorStatus::TimeSharing {
                        Illuminator { status: IlluminatorStatus::Active, ..ch }
                    } else {
                        ch
                    },
            ),
            ..st
        }
    } else if busy_count(st.chans) == 0 {
        st
    } else {
        rotate_all(
            SchedulerState { chans: st.chans.map_values(|ch: Illuminator| ticked(ch)), ..st },
            expired_of(st.chans),
            shared_dwell((busy_count(st.chans) + st.queue.len()) as int) as u64,
        )
    }
}

/// Whether the engagement with this id may wait for illumination again.
fn requeue_allowed(engs: &Vec<Engagement>, id: u32) -> (b: bool)
    requires
        ids_distinct(engs@),
    ensures
        b == may_requeue(engs@, id),
{
    match find_engagement(engs, id) {
        Some(i) => {
            proof {
                if may_requeue(engs@, id) {
                    let j = choose|j: int|
                        0 <= j < engs@.len() && (#[trigger] engs@[j]).id == id
                            && !is_finished_phase(engs@[j].phase) && engs@[j].has_interceptor;
                    assert(j == i);
                }
            }
            engagement_active(engs[i].phase) && engs[i].has_interceptor
        },
        None => false,
    }
}

proof fn lemma_rotate_keeps_ids(st: SchedulerState, expired: Seq<(u8, u32)>, dwell: u64)
    ensures
        same_ids(rotate_all(st, expired, dwell).engs, st.engs),
    decreases expired.len(),
{
    if expired.len() > 0 {
        lemma_rotate_keeps_ids(st, expired.drop_last(), dwell);
        let prev = rotate_all(st, expired.drop_last(), dwell);
        let r = rotate(prev, expired.last().0, expired.last().1, dwell);
        assert(same_ids(r.engs, prev.engs));
    }
}

/// Time-share the channels while engagements wait: busy channels lose a
/// tick of dwell, and each channel whose dwell runs out moves on to the
/// head of the queue, its old engagement waiting again if it still may.
/// With nobody waiting, time-sharing channels return to active.
pub fn update_timesharing(
    engs: &mut Vec<Engagement>,
    chans: &mut Vec<Illuminator>,
    queue: &mut Vec<u32>,
)
    requires
        ids_distinct(old(engs)@),
    ensures
        ({
            let st = timeshare_spec(
                SchedulerState { engs: old(engs)@, chans: old(chans)@, queue: old(queue)@ },
            );
            &&& final(engs)@ == st.engs
            &&& final(chans)@ == st.chans
            &&& final(queue)@ == st.queue
        }),
{
    let ghost engs0 = engs@;
    let ghost chans0 = chans@;
    let ghost q0 = queue@;
    if queue.len() == 0 {
        let mut j: usize = 0;
        while j < chans.len()
            invariant
                chans@.len() == chans0.len(),
                j <= chans0.len(),
                forall|k: int|
                    0 <= k < j ==> chans@[k] == (if (#[trigger] chans0[k]).status
                        == IlluminatorStatus::TimeSharing {
                        Illuminator { status: IlluminatorStatus::Active, ..chans0[k] }
                    } else {
                        chans0[k]
                    }),
                forall|k: int| j <= k < chans0.len() ==> chans@[k] == chans0[k],
            decreases chans0.len() - j,
        {
            let ch = chans[j];
            if ch.status == IlluminatorStatus::TimeSharing {
                let mut ch2 = ch;
                ch2.status = IlluminatorStatus::Active;
                chans.set(j, ch2);
            }
            j = j + 1;
        }
        assert(chans@ =~= timeshare_spec(SchedulerState { engs: engs0, chans: chans0, queue: q0 }).chans);
        return;
    }
    // Count busy channels.
    let mut busy: usize = 0;
    let mut j: usize = 0;
    while j < chans.len()
        invariant
            j <= chans@.len(),
            busy == busy_count(chans@.take(j as int)),
            busy <= j,
        decreases chans@.len() - j,
    {
        assert(chans@.take(j + 1).drop_last() =~= chans@.take(j as int));
        if chans[j].status == IlluminatorStatus::Active || chans[j].status
            == IlluminatorStatus::TimeSharing {
            busy = busy + 1;
        }
        j = j + 1;
    }
    assert(chans@.take(chans@.len() as int) =~= chans@);
    if busy == 0 {
        return;
    }
    let total: u128 = busy as u128 + queue.len() as u128;
    let dwell_wide: u128 = (ILLUMINATOR_DWELL_TICKS as u128 + total - 1) / total;
    assert(dwell_wide <= ILLUMINATOR_DWELL_TICKS) by (nonlinear_arith)
        requires
            total >= 1,
            dwell_wide == (ILLUMINATOR_DWELL_TICKS + total - 1) as int / total as int,
    ;
    assert(dwell_wide == shared_dwell(total as int));
    let dwell: u64 = dwell_wide as u64;
    // Tick the busy channels and collect the expired ones.
    let mut expired: Vec<(u8, u32)> = Vec::new();
    let mut j: usize = 0;
    while j < chans.len()
        invariant
            chans@.len() == chans0.len(),
            j <= chans0.len(),
            forall|k: int| 0 <= k < j ==> chans@[k] == ticked(#[trigger] chans0[k]),
            forall|k: int| j <= k < chans0.len() ==> chans@[k] == chans0[k],
            expired@ == expired_of(chans0.take(j as int)),
        decreases chans0.len() - j,
    {
        assert(chans0.take(j + 1).drop_last() =~= chans0.take(j as int));
        let ch = chans[j];
        if ch.status == IlluminatorStatus::Active || ch.status == IlluminatorStatus::TimeSharing {
            let mut ch2 = ch;
            ch2.status = IlluminatorStatus::TimeSharing;
            ch2.dwell_remaining_ticks = if ch.dwell_remaining_ticks > 0 {
                ch.dwell_remaining_ticks - 1
            } else {
                0
            };
            chans.set(j, ch2);
            if ch2.dwell_remaining_ticks == 0 {
                if let Some(old_id) = ch.assigned_engagement {
                    expired.push((ch.channel_id, old_id));
                }
            }
        }
        j = j + 1;
    }
    assert(chans0.take(chans0.len() as int) =~= chans0);
    assert(chans@ =~= chans0.map_values(|ch: Illuminator| ticked(ch)));
    let ghost st1 = SchedulerState { engs: engs0, chans: chans@, queue: q0 };
    // Rotate the expired channels.
    let mut u: usize = 0;
    while u < expired.len()
        invariant
            u <= expired@.len(),
            ids_distinct(engs0),
            st1.engs == engs0,
            ({
                let st = rotate_all(st1, expired@.take(u as int), dwell);
                &&& engs@ == st.engs
                &&& chans@ == st.chans
                &&& queue@ == st.queue
            }),
        decreases expired@.len() - u,
    {
        let ghost prev = rotate_all(st1, expired@.take(u as int), dwell);
        assert(expired@.take(u + 1).drop_last() =~= expired@.take(u as int));
        proof {
            lemma_rotate_keeps_ids(st1, expired@.take(u as int), dwell);
        }
        let (c, old_id) = expired[u];
        proof {
            assert forall|a: int, b: int|
                0 <= a < prev.engs.len() && 0 <= b < prev.engs.len() && a != b implies (
            #[trigger] prev.engs[a]).id != (#[trigger] prev.engs[b]).id by {
                assert(engs0[a].id != engs0[b].id);
            }
        }
        let requeue = requeue_allowed(engs, old_id);
        set_engagement_channel(engs, old_id, None);
        if requeue {
            queue.push(old_id);
        }
        if queue.len() > 0 {
            let next = queue.remove(0);
            set_engagement_channel(engs, next, Some(c));
            retarget_channel(chans, c, next, dwell);
        }
        u = u + 1;
    }
    assert(expired@.take(expired@.len() as int) =~= expired@);
}

// ---------------------------------------------------------------------------
// One tick of the scheduler
// ---------------------------------------------------------------------------

/// The scheduler state after one tick: release, refresh the queue, assign
/// idle channels, time-share.
pub open spec fn scheduler_spec(st: SchedulerState, obs: Seq<FlightObservation>) -> SchedulerState {
    let engs1 = release_engagements_spec(st.engs);
    let chans1 = release_channels_spec(st.engs, st.chans);
    let q1 = identify_spec(engs1, obs, st.queue);
    timeshare_spec(assign_spec(SchedulerState { engs: engs1, chans: chans1, queue: q1 }))
}

proof fn lemma_assign_keeps_ids(engs: Seq<Engagement>, pairs: Seq<(u32, u8)>)
    ensures
        same_ids(assign_engagements(engs, pairs), engs),
    decreases pairs.len(),
{
    if pairs.len() > 0 {
        lemma_assign_keeps_ids(engs, pairs.drop_last());
    }
}

proof fn lemma_distinct_same_ids(a: Seq<Engagement>, b: Seq<Engagement>)
    requires
        same_ids(a, b),
        ids_distinct(b),
    ensures
        ids_distinct(a),
{
    assert forall|i: int, j: int|
        0 <= i < a.len() && 0 <= j < a.len() && i != j implies (#[trigger] a[i]).id != (
        #[trigger] a[j]).id by {
        assert(b[i].id != b[j].id);
    }
}

/// Run the illuminator scheduler for one tick.
///
/// `obs` holds, position by position, what the world shows of each
/// engagement's interceptor and target.
pub fn run_scheduler(
    engs: &mut Vec<Engagement>,
    chans: &mut Vec<Illuminator>,
    queue: &mut Vec<u32>,
    obs: &Vec<FlightObservation>,
)
    requires
        ids_distinct(old(engs)@),
        obs@.len() == old(engs)@.len(),
    ensures
        ({
            let st = scheduler_spec(
                SchedulerState { engs: old(engs)@, chans: old(chans)@, queue: old(queue)@ },
                obs@,
            );
            &&& final(engs)@ == st.engs
            &&& final(chans)@ == st.chans
            &&& final(queue)@ == st.queue
        }),
{
    let ghost engs0 = engs@;
    release_completed(engs, chans);
    proof {
        assert(same_ids(engs@, engs0));
        lemma_distinct_same_ids(engs@, engs0);
    }
    identify_candidates(engs, obs, queue);
    let ghost engs1 = engs@;
    let ghost chans1 = chans@;
    let ghost q1 = queue@;
    assign_illuminators(engs, chans, queue);
    proof {
        lemma_assign_keeps_ids(engs1, assignment_pairs(chans1, q1));
        lemma_distinct_same_ids(engs@, engs1);
    }
    update_timesharing(engs, chans, queue);
}

/// Number of engagements holding a channel.
pub open spec fn holding_count(engs: Seq<Engagement>) -> nat
    decreases engs.len(),
{
    if engs.len() == 0 {
        0
    } else {
        holding_count(engs.drop_last()) + if engs.last().illuminator_channel.is_some() {
            1nat
        } else {
            0nat
        }
    }
}

proof fn lemma_holding_count_bound(engs: Seq<Engagement>)
    ensures
        holding_count(engs) <= engs.len(),
    decreases engs.len(),
{
    if engs.len() > 0 {
        lemma_holding_count_bound(engs.drop_last());
    }
}

/// Number of engagements sharing illuminators (for the kill probability
/// penalty): those holding a channel plus those waiting in the queue.
pub fn time_share_count(engs: &Vec<Engagement>, queue: &Vec<u32>) -> (n: usize)
    requires
        engs@.len() + queue@.len() <= usize::MAX,
    ensures
        n == holding_count(engs@) + queue@.len(),
{
    let mut assigned: usize = 0;
    let mut i: usize = 0;
    while i < engs.len()
        invariant
            i <= engs@.len(),
            assigned == holding_count(engs@.take(i as int)),
        decreases engs@.len() - i,
    {
        proof {
            assert(engs@.take(i + 1).drop_last() =~= engs@.take(i as int));
            lemma_holding_count_bound(engs@.take(i as int));
        }
        if engs[i].illuminator_channel.is_some() {
            assigned = assigned + 1;
        }
        i = i + 1;
    }
    assert(engs@.take(engs@.len() as int) =~= engs@);
    proof {
        lemma_holding_count_bound(engs@);
    }
    assigned + queue.len()
}

// ---------------------------------------------------------------------------
// What every tick of the scheduler keeps
// ---------------------------------------------------------------------------

/// An engagement that may hold a channel: in flight with its interceptor,
/// and semi-active (not extended range).
pub open spec fn eligible(e: Engagement) -> bool {
    !is_finished_phase(e.phase) && e.has_interceptor && e.weapon_type != WeaponType::ExtendedRange
}

/// Every engagement with this id is eligible.
pub open spec fn id_eligible(engs: Seq<Engagement>, id: u32) -> bool {
    forall|i: int| 0 <= i < engs.len() && (#[trigger] engs[i]).id == id ==> eligible(engs[i])
}

/// No engagement with this id is an extended range one.
pub open spec fn id_not_er(engs: Seq<Engagement>, id: u32) -> bool {
    forall|i: int|
        0 <= i < engs.len() && (#[trigger] engs[i]).id == id ==> engs[i].weapon_type
            != WeaponType::ExtendedRange
}

/// Every engagement holding a channel is eligible.
pub open spec fn holders_eligible(engs: Seq<Engagement>) -> bool {
    forall|i: int|
        0 <= i < engs.len() && (#[trigger] engs[i]).illuminator_channel.is_some() ==> eligible(
            engs[i],
        )
}

/// No extended range engagement holds a channel.
pub open spec fn no_er_holder(engs: Seq<Engagement>) -> bool {
    forall|i: int|
        0 <= i < engs.len() && (#[trigger] engs[i]).illuminator_channel.is_some() ==> engs[i].weapon_type
            != WeaponType::ExtendedRange
}

/// Every queued id is eligible.
pub open spec fn queue_eligible(engs: Seq<Engagement>, q: Seq<u32>) -> bool {
    forall|t: int| 0 <= t < q.len() ==> id_eligible(engs, #[trigger] q[t])
}

/// No channel serves an extended range engagement.
pub open spec fn serves_no_er(engs: Seq<Engagement>, chans: Seq<Illuminator>) -> bool {
    forall|j: int|
        0 <= j < chans.len() && (#[trigger] chans[j]).assigned_engagement.is_some() ==> id_not_er(
            engs,
            chans[j].assigned_engagement.unwrap(),
        )
}

/// The scheduler's invariant: engagement ids are distinct, and extended
/// range engagements neither hold nor are served by a channel.
pub open spec fn scheduler_invariant(st: SchedulerState) -> bool {
    &&& ids_distinct(st.engs)
    &&& no_er_holder(st.engs)
    &&& serves_no_er(st.engs, st.chans)
}

/// Two tables that differ at most in their illuminator channels.
pub open spec fn same_core(a: Seq<Engagement>, b: Seq<Engagement>) -> bool {
    a.len() == b.len() && forall|i: int|
        0 <= i < a.len() ==> {
            &&& (#[trigger] a[i]).id == b[i].id
            &&& a[i].phase == b[i].phase
            &&& a[i].has_interceptor == b[i].has_interceptor
            &&& a[i].weapon_type == b[i].weapon_type
        }
}

proof fn lemma_same_core_transfer(a: Seq<Engagement>, b: Seq<Engagement>)
    requires
        same_core(a, b),
    ensures
        same_core(b, a),
        same_ids(a, b),
        ids_distinct(b) ==> ids_distinct(a),
        forall|id: u32| id_eligible(b, id) ==> #[trigger] id_eligible(a, id),
        forall|id: u32| id_not_er(b, id) ==> #[trigger] id_not_er(a, id),
        forall|q: Seq<u32>| queue_eligible(b, q) ==> #[trigger] queue_eligible(a, q),
        forall|chans: Seq<Illuminator>| serves_no_er(b, chans) ==> #[trigger] serves_no_er(a, chans),
{
    if ids_distinct(b) {
        assert forall|i: int, j: int|
            0 <= i < a.len() && 0 <= j < a.len() && i != j implies (#[trigger] a[i]).id != (
            #[trigger] a[j]).id by {
            assert(b[i].id != b[j].id);
        }
    }
    assert forall|id: u32| id_eligible(b, id) implies #[trigger] id_eligible(a, id) by {
        assert forall|i: int| 0 <= i < a.len() && (#[trigger] a[i]).id == id implies eligible(a[i]) by {
            assert(b[i].id == id);
        }
    }
    assert forall|id: u32| id_not_er(b, id) implies #[trigger] id_not_er(a, id) by {
        assert forall|i: int| 0 <= i < a.len() && (#[trigger] a[i]).id == id implies a[i].weapon_type
            != WeaponType::ExtendedRange by {
            assert(b[i].id == id);
        }
    }
    assert forall|q: Seq<u32>| queue_eligible(b, q) implies #[trigger] queue_eligible(a, q) by {
        assert forall|t: int| 0 <= t < q.len() implies id_eligible(a, #[trigger] q[t]) by {
            assert(id_eligible(b, q[t]));
        }
    }
    assert forall|chans: Seq<Illuminator>| serves_no_er(b, chans) implies #[trigger] serves_no_er(
        a,
        chans,
    ) by {
        assert forall|j: int|
            0 <= j < chans.len() && (#[trigger] chans[j]).assigned_engagement.is_some() implies id_not_er(
            a,
            chans[j].assigned_engagement.unwrap(),
        ) by {
            assert(id_not_er(b, chans[j].assigned_engagement.unwrap()));
        }
    }
}

proof fn lemma_set_channel_core(engs: Seq<Engagement>, id: u32, c: Option<u8>)
    ensures
        same_core(set_engagement_channel_spec(engs, id, c), engs),
{
}

/// Setting the channel of an eligible id keeps holders eligible and no
/// extended range holder.
proof fn lemma_set_channel_holders(engs: Seq<Engagement>, id: u32, c: Option<u8>)
    requires
        c.is_some() ==> id_eligible(engs, id),
    ensures
        holders_eligible(engs) ==> holders_eligible(set_engagement_channel_spec(engs, id, c)),
        no_er_holder(engs) ==> no_er_holder(set_engagement_channel_spec(engs, id, c)),
{
    let r = set_engagement_channel_spec(engs, id, c);
    if holders_eligible(engs) {
        assert forall|i: int| 0 <= i < r.len() && (#[trigger] r[i]).illuminator_channel.is_some() implies eligible(
            r[i],
        ) by {
            if engs[i].id == id {
                assert(id_eligible(engs, id));
            }
        }
    }
    if no_er_holder(engs) {
        assert forall|i: int| 0 <= i < r.len() && (#[trigger] r[i]).illuminator_channel.is_some() implies r[i].weapon_type
            != WeaponType::ExtendedRange by {
            if engs[i].id == id {
                assert(id_eligible(engs, id));
            }
        }
    }
}

/// The release step leaves only in-flight holders.
proof fn lemma_release_invariant(st: SchedulerState)
    requires
        scheduler_invariant(st),
    ensures
        ({
            let engs1 = release_engagements_spec(st.engs);
            let chans1 = release_channels_spec(st.engs, st.chans);
            &&& same_core(engs1, st.engs)
            &&& scheduler_invariant(SchedulerState { engs: engs1, chans: chans1, queue: st.queue })
            &&& holders_eligible(engs1)
            &&& chans1.len() == st.chans.len()
        }),
{
    let engs1 = release_engagements_spec(st.engs);
    let chans1 = release_channels_spec(st.engs, st.chans);
    assert(same_core(engs1, st.engs));
    lemma_same_core_transfer(engs1, st.engs);
    assert forall|j: int|
        0 <= j < chans1.len() && (#[trigger] chans1[j]).assigned_engagement.is_some() implies id_not_er(
        engs1,
        chans1[j].assigned_engagement.unwrap(),
    ) by {
        assert(st.chans[j].assigned_engagement.is_some());
        assert(id_not_er(st.engs, st.chans[j].assigned_engagement.unwrap()));
    }
    assert forall|i: int|
        0 <= i < engs1.len() && (#[trigger] engs1[i]).illuminator_channel.is_some() implies eligible(
        engs1[i],
    ) by {
        assert(st.engs[i].illuminator_channel.is_some());
    }
}

proof fn lemma_retain_waiting_eligible(q: Seq<u32>, engs: Seq<Engagement>)
    requires
        ids_distinct(engs),
    ensures
        queue_eligible(engs, retain_waiting(q, engs)),
    decreases q.len(),
{
    if q.len() > 0 {
        lemma_retain_waiting_eligible(q.drop_last(), engs);
        let rest = retain_waiting(q.drop_last(), engs);
        if still_waiting(engs, q.last()) {
            let k = choose|k: int|
                0 <= k < engs.len() && (#[trigger] engs[k]).id == q.last() && waiting_engagement(
                    engs[k],
                );
            assert forall|i: int| 0 <= i < engs.len() && (#[trigger] engs[i]).id == q.last() implies eligible(
                engs[i],
            ) by {
                assert(i == k);
            }
            let r = rest.push(q.last());
            assert forall|t: int| 0 <= t < r.len() implies id_eligible(engs, #[trigger] r[t]) by {
                if t < rest.len() {
                    assert(id_eligible(engs, rest[t]));
                }
            }
        }
    }
}

proof fn lemma_add_requests_eligible(
    q: Seq<u32>,
    engs: Seq<Engagement>,
    obs: Seq<FlightObservation>,
    k: nat,
)
    requires
        ids_distinct(engs),
        queue_eligible(engs, q),
        k <= engs.len(),
        obs.len() == engs.len(),
    ensures
        queue_eligible(engs, add_requests(q, engs, obs, k)),
    decreases k,
{
    if k > 0 {
        lemma_add_requests_eligible(q, engs, obs, (k - 1) as nat);
        let q1 = add_requests(q, engs, obs, (k - 1) as nat);
        let e = engs[k - 1];
        if requests_illumination(e, obs[k - 1]) && !q1.contains(e.id) {
            assert forall|i: int| 0 <= i < engs.len() && (#[trigger] engs[i]).id == e.id implies eligible(
                engs[i],
            ) by {
                assert(i == k - 1);
            }
            let r = q1.push(e.id);
            assert forall|t: int| 0 <= t < r.len() implies id_eligible(engs, #[trigger] r[t]) by {
                if t < q1.len() {
                    assert(id_eligible(engs, q1[t]));
                }
            }
        }
    }
}

proof fn lemma_identify_eligible(engs: Seq<Engagement>, obs: Seq<FlightObservation>, q: Seq<u32>)
    requires
        ids_distinct(engs),
        obs.len() == engs.len(),
    ensures
        queue_eligible(engs, identify_spec(engs, obs, q)),
{
    lemma_retain_waiting_eligible(q, engs);
    lemma_add_requests_eligible(retain_waiting(q, engs), engs, obs, engs.len());
    let pre = add_requests(retain_waiting(q, engs), engs, obs, engs.len());
    let keys = |id: u32| urgency_key(engs, obs, id);
    let pairs = Seq::new(pre.len(), |p: int| (keys(pre[p]), p as u64));
    lemma_pair_order_total();
    pairs.lemma_sort_by_ensures(pair_order());
    let sorted = pairs.sort_by(pair_order());
    let r = identify_spec(engs, obs, q);
    assert forall|t: int| 0 <= t < r.len() implies id_eligible(engs, #[trigger] r[t]) by {
        assert(sorted.contains(sorted[t]));
        assert(pairs.contains(sorted[t]));
        let p = choose|p: int| 0 <= p < pairs.len() && pairs[p] == sorted[t];
        assert(id_eligible(engs, pre[p]));
    }
}

proof fn lemma_assign_engagements_invariant(engs: Seq<Engagement>, pairs: Seq<(u32, u8)>)
    requires
        forall|t: int| 0 <= t < pairs.len() ==> id_eligible(engs, (#[trigger] pairs[t]).0),
    ensures
        same_core(assign_engagements(engs, pairs), engs),
        holders_eligible(engs) ==> holders_eligible(assign_engagements(engs, pairs)),
        no_er_holder(engs) ==> no_er_holder(assign_engagements(engs, pairs)),
    decreases pairs.len(),
{
    if pairs.len() > 0 {
        let init = pairs.drop_last();
        assert forall|t: int| 0 <= t < init.len() implies id_eligible(engs, (#[trigger] init[t]).0) by {
            assert(init[t] == pairs[t]);
        }
        lemma_assign_engagements_invariant(engs, init);
        let prev = assign_engagements(engs, init);
        lemma_same_core_transfer(prev, engs);
        assert(id_eligible(engs, pairs[pairs.len() - 1].0));
        assert(id_eligible(prev, pairs.last().0));
        lemma_set_channel_holders(prev, pairs.last().0, Some(pairs.last().1));
        lemma_set_channel_core(prev, pairs.last().0, Some(pairs.last().1));
    }
}

proof fn lemma_assign_channels_invariant(
    engs: Seq<Engagement>,
    chans: Seq<Illuminator>,
    pairs: Seq<(u32, u8)>,
)
    requires
        forall|t: int| 0 <= t < pairs.len() ==> id_eligible(engs, (#[trigger] pairs[t]).0),
        serves_no_er(engs, chans),
    ensures
        serves_no_er(engs, assign_channels(chans, pairs)),
        assign_channels(chans, pairs).len() == chans.len(),
    decreases pairs.len(),
{
    if pairs.len() > 0 {
        let init = pairs.drop_last();
        assert forall|t: int| 0 <= t < init.len() implies id_eligible(engs, (#[trigger] init[t]).0) by {
            assert(init[t] == pairs[t]);
        }
        lemma_assign_channels_invariant(engs, chans, init);
        let prev = assign_channels(chans, init);
        let r = assign_channels(chans, pairs);
        assert(id_eligible(engs, pairs[pairs.len() - 1].0));
        assert forall|j: int|
            0 <= j < r.len() && (#[trigger] r[j]).assigned_engagement.is_some() implies id_not_er(
            engs,
            r[j].assigned_engagement.unwrap(),
        ) by {
            if prev[j].channel_id != pairs.last().1 {
                assert(prev[j] == r[j]);
            }
        }
    }
}

proof fn lemma_assign_invariant(st: SchedulerState)
    requires
        scheduler_invariant(st),
        holders_eligible(st.engs),
        queue_eligible(st.engs, st.queue),
    ensures
        ({
            let r = assign_spec(st);
            &&& scheduler_invariant(r)
            &&& holders_eligible(r.engs)
            &&& queue_eligible(r.engs, r.queue)
            &&& same_core(r.engs, st.engs)
            &&& r.chans.len() == st.chans.len()
        }),
{
    let pairs = assignment_pairs(st.chans, st.queue);
    let k = assignment_count(st.chans, st.queue);
    assert forall|t: int| 0 <= t < pairs.len() implies id_eligible(st.engs, (#[trigger] pairs[t]).0) by {
        assert(id_eligible(st.engs, st.queue[t]));
    }
    lemma_assign_engagements_invariant(st.engs, pairs);
    lemma_assign_channels_invariant(st.engs, st.chans, pairs);
    let r = assign_spec(st);
    lemma_same_core_transfer(r.engs, st.engs);
    assert forall|t: int| 0 <= t < r.queue.len() implies id_eligible(st.engs, #[trigger] r.queue[t]) by {
        assert(r.queue[t] == st.queue[t + k]);
    }
}

/// Invariant of the rotations: the scheduler invariant, eligible holders
/// and queue, and the expired channels' old engagements not extended range.
pub open spec fn rotation_invariant(st: SchedulerState, expired: Seq<(u8, u32)>) -> bool {
    &&& scheduler_invariant(st)
    &&& holders_eligible(st.engs)
    &&& queue_eligible(st.engs, st.queue)
    &&& forall|t: int| 0 <= t < expired.len() ==> id_not_er(st.engs, (#[trigger] expired[t]).1)
}

proof fn lemma_rotate_invariant(st: SchedulerState, c: u8, old_id: u32, dwell: u64)
    requires
        scheduler_invariant(st),
        holders_eligible(st.engs),
        queue_eligible(st.engs, st.queue),
        id_not_er(st.engs, old_id),
    ensures
        ({
            let r = rotate(st, c, old_id, dwell);
            &&& scheduler_invariant(r)
            &&& holders_eligible(r.engs)
            &&& queue_eligible(r.engs, r.queue)
            &&& same_core(r.engs, st.engs)
            &&& r.chans.len() == st.chans.len()
        }),
{
    let engs1 = set_engagement_channel_spec(st.engs, old_id, None);
    lemma_set_channel_core(st.engs, old_id, None);
    lemma_set_channel_holders(st.engs, old_id, None);
    lemma_same_core_transfer(engs1, st.engs);
    let q1 = if may_requeue(st.engs, old_id) {
        st.queue.push(old_id)
    } else {
        st.queue
    };
    if may_requeue(st.engs, old_id) {
        let k = choose|k: int|
            0 <= k < st.engs.len() && (#[trigger] st.engs[k]).id == old_id && !is_finished_phase(
                st.engs[k].phase,
            ) && st.engs[k].has_interceptor;
        assert forall|i: int| 0 <= i < st.engs.len() && (#[trigger] st.engs[i]).id == old_id implies eligible(
            st.engs[i],
        ) by {
            assert(i == k);
        }
    }
    assert forall|t: int| 0 <= t < q1.len() implies id_eligible(st.engs, #[trigger] q1[t]) by {
        if t < st.queue.len() {
            assert(q1[t] == st.queue[t]);
        }
    }
    if q1.len() > 0 {
        let next = q1[0];
        assert(id_eligible(st.engs, next));
        assert(id_eligible(engs1, next));
        let engs2 = set_engagement_channel_spec(engs1, next, Some(c));
        lemma_set_channel_core(engs1, next, Some(c));
        lemma_set_channel_holders(engs1, next, Some(c));
        lemma_same_core_transfer(engs2, engs1);
        lemma_same_core_transfer(engs2, st.engs);
        let chans2 = retarget_spec(st.chans, c, next, dwell);
        assert forall|j: int|
            0 <= j < chans2.len() && (#[trigger] chans2[j]).assigned_engagement.is_some() implies id_not_er(
            engs2,
            chans2[j].assigned_engagement.unwrap(),
        ) by {
            if st.chans[j].channel_id != c {
                assert(id_not_er(st.engs, st.chans[j].assigned_engagement.unwrap()));
            }
        }
        let q2 = q1.drop_first();
        assert forall|t: int| 0 <= t < q2.len() implies id_eligible(engs2, #[trigger] q2[t]) by {
            assert(q2[t] == q1[t + 1]);
            assert(id_eligible(st.engs, q1[t + 1]));
        }
        assert(same_core(engs2, st.engs));
    } else {
        assert(same_core(engs1, st.engs));
    }
}

proof fn lemma_rotate_all_invariant(st: SchedulerState, expired: Seq<(u8, u32)>, dwell: u64)
    requires
        rotation_invariant(st, expired),
    ensures
        ({
            let r = rotate_all(st, expired, dwell);
            &&& scheduler_invariant(r)
            &&& holders_eligible(r.engs)
            &&& queue_eligible(r.engs, r.queue)
            &&& same_core(r.engs, st.engs)
            &&& r.chans.len() == st.chans.len()
        }),
    decreases expired.len(),
{
    if expired.len() > 0 {
        let init = expired.drop_last();
        assert forall|t: int| 0 <= t < init.len() implies id_not_er(st.engs, (#[trigger] init[t]).1) by {
            assert(init[t] == expired[t]);
        }
        lemma_rotate_all_invariant(st, init, dwell);
        let prev = rotate_all(st, init, dwell);
        lemma_same_core_transfer(prev.engs, st.engs);
        assert(id_not_er(st.engs, expired[expired.len() - 1].1));
        lemma_rotate_invariant(prev, expired.last().0, expired.last().1, dwell);
        let r = rotate(prev, expired.last().0, expired.last().1, dwell);
        lemma_same_core_transfer(r.engs, prev.engs);
        assert forall|i: int| 0 <= i < r.engs.len() implies (#[trigger] r.engs[i]).id == st.engs[i].id
            && r.engs[i].phase == st.engs[i].phase && r.engs[i].has_interceptor
            == st.engs[i].has_interceptor && r.engs[i].weapon_type == st.engs[i].weapon_type by {
            assert(prev.engs[i].id == st.engs[i].id);
        }
    }
}

proof fn lemma_expired_not_er(engs: Seq<Engagement>, chans: Seq<Illuminator>)
    requires
        serves_no_er(engs, chans),
    ensures
        forall|t: int|
            0 <= t < expired_of(chans).len() ==> id_not_er(engs, (#[trigger] expired_of(chans)[t]).1),
    decreases chans.len(),
{
    if chans.len() > 0 {
        let init = chans.drop_last();
        assert forall|j: int|
            0 <= j < init.len() && (#[trigger] init[j]).assigned_engagement.is_some() implies id_not_er(
            engs,
            init[j].assigned_engagement.unwrap(),
        ) by {
            assert(init[j] == chans[j]);
        }
        lemma_expired_not_er(engs, init);
        let rest = expired_of(init);
        let x = expired_of(chans);
        assert forall|t: int| 0 <= t < x.len() implies id_not_er(engs, (#[trigger] x[t]).1) by {
            if t < rest.len() {
                assert(x[t] == rest[t]);
            } else {
                assert(chans[chans.len() - 1].assigned_engagement.is_some());
            }
        }
    }
}

proof fn lemma_timeshare_invariant(st: SchedulerState)
    requires
        scheduler_invariant(st),
        holders_eligible(st.engs),
        queue_eligible(st.engs, st.queue),
    ensures
        ({
            let r = timeshare_spec(st);
            &&& scheduler_invariant(r)
            &&& holders_eligible(r.engs)
            &&& same_core(r.engs, st.engs)
            &&& r.chans.len() == st.chans.len()
        }),
{
    if st.queue.len() == 0 {
        let r = timeshare_spec(st);
        assert forall|j: int|
            0 <= j < r.chans.len() && (#[trigger] r.chans[j]).assigned_engagement.is_some() implies id_not_er(
            r.engs,
            r.chans[j].assigned_engagement.unwrap(),
        ) by {
            assert(st.chans[j].assigned_engagement.is_some());
        }
        assert(same_core(r.engs, st.engs));
    } else if busy_count(st.chans) == 0 {
        assert(same_core(st.engs, st.engs));
    } else {
        let ticked_chans = st.chans.map_values(|ch: Illuminator| ticked(ch));
        let st1 = SchedulerState { chans: ticked_chans, ..st };
        assert forall|j: int|
            0 <= j < ticked_chans.len() && (#[trigger] ticked_chans[j]).assigned_engagement.is_some() implies id_not_er(
            st.engs,
            ticked_chans[j].assigned_engagement.unwrap(),
        ) by {
            assert(st.chans[j].assigned_engagement.is_some());
        }
        lemma_expired_not_er(st.engs, st.chans);
        lemma_rotate_all_invariant(
            st1,
            expired_of(st.chans),
            shared_dwell((busy_count(st.chans) + st.queue.len()) as int) as u64,
        );
    }
}

/// One tick of the illuminator scheduler keeps its invariant (distinct
/// engagement ids; no extended range engagement holds or is served by a
/// channel), keeps the number of channels, and afterwards every engagement
/// holding a channel is in flight: not complete or aborted, with its
/// interceptor, and semi-active.
pub proof fn lemma_scheduler_tick_invariant(st: SchedulerState, obs: Seq<FlightObservation>)
    requires
        scheduler_invariant(st),
        obs.len() == st.engs.len(),
    ensures
        ({
            let r = scheduler_spec(st, obs);
            &&& scheduler_invariant(r)
            &&& holders_eligible(r.engs)
            &&& r.chans.len() == st.chans.len()
            &&& same_core(r.engs, st.engs)
        }),
{
    lemma_release_invariant(st);
    let engs1 = release_engagements_spec(st.engs);
    let chans1 = release_channels_spec(st.engs, st.chans);
    lemma_same_core_transfer(engs1, st.engs);
    let q1 = identify_spec(engs1, obs, st.queue);
    lemma_identify_eligible(engs1, obs, st.queue);
    let st2 = SchedulerState { engs: engs1, chans: chans1, queue: q1 };
    lemma_assign_invariant(st2);
    let st3 = assign_spec(st2);
    lemma_timeshare_invariant(st3);
    let r = timeshare_spec(st3);
    lemma_same_core_transfer(r.engs, st3.engs);
    lemma_same_core_transfer(st3.engs, engs1);
    assert forall|i: int| 0 <= i < r.engs.len() implies (#[trigger] r.engs[i]).id == st.engs[i].id
        && r.engs[i].phase == st.engs[i].phase && r.engs[i].has_interceptor
        == st.engs[i].has_interceptor && r.engs[i].weapon_type == st.engs[i].weapon_type by {
        assert(st3.engs[i].id == engs1[i].id);
    }
}

/// Channels are consistent: a channel serves an engagement exactly when it
/// is not idle.
pub open spec fn channels_consistent(chans: Seq<Illuminator>) -> bool {
    forall|j: int|
        0 <= j < chans.len() ==> ((#[trigger] chans[j]).status == IlluminatorStatus::Idle
            <==> chans[j].assigned_engagement.is_none())
}

/// Once the engagement table is empty, one tick of the scheduler leaves
/// every channel idle and nobody waiting.
pub proof fn lemma_empty_table_frees_all_channels(
    chans: Seq<Illuminator>,
    queue: Seq<u32>,
    obs: Seq<FlightObservation>,
)
    requires
        channels_consistent(chans),
        obs.len() == 0,
    ensures
        ({
            let r = scheduler_spec(
                SchedulerState { engs: Seq::empty(), chans, queue },
                obs,
            );
            &&& r.queue.len() == 0
            &&& r.chans.len() == chans.len()
            &&& forall|j: int|
                0 <= j < r.chans.len() ==> (#[trigger] r.chans[j]).status == IlluminatorStatus::Idle
                    && r.chans[j].assigned_engagement.is_none()
        }),
{
    let engs = Seq::<Engagement>::empty();
    let engs1 = release_engagements_spec(engs);
    let chans1 = release_channels_spec(engs, chans);
    assert(engs1 =~= engs);
    assert forall|j: int| 0 <= j < chans1.len() implies (#[trigger] chans1[j]).status
        == IlluminatorStatus::Idle && chans1[j].assigned_engagement.is_none() by {
        if chans[j].assigned_engagement.is_some() {
            assert(!has_engagement(engs, chans[j].assigned_engagement.unwrap()));
            assert(releases_channel(engs, chans, chans[j].channel_id));
        }
    }
    lemma_retain_waiting_empty_table(queue);
    let pre = add_requests(retain_waiting(queue, engs1), engs1, obs, 0);
    assert(pre.len() == 0);
    let keys = |id: u32| urgency_key(engs1, obs, id);
    let pairs = Seq::new(pre.len(), |p: int| (keys(pre[p]), p as u64));
    lemma_pair_order_total();
    pairs.lemma_sort_by_ensures(pair_order());
    vstd::seq_lib::to_multiset_len(pairs.sort_by(pair_order()));
    vstd::seq_lib::to_multiset_len(pairs);
    let q1 = identify_spec(engs1, obs, queue);
    assert(q1.len() == 0);
    let st2 = SchedulerState { engs: engs1, chans: chans1, queue: q1 };
    let st3 = assign_spec(st2);
    assert(assignment_pairs(chans1, q1) =~= Seq::<(u32, u8)>::empty());
    assert(st3.chans == chans1);
    assert(st3.queue =~= q1);
    let r = timeshare_spec(st3);
    assert forall|j: int| 0 <= j < r.chans.len() implies (#[trigger] r.chans[j]).status
        == IlluminatorStatus::Idle && r.chans[j].assigned_engagement.is_none() by {
        assert(chans1[j].status == IlluminatorStatus::Idle);
    }
}

proof fn lemma_retain_waiting_empty_table(q: Seq<u32>)
    ensures
        retain_waiting(q, Seq::<Engagement>::empty()).len() == 0,
    decreases q.len(),
{
    if q.len() > 0 {
        lemma_retain_waiting_empty_table(q.drop_last());
    }
}

// ---------------------------------------------------------------------------
// A channel serves one engagement at a time
// ---------------------------------------------------------------------------

/// Channel ids are distinct.
pub open spec fn channel_ids_distinct(chans: Seq<Illuminator>) -> bool {
    forall|j: int, k: int|
        0 <= j < chans.len() && 0 <= k < chans.len() && j != k ==> (#[trigger] chans[j]).channel_id
            != (#[trigger] chans[k]).channel_id
}

/// A channel with id `c` serves engagement `id`.
pub open spec fn serves(chans: Seq<Illuminator>, c: u8, id: u32) -> bool {
    exists|j: int|
        0 <= j < chans.len() && (#[trigger] chans[j]).channel_id == c && chans[j].assigned_engagement
            == Some(id)
}

/// Every engagement holding a channel is served by that channel.
pub open spec fn links_hold(engs: Seq<Engagement>, chans: Seq<Illuminator>) -> bool {
    forall|i: int|
        0 <= i < engs.len() && (#[trigger] engs[i]).illuminator_channel.is_some() ==> serves(
            chans,
            engs[i].illuminator_channel.unwrap(),
            engs[i].id,
        )
}

/// The link invariant: distinct engagement and channel ids, channels idle
/// exactly when unassigned, and every holder served by its channel.
pub open spec fn link_invariant(st: SchedulerState) -> bool {
    &&& ids_distinct(st.engs)
    &&& channel_ids_distinct(st.chans)
    &&& channels_consistent(st.chans)
    &&& links_hold(st.engs, st.chans)
}

/// Under the link invariant no two engagements hold the same channel: a
/// channel serves one engagement at a time.
pub proof fn lemma_channel_serves_one_engagement(st: SchedulerState)
    requires
        link_invariant(st),
    ensures
        forall|i: int, k: int|
            0 <= i < st.engs.len() && 0 <= k < st.engs.len() && i != k
                && (#[trigger] st.engs[i]).illuminator_channel.is_some() ==> st.engs[i].illuminator_channel
                != (#[trigger] st.engs[k]).illuminator_channel,
{
    assert forall|i: int, k: int|
        0 <= i < st.engs.len() && 0 <= k < st.engs.len() && i != k
            && (#[trigger] st.engs[i]).illuminator_channel.is_some() implies st.engs[i].illuminator_channel
        != (#[trigger] st.engs[k]).illuminator_channel by {
        if st.engs[i].illuminator_channel == st.engs[k].illuminator_channel {
            let c = st.engs[i].illuminator_channel.unwrap();
            assert(serves(st.chans, c, st.engs[i].id));
            assert(serves(st.chans, c, st.engs[k].id));
            let j1 = choose|j: int|
                0 <= j < st.chans.len() && (#[trigger] st.chans[j]).channel_id == c
                    && st.chans[j].assigned_engagement == Some(st.engs[i].id);
            let j2 = choose|j: int|
                0 <= j < st.chans.len() && (#[trigger] st.chans[j]).channel_id == c
                    && st.chans[j].assigned_engagement == Some(st.engs[k].id);
            assert(j1 == j2);
        }
    }
}

proof fn lemma_release_links(st: SchedulerState)
    requires
        link_invariant(st),
    ensures
        link_invariant(
            SchedulerState {
                engs: release_engagements_spec(st.engs),
                chans: release_channels_spec(st.engs, st.chans),
                queue: st.queue,
            },
        ),
{
    let engs1 = release_engagements_spec(st.engs);
    let chans1 = release_channels_spec(st.engs, st.chans);
    assert(same_core(engs1, st.engs));
    lemma_same_core_transfer(engs1, st.engs);
    assert forall|j: int, k: int|
        0 <= j < chans1.len() && 0 <= k < chans1.len() && j != k implies (#[trigger] chans1[j]).channel_id
        != (#[trigger] chans1[k]).channel_id by {
        assert(st.chans[j].channel_id != st.chans[k].channel_id);
    }
    assert forall|j: int| 0 <= j < chans1.len() implies ((#[trigger] chans1[j]).status
        == IlluminatorStatus::Idle <==> chans1[j].assigned_engagement.is_none()) by {
        assert(st.chans[j].status == IlluminatorStatus::Idle <==> st.chans[j].assigned_engagement.is_none());
    }
    assert forall|i: int|
        0 <= i < engs1.len() && (#[trigger] engs1[i]).illuminator_channel.is_some() implies serves(
        chans1,
        engs1[i].illuminator_channel.unwrap(),
        engs1[i].id,
    ) by {
        let e = st.engs[i];
        let c = e.illuminator_channel.unwrap();
        assert(e.illuminator_channel.is_some() && !should_release(e));
        assert(serves(st.chans, c, e.id));
        let j = choose|j: int|
            0 <= j < st.chans.len() && (#[trigger] st.chans[j]).channel_id == c
                && st.chans[j].assigned_engagement == Some(e.id);
        if releases_channel(st.engs, st.chans, c) {
            if exists|k: int|
                0 <= k < st.engs.len() && (#[trigger] st.engs[k]).illuminator_channel == Some(c)
                    && should_release(st.engs[k]) {
                let k = choose|k: int|
                    0 <= k < st.engs.len() && (#[trigger] st.engs[k]).illuminator_channel == Some(c)
                        && should_release(st.engs[k]);
                assert(serves(st.chans, c, st.engs[k].id));
                let j2 = choose|j2: int|
                    0 <= j2 < st.chans.len() && (#[trigger] st.chans[j2]).channel_id == c
                        && st.chans[j2].assigned_engagement == Some(st.engs[k].id);
                assert(j2 == j);
                assert(k == i);
            } else {
                let j3 = choose|j3: int|
                    0 <= j3 < st.chans.len() && (#[trigger] st.chans[j3]).channel_id == c && match st.chans[j3].assigned_engagement {
                        Some(x) => !has_engagement(st.engs, x),
                        None => false,
                    };
                assert(j3 == j);
                assert(has_engagement(st.engs, e.id));
            }
        }
        assert(chans1[j] == st.chans[j]);
    }
}

proof fn lemma_idle_ids_facts(chans: Seq<Illuminator>)
    requires
        channel_ids_distinct(chans),
    ensures
        idle_ids(chans).no_duplicates(),
        idle_ids(chans).len() <= chans.len(),
        forall|p: int|
            #![trigger idle_ids(chans)[p]]
            0 <= p < idle_ids(chans).len() ==> exists|j: int|
                0 <= j < chans.len() && (#[trigger] chans[j]).channel_id == idle_ids(chans)[p]
                    && chans[j].status == IlluminatorStatus::Idle,
    decreases chans.len(),
{
    if chans.len() > 0 {
        let init = chans.drop_last();
        assert forall|j: int, k: int|
            0 <= j < init.len() && 0 <= k < init.len() && j != k implies (#[trigger] init[j]).channel_id
            != (#[trigger] init[k]).channel_id by {
            assert(chans[j].channel_id != chans[k].channel_id);
        }
        lemma_idle_ids_facts(init);
        let rest = idle_ids(init);
        let ids = idle_ids(chans);
        assert forall|p: int| #![trigger ids[p]] 0 <= p < ids.len() implies exists|j: int|
            0 <= j < chans.len() && (#[trigger] chans[j]).channel_id == ids[p] && chans[j].status
                == IlluminatorStatus::Idle by {
            if p < rest.len() {
                let j = choose|j: int|
                    0 <= j < init.len() && (#[trigger] init[j]).channel_id == rest[p] && init[j].status
                        == IlluminatorStatus::Idle;
                assert(chans[j] == init[j]);
            } else {
                assert(chans[chans.len() - 1].channel_id == ids[p]);
            }
        }
        if chans.last().status == IlluminatorStatus::Idle {
            assert forall|a: int, b: int|
                (0 <= a < ids.len() && 0 <= b < ids.len() && a != b) implies ids[a] != ids[b] by {
                if a < rest.len() && b < rest.len() {
                } else if a < rest.len() {
                    let j = choose|j: int|
                        0 <= j < init.len() && (#[trigger] init[j]).channel_id == rest[a]
                            && init[j].status == IlluminatorStatus::Idle;
                    assert(chans[j].channel_id != chans[chans.len() - 1].channel_id);
                } else if b < rest.len() {
                    let j = choose|j: int|
                        0 <= j < init.len() && (#[trigger] init[j]).channel_id == rest[b]
                            && init[j].status == IlluminatorStatus::Idle;
                    assert(chans[j].channel_id != chans[chans.len() - 1].channel_id);
                }
            }
        }
    }
}

proof fn lemma_ascending_facts(ids: Seq<u8>)
    requires
        ids.no_duplicates(),
        ids.len() <= u64::MAX,
    ensures
        ascending_ids(ids).no_duplicates(),
        ascending_ids(ids).len() == ids.len(),
        forall|t: int|
            0 <= t < ascending_ids(ids).len() ==> ids.contains(#[trigger] ascending_ids(ids)[t]),
{
    let pairs = Seq::new(ids.len(), |p: int| (ids[p] as u64, p as u64));
    lemma_pair_order_total();
    pairs.lemma_sort_by_ensures(pair_order());
    let sorted = pairs.sort_by(pair_order());
    assert(pairs.no_duplicates());
    pairs.lemma_multiset_has_no_duplicates();
    sorted.lemma_multiset_has_no_duplicates_conv();
    let order = ascending_ids(ids);
    assert forall|t: int| #![trigger sorted[t]] 0 <= t < sorted.len() implies exists|p: int|
        0 <= p < pairs.len() && #[trigger] pairs[p] == sorted[t] by {
        assert(sorted.contains(sorted[t]));
        assert(pairs.contains(sorted[t]));
    }
    vstd::seq_lib::to_multiset_len(sorted);
    vstd::seq_lib::to_multiset_len(pairs);
    assert forall|t: int| 0 <= t < order.len() implies ids.contains(#[trigger] order[t]) by {
        let p = choose|p: int| 0 <= p < pairs.len() && #[trigger] pairs[p] == sorted[t];
        assert(order[t] == ids[p]);
    }
    assert forall|a: int, b: int|
        (0 <= a < order.len() && 0 <= b < order.len() && a != b) implies order[a] != order[b] by {
        let pa = choose|p: int| 0 <= p < pairs.len() && #[trigger] pairs[p] == sorted[a];
        let pb = choose|p: int| 0 <= p < pairs.len() && #[trigger] pairs[p] == sorted[b];
        assert(sorted[a] != sorted[b]);
        assert(pa != pb);
        assert(order[a] == ids[pa]);
        assert(order[b] == ids[pb]);
    }
}

/// Nobody holds an idle channel.
proof fn lemma_idle_channel_unheld(engs: Seq<Engagement>, chans: Seq<Illuminator>, c: u8)
    requires
        channel_ids_distinct(chans),
        channels_consistent(chans),
        links_hold(engs, chans),
        exists|j: int|
            0 <= j < chans.len() && (#[trigger] chans[j]).channel_id == c && chans[j].status
                == IlluminatorStatus::Idle,
    ensures
        forall|i: int| 0 <= i < engs.len() ==> (#[trigger] engs[i]).illuminator_channel != Some(c),
{
    let j = choose|j: int|
        0 <= j < chans.len() && (#[trigger] chans[j]).channel_id == c && chans[j].status
            == IlluminatorStatus::Idle;
    assert forall|i: int| 0 <= i < engs.len() implies (#[trigger] engs[i]).illuminator_channel
        != Some(c) by {
        if engs[i].illuminator_channel == Some(c) {
            assert(serves(chans, c, engs[i].id));
            let j2 = choose|j2: int|
                0 <= j2 < chans.len() && (#[trigger] chans[j2]).channel_id == c
                    && chans[j2].assigned_engagement == Some(engs[i].id);
            assert(j2 == j);
        }
    }
}

proof fn lemma_assign_channels_len(chans: Seq<Illuminator>, pairs: Seq<(u32, u8)>)
    ensures
        assign_channels(chans, pairs).len() == chans.len(),
        forall|j: int|
            0 <= j < chans.len() ==> (#[trigger] assign_channels(chans, pairs)[j]).channel_id
                == chans[j].channel_id,
    decreases pairs.len(),
{
    if pairs.len() > 0 {
        lemma_assign_channels_len(chans, pairs.drop_last());
    }
}

proof fn lemma_assign_pairs_links(
    engs: Seq<Engagement>,
    chans: Seq<Illuminator>,
    pairs: Seq<(u32, u8)>,
)
    requires
        link_invariant(SchedulerState { engs, chans, queue: Seq::empty() }),
        forall|a: int, b: int|
            0 <= a < pairs.len() && 0 <= b < pairs.len() && a != b ==> (#[trigger] pairs[a]).1 != (
            #[trigger] pairs[b]).1,
        forall|t: int|
            0 <= t < pairs.len() ==> exists|j: int|
                0 <= j < chans.len() && (#[trigger] chans[j]).channel_id == (#[trigger] pairs[t]).1
                    && chans[j].status == IlluminatorStatus::Idle,
    ensures
        link_invariant(
            SchedulerState {
                engs: assign_engagements(engs, pairs),
                chans: assign_channels(chans, pairs),
                queue: Seq::empty(),
            },
        ),
        forall|j: int|
            0 <= j < chans.len() && (forall|t: int|
                0 <= t < pairs.len() ==> (#[trigger] pairs[t]).1 != chans[j].channel_id) ==> (
            #[trigger] assign_channels(chans, pairs)[j]) == chans[j],
    decreases pairs.len(),
{
    lemma_assign_channels_len(chans, pairs);
    if pairs.len() > 0 {
        let init = pairs.drop_last();
        let last = pairs.last();
        assert forall|a: int, b: int|
            0 <= a < init.len() && 0 <= b < init.len() && a != b implies (#[trigger] init[a]).1 != (
            #[trigger] init[b]).1 by {
            assert(pairs[a].1 != pairs[b].1);
        }
        assert forall|t: int| 0 <= t < init.len() implies exists|j: int|
            0 <= j < chans.len() && (#[trigger] chans[j]).channel_id == (#[trigger] init[t]).1
                && chans[j].status == IlluminatorStatus::Idle by {
            assert(init[t] == pairs[t]);
        }
        lemma_assign_pairs_links(engs, chans, init);
        let pe = assign_engagements(engs, init);
        let pc = assign_channels(chans, init);
        lemma_assign_keeps_ids(engs, init);
        let c = last.1;
        let id = last.0;
        // The last pair's channel is still idle.
        assert(exists|j: int|
            0 <= j < chans.len() && (#[trigger] chans[j]).channel_id == (#[trigger] pairs[pairs.len()
                - 1]).1 && chans[j].status == IlluminatorStatus::Idle);
        let j0 = choose|j: int|
            0 <= j < chans.len() && (#[trigger] chans[j]).channel_id == c && chans[j].status
                == IlluminatorStatus::Idle;
        assert forall|t: int| 0 <= t < init.len() implies (#[trigger] init[t]).1 != chans[j0].channel_id by {
            assert(pairs[t].1 != pairs[pairs.len() - 1].1);
        }
        assert(pc[j0] == chans[j0]);
        assert(pc[j0].channel_id == c && pc[j0].status == IlluminatorStatus::Idle);
        lemma_idle_channel_unheld(pe, pc, c);
        let ne = set_engagement_channel_spec(pe, id, Some(c));
        let nc = set_channel_service_spec(pc, c, IlluminatorStatus::Active, id, ILLUMINATOR_DWELL_TICKS);
        assert(same_ids(ne, pe));
        assert forall|i: int|
            0 <= i < ne.len() && (#[trigger] ne[i]).illuminator_channel.is_some() implies serves(
            nc,
            ne[i].illuminator_channel.unwrap(),
            ne[i].id,
        ) by {
            if pe[i].id == id {
                assert(nc[j0].channel_id == c && nc[j0].assigned_engagement == Some(id));
            } else {
                let c2 = pe[i].illuminator_channel.unwrap();
                assert(c2 != c);
                let j = choose|j: int|
                    0 <= j < pc.len() && (#[trigger] pc[j]).channel_id == c2
                        && pc[j].assigned_engagement == Some(pe[i].id);
                assert(nc[j] == pc[j]);
            }
        }
        assert(ids_distinct(ne)) by {
            lemma_distinct_same_ids(ne, pe);
        }
        assert forall|j: int| 0 <= j < chans.len() && (forall|t: int|
            0 <= t < pairs.len() ==> (#[trigger] pairs[t]).1 != chans[j].channel_id) implies (
        #[trigger] assign_channels(chans, pairs)[j]) == chans[j] by {
            assert forall|t: int| 0 <= t < init.len() implies (#[trigger] init[t]).1 != chans[j].channel_id by {
                assert(init[t] == pairs[t]);
            }
            assert(pairs[pairs.len() - 1].1 != chans[j].channel_id);
            lemma_assign_channels_len(chans, init);
            assert(pc[j] == chans[j]);
        }
    }
}

proof fn lemma_assign_links(st: SchedulerState)
    requires
        link_invariant(st),
        st.chans.len() <= u64::MAX,
    ensures
        link_invariant(assign_spec(st)),
{
    let ids = idle_ids(st.chans);
    lemma_idle_ids_facts(st.chans);
    lemma_ascending_facts(ids);
    let order = ascending_ids(ids);
    let pairs = assignment_pairs(st.chans, st.queue);
    lemma_pair_order_total();
    assert(order.len() == ids.len());
    assert forall|a: int, b: int|
        0 <= a < pairs.len() && 0 <= b < pairs.len() && a != b implies (#[trigger] pairs[a]).1 != (
        #[trigger] pairs[b]).1 by {
        assert(pairs[a].1 == order[a]);
        assert(pairs[b].1 == order[b]);
    }
    assert forall|t: int| 0 <= t < pairs.len() implies exists|j: int|
        0 <= j < st.chans.len() && (#[trigger] st.chans[j]).channel_id == (#[trigger] pairs[t]).1
            && st.chans[j].status == IlluminatorStatus::Idle by {
        assert(pairs[t].1 == order[t]);
        assert(ids.contains(order[t]));
        let p = choose|p: int| 0 <= p < ids.len() && ids[p] == order[t];
        assert(0 <= p < idle_ids(st.chans).len());
        let j = choose|j: int|
            0 <= j < st.chans.len() && (#[trigger] st.chans[j]).channel_id == ids[p]
                && st.chans[j].status == IlluminatorStatus::Idle;
        assert(st.chans[j].channel_id == pairs[t].1);
    }
    lemma_assign_pairs_links(st.engs, st.chans, pairs);
}

/// A busy channel with id `c` serves engagement `id`.
pub open spec fn served_busy(chans: Seq<Illuminator>, c: u8, id: u32) -> bool {
    exists|j: int|
        0 <= j < chans.len() && (#[trigger] chans[j]).channel_id == c && chans[j].assigned_engagement
            == Some(id) && chans[j].status != IlluminatorStatus::Idle
}

proof fn lemma_rotate_links(st: SchedulerState, c: u8, old_id: u32, dwell: u64)
    requires
        link_invariant(st),
        served_busy(st.chans, c, old_id),
    ensures
        ({
            let r = rotate(st, c, old_id, dwell);
            &&& link_invariant(r)
            &&& r.chans.len() == st.chans.len()
            &&& forall|j: int|
                0 <= j < st.chans.len() ==> (#[trigger] r.chans[j]).channel_id
                    == st.chans[j].channel_id
            &&& forall|j: int|
                0 <= j < st.chans.len() && st.chans[j].channel_id != c ==> (#[trigger] r.chans[j])
                    == st.chans[j]
        }),
{
    let j0 = choose|j: int|
        0 <= j < st.chans.len() && (#[trigger] st.chans[j]).channel_id == c
            && st.chans[j].assigned_engagement == Some(old_id) && st.chans[j].status
            != IlluminatorStatus::Idle;
    let engs1 = set_engagement_channel_spec(st.engs, old_id, None);
    lemma_set_channel_core(st.engs, old_id, None);
    lemma_same_core_transfer(engs1, st.engs);
    // Only the old engagement held channel c, and it no longer does.
    assert forall|i: int| 0 <= i < engs1.len() implies (#[trigger] engs1[i]).illuminator_channel
        != Some(c) by {
        if engs1[i].illuminator_channel == Some(c) {
            assert(st.engs[i].illuminator_channel == Some(c));
            assert(serves(st.chans, c, st.engs[i].id));
            let j2 = choose|j2: int|
                0 <= j2 < st.chans.len() && (#[trigger] st.chans[j2]).channel_id == c
                    && st.chans[j2].assigned_engagement == Some(st.engs[i].id);
            assert(j2 == j0);
        }
    }
    assert forall|i: int|
        0 <= i < engs1.len() && (#[trigger] engs1[i]).illuminator_channel.is_some() implies serves(
        st.chans,
        engs1[i].illuminator_channel.unwrap(),
        engs1[i].id,
    ) by {
        assert(st.engs[i].illuminator_channel.is_some());
    }
    let q1 = if may_requeue(st.engs, old_id) {
        st.queue.push(old_id)
    } else {
        st.queue
    };
    if q1.len() > 0 {
        let next = q1[0];
        let engs2 = set_engagement_channel_spec(engs1, next, Some(c));
        let chans2 = retarget_spec(st.chans, c, next, dwell);
        lemma_set_channel_core(engs1, next, Some(c));
        lemma_same_core_transfer(engs2, engs1);
        lemma_distinct_same_ids(engs2, st.engs);
        assert forall|i: int|
            0 <= i < engs2.len() && (#[trigger] engs2[i]).illuminator_channel.is_some() implies serves(
            chans2,
            engs2[i].illuminator_channel.unwrap(),
            engs2[i].id,
        ) by {
            if engs1[i].id == next {
                assert(chans2[j0].channel_id == c && chans2[j0].assigned_engagement == Some(next));
            } else {
                let c2 = engs1[i].illuminator_channel.unwrap();
                assert(c2 != c);
                assert(serves(st.chans, c2, engs1[i].id));
                let j = choose|j: int|
                    0 <= j < st.chans.len() && (#[trigger] st.chans[j]).channel_id == c2
                        && st.chans[j].assigned_engagement == Some(engs1[i].id);
                assert(chans2[j] == st.chans[j]);
            }
        }
        assert forall|j: int| 0 <= j < chans2.len() implies ((#[trigger] chans2[j]).status
            == IlluminatorStatus::Idle <==> chans2[j].assigned_engagement.is_none()) by {
            if st.chans[j].channel_id == c {
                assert(j == j0);
            }
        }
        assert forall|j: int, k: int|
            0 <= j < chans2.len() && 0 <= k < chans2.len() && j != k implies (#[trigger] chans2[j]).channel_id
            != (#[trigger] chans2[k]).channel_id by {
            assert(st.chans[j].channel_id != st.chans[k].channel_id);
        }
    } else {
        lemma_distinct_same_ids(engs1, st.engs);
    }
}

proof fn lemma_rotate_all_links(st: SchedulerState, expired: Seq<(u8, u32)>, dwell: u64)
    requires
        link_invariant(st),
        forall|a: int, b: int|
            0 <= a < expired.len() && 0 <= b < expired.len() && a != b ==> (#[trigger] expired[a]).0
                != (#[trigger] expired[b]).0,
        forall|t: int|
            0 <= t < expired.len() ==> served_busy(
                st.chans,
                (#[trigger] expired[t]).0,
                expired[t].1,
            ),
    ensures
        ({
            let r = rotate_all(st, expired, dwell);
            &&& link_invariant(r)
            &&& r.chans.len() == st.chans.len()
            &&& forall|j: int|
                0 <= j < st.chans.len() ==> (#[trigger] r.chans[j]).channel_id
                    == st.chans[j].channel_id
            &&& forall|j: int|
                0 <= j < st.chans.len() && (forall|t: int|
                    0 <= t < expired.len() ==> (#[trigger] expired[t]).0 != st.chans[j].channel_id)
                    ==> (#[trigger] r.chans[j]) == st.chans[j]
        }),
    decreases expired.len(),
{
    if expired.len() > 0 {
        let init = expired.drop_last();
        let last = expired.last();
        assert forall|a: int, b: int|
            0 <= a < init.len() && 0 <= b < init.len() && a != b implies (#[trigger] init[a]).0 != (
            #[trigger] init[b]).0 by {
            assert(expired[a].0 != expired[b].0);
        }
        assert forall|t: int| 0 <= t < init.len() implies served_busy(
            st.chans,
            (#[trigger] init[t]).0,
            init[t].1,
        ) by {
            assert(init[t] == expired[t]);
        }
        lemma_rotate_all_links(st, init, dwell);
        let prev = rotate_all(st, init, dwell);
        assert(served_busy(st.chans, expired[expired.len() - 1].0, expired[expired.len() - 1].1));
        let j0 = choose|j: int|
            0 <= j < st.chans.len() && (#[trigger] st.chans[j]).channel_id == last.0
                && st.chans[j].assigned_engagement == Some(last.1) && st.chans[j].status
                != IlluminatorStatus::Idle;
        assert forall|t: int| 0 <= t < init.len() implies (#[trigger] init[t]).0
            != st.chans[j0].channel_id by {
            assert(expired[t].0 != expired[expired.len() - 1].0);
        }
        assert(prev.chans[j0] == st.chans[j0]);
        assert(prev.chans[j0].channel_id == last.0 && prev.chans[j0].assigned_engagement == Some(
            last.1,
        ) && prev.chans[j0].status != IlluminatorStatus::Idle);
        assert(served_busy(prev.chans, last.0, last.1));
        lemma_rotate_links(prev, last.0, last.1, dwell);
        let r = rotate_all(st, expired, dwell);
        assert forall|j: int|
            0 <= j < st.chans.len() && (forall|t: int|
                0 <= t < expired.len() ==> (#[trigger] expired[t]).0 != st.chans[j].channel_id)
                implies (#[trigger] r.chans[j]) == st.chans[j] by {
            assert forall|t: int| 0 <= t < init.len() implies (#[trigger] init[t]).0
                != st.chans[j].channel_id by {
                assert(init[t] == expired[t]);
            }
            assert(expired[expired.len() - 1].0 != st.chans[j].channel_id);
            assert(prev.chans[j] == st.chans[j]);
        }
    }
}

proof fn lemma_expired_facts(chans: Seq<Illuminator>)
    requires
        channel_ids_distinct(chans),
    ensures
        forall|a: int, b: int|
            0 <= a < expired_of(chans).len() && 0 <= b < expired_of(chans).len() && a != b ==> (
            #[trigger] expired_of(chans)[a]).0 != (#[trigger] expired_of(chans)[b]).0,
        forall|t: int|
            0 <= t < expired_of(chans).len() ==> served_busy(
                chans,
                (#[trigger] expired_of(chans)[t]).0,
                expired_of(chans)[t].1,
            ),
    decreases chans.len(),
{
    if chans.len() > 0 {
        let init = chans.drop_last();
        assert forall|j: int, k: int|
            0 <= j < init.len() && 0 <= k < init.len() && j != k implies (#[trigger] init[j]).channel_id
            != (#[trigger] init[k]).channel_id by {
            assert(chans[j].channel_id != chans[k].channel_id);
        }
        lemma_expired_facts(init);
        let rest = expired_of(init);
        let x = expired_of(chans);
        let n = chans.len() - 1;
        assert forall|t: int| 0 <= t < expired_of(chans).len() implies served_busy(
            chans,
            (#[trigger] expired_of(chans)[t]).0,
            expired_of(chans)[t].1,
        ) by {
            if t < rest.len() {
                assert(x[t] == rest[t]);
                assert(served_busy(init, rest[t].0, rest[t].1));
                let j = choose|j: int|
                    0 <= j < init.len() && (#[trigger] init[j]).channel_id == rest[t].0
                        && init[j].assigned_engagement == Some(rest[t].1) && init[j].status
                        != IlluminatorStatus::Idle;
                assert(chans[j] == init[j]);
            } else {
                assert(chans[n].channel_id == x[t].0);
                assert(chans[n].assigned_engagement == Some(x[t].1));
            }
        }
        assert forall|a: int, b: int|
            0 <= a < expired_of(chans).len() && 0 <= b < expired_of(chans).len() && a != b implies (
            #[trigger] expired_of(chans)[a]).0 != (#[trigger] expired_of(chans)[b]).0 by {
            if a < rest.len() && b < rest.len() {
                assert(x[a] == rest[a] && x[b] == rest[b]);
            } else if a < rest.len() {
                assert(served_busy(init, rest[a].0, rest[a].1));
                let j = choose|j: int|
                    0 <= j < init.len() && (#[trigger] init[j]).channel_id == rest[a].0
                        && init[j].assigned_engagement == Some(rest[a].1) && init[j].status
                        != IlluminatorStatus::Idle;
                assert(chans[j].channel_id != chans[n].channel_id);
                assert(x[a] == rest[a]);
            } else if b < rest.len() {
                assert(served_busy(init, rest[b].0, rest[b].1));
                let j = choose|j: int|
                    0 <= j < init.len() && (#[trigger] init[j]).channel_id == rest[b].0
                        && init[j].assigned_engagement == Some(rest[b].1) && init[j].status
                        != IlluminatorStatus::Idle;
                assert(chans[j].channel_id != chans[n].channel_id);
                assert(x[b] == rest[b]);
            }
        }
    }
}

proof fn lemma_timeshare_links(st: SchedulerState)
    requires
        link_invariant(st),
    ensures
        link_invariant(timeshare_spec(st)),
{
    if st.queue.len() == 0 {
        let r = timeshare_spec(st);
        assert forall|i: int|
            0 <= i < r.engs.len() && (#[trigger] r.engs[i]).illuminator_channel.is_some() implies serves(
            r.chans,
            r.engs[i].illuminator_channel.unwrap(),
            r.engs[i].id,
        ) by {
            let c = r.engs[i].illuminator_channel.unwrap();
            assert(serves(st.chans, c, r.engs[i].id));
            let j = choose|j: int|
                0 <= j < st.chans.len() && (#[trigger] st.chans[j]).channel_id == c
                    && st.chans[j].assigned_engagement == Some(r.engs[i].id);
            assert(r.chans[j].channel_id == c);
        }
        assert forall|j: int, k: int|
            0 <= j < r.chans.len() && 0 <= k < r.chans.len() && j != k implies (#[trigger] r.chans[j]).channel_id
            != (#[trigger] r.chans[k]).channel_id by {
            assert(st.chans[j].channel_id != st.chans[k].channel_id);
        }
        assert forall|j: int| 0 <= j < r.chans.len() implies ((#[trigger] r.chans[j]).status
            == IlluminatorStatus::Idle <==> r.chans[j].assigned_engagement.is_none()) by {
            assert(st.chans[j].status == IlluminatorStatus::Idle <==> st.chans[j].assigned_engagement.is_none());
        }
    } else if busy_count(st.chans) == 0 {
    } else {
        let tc = st.chans.map_values(|ch: Illuminator| ticked(ch));
        let st1 = SchedulerState { chans: tc, ..st };
        assert forall|i: int|
            0 <= i < st.engs.len() && (#[trigger] st.engs[i]).illuminator_channel.is_some() implies serves(
            tc,
            st.engs[i].illuminator_channel.unwrap(),
            st.engs[i].id,
        ) by {
            let c = st.engs[i].illuminator_channel.unwrap();
            assert(serves(st.chans, c, st.engs[i].id));
            let j = choose|j: int|
                0 <= j < st.chans.len() && (#[trigger] st.chans[j]).channel_id == c
                    && st.chans[j].assigned_engagement == Some(st.engs[i].id);
            assert(tc[j].channel_id == c);
        }
        assert forall|j: int, k: int|
            0 <= j < tc.len() && 0 <= k < tc.len() && j != k implies (#[trigger] tc[j]).channel_id
            != (#[trigger] tc[k]).channel_id by {
            assert(st.chans[j].channel_id != st.chans[k].channel_id);
        }
        assert forall|j: int| 0 <= j < tc.len() implies ((#[trigger] tc[j]).status
            == IlluminatorStatus::Idle <==> tc[j].assigned_engagement.is_none()) by {
            assert(st.chans[j].status == IlluminatorStatus::Idle <==> st.chans[j].assigned_engagement.is_none());
        }
        let ex = expired_of(st.chans);
        lemma_expired_facts(st.chans);
        assert forall|t: int| 0 <= t < ex.len() implies served_busy(
            st1.chans,
            (#[trigger] ex[t]).0,
            ex[t].1,
        ) by {
            assert(served_busy(st.chans, ex[t].0, ex[t].1));
            let j = choose|j: int|
                0 <= j < st.chans.len() && (#[trigger] st.chans[j]).channel_id == ex[t].0
                    && st.chans[j].assigned_engagement == Some(ex[t].1) && st.chans[j].status
                    != IlluminatorStatus::Idle;
            assert(st1.chans[j].channel_id == ex[t].0);
            assert(st1.chans[j].assigned_engagement == Some(ex[t].1));
            assert(st1.chans[j].status != IlluminatorStatus::Idle);
        }
        lemma_rotate_all_links(
            st1,
            ex,
            shared_dwell((busy_count(st.chans) + st.queue.len()) as int) as u64,
        );
    }
}

/// One tick of the illuminator scheduler keeps the link invariant: with
/// distinct engagement and channel ids, channels idle exactly when
/// unassigned, and every engagement holding a channel served by it, the
/// same holds after the tick; so a channel never serves two engagements at
/// once (see [`lemma_channel_serves_one_engagement`]).
pub proof fn lemma_scheduler_keeps_links(st: SchedulerState, obs: Seq<FlightObservation>)
    requires
        link_invariant(st),
        obs.len() == st.engs.len(),
        st.chans.len() <= u64::MAX,
    ensures
        link_invariant(scheduler_spec(st, obs)),
{
    lemma_release_links(st);
    let engs1 = release_engagements_spec(st.engs);
    let chans1 = release_channels_spec(st.engs, st.chans);
    let q1 = identify_spec(engs1, obs, st.queue);
    let st2 = SchedulerState { engs: engs1, chans: chans1, queue: q1 };
    assert(chans1.len() == st.chans.len());
    lemma_assign_links(st2);
    lemma_timeshare_links(assign_spec(st2));
}

} // verus!
