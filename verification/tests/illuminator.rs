use deterrence::components::Illuminator;
use deterrence::constants::{ILLUMINATOR_COUNT, ILLUMINATOR_DWELL_TICKS};
use deterrence::engagement::{Engagement, FlightObservation};
use deterrence::enums::{EngagementPhase, IlluminatorStatus, MissilePhase, WeaponType};
use deterrence::illuminator::{
    assign_illuminators, find_engagement, identify_candidates, release_completed, run_scheduler,
    time_share_count, update_timesharing,
};
use deterrence::state::build_illuminator_views;

fn channels() -> Vec<Illuminator> {
    (0..ILLUMINATOR_COUNT).map(Illuminator::new).collect()
}

fn in_flight(id: u32, weapon: WeaponType) -> Engagement {
    Engagement {
        id,
        target_track_number: 100 + id,
        phase: EngagementPhase::Midcourse,
        weapon_type: weapon,
        assigned_cell: Some(id as usize),
        phase_start_tick: 0,
        veto_remaining_ticks: 0,
        warned_3s: true,
        warned_1s: true,
        illuminator_channel: None,
        has_interceptor: true,
        result: None,
    }
}

fn near(tti: f64) -> FlightObservation {
    FlightObservation {
        missile_phase: Some(MissilePhase::Midcourse),
        target_present: true,
        interceptor_range_m: Some(25_000),
        tti_order: tti.to_bits(),
    }
}

#[test]
fn illuminator_assigned_when_interceptor_nears_target() {
    let mut engs = vec![in_flight(1, WeaponType::Standard)];
    let mut chans = channels();
    let mut queue = Vec::new();
    run_scheduler(&mut engs, &mut chans, &mut queue, &vec![near(10.0)]);
    assert_eq!(engs[0].illuminator_channel, Some(0));
    assert_eq!(chans[0].status, IlluminatorStatus::Active);
    assert_eq!(chans[0].assigned_engagement, Some(1));
    assert_eq!(chans[0].dwell_remaining_ticks, ILLUMINATOR_DWELL_TICKS);
    assert!(queue.is_empty());
}

#[test]
fn no_illumination_far_from_target_or_for_extended_range() {
    let mut engs = vec![in_flight(1, WeaponType::Standard), in_flight(2, WeaponType::ExtendedRange)];
    let mut chans = channels();
    let mut queue = Vec::new();
    let mut far = near(5.0);
    far.interceptor_range_m = Some(30_001);
    run_scheduler(&mut engs, &mut chans, &mut queue, &vec![far, near(1.0)]);
    assert_eq!(engs[0].illuminator_channel, None);
    assert_eq!(engs[1].illuminator_channel, None, "ExtendedRange missile should not need illuminator");
    assert!(chans.iter().all(|c| c.status == IlluminatorStatus::Idle));
}

#[test]
fn illuminator_freed_on_completion() {
    let mut engs = vec![in_flight(1, WeaponType::Standard)];
    let mut chans = channels();
    let mut queue = Vec::new();
    run_scheduler(&mut engs, &mut chans, &mut queue, &vec![near(10.0)]);
    assert_eq!(engs[0].illuminator_channel, Some(0));
    engs[0].phase = EngagementPhase::Complete;
    engs[0].has_interceptor = false;
    release_completed(&mut engs, &mut chans);
    assert_eq!(engs[0].illuminator_channel, None);
    assert!(chans.iter().all(|c| c.status == IlluminatorStatus::Idle && c.assigned_engagement.is_none()));
}

#[test]
fn orphaned_channel_is_released() {
    let mut engs = vec![in_flight(1, WeaponType::Standard)];
    let mut chans = channels();
    chans[2].status = IlluminatorStatus::Active;
    chans[2].assigned_engagement = Some(99);
    release_completed(&mut engs, &mut chans);
    assert_eq!(chans[2].status, IlluminatorStatus::Idle);
    assert_eq!(chans[2].assigned_engagement, None);
}

#[test]
fn saturation_five_engagements_three_channels() {
    let mut engs: Vec<Engagement> = (1..=5).map(|i| in_flight(i, WeaponType::Standard)).collect();
    let obs: Vec<FlightObservation> = (1..=5).map(|i| near(i as f64)).collect();
    let mut chans = channels();
    let mut queue = Vec::new();
    run_scheduler(&mut engs, &mut chans, &mut queue, &obs);
    let busy = chans.iter().filter(|c| c.status != IlluminatorStatus::Idle).count();
    assert!(busy <= 3, "At most 3 illuminators should be active, got {busy}");
    assert_eq!(busy, 3);
    // The most urgent three hold channels; the others wait in urgency order.
    assert_eq!(engs[0].illuminator_channel, Some(0));
    assert_eq!(engs[1].illuminator_channel, Some(1));
    assert_eq!(engs[2].illuminator_channel, Some(2));
    assert_eq!(queue, vec![4, 5]);
    // All busy channels time-share while engagements wait.
    assert!(chans.iter().all(|c| c.status == IlluminatorStatus::TimeSharing));
    assert_eq!(time_share_count(&engs, &queue), 5);
    // No channel serves two engagements, and each holder is served by its channel.
    let held: Vec<u8> = engs.iter().filter_map(|e| e.illuminator_channel).collect();
    let mut unique = held.clone();
    unique.sort();
    unique.dedup();
    assert_eq!(unique.len(), held.len());
    for e in &engs {
        if let Some(c) = e.illuminator_channel {
            assert!(chans.iter().any(|ch| ch.channel_id == c && ch.assigned_engagement == Some(e.id)));
        }
    }
}

#[test]
fn queue_is_ordered_by_time_to_intercept() {
    let engs = vec![
        in_flight(1, WeaponType::Standard),
        in_flight(2, WeaponType::Standard),
        in_flight(3, WeaponType::Standard),
    ];
    let obs = vec![near(30.0), near(10.0), near(10.0)];
    let mut queue = Vec::new();
    identify_candidates(&engs, &obs, &mut queue);
    assert_eq!(queue, vec![2, 3, 1]);
}

#[test]
fn idle_channels_are_assigned_lowest_id_first() {
    let mut engs = vec![in_flight(7, WeaponType::Standard), in_flight(8, WeaponType::Standard)];
    let mut chans = vec![Illuminator::new(2), Illuminator::new(0), Illuminator::new(1)];
    chans[1].status = IlluminatorStatus::Active;
    chans[1].assigned_engagement = Some(42);
    let mut queue = vec![8, 7];
    assign_illuminators(&mut engs, &mut chans, &mut queue);
    assert_eq!(engs[1].illuminator_channel, Some(1));
    assert_eq!(engs[0].illuminator_channel, Some(2));
    assert!(queue.is_empty());
}

#[test]
fn expired_dwell_rotates_to_waiting_engagement() {
    let mut engs = vec![in_flight(1, WeaponType::Standard), in_flight(2, WeaponType::Standard)];
    engs[0].illuminator_channel = Some(0);
    let mut chans = vec![Illuminator::new(0)];
    chans[0].status = IlluminatorStatus::TimeSharing;
    chans[0].assigned_engagement = Some(1);
    chans[0].dwell_remaining_ticks = 1;
    let mut queue = vec![2];
    update_timesharing(&mut engs, &mut chans, &mut queue);
    assert_eq!(engs[0].illuminator_channel, None);
    assert_eq!(engs[1].illuminator_channel, Some(0));
    assert_eq!(chans[0].assigned_engagement, Some(2));
    // Two engagements share one channel: half of the full dwell.
    assert_eq!(chans[0].dwell_remaining_ticks, ILLUMINATOR_DWELL_TICKS / 2);
    assert_eq!(queue, vec![1]);
}

#[test]
fn timesharing_ends_when_nobody_waits() {
    let mut engs = vec![in_flight(1, WeaponType::Standard)];
    let mut chans = vec![Illuminator::new(0)];
    chans[0].status = IlluminatorStatus::TimeSharing;
    chans[0].assigned_engagement = Some(1);
    let mut queue = Vec::new();
    update_timesharing(&mut engs, &mut chans, &mut queue);
    assert_eq!(chans[0].status, IlluminatorStatus::Active);
}

#[test]
fn lookup_by_id() {
    let engs = vec![in_flight(4, WeaponType::Standard), in_flight(9, WeaponType::Standard)];
    assert_eq!(find_engagement(&engs, 9), Some(1));
    assert_eq!(find_engagement(&engs, 5), None);
}

#[test]
fn illuminator_views_sorted_by_channel() {
    let chans = vec![Illuminator::new(2), Illuminator::new(0), Illuminator::new(1)];
    let views = build_illuminator_views(&chans);
    let ids: Vec<u8> = views.iter().map(|v| v.channel_id).collect();
    assert_eq!(ids, vec![0, 1, 2]);
    assert!(views.iter().all(|v| v.queue_depth == 0 && v.status == IlluminatorStatus::Idle));
}

#[test]
fn empty_table_frees_every_channel() {
    let mut engs: Vec<Engagement> = Vec::new();
    let mut chans = channels();
    chans[0].status = IlluminatorStatus::TimeSharing;
    chans[0].assigned_engagement = Some(3);
    chans[1].status = IlluminatorStatus::Active;
    chans[1].assigned_engagement = Some(4);
    let mut queue = vec![3, 4];
    run_scheduler(&mut engs, &mut chans, &mut queue, &Vec::new());
    assert!(queue.is_empty());
    assert!(chans.iter().all(|c| c.status == IlluminatorStatus::Idle && c.assigned_engagement.is_none()));
}
