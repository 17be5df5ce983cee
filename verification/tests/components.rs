use deterrence::components::{DetectionCounter, Illuminator};
use deterrence::enums::IlluminatorStatus;

#[test]
fn detection_counter_initiates_after_three_hits() {
    let mut c = DetectionCounter::new();
    c.record_sweep(1, true);
    c.record_sweep(2, true);
    assert!(!c.ready_to_initiate());
    c.record_sweep(3, true);
    assert!(c.ready_to_initiate());
    c.record_sweep(4, false);
    assert_eq!(c.hits, 0);
    assert_eq!(c.misses, 1);
    assert_eq!(c.last_sweep_tick, 4);
}

#[test]
fn new_illuminator_is_idle() {
    let i = Illuminator::new(2);
    assert_eq!(i.channel_id, 2);
    assert_eq!(i.status, IlluminatorStatus::Idle);
    assert_eq!(i.assigned_engagement, None);
}
