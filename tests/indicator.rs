use ir_blink::{idle, ClearHandle, Indicator};

#[test]
fn burst_activates_once_and_clears_once() {
    let mut ind = Indicator::new(100_000);
    let mut ons = 0;
    let mut offs = 0;
    let mut t: u64 = 1_000;
    for _ in 0..5 {
        if ind.on_event(t) {
            ons += 1;
        }
        // background checks between events never clear
        for dt in [10_000u64, 50_000, 90_000] {
            if idle(&mut ind, t + dt) {
                offs += 1;
            }
            assert!(ind.active);
        }
        t += 95_000;
    }
    let last = t - 95_000;
    assert_eq!(ons, 1);
    assert_eq!(offs, 0);
    assert!(!idle(&mut ind, last + 99_999));
    assert!(ind.active);
    assert!(idle(&mut ind, last + 100_000));
    assert!(!ind.active);
    assert!(!idle(&mut ind, last + 500_000));
}

#[test]
fn new_event_replaces_pending_clear() {
    let mut ind = Indicator::new(100);
    assert!(ind.on_event(10));
    assert_eq!(ind.pending, Some(ClearHandle { deadline: 110, live: true }));
    assert!(!ind.on_event(50));
    assert_eq!(ind.pending, Some(ClearHandle { deadline: 150, live: true }));
    assert!(!idle(&mut ind, 120));
    assert!(idle(&mut ind, 150));
}

#[test]
fn cancel_twice_is_noop() {
    let mut ind = Indicator::new(100);
    ind.on_event(0);
    assert!(ind.cancel_pending());
    let after = ind;
    assert!(!ind.cancel_pending());
    assert_eq!(ind, after);
    assert!(!idle(&mut ind, 1_000));
    assert!(ind.active);
}

#[test]
fn cancel_after_fire_is_noop() {
    let mut ind = Indicator::new(100);
    ind.on_event(0);
    assert!(idle(&mut ind, 100));
    let after = ind;
    assert!(!ind.cancel_pending());
    assert_eq!(ind, after);
    assert!(!idle(&mut ind, 200));
}

#[test]
fn cancel_on_empty_slot_is_noop() {
    let mut ind = Indicator::new(100);
    assert!(!ind.cancel_pending());
    let mut h = ClearHandle { deadline: 5, live: true };
    assert!(h.cancel());
    assert!(!h.cancel());
    assert_eq!(h, ClearHandle { deadline: 5, live: false });
}

#[test]
fn deadline_saturates_at_end_of_clock() {
    let mut ind = Indicator::new(100);
    ind.on_event(u64::MAX - 10);
    assert_eq!(ind.pending, Some(ClearHandle { deadline: u64::MAX, live: true }));
}
