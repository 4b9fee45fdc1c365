use pixel_canvas::dict::update_placement;
use pixel_canvas::gate::{draw_threshold, GateOutcome, GateState, DRAW_PERIOD_MS};

#[test]
fn draw_period_is_sixty_seconds() {
    assert_eq!(DRAW_PERIOD_MS, 60_000);
}

#[test]
fn threshold_lies_one_period_before_now() {
    assert_eq!(draw_threshold(1_700_000_000_000), 1_699_999_940_000);
    assert_eq!(draw_threshold(60_000), 0);
    assert_eq!(draw_threshold(59_999), 0);
    assert_eq!(draw_threshold(0), 0);
}

#[test]
fn first_draw_of_a_client_is_admitted() {
    let mut gate = GateState::new();
    assert_eq!(gate.last_placed, None);
    let now = 1_700_000_000_000;
    assert_eq!(gate.check_and_update(now, draw_threshold(now)), GateOutcome::Admitted);
    assert_eq!(gate.last_placed, Some(now));
}

#[test]
fn denied_draw_leaves_the_state_alone() {
    let mut gate = GateState { last_placed: Some(1_000_000) };
    let now = 1_005_000;
    assert_eq!(gate.check_and_update(now, draw_threshold(now)), GateOutcome::Denied(1_000_000));
    assert_eq!(gate.last_placed, Some(1_000_000));
}

#[test]
fn draw_is_admitted_only_once_the_period_has_passed() {
    let start = 1_700_000_000_000u64;
    let mut gate = GateState { last_placed: Some(start) };
    let at = start + DRAW_PERIOD_MS - 1;
    assert_eq!(gate.check_and_update(at, draw_threshold(at)), GateOutcome::Denied(start));
    let at = start + DRAW_PERIOD_MS;
    assert_eq!(gate.check_and_update(at, draw_threshold(at)), GateOutcome::Denied(start));
    let at = start + DRAW_PERIOD_MS + 1;
    assert_eq!(gate.check_and_update(at, draw_threshold(at)), GateOutcome::Admitted);
    assert_eq!(gate.last_placed, Some(at));
}

#[test]
fn admitted_draws_are_a_period_apart() {
    let mut gate = GateState::new();
    let mut admitted = vec![];
    let mut now = 1_700_000_000_000u64;
    for step in 0..400u64 {
        now += 1 + (step * 7919) % 25_000;
        if gate.check_and_update(now, draw_threshold(now)) == GateOutcome::Admitted {
            admitted.push(now);
        }
    }
    assert!(admitted.len() > 3);
    for pair in admitted.windows(2) {
        assert!(pair[1] - pair[0] >= DRAW_PERIOD_MS);
    }
}

#[test]
fn stored_instant_never_decreases() {
    let mut gate = GateState::new();
    let mut last = 0;
    for now in [500_000u64, 100_000, 700_000, 650_000, 760_001, 10] {
        gate.check_and_update(now, draw_threshold(now));
        let stored = gate.last_placed.unwrap();
        assert!(stored >= last);
        last = stored;
    }
    assert_eq!(last, 760_001);
}

#[test]
fn test_update_placement() {
    let mut gate = GateState::new();
    let duration_now = 1_751_347_290_000u64;

    let request = update_placement("key".to_string(), duration_now);
    assert_eq!(request.threshold_ms, duration_now - 60 * 1000);
    let ret1 = gate.check_and_update(request.now_ms, request.threshold_ms).to_reply();
    let request = update_placement("key".to_string(), duration_now);
    let ret2 = gate.check_and_update(request.now_ms, request.threshold_ms).to_reply();

    let duration_now = duration_now + 120 * 1000;
    let request = update_placement("key".to_string(), duration_now);
    assert_eq!(request.key, "key");
    assert_eq!(request.threshold_ms, duration_now - 60 * 1000);
    let ret3 = gate.check_and_update(request.now_ms, request.threshold_ms).to_reply();

    assert_eq!(ret1, -1);
    assert_ne!(ret2, -1);
    assert_eq!(ret3, -1);
}

#[test]
fn replies_read_back_as_the_outcome() {
    assert_eq!(GateOutcome::Admitted.to_reply(), -1);
    assert_eq!(GateOutcome::Denied(0).to_reply(), 0);
    assert_eq!(GateOutcome::Denied(u64::MAX).to_reply(), u64::MAX as i128);
    assert_eq!(GateOutcome::from_reply(-1), Some(GateOutcome::Admitted));
    assert_eq!(GateOutcome::from_reply(-77), Some(GateOutcome::Admitted));
    assert_eq!(GateOutcome::from_reply(0), Some(GateOutcome::Denied(0)));
    assert_eq!(GateOutcome::from_reply(1_700_000_000_000), Some(GateOutcome::Denied(1_700_000_000_000)));
    assert_eq!(GateOutcome::from_reply(u64::MAX as i128), Some(GateOutcome::Denied(u64::MAX)));
    assert_eq!(GateOutcome::from_reply(u64::MAX as i128 + 1), None);
}
