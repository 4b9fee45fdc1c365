use pixel_canvas::dict::{CacheFill, CachePatch, GateRequest, ZeroInit};
use pixel_canvas::gate::{draw_threshold, GateState};
use pixel_canvas::models::{DrawEvent, GroupKey, ServiceError, GROUP_LEN, MIN_COORD};
use pixel_canvas::query::{BatchWrite, TileRow};
use pixel_canvas::service::{
    check_gate_reply, draw_tile, get_group, get_group_from_store, get_remaining_time,
    wait_message, DrawAction, DrawPhase, GroupLookup,
};

const T0: u64 = 1_700_000_000_000;

fn reply_of(gate: &mut GateState, request: &GateRequest) -> i128 {
    gate.check_and_update(request.now_ms, request.threshold_ms).to_reply()
}

fn draw_through(gate: &mut GateState, draw: DrawEvent, now_ms: u64) -> Result<(), ServiceError> {
    let step = draw_tile(draw, "10.0.0.1".to_string(), now_ms);
    let reply = match &step.action {
        DrawAction::CheckGate(request) => reply_of(gate, request),
        _ => return step.reply.unwrap(),
    };
    let step = step.task.draw_step(Ok(reply));
    if let Some(answer) = step.reply {
        return answer;
    }
    assert_eq!(step.task.phase(), DrawPhase::Commit);
    step.task.draw_step(Ok(0)).reply.unwrap()
}

#[test]
fn remaining_time_is_what_is_left_of_the_period() {
    assert_eq!(get_remaining_time(T0, T0 + 5_000), Ok(55_000));
    assert_eq!(get_remaining_time(T0, T0), Ok(60_000));
    assert_eq!(get_remaining_time(T0, T0 + 60_000), Ok(0));
    assert_eq!(get_remaining_time(0, 59_999), Ok(1));
}

#[test]
fn placement_in_the_future_is_fatal() {
    assert_eq!(
        get_remaining_time(1_001, 1_000),
        Err(ServiceError::Fatal(
            "Invariant is false: placement_epoch=1001ms is not smaller than duration_now=1000ms"
                .to_string()
        ))
    );
}

#[test]
fn refusal_after_the_period_has_passed_is_fatal() {
    assert_eq!(
        get_remaining_time(1_000, 61_001),
        Err(ServiceError::Fatal(
            "Invariant is false: difference=60001ms is not smaller than DRAW_PERIOD=60000ms"
                .to_string()
        ))
    );
}

#[test]
fn wait_message_shows_minutes_and_seconds() {
    assert_eq!(wait_message(55_000), "00:55 minutes remaining until you can draw another tile.");
    assert_eq!(wait_message(60_000), "01:00 minutes remaining until you can draw another tile.");
    assert_eq!(wait_message(59_999), "00:59 minutes remaining until you can draw another tile.");
    assert_eq!(wait_message(999), "00:00 minutes remaining until you can draw another tile.");
    assert_eq!(wait_message(0), "00:00 minutes remaining until you can draw another tile.");
    assert_eq!(wait_message(754_000), "12:34 minutes remaining until you can draw another tile.");
}

#[test]
fn negative_reply_admits() {
    assert_eq!(check_gate_reply(-1, T0), Ok(()));
    assert_eq!(check_gate_reply(i128::MIN, T0), Ok(()));
}

#[test]
fn reply_with_an_instant_refuses_with_the_wait() {
    assert_eq!(
        check_gate_reply(T0 as i128, T0 + 5_000),
        Err(ServiceError::Forbidden(
            "00:55 minutes remaining until you can draw another tile.".to_string()
        ))
    );
    assert_eq!(
        check_gate_reply(0, 60_000),
        Err(ServiceError::Forbidden(
            "00:00 minutes remaining until you can draw another tile.".to_string()
        ))
    );
}

#[test]
fn reply_from_the_future_is_fatal() {
    assert_eq!(
        check_gate_reply(2_000, 1_000),
        Err(ServiceError::Fatal(
            "Invariant is false: placement_epoch=2000ms is not smaller than duration_now=1000ms"
                .to_string()
        ))
    );
    assert_eq!(
        check_gate_reply(u64::MAX as i128 + 1, u64::MAX),
        Err(ServiceError::Fatal(
            "Invariant is false: placement_epoch=18446744073709551616ms is not smaller than \
             duration_now=18446744073709551615ms"
                .to_string()
        ))
    );
}

#[test]
fn stale_refusal_is_fatal() {
    assert_eq!(
        check_gate_reply(0, 60_001),
        Err(ServiceError::Fatal(
            "Invariant is false: difference=60001ms is not smaller than DRAW_PERIOD=60000ms"
                .to_string()
        ))
    );
}

#[test]
fn cooldown_denies_the_second_draw_and_admits_the_third() {
    let mut gate = GateState::new();
    let first = draw_through(&mut gate, DrawEvent { x: 0, y: 0, rgb: (10, 20, 30) }, T0);
    assert_eq!(first, Ok(()));
    let second = draw_through(&mut gate, DrawEvent { x: 1, y: 0, rgb: (0, 0, 0) }, T0 + 5_000);
    assert_eq!(
        second,
        Err(ServiceError::Forbidden(
            "00:55 minutes remaining until you can draw another tile.".to_string()
        ))
    );
    let third = draw_through(&mut gate, DrawEvent { x: 1, y: 0, rgb: (0, 0, 0) }, T0 + 60_001);
    assert_eq!(third, Ok(()));
}

#[test]
fn draw_exactly_one_period_later_still_waits() {
    let mut gate = GateState::new();
    assert_eq!(draw_through(&mut gate, DrawEvent { x: 0, y: 0, rgb: (1, 1, 1) }, T0), Ok(()));
    assert_eq!(
        draw_through(&mut gate, DrawEvent { x: 0, y: 0, rgb: (1, 1, 1) }, T0 + 60_000),
        Err(ServiceError::Forbidden(
            "00:00 minutes remaining until you can draw another tile.".to_string()
        ))
    );
}

#[test]
fn draw_passes_through_every_phase() {
    let draw = DrawEvent { x: 102, y: -1, rgb: (200, 100, 0) };
    let step = draw_tile(draw, "192.168.0.9".to_string(), T0);
    assert_eq!(step.task.phase(), DrawPhase::Gate);
    assert_eq!(step.task.draw(), draw);
    assert_eq!(step.reply, None);
    assert_eq!(step.logged, None);
    assert_eq!(
        step.action,
        DrawAction::CheckGate(GateRequest {
            key: "192.168.0.9".to_string(),
            now_ms: T0,
            threshold_ms: draw_threshold(T0),
        })
    );

    let step = step.task.draw_step(Ok(-1));
    assert_eq!(step.task.phase(), DrawPhase::Commit);
    assert_eq!(step.reply, None);
    match &step.action {
        DrawAction::Commit(BatchWrite { tile, placement }) => {
            assert_eq!((tile.group_x, tile.group_y, tile.x, tile.y), (100, -100, 102, -1));
            assert_eq!(tile.rgb, (-56, 100, 0));
            assert_eq!(tile.last_updated_ipaddress, "192.168.0.9");
            assert_eq!(tile.last_updated_time, T0 as i64);
            assert_eq!(placement.day, 19_675);
            assert_eq!((placement.x, placement.y, placement.rgb), (102, -1, (-56, 100, 0)));
            assert_eq!(placement.ipaddress, "192.168.0.9");
            assert_eq!(placement.placement_time, T0 as i64);
        }
        other => panic!("unexpected action {:?}", other),
    }

    let step = step.task.draw_step(Ok(0));
    assert_eq!(step.task.phase(), DrawPhase::ZeroInit);
    assert_eq!(step.reply, Some(Ok(())));
    assert_eq!(
        step.action,
        DrawAction::InitGroup(ZeroInit { key: "(100,-100)".to_string(), len: GROUP_LEN })
    );

    let step = step.task.draw_step(Ok(1));
    assert_eq!(step.task.phase(), DrawPhase::Patch);
    assert_eq!(step.reply, None);
    assert_eq!(
        step.action,
        DrawAction::PatchGroup(CachePatch {
            key: "(100,-100)".to_string(),
            byte_offset: (99 * 100 + 2) * 3,
            value: [200, 100, 0],
        })
    );

    let step = step.task.draw_step(Ok(30_000));
    assert_eq!(step.task.phase(), DrawPhase::Publish);
    assert_eq!(step.reply, None);
    assert_eq!(
        step.action,
        DrawAction::Publish(vec![102, 0, 0, 0, 255, 255, 255, 255, 200, 100, 0])
    );

    let step = step.task.draw_step(Ok(2));
    assert_eq!(step.task.phase(), DrawPhase::Done);
    assert_eq!(step.action, DrawAction::Finish);
    assert_eq!(step.reply, None);
    assert_eq!(step.logged, None);

    let step = step.task.draw_step(Ok(0));
    assert_eq!(step.task.phase(), DrawPhase::Done);
    assert_eq!(step.action, DrawAction::Finish);
    assert_eq!(step.reply, None);
}

#[test]
fn failure_of_the_gate_is_fatal_to_the_draw() {
    let step = draw_tile(DrawEvent { x: 0, y: 0, rgb: (0, 0, 0) }, "a".to_string(), T0);
    let step = step.task.draw_step(Err("connection refused".to_string()));
    assert_eq!(step.reply, Some(Err(ServiceError::Fatal("connection refused".to_string()))));
    assert_eq!(step.action, DrawAction::Finish);
    assert_eq!(step.task.phase(), DrawPhase::Done);
}

#[test]
fn failed_commit_fails_the_draw_and_touches_nothing_else() {
    let step = draw_tile(DrawEvent { x: 0, y: 0, rgb: (0, 0, 0) }, "a".to_string(), T0);
    let step = step.task.draw_step(Ok(-1));
    let step = step.task.draw_step(Err("write timeout".to_string()));
    assert_eq!(step.reply, Some(Err(ServiceError::Fatal("write timeout".to_string()))));
    assert_eq!(step.action, DrawAction::Finish);
    assert_eq!(step.logged, None);
}

#[test]
fn failure_after_the_commit_is_logged_and_not_reported() {
    for failing in 0..3 {
        let step = draw_tile(DrawEvent { x: 0, y: 0, rgb: (0, 0, 0) }, "a".to_string(), T0);
        let step = step.task.draw_step(Ok(-1));
        let mut step = step.task.draw_step(Ok(0));
        assert_eq!(step.reply, Some(Ok(())));
        for _ in 0..failing {
            step = step.task.draw_step(Ok(1));
            assert_eq!(step.reply, None);
            assert_eq!(step.logged, None);
        }
        let step = step.task.draw_step(Err("cache is down".to_string()));
        assert_eq!(step.reply, None);
        assert_eq!(step.logged, Some(ServiceError::Fatal("cache is down".to_string())));
        assert_eq!(step.action, DrawAction::Finish);
        assert_eq!(step.task.phase(), DrawPhase::Done);
    }
}

#[test]
fn draw_outside_the_canvas_is_refused_before_the_gate() {
    for (x, y) in [(MIN_COORD - 1, 0), (0, i32::MIN), (i32::MIN, i32::MIN)] {
        let step = draw_tile(DrawEvent { x, y, rgb: (1, 2, 3) }, "a".to_string(), T0);
        assert_eq!(
            step.reply,
            Some(Err(ServiceError::Forbidden("The tile lies outside the canvas.".to_string())))
        );
        assert_eq!(step.action, DrawAction::Finish);
        assert_eq!(step.task.phase(), DrawPhase::Done);
    }
    let step = draw_tile(DrawEvent { x: MIN_COORD, y: MIN_COORD, rgb: (1, 2, 3) }, "a".to_string(), T0);
    assert_eq!(step.task.phase(), DrawPhase::Gate);
}

#[test]
fn draw_at_an_instant_beyond_the_timestamps_is_fatal() {
    let step = draw_tile(DrawEvent { x: 0, y: 0, rgb: (1, 2, 3) }, "a".to_string(), u64::MAX);
    assert_eq!(
        step.reply,
        Some(Err(ServiceError::Fatal(
            "Cannot represent the current time as a timestamp".to_string()
        )))
    );
    assert_eq!(step.action, DrawAction::Finish);
}

#[test]
fn group_is_read_through_the_cache() {
    let key = GroupKey(0, 0);
    assert_eq!(get_group(key, vec![]), Ok(GroupLookup::Miss(key)));

    let fill = get_group_from_store(key, &vec![]).unwrap();
    assert_eq!(fill, CacheFill { key: "(0,0)".to_string(), value: vec![0u8; 30000] });

    let rows = vec![TileRow { x: 2, y: 0, rgb: (5, 5, 5) }];
    let fill = get_group_from_store(key, &rows).unwrap();
    let mut expected = vec![0u8; 30000];
    expected[6..9].copy_from_slice(&[5, 5, 5]);
    assert_eq!(fill.value, expected);

    assert_eq!(get_group(key, fill.value.clone()), Ok(GroupLookup::Hit(expected)));
}

#[test]
fn cached_buffer_of_wrong_length_fails_the_read() {
    assert_eq!(
        get_group(GroupKey(0, 0), vec![0u8; 29_999]),
        Err(ServiceError::Fatal(
            "Failed to get cached group due to invalid buffer length".to_string()
        ))
    );
}

#[test]
fn stray_row_fails_the_read_from_the_store() {
    let rows = vec![TileRow { x: 100, y: 0, rgb: (5, 5, 5) }];
    assert_eq!(
        get_group_from_store(GroupKey(0, 0), &rows),
        Err(ServiceError::Fatal("Tile row lies outside the bounds of its group".to_string()))
    );
}

#[test]
fn group_rebuilt_from_the_store_equals_the_cached_one() {
    let draws = [
        DrawEvent { x: 1, y: 1, rgb: (1, 2, 3) },
        DrawEvent { x: 99, y: 0, rgb: (4, 5, 6) },
        DrawEvent { x: 1, y: 1, rgb: (7, 8, 9) },
        DrawEvent { x: 50, y: 50, rgb: (255, 254, 253) },
    ];
    let mut cached = vec![0u8; GROUP_LEN];
    let mut tiles: std::collections::BTreeMap<(i32, i32), (i8, i8, i8)> = Default::default();
    for (i, draw) in draws.iter().enumerate() {
        let mut step = draw_tile(*draw, "a".to_string(), T0 + i as u64).task.draw_step(Ok(-1));
        if let DrawAction::Commit(batch) = &step.action {
            tiles.insert((batch.tile.x, batch.tile.y), batch.tile.rgb);
        }
        step = step.task.draw_step(Ok(0));
        step = step.task.draw_step(Ok(0));
        if let DrawAction::PatchGroup(patch) = &step.action {
            cached[patch.byte_offset..patch.byte_offset + 3].copy_from_slice(&patch.value);
        }
    }
    let rows: Vec<TileRow> =
        tiles.into_iter().map(|((x, y), rgb)| TileRow { x, y, rgb }).collect();
    let rebuilt = get_group_from_store(GroupKey(0, 0), &rows).unwrap();
    assert_eq!(rebuilt.value, cached);
}
