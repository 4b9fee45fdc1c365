use pixel_canvas::bus::{
    broadcast_message, bus_action, decode_message, handle_received, handle_redis_message,
    sent_outcome, BusAction, BusOutcome, BusReport, Received, StreamAction, BROADCAST_CAPACITY,
    DRAW_CHANNEL, WIRE_LEN,
};
use pixel_canvas::models::{DrawEvent, ServiceError};
use tokio::sync::broadcast::error::TryRecvError;
use tokio::sync::broadcast::{channel, Receiver};

fn next_action(rx: &mut Receiver<DrawEvent>) -> Option<StreamAction> {
    let received = match rx.try_recv() {
        Ok(event) => Received::Event(event),
        Err(TryRecvError::Lagged(missed)) => Received::Lagged(missed),
        Err(TryRecvError::Closed) => Received::Closed,
        Err(TryRecvError::Empty) => return None,
    };
    Some(handle_received(received))
}

#[test]
fn bus_constants() {
    assert_eq!(DRAW_CHANNEL, "draw-message-bus");
    assert_eq!(BROADCAST_CAPACITY, 1000);
    assert_eq!(WIRE_LEN, 11);
}

#[test]
fn payload_is_both_coordinates_little_endian_then_the_colour() {
    let payload = broadcast_message(DrawEvent { x: 3, y: 4, rgb: (1, 2, 3) }).unwrap();
    assert_eq!(payload, vec![3, 0, 0, 0, 4, 0, 0, 0, 1, 2, 3]);
    let payload = broadcast_message(DrawEvent { x: 0x01020304, y: -2, rgb: (255, 0, 128) }).unwrap();
    assert_eq!(payload, vec![4, 3, 2, 1, 0xfe, 0xff, 0xff, 0xff, 255, 0, 128]);
    let payload = broadcast_message(DrawEvent { x: i32::MIN, y: i32::MAX, rgb: (0, 0, 0) }).unwrap();
    assert_eq!(payload, vec![0, 0, 0, 0x80, 0xff, 0xff, 0xff, 0x7f, 0, 0, 0]);
}

#[test]
fn payload_equals_the_codec_output_for_the_fields() {
    for (x, y) in [(0, 0), (1, -1), (-100, 65536), (i32::MAX, i32::MIN)] {
        let rgb = (x as u8, y as u8, 77);
        assert_eq!(
            broadcast_message(DrawEvent { x, y, rgb }).unwrap(),
            bincode::serialize(&(x, y, rgb)).unwrap()
        );
    }
}

#[test]
fn payload_decodes_to_the_event() {
    for (x, y) in [(0, 0), (3, 4), (-1, 1), (-2147483600, 2147483647), (i32::MIN, -65537)] {
        let event = DrawEvent { x, y, rgb: (x as u8, y as u8, 200) };
        let payload = broadcast_message(event).unwrap();
        assert_eq!(payload.len(), WIRE_LEN);
        assert_eq!(decode_message(&payload), Ok(event));
    }
}

#[test]
fn bytes_after_the_event_are_ignored() {
    let payload = vec![3, 0, 0, 0, 4, 0, 0, 0, 1, 2, 3, 99, 98];
    assert_eq!(decode_message(&payload), Ok(DrawEvent { x: 3, y: 4, rgb: (1, 2, 3) }));
}

#[test]
fn short_payload_does_not_decode() {
    for len in 0..WIRE_LEN {
        let payload = vec![1u8; len];
        assert!(matches!(decode_message(&payload), Err(ServiceError::Fatal(_))));
    }
}

#[test]
fn event_is_forwarded_while_someone_listens() {
    let event = DrawEvent { x: 3, y: 4, rgb: (1, 2, 3) };
    let payload = broadcast_message(event).unwrap();
    assert_eq!(bus_action("draw-message-bus", &payload, 1), BusAction::Forward(event));
    assert_eq!(bus_action("draw-message-bus", &payload, 2), BusAction::Forward(event));
    assert_eq!(bus_action("draw-message-bus", &payload, 0), BusAction::SkipNoReceivers(event));
}

#[test]
fn message_of_another_channel_is_not_a_draw() {
    let payload = broadcast_message(DrawEvent { x: 3, y: 4, rgb: (1, 2, 3) }).unwrap();
    assert_eq!(bus_action("message-bus", &payload, 5), BusAction::UnknownChannel);
    assert_eq!(bus_action("", &payload, 5), BusAction::UnknownChannel);
    assert_eq!(bus_action("?", &[], 0), BusAction::UnknownChannel);
}

#[test]
fn undecodable_payload_is_reported() {
    let action = bus_action("draw-message-bus", &[1, 2, 3], 4);
    assert!(matches!(action, BusAction::Undecodable(ServiceError::Fatal(_))));
}

#[test]
fn sending_ends_as_sent_or_unsent() {
    let event = DrawEvent { x: 1, y: 1, rgb: (1, 1, 1) };
    assert_eq!(sent_outcome(event, Ok(3)), BusOutcome::Sent(event, 3));
    assert_eq!(sent_outcome(event, Err(event)), BusOutcome::Unsent(event));
}

#[test]
fn two_subscribers_each_get_the_event_once() {
    let event = DrawEvent { x: 3, y: 4, rgb: (1, 2, 3) };
    let payload = broadcast_message(event).unwrap();
    let (draw_tx, mut first) = channel::<DrawEvent>(BROADCAST_CAPACITY);
    let mut second = draw_tx.subscribe();

    let report = handle_redis_message(DRAW_CHANNEL, &payload, &draw_tx);
    assert_eq!(report, BusReport { listening: 2, outcome: BusOutcome::Sent(event, 2) });

    for rx in [&mut first, &mut second] {
        assert_eq!(next_action(rx), Some(StreamAction::Emit(event)));
        assert_eq!(next_action(rx), None);
    }
}

#[test]
fn subscriber_sees_only_what_is_sent_after_it_joined() {
    let before = DrawEvent { x: 1, y: 0, rgb: (1, 1, 1) };
    let after = DrawEvent { x: 2, y: 0, rgb: (2, 2, 2) };
    let (draw_tx, mut early) = channel::<DrawEvent>(BROADCAST_CAPACITY);
    handle_redis_message(DRAW_CHANNEL, &broadcast_message(before).unwrap(), &draw_tx);
    let mut late = draw_tx.subscribe();
    handle_redis_message(DRAW_CHANNEL, &broadcast_message(after).unwrap(), &draw_tx);

    assert_eq!(next_action(&mut early), Some(StreamAction::Emit(before)));
    assert_eq!(next_action(&mut early), Some(StreamAction::Emit(after)));
    assert_eq!(next_action(&mut late), Some(StreamAction::Emit(after)));
    assert_eq!(next_action(&mut late), None);
}

#[test]
fn event_without_subscribers_is_skipped() {
    let event = DrawEvent { x: 3, y: 4, rgb: (1, 2, 3) };
    let payload = broadcast_message(event).unwrap();
    let (draw_tx, rx) = channel::<DrawEvent>(BROADCAST_CAPACITY);
    drop(rx);
    assert_eq!(
        handle_redis_message(DRAW_CHANNEL, &payload, &draw_tx),
        BusReport { listening: 0, outcome: BusOutcome::Skipped(event) }
    );
}

#[test]
fn message_that_is_no_draw_reaches_no_subscriber() {
    let (draw_tx, mut rx) = channel::<DrawEvent>(BROADCAST_CAPACITY);
    let payload = broadcast_message(DrawEvent { x: 3, y: 4, rgb: (1, 2, 3) }).unwrap();
    assert_eq!(
        handle_redis_message("other", &payload, &draw_tx),
        BusReport { listening: 1, outcome: BusOutcome::UnknownChannel }
    );
    assert!(matches!(
        handle_redis_message(DRAW_CHANNEL, &payload[..10], &draw_tx).outcome,
        BusOutcome::Undecodable(ServiceError::Fatal(_))
    ));
    assert_eq!(next_action(&mut rx), None);
}

#[test]
fn slow_subscriber_learns_how_many_events_it_missed() {
    let (draw_tx, mut slow) = channel::<DrawEvent>(2);
    let events: Vec<DrawEvent> =
        (0..5).map(|i| DrawEvent { x: i, y: -i, rgb: (i as u8, 0, 0) }).collect();
    for event in &events {
        let payload = broadcast_message(*event).unwrap();
        assert_eq!(
            handle_redis_message(DRAW_CHANNEL, &payload, &draw_tx),
            BusReport { listening: 1, outcome: BusOutcome::Sent(*event, 1) }
        );
    }
    assert_eq!(next_action(&mut slow), Some(StreamAction::Skip(3)));
    assert_eq!(next_action(&mut slow), Some(StreamAction::Emit(events[3])));
    assert_eq!(next_action(&mut slow), Some(StreamAction::Emit(events[4])));
    assert_eq!(next_action(&mut slow), None);
    drop(draw_tx);
    assert_eq!(next_action(&mut slow), Some(StreamAction::Stop));
}

#[test]
fn lag_is_noted_and_the_stream_goes_on() {
    assert_eq!(handle_received(Received::Lagged(17)), StreamAction::Skip(17));
    assert_eq!(handle_received(Received::Closed), StreamAction::Stop);
    let event = DrawEvent { x: -1, y: -1, rgb: (0, 0, 0) };
    assert_eq!(handle_received(Received::Event(event)), StreamAction::Emit(event));
}

#[test]
fn every_event_has_a_payload() {
    for x in [i32::MIN, -1, 0, 1, i32::MAX] {
        for y in [i32::MIN, -256, 0, 255, i32::MAX] {
            let event = DrawEvent { x, y, rgb: (0, 128, 255) };
            let payload = broadcast_message(event);
            assert!(payload.is_ok());
            assert_eq!(decode_message(&payload.unwrap()), Ok(event));
        }
    }
}

#[test]
fn event_is_sent_to_every_subscriber_that_was_counted() {
    let event = DrawEvent { x: 9, y: 9, rgb: (9, 9, 9) };
    let payload = broadcast_message(event).unwrap();
    let (draw_tx, first) = channel::<DrawEvent>(BROADCAST_CAPACITY);
    let others: Vec<Receiver<DrawEvent>> = (0..4).map(|_| draw_tx.subscribe()).collect();
    let report = handle_redis_message(DRAW_CHANNEL, &payload, &draw_tx);
    assert_eq!(report, BusReport { listening: 5, outcome: BusOutcome::Sent(event, 5) });
    let mut all = others;
    all.push(first);
    for rx in all.iter_mut() {
        assert_eq!(next_action(rx), Some(StreamAction::Emit(event)));
        assert_eq!(next_action(rx), None);
    }
}
