//! The broadcast bus: the payload that announces a draw on the channel that
//! all replicas share, and what a replica does with what it receives there.

use crate::models::{DrawEvent, ServiceError};
use vstd::prelude::*;
use vstd::string::*;

verus! {

/// Number of events that the in-process fan-out keeps for slow subscribers.
pub const BROADCAST_CAPACITY: usize = 1000;

/// Name of the channel on which the replicas announce draws to each other.
pub const DRAW_CHANNEL: &'static str = "draw-message-bus";

/// Length in bytes of the payload of one draw event.
pub const WIRE_LEN: usize = 11;

/// The value of `v` read as an unsigned 32-bit number in two's complement.
pub open spec fn twos_complement(v: i32) -> int {
    if v >= 0 {
        v as int
    } else {
        v + 0x1_0000_0000
    }
}

/// The four bytes of `v`, least significant first.
pub open spec fn le_bytes(v: i32) -> Seq<u8> {
    let u = twos_complement(v);
    seq![
        (u % 256) as u8,
        (u / 256 % 256) as u8,
        (u / 65536 % 256) as u8,
        (u / 16777216) as u8,
    ]
}

/// The number that four bytes, least significant first, stand for.
pub open spec fn from_le_bytes(bytes: Seq<u8>) -> i32 {
    let u = bytes[0] + bytes[1] * 256 + bytes[2] * 65536 + bytes[3] * 16777216;
    if u < 0x8000_0000 {
        u as i32
    } else {
        (u - 0x1_0000_0000) as i32
    }
}

/// The payload of `event`: both coordinates as four bytes each, least
/// significant first, then the three bytes of the colour.
pub open spec fn wire_encode(event: DrawEvent) -> Seq<u8> {
    le_bytes(event.x) + le_bytes(event.y) + seq![event.rgb.0, event.rgb.1, event.rgb.2]
}

/// The event that a payload stands for. Bytes that follow the event are
/// ignored; a payload that is too short stands for nothing.
pub open spec fn wire_decode(payload: Seq<u8>) -> Option<DrawEvent> {
    if payload.len() < WIRE_LEN {
        None
    } else {
        Some(
            DrawEvent {
                x: from_le_bytes(payload.subrange(0, 4)),
                y: from_le_bytes(payload.subrange(4, 8)),
                rgb: (payload[8], payload[9], payload[10]),
            },
        )
    }
}

/// Four bytes written for a number read back as that number.
pub proof fn lemma_le_bytes_round_trip(v: i32)
    ensures
        le_bytes(v).len() == 4,
        from_le_bytes(le_bytes(v)) == v,
{
}

/// An event that was encoded decodes to itself, whatever follows it in the
/// payload.
pub proof fn lemma_wire_round_trip(event: DrawEvent, trailing: Seq<u8>)
    ensures
        wire_encode(event).len() == WIRE_LEN,
        wire_decode(wire_encode(event) + trailing) == Some(event),
{
    let payload = wire_encode(event) + trailing;
    lemma_le_bytes_round_trip(event.x);
    lemma_le_bytes_round_trip(event.y);
    assert(payload.subrange(0, 4) =~= le_bytes(event.x));
    assert(payload.subrange(4, 8) =~= le_bytes(event.y));
}

/// bincode's `ErrorKind`, the error of the payload codec. Nothing is known
/// of a value of it but its text.
#[verifier::external_type_specification]
#[verifier::external_body]
pub struct ExPayloadError(bincode::ErrorKind);

/// Calls `bincode::serialize` on the fields of `event` as a tuple. That
/// function sets no size limit and writes into a growing buffer, and the
/// fields are numbers and bytes of fixed width, so the contract claims that
/// the call succeeds. With the settings of that function a number takes its
/// fixed width, least significant byte first, and a byte takes one byte, so
/// the contract claims that what is returned is [`wire_encode`] of the event.
#[verifier::external_body]
fn serialize_event(event: DrawEvent) -> (res: Result<Vec<u8>, Box<bincode::ErrorKind>>)
    ensures
        res is Ok,
        res matches Ok(payload) ==> payload@ == wire_encode(event),
{
    bincode::serialize(&(event.x, event.y, event.rgb))
}

/// Calls `bincode::deserialize` for a tuple of the fields of an event. With
/// the settings of that function the fields are read at their fixed widths
/// from the front of the slice and bytes left over are allowed, so the
/// contract claims that the call succeeds exactly on slices that hold a whole
/// event, and then returns [`wire_decode`] of the slice.
#[verifier::external_body]
fn deserialize_event(payload: &[u8]) -> (res: Result<
    (i32, i32, (u8, u8, u8)),
    Box<bincode::ErrorKind>,
>)
    ensures
        res is Ok <==> wire_decode(payload@) is Some,
        res matches Ok(fields) ==> wire_decode(payload@) == Some(
            DrawEvent { x: fields.0, y: fields.1, rgb: fields.2 },
        ),
{
    bincode::deserialize::<(i32, i32, (u8, u8, u8))>(payload)
}

/// The payload by which `msg` is published on the channel. There is one for
/// every event, and it decodes to the event.
pub fn broadcast_message(msg: DrawEvent) -> (res: Result<Vec<u8>, ServiceError>)
    ensures
        res matches Ok(payload) && payload@ == wire_encode(msg) && wire_decode(payload@) == Some(
            msg,
        ),
{
    proof {
        lemma_wire_round_trip(msg, Seq::empty());
        assert(wire_encode(msg) + Seq::<u8>::empty() =~= wire_encode(msg));
    }
    match serialize_event(msg) {
        Ok(payload) => Ok(payload),
        Err(e) => Err(ServiceError::map_fatal(&e, "when serializing draw_msg")),
    }
}

/// The event that a payload received on the channel announces.
pub fn decode_message(payload: &[u8]) -> (res: Result<DrawEvent, ServiceError>)
    ensures
        match wire_decode(payload@) {
            Some(event) => res == Ok::<DrawEvent, ServiceError>(event),
            None => res matches Err(e) && e is Fatal,
        },
{
    match deserialize_event(payload) {
        Ok(fields) => Ok(DrawEvent { x: fields.0, y: fields.1, rgb: fields.2 }),
        Err(e) => Err(ServiceError::map_fatal(&e, "when deserializing draw_msg")),
    }
}

/// What a replica does with one message of the shared channel.
#[derive(Debug, PartialEq)]
pub enum BusAction {
    /// Hand the event to the in-process fan-out.
    Forward(DrawEvent),
    /// Nobody listens in this process: drop the event.
    SkipNoReceivers(DrawEvent),
    /// The payload is no event: report it and go on.
    Undecodable(ServiceError),
    /// The message came on a channel that carries no draws.
    UnknownChannel,
}

/// Whether `action` is what a message with `payload`, received on `channel`
/// while `receiver_count` subscribers listen, calls for.
pub open spec fn is_bus_action(
    action: BusAction,
    channel: Seq<char>,
    payload: Seq<u8>,
    receiver_count: usize,
) -> bool {
    if channel != DRAW_CHANNEL@ {
        action is UnknownChannel
    } else {
        match wire_decode(payload) {
            None => action matches BusAction::Undecodable(e) && e is Fatal,
            Some(event) => if receiver_count >= 1 {
                action == BusAction::Forward(event)
            } else {
                action == BusAction::SkipNoReceivers(event)
            },
        }
    }
}

/// Decides what to do with one message of the shared channel: an event is
/// forwarded while at least one subscriber listens, a payload that does not
/// decode is reported, and the subscription goes on in every case.
pub fn bus_action(channel: &str, payload: &[u8], receiver_count: usize) -> (action: BusAction)
    ensures
        is_bus_action(action, channel@, payload@, receiver_count),
{
    if !channel.to_owned().eq(&String::from_str(DRAW_CHANNEL)) {
        return BusAction::UnknownChannel;
    }
    match decode_message(payload) {
        Err(e) => BusAction::Undecodable(e),
        Ok(event) => {
            if receiver_count >= 1 {
                BusAction::Forward(event)
            } else {
                BusAction::SkipNoReceivers(event)
            }
        },
    }
}

/// tokio's `broadcast::Sender`, the sending side of the in-process fan-out.
/// Nothing is known of what a value of it holds.
#[verifier::external_type_specification]
#[verifier::external_body]
#[verifier::reject_recursive_types(T)]
pub struct ExFanOut<T>(tokio::sync::broadcast::Sender<T>);

/// The sending side of the fan-out of draw events.
pub type DrawSender = tokio::sync::broadcast::Sender<DrawEvent>;

/// Calls tokio's `broadcast::Sender::receiver_count`. How many subscribers
/// listen changes from one moment to the next, so nothing is claimed of the
/// number.
#[verifier::external_body]
fn count_receivers(draw_tx: &DrawSender) -> usize {
    draw_tx.receiver_count()
}

/// Calls tokio's `broadcast::Sender::send`. The contract claims what the
/// documentation of that method says of its result: on success the number of
/// subscribers, of which there is then at least one; on failure the value
/// that was not sent.
#[verifier::external_body]
fn send_to_receivers(draw_tx: &DrawSender, event: DrawEvent) -> (res: Result<usize, DrawEvent>)
    ensures
        res matches Ok(receivers) ==> receivers >= 1,
        res matches Err(unsent) ==> unsent == event,
{
    match draw_tx.send(event) {
        Ok(receivers) => Ok(receivers),
        Err(unsent) => Err(unsent.0),
    }
}

/// What became of one message of the shared channel.
#[derive(Debug, PartialEq)]
pub enum BusOutcome {
    /// The event went to this many subscribers.
    Sent(DrawEvent, usize),
    /// The last subscriber left before the event could be sent.
    Unsent(DrawEvent),
    /// Nobody listened: the event was dropped.
    Skipped(DrawEvent),
    /// The payload is no event.
    Undecodable(ServiceError),
    /// The message came on a channel that carries no draws.
    UnknownChannel,
}

/// What became of one message of the shared channel, with the number of
/// subscribers that listened when the message was looked at.
#[derive(Debug, PartialEq)]
pub struct BusReport {
    /// Number of subscribers that the fan-out counted.
    pub listening: usize,
    /// What became of the message.
    pub outcome: BusOutcome,
}

/// What became of an event that was to be forwarded, given how the sending
/// ended.
pub fn sent_outcome(event: DrawEvent, sent: Result<usize, DrawEvent>) -> (outcome: BusOutcome)
    ensures
        sent matches Ok(receivers) ==> outcome == BusOutcome::Sent(event, receivers),
        sent is Err ==> outcome == BusOutcome::Unsent(event),
{
    match sent {
        Ok(receivers) => BusOutcome::Sent(event, receivers),
        Err(_) => BusOutcome::Unsent(event),
    }
}

/// Whether `outcome` is one that a message with `payload`, received on
/// `channel` while `listening` subscribers were counted, can have. Only a
/// message of the draw channel is decoded, and only what the payload decodes
/// to is ever passed on. An event is sent whenever a subscriber was counted,
/// which fails only if the last one has left since; it is skipped only when
/// none was counted.
pub open spec fn is_bus_outcome(
    outcome: BusOutcome,
    channel: Seq<char>,
    payload: Seq<u8>,
    listening: usize,
) -> bool {
    if channel != DRAW_CHANNEL@ {
        outcome is UnknownChannel
    } else {
        match wire_decode(payload) {
            None => outcome matches BusOutcome::Undecodable(e) && e is Fatal,
            Some(event) => if listening >= 1 {
                ||| outcome matches BusOutcome::Sent(sent, receivers) && sent == event && receivers
                    >= 1
                ||| outcome == BusOutcome::Unsent(event)
            } else {
                outcome == BusOutcome::Skipped(event)
            },
        }
    }
}

/// Handles one message of the shared channel: counts the subscribers of
/// `draw_tx`, decodes the payload and sends the event to them if one was
/// counted. How many there are is for the fan-out to say at the moment of
/// the call; what is done with that number is stated here.
pub fn handle_redis_message(channel: &str, payload: &[u8], draw_tx: &DrawSender) -> (report:
    BusReport)
    ensures
        is_bus_outcome(report.outcome, channel@, payload@, report.listening),
{
    let listening = count_receivers(draw_tx);
    let outcome = match bus_action(channel, payload, listening) {
        BusAction::Forward(event) => sent_outcome(event, send_to_receivers(draw_tx, event)),
        BusAction::SkipNoReceivers(event) => BusOutcome::Skipped(event),
        BusAction::Undecodable(e) => BusOutcome::Undecodable(e),
        BusAction::UnknownChannel => BusOutcome::UnknownChannel,
    };
    BusReport { listening, outcome }
}

/// A draw that was published reaches the fan-out of every replica that has
/// a subscriber, as the event that was drawn.
pub proof fn lemma_published_event_is_forwarded(
    event: DrawEvent,
    receiver_count: usize,
    action: BusAction,
)
    requires
        receiver_count >= 1,
        is_bus_action(action, DRAW_CHANNEL@, wire_encode(event), receiver_count),
    ensures
        action == BusAction::Forward(event),
{
    lemma_wire_round_trip(event, Seq::empty());
    assert(wire_encode(event) + Seq::<u8>::empty() =~= wire_encode(event));
}

/// A draw that was published is never mistaken for anything else, and is
/// never dropped where somebody listens: the event that a replica sends is
/// the one that was drawn, it is sent whenever a subscriber was counted, and
/// it is skipped only when none was.
pub proof fn lemma_published_event_keeps_its_identity(
    event: DrawEvent,
    outcome: BusOutcome,
    listening: usize,
)
    requires
        is_bus_outcome(outcome, DRAW_CHANNEL@, wire_encode(event), listening),
    ensures
        listening >= 1 ==> ({
            ||| outcome matches BusOutcome::Sent(sent, receivers) && sent == event && receivers
                >= 1
            ||| outcome == BusOutcome::Unsent(event)
        }),
        listening == 0 ==> outcome == BusOutcome::Skipped(event),
{
    lemma_wire_round_trip(event, Seq::empty());
    assert(wire_encode(event) + Seq::<u8>::empty() =~= wire_encode(event));
}

/// What a subscriber got from the in-process fan-out.
#[derive(Debug, PartialEq, Eq, Copy, Clone)]
pub enum Received {
    /// The next event.
    Event(DrawEvent),
    /// The subscriber fell behind and this many events were dropped for it.
    Lagged(u64),
    /// The fan-out was shut down.
    Closed,
}

/// What a subscriber's stream does next.
#[derive(Debug, PartialEq, Eq, Copy, Clone)]
pub enum StreamAction {
    /// Send the event to the client and go on.
    Emit(DrawEvent),
    /// Note that this many events were missed and go on.
    Skip(u64),
    /// End the stream.
    Stop,
}

/// Decides how a subscriber's stream goes on: every event is passed to the
/// client, a lag is noted without ending the stream, and the stream ends
/// only when the fan-out does.
pub fn handle_received(received: Received) -> (action: StreamAction)
    ensures
        received matches Received::Event(event) ==> action == StreamAction::Emit(event),
        received matches Received::Lagged(missed) ==> action == StreamAction::Skip(missed),
        received is Closed ==> action == StreamAction::Stop,
{
    match received {
        Received::Event(event) => StreamAction::Emit(event),
        Received::Lagged(missed) => StreamAction::Skip(missed),
        Received::Closed => StreamAction::Stop,
    }
}

} // verus!
