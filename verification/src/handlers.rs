//! What the server answers: the status and body for each outcome of an
//! operation, and the reading of request parameters.

use crate::models::{
    addressable, fails_with, group_origin, ServiceError, ServiceErrorView, MIN_COORD,
};
use crate::query::{tile_lookup, tile_not_found, tile_not_found_at, TileLookup};
use crate::utils::{epoch_to_day, parse_rfc3339_seconds, rfc3339_epoch_seconds};
use vstd::prelude::*;
use vstd::string::*;

verus! {

/// Status of a response that carries what was asked for.
pub const STATUS_OK: u16 = 200;

/// Status of a response to a request that cannot be honoured as it stands.
pub const STATUS_BAD_REQUEST: u16 = 400;

/// Status of a response to a lookup that found nothing.
pub const STATUS_NOT_FOUND: u16 = 404;

/// Status of a response to a request that failed inside the server.
pub const STATUS_INTERNAL: u16 = 500;

/// Seconds between two keep-alive messages on an event stream.
pub const KEEP_ALIVE_SECS: u64 = 1;

/// A status with a text for the client.
#[derive(Debug, PartialEq)]
pub struct TextResponse {
    pub status: u16,
    pub body: String,
}

/// A [`TextResponse`] with its body as a sequence of characters.
pub struct TextResponseView {
    pub status: u16,
    pub body: Seq<char>,
}

impl View for TextResponse {
    type V = TextResponseView;

    open spec fn view(&self) -> TextResponseView {
        TextResponseView { status: self.status, body: self.body@ }
    }
}

/// The one text that a client sees of any failure inside the server.
pub open spec fn generic_failure() -> Seq<char> {
    "An unexpected error has occurred"@
}

/// The response that reports `err`: a missing resource and a refusal carry
/// their own message, a failure inside the server carries none of its own.
pub open spec fn response_of_error(err: ServiceErrorView) -> TextResponseView {
    match err {
        ServiceErrorView::NotFound(message) => TextResponseView {
            status: STATUS_NOT_FOUND,
            body: message,
        },
        ServiceErrorView::Forbidden(message) => TextResponseView {
            status: STATUS_BAD_REQUEST,
            body: message,
        },
        ServiceErrorView::Fatal(_) => TextResponseView {
            status: STATUS_INTERNAL,
            body: generic_failure(),
        },
    }
}

/// The response that reports a failed operation to the client.
pub fn error_response(err: ServiceError) -> (response: TextResponse)
    ensures
        response@ == response_of_error(err@),
{
    match err {
        ServiceError::NotFound(message) => TextResponse { status: STATUS_NOT_FOUND, body: message },
        ServiceError::Forbidden(message) => TextResponse {
            status: STATUS_BAD_REQUEST,
            body: message,
        },
        ServiceError::Fatal(_) => TextResponse {
            status: STATUS_INTERNAL,
            body: String::from_str("An unexpected error has occurred"),
        },
    }
}

/// Whatever went wrong inside the server, the client reads the same text.
pub proof fn lemma_failure_detail_stays_inside(detail: Seq<char>, other: Seq<char>)
    ensures
        response_of_error(ServiceErrorView::Fatal(detail)) == response_of_error(
            ServiceErrorView::Fatal(other),
        ),
{
}

/// The response to a draw request.
pub fn post_tile_response(result: Result<(), ServiceError>) -> (response: TextResponse)
    ensures
        result is Ok ==> response@ == (TextResponseView {
            status: STATUS_OK,
            body: "Successfully drew the tile"@,
        }),
        result matches Err(e) ==> response@ == response_of_error(e@),
{
    match result {
        Ok(()) => TextResponse {
            status: STATUS_OK,
            body: String::from_str("Successfully drew the tile"),
        },
        Err(e) => error_response(e),
    }
}

/// What the request said of the address that a proxy forwarded it for.
#[derive(Debug, PartialEq)]
pub enum ForwardedFor {
    /// The request names no forwarded address.
    Missing,
    /// The header is no text.
    Unreadable,
    /// The header is text but no address.
    Invalid,
    /// The header names this address.
    Address(String),
}

/// The response to a request whose forwarded address is no text.
pub open spec fn unreadable_forwarded_for() -> TextResponseView {
    TextResponseView {
        status: STATUS_INTERNAL,
        body: "Failed to convert X-Forwarded-For header to string"@,
    }
}

/// The response to a request whose forwarded address is no address.
pub open spec fn invalid_forwarded_for() -> TextResponseView {
    TextResponseView {
        status: STATUS_INTERNAL,
        body: "Failed to parse ip address in X-Forwarded-For header"@,
    }
}

/// The address that a request is accounted to: the one that a proxy
/// forwarded it for, if the request names one, else the one it came from.
pub fn get_ip_address(forwarded: ForwardedFor, peer: String) -> (res: Result<String, TextResponse>)
    ensures
        forwarded is Missing ==> res == Ok::<String, TextResponse>(peer),
        forwarded matches ForwardedFor::Address(ip) ==> res == Ok::<String, TextResponse>(ip),
        forwarded is Unreadable ==> (res matches Err(r) && r@ == unreadable_forwarded_for()),
        forwarded is Invalid ==> (res matches Err(r) && r@ == invalid_forwarded_for()),
{
    match forwarded {
        ForwardedFor::Missing => Ok(peer),
        ForwardedFor::Address(ip) => Ok(ip),
        ForwardedFor::Unreadable => Err(
            TextResponse {
                status: STATUS_INTERNAL,
                body: String::from_str("Failed to convert X-Forwarded-For header to string"),
            },
        ),
        ForwardedFor::Invalid => Err(
            TextResponse {
                status: STATUS_INTERNAL,
                body: String::from_str("Failed to parse ip address in X-Forwarded-For header"),
            },
        ),
    }
}

/// Parameters that name one tile, or the origin of one group.
#[derive(Debug, PartialEq, Eq, Copy, Clone)]
pub struct PointQuery {
    pub x: i32,
    pub y: i32,
}

/// The lookup that answers a request for the tile that `query` names. A
/// tile outside the canvas was never drawn, so no lookup is made for it.
pub fn get_tile_lookup(query: PointQuery) -> (res: Result<TileLookup, ServiceError>)
    ensures
        addressable(query.x as int) && addressable(query.y as int) ==> res == Ok::<
            TileLookup,
            ServiceError,
        >(
            TileLookup {
                group_x: group_origin(query.x as int) as i32,
                group_y: group_origin(query.y as int) as i32,
                x: query.x,
                y: query.y,
            },
        ),
        !(addressable(query.x as int) && addressable(query.y as int)) ==> fails_with(
            res,
            tile_not_found(query.x as int, query.y as int),
        ),
{
    if query.x < MIN_COORD || query.y < MIN_COORD {
        Err(tile_not_found_at(query.x, query.y))
    } else {
        Ok(tile_lookup(query.x, query.y))
    }
}

/// Parameters of a request for placements.
#[derive(Debug, PartialEq)]
pub struct TimeQuery {
    /// How many days before today the day of interest lies; today if absent.
    pub days_ago: Option<i64>,
    /// RFC 3339 instant before which the placements of interest were made;
    /// the present if absent.
    pub timestamp_after: Option<String>,
}

/// Most placements that one response holds.
pub const PLACEMENTS_LIMIT: usize = 1000;

/// One scan of the placements of a day.
#[derive(Debug, PartialEq, Eq, Copy, Clone)]
pub struct PlacementScan {
    /// Whole days since the epoch.
    pub day: i64,
    /// Only placements made before this instant, in milliseconds since the
    /// epoch, are of interest.
    pub before_ms: i64,
    /// Most placements to return.
    pub limit: usize,
}

/// What a request for placements calls for.
#[derive(Debug, PartialEq)]
pub enum PlacementsPlan {
    /// The request is refused.
    Reject(TextResponse),
    /// The day lies before the epoch: there is nothing to return.
    Empty,
    /// The store is scanned.
    Scan(PlacementScan),
}

/// The instant `secs` seconds after the epoch in milliseconds, held to the
/// range of a timestamp.
pub open spec fn cursor_millis(secs: int) -> i64 {
    if secs * 1000 > i64::MAX {
        i64::MAX
    } else if secs * 1000 < i64::MIN {
        i64::MIN
    } else {
        (secs * 1000) as i64
    }
}

/// The response to a request that asks for a day in the future.
pub open spec fn negative_days_ago() -> TextResponseView {
    TextResponseView {
        status: STATUS_BAD_REQUEST,
        body: "Days ago query must be a positive integer"@,
    }
}

/// The response to a request whose instant is no RFC 3339 text.
pub open spec fn unparsable_timestamp() -> TextResponseView {
    TextResponseView {
        status: STATUS_BAD_REQUEST,
        body: "Could not parse timestamp_after field, must be in RFC 3339 timestamp format"@,
    }
}

/// What a request says of the instant before which placements are wanted.
#[derive(Debug, PartialEq, Eq, Copy, Clone)]
pub enum Cursor {
    /// Nothing: the present is meant.
    Absent,
    /// Something that is no RFC 3339 instant.
    Unparsable,
    /// The instant this many seconds after the epoch.
    At(i64),
}

/// The plan that a request made `now_secs` seconds after the epoch calls
/// for, given its parameters as they were read.
pub open spec fn plan_of(days_ago: Option<i64>, cursor: Cursor, now_secs: u64) -> Result<
    Option<PlacementScan>,
    TextResponseView,
> {
    let back: int = match days_ago {
        Some(days) => days as int,
        None => 0,
    };
    let day = now_secs as int / 86400 - back;
    if back < 0 {
        Err(negative_days_ago())
    } else {
        match cursor {
            Cursor::Unparsable => Err(unparsable_timestamp()),
            _ => if day < 0 {
                Ok(None)
            } else {
                Ok(
                    Some(
                        PlacementScan {
                            day: day as i64,
                            before_ms: match cursor {
                                Cursor::At(secs) => cursor_millis(secs as int),
                                _ => cursor_millis(now_secs as int),
                            },
                            limit: PLACEMENTS_LIMIT,
                        },
                    ),
                )
            },
        }
    }
}

/// Whether `plan` is what `planned` describes.
pub open spec fn is_plan(
    plan: PlacementsPlan,
    planned: Result<Option<PlacementScan>, TextResponseView>,
) -> bool {
    match planned {
        Err(refusal) => plan matches PlacementsPlan::Reject(r) && r@ == refusal,
        Ok(None) => plan == PlacementsPlan::Empty,
        Ok(Some(scan)) => plan == PlacementsPlan::Scan(scan),
    }
}

fn to_cursor_millis(secs: i64) -> (millis: i64)
    ensures
        millis == cursor_millis(secs as int),
{
    if secs > i64::MAX / 1000 {
        i64::MAX
    } else if secs < i64::MIN / 1000 {
        i64::MIN
    } else {
        secs * 1000
    }
}

/// Decides what a request for placements that arrives `now_secs` seconds
/// after the epoch calls for, given its parameters as they were read. A
/// negative number of days and an instant that does not parse are refused;
/// a day before the epoch has no placements; anything else scans the day
/// that lies `days_ago` days before today for placements made before the
/// given instant, or before now if none is given.
pub fn plan_placements(days_ago: Option<i64>, cursor: Cursor, now_secs: u64) -> (plan:
    PlacementsPlan)
    ensures
        is_plan(plan, plan_of(days_ago, cursor, now_secs)),
{
    let back: i64 = match days_ago {
        Some(days) => days,
        None => 0,
    };
    if back < 0 {
        return PlacementsPlan::Reject(
            TextResponse {
                status: STATUS_BAD_REQUEST,
                body: String::from_str("Days ago query must be a positive integer"),
            },
        );
    }
    let before_ms: i64 = match cursor {
        Cursor::Absent => {
            if now_secs > (i64::MAX / 1000) as u64 {
                i64::MAX
            } else {
                (now_secs * 1000) as i64
            }
        },
        Cursor::At(secs) => to_cursor_millis(secs),
        Cursor::Unparsable => {
            return PlacementsPlan::Reject(
                TextResponse {
                    status: STATUS_BAD_REQUEST,
                    body: String::from_str(
                        "Could not parse timestamp_after field, must be in RFC 3339 timestamp format",
                    ),
                },
            );
        },
    };
    let day = epoch_to_day(now_secs) - back;
    if day < 0 {
        PlacementsPlan::Empty
    } else {
        PlacementsPlan::Scan(PlacementScan { day, before_ms, limit: PLACEMENTS_LIMIT })
    }
}

/// The cursor that the text of a request parameter stands for.
pub open spec fn cursor_of(timestamp_after: Option<String>) -> Cursor {
    match timestamp_after {
        None => Cursor::Absent,
        Some(text) => match rfc3339_epoch_seconds(text@) {
            None => Cursor::Unparsable,
            Some(secs) => Cursor::At(secs),
        },
    }
}

/// Reads the parameters of a request for placements that arrives `now_secs`
/// seconds after the epoch, and decides what the request calls for.
pub fn placements_plan(query: &TimeQuery, now_secs: u64) -> (plan: PlacementsPlan)
    ensures
        is_plan(plan, plan_of(query.days_ago, cursor_of(query.timestamp_after), now_secs)),
{
    let cursor = match &query.timestamp_after {
        None => Cursor::Absent,
        Some(text) => match parse_rfc3339_seconds(text.as_str()) {
            Some(secs) => Cursor::At(secs),
            None => Cursor::Unparsable,
        },
    };
    plan_placements(query.days_ago, cursor, now_secs)
}

} // verus!
