//! The group cache as the server sees it: how a group is named, how a cached
//! buffer is read, and which byte range a draw overwrites.

use crate::gate::{draw_threshold, threshold_at};
use crate::models::{
    addressable, fails_with, group_origin, packed, tile_offset, zeroed_group, DrawEvent, GroupKey,
    ServiceError, ServiceErrorView, TileGroup, GROUP_LEN,
};
use crate::text::{
    decimal_int, fmt_i32, lemma_decimal_int_has_no_comma, lemma_decimal_int_is_injective,
};
use vstd::prelude::*;
use vstd::string::*;

verus! {

/// Text under which the cache holds the group with origin `(gx, gy)`.
pub open spec fn group_key_text(gx: int, gy: int) -> Seq<char> {
    seq!['('] + decimal_int(gx) + seq![','] + decimal_int(gy) + seq![')']
}

/// The cache key of the group `key`.
pub fn cache_key(key: GroupKey) -> (text: String)
    ensures
        text@ == group_key_text(key.0 as int, key.1 as int),
{
    proof {
        reveal_strlit("(");
        reveal_strlit(",");
        reveal_strlit(")");
    }
    let gx = fmt_i32(key.0);
    let gy = fmt_i32(key.1);
    let text = String::from_str("(").concat(gx.as_str()).concat(",").concat(gy.as_str()).concat(
        ")",
    );
    assert(text@ =~= group_key_text(key.0 as int, key.1 as int));
    text
}

/// No two groups share a cache entry: groups with the same key text have the
/// same origin.
pub proof fn lemma_cache_key_is_injective(gx: int, gy: int, hx: int, hy: int)
    requires
        group_key_text(gx, gy) == group_key_text(hx, hy),
    ensures
        gx == hx,
        gy == hy,
{
    let a = decimal_int(gx);
    let b = decimal_int(gy);
    let c = decimal_int(hx);
    let d = decimal_int(hy);
    let left = group_key_text(gx, gy);
    let right = group_key_text(hx, hy);
    lemma_decimal_int_has_no_comma(gx);
    lemma_decimal_int_has_no_comma(gy);
    lemma_decimal_int_has_no_comma(hx);
    lemma_decimal_int_has_no_comma(hy);
    let la = a.len() as int;
    let lb = b.len() as int;
    let lc = c.len() as int;
    let ld = d.len() as int;
    assert(left.len() == la + lb + 3);
    assert(right.len() == lc + ld + 3);
    assert(left[1 + la] == ',');
    assert(right[1 + lc] == ',');
    if la < lc {
        assert(right[1 + la] == c[la]);
    } else if lc < la {
        assert(left[1 + lc] == a[lc]);
    }
    assert(a =~= left.subrange(1, 1 + la));
    assert(c =~= right.subrange(1, 1 + lc));
    assert(b =~= left.subrange(2 + la, 2 + la + lb));
    assert(d =~= right.subrange(2 + lc, 2 + lc + ld));
    lemma_decimal_int_is_injective(gx, hx);
    lemma_decimal_int_is_injective(gy, hy);
}

/// What a cached buffer of a length that no group has is reported as.
pub open spec fn corrupt_buffer() -> ServiceErrorView {
    ServiceErrorView::Fatal("Failed to get cached group due to invalid buffer length"@)
}

/// What a buffer that the cache returned for a group key holds: nothing, if
/// it is empty; a group, if it has the length of one.
pub open spec fn cached_group(buffer: Seq<u8>) -> Result<Option<Seq<u8>>, ServiceErrorView> {
    if buffer.len() == 0 {
        Ok(None)
    } else if buffer.len() == GROUP_LEN {
        Ok(Some(buffer))
    } else {
        Err(corrupt_buffer())
    }
}

/// Reads what the cache returned for a group key. An empty buffer means that
/// the cache holds nothing under the key; a buffer of the length of a group
/// is that group; any other length is corruption.
pub fn get_cached_group(buffer: Vec<u8>) -> (res: Result<Option<TileGroup>, ServiceError>)
    ensures
        match cached_group(buffer@) {
            Ok(None) => res == Ok::<Option<TileGroup>, ServiceError>(None),
            Ok(Some(_)) => res == Ok::<Option<TileGroup>, ServiceError>(Some(TileGroup(buffer))),
            Err(corruption) => fails_with(res, corruption),
        },
{
    if buffer.len() == 0 {
        Ok(None)
    } else if buffer.len() != GROUP_LEN {
        Err(
            ServiceError::Fatal(
                String::from_str("Failed to get cached group due to invalid buffer length"),
            ),
        )
    } else {
        Ok(Some(TileGroup(buffer)))
    }
}

/// A group that was stored in the cache is read back from it as it was.
pub proof fn lemma_cached_group_round_trip(group: TileGroup)
    requires
        group.wf(),
    ensures
        cached_group(group@) == Ok::<Option<Seq<u8>>, ServiceErrorView>(Some(group@)),
{
}

/// A full overwrite of one cache entry.
#[derive(Debug, PartialEq)]
pub struct CacheFill {
    pub key: String,
    pub value: Vec<u8>,
}

/// The overwrite that stores `group` under `key`.
pub fn set_cached_group(key: GroupKey, group: &TileGroup) -> (fill: CacheFill)
    ensures
        fill.key@ == group_key_text(key.0 as int, key.1 as int),
        fill.value@ == group@,
{
    CacheFill { key: cache_key(key), value: group.0.clone() }
}

/// A request to create a cache entry of `len` zero bytes unless the key
/// already holds one.
#[derive(Debug, PartialEq)]
pub struct ZeroInit {
    pub key: String,
    pub len: usize,
}

/// The request that makes sure the group `key` has a buffer in the cache.
pub fn init_cached_group(key: GroupKey) -> (init: ZeroInit)
    ensures
        init.key@ == group_key_text(key.0 as int, key.1 as int),
        init.len == GROUP_LEN,
{
    ZeroInit { key: cache_key(key), len: GROUP_LEN }
}

/// An overwrite of three bytes inside one cache entry.
#[derive(Debug, PartialEq)]
pub struct CachePatch {
    pub key: String,
    pub byte_offset: usize,
    pub value: [u8; 3],
}

/// The byte-range write by which the cache takes up `draw`: the three bytes
/// of its colour, at the offset of its tile, in the buffer of its group.
pub fn upsert_cached_group(draw: DrawEvent) -> (patch: CachePatch)
    requires
        addressable(draw.x as int),
        addressable(draw.y as int),
    ensures
        patch.key@ == group_key_text(group_origin(draw.x as int), group_origin(draw.y as int)),
        patch.byte_offset == tile_offset(
            draw.x - group_origin(draw.x as int),
            draw.y - group_origin(draw.y as int),
        ),
        patch.byte_offset + 3 <= GROUP_LEN,
        patch.value@ == seq![draw.rgb.0, draw.rgb.1, draw.rgb.2],
{
    let key = GroupKey::from_point(draw.x, draw.y);
    let x_offset = (draw.x - key.0) as usize;
    let y_offset = (draw.y - key.1) as usize;
    let byte_offset = TileGroup::get_offset(x_offset, y_offset);
    let value = [draw.rgb.0, draw.rgb.1, draw.rgb.2];
    assert(value@ =~= seq![draw.rgb.0, draw.rgb.1, draw.rgb.2]);
    CachePatch { key: cache_key(key), byte_offset, value }
}

/// The buffer that an entry holds once it has been made sure to exist.
pub open spec fn zero_initialized(entry: Option<Seq<u8>>) -> Seq<u8> {
    match entry {
        Some(buffer) => buffer,
        None => zeroed_group(),
    }
}

/// The buffer `buffer` with `value` written over it from `offset` on.
pub open spec fn range_written(buffer: Seq<u8>, offset: int, value: Seq<u8>) -> Seq<u8> {
    Seq::new(
        buffer.len(),
        |i: int|
            if offset <= i < offset + value.len() {
                value[i - offset]
            } else {
                buffer[i]
            },
    )
}

/// Taking up a draw through the cache, by zero-initialising the entry and
/// then writing the byte range, leaves the entry as setting the tile in the
/// group would.
pub proof fn lemma_upsert_sets_tile(entry: Option<Seq<u8>>, draw: DrawEvent)
    requires
        entry matches Some(buffer) ==> buffer.len() == GROUP_LEN,
    ensures
        range_written(
            zero_initialized(entry),
            tile_offset(
                draw.x - group_origin(draw.x as int),
                draw.y - group_origin(draw.y as int),
            ),
            seq![draw.rgb.0, draw.rgb.1, draw.rgb.2],
        ) == packed(
            zero_initialized(entry),
            draw.x - group_origin(draw.x as int),
            draw.y - group_origin(draw.y as int),
            draw.rgb,
        ),
{
    let dx = draw.x - group_origin(draw.x as int);
    let dy = draw.y - group_origin(draw.y as int);
    assert(range_written(
        zero_initialized(entry),
        tile_offset(dx, dy),
        seq![draw.rgb.0, draw.rgb.1, draw.rgb.2],
    ) =~= packed(zero_initialized(entry), dx, dy, draw.rgb));
}

/// The entry of a group after the cache took up `draws` one after the other,
/// given what it held before.
pub open spec fn entry_after_draws(entry: Option<Seq<u8>>, draws: Seq<DrawEvent>) -> Option<
    Seq<u8>,
>
    decreases draws.len(),
{
    if draws.len() == 0 {
        entry
    } else {
        let draw = draws.last();
        Some(
            range_written(
                zero_initialized(entry_after_draws(entry, draws.drop_last())),
                tile_offset(
                    draw.x - group_origin(draw.x as int),
                    draw.y - group_origin(draw.y as int),
                ),
                seq![draw.rgb.0, draw.rgb.1, draw.rgb.2],
            ),
        )
    }
}

/// What the limiter is asked for one draw.
#[derive(Debug, PartialEq)]
pub struct GateRequest {
    /// Name of the client's entry.
    pub key: String,
    /// Instant of the draw.
    pub now_ms: u64,
    /// Instant before which a stored placement no longer blocks the draw.
    pub threshold_ms: u64,
}

/// The question put to the limiter for a draw that the client `key` makes at
/// `now_ms`.
pub fn update_placement(key: String, now_ms: u64) -> (request: GateRequest)
    ensures
        request.key == key,
        request.now_ms == now_ms,
        request.threshold_ms == threshold_at(now_ms),
{
    GateRequest { key, now_ms, threshold_ms: draw_threshold(now_ms) }
}

/// Seconds after which a lock that was not released expires by itself.
pub const LOCK_TTL_SECS: u64 = 5;

/// Number of times that a lock is tried before the attempt is given up.
pub const LOCK_ATTEMPTS: u32 = 100;

/// Milliseconds between two tries for a lock.
pub const LOCK_RETRY_MS: u64 = 50;

/// Text under which the cache holds the lock `name`.
pub open spec fn lock_key_text(name: Seq<char>) -> Seq<char> {
    "redis_lock_"@ + name
}

/// The cache key of the lock `name`.
pub fn lock_key(name: &str) -> (key: String)
    ensures
        key@ == lock_key_text(name@),
{
    String::from_str("redis_lock_").concat(name)
}

/// What follows one try for a lock.
#[derive(Debug, PartialEq)]
pub enum LockStep {
    /// The lock is held.
    Held,
    /// The lock is taken by another: try again after this many milliseconds.
    Retry(u64),
    /// The lock was tried as often as allowed, in vain.
    TimedOut(ServiceError),
}

/// What the last vain try for a lock is reported as.
pub open spec fn lock_timed_out() -> ServiceErrorView {
    ServiceErrorView::Fatal("Failed to acquire a redis lock, timed out"@)
}

/// Decides what follows the try number `attempt`, counted from zero, for a
/// lock: a try that acquired it ends the spinning, a vain one is repeated
/// after a pause until the allowed number of tries is used up.
pub fn lock_step(attempt: u32, acquired: bool) -> (step: LockStep)
    ensures
        acquired ==> step == LockStep::Held,
        !acquired && attempt + 1 < LOCK_ATTEMPTS ==> step == LockStep::Retry(LOCK_RETRY_MS),
        !acquired && attempt + 1 >= LOCK_ATTEMPTS ==> (step matches LockStep::TimedOut(e) && e@
            == lock_timed_out()),
{
    if acquired {
        LockStep::Held
    } else if attempt < LOCK_ATTEMPTS - 1 {
        LockStep::Retry(LOCK_RETRY_MS)
    } else {
        LockStep::TimedOut(
            ServiceError::Fatal(String::from_str("Failed to acquire a redis lock, timed out")),
        )
    }
}

} // verus!
