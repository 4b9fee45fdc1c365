//! The persistent store as the server sees it: what is written for a draw,
//! and what the rows that come back mean.

use crate::models::{
    addressable, fails_with, group_origin, packed, unpacked, zeroed_group, DrawEvent, GroupKey,
    Placement,
    PlacementView, ServiceError, ServiceErrorView, Tile, TileGroup, TileView, GROUP_DIM,
    GROUP_DIM_I32, GROUP_LEN,
};
use crate::text::{decimal_int, fmt_i32};
use crate::utils::{epoch_to_day, epoch_to_iso_string, unrepresentable_epoch, utc_rfc3339};
use vstd::prelude::*;
use vstd::string::*;

verus! {

/// The signed byte by which the store holds the colour channel `channel`.
pub open spec fn stored_channel(channel: u8) -> i8 {
    if channel < 128 {
        channel as i8
    } else {
        (channel - 256) as i8
    }
}

/// The colour channel that the stored signed byte `stored` stands for.
pub open spec fn loaded_channel(stored: i8) -> u8 {
    if stored >= 0 {
        stored as u8
    } else {
        (stored + 256) as u8
    }
}

/// A colour as the store holds it.
pub open spec fn stored_rgb(rgb: (u8, u8, u8)) -> (i8, i8, i8) {
    (stored_channel(rgb.0), stored_channel(rgb.1), stored_channel(rgb.2))
}

/// The colour that a stored triple stands for.
pub open spec fn loaded_rgb(rgb: (i8, i8, i8)) -> (u8, u8, u8) {
    (loaded_channel(rgb.0), loaded_channel(rgb.1), loaded_channel(rgb.2))
}

fn channel_to_stored(channel: u8) -> (stored: i8)
    ensures
        stored == stored_channel(channel),
{
    if channel < 128 {
        channel as i8
    } else {
        (channel as i16 - 256) as i8
    }
}

fn channel_from_stored(stored: i8) -> (channel: u8)
    ensures
        channel == loaded_channel(stored),
{
    if stored >= 0 {
        stored as u8
    } else {
        (stored as i16 + 256) as u8
    }
}

/// Converts a colour to the signed bytes that the store holds.
pub fn rgb_to_stored(rgb: (u8, u8, u8)) -> (stored: (i8, i8, i8))
    ensures
        stored == stored_rgb(rgb),
{
    (channel_to_stored(rgb.0), channel_to_stored(rgb.1), channel_to_stored(rgb.2))
}

/// Converts the signed bytes that the store holds back to a colour.
pub fn rgb_from_stored(stored: (i8, i8, i8)) -> (rgb: (u8, u8, u8))
    ensures
        rgb == loaded_rgb(stored),
{
    (channel_from_stored(stored.0), channel_from_stored(stored.1), channel_from_stored(stored.2))
}

/// A colour that went to the store comes back unchanged.
pub proof fn lemma_stored_rgb_round_trip(rgb: (u8, u8, u8))
    ensures
        loaded_rgb(stored_rgb(rgb)) == rgb,
{
}

/// The tiles row that one draw writes.
#[derive(Debug, PartialEq)]
pub struct TileWrite {
    pub group_x: i32,
    pub group_y: i32,
    pub x: i32,
    pub y: i32,
    pub rgb: (i8, i8, i8),
    pub last_updated_ipaddress: String,
    /// Milliseconds since the epoch.
    pub last_updated_time: i64,
}

/// The placements row that one draw writes.
#[derive(Debug, PartialEq)]
pub struct PlacementWrite {
    /// Whole days since the epoch: the partition of the row.
    pub day: i64,
    pub x: i32,
    pub y: i32,
    pub rgb: (i8, i8, i8),
    pub ipaddress: String,
    /// Milliseconds since the epoch.
    pub placement_time: i64,
}

/// The two rows that one draw commits together.
#[derive(Debug, PartialEq)]
pub struct BatchWrite {
    pub tile: TileWrite,
    pub placement: PlacementWrite,
}

/// The rows that the draw of `rgb` at `(x, y)` by `ipaddress` at `now_ms`
/// commits: the tile under its group, the placement under its day, both
/// with the colour as signed bytes and the instant of the draw.
pub open spec fn batch_of(
    x: i32,
    y: i32,
    rgb: (u8, u8, u8),
    ipaddress: String,
    now_ms: u64,
) -> BatchWrite {
    BatchWrite {
        tile: TileWrite {
            group_x: group_origin(x as int) as i32,
            group_y: group_origin(y as int) as i32,
            x,
            y,
            rgb: stored_rgb(rgb),
            last_updated_ipaddress: ipaddress,
            last_updated_time: now_ms as i64,
        },
        placement: PlacementWrite {
            day: (now_ms as int / 1000 / 86400) as i64,
            x,
            y,
            rgb: stored_rgb(rgb),
            ipaddress,
            placement_time: now_ms as i64,
        },
    }
}

/// Builds the rows that the draw of `rgb` at `(x, y)` by `ipaddress` at
/// `now_ms` commits.
pub fn batch_upsert_tile(
    x: i32,
    y: i32,
    rgb: (u8, u8, u8),
    ipaddress: String,
    now_ms: u64,
) -> (batch: BatchWrite)
    requires
        addressable(x as int),
        addressable(y as int),
        now_ms <= i64::MAX,
    ensures
        batch == batch_of(x, y, rgb, ipaddress, now_ms),
{
    let key = GroupKey::from_point(x, y);
    let day = epoch_to_day(now_ms / 1000);
    let time = now_ms as i64;
    let stored = rgb_to_stored(rgb);
    BatchWrite {
        tile: TileWrite {
            group_x: key.0,
            group_y: key.1,
            x,
            y,
            rgb: stored,
            last_updated_ipaddress: ipaddress.clone(),
            last_updated_time: time,
        },
        placement: PlacementWrite { day, x, y, rgb: stored, ipaddress, placement_time: time },
    }
}

/// One row of a group scan.
#[derive(Debug, PartialEq, Eq, Copy, Clone)]
pub struct TileRow {
    pub x: i32,
    pub y: i32,
    pub rgb: (i8, i8, i8),
}

/// Whether `row` lies inside the square that `key` names.
pub open spec fn row_in_group(key: GroupKey, row: TileRow) -> bool {
    &&& 0 <= row.x - key.0 < GROUP_DIM
    &&& 0 <= row.y - key.1 < GROUP_DIM
}

/// The buffer of the group `key` after the tiles of `rows` were set in it one
/// after the other, starting from a group in which nothing is drawn.
pub open spec fn group_of_rows(key: GroupKey, rows: Seq<TileRow>) -> Seq<u8>
    decreases rows.len(),
{
    if rows.len() == 0 {
        zeroed_group()
    } else {
        packed(
            group_of_rows(key, rows.drop_last()),
            rows.last().x - key.0,
            rows.last().y - key.1,
            loaded_rgb(rows.last().rgb),
        )
    }
}

/// The colour that `rows` give the tile at local position `(dx, dy)` of the
/// group `key`: that of the last row for the tile, or black if there is none.
pub open spec fn colour_at(key: GroupKey, rows: Seq<TileRow>, dx: int, dy: int) -> (u8, u8, u8)
    decreases rows.len(),
{
    if rows.len() == 0 {
        (0u8, 0u8, 0u8)
    } else if rows.last().x - key.0 == dx && rows.last().y - key.1 == dy {
        loaded_rgb(rows.last().rgb)
    } else {
        colour_at(key, rows.drop_last(), dx, dy)
    }
}

/// What a scan that returns a tile from outside the group is reported as.
pub open spec fn stray_row() -> ServiceErrorView {
    ServiceErrorView::Fatal("Tile row lies outside the bounds of its group"@)
}

fn local_offset(origin: i32, v: i32) -> (offset: Option<usize>)
    ensures
        0 <= v - origin < GROUP_DIM ==> offset == Some((v - origin) as usize),
        !(0 <= v - origin < GROUP_DIM) ==> offset is None,
{
    let distance: i64 = v as i64 - origin as i64;
    if 0 <= distance && distance < GROUP_DIM_I32 as i64 {
        Some(distance as usize)
    } else {
        None
    }
}

/// Folds the rows of a group scan into the buffer of the group. A row from
/// outside the group fails the whole scan.
pub fn get_tile_group(key: GroupKey, rows: &Vec<TileRow>) -> (res: Result<TileGroup, ServiceError>)
    ensures
        (forall|i: int| 0 <= i < rows@.len() ==> row_in_group(key, #[trigger] rows@[i])) ==> (
        res matches Ok(group) && group.wf() && group@ == group_of_rows(key, rows@)),
        (exists|i: int| 0 <= i < rows@.len() && !row_in_group(key, #[trigger] rows@[i]))
            ==> fails_with(res, stray_row()),
{
    let mut group = TileGroup::empty();
    let mut i: usize = 0;
    while i < rows.len()
        invariant
            i <= rows@.len(),
            group.wf(),
            group@ == group_of_rows(key, rows@.take(i as int)),
            forall|j: int| 0 <= j < i ==> row_in_group(key, #[trigger] rows@[j]),
        decreases rows@.len() - i,
    {
        let row = rows[i];
        match (local_offset(key.0, row.x), local_offset(key.1, row.y)) {
            (Some(dx), Some(dy)) => {
                group.set(dx, dy, rgb_from_stored(row.rgb));
                proof {
                    let upto = rows@.take(i as int + 1);
                    assert(upto.drop_last() =~= rows@.take(i as int));
                    assert(upto.last() == row);
                }
            },
            _ => {
                assert(!row_in_group(key, rows@[i as int]));
                return Err(
                    ServiceError::Fatal(
                        String::from_str("Tile row lies outside the bounds of its group"),
                    ),
                );
            },
        }
        i += 1;
    }
    assert(rows@.take(i as int) =~= rows@);
    Ok(group)
}

/// The buffer that rows from inside a group fold into is a whole group, and
/// each of its tiles reads the colour of the last row for that tile, or
/// black where no row names the tile.
pub proof fn lemma_group_reads_last_row(key: GroupKey, rows: Seq<TileRow>, dx: int, dy: int)
    requires
        forall|i: int| 0 <= i < rows.len() ==> row_in_group(key, #[trigger] rows[i]),
        0 <= dx < GROUP_DIM,
        0 <= dy < GROUP_DIM,
    ensures
        group_of_rows(key, rows).len() == GROUP_LEN,
        unpacked(group_of_rows(key, rows), dx, dy) == colour_at(key, rows, dx, dy),
    decreases rows.len(),
{
    if rows.len() > 0 {
        let before = rows.drop_last();
        assert forall|i: int| 0 <= i < before.len() implies row_in_group(
            key,
            #[trigger] before[i],
        ) by {
            assert(before[i] == rows[i]);
        }
        lemma_group_reads_last_row(key, before, dx, dy);
        assert(row_in_group(key, rows[rows.len() - 1]));
        crate::models::lemma_pack_then_unpack(
            group_of_rows(key, before),
            rows.last().x - key.0,
            rows.last().y - key.1,
            loaded_rgb(rows.last().rgb),
        );
    }
}

/// A group that was drawn in once reads the drawn colour at the offset of
/// the drawn tile, and zero everywhere else.
pub proof fn lemma_single_row_group(key: GroupKey, row: TileRow)
    requires
        row_in_group(key, row),
    ensures
        group_of_rows(key, seq![row]) == packed(
            zeroed_group(),
            row.x - key.0,
            row.y - key.1,
            loaded_rgb(row.rgb),
        ),
        unpacked(group_of_rows(key, seq![row]), row.x - key.0, row.y - key.1) == loaded_rgb(
            row.rgb,
        ),
        forall|i: int|
            0 <= i < GROUP_LEN && !(crate::models::tile_offset(row.x - key.0, row.y - key.1) <= i
                < crate::models::tile_offset(row.x - key.0, row.y - key.1) + 3) ==> group_of_rows(
                key,
                seq![row],
            )[i] == 0u8,
{
    let rows = seq![row];
    assert(rows.drop_last() =~= Seq::<TileRow>::empty());
    assert(group_of_rows(key, rows.drop_last()) == zeroed_group());
    crate::models::lemma_pack_then_unpack(
        zeroed_group(),
        row.x - key.0,
        row.y - key.1,
        loaded_rgb(row.rgb),
    );
}

/// The row that a group scan returns for a tile that was drawn as `draw`.
pub open spec fn row_of_draw(draw: DrawEvent) -> TileRow {
    TileRow { x: draw.x, y: draw.y, rgb: stored_rgb(draw.rgb) }
}

/// The group that a draw is written under.
pub open spec fn group_of_draw(draw: DrawEvent) -> GroupKey {
    GroupKey(group_origin(draw.x as int) as i32, group_origin(draw.y as int) as i32)
}

/// The row of a draw lies inside the group that the draw is written under,
/// so no scan fails on what draws have written.
pub proof fn lemma_written_row_lies_in_its_group(draw: DrawEvent)
    requires
        addressable(draw.x as int),
        addressable(draw.y as int),
    ensures
        row_in_group(group_of_draw(draw), row_of_draw(draw)),
{
}

/// A group in which one tile was drawn reads, from the store, the drawn
/// colour at the offset of that tile and zero everywhere else.
pub proof fn lemma_group_after_single_draw(draw: DrawEvent)
    requires
        addressable(draw.x as int),
        addressable(draw.y as int),
    ensures
        group_of_rows(group_of_draw(draw), seq![row_of_draw(draw)]) == packed(
            zeroed_group(),
            draw.x - group_origin(draw.x as int),
            draw.y - group_origin(draw.y as int),
            draw.rgb,
        ),
        unpacked(
            group_of_rows(group_of_draw(draw), seq![row_of_draw(draw)]),
            draw.x - group_origin(draw.x as int),
            draw.y - group_origin(draw.y as int),
        ) == draw.rgb,
        forall|i: int|
            0 <= i < GROUP_LEN && !(crate::models::tile_offset(
                draw.x - group_origin(draw.x as int),
                draw.y - group_origin(draw.y as int),
            ) <= i < crate::models::tile_offset(
                draw.x - group_origin(draw.x as int),
                draw.y - group_origin(draw.y as int),
            ) + 3) ==> group_of_rows(group_of_draw(draw), seq![row_of_draw(draw)])[i] == 0u8,
{
    lemma_stored_rgb_round_trip(draw.rgb);
    lemma_single_row_group(group_of_draw(draw), row_of_draw(draw));
}

/// Two scans that give every tile of a group the same colour fold into the
/// same buffer, in whatever order and however often they name the tiles.
pub proof fn lemma_same_colours_same_group(key: GroupKey, a: Seq<TileRow>, b: Seq<TileRow>)
    requires
        forall|i: int| 0 <= i < a.len() ==> row_in_group(key, #[trigger] a[i]),
        forall|i: int| 0 <= i < b.len() ==> row_in_group(key, #[trigger] b[i]),
        forall|dx: int, dy: int|
            0 <= dx < GROUP_DIM && 0 <= dy < GROUP_DIM ==> #[trigger] colour_at(key, a, dx, dy)
                == colour_at(key, b, dx, dy),
    ensures
        group_of_rows(key, a) == group_of_rows(key, b),
{
    let left = group_of_rows(key, a);
    let right = group_of_rows(key, b);
    lemma_group_reads_last_row(key, a, 0, 0);
    lemma_group_reads_last_row(key, b, 0, 0);
    assert forall|i: int| 0 <= i < GROUP_LEN implies left[i] == right[i] by {
        let dy = i / 300;
        let dx = (i % 300) / 3;
        lemma_group_reads_last_row(key, a, dx, dy);
        lemma_group_reads_last_row(key, b, dx, dy);
        assert(colour_at(key, a, dx, dy) == colour_at(key, b, dx, dy));
        assert(crate::models::tile_offset(dx, dy) <= i < crate::models::tile_offset(dx, dy) + 3);
    }
    assert(left =~= right);
}

/// The keys by which one tile is looked up: its group, then its position.
#[derive(Debug, PartialEq, Eq, Copy, Clone)]
pub struct TileLookup {
    pub group_x: i32,
    pub group_y: i32,
    pub x: i32,
    pub y: i32,
}

/// The lookup that finds the tile at `(x, y)`.
pub fn tile_lookup(x: i32, y: i32) -> (lookup: TileLookup)
    requires
        addressable(x as int),
        addressable(y as int),
    ensures
        lookup == (TileLookup {
            group_x: group_origin(x as int) as i32,
            group_y: group_origin(y as int) as i32,
            x,
            y,
        }),
{
    let key = GroupKey::from_point(x, y);
    TileLookup { group_x: key.0, group_y: key.1, x, y }
}

/// The row that a tile lookup returns.
#[derive(Debug, PartialEq, Eq, Copy, Clone)]
pub struct TileInfoRow {
    pub x: i32,
    pub y: i32,
    pub rgb: (i8, i8, i8),
    /// Milliseconds since the epoch.
    pub last_updated_time: i64,
}

/// What a lookup that found no tile at `(x, y)` is reported as.
pub open spec fn tile_not_found(x: int, y: int) -> ServiceErrorView {
    ServiceErrorView::NotFound(
        "tile not found at given location: ("@ + decimal_int(x) + ", "@ + decimal_int(y) + ")"@,
    )
}

/// The error that reports that no tile was found at `(x, y)`.
pub fn tile_not_found_at(x: i32, y: i32) -> (err: ServiceError)
    ensures
        err@ == tile_not_found(x as int, y as int),
{
    let message = String::from_str("tile not found at given location: (").concat(
        fmt_i32(x).as_str(),
    ).concat(", ").concat(fmt_i32(y).as_str()).concat(")");
    ServiceError::NotFound(message)
}

/// The tile that `row` describes once its instant is written as `date`.
pub open spec fn tile_of_row(row: TileInfoRow, date: Seq<char>) -> TileView {
    TileView { x: row.x, y: row.y, rgb: loaded_rgb(row.rgb), date }
}

/// The tile that `row` describes, given its instant as text, or the failure
/// to write that instant.
pub fn tile_from_row(row: TileInfoRow, date: Result<String, ServiceError>) -> (res: Result<
    Tile,
    ServiceError,
>)
    ensures
        match date {
            Ok(text) => res matches Ok(tile) && tile@ == tile_of_row(row, text@),
            Err(e) => res == Err::<Tile, ServiceError>(e),
        },
{
    match date {
        Ok(date) => Ok(Tile { x: row.x, y: row.y, rgb: rgb_from_stored(row.rgb), date }),
        Err(e) => Err(e),
    }
}

/// Reads the outcome of looking up the tile at `(x, y)`: no row means that
/// the tile was never drawn, a row is the tile with its instant as text.
pub fn get_one_tile(x: i32, y: i32, row: Option<TileInfoRow>) -> (res: Result<Tile, ServiceError>)
    ensures
        match row {
            None => fails_with(res, tile_not_found(x as int, y as int)),
            Some(found) => match utc_rfc3339(found.last_updated_time) {
                Some(date) => res matches Ok(tile) && tile@ == tile_of_row(found, date),
                None => fails_with(res, unrepresentable_epoch()),
            },
        },
{
    match row {
        Some(found) => tile_from_row(found, epoch_to_iso_string(found.last_updated_time)),
        None => Err(tile_not_found_at(x, y)),
    }
}

/// The row that a lookup returns for a tile right after `write` was
/// committed and nothing else was.
pub open spec fn row_written(write: TileWrite) -> TileInfoRow {
    TileInfoRow {
        x: write.x,
        y: write.y,
        rgb: write.rgb,
        last_updated_time: write.last_updated_time,
    }
}

/// What a draw commits reads back as the tile at the drawn position, with
/// the drawn colour.
pub proof fn lemma_committed_tile_reads_back(
    x: i32,
    y: i32,
    rgb: (u8, u8, u8),
    ipaddress: String,
    now_ms: u64,
    date: Seq<char>,
)
    ensures
        tile_of_row(row_written(batch_of(x, y, rgb, ipaddress, now_ms).tile), date) == (TileView {
            x,
            y,
            rgb,
            date,
        }),
{
    lemma_stored_rgb_round_trip(rgb);
}

/// One row of a placements scan.
#[derive(Debug, PartialEq, Eq, Copy, Clone)]
pub struct PlacementRow {
    pub x: i32,
    pub y: i32,
    pub rgb: (i8, i8, i8),
    /// Milliseconds since the epoch.
    pub placement_time: i64,
}

/// The rows of `rows` that were placed before `before_ms`, in their order.
pub open spec fn placed_before(rows: Seq<PlacementRow>, before_ms: i64) -> Seq<PlacementRow>
    decreases rows.len(),
{
    if rows.len() == 0 {
        Seq::empty()
    } else if rows.last().placement_time < before_ms {
        placed_before(rows.drop_last(), before_ms).push(rows.last())
    } else {
        placed_before(rows.drop_last(), before_ms)
    }
}

/// One page of placements: the first `limit` rows of `rows` that were placed
/// before `before_ms`.
pub open spec fn page_of(rows: Seq<PlacementRow>, before_ms: i64, limit: nat) -> Seq<PlacementRow> {
    let kept = placed_before(rows, before_ms);
    if kept.len() <= limit {
        kept
    } else {
        kept.take(limit as int)
    }
}

/// The placement that `row` describes once its instant is written as `date`.
pub open spec fn placement_of_row(row: PlacementRow, date: Seq<char>) -> PlacementView {
    PlacementView { x: row.x, y: row.y, rgb: loaded_rgb(row.rgb), placement_date: date }
}

/// The placement that `row` describes, given its instant as text, or the
/// failure to write that instant.
pub fn placement_from_row(row: PlacementRow, date: Result<String, ServiceError>) -> (res: Result<
    Placement,
    ServiceError,
>)
    ensures
        match date {
            Ok(text) => res matches Ok(placement) && placement@ == placement_of_row(row, text@)
                && placement.placement_date@ == text@,
            Err(e) => res == Err::<Placement, ServiceError>(e),
        },
{
    match date {
        Ok(placement_date) => Ok(
            Placement { x: row.x, y: row.y, rgb: rgb_from_stored(row.rgb), placement_date },
        ),
        Err(e) => Err(e),
    }
}

/// Whether `placements` are the rows of `page`, each with its instant as
/// text.
pub open spec fn placements_match(placements: Seq<Placement>, page: Seq<PlacementRow>) -> bool {
    &&& placements.len() == page.len()
    &&& forall|i: int|
        0 <= i < page.len() ==> utc_rfc3339(page[i].placement_time) == Some(
            (#[trigger] placements[i]).placement_date@,
        ) && placements[i]@ == placement_of_row(page[i], placements[i].placement_date@)
}

/// Turns the rows of a placements scan into one page of placements: at most
/// `limit` of them, only those placed before `before_ms`, in the order in
/// which the store returned them.
pub fn get_placements(rows: &Vec<PlacementRow>, before_ms: i64, limit: usize) -> (res: Result<
    Vec<Placement>,
    ServiceError,
>)
    ensures
        (forall|i: int|
            0 <= i < page_of(rows@, before_ms, limit as nat).len() ==> utc_rfc3339(
                (#[trigger] page_of(rows@, before_ms, limit as nat)[i]).placement_time,
            ) is Some) ==> (res matches Ok(placements) && placements_match(
            placements@,
            page_of(rows@, before_ms, limit as nat),
        )),
        (exists|i: int|
            0 <= i < page_of(rows@, before_ms, limit as nat).len() && utc_rfc3339(
                (#[trigger] page_of(rows@, before_ms, limit as nat)[i]).placement_time,
            ) is None) ==> fails_with(res, unrepresentable_epoch()),
{
    let mut placements: Vec<Placement> = Vec::new();
    let mut i: usize = 0;
    while i < rows.len()
        invariant
            i <= rows@.len(),
            placements@.len() <= limit,
            placements_match(placements@, page_of(rows@.take(i as int), before_ms, limit as nat)),
        decreases rows@.len() - i,
    {
        let row = rows[i];
        proof {
            let upto = rows@.take(i as int + 1);
            assert(upto.drop_last() =~= rows@.take(i as int));
            assert(upto.last() == row);
        }
        let ghost seen = page_of(rows@.take(i as int), before_ms, limit as nat);
        let ghost next = page_of(rows@.take(i as int + 1), before_ms, limit as nat);
        if row.placement_time < before_ms && placements.len() < limit {
            assert(next =~= seen.push(row));
            match placement_from_row(row, epoch_to_iso_string(row.placement_time)) {
                Ok(placement) => {
                    placements.push(placement);
                },
                Err(e) => {
                    proof {
                        lemma_page_grows(rows@, i as int + 1, before_ms, limit as nat);
                        let whole = page_of(rows@, before_ms, limit as nat);
                        assert(whole[seen.len() as int] == row);
                    }
                    return Err(e);
                },
            }
        } else {
            assert(next =~= seen);
        }
        i += 1;
    }
    proof {
        assert(rows@.take(i as int) =~= rows@);
        let page = page_of(rows@, before_ms, limit as nat);
        assert forall|j: int| 0 <= j < page.len() implies utc_rfc3339(
            (#[trigger] page[j]).placement_time,
        ) is Some by {
            assert(placements@[j].placement_date@ == placements@[j].placement_date@);
        }
    }
    Ok(placements)
}

/// A page read from the first `n` rows is the beginning of the page read
/// from all of them.
proof fn lemma_page_grows(rows: Seq<PlacementRow>, n: int, before_ms: i64, limit: nat)
    requires
        0 <= n <= rows.len(),
    ensures
        page_of(rows.take(n), before_ms, limit).len() <= page_of(rows, before_ms, limit).len(),
        forall|i: int|
            0 <= i < page_of(rows.take(n), before_ms, limit).len() ==> page_of(
                rows.take(n),
                before_ms,
                limit,
            )[i] == page_of(rows, before_ms, limit)[i],
    decreases rows.len() - n,
{
    if n < rows.len() {
        lemma_page_grows(rows, n + 1, before_ms, limit);
        let upto = rows.take(n + 1);
        assert(upto.drop_last() =~= rows.take(n));
    } else {
        assert(rows.take(n) =~= rows);
    }
}

/// Whether no row of `rows` was placed after a row that precedes it.
pub open spec fn newest_first(rows: Seq<PlacementRow>) -> bool {
    forall|i: int, j: int|
        0 <= i < j < rows.len() ==> (#[trigger] rows[i]).placement_time >= (
        #[trigger] rows[j]).placement_time
}

proof fn lemma_placed_before_members(rows: Seq<PlacementRow>, before_ms: i64, i: int)
    requires
        0 <= i < placed_before(rows, before_ms).len(),
    ensures
        placed_before(rows, before_ms)[i].placement_time < before_ms,
        exists|p: int| i <= p < rows.len() && rows[p] == placed_before(rows, before_ms)[i],
    decreases rows.len(),
{
    let rest = placed_before(rows.drop_last(), before_ms);
    if i < rest.len() {
        lemma_placed_before_members(rows.drop_last(), before_ms, i);
        let p = choose|p: int| i <= p < rows.drop_last().len() && rows.drop_last()[p] == rest[i];
        assert(rows[p] == placed_before(rows, before_ms)[i]);
    } else {
        lemma_placed_before_len(rows.drop_last(), before_ms);
        assert(rows[rows.len() - 1] == placed_before(rows, before_ms)[i]);
    }
}

proof fn lemma_placed_before_len(rows: Seq<PlacementRow>, before_ms: i64)
    ensures
        placed_before(rows, before_ms).len() <= rows.len(),
    decreases rows.len(),
{
    if rows.len() > 0 {
        lemma_placed_before_len(rows.drop_last(), before_ms);
    }
}

proof fn lemma_placed_before_is_newest_first(rows: Seq<PlacementRow>, before_ms: i64)
    requires
        newest_first(rows),
    ensures
        newest_first(placed_before(rows, before_ms)),
    decreases rows.len(),
{
    if rows.len() > 0 {
        let shorter = rows.drop_last();
        assert(newest_first(shorter)) by {
            assert forall|i: int, j: int| 0 <= i < j < shorter.len() implies (
            #[trigger] shorter[i]).placement_time >= (#[trigger] shorter[j]).placement_time by {
                assert(rows[i].placement_time >= rows[j].placement_time);
            }
        }
        lemma_placed_before_is_newest_first(shorter, before_ms);
        let rest = placed_before(shorter, before_ms);
        let kept = placed_before(rows, before_ms);
        assert forall|i: int, j: int| 0 <= i < j < kept.len() implies (
        #[trigger] kept[i]).placement_time >= (#[trigger] kept[j]).placement_time by {
            if j < rest.len() {
                assert(rest[i].placement_time >= rest[j].placement_time);
            } else {
                lemma_placed_before_members(shorter, before_ms, i);
                let p = choose|p: int| i <= p < shorter.len() && shorter[p] == rest[i];
                assert(rows[p].placement_time >= rows[rows.len() - 1].placement_time);
            }
        }
    }
}

/// A page holds at most as many placements as were asked for, all of them
/// placed before the cursor; and where the store returns its rows newest
/// first, the page is newest first too.
pub proof fn lemma_page_is_bounded_and_ordered(rows: Seq<PlacementRow>, before_ms: i64, limit: nat)
    ensures
        page_of(rows, before_ms, limit).len() <= limit,
        forall|i: int|
            0 <= i < page_of(rows, before_ms, limit).len() ==> (#[trigger] page_of(
                rows,
                before_ms,
                limit,
            )[i]).placement_time < before_ms,
        newest_first(rows) ==> newest_first(page_of(rows, before_ms, limit)),
{
    let kept = placed_before(rows, before_ms);
    let page = page_of(rows, before_ms, limit);
    assert forall|i: int| 0 <= i < page.len() implies (#[trigger] page[i]).placement_time
        < before_ms by {
        lemma_placed_before_members(rows, before_ms, i);
    }
    if newest_first(rows) {
        lemma_placed_before_is_newest_first(rows, before_ms);
        assert forall|i: int, j: int| 0 <= i < j < page.len() implies (
        #[trigger] page[i]).placement_time >= (#[trigger] page[j]).placement_time by {
            assert(kept[i].placement_time >= kept[j].placement_time);
        }
    }
}

/// Whether every row of `rows` was placed before all rows that precede it.
pub open spec fn strictly_newest_first(rows: Seq<PlacementRow>) -> bool {
    forall|i: int, j: int|
        0 <= i < j < rows.len() ==> (#[trigger] rows[i]).placement_time > (
        #[trigger] rows[j]).placement_time
}

proof fn lemma_placed_before_is_a_tail(rows: Seq<PlacementRow>, before_ms: i64)
    requires
        newest_first(rows),
    ensures
        placed_before(rows, before_ms).len() <= rows.len(),
        placed_before(rows, before_ms) == rows.skip(
            rows.len() - placed_before(rows, before_ms).len(),
        ),
        forall|i: int|
            0 <= i < rows.len() - placed_before(rows, before_ms).len() ==> (
            #[trigger] rows[i]).placement_time >= before_ms,
        forall|i: int|
            rows.len() - placed_before(rows, before_ms).len() <= i < rows.len() ==> (
            #[trigger] rows[i]).placement_time < before_ms,
    decreases rows.len(),
{
    let kept = placed_before(rows, before_ms);
    if rows.len() == 0 {
        assert(kept =~= rows.skip(0));
    } else {
        let shorter = rows.drop_last();
        let rest = placed_before(shorter, before_ms);
        assert(newest_first(shorter)) by {
            assert forall|i: int, j: int| 0 <= i < j < shorter.len() implies (
            #[trigger] shorter[i]).placement_time >= (#[trigger] shorter[j]).placement_time by {
                assert(rows[i].placement_time >= rows[j].placement_time);
            }
        }
        lemma_placed_before_is_a_tail(shorter, before_ms);
        let cut = shorter.len() - rest.len();
        assert forall|i: int| 0 <= i < shorter.len() implies rows[i] == #[trigger] shorter[i] by {}
        if rows.last().placement_time < before_ms {
            assert(kept =~= rows.skip(cut));
            assert forall|i: int| 0 <= i < cut implies (#[trigger] rows[i]).placement_time
                >= before_ms by {
                assert(shorter[i].placement_time >= before_ms);
            }
            assert forall|i: int| cut <= i < rows.len() implies (#[trigger] rows[i]).placement_time
                < before_ms by {
                if i < shorter.len() {
                    assert(shorter[i].placement_time < before_ms);
                }
            }
        } else {
            if rest.len() > 0 {
                let before_last = shorter.len() - 1;
                assert(shorter[before_last].placement_time < before_ms);
                assert(rows[before_last].placement_time >= rows[rows.len() - 1].placement_time);
            }
            assert(kept =~= rows.skip(rows.len() as int));
            assert forall|i: int| 0 <= i < rows.len() implies (#[trigger] rows[i]).placement_time
                >= before_ms by {
                if i < shorter.len() {
                    assert(shorter[i].placement_time >= before_ms);
                }
            }
        }
    }
}

/// Paging loses nothing and repeats nothing: where the store returns its
/// rows newest first and no two at the same instant, the rows placed before
/// the oldest placement of a page are exactly those that the page left out.
pub proof fn lemma_next_page_continues(rows: Seq<PlacementRow>, before_ms: i64, limit: nat)
    requires
        strictly_newest_first(rows),
        page_of(rows, before_ms, limit).len() > 0,
    ensures
        placed_before(rows, page_of(rows, before_ms, limit).last().placement_time)
            == placed_before(rows, before_ms).skip(page_of(rows, before_ms, limit).len() as int),
{
    let kept = placed_before(rows, before_ms);
    let page = page_of(rows, before_ms, limit);
    let oldest = page.last().placement_time;
    lemma_placed_before_is_a_tail(rows, before_ms);
    lemma_placed_before_is_a_tail(rows, oldest);
    let last_of_page = rows.len() - kept.len() + page.len() - 1;
    assert(page.last() == rows[last_of_page]);
    if last_of_page + 1 < rows.len() {
        assert(rows[last_of_page].placement_time > rows[last_of_page + 1].placement_time);
    }
}

} // verus!
