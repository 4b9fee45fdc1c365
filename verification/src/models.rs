//! Value types of the canvas and the arithmetic that addresses tiles inside
//! their group.

use vstd::prelude::*;

verus! {

/// Number of tiles along one side of a group.
pub const GROUP_DIM: usize = 100;

/// [`GROUP_DIM`] as a coordinate.
pub const GROUP_DIM_I32: i32 = 100;

/// Length in bytes of a packed group buffer: three bytes per tile.
pub const GROUP_LEN: usize = 30000;

/// Smallest coordinate whose group origin is still an `i32`.
pub const MIN_COORD: i32 = -2147483600;

/// What a failed operation reports to its caller.
#[derive(Debug, PartialEq)]
pub enum ServiceError {
    /// A lookup produced no row; the client is told so.
    NotFound(String),
    /// A rule prevents the operation from being performed.
    Forbidden(String),
    /// Something failed that was not supposed to fail.
    Fatal(String),
}

/// A [`ServiceError`] with its message as a sequence of characters.
pub enum ServiceErrorView {
    NotFound(Seq<char>),
    Forbidden(Seq<char>),
    Fatal(Seq<char>),
}

impl View for ServiceError {
    type V = ServiceErrorView;

    open spec fn view(&self) -> ServiceErrorView {
        match *self {
            ServiceError::NotFound(s) => ServiceErrorView::NotFound(s@),
            ServiceError::Forbidden(s) => ServiceErrorView::Forbidden(s@),
            ServiceError::Fatal(s) => ServiceErrorView::Fatal(s@),
        }
    }
}

/// Whether `res` is the failure that reads as `err`.
pub open spec fn fails_with<T>(res: Result<T, ServiceError>, err: ServiceErrorView) -> bool {
    res matches Err(e) && e@ == err
}

impl ServiceError {
    /// Turns the failure `target`, met while doing `msg`, into a fatal error
    /// that carries the failure's own text.
    pub fn map_fatal<T: core::fmt::Display + ?Sized>(target: &T, msg: &str) -> (err: ServiceError)
        ensures
            err matches ServiceError::Fatal(text)
                && vstd::string::to_string_from_display_ensures::<T>(target, text),
    {
        ServiceError::Fatal(target.to_string())
    }
}

/// A failure that is itself a text becomes the fatal error with that text.
pub proof fn lemma_map_fatal_keeps_text(target: &str, err: ServiceError)
    requires
        err matches ServiceError::Fatal(text) && vstd::string::to_string_from_display_ensures::<
            str,
        >(target, text),
    ensures
        err@ == ServiceErrorView::Fatal(target@),
{
    broadcast use vstd::string::to_string_from_display_ensures_for_str;

}

/// Origin of the group that holds coordinate `v`: the largest multiple of the
/// group side that does not exceed `v`.
pub open spec fn group_origin(v: int) -> int {
    (v / GROUP_DIM as int) * GROUP_DIM
}

/// Whether the group origin of `v` fits the coordinate type.
pub open spec fn addressable(v: int) -> bool {
    MIN_COORD <= v
}

/// Origin `(gx, gy)` of a group of tiles.
#[derive(Debug, PartialEq, Eq, Copy, Clone, Structural)]
pub struct GroupKey(pub i32, pub i32);

fn origin_of(v: i32) -> (g: i32)
    requires
        addressable(v as int),
    ensures
        g == group_origin(v as int),
{
    let r: i32 = v % GROUP_DIM_I32;
    if r < 0 {
        v - r - GROUP_DIM_I32
    } else {
        v - r
    }
}

impl GroupKey {
    /// Key of the group that contains the tile at `(x, y)`.
    pub fn from_point(x: i32, y: i32) -> (key: GroupKey)
        requires
            addressable(x as int),
            addressable(y as int),
        ensures
            key.0 == group_origin(x as int),
            key.1 == group_origin(y as int),
            key.0 <= x < key.0 + GROUP_DIM,
            key.1 <= y < key.1 + GROUP_DIM,
    {
        GroupKey(origin_of(x), origin_of(y))
    }
}

/// Every coordinate lies in the span of the group that its origin names, and
/// origins are multiples of the group side.
pub proof fn lemma_group_origin_contains(v: int)
    ensures
        group_origin(v) <= v < group_origin(v) + GROUP_DIM,
        group_origin(v) % (GROUP_DIM as int) == 0,
{
}

/// Groups do not overlap: a multiple of the group side whose span holds `v`
/// is the origin of `v`.
pub proof fn lemma_group_origin_unique(v: int, g: int)
    requires
        g % (GROUP_DIM as int) == 0,
        g <= v < g + GROUP_DIM,
    ensures
        g == group_origin(v),
{
    assert(g == (g / (GROUP_DIM as int)) * GROUP_DIM);
}

/// Byte offset of the tile at local position `(dx, dy)` in a packed buffer.
pub open spec fn tile_offset(dx: int, dy: int) -> int {
    (dy * GROUP_DIM + dx) * 3
}

/// The buffer `buf` with the three bytes of `rgb` written at `(dx, dy)`.
pub open spec fn packed(buf: Seq<u8>, dx: int, dy: int, rgb: (u8, u8, u8)) -> Seq<u8> {
    buf.update(tile_offset(dx, dy), rgb.0).update(tile_offset(dx, dy) + 1, rgb.1).update(
        tile_offset(dx, dy) + 2,
        rgb.2,
    )
}

/// The colour that `buf` holds at `(dx, dy)`.
pub open spec fn unpacked(buf: Seq<u8>, dx: int, dy: int) -> (u8, u8, u8) {
    (buf[tile_offset(dx, dy)], buf[tile_offset(dx, dy) + 1], buf[tile_offset(dx, dy) + 2])
}

/// A group buffer in which no tile has been drawn.
pub open spec fn zeroed_group() -> Seq<u8> {
    Seq::new(GROUP_LEN as nat, |i: int| 0u8)
}

/// A square block of tiles as a dense row-major buffer, three bytes per tile
/// in the order red, green, blue.
#[derive(Debug, PartialEq)]
pub struct TileGroup(pub Vec<u8>);

impl Clone for TileGroup {
    fn clone(&self) -> (copy: TileGroup)
        ensures
            copy@ == self@,
    {
        TileGroup(self.0.clone())
    }
}

impl View for TileGroup {
    type V = Seq<u8>;

    open spec fn view(&self) -> Seq<u8> {
        self.0@
    }
}

impl TileGroup {
    /// A group holds exactly one colour for each of its tiles.
    pub open spec fn wf(&self) -> bool {
        self.0@.len() == GROUP_LEN
    }

    /// A group in which every tile reads `(0, 0, 0)`.
    pub fn empty() -> (group: TileGroup)
        ensures
            group.wf(),
            group@ == zeroed_group(),
    {
        let mut buffer: Vec<u8> = Vec::with_capacity(GROUP_LEN);
        let mut i: usize = 0;
        while i < GROUP_LEN
            invariant
                i <= GROUP_LEN,
                buffer@.len() == i,
                forall|j: int| 0 <= j < i ==> buffer@[j] == 0u8,
            decreases GROUP_LEN - i,
        {
            buffer.push(0u8);
            i += 1;
        }
        assert(buffer@ =~= zeroed_group());
        TileGroup(buffer)
    }

    /// Byte offset of the tile at local position `(x, y)`.
    pub fn get_offset(x: usize, y: usize) -> (offset: usize)
        requires
            x < GROUP_DIM,
            y < GROUP_DIM,
        ensures
            offset == tile_offset(x as int, y as int),
            offset + 3 <= GROUP_LEN,
    {
        (y * 3 * GROUP_DIM) + (x * 3)
    }

    /// Writes `rgb` at local position `(x, y)` and leaves every other tile as
    /// it was.
    pub fn set(&mut self, x: usize, y: usize, rgb: (u8, u8, u8))
        requires
            old(self).wf(),
            x < GROUP_DIM,
            y < GROUP_DIM,
        ensures
            final(self).wf(),
            final(self)@ == packed(old(self)@, x as int, y as int, rgb),
    {
        let location = Self::get_offset(x, y);
        self.0.set(location, rgb.0);
        self.0.set(location + 1, rgb.1);
        self.0.set(location + 2, rgb.2);
    }

    /// The colour at local position `(x, y)`.
    pub fn get(&self, x: usize, y: usize) -> (rgb: (u8, u8, u8))
        requires
            self.wf(),
            x < GROUP_DIM,
            y < GROUP_DIM,
        ensures
            rgb == unpacked(self@, x as int, y as int),
    {
        let location = Self::get_offset(x, y);
        (self.0[location], self.0[location + 1], self.0[location + 2])
    }
}

/// Writing a colour and reading it back yields that colour, and the write
/// changes no byte outside the three that belong to the tile.
pub proof fn lemma_pack_then_unpack(buf: Seq<u8>, dx: int, dy: int, rgb: (u8, u8, u8))
    requires
        buf.len() == GROUP_LEN,
        0 <= dx < GROUP_DIM,
        0 <= dy < GROUP_DIM,
    ensures
        packed(buf, dx, dy, rgb).len() == GROUP_LEN,
        unpacked(packed(buf, dx, dy, rgb), dx, dy) == rgb,
        forall|i: int|
            0 <= i < GROUP_LEN && !(tile_offset(dx, dy) <= i < tile_offset(dx, dy) + 3)
                ==> packed(buf, dx, dy, rgb)[i] == buf[i],
        forall|ex: int, ey: int|
            0 <= ex < GROUP_DIM && 0 <= ey < GROUP_DIM && (ex != dx || ey != dy) ==> unpacked(
                packed(buf, dx, dy, rgb),
                ex,
                ey,
            ) == unpacked(buf, ex, ey),
{
}

/// Latest state of one tile, as reported to clients.
#[derive(Debug, PartialEq)]
pub struct Tile {
    pub x: i32,
    pub y: i32,
    pub rgb: (u8, u8, u8),
    /// RFC 3339 timestamp of the last draw.
    pub date: String,
}

/// A [`Tile`] with its date as a sequence of characters.
pub struct TileView {
    pub x: i32,
    pub y: i32,
    pub rgb: (u8, u8, u8),
    pub date: Seq<char>,
}

impl View for Tile {
    type V = TileView;

    open spec fn view(&self) -> TileView {
        TileView { x: self.x, y: self.y, rgb: self.rgb, date: self.date@ }
    }
}

/// Record of one successful draw.
#[derive(Debug, PartialEq)]
pub struct Placement {
    pub x: i32,
    pub y: i32,
    pub rgb: (u8, u8, u8),
    /// RFC 3339 timestamp of the draw.
    pub placement_date: String,
}

/// A [`Placement`] with its date as a sequence of characters.
pub struct PlacementView {
    pub x: i32,
    pub y: i32,
    pub rgb: (u8, u8, u8),
    pub placement_date: Seq<char>,
}

impl View for Placement {
    type V = PlacementView;

    open spec fn view(&self) -> PlacementView {
        PlacementView { x: self.x, y: self.y, rgb: self.rgb, placement_date: self.placement_date@ }
    }
}

/// A draw request, and the message that announces it to subscribers.
#[derive(Debug, PartialEq, Eq, PartialOrd, Ord, Copy, Clone)]
pub struct DrawEvent {
    pub x: i32,
    pub y: i32,
    pub rgb: (u8, u8, u8),
}

} // verus!
