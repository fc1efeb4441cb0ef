//! Component types attached to entities, and the fixed geometry of the
//! playable area. All coordinates are integer world units; the playable
//! rectangle is anchored at the origin.

use vstd::prelude::*;

verus! {

/// Width of the playable game area.
pub const GAME_WIDTH: i64 = 400;

/// Height of the playable game area.
pub const GAME_HEIGHT: i64 = 600;

/// Side length of the player square.
pub const PLAYER_SIZE: i64 = 20;

/// Side length of a Noob baddy square.
pub const NOOB_SIZE: i64 = 20;

/// Side length of a Waver baddy square.
pub const WAVER_SIZE: i64 = 10;

/// Width of the player's projectile.
pub const PLAYER_PROJ_WIDTH: i64 = 4;

/// Height of the player's projectile.
pub const PLAYER_PROJ_HEIGHT: i64 = 8;

/// Side length of a Noob's projectile.
pub const NOOB_PROJ_SIZE: i64 = 6;

/// Starting (and maximum) player health.
pub const MAX_PLAYER_HEALTH: u32 = 10;

/// A position in world coordinates, top-left anchored.
#[derive(Clone, Copy, Debug, PartialEq, Eq, Structural)]
pub struct Position {
    pub x: i64,
    pub y: i64,
}

/// A per-tick displacement.
#[derive(Clone, Copy, Debug, PartialEq, Eq, Structural)]
pub struct Velocity {
    pub x: i64,
    pub y: i64,
}

/// An axis-aligned rectangle: origin plus extent.
#[derive(Clone, Copy, Debug, PartialEq, Eq, Structural)]
pub struct Rect {
    pub x: i64,
    pub y: i64,
    pub w: i64,
    pub h: i64,
}

/// Geometry and colour handed to the rendering boundary; the area's origin is
/// kept in sync with the entity's `Position` by the movement system.
#[derive(Clone, Copy, Debug)]
pub struct Rendered {
    pub area: Rect,
    pub colour: (u8, u8, u8),
}

/// Generic enemy bookkeeping: age in ticks, remaining hits, points on kill.
#[derive(Clone, Copy, Debug, PartialEq, Eq, Structural)]
pub struct Baddy {
    pub age: u64,
    pub health: u64,
    pub score: u32,
}

/// How many direction reversals a Noob baddy has left.
#[derive(Clone, Copy, Debug, PartialEq, Eq, Structural)]
pub struct Oscillates(pub u8);

/// Marks a Waver baddy, carrying its wave position and the starting position
/// and velocity shared by the whole wave.
#[derive(Clone, Copy, Debug, PartialEq, Eq, Structural)]
pub struct WaverBaddy {
    pub rank: u64,
    pub pos: Position,
    pub vel: Velocity,
}

/// A transient floating score label: the points shown and the tick it
/// appeared on.
#[derive(Clone, Copy, Debug, PartialEq, Eq, Structural)]
pub struct ScoreText {
    pub score: u32,
    pub frame: u64,
}

/// Whether two rectangles overlap, boundaries included.
pub open spec fn overlaps_spec(a: Rect, b: Rect) -> bool {
    &&& a.x <= b.x + b.w
    &&& b.x <= a.x + a.w
    &&& a.y <= b.y + b.h
    &&& b.y <= a.y + a.h
}

/// The playable area as a rectangle.
pub open spec fn game_area_spec() -> Rect {
    Rect { x: 0, y: 0, w: GAME_WIDTH, h: GAME_HEIGHT }
}

impl Rect {
    /// Overlap test, boundaries included: touching rectangles overlap.
    pub fn overlaps(&self, other: &Rect) -> (r: bool)
        requires
            i64::MIN <= self.x + self.w <= i64::MAX,
            i64::MIN <= self.y + self.h <= i64::MAX,
            i64::MIN <= other.x + other.w <= i64::MAX,
            i64::MIN <= other.y + other.h <= i64::MAX,
        ensures
            r == overlaps_spec(*self, *other),
    {
        self.x <= other.x + other.w && other.x <= self.x + self.w && self.y <= other.y + other.h
            && other.y <= self.y + self.h
    }
}

/// The playable area rectangle.
pub fn game_area() -> (r: Rect)
    ensures
        r == game_area_spec(),
{
    Rect { x: 0, y: 0, w: GAME_WIDTH, h: GAME_HEIGHT }
}

} // verus!
