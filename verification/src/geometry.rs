//! Screen coordinates.

use vstd::prelude::*;

verus! {

/// A position on the screen, in pixels.
#[derive(Clone, Copy, Debug, PartialEq, Eq, Structural)]
pub struct Point {
    pub x: i32,
    pub y: i32,
}

impl Point {
    /// The point `dx` pixels to the right of and `dy` pixels below `self`,
    /// where that point still has screen coordinates.
    pub fn offset(self, dx: i64, dy: i64) -> (moved: Option<Point>)
        ensures
            moved is Some <==> i32::MIN <= self.x + dx <= i32::MAX && i32::MIN <= self.y + dy
                <= i32::MAX,
            moved matches Some(p) ==> p.x == self.x + dx && p.y == self.y + dy,
    {
        let x: i128 = self.x as i128 + dx as i128;
        let y: i128 = self.y as i128 + dy as i128;
        if x < i32::MIN as i128 || x > i32::MAX as i128 || y < i32::MIN as i128 || y
            > i32::MAX as i128 {
            None
        } else {
            Some(Point { x: x as i32, y: y as i32 })
        }
    }
}

/// Radius of the target in pixels, where nothing else is asked for. The
/// square that is watched for a strike has the same radius.
pub const DEFAULT_TARGET_RADIUS: u32 = 80;

/// A rectangle of the screen: its top-left corner and its size in pixels.
#[derive(Clone, Copy, Debug, PartialEq, Eq, Structural)]
pub struct Region {
    pub x: i32,
    pub y: i32,
    pub width: u32,
    pub height: u32,
}

/// Whether the square of side `2 * radius` around `center` can be written as
/// a [`Region`]: its top-left corner has screen coordinates and its side fits
/// the side of a region.
pub open spec fn has_square_around(center: Point, radius: u32) -> bool {
    &&& center.x - radius >= i32::MIN
    &&& center.y - radius >= i32::MIN
    &&& 2 * radius <= u32::MAX
}

/// The square of side `2 * radius` whose middle is `center`: its top-left
/// corner lies `radius` to the left of and above `center`.
pub fn square_around(center: Point, radius: u32) -> (region: Option<Region>)
    ensures
        region is Some <==> has_square_around(center, radius),
        region matches Some(r) ==> r.x == center.x - radius && r.y == center.y - radius && r.width
            == 2 * radius && r.height == 2 * radius,
{
    let x: i64 = center.x as i64 - radius as i64;
    let y: i64 = center.y as i64 - radius as i64;
    let side: u64 = 2 * (radius as u64);
    if x < i32::MIN as i64 || y < i32::MIN as i64 || side > u32::MAX as u64 {
        None
    } else {
        Some(Region { x: x as i32, y: y as i32, width: side as u32, height: side as u32 })
    }
}

} // verus!
