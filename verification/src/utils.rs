use vstd::prelude::*;
use crate::geometry::Rect;

verus! {

/// Hit test of a point against a rectangle, free of overflow for every
/// rectangle and every point.
pub fn is_point_in_rect(rect: &Rect, x: i32, y: i32) -> (inside: bool)
    ensures
        inside == rect.contains(x as int, y as int),
{
    let right: i64 = rect.x as i64 + rect.w as i64;
    let bottom: i64 = rect.y as i64 + rect.h as i64;
    x >= rect.x && (x as i64) < right && y >= rect.y && (y as i64) < bottom
}

} // verus!
