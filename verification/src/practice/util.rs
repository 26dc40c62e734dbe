//! Screen geometry.

use vstd::prelude::*;

verus! {

/// The number of values of a screen coordinate.
pub const COORDINATES: i32 = 65536;

/// The screen coordinate that the number `v` comes to: coordinates wrap
/// around at the end of their range.
pub open spec fn wrapped(v: int) -> int {
    v % 65536
}

/// The centre of a terminal of the given width and height.
pub fn term_center(size: (u16, u16)) -> (res: (u16, u16))
    ensures
        res.0 == size.0 / 2,
        res.1 == size.1 / 2,
{
    (size.0 / 2, size.1 / 2)
}

/// The coordinate at the distance `offset` from `base`.
pub fn shift(base: u16, offset: i16) -> (res: u16)
    ensures
        res == wrapped(base + offset),
{
    let sum: i32 = base as i32 + offset as i32;
    let within: i32 = if sum < 0 {
        sum + COORDINATES
    } else if sum >= COORDINATES {
        sum - COORDINATES
    } else {
        sum
    };
    within as u16
}

/// The position at the distance `offset` from `center`.
pub fn offset_from(center: (u16, u16), offset: (i16, i16)) -> (res: (u16, u16))
    ensures
        res.0 == wrapped(center.0 + offset.0),
        res.1 == wrapped(center.1 + offset.1),
{
    (shift(center.0, offset.0), shift(center.1, offset.1))
}

} // verus!
