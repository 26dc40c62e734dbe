//! Where the cursor goes.

use vstd::prelude::*;
use crate::practice::util::{offset_from, wrapped};

verus! {

/// The cursor of the terminal.
#[derive(Debug, Clone, Copy)]
pub struct Cursor;

impl Cursor {
    /// The position to move to for the centre of the screen, which is at
    /// `center`.
    pub fn move_to_center_default(center: (u16, u16)) -> (res: (u16, u16))
        ensures
            res == center,
    {
        center
    }

    /// The position to move to for the distance `offset` from the centre
    /// of the screen, which is at `center`.
    pub fn move_to_center(center: (u16, u16), offset: (i16, i16)) -> (res: (u16, u16))
        ensures
            res.0 == wrapped(center.0 + offset.0),
            res.1 == wrapped(center.1 + offset.1),
    {
        offset_from(center, offset)
    }
}

} // verus!
