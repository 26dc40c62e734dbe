//! The mark shown beside a word for how well it is known.

use vstd::prelude::*;

verus! {

/// How well a word is known.
#[derive(Debug, Clone, Copy, PartialEq, Eq, Structural)]
pub enum Icon {
    /// Never completed.
    New,
    /// Completed one to four times.
    Seen,
    /// Completed five times or more.
    Learnt,
}

impl Icon {
    /// The icon for a completion count.
    pub open spec fn of(count: int) -> Icon {
        if count == 0 {
            Icon::New
        } else if count <= 4 {
            Icon::Seen
        } else {
            Icon::Learnt
        }
    }

    /// The glyph of the icon; a new word has none.
    pub open spec fn glyph_text(self) -> Seq<char> {
        match self {
            Icon::New => ""@,
            Icon::Seen => "\u{e22f}"@,
            Icon::Learnt => "\u{e21c}"@,
        }
    }

    /// The icon for a completion count.
    pub fn for_count(count: i64) -> (res: Self)
        requires
            count >= 0,
        ensures
            res == Icon::of(count as int),
    {
        if count == 0 {
            Icon::New
        } else if count <= 4 {
            Icon::Seen
        } else {
            Icon::Learnt
        }
    }

    /// The glyph of the icon; a new word has none.
    pub fn glyph(&self) -> (res: &'static str)
        ensures
            res@ == self.glyph_text(),
    {
        match self {
            Icon::New => "",
            Icon::Seen => "\u{e22f}",
            Icon::Learnt => "\u{e21c}",
        }
    }
}

} // verus!
