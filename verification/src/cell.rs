//! The per-cell data model: immutable content (a mine, or a neighbor-mine
//! count) together with the two mutable presentation flags, and the
//! display-state query that a presentation layer reads.

use vstd::prelude::*;

verus! {

/// What a cell permanently holds once the field is generated: either a mine,
/// or the number of mines among its up-to-8 Moore neighbors.
#[derive(Clone, Copy, PartialEq, Eq, Structural, Debug)]
pub enum CellContent {
    Empty { count: u8 },
    Mine,
}

/// One grid position: its content, whether it is still hidden, and whether the
/// player has flagged it. Flag state and hidden state are orthogonal.
#[derive(Clone, Copy, PartialEq, Eq, Structural, Debug)]
pub struct Cell {
    pub content: CellContent,
    pub hidden: bool,
    pub flagged: bool,
}

/// What the presentation layer shows for a cell, in priority order: a flag
/// masks everything, then the hidden cover, then the revealed content.
#[derive(Clone, Copy, PartialEq, Eq, Structural, Debug)]
pub enum DisplayState {
    Flag,
    Hidden,
    Content(CellContent),
}

impl Cell {
    /// A freshly generated cell: no mine yet, covered, unflagged.
    pub open spec fn spec_blank() -> Cell {
        Cell { content: CellContent::Empty { count: 0 }, hidden: true, flagged: false }
    }

    pub fn blank() -> (c: Cell)
        ensures
            c == Cell::spec_blank(),
    {
        Cell { content: CellContent::Empty { count: 0 }, hidden: true, flagged: false }
    }

    /// The display priority: `Flag` if flagged, else `Hidden` if hidden, else
    /// the content itself.
    pub open spec fn spec_display(self) -> DisplayState {
        if self.flagged {
            DisplayState::Flag
        } else if self.hidden {
            DisplayState::Hidden
        } else {
            DisplayState::Content(self.content)
        }
    }

    pub fn display(&self) -> (d: DisplayState)
        ensures
            d == self.spec_display(),
    {
        if self.flagged {
            DisplayState::Flag
        } else if self.hidden {
            DisplayState::Hidden
        } else {
            DisplayState::Content(self.content)
        }
    }
}

impl DisplayState {
    /// The index of the visual asset for this display state in the tile sheet:
    /// the digit tiles sit at 0 through 8, then the cover, the flag, and the
    /// mine.
    pub open spec fn spec_sprite_index(self) -> int {
        match self {
            DisplayState::Flag => 10,
            DisplayState::Hidden => 9,
            DisplayState::Content(CellContent::Mine) => 11,
            DisplayState::Content(CellContent::Empty { count }) => count as int,
        }
    }

    pub fn sprite_index(self) -> (i: usize)
        ensures
            i as int == self.spec_sprite_index(),
    {
        match self {
            DisplayState::Flag => 10,
            DisplayState::Hidden => 9,
            DisplayState::Content(CellContent::Mine) => 11,
            DisplayState::Content(CellContent::Empty { count }) => count as usize,
        }
    }
}

/// A cell that is both flagged and hidden displays as `Flag`, never as
/// `Hidden`: the flag masks the hidden/revealed distinction.
pub proof fn lemma_display_flag_priority(c: Cell)
    requires
        c.flagged,
        c.hidden,
    ensures
        c.spec_display() == DisplayState::Flag,
{
}

} // verus!
