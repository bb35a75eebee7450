//! A single board cell: its contents (mine, or a safe tile carrying the
//! count of adjacent mines) and its visibility (hidden, flagged, open).

use vstd::prelude::*;

verus! {

/// What a tile holds: a mine, or a safe cell with the number of
/// grid-adjacent mines (0 through 8).
#[derive(Copy, Clone, Debug, PartialEq, Eq, Structural)]
pub enum TileContents {
    Number(u8),
    Mine,
}

/// What the player sees of a tile.
#[derive(Copy, Clone, Debug, PartialEq, Eq, Structural)]
pub enum TileVis {
    Hidden,
    Flag,
    Open,
}

/// One cell of the board.
#[derive(Copy, Clone, Debug, PartialEq, Eq, Structural)]
pub struct Tile {
    pub contents: TileContents,
    pub visibility: TileVis,
}

impl Tile {
    /// True when the tile holds a mine.
    pub open spec fn is_mine(self) -> bool {
        self.contents is Mine
    }

    /// The adjacent-mine count of a safe tile (meaningful only when
    /// `!self.is_mine()`).
    pub open spec fn count(self) -> int {
        self.contents->Number_0 as int
    }

    pub open spec fn is_hidden(self) -> bool {
        self.visibility is Hidden
    }

    pub open spec fn is_flagged(self) -> bool {
        self.visibility is Flag
    }

    pub open spec fn is_open(self) -> bool {
        self.visibility is Open
    }

    /// A well-formed tile: a safe tile's count never exceeds the eight
    /// possible neighbors.
    pub open spec fn wf(self) -> bool {
        !self.is_mine() ==> 0 <= self.count() <= 8
    }

    /// Whether the tile is a safe tile with count zero (the kind the
    /// flood fill cascades out of).
    pub fn is_zero(&self) -> (r: bool)
        ensures
            r == (!self.is_mine() && self.count() == 0),
    {
        match self.contents {
            TileContents::Number(n) => n == 0,
            TileContents::Mine => false,
        }
    }

    /// A fresh, hidden tile: a mine, or a safe tile with count zero.
    pub fn new(mine: bool) -> (t: Tile)
        ensures
            t == (Tile {
                contents: if mine {
                    TileContents::Mine
                } else {
                    TileContents::Number(0)
                },
                visibility: TileVis::Hidden,
            }),
            t.is_mine() == mine,
            t.is_hidden(),
            !mine ==> t.count() == 0,
            t.wf(),
    {
        let contents = if mine {
            TileContents::Mine
        } else {
            TileContents::Number(0)
        };
        Tile { contents, visibility: TileVis::Hidden }
    }
}

} // verus!
