//! Rendering the board as text: one glyph per tile, a gap between
//! cells, and bracket characters flanking the tile under the cursor.
//! Printing the rows is the caller's business; everything here is pure
//! string building.

use vstd::prelude::*;
use crate::tile::Tile;
use crate::tile::TileContents;
use crate::tile::TileVis;
use crate::board::MSGame;

verus! {

/// The digit glyph of a neighbor count from 1 to 8.
pub open spec fn digit_char(n: int) -> char {
    if n == 1 {
        '1'
    } else if n == 2 {
        '2'
    } else if n == 3 {
        '3'
    } else if n == 4 {
        '4'
    } else if n == 5 {
        '5'
    } else if n == 6 {
        '6'
    } else if n == 7 {
        '7'
    } else if n == 8 {
        '8'
    } else {
        '0'
    }
}

/// The glyph of a tile as the player sees it: '#' hidden, 'F' flagged,
/// '*' an open mine, a space an open zero, the digit otherwise.
pub open spec fn glyph(t: Tile) -> Seq<char> {
    match t.visibility {
        TileVis::Hidden => seq!['#'],
        TileVis::Flag => seq!['F'],
        TileVis::Open => match t.contents {
            TileContents::Mine => seq!['*'],
            TileContents::Number(n) => if n == 0 {
                seq![' ']
            } else {
                seq![digit_char(n as int)]
            },
        },
    }
}

/// The gap printed after column `col` of row `row` (`col == -1` is the
/// gap at the start of the row): brackets around the cursor tile on
/// the cursor's row, a plain space everywhere else.
pub open spec fn gap_char(g: MSGame, col: int, row: int) -> char {
    if row != g.cursor_y as int {
        ' '
    } else if col + 1 == g.cursor_x as int {
        '('
    } else if col == g.cursor_x as int {
        ')'
    } else {
        ' '
    }
}

/// The first `n` cells of a rendered row: the leading gap, then each
/// tile's glyph followed by its gap.
pub open spec fn row_prefix(g: MSGame, row: int, n: int) -> Seq<char>
    decreases n,
{
    if n <= 0 {
        seq![gap_char(g, -1, row)]
    } else {
        row_prefix(g, row, n - 1) + glyph(g.tile_at(n - 1, row)) + seq![gap_char(g, n - 1, row)]
    }
}

/// One whole rendered row.
pub open spec fn spec_row(g: MSGame, row: int) -> Seq<char> {
    row_prefix(g, row, g.width as int)
}

impl Tile {
    /// The tile's glyph as a string.
    pub fn draw(&self) -> (r: String)
        requires
            self.wf(),
        ensures
            r@ == glyph(*self),
    {
        let s: &str = match self.visibility {
            TileVis::Hidden => "#",
            TileVis::Flag => "F",
            TileVis::Open => match self.contents {
                TileContents::Mine => "*",
                TileContents::Number(0) => " ",
                TileContents::Number(1) => "1",
                TileContents::Number(2) => "2",
                TileContents::Number(3) => "3",
                TileContents::Number(4) => "4",
                TileContents::Number(5) => "5",
                TileContents::Number(6) => "6",
                TileContents::Number(7) => "7",
                TileContents::Number(_) => "8",
            },
        };
        proof {
            reveal_strlit("#");
            reveal_strlit("F");
            reveal_strlit("*");
            reveal_strlit(" ");
            reveal_strlit("1");
            reveal_strlit("2");
            reveal_strlit("3");
            reveal_strlit("4");
            reveal_strlit("5");
            reveal_strlit("6");
            reveal_strlit("7");
            reveal_strlit("8");
            assert(s@ =~= glyph(*self));
        }
        s.to_owned()
    }
}

impl MSGame {
    /// The gap at the start of a row.
    fn gap_lead(&self, row: usize) -> (r: &'static str)
        ensures
            r@ == seq![gap_char(*self, -1, row as int)],
    {
        let s: &'static str = if row == self.cursor_y && self.cursor_x == 0 {
            "("
        } else {
            " "
        };
        proof {
            reveal_strlit("(");
            reveal_strlit(" ");
            assert(s@ =~= seq![gap_char(*self, -1, row as int)]);
        }
        s
    }

    /// The gap after column `col` of a row.
    fn gap_after(&self, col: usize, row: usize) -> (r: &'static str)
        requires
            col < self.width,
        ensures
            r@ == seq![gap_char(*self, col as int, row as int)],
    {
        let s: &'static str = if row != self.cursor_y {
            " "
        } else if col + 1 == self.cursor_x {
            "("
        } else if col == self.cursor_x {
            ")"
        } else {
            " "
        };
        proof {
            reveal_strlit("(");
            reveal_strlit(")");
            reveal_strlit(" ");
            assert(s@ =~= seq![gap_char(*self, col as int, row as int)]);
        }
        s
    }

    /// One row of the board as the player sees it.
    #[verifier::loop_isolation(false)]
    pub fn render_row(&self, row: usize) -> (r: String)
        requires
            self.wf(),
            row < self.height,
        ensures
            r@ == spec_row(*self, row as int),
    {
        let mut s = String::new();
        s.append(self.gap_lead(row));
        assert(s@ =~= row_prefix(*self, row as int, 0));
        let mut col: usize = 0;
        while col < self.width
            invariant
                col <= self.width,
                s@ == row_prefix(*self, row as int, col as int),
            decreases self.width - col,
        {
            let t = self.get(col, row);
            proof {
                crate::board::lemma_index_bound(
                    self.width as int,
                    self.height as int,
                    col as int,
                    row as int,
                );
                assert(t.wf());
            }
            let g = t.draw();
            s.append(g.as_str());
            s.append(self.gap_after(col, row));
            col = col + 1;
        }
        s
    }

    /// Every row of the board, top to bottom.
    #[verifier::loop_isolation(false)]
    pub fn render(&self) -> (rows: Vec<String>)
        requires
            self.wf(),
        ensures
            rows@.len() == self.height,
            forall|r: int| 0 <= r < self.height ==> (#[trigger] rows@[r])@ == spec_row(*self, r),
    {
        let mut rows: Vec<String> = Vec::new();
        let mut row: usize = 0;
        while row < self.height
            invariant
                row <= self.height,
                rows@.len() == row,
                forall|r: int| 0 <= r < row ==> (#[trigger] rows@[r])@ == spec_row(*self, r),
            decreases self.height - row,
        {
            let line = self.render_row(row);
            rows.push(line);
            row = row + 1;
        }
        rows
    }
}

} // verus!
