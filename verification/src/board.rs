//! The Minesweeper board: a rectangular grid of tiles stored as a flat
//! vector indexed `x + y * width`, a cursor, and the mine and flag
//! accounting. Construction places mines by a uniform random
//! permutation; neighbor counts are derived afterwards.

use vstd::prelude::*;
use rand::seq::SliceRandom;
use crate::tile::Tile;
use crate::tile::TileContents;
use crate::tile::TileVis;
use crate::counting::count_flagged;
use crate::counting::count_mines;
use crate::counting::flag_pred;
use crate::counting::mine_pred;
use crate::counting::lemma_count_if_bounds;
use crate::counting::lemma_count_if_missing;
use crate::counting::lemma_count_if_none;
use crate::counting::lemma_count_if_present;
use crate::counting::lemma_count_if_push;
use crate::counting::lemma_count_if_two_valued;
use crate::counting::lemma_count_if_update;
use crate::counting::lemma_multiset_membership;

verus! {

/// One step of cursor movement.
#[derive(Copy, Clone, Debug, PartialEq, Eq, Structural)]
pub enum Direction {
    Up,
    Down,
    Left,
    Right,
}

/// The game board.
pub struct MSGame {
    pub width: usize,
    pub height: usize,
    pub cursor_x: usize,
    pub cursor_y: usize,
    pub board: Vec<Tile>,
    pub mines: usize,
    pub flags: usize,
}

/// Two positions are grid-adjacent: distinct, and within one step in
/// each axis (the eight surrounding cells).
pub open spec fn adj(x1: int, y1: int, x2: int, y2: int) -> bool {
    &&& !(x1 == x2 && y1 == y2)
    &&& -1 <= x1 - x2 <= 1
    &&& -1 <= y1 - y2 <= 1
}

impl MSGame {
    /// The flat index of position (x, y).
    pub open spec fn spec_index_of(self, x: int, y: int) -> int {
        x + y * self.width
    }

    /// Whether (x, y) lies on the grid.
    pub open spec fn spec_valid(self, x: int, y: int) -> bool {
        0 <= x < self.width && 0 <= y < self.height
    }

    /// The tile at position (x, y).
    pub open spec fn tile_at(self, x: int, y: int) -> Tile {
        self.board@[self.spec_index_of(x, y)]
    }

    /// 1 when (x, y) is on the grid and holds a mine, 0 otherwise.
    pub open spec fn mine_ind(self, x: int, y: int) -> int {
        if self.spec_valid(x, y) && self.tile_at(x, y).is_mine() {
            1
        } else {
            0
        }
    }

    /// The number of mines among the up to eight grid-adjacent
    /// neighbors of (x, y): the brute-force sum over the eight offsets.
    pub open spec fn adj_mines(self, x: int, y: int) -> int {
        self.mine_ind(x - 1, y - 1) + self.mine_ind(x, y - 1) + self.mine_ind(x + 1, y - 1)
            + self.mine_ind(x - 1, y) + self.mine_ind(x + 1, y) + self.mine_ind(x - 1, y + 1)
            + self.mine_ind(x, y + 1) + self.mine_ind(x + 1, y + 1)
    }

    /// The grid's structural invariant: positive dimensions, a tile
    /// store of exactly width * height cells, and a cursor on the grid.
    pub open spec fn grid_wf(self) -> bool {
        &&& 1 <= self.width
        &&& 1 <= self.height
        &&& self.board@.len() == self.width * self.height
        &&& self.cursor_x < self.width
        &&& self.cursor_y < self.height
    }

    /// The full board invariant: the grid is well formed, every tile is
    /// well formed, and the mine and flag fields count exactly the mine
    /// and flagged tiles of the store.
    pub open spec fn wf(self) -> bool {
        &&& self.grid_wf()
        &&& forall|i: int| 0 <= i < self.board@.len() ==> (#[trigger] self.board@[i]).wf()
        &&& self.mines == count_mines(self.board@)
        &&& self.flags == count_flagged(self.board@)
    }

    /// Every safe tile's count equals the exact number of grid-adjacent
    /// mines (established by `init`, preserved afterwards since
    /// contents never change again).
    pub open spec fn counts_derived(self) -> bool {
        forall|x: int, y: int|
            self.spec_valid(x, y) && !(#[trigger] self.tile_at(x, y)).is_mine() ==> self.tile_at(
                x,
                y,
            ).count() == self.adj_mines(x, y)
    }

    /// Everything but the tile store agrees between the two boards.
    pub open spec fn same_frame(pre: MSGame, post: MSGame) -> bool {
        &&& post.width == pre.width
        &&& post.height == pre.height
        &&& post.cursor_x == pre.cursor_x
        &&& post.cursor_y == pre.cursor_y
        &&& post.mines == pre.mines
        &&& post.flags == pre.flags
    }

    /// The two boards hold the same contents in every cell (only
    /// visibility may differ).
    pub open spec fn same_contents(pre: MSGame, post: MSGame) -> bool {
        &&& post.board@.len() == pre.board@.len()
        &&& forall|i: int|
            0 <= i < pre.board@.len() ==> (#[trigger] post.board@[i]).contents
                == pre.board@[i].contents
    }
}

/// A valid flat index stays below the grid size.
pub proof fn lemma_index_bound(w: int, h: int, x: int, y: int)
    by (nonlinear_arith)
    requires
        0 <= x < w,
        0 <= y < h,
    ensures
        0 <= x + y * w < w * h,
{
}

/// Distinct valid positions have distinct flat indices.
pub proof fn lemma_index_inj(w: int, x1: int, y1: int, x2: int, y2: int)
    by (nonlinear_arith)
    requires
        0 <= x1 < w,
        0 <= y1,
        0 <= x2 < w,
        0 <= y2,
        x1 + y1 * w == x2 + y2 * w,
    ensures
        x1 == x2,
        y1 == y2,
{
}

/// A board whose tiles hold mines at the same cells has the same
/// mine indicator at every position.
pub proof fn lemma_mine_ind_unchanged(pre: MSGame, post: MSGame, x: int, y: int)
    requires
        post.width == pre.width,
        post.height == pre.height,
        post.board@.len() == pre.board@.len(),
        pre.board@.len() == pre.width * pre.height,
        forall|i: int|
            0 <= i < pre.board@.len() ==> (#[trigger] post.board@[i]).is_mine() == pre.board@[
                i
            ].is_mine(),
    ensures
        post.mine_ind(x, y) == pre.mine_ind(x, y),
{
    if pre.spec_valid(x, y) {
        lemma_index_bound(pre.width as int, pre.height as int, x, y);
    }
}

/// A board whose tiles hold mines at the same cells has the same
/// adjacent-mine count at every position.
pub proof fn lemma_adj_mines_unchanged(pre: MSGame, post: MSGame, x: int, y: int)
    requires
        post.width == pre.width,
        post.height == pre.height,
        post.board@.len() == pre.board@.len(),
        pre.board@.len() == pre.width * pre.height,
        forall|i: int|
            0 <= i < pre.board@.len() ==> (#[trigger] post.board@[i]).is_mine() == pre.board@[
                i
            ].is_mine(),
    ensures
        post.adj_mines(x, y) == pre.adj_mines(x, y),
{
    lemma_mine_ind_unchanged(pre, post, x - 1, y - 1);
    lemma_mine_ind_unchanged(pre, post, x, y - 1);
    lemma_mine_ind_unchanged(pre, post, x + 1, y - 1);
    lemma_mine_ind_unchanged(pre, post, x - 1, y);
    lemma_mine_ind_unchanged(pre, post, x + 1, y);
    lemma_mine_ind_unchanged(pre, post, x - 1, y + 1);
    lemma_mine_ind_unchanged(pre, post, x, y + 1);
    lemma_mine_ind_unchanged(pre, post, x + 1, y + 1);
}

/// Relies on rand's `SliceRandom::shuffle` (a Fisher-Yates pass of
/// in-place swaps driven by the thread-local generator): it permutes
/// the elements, so the multiset of tiles is unchanged. Which
/// permutation comes out is random; nothing more is assumed of it.
#[verifier::external_body]
fn shuffle_tiles(v: &mut Vec<Tile>)
    ensures
        final(v)@.to_multiset() == old(v)@.to_multiset(),
{
    v.shuffle(&mut rand::thread_rng());
}

impl MSGame {
    /// A fresh board: `mines` mine tiles (clamped to the cell count)
    /// and safe tiles for the rest, all hidden, spread by a uniform
    /// random permutation; the cursor at the origin, no flags set.
    /// Neighbor counts are not yet derived: `init` does that.
    #[verifier::loop_isolation(false)]
    pub fn new(width: usize, height: usize, mines: usize) -> (g: MSGame)
        requires
            1 <= width,
            1 <= height,
            width * height <= usize::MAX,
        ensures
            g.wf(),
            g.width == width,
            g.height == height,
            g.cursor_x == 0,
            g.cursor_y == 0,
            g.flags == 0,
            g.mines == if mines <= width * height {
                mines as int
            } else {
                width * height
            },
            count_mines(g.board@) == g.mines,
            forall|i: int| 0 <= i < g.board@.len() ==> (#[trigger] g.board@[i]).is_hidden(),
            forall|i: int|
                0 <= i < g.board@.len() && !(#[trigger] g.board@[i]).is_mine() ==> g.board@[
                    i
                ].count() == 0,
    {
        let ghost mine_t = Tile { contents: TileContents::Mine, visibility: TileVis::Hidden };
        let ghost safe_t = Tile {
            contents: TileContents::Number(0),
            visibility: TileVis::Hidden,
        };
        let size = width * height;
        let placed = if mines > size {
            size
        } else {
            mines
        };
        let safe_n = size - placed;
        let mut board: Vec<Tile> = Vec::new();
        let mut k: usize = 0;
        while k < safe_n
            invariant
                k <= safe_n,
                board@.len() == k,
                count_mines(board@) == 0,
                forall|j: int| 0 <= j < k ==> board@[j] == safe_t,
            decreases safe_n - k,
        {
            let ghost bv = board@;
            board.push(Tile::new(false));
            proof {
                lemma_count_if_push(bv, mine_pred(), safe_t);
            }
            k = k + 1;
        }
        assert(count_mines(board@) == 0);
        let mut m: usize = 0;
        while m < placed
            invariant
                m <= placed,
                board@.len() == safe_n + m,
                count_mines(board@) == m,
                forall|j: int| 0 <= j < safe_n ==> board@[j] == safe_t,
                forall|j: int| safe_n <= j < safe_n + m ==> board@[j] == mine_t,
            decreases placed - m,
        {
            let ghost bv = board@;
            board.push(Tile::new(true));
            proof {
                lemma_count_if_push(bv, mine_pred(), mine_t);
            }
            m = m + 1;
        }
        let ghost pre = board@;
        shuffle_tiles(&mut board);
        proof {
            broadcast use vstd::seq_lib::group_to_multiset_ensures;

            assert forall|j: int| 0 <= j < board@.len() implies #[trigger] board@[j] == mine_t
                || board@[j] == safe_t by {
                lemma_multiset_membership(board@, j);
                assert(pre.to_multiset().count(board@[j]) > 0);
                assert(pre.contains(board@[j]));
            };
            lemma_count_if_two_valued(pre, mine_pred(), mine_t, safe_t);
            lemma_count_if_two_valued(board@, mine_pred(), mine_t, safe_t);
            assert(board@.to_multiset().len() == board@.len());
            assert(pre.to_multiset().len() == pre.len());
            assert(board@.len() == pre.len());
            assert(count_mines(board@) == placed);
            lemma_count_if_none(board@, flag_pred());
        }
        MSGame {
            width,
            height,
            cursor_x: 0,
            cursor_y: 0,
            board,
            mines: placed,
            flags: 0,
        }
    }

    /// Derive neighbor counts: give every safe tile the exact number
    /// of grid-adjacent mines as its count. Mine placement, visibility
    /// and the accounting are untouched.
    #[verifier::loop_isolation(false)]
    pub fn init(&mut self)
        requires
            old(self).wf(),
        ensures
            final(self).wf(),
            MSGame::same_frame(*old(self), *final(self)),
            final(self).counts_derived(),
            final(self).board@.len() == old(self).board@.len(),
            forall|i: int|
                0 <= i < old(self).board@.len() ==> (#[trigger] final(self).board@[i]).visibility
                    == old(self).board@[i].visibility,
            forall|i: int|
                0 <= i < old(self).board@.len() ==> (#[trigger] final(self).board@[i]).is_mine()
                    == old(self).board@[i].is_mine(),
    {
        let w = self.width;
        let h = self.height;
        let mut y: usize = 0;
        while y < h
            invariant
                y <= h,
                MSGame::same_frame(*old(self), *self),
                self.wf(),
                self.board@.len() == old(self).board@.len(),
                forall|i: int|
                    0 <= i < old(self).board@.len() ==> (#[trigger] self.board@[i]).visibility
                        == old(self).board@[i].visibility,
                forall|i: int|
                    0 <= i < old(self).board@.len() ==> (#[trigger] self.board@[i]).is_mine()
                        == old(self).board@[i].is_mine(),
                forall|px: int, py: int|
                    self.spec_valid(px, py) && py < y && !(#[trigger] self.tile_at(
                        px,
                        py,
                    )).is_mine() ==> self.tile_at(px, py).count() == self.adj_mines(px, py),
            decreases h - y,
        {
            let mut x: usize = 0;
            while x < w
                invariant
                    x <= w,
                    y < h,
                    MSGame::same_frame(*old(self), *self),
                    self.wf(),
                    self.board@.len() == old(self).board@.len(),
                    forall|i: int|
                        0 <= i < old(self).board@.len() ==> (#[trigger] self.board@[i]).visibility
                            == old(self).board@[i].visibility,
                    forall|i: int|
                        0 <= i < old(self).board@.len() ==> (#[trigger] self.board@[i]).is_mine()
                            == old(self).board@[i].is_mine(),
                    forall|px: int, py: int|
                        self.spec_valid(px, py) && (py < y || (py == y && px < x)) && !(
                        #[trigger] self.tile_at(px, py)).is_mine() ==> self.tile_at(px, py).count()
                            == self.adj_mines(px, py),
                decreases w - x,
            {
                let t = self.get(x, y);
                match t.contents {
                    TileContents::Mine => {},
                    TileContents::Number(_) => {
                        let c = self.count_adjacent_mines(x, y);
                        let ghost prev = *self;
                        let i = self.index_of(x, y);
                        let nt = Tile {
                            contents: TileContents::Number(c),
                            visibility: t.visibility,
                        };
                        self.board[i] = nt;
                        proof {
                            lemma_count_if_update(prev.board@, mine_pred(), i as int, nt);
                            lemma_count_if_update(prev.board@, flag_pred(), i as int, nt);
                            assert forall|px: int, py: int|
                                self.spec_valid(px, py) && (py < y || (py == y && px <= x)) && !(
                                #[trigger] self.tile_at(px, py)).is_mine() implies self.tile_at(
                                px,
                                py,
                            ).count() == self.adj_mines(px, py) by {
                                lemma_index_bound(w as int, h as int, px, py);
                                assert(forall|j: int|
                                    0 <= j < prev.board@.len() ==> (
                                    #[trigger] self.board@[j]).is_mine()
                                        == prev.board@[j].is_mine());
                                lemma_adj_mines_unchanged(prev, *self, px, py);
                                if px + py * (w as int) == i as int {
                                    lemma_index_inj(w as int, px, py, x as int, y as int);
                                    assert(self.tile_at(px, py) == nt);
                                } else {
                                    assert(self.tile_at(px, py) == prev.tile_at(px, py));
                                    assert(prev.tile_at(px, py).count() == prev.adj_mines(
                                        px,
                                        py,
                                    ));
                                }
                            };
                        }
                    },
                }
                x = x + 1;
            }
            y = y + 1;
        }
    }

    /// Whether stepping by (dx - 1, dy - 1) from (x, y) stays on the
    /// grid and lands on a mine.
    fn nb_is_mine(&self, x: usize, y: usize, dx: usize, dy: usize) -> (r: bool)
        requires
            self.grid_wf(),
            self.spec_valid(x as int, y as int),
            dx <= 2,
            dy <= 2,
        ensures
            r == (self.mine_ind(x as int + dx as int - 1, y as int + dy as int - 1) == 1),
    {
        let nx: usize;
        if dx == 0 {
            if x == 0 {
                return false;
            }
            nx = x - 1;
        } else if dx == 1 {
            nx = x;
        } else {
            if x + 1 >= self.width {
                return false;
            }
            nx = x + 1;
        }
        let ny: usize;
        if dy == 0 {
            if y == 0 {
                return false;
            }
            ny = y - 1;
        } else if dy == 1 {
            ny = y;
        } else {
            if y + 1 >= self.height {
                return false;
            }
            ny = y + 1;
        }
        let t = self.get(nx, ny);
        match t.contents {
            TileContents::Mine => true,
            TileContents::Number(_) => false,
        }
    }

    /// The number of mines among the grid-adjacent neighbors of (x, y),
    /// found by probing each of the eight offsets.
    pub fn count_adjacent_mines(&self, x: usize, y: usize) -> (c: u8)
        requires
            self.grid_wf(),
            self.spec_valid(x as int, y as int),
        ensures
            c as int == self.adj_mines(x as int, y as int),
            c <= 8,
    {
        let mut c: u8 = 0;
        if self.nb_is_mine(x, y, 0, 0) {
            c = c + 1;
        }
        if self.nb_is_mine(x, y, 1, 0) {
            c = c + 1;
        }
        if self.nb_is_mine(x, y, 2, 0) {
            c = c + 1;
        }
        if self.nb_is_mine(x, y, 0, 1) {
            c = c + 1;
        }
        if self.nb_is_mine(x, y, 2, 1) {
            c = c + 1;
        }
        if self.nb_is_mine(x, y, 0, 2) {
            c = c + 1;
        }
        if self.nb_is_mine(x, y, 1, 2) {
            c = c + 1;
        }
        if self.nb_is_mine(x, y, 2, 2) {
            c = c + 1;
        }
        c
    }

    /// Whether (x, y) lies on the grid.
    pub fn valid_pos(&self, x: usize, y: usize) -> (b: bool)
        ensures
            b == self.spec_valid(x as int, y as int),
    {
        x < self.width && y < self.height
    }

    /// The flat index of a valid position.
    pub fn index_of(&self, x: usize, y: usize) -> (i: usize)
        requires
            self.grid_wf(),
            self.spec_valid(x as int, y as int),
        ensures
            i == self.spec_index_of(x as int, y as int),
            i < self.board@.len(),
    {
        proof {
            lemma_index_bound(self.width as int, self.height as int, x as int, y as int);
        }
        let _n: usize = self.board.len();
        x + y * self.width
    }

    /// The tile at a valid position.
    pub fn get(&self, x: usize, y: usize) -> (t: Tile)
        requires
            self.grid_wf(),
            self.spec_valid(x as int, y as int),
        ensures
            t == self.tile_at(x as int, y as int),
    {
        let i = self.index_of(x, y);
        self.board[i]
    }

    /// One modular step left or down the axis: 0 wraps to n - 1.
    pub open spec fn wrap_dec(v: int, n: int) -> int {
        if v == 0 {
            n - 1
        } else {
            v - 1
        }
    }

    /// One modular step right or up the axis: n - 1 wraps to 0.
    pub open spec fn wrap_inc(v: int, n: int) -> int {
        if v + 1 == n {
            0
        } else {
            v + 1
        }
    }

    /// The cursor column after one step in `dir`.
    pub open spec fn cursor_x_after(pre: MSGame, dir: Direction) -> int {
        match dir {
            Direction::Left => MSGame::wrap_dec(pre.cursor_x as int, pre.width as int),
            Direction::Right => MSGame::wrap_inc(pre.cursor_x as int, pre.width as int),
            _ => pre.cursor_x as int,
        }
    }

    /// The cursor row after one step in `dir`.
    pub open spec fn cursor_y_after(pre: MSGame, dir: Direction) -> int {
        match dir {
            Direction::Up => MSGame::wrap_dec(pre.cursor_y as int, pre.height as int),
            Direction::Down => MSGame::wrap_inc(pre.cursor_y as int, pre.height as int),
            _ => pre.cursor_y as int,
        }
    }

    /// What `move_cursor` leaves behind: the tile store and accounting
    /// untouched, the cursor moved one step with wrap-around on both
    /// axes and in both directions.
    pub open spec fn move_post(pre: MSGame, post: MSGame, dir: Direction) -> bool {
        &&& post.width == pre.width
        &&& post.height == pre.height
        &&& post.mines == pre.mines
        &&& post.flags == pre.flags
        &&& post.board@ == pre.board@
        &&& post.cursor_x == MSGame::cursor_x_after(pre, dir)
        &&& post.cursor_y == MSGame::cursor_y_after(pre, dir)
    }

    /// Move the cursor one cell, wrapping modularly at every edge:
    /// left from column 0 lands on column width - 1, right from column
    /// width - 1 lands on column 0, and the same on the vertical axis.
    pub fn move_cursor(&mut self, direction: Direction)
        requires
            old(self).grid_wf(),
        ensures
            MSGame::move_post(*old(self), *final(self), direction),
            final(self).grid_wf(),
            old(self).wf() ==> final(self).wf(),
    {
        match direction {
            Direction::Up => {
                self.cursor_y = if self.cursor_y == 0 {
                    self.height - 1
                } else {
                    self.cursor_y - 1
                };
            },
            Direction::Down => {
                self.cursor_y = if self.cursor_y + 1 == self.height {
                    0
                } else {
                    self.cursor_y + 1
                };
            },
            Direction::Left => {
                self.cursor_x = if self.cursor_x == 0 {
                    self.width - 1
                } else {
                    self.cursor_x - 1
                };
            },
            Direction::Right => {
                self.cursor_x = if self.cursor_x + 1 == self.width {
                    0
                } else {
                    self.cursor_x + 1
                };
            },
        }
    }

    /// What `flag` leaves behind: the cursor tile's visibility toggled
    /// between Hidden and Flag with the flag count following, an Open
    /// cursor tile left alone, and nothing else changed.
    pub open spec fn flag_post(pre: MSGame, post: MSGame) -> bool {
        let i = pre.spec_index_of(pre.cursor_x as int, pre.cursor_y as int);
        let t = pre.board@[i];
        &&& post.width == pre.width
        &&& post.height == pre.height
        &&& post.cursor_x == pre.cursor_x
        &&& post.cursor_y == pre.cursor_y
        &&& post.mines == pre.mines
        &&& match t.visibility {
            TileVis::Hidden => {
                &&& post.board@ == pre.board@.update(
                    i,
                    Tile { contents: t.contents, visibility: TileVis::Flag },
                )
                &&& post.flags == pre.flags + 1
            },
            TileVis::Flag => {
                &&& post.board@ == pre.board@.update(
                    i,
                    Tile { contents: t.contents, visibility: TileVis::Hidden },
                )
                &&& post.flags == pre.flags - 1
            },
            TileVis::Open => {
                &&& post.board@ == pre.board@
                &&& post.flags == pre.flags
            },
        }
    }

    /// Toggle the flag on the cursor tile: Hidden becomes Flagged (one
    /// more flag), Flagged becomes Hidden (one flag fewer), an Open
    /// tile is left alone. The flag count never underflows: it counts
    /// the flagged tiles, and only a Flagged tile permits the decrement.
    pub fn flag(&mut self)
        requires
            old(self).wf(),
        ensures
            MSGame::flag_post(*old(self), *final(self)),
            final(self).wf(),
            MSGame::same_contents(*old(self), *final(self)),
    {
        let ghost pre = *self;
        let x = self.cursor_x;
        let y = self.cursor_y;
        proof {
            lemma_index_bound(
                self.width as int,
                self.height as int,
                x as int,
                y as int,
            );
        }
        let i = self.index_of(x, y);
        let _n: usize = self.board.len();
        proof {
            assert(pre.board@.len() == _n);
        }
        let t = self.board[i];
        match t.visibility {
            TileVis::Flag => {
                proof {
                    lemma_count_if_present(pre.board@, flag_pred(), i as int);
                    lemma_count_if_update(
                        pre.board@,
                        flag_pred(),
                        i as int,
                        Tile { contents: t.contents, visibility: TileVis::Hidden },
                    );
                    lemma_count_if_update(
                        pre.board@,
                        mine_pred(),
                        i as int,
                        Tile { contents: t.contents, visibility: TileVis::Hidden },
                    );
                }
                self.board[i] = Tile { contents: t.contents, visibility: TileVis::Hidden };
                self.flags = self.flags - 1;
            },
            TileVis::Hidden => {
                proof {
                    lemma_count_if_bounds(pre.board@, flag_pred());
                    lemma_count_if_missing(pre.board@, flag_pred(), i as int);
                    lemma_count_if_update(
                        pre.board@,
                        flag_pred(),
                        i as int,
                        Tile { contents: t.contents, visibility: TileVis::Flag },
                    );
                    lemma_count_if_update(
                        pre.board@,
                        mine_pred(),
                        i as int,
                        Tile { contents: t.contents, visibility: TileVis::Flag },
                    );
                }
                self.board[i] = Tile { contents: t.contents, visibility: TileVis::Flag };
                self.flags = self.flags + 1;
            },
            TileVis::Open => {},
        }
    }

    /// A mutable borrow of the tile at a valid position. The final
    /// board is the old board with that one cell replaced by whatever
    /// the caller leaves behind the borrow.
    pub fn get_mut(&mut self, x: usize, y: usize) -> (t: &mut Tile)
        requires
            old(self).grid_wf(),
            old(self).spec_valid(x as int, y as int),
        ensures
            *t == old(self).tile_at(x as int, y as int),
            final(self).board@ == old(self).board@.update(
                old(self).spec_index_of(x as int, y as int),
                *final(t),
            ),
            MSGame::same_frame(*old(self), *final(self)),
    {
        let i = self.index_of(x, y);
        &mut self.board[i]
    }
}

} // verus!
