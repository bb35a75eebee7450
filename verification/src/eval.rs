//! Win/loss evaluation: a scan of the whole board. A detonated mine
//! (any Open mine tile) means Lose — checked before Win, so it always
//! takes precedence — and on a loss every mine is revealed. Win means
//! every safe tile is actually Open; flags do not count as exploring.

use vstd::prelude::*;
use crate::tile::Tile;
use crate::tile::TileContents;
use crate::tile::TileVis;
use crate::board::MSGame;
use crate::counting::count_flagged;
use crate::counting::flag_pred;
use crate::counting::mine_pred;
use crate::counting::lemma_count_if_update;

verus! {

/// The outcome of one turn.
#[derive(Copy, Clone, Debug, PartialEq, Eq, Structural)]
pub enum TurnResult {
    Continue,
    Lose,
    Win,
    Quit,
}

/// Some tile is an open mine: the player has detonated it.
pub open spec fn any_open_mine(s: Seq<Tile>) -> bool {
    exists|i: int| 0 <= i < s.len() && (#[trigger] s[i]).is_mine() && s[i].is_open()
}

/// Every safe tile is Open: the board is fully explored. A Flagged
/// safe tile does not count.
pub open spec fn all_safe_open(s: Seq<Tile>) -> bool {
    forall|i: int| 0 <= i < s.len() && !(#[trigger] s[i]).is_mine() ==> s[i].is_open()
}

/// The outcome on a board: Lose before Win, else Continue.
pub open spec fn spec_state(s: Seq<Tile>) -> TurnResult {
    if any_open_mine(s) {
        TurnResult::Lose
    } else if all_safe_open(s) {
        TurnResult::Win
    } else {
        TurnResult::Continue
    }
}

/// The board with every mine tile made Open and everything else as it
/// was.
pub open spec fn with_mines_open(s: Seq<Tile>) -> Seq<Tile> {
    s.map(
        |i: int, t: Tile|
            if t.is_mine() {
                Tile { contents: t.contents, visibility: TileVis::Open }
            } else {
                t
            },
    )
}

/// The board after one evaluation: on a loss the whole minefield is
/// revealed, otherwise nothing changes.
pub open spec fn spec_after_state(s: Seq<Tile>) -> Seq<Tile> {
    if any_open_mine(s) {
        with_mines_open(s)
    } else {
        s
    }
}

/// What `state` leaves behind: the outcome's side effect on the board,
/// the flag count still counting the flagged tiles, everything else
/// untouched.
pub open spec fn state_post(pre: MSGame, post: MSGame) -> bool {
    &&& post.width == pre.width
    &&& post.height == pre.height
    &&& post.cursor_x == pre.cursor_x
    &&& post.cursor_y == pre.cursor_y
    &&& post.mines == pre.mines
    &&& post.board@ == spec_after_state(pre.board@)
    &&& post.flags == count_flagged(post.board@)
}

/// Evaluating a second time without any move in between returns the
/// same outcome: revealing the mines after a loss leaves the detonated
/// mine open, so the outcome stays Lose; a Win or Continue changes
/// nothing at all.
pub proof fn lemma_state_idempotent(s: Seq<Tile>)
    ensures
        spec_state(spec_after_state(s)) == spec_state(s),
{
    if any_open_mine(s) {
        let i = choose|i: int| 0 <= i < s.len() && (#[trigger] s[i]).is_mine() && s[i].is_open();
        assert(with_mines_open(s)[i].is_mine() && with_mines_open(s)[i].is_open());
        assert(any_open_mine(with_mines_open(s)));
    }
}

/// A board whose safe tiles are all Open and whose mines are all still
/// closed — flagged or hidden — is a Win. In particular a board with
/// no mines and no hidden safe tile wins on the first evaluation.
pub proof fn lemma_win_condition(s: Seq<Tile>)
    requires
        all_safe_open(s),
        !any_open_mine(s),
    ensures
        spec_state(s) == TurnResult::Win,
{
}

/// A board with a detonated mine is a Lose, whatever else holds, and
/// after the evaluation every mine tile reports Open visibility.
pub proof fn lemma_lose_condition(s: Seq<Tile>)
    requires
        any_open_mine(s),
    ensures
        spec_state(s) == TurnResult::Lose,
        forall|i: int|
            0 <= i < s.len() && (#[trigger] s[i]).is_mine() ==> spec_after_state(s)[i].is_open(),
{
}

impl MSGame {
    /// Evaluate the board. Lose if any mine is Open — and then reveal
    /// the whole minefield, giving back the flags that sat on mines —
    /// else Win when every safe tile is Open, else Continue.
    #[verifier::loop_isolation(false)]
    pub fn state(&mut self) -> (r: TurnResult)
        requires
            old(self).wf(),
        ensures
            final(self).wf(),
            r == spec_state(old(self).board@),
            state_post(*old(self), *final(self)),
            MSGame::same_contents(*old(self), *final(self)),
    {
        let ghost pre = *self;
        let n = self.board.len();
        let mut lose = false;
        let mut explored = true;
        let mut k: usize = 0;
        while k < n
            invariant
                k <= n,
                lose == (exists|i: int|
                    0 <= i < k && (#[trigger] self.board@[i]).is_mine()
                        && self.board@[i].is_open()),
                explored == (forall|i: int|
                    0 <= i < k && !(#[trigger] self.board@[i]).is_mine()
                        ==> self.board@[i].is_open()),
            decreases n - k,
        {
            let t = self.board[k];
            match t.visibility {
                TileVis::Open => {
                    if let TileContents::Mine = t.contents {
                        lose = true;
                    }
                },
                _ => {
                    if let TileContents::Number(_) = t.contents {
                        explored = false;
                    }
                },
            }
            k = k + 1;
        }
        assert(lose == any_open_mine(self.board@));
        assert(explored == all_safe_open(self.board@));
        if lose {
            let mut k2: usize = 0;
            while k2 < n
                invariant
                    k2 <= n,
                    self.board@.len() == n,
                    self.width == pre.width,
                    self.height == pre.height,
                    self.cursor_x == pre.cursor_x,
                    self.cursor_y == pre.cursor_y,
                    self.mines == pre.mines,
                    self.flags == count_flagged(self.board@),
                    self.mines == crate::counting::count_mines(self.board@),
                    forall|i: int|
                        0 <= i < self.board@.len() ==> (#[trigger] self.board@[i]).wf(),
                    forall|i: int|
                        0 <= i < k2 ==> self.board@[i] == with_mines_open(pre.board@)[i],
                    forall|i: int| k2 <= i < n ==> self.board@[i] == pre.board@[i],
                decreases n - k2,
            {
                let t = self.board[k2];
                if let TileContents::Mine = t.contents {
                    let ghost bv = self.board@;
                    let nt = Tile { contents: t.contents, visibility: TileVis::Open };
                    self.board[k2] = nt;
                    proof {
                        lemma_count_if_update(bv, flag_pred(), k2 as int, nt);
                        lemma_count_if_update(bv, mine_pred(), k2 as int, nt);
                        if t.is_flagged() {
                            crate::counting::lemma_count_if_present(bv, flag_pred(), k2 as int);
                        }
                    }
                    if let TileVis::Flag = t.visibility {
                        self.flags = self.flags - 1;
                    }
                }
                k2 = k2 + 1;
            }
            proof {
                assert(self.board@ =~= with_mines_open(pre.board@));
            }
            return TurnResult::Lose;
        }
        if explored {
            TurnResult::Win
        } else {
            TurnResult::Continue
        }
    }
}

} // verus!
