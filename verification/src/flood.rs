//! The flood-fill reveal: opening the cursor tile cascades through
//! connected zero-count safe tiles, via a duplicate-tolerant worklist
//! over the grid graph. Flagged tiles are never opened; every tile
//! opens at most once, which bounds the worklist and the running time.

use vstd::prelude::*;
use crate::tile::Tile;
use crate::tile::TileVis;
use crate::board::MSGame;
use crate::board::adj;
use crate::board::lemma_index_bound;
use crate::board::lemma_index_inj;
use crate::counting::count_hidden;
use crate::counting::flag_pred;
use crate::counting::hidden_pred;
use crate::counting::mine_pred;
use crate::counting::lemma_count_if_bounds;
use crate::counting::lemma_count_if_present;
use crate::counting::lemma_count_if_update;

verus! {

/// Some entry of `q` at index `i` or later names position (nx, ny).
pub open spec fn in_pending(q: Seq<(usize, usize)>, i: int, nx: int, ny: int) -> bool {
    exists|j: int| i <= j < q.len() && #[trigger] q[j] == ((nx as usize, ny as usize))
}

/// A pending entry stays pending when the lower bound moves down.
pub proof fn lemma_in_pending_weaken(q: Seq<(usize, usize)>, i1: int, i2: int, nx: int, ny: int)
    requires
        i2 <= i1,
        in_pending(q, i1, nx, ny),
    ensures
        in_pending(q, i2, nx, ny),
{
    let j = choose|j: int| i1 <= j < q.len() && #[trigger] q[j] == ((nx as usize, ny as usize));
    assert(i2 <= j < q.len() && q[j] == ((nx as usize, ny as usize)));
}

impl MSGame {
    /// Between the two boards, a tile's visibility either stays what it
    /// was or goes from Hidden to Open; contents never change. In
    /// particular a Flagged tile stays Flagged.
    pub open spec fn opens_monotone(pre: MSGame, post: MSGame) -> bool {
        &&& post.board@.len() == pre.board@.len()
        &&& forall|i: int|
            0 <= i < pre.board@.len() ==> (#[trigger] post.board@[i]).contents == pre.board@[
                i
            ].contents
        &&& forall|i: int|
            0 <= i < pre.board@.len() ==> (#[trigger] post.board@[i]).visibility == pre.board@[
                i
            ].visibility || (pre.board@[i].is_hidden() && post.board@[i].is_open())
    }

    /// The tile at (x, y) went from Hidden to Open between the boards.
    pub open spec fn newly_opened(pre: MSGame, post: MSGame, x: int, y: int) -> bool {
        pre.tile_at(x, y).is_hidden() && post.tile_at(x, y).is_open()
    }

    /// What the flood-fill reveal leaves behind.
    ///
    /// - Nothing but visibility changes, and only from Hidden to Open:
    ///   flagged tiles are never opened, open tiles never close.
    /// - A cursor tile that is not Hidden makes the call a no-op.
    /// - A Hidden cursor tile is opened.
    /// - Provenance: every other tile opened by the call has a
    ///   grid-adjacent tile, itself opened by the call, that is safe
    ///   with count zero — the cascade spreads only out of zeros, so
    ///   the opened region is bounded by nonzero tiles and the edges.
    /// - Completeness: a tile opened by the call that is safe with
    ///   count zero leaves no grid-adjacent tile Hidden.
    pub open spec fn open_post(pre: MSGame, post: MSGame) -> bool {
        let cx = pre.cursor_x as int;
        let cy = pre.cursor_y as int;
        &&& MSGame::same_frame(pre, post)
        &&& MSGame::opens_monotone(pre, post)
        &&& (!pre.tile_at(cx, cy).is_hidden() ==> post.board@ == pre.board@)
        &&& (pre.tile_at(cx, cy).is_hidden() ==> post.tile_at(cx, cy).is_open())
        &&& forall|x: int, y: int|
            pre.spec_valid(x, y) && #[trigger] MSGame::newly_opened(pre, post, x, y) && !(x == cx
                && y == cy) ==> exists|x2: int, y2: int|
                pre.spec_valid(x2, y2) && adj(x2, y2, x, y) && #[trigger] MSGame::newly_opened(
                    pre,
                    post,
                    x2,
                    y2,
                ) && !post.tile_at(x2, y2).is_mine() && post.tile_at(x2, y2).count() == 0
        &&& forall|x: int, y: int, nx: int, ny: int|
            pre.spec_valid(x, y) && #[trigger] MSGame::newly_opened(pre, post, x, y)
                && !post.tile_at(x, y).is_mine() && post.tile_at(x, y).count() == 0
                && pre.spec_valid(nx, ny) && #[trigger] adj(nx, ny, x, y) ==> !post.tile_at(
                nx,
                ny,
            ).is_hidden()
    }

    /// Open the tile at (x, y) if it is Hidden; a Flagged or Open tile
    /// is left alone.
    pub fn open_single(&mut self, x: usize, y: usize)
        requires
            old(self).grid_wf(),
            old(self).spec_valid(x as int, y as int),
        ensures
            MSGame::same_frame(*old(self), *final(self)),
            final(self).grid_wf(),
            ({
                let i = old(self).spec_index_of(x as int, y as int);
                let t = old(self).board@[i];
                if t.is_hidden() {
                    final(self).board@ == old(self).board@.update(
                        i,
                        (Tile { contents: t.contents, visibility: TileVis::Open }),
                    )
                } else {
                    final(self).board@ == old(self).board@
                }
            }),
            old(self).wf() ==> final(self).wf(),
    {
        let ghost pre = *self;
        let i = self.index_of(x, y);
        let t = self.board[i];
        if let TileVis::Hidden = t.visibility {
            self.board[i] = Tile { contents: t.contents, visibility: TileVis::Open };
            proof {
                if pre.wf() {
                    lemma_count_if_update(
                        pre.board@,
                        mine_pred(),
                        i as int,
                        (Tile { contents: t.contents, visibility: TileVis::Open }),
                    );
                    lemma_count_if_update(
                        pre.board@,
                        flag_pred(),
                        i as int,
                        (Tile { contents: t.contents, visibility: TileVis::Open }),
                    );
                }
            }
        }
    }

    /// During the cascade out of a zero tile at (x, y): enqueue the
    /// neighbor at offset (dx - 1, dy - 1) unless it is off the grid or
    /// already Open.
    fn push_if_closed(
        &self,
        queue: &mut Vec<(usize, usize)>,
        x: usize,
        y: usize,
        dx: usize,
        dy: usize,
    )
        requires
            self.grid_wf(),
            self.spec_valid(x as int, y as int),
            dx <= 2,
            dy <= 2,
            !(dx == 1 && dy == 1),
        ensures
            old(queue)@.len() <= final(queue)@.len() <= old(queue)@.len() + 1,
            forall|j: int| 0 <= j < old(queue)@.len() ==> final(queue)@[j] == old(queue)@[j],
            forall|j: int|
                old(queue)@.len() <= j < final(queue)@.len() ==> self.spec_valid(
                    (#[trigger] final(queue)@[j]).0 as int,
                    final(queue)@[j].1 as int,
                ) && adj(final(queue)@[j].0 as int, final(queue)@[j].1 as int, x as int, y as int),
            ({
                let nx = x as int + dx as int - 1;
                let ny = y as int + dy as int - 1;
                (self.spec_valid(nx, ny) && !self.tile_at(nx, ny).is_open()) ==> in_pending(
                    final(queue)@,
                    old(queue)@.len() as int,
                    nx,
                    ny,
                )
            }),
            forall|i2: int, px: int, py: int|
                0 <= i2 && #[trigger] in_pending(old(queue)@, i2, px, py) ==> in_pending(
                    final(queue)@,
                    i2,
                    px,
                    py,
                ),
    {
        let nx: usize;
        if dx == 0 {
            if x == 0 {
                return ;
            }
            nx = x - 1;
        } else if dx == 1 {
            nx = x;
        } else {
            if x + 1 >= self.width {
                return ;
            }
            nx = x + 1;
        }
        let ny: usize;
        if dy == 0 {
            if y == 0 {
                return ;
            }
            ny = y - 1;
        } else if dy == 1 {
            ny = y;
        } else {
            if y + 1 >= self.height {
                return ;
            }
            ny = y + 1;
        }
        let t = self.get(nx, ny);
        if let TileVis::Open = t.visibility {
            return ;
        }
        let ghost q0 = queue@;
        queue.push((nx, ny));
        proof {
            assert(queue@[q0.len() as int] == ((nx, ny)));
            assert(in_pending(queue@, q0.len() as int, nx as int, ny as int));
            assert forall|i2: int, px: int, py: int|
                0 <= i2 && #[trigger] in_pending(q0, i2, px, py) implies in_pending(
                queue@,
                i2,
                px,
                py,
            ) by {
                let j = choose|j: int|
                    i2 <= j < q0.len() && #[trigger] q0[j] == ((px as usize, py as usize));
                assert(queue@[j] == ((px as usize, py as usize)));
            };
        }
    }

    /// The expansion step of the cascade: enqueue every grid-adjacent
    /// neighbor of (x, y) that is not already Open.
    #[verifier::rlimit(100)]
    fn enqueue_neighbors(&self, queue: &mut Vec<(usize, usize)>, x: usize, y: usize)
        requires
            self.grid_wf(),
            self.spec_valid(x as int, y as int),
        ensures
            old(queue)@.len() <= final(queue)@.len() <= old(queue)@.len() + 8,
            forall|j: int| 0 <= j < old(queue)@.len() ==> final(queue)@[j] == old(queue)@[j],
            forall|j: int|
                old(queue)@.len() <= j < final(queue)@.len() ==> self.spec_valid(
                    (#[trigger] final(queue)@[j]).0 as int,
                    final(queue)@[j].1 as int,
                ) && adj(final(queue)@[j].0 as int, final(queue)@[j].1 as int, x as int, y as int),
            forall|nx: int, ny: int|
                self.spec_valid(nx, ny) && #[trigger] adj(nx, ny, x as int, y as int)
                    && !self.tile_at(nx, ny).is_open() ==> in_pending(
                    final(queue)@,
                    old(queue)@.len() as int,
                    nx,
                    ny,
                ),
    {
        let ghost q0 = queue@;
        self.push_if_closed(queue, x, y, 0, 0);
        let ghost q1 = queue@;
        self.push_if_closed(queue, x, y, 1, 0);
        let ghost q2 = queue@;
        self.push_if_closed(queue, x, y, 2, 0);
        let ghost q3 = queue@;
        self.push_if_closed(queue, x, y, 0, 1);
        let ghost q4 = queue@;
        self.push_if_closed(queue, x, y, 2, 1);
        let ghost q5 = queue@;
        self.push_if_closed(queue, x, y, 0, 2);
        let ghost q6 = queue@;
        self.push_if_closed(queue, x, y, 1, 2);
        let ghost q7 = queue@;
        self.push_if_closed(queue, x, y, 2, 2);
        proof {
            let xi = x as int;
            let yi = y as int;
            assert forall|nx: int, ny: int|
                self.spec_valid(nx, ny) && #[trigger] adj(nx, ny, xi, yi) && !self.tile_at(
                    nx,
                    ny,
                ).is_open() implies in_pending(queue@, q0.len() as int, nx, ny) by {
                if nx == xi - 1 && ny == yi - 1 {
                    assert(in_pending(q1, q0.len() as int, nx, ny));
                    assert(in_pending(queue@, q0.len() as int, nx, ny));
                } else if nx == xi && ny == yi - 1 {
                    assert(in_pending(q2, q1.len() as int, nx, ny));
                    lemma_in_pending_weaken(queue@, q1.len() as int, q0.len() as int, nx, ny);
                } else if nx == xi + 1 && ny == yi - 1 {
                    assert(in_pending(q3, q2.len() as int, nx, ny));
                    lemma_in_pending_weaken(queue@, q2.len() as int, q0.len() as int, nx, ny);
                } else if nx == xi - 1 && ny == yi {
                    assert(in_pending(q4, q3.len() as int, nx, ny));
                    lemma_in_pending_weaken(queue@, q3.len() as int, q0.len() as int, nx, ny);
                } else if nx == xi + 1 && ny == yi {
                    assert(in_pending(q5, q4.len() as int, nx, ny));
                    lemma_in_pending_weaken(queue@, q4.len() as int, q0.len() as int, nx, ny);
                } else if nx == xi - 1 && ny == yi + 1 {
                    assert(in_pending(q6, q5.len() as int, nx, ny));
                    lemma_in_pending_weaken(queue@, q5.len() as int, q0.len() as int, nx, ny);
                } else if nx == xi && ny == yi + 1 {
                    assert(in_pending(q7, q6.len() as int, nx, ny));
                    lemma_in_pending_weaken(queue@, q6.len() as int, q0.len() as int, nx, ny);
                } else {
                    assert(nx == xi + 1 && ny == yi + 1);
                    assert(in_pending(queue@, q7.len() as int, nx, ny));
                    lemma_in_pending_weaken(queue@, q7.len() as int, q0.len() as int, nx, ny);
                }
            };
        }
    }
}

/// The loop invariant of the flood fill: `w0` is the board at entry,
/// `s` the current board, `q` the worklist and `i` how much of it has
/// been processed.
pub open spec fn flood_inv(w0: MSGame, s: MSGame, q: Seq<(usize, usize)>, i: int) -> bool {
    let cx = w0.cursor_x as int;
    let cy = w0.cursor_y as int;
    &&& w0.wf()
    &&& s.wf()
    &&& MSGame::same_frame(w0, s)
    &&& MSGame::opens_monotone(w0, s)
    &&& 0 <= i <= q.len()
    &&& q.len() >= 1
    &&& q[0] == ((w0.cursor_x, w0.cursor_y))
    &&& forall|j: int|
        0 <= j < q.len() ==> w0.spec_valid((#[trigger] q[j]).0 as int, q[j].1 as int)
    &&& ((i >= 1 && w0.tile_at(cx, cy).is_hidden()) ==> s.tile_at(cx, cy).is_open())
    &&& (!w0.tile_at(cx, cy).is_hidden() ==> s.board@ == w0.board@ && q.len() == 1)
    &&& forall|j: int|
        1 <= j < q.len() ==> exists|x2: int, y2: int|
            w0.spec_valid(x2, y2) && adj(x2, y2, (#[trigger] q[j]).0 as int, q[j].1 as int)
                && MSGame::newly_opened(w0, s, x2, y2) && !s.tile_at(x2, y2).is_mine()
                && s.tile_at(x2, y2).count() == 0
    &&& forall|x: int, y: int|
        w0.spec_valid(x, y) && #[trigger] MSGame::newly_opened(w0, s, x, y) && !(x == cx && y
            == cy) ==> exists|x2: int, y2: int|
            w0.spec_valid(x2, y2) && adj(x2, y2, x, y) && #[trigger] MSGame::newly_opened(
                w0,
                s,
                x2,
                y2,
            ) && !s.tile_at(x2, y2).is_mine() && s.tile_at(x2, y2).count() == 0
    &&& forall|x: int, y: int, nx: int, ny: int|
        w0.spec_valid(x, y) && #[trigger] MSGame::newly_opened(w0, s, x, y) && !s.tile_at(
            x,
            y,
        ).is_mine() && s.tile_at(x, y).count() == 0 && w0.spec_valid(nx, ny) && #[trigger] adj(
            nx,
            ny,
            x,
            y,
        ) ==> !s.tile_at(nx, ny).is_hidden() || in_pending(q, i, nx, ny)
}

/// One skipped worklist entry: the tile there is no longer Hidden, so
/// nothing changes but the processed bound.
pub proof fn lemma_flood_skip(w0: MSGame, s: MSGame, q: Seq<(usize, usize)>, i: int)
    requires
        flood_inv(w0, s, q, i),
        i < q.len(),
        !s.tile_at(q[i].0 as int, q[i].1 as int).is_hidden(),
    ensures
        flood_inv(w0, s, q, i + 1),
{
    lemma_index_bound(
        w0.width as int,
        w0.height as int,
        w0.cursor_x as int,
        w0.cursor_y as int,
    );
    lemma_index_bound(w0.width as int, w0.height as int, q[i].0 as int, q[i].1 as int);
    assert forall|x: int, y: int, nx: int, ny: int|
        w0.spec_valid(x, y) && #[trigger] MSGame::newly_opened(w0, s, x, y) && !s.tile_at(
            x,
            y,
        ).is_mine() && s.tile_at(x, y).count() == 0 && w0.spec_valid(nx, ny) && #[trigger] adj(
            nx,
            ny,
            x,
            y,
        ) implies !s.tile_at(nx, ny).is_hidden() || in_pending(q, i + 1, nx, ny) by {
        if s.tile_at(nx, ny).is_hidden() && in_pending(q, i, nx, ny) {
            let j = choose|j: int|
                i <= j < q.len() && #[trigger] q[j] == ((nx as usize, ny as usize));
            if j == i {
                assert(q[i].0 as int == nx && q[i].1 as int == ny);
                assert(false);
            } else {
                assert(in_pending(q, i + 1, nx, ny));
            }
        }
    };
}

/// One opened worklist entry. The tile at q[i] was Hidden and is now
/// Open; if it was a zero, its not-yet-open neighbors were enqueued
/// (`covered`), and the worklist grew only by valid neighbors of it.
pub proof fn lemma_flood_open(
    w0: MSGame,
    prev: MSGame,
    post: MSGame,
    q: Seq<(usize, usize)>,
    qpost: Seq<(usize, usize)>,
    i: int,
)
    requires
        flood_inv(w0, prev, q, i),
        i < q.len(),
        post.wf(),
        MSGame::same_frame(prev, post),
        ({
            let x = q[i].0 as int;
            let y = q[i].1 as int;
            let t = prev.tile_at(x, y);
            &&& t.is_hidden()
            &&& post.board@ == prev.board@.update(
                prev.spec_index_of(x, y),
                (Tile { contents: t.contents, visibility: TileVis::Open }),
            )
        }),
        q.len() <= qpost.len(),
        forall|j: int| 0 <= j < q.len() ==> qpost[j] == q[j],
        forall|j: int|
            q.len() <= j < qpost.len() ==> w0.spec_valid(
                (#[trigger] qpost[j]).0 as int,
                qpost[j].1 as int,
            ) && adj(qpost[j].0 as int, qpost[j].1 as int, q[i].0 as int, q[i].1 as int),
        ({
            let x = q[i].0 as int;
            let y = q[i].1 as int;
            let t = prev.tile_at(x, y);
            (!t.is_mine() && t.count() == 0) ==> forall|nx: int, ny: int|
                w0.spec_valid(nx, ny) && #[trigger] adj(nx, ny, x, y) && !post.tile_at(
                    nx,
                    ny,
                ).is_open() ==> in_pending(qpost, q.len() as int, nx, ny)
        }),
        ({
            let t = prev.tile_at(q[i].0 as int, q[i].1 as int);
            !(!t.is_mine() && t.count() == 0) ==> qpost == q
        }),
    ensures
        flood_inv(w0, post, qpost, i + 1),
{
    let cx = w0.cursor_x as int;
    let cy = w0.cursor_y as int;
    let wi = w0.width as int;
    let hi = w0.height as int;
    let xi = q[i].0 as int;
    let yi = q[i].1 as int;
    let ti = prev.spec_index_of(xi, yi);
    let t = prev.tile_at(xi, yi);
    lemma_index_bound(wi, hi, xi, yi);
    lemma_index_bound(wi, hi, cx, cy);
    // Positions other than (x, y) kept their tile.
    assert forall|px: int, py: int|
        w0.spec_valid(px, py) && !(px == xi && py == yi) implies post.tile_at(px, py)
        == prev.tile_at(px, py) by {
        lemma_index_bound(wi, hi, px, py);
        if px + py * wi == ti {
            lemma_index_inj(wi, px, py, xi, yi);
        }
    };
    assert(post.tile_at(xi, yi).is_open());
    assert(MSGame::opens_monotone(w0, post));
    // The no-op clause: a non-hidden start tile contradicts opening one.
    if !w0.tile_at(cx, cy).is_hidden() {
        assert(q.len() == 1 && i == 0);
        assert(prev.tile_at(cx, cy) == w0.tile_at(cx, cy));
        assert(false);
    }
    // The cursor clause.
    if i == 0 {
        assert(xi == cx && yi == cy);
    } else {
        assert(prev.tile_at(cx, cy).is_open());
        if cx == xi && cy == yi {
            assert(false);
        }
    }
    assert(post.tile_at(cx, cy).is_open());
    // Provenance of the pending entries.
    assert forall|j: int| 1 <= j < qpost.len() implies exists|x2: int, y2: int|
        w0.spec_valid(x2, y2) && adj(x2, y2, (#[trigger] qpost[j]).0 as int, qpost[j].1 as int)
            && MSGame::newly_opened(w0, post, x2, y2) && !post.tile_at(x2, y2).is_mine()
            && post.tile_at(x2, y2).count() == 0 by {
        if j < q.len() {
            let (x2, y2) = choose|x2: int, y2: int|
                w0.spec_valid(x2, y2) && adj(x2, y2, q[j].0 as int, q[j].1 as int)
                    && MSGame::newly_opened(w0, prev, x2, y2) && !prev.tile_at(x2, y2).is_mine()
                    && prev.tile_at(x2, y2).count() == 0;
            assert(post.tile_at(x2, y2) == prev.tile_at(x2, y2) || (x2 == xi && y2 == yi));
            assert(w0.spec_valid(x2, y2) && adj(x2, y2, qpost[j].0 as int, qpost[j].1 as int)
                && MSGame::newly_opened(w0, post, x2, y2) && !post.tile_at(x2, y2).is_mine()
                && post.tile_at(x2, y2).count() == 0);
        } else {
            // a fresh entry: enqueued because (x, y) was a zero —
            // otherwise nothing was enqueued and qpost == q
            assert(adj(xi, yi, qpost[j].0 as int, qpost[j].1 as int));
            assert(MSGame::newly_opened(w0, post, xi, yi));
            if !(!t.is_mine() && t.count() == 0) {
                assert(qpost == q);
                assert(false);
            }
            assert(!post.tile_at(xi, yi).is_mine() && post.tile_at(xi, yi).count() == 0);
        }
    };
    // Provenance of every opened cell.
    assert forall|px: int, py: int|
        w0.spec_valid(px, py) && #[trigger] MSGame::newly_opened(w0, post, px, py) && !(px == cx
            && py == cy) implies exists|x2: int, y2: int|
        w0.spec_valid(x2, y2) && adj(x2, y2, px, py) && #[trigger] MSGame::newly_opened(
            w0,
            post,
            x2,
            y2,
        ) && !post.tile_at(x2, y2).is_mine() && post.tile_at(x2, y2).count() == 0 by {
        if px == xi && py == yi {
            // opened at this step; i >= 1 since q[0] is the cursor
            assert(i >= 1);
            let (x2, y2) = choose|x2: int, y2: int|
                w0.spec_valid(x2, y2) && adj(x2, y2, q[i].0 as int, q[i].1 as int)
                    && MSGame::newly_opened(w0, prev, x2, y2) && !prev.tile_at(x2, y2).is_mine()
                    && prev.tile_at(x2, y2).count() == 0;
            assert(post.tile_at(x2, y2) == prev.tile_at(x2, y2) || (x2 == xi && y2 == yi));
            assert(adj(x2, y2, px, py) && MSGame::newly_opened(w0, post, x2, y2)
                && !post.tile_at(x2, y2).is_mine() && post.tile_at(x2, y2).count() == 0);
        } else {
            assert(post.tile_at(px, py) == prev.tile_at(px, py));
            assert(MSGame::newly_opened(w0, prev, px, py));
            let (x2, y2) = choose|x2: int, y2: int|
                w0.spec_valid(x2, y2) && adj(x2, y2, px, py) && MSGame::newly_opened(
                    w0,
                    prev,
                    x2,
                    y2,
                ) && !prev.tile_at(x2, y2).is_mine() && prev.tile_at(x2, y2).count() == 0;
            assert(post.tile_at(x2, y2) == prev.tile_at(x2, y2) || (x2 == xi && y2 == yi));
            assert(adj(x2, y2, px, py) && MSGame::newly_opened(w0, post, x2, y2)
                && !post.tile_at(x2, y2).is_mine() && post.tile_at(x2, y2).count() == 0);
        }
    };
    // Completeness.
    assert forall|px: int, py: int, nx: int, ny: int|
        w0.spec_valid(px, py) && #[trigger] MSGame::newly_opened(w0, post, px, py)
            && !post.tile_at(px, py).is_mine() && post.tile_at(px, py).count() == 0
            && w0.spec_valid(nx, ny) && #[trigger] adj(nx, ny, px, py) implies !post.tile_at(
        nx,
        ny,
    ).is_hidden() || in_pending(qpost, i + 1, nx, ny) by {
        if post.tile_at(nx, ny).is_hidden() {
            assert(post.tile_at(nx, ny) == prev.tile_at(nx, ny) || (nx == xi && ny == yi));
            assert(!(nx == xi && ny == yi));
            if px == xi && py == yi {
                // the fresh zero: its closed neighbors were enqueued
                assert(!t.is_mine() && t.count() == 0);
                assert(!post.tile_at(nx, ny).is_open());
                assert(in_pending(qpost, q.len() as int, nx, ny));
                lemma_in_pending_weaken(qpost, q.len() as int, i + 1, nx, ny);
            } else {
                assert(post.tile_at(px, py) == prev.tile_at(px, py));
                assert(MSGame::newly_opened(w0, prev, px, py) && !prev.tile_at(px, py).is_mine()
                    && prev.tile_at(px, py).count() == 0);
                assert(!prev.tile_at(nx, ny).is_hidden() || in_pending(q, i, nx, ny));
                assert(prev.tile_at(nx, ny).is_hidden());
                let j = choose|j: int|
                    i <= j < q.len() && #[trigger] q[j] == ((nx as usize, ny as usize));
                if j == i {
                    assert(nx == xi && ny == yi);
                    assert(false);
                } else {
                    assert(qpost[j] == ((nx as usize, ny as usize)));
                    assert(in_pending(qpost, i + 1, nx, ny));
                }
            }
        }
    };
}

impl MSGame {
    /// The flood-fill reveal at the cursor. A worklist starts with the
    /// cursor cell; each dequeued position still Hidden is opened, and
    /// when it is safe with count zero every not-yet-open neighbor is
    /// enqueued. Duplicates are harmless: a position that is no longer
    /// Hidden is skipped, so every tile opens at most once and the
    /// worklist stays bounded. See `open_post` for what this leaves
    /// behind.
    #[verifier::loop_isolation(false)]
    pub fn open(&mut self)
        requires
            old(self).wf(),
        ensures
            final(self).wf(),
            MSGame::open_post(*old(self), *final(self)),
    {
        let ghost w0 = *old(self);
        let cx = self.cursor_x;
        let cy = self.cursor_y;
        let mut queue: Vec<(usize, usize)> = Vec::new();
        queue.push((cx, cy));
        let mut i: usize = 0;
        while i < queue.len()
            invariant
                flood_inv(w0, *self, queue@, i as int),
            decreases 8 * count_hidden(self.board@) + queue@.len() - i,
        {
            let pr = queue[i];
            let x = pr.0;
            let y = pr.1;
            let ghost prev = *self;
            let ghost qprev = queue@;
            proof {
                lemma_count_if_bounds(self.board@, hidden_pred());
                lemma_index_bound(self.width as int, self.height as int, x as int, y as int);
            }
            let t = self.get(x, y);
            if let TileVis::Hidden = t.visibility {
                self.open_single(x, y);
                proof {
                    lemma_count_if_present(
                        prev.board@,
                        hidden_pred(),
                        prev.spec_index_of(x as int, y as int),
                    );
                    lemma_count_if_update(
                        prev.board@,
                        hidden_pred(),
                        prev.spec_index_of(x as int, y as int),
                        (Tile { contents: t.contents, visibility: TileVis::Open }),
                    );
                    assert(count_hidden(self.board@) == count_hidden(prev.board@) - 1);
                }
                if t.is_zero() {
                    self.enqueue_neighbors(&mut queue, x, y);
                }
                proof {
                    lemma_flood_open(w0, prev, *self, qprev, queue@, i as int);
                }
            } else {
                proof {
                    lemma_flood_skip(w0, *self, queue@, i as int);
                }
            }
            i = i + 1;
        }
    }
}

} // verus!
