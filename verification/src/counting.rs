//! Counting tiles of a sequence that satisfy a predicate, with the
//! lemmas the board invariants need: how a count changes under an
//! update or a push, its bounds, and its agreement with multiset
//! counts (used to carry the mine count across the random shuffle).

use vstd::prelude::*;
use vstd::multiset::Multiset;
use crate::tile::Tile;

verus! {

/// How many tiles of `s` satisfy `f`.
pub open spec fn count_if(s: Seq<Tile>, f: spec_fn(Tile) -> bool) -> int
    decreases s.len(),
{
    if s.len() == 0 {
        0
    } else {
        count_if(s.drop_last(), f) + if f(s.last()) {
            1int
        } else {
            0int
        }
    }
}

/// The predicate of a mine tile, fixed once so that every mention of
/// `count_mines` speaks of the same function value.
pub open spec fn mine_pred() -> spec_fn(Tile) -> bool {
    |t: Tile| t.is_mine()
}

pub open spec fn flag_pred() -> spec_fn(Tile) -> bool {
    |t: Tile| t.is_flagged()
}

pub open spec fn hidden_pred() -> spec_fn(Tile) -> bool {
    |t: Tile| t.is_hidden()
}

/// The number of mine tiles of `s`.
pub open spec fn count_mines(s: Seq<Tile>) -> int {
    count_if(s, mine_pred())
}

/// The number of flagged tiles of `s`.
pub open spec fn count_flagged(s: Seq<Tile>) -> int {
    count_if(s, flag_pred())
}

/// The number of hidden tiles of `s`.
pub open spec fn count_hidden(s: Seq<Tile>) -> int {
    count_if(s, hidden_pred())
}

/// A count lies between 0 and the length of the sequence.
pub proof fn lemma_count_if_bounds(s: Seq<Tile>, f: spec_fn(Tile) -> bool)
    ensures
        0 <= count_if(s, f) <= s.len(),
    decreases s.len(),
{
    if s.len() > 0 {
        lemma_count_if_bounds(s.drop_last(), f);
    }
}

/// Pushing one tile raises the count by one exactly when the tile
/// satisfies the predicate.
pub proof fn lemma_count_if_push(s: Seq<Tile>, f: spec_fn(Tile) -> bool, t: Tile)
    ensures
        count_if(s.push(t), f) == count_if(s, f) + if f(t) {
            1int
        } else {
            0int
        },
{
    assert(s.push(t).drop_last() =~= s);
}

/// Updating one tile moves the count by the difference between the new
/// and the old tile's membership.
pub proof fn lemma_count_if_update(s: Seq<Tile>, f: spec_fn(Tile) -> bool, i: int, t: Tile)
    requires
        0 <= i < s.len(),
    ensures
        count_if(s.update(i, t), f) == count_if(s, f) - (if f(s[i]) {
            1int
        } else {
            0int
        }) + (if f(t) {
            1int
        } else {
            0int
        }),
    decreases s.len(),
{
    if i == s.len() - 1 {
        assert(s.update(i, t).drop_last() =~= s.drop_last());
        assert(s.update(i, t).last() == t);
    } else {
        assert(s.update(i, t).drop_last() =~= s.drop_last().update(i, t));
        assert(s.update(i, t).last() == s.last());
        lemma_count_if_update(s.drop_last(), f, i, t);
    }
}

/// A predicate that no tile satisfies counts to zero.
pub proof fn lemma_count_if_none(s: Seq<Tile>, f: spec_fn(Tile) -> bool)
    requires
        forall|i: int| 0 <= i < s.len() ==> !f(s[i]),
    ensures
        count_if(s, f) == 0,
    decreases s.len(),
{
    if s.len() > 0 {
        lemma_count_if_none(s.drop_last(), f);
    }
}

/// A tile that fails the predicate keeps the count strictly below the
/// length.
pub proof fn lemma_count_if_missing(s: Seq<Tile>, f: spec_fn(Tile) -> bool, i: int)
    requires
        0 <= i < s.len(),
        !f(s[i]),
    ensures
        count_if(s, f) < s.len(),
    decreases s.len(),
{
    lemma_count_if_bounds(s.drop_last(), f);
    if i < s.len() - 1 {
        lemma_count_if_missing(s.drop_last(), f, i);
    }
}

/// A tile that satisfies the predicate keeps the count at one or more.
pub proof fn lemma_count_if_present(s: Seq<Tile>, f: spec_fn(Tile) -> bool, i: int)
    requires
        0 <= i < s.len(),
        f(s[i]),
    ensures
        count_if(s, f) >= 1,
    decreases s.len(),
{
    lemma_count_if_bounds(s.drop_last(), f);
    if i < s.len() - 1 {
        lemma_count_if_present(s.drop_last(), f, i);
    }
}

/// When every tile of `s` is either `a` or `b`, with `f` holding of `a`
/// alone, the count of `f` is the multiset count of `a`. This connects
/// the board's mine count to what survives a permutation.
pub proof fn lemma_count_if_two_valued(s: Seq<Tile>, f: spec_fn(Tile) -> bool, a: Tile, b: Tile)
    requires
        a != b,
        f(a),
        !f(b),
        forall|i: int| 0 <= i < s.len() ==> s[i] == a || s[i] == b,
    ensures
        count_if(s, f) == s.to_multiset().count(a),
    decreases s.len(),
{
    broadcast use vstd::seq_lib::group_to_multiset_ensures;

    if s.len() == 0 {
        assert(s.to_multiset() =~= Multiset::<Tile>::empty());
    } else {
        let d = s.drop_last();
        assert(forall|i: int| 0 <= i < d.len() ==> d[i] == a || d[i] == b);
        lemma_count_if_two_valued(d, f, a, b);
        assert(d.push(s.last()) =~= s);
        assert(s.to_multiset() =~= d.to_multiset().insert(s.last()));
    }
}

/// Every element of a sequence occurs in its multiset.
pub proof fn lemma_multiset_membership(s: Seq<Tile>, i: int)
    requires
        0 <= i < s.len(),
    ensures
        s.to_multiset().count(s[i]) > 0,
{
    broadcast use vstd::seq_lib::group_to_multiset_ensures;

    assert(s.contains(s[i]));
}

} // verus!
