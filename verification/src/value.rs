//! The game-theoretic value of a board under optimal play by both sides.
//!
//! `svalue` is the minimax value: `+1` when `X` has won or can force a win,
//! `-1` when `O` has, and `0` for a tie or a position where neither side can
//! force more.  It is the mathematical reference against which the search
//! engine is verified.

use vstd::prelude::*;

use crate::board::{
    Mark,
    State,
    wf_board,
    num_empty,
    place_result,
    state_after,
    mark_val,
    turn_mark,
    lemma_place_wf,
    lemma_empties_bounds,
    lemma_empties_update,
    lemma_nonfull_has_empty,
};

verus! {

/// `a` is strictly preferable to `b` for the mark `m` to move: `X` maximizes
/// the value, `O` minimizes it.
pub open spec fn better(m: Mark, a: int, b: int) -> bool {
    match m {
        Mark::X => a > b,
        Mark::O => a < b,
    }
}

/// The preferable of the two values for `m`; on a tie, the first.
pub open spec fn best_fold(m: Mark, a: int, b: int) -> int {
    if better(m, a, b) {
        a
    } else {
        b
    }
}

/// A sentinel strictly worse for `m` than every real game value, used as the
/// base of the fold over candidate moves.
pub open spec fn worst_for(m: Mark) -> int {
    -2 * mark_val(m)
}

/// The value of the position reached by `m` playing the empty cell `i`;
/// `0` when `i` is not a playable cell of `s`.
pub open spec fn child_value(s: Seq<Option<Mark>>, m: Mark, i: int) -> int
    decreases num_empty(s), 0int,
    via child_value_decreases
{
    if 0 <= i < 9 && s.len() == 9 && s[i] is None {
        svalue(place_result(s, i, m), state_after(s, i, m))
    } else {
        0
    }
}

/// The minimax value of the position with cells `s` and phase `st`: the value
/// of the winning mark on a won board, `0` on a tie, and for an ongoing board
/// the value the mark to move can force.
pub open spec fn svalue(s: Seq<Option<Mark>>, st: State) -> int
    decreases num_empty(s), 10int,
    via svalue_decreases
{
    match st {
        State::Won(m) => mark_val(m),
        State::Tie => 0,
        State::Turn(m) => best_from(s, m, 0),
    }
}

/// The best value `m` can force among the moves on cells `i..9`, folded with
/// `best_fold`; `worst_for(m)` when no such move exists.
pub open spec fn best_from(s: Seq<Option<Mark>>, m: Mark, i: int) -> int
    decreases num_empty(s), 9 - i,
    via best_from_decreases
{
    if i < 0 || i >= 9 || s.len() != 9 {
        worst_for(m)
    } else if s[i] is None {
        best_fold(m, child_value(s, m, i), best_from(s, m, i + 1))
    } else {
        best_from(s, m, i + 1)
    }
}

#[via_fn]
proof fn svalue_decreases(s: Seq<Option<Mark>>, st: State) {
    lemma_empties_bounds(s, 9);
}

#[via_fn]
proof fn child_value_decreases(s: Seq<Option<Mark>>, m: Mark, i: int) {
    lemma_empties_bounds(s, 9);
    if 0 <= i < 9 && s.len() == 9 && s[i] is None {
        lemma_empties_update(s, i, Some(m), 9);
        lemma_empties_bounds(place_result(s, i, m), 9);
    }
}

#[via_fn]
proof fn best_from_decreases(s: Seq<Option<Mark>>, m: Mark, i: int) {
    lemma_empties_bounds(s, 9);
    if 0 <= i < 9 && s.len() == 9 && s[i] is None {
        lemma_empties_update(s, i, Some(m), 9);
        lemma_empties_bounds(place_result(s, i, m), 9);
    }
}

/// The minimax value of a well-formed board is one of `-1`, `0`, `+1`.
pub proof fn lemma_svalue_bounds(s: Seq<Option<Mark>>, st: State)
    requires
        wf_board(s, st),
    ensures
        -1 <= svalue(s, st) <= 1,
    decreases num_empty(s), 10int,
{
    if st is Turn {
        let m = turn_mark(st);
        lemma_best_bounds(s, m, 0);
        lemma_nonfull_has_empty(s);
    }
}

/// Bounds for the fold over the moves on cells `i..9`: a real game value if
/// some move exists there, the sentinel otherwise.
pub proof fn lemma_best_bounds(s: Seq<Option<Mark>>, m: Mark, i: int)
    requires
        wf_board(s, State::Turn(m)),
        0 <= i <= 9,
    ensures
        (exists|j: int| i <= j < 9 && s[j] is None) ==> -1 <= best_from(s, m, i) <= 1,
        (forall|j: int| i <= j < 9 ==> s[j] is Some) ==> best_from(s, m, i) == worst_for(m),
    decreases num_empty(s), 9 - i,
{
    if i < 9 {
        lemma_best_bounds(s, m, i + 1);
        if s[i] is None {
            lemma_place_wf(s, State::Turn(m), i, m);
            lemma_empties_bounds(place_result(s, i, m), 9);
            lemma_svalue_bounds(place_result(s, i, m), state_after(s, i, m));
            assert(best_from(s, m, i) == best_fold(m, child_value(s, m, i), best_from(s, m, i + 1)));
            assert(-1 <= child_value(s, m, i) <= 1);
            if exists|j: int| i + 1 <= j < 9 && s[j] is None {
                assert(-1 <= best_from(s, m, i + 1) <= 1);
                assert(-1 <= best_from(s, m, i) <= 1);
            } else {
                assert(forall|j: int| i + 1 <= j < 9 ==> s[j] is Some);
                assert(best_from(s, m, i + 1) == worst_for(m));
                assert(better(m, child_value(s, m, i), worst_for(m)));
                assert(-1 <= best_from(s, m, i) <= 1);
            }
        } else {
            assert forall|j: int| i <= j < 9 && s[j] is None implies i + 1 <= j < 9
                && s[j] is None by {}
        }
    }
}

} // verus!
