//! The minimax search engine: exhaustive recursive evaluation of every
//! continuation, with a memoization table keyed by board snapshots.
//!
//! Both the memoized and the unmemoized search are proved to return exactly
//! the minimax value `svalue` of their input, so enabling the table can never
//! change the value of the move selected.  `compute_best_move` returns an
//! optimal move and breaks ties among equally valuable moves deterministically
//! by the lowest cell index.

use std::collections::HashMap;

use vstd::prelude::*;

use crate::board::{
    Board,
    Mark,
    State,
    wf_board,
    num_empty,
    place_result,
    state_after,
    turn_mark,
    lemma_place_wf,
    lemma_empties_bounds,
    lemma_nonfull_has_empty,
};
use crate::key::{board_key, key_of, lemma_key_injective, lemma_key_range};
use crate::value::{
    svalue,
    best_from,
    best_fold,
    better,
    worst_for,
    child_value,
    lemma_svalue_bounds,
    lemma_best_bounds,
};

verus! {

broadcast use vstd::std_specs::hash::group_hash_axioms;

/// The memoization table invariant: every stored result is the minimax value
/// of the well-formed snapshot its key encodes.  Keys are injective on
/// well-formed snapshots, so a hit can be reused soundly however the
/// position was reached.
pub open spec fn memo_inv(t: Map<u64, i8>) -> bool {
    forall|s: Seq<Option<Mark>>, st: State|
        wf_board(s, st) && #[trigger] t.contains_key(key_of(s, st)) ==> t[key_of(s, st)] as int
            == svalue(s, st)
}

/// Evaluates a board to its exact minimax value, reusing and extending the
/// memoization table.  The table stays consistent, so one table may serve a
/// whole top-level search.
pub fn minimax(board: &Board, memory: &mut HashMap<u64, i8>) -> (v: i8)
    requires
        board.wf(),
        memo_inv(old(memory)@),
    ensures
        memo_inv(final(memory)@),
        v as int == svalue(board.cells(), board.phase()),
    decreases num_empty(board.cells()),
{
    let ghost s = board.cells();
    let ghost st = board.phase();
    match board.state() {
        State::Won(m) => m.to_value(),
        State::Tie => 0,
        State::Turn(m) => {
            let k = board_key(board);
            proof {
                lemma_key_range(s, st);
            }
            match memory.get(&k) {
                Some(v0) => {
                    let v = *v0;
                    proof {
                        assert(memory@.contains_key(key_of(s, st)));
                    }
                    return v;
                },
                None => {},
            }
            let mut best: i8 = match m {
                Mark::X => -2,
                Mark::O => 2,
            };
            let mut i: usize = 0;
            proof {
                lemma_nonfull_has_empty(s);
                lemma_best_bounds(s, m, 0);
            }
            while i < 9
                invariant
                    board.wf(),
                    board.cells() == s,
                    board.phase() == st,
                    st == State::Turn(m),
                    memo_inv(memory@),
                    i <= 9,
                    best as int == worst_for(m) || -1 <= best as int <= 1,
                    best_fold(m, best as int, best_from(s, m, i as int)) == best_from(s, m, 0),
                decreases 9 - i,
            {
                if board.get(i).is_none() {
                    let mut child = board.clone();
                    proof {
                        lemma_place_wf(s, st, i as int, m);
                    }
                    let _placed = child.place(i);
                    proof {
                        lemma_empties_bounds(child.cells(), 9);
                        lemma_svalue_bounds(child.cells(), child.phase());
                    }
                    let v = minimax(&child, memory);
                    let take = match m {
                        Mark::X => v > best,
                        Mark::O => v < best,
                    };
                    proof {
                        assert(child.cells() == place_result(s, i as int, m));
                        assert(v as int == child_value(s, m, i as int));
                        assert(best_from(s, m, i as int) == best_fold(
                            m,
                            child_value(s, m, i as int),
                            best_from(s, m, i as int + 1),
                        ));
                    }
                    if take {
                        best = v;
                    }
                } else {
                    proof {
                        assert(best_from(s, m, i as int) == best_from(s, m, i as int + 1));
                    }
                }
                i = i + 1;
            }
            proof {
                lemma_nonfull_has_empty(s);
                lemma_best_bounds(s, m, 0);
                assert(best_from(s, m, 9) == worst_for(m));
                assert(best as int == best_from(s, m, 0));
            }
            memory.insert(k, best);
            proof {
                assert forall|s2: Seq<Option<Mark>>, st2: State|
                    wf_board(s2, st2) && #[trigger] memory@.contains_key(
                        key_of(s2, st2),
                    ) implies memory@[key_of(s2, st2)] as int == svalue(s2, st2) by {
                    lemma_key_range(s2, st2);
                    if key_of(s2, st2) == k {
                        lemma_key_injective(s2, st2, s, st);
                    }
                }
            }
            best
        },
    }
}

/// The same exhaustive search with the memoization table disabled.  It
/// returns the same minimax value as `minimax` on every board, so the table
/// is a pure optimization: it can never change the value of the selected
/// move.
pub fn minimax_plain(board: &Board) -> (v: i8)
    requires
        board.wf(),
    ensures
        v as int == svalue(board.cells(), board.phase()),
    decreases num_empty(board.cells()),
{
    let ghost s = board.cells();
    let ghost st = board.phase();
    match board.state() {
        State::Won(m) => m.to_value(),
        State::Tie => 0,
        State::Turn(m) => {
            let mut best: i8 = match m {
                Mark::X => -2,
                Mark::O => 2,
            };
            let mut i: usize = 0;
            proof {
                lemma_nonfull_has_empty(s);
                lemma_best_bounds(s, m, 0);
            }
            while i < 9
                invariant
                    board.wf(),
                    board.cells() == s,
                    board.phase() == st,
                    st == State::Turn(m),
                    i <= 9,
                    best as int == worst_for(m) || -1 <= best as int <= 1,
                    best_fold(m, best as int, best_from(s, m, i as int)) == best_from(s, m, 0),
                decreases 9 - i,
            {
                if board.get(i).is_none() {
                    let mut child = board.clone();
                    proof {
                        lemma_place_wf(s, st, i as int, m);
                    }
                    let _placed = child.place(i);
                    proof {
                        lemma_empties_bounds(child.cells(), 9);
                        lemma_svalue_bounds(child.cells(), child.phase());
                    }
                    let v = minimax_plain(&child);
                    let take = match m {
                        Mark::X => v > best,
                        Mark::O => v < best,
                    };
                    proof {
                        assert(child.cells() == place_result(s, i as int, m));
                        assert(v as int == child_value(s, m, i as int));
                        assert(best_from(s, m, i as int) == best_fold(
                            m,
                            child_value(s, m, i as int),
                            best_from(s, m, i as int + 1),
                        ));
                    }
                    if take {
                        best = v;
                    }
                } else {
                    proof {
                        assert(best_from(s, m, i as int) == best_from(s, m, i as int + 1));
                    }
                }
                i = i + 1;
            }
            proof {
                lemma_nonfull_has_empty(s);
                lemma_best_bounds(s, m, 0);
                assert(best_from(s, m, 9) == worst_for(m));
                assert(best as int == best_from(s, m, 0));
            }
            best
        },
    }
}

/// Computes an optimal move for the mark to move on a non-terminal board:
/// the returned index is an empty cell, the position it leads to has the
/// full board's minimax value (a winning move when a win can be forced, a
/// tying move when at best a tie can, and a legal move regardless), and
/// every empty cell below the returned index leads to a strictly worse
/// position -- ties among equally valuable moves go to the lowest index.
pub fn compute_best_move(board: &Board) -> (ret: u8)
    requires
        board.wf(),
        board.phase() is Turn,
    ensures
        ret < 9,
        board.cells()[ret as int] is None,
        child_value(board.cells(), turn_mark(board.phase()), ret as int) == svalue(
            board.cells(),
            board.phase(),
        ),
        forall|j: int|
            0 <= j < ret && board.cells()[j] is None ==> better(
                turn_mark(board.phase()),
                svalue(board.cells(), board.phase()),
                child_value(board.cells(), turn_mark(board.phase()), j),
            ),
{
    let ghost s = board.cells();
    let ghost st = board.phase();
    let m = match board.state() {
        State::Turn(mm) => mm,
        _ => Mark::X,
    };
    let mut memory: HashMap<u64, i8> = HashMap::new();
    let mut best: i8 = match m {
        Mark::X => -2,
        Mark::O => 2,
    };
    let mut chosen: usize = 9;
    let mut i: usize = 0;
    proof {
        lemma_nonfull_has_empty(s);
        lemma_best_bounds(s, m, 0);
    }
    while i < 9
        invariant
            board.wf(),
            board.cells() == s,
            board.phase() == st,
            st == State::Turn(m),
            memo_inv(memory@),
            i <= 9,
            chosen <= 9,
            chosen == 9 ==> best as int == worst_for(m),
            forall|j: int| chosen == 9 && 0 <= j < i ==> (#[trigger] s[j]) is Some,
            chosen < 9 ==> chosen < i && s[chosen as int] is None && best as int == child_value(
                s,
                m,
                chosen as int,
            ) && -1 <= best as int <= 1,
            forall|j: int|
                chosen < 9 && 0 <= j < chosen && s[j] is None ==> better(
                    m,
                    best as int,
                    #[trigger] child_value(s, m, j),
                ),
            forall|j: int|
                chosen < 9 && 0 <= j < i && s[j] is None ==> !better(
                    m,
                    #[trigger] child_value(s, m, j),
                    best as int,
                ),
            best_fold(m, best as int, best_from(s, m, i as int)) == best_from(s, m, 0),
        decreases 9 - i,
    {
        if board.get(i).is_none() {
            let mut child = board.clone();
            proof {
                lemma_place_wf(s, st, i as int, m);
            }
            let _placed = child.place(i);
            proof {
                lemma_empties_bounds(child.cells(), 9);
                lemma_svalue_bounds(child.cells(), child.phase());
            }
            let v = minimax(&child, &mut memory);
            let take = match m {
                Mark::X => v > best,
                Mark::O => v < best,
            };
            proof {
                assert(child.cells() == place_result(s, i as int, m));
                assert(v as int == child_value(s, m, i as int));
                assert(best_from(s, m, i as int) == best_fold(
                    m,
                    child_value(s, m, i as int),
                    best_from(s, m, i as int + 1),
                ));
            }
            if take {
                proof {
                    assert forall|j: int| 0 <= j < i && s[j] is None implies better(
                        m,
                        v as int,
                        #[trigger] child_value(s, m, j),
                    ) by {
                        if chosen == 9 {
                            assert(s[j] is Some);
                        } else {
                            assert(!better(m, child_value(s, m, j), best as int));
                        }
                    }
                }
                best = v;
                chosen = i;
            }
            proof {
                assert forall|j: int| 0 <= j < i + 1 && s[j] is None implies !better(
                    m,
                    #[trigger] child_value(s, m, j),
                    best as int,
                ) by {
                    if j < i {
                        if chosen == 9 {
                            assert(s[j] is Some);
                        }
                    } else {
                        assert(j == i);
                        assert(child_value(s, m, j) == v as int);
                    }
                }
            }
        } else {
            proof {
                assert(best_from(s, m, i as int) == best_from(s, m, i as int + 1));
            }
        }
        i = i + 1;
    }
    proof {
        lemma_nonfull_has_empty(s);
        lemma_best_bounds(s, m, 0);
        assert(best_from(s, m, 9) == worst_for(m));
        assert(chosen < 9);
        assert(best as int == best_from(s, m, 0));
    }
    chosen as u8
}

/// A search node: the snapshot of the board under evaluation.  The search
/// explores hypothetical futures on clones, never on the caller's board.
pub struct MiniMaxNode {
    pub board: Board,
}

impl MiniMaxNode {
    /// Snapshots a board for evaluation.
    pub fn new(board: &Board) -> (n: Self)
        ensures
            n.board.cells() == board.cells(),
            n.board.phase() == board.phase(),
    {
        MiniMaxNode { board: board.clone() }
    }

    /// Computes the optimal move for the snapshot; see `compute_best_move`.
    pub fn calculate(self) -> (ret: u8)
        requires
            self.board.wf(),
            self.board.phase() is Turn,
        ensures
            ret < 9,
            self.board.cells()[ret as int] is None,
            child_value(self.board.cells(), turn_mark(self.board.phase()), ret as int) == svalue(
                self.board.cells(),
                self.board.phase(),
            ),
            forall|j: int|
                0 <= j < ret && self.board.cells()[j] is None ==> better(
                    turn_mark(self.board.phase()),
                    svalue(self.board.cells(), self.board.phase()),
                    child_value(self.board.cells(), turn_mark(self.board.phase()), j),
                ),
    {
        compute_best_move(&self.board)
    }
}

/// A board already won by `O` has value `-1`; hence a position whose value
/// is not negative is never a win for `O`.
pub proof fn lemma_nonneg_value_excludes_second_win(s: Seq<Option<Mark>>, st: State)
    requires
        wf_board(s, st),
        svalue(s, st) >= 0,
    ensures
        st != State::Won(Mark::O),
{
}

/// Optimal play never loses the game value: playing any move whose resulting
/// position keeps the full minimax value -- such as the move
/// `compute_best_move` returns -- leads to a well-formed position of the same
/// value.  In particular, starting from a position whose value is not
/// negative (a tie or better for `X`), a game in which every move preserves
/// the value can never reach a phase `Won(O)`: the second mover never beats
/// optimal play.
pub proof fn lemma_value_preserving_move_no_second_win(s: Seq<Option<Mark>>, st: State, i: int)
    requires
        wf_board(s, st),
        st is Turn,
        0 <= i < 9,
        s[i] is None,
        child_value(s, turn_mark(st), i) == svalue(s, st),
        svalue(s, st) >= 0,
    ensures
        wf_board(place_result(s, i, turn_mark(st)), state_after(s, i, turn_mark(st))),
        svalue(place_result(s, i, turn_mark(st)), state_after(s, i, turn_mark(st))) == svalue(
            s,
            st,
        ),
        state_after(s, i, turn_mark(st)) != State::Won(Mark::O),
{
    let m = turn_mark(st);
    lemma_place_wf(s, st, i, m);
    lemma_nonneg_value_excludes_second_win(place_result(s, i, m), state_after(s, i, m));
}

} // verus!
