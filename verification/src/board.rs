//! The board state machine: marks, phases, win/tie detection, and `place`.

use vstd::prelude::*;

verus! {

/// One of the two players' symbols.  `X` moves first and scores `+1`;
/// `O` scores `-1`.
#[derive(Copy, Clone, PartialEq, Eq, Structural, Debug)]
pub enum Mark {
    O,
    X,
}

/// The game's current status: ongoing (with whose turn it is), won (by whom),
/// or tied.
#[derive(Copy, Clone, PartialEq, Eq, Structural, Debug)]
pub enum State {
    Turn(Mark),
    Won(Mark),
    Tie,
}

/// The mark that did not just move.
pub open spec fn other_mark(m: Mark) -> Mark {
    match m {
        Mark::O => Mark::X,
        Mark::X => Mark::O,
    }
}

/// The numeric value used for scoring: `X` is `+1`, `O` is `-1`.
pub open spec fn mark_val(m: Mark) -> int {
    match m {
        Mark::O => -1,
        Mark::X => 1,
    }
}

/// The mark whose turn it is; meaningful only when `st` is `Turn`.
pub open spec fn turn_mark(st: State) -> Mark {
    match st {
        State::Turn(m) => m,
        _ => Mark::X,
    }
}

impl Mark {
    /// The opponent's mark.
    pub fn other(&self) -> (r: Mark)
        ensures
            r == other_mark(*self),
    {
        match self {
            Mark::O => Mark::X,
            Mark::X => Mark::O,
        }
    }

    /// The character conventionally used to draw this mark.
    pub fn to_char(&self) -> (r: char)
        ensures
            r == (match *self {
                Mark::O => 'O',
                Mark::X => 'X',
            }),
    {
        match self {
            Mark::O => 'O',
            Mark::X => 'X',
        }
    }

    /// The scoring value of this mark.
    pub fn to_value(&self) -> (r: i8)
        ensures
            r as int == mark_val(*self),
    {
        match self {
            Mark::O => -1,
            Mark::X => 1,
        }
    }
}

/// The three cells at indices `a`, `b`, `c` all hold `m`.
pub open spec fn line_won(s: Seq<Option<Mark>>, m: Mark, a: int, b: int, c: int) -> bool {
    s[a] == Some(m) && s[b] == Some(m) && s[c] == Some(m)
}

/// `m` occupies all three cells of at least one of the 8 win lines:
/// 3 rows, 3 columns, 2 diagonals.
pub open spec fn has_win(s: Seq<Option<Mark>>, m: Mark) -> bool {
    ||| line_won(s, m, 0, 1, 2)
    ||| line_won(s, m, 3, 4, 5)
    ||| line_won(s, m, 6, 7, 8)
    ||| line_won(s, m, 0, 3, 6)
    ||| line_won(s, m, 1, 4, 7)
    ||| line_won(s, m, 2, 5, 8)
    ||| line_won(s, m, 0, 4, 8)
    ||| line_won(s, m, 2, 4, 6)
}

/// Every one of the nine cells is occupied.
pub open spec fn board_full(s: Seq<Option<Mark>>) -> bool {
    &&& s[0] is Some
    &&& s[1] is Some
    &&& s[2] is Some
    &&& s[3] is Some
    &&& s[4] is Some
    &&& s[5] is Some
    &&& s[6] is Some
    &&& s[7] is Some
    &&& s[8] is Some
}

/// The pure recomputation of the phase from the cell contents: a completed
/// line wins, a full board without a winner ties, and otherwise the phase
/// `cur` already in force stands.
pub open spec fn derived_state(s: Seq<Option<Mark>>, cur: State) -> State {
    if has_win(s, Mark::X) {
        State::Won(Mark::X)
    } else if has_win(s, Mark::O) {
        State::Won(Mark::O)
    } else if board_full(s) {
        State::Tie
    } else {
        cur
    }
}

/// Well-formedness of a cells/phase pair: nine cells, at most one mark with a
/// completed line, and the phase is exactly what recomputation from the cells
/// would yield.
pub open spec fn wf_board(s: Seq<Option<Mark>>, st: State) -> bool {
    &&& s.len() == 9
    &&& match st {
        State::Turn(m) => !has_win(s, Mark::X) && !has_win(s, Mark::O) && !board_full(s),
        State::Won(m) => has_win(s, m) && !has_win(s, other_mark(m)),
        State::Tie => board_full(s) && !has_win(s, Mark::X) && !has_win(s, Mark::O),
    }
}

/// The number of empty cells among the first `n`.
pub open spec fn empties_upto(s: Seq<Option<Mark>>, n: int) -> int
    decreases n,
{
    if n <= 0 {
        0
    } else {
        empties_upto(s, n - 1) + if s[n - 1] is None {
            1int
        } else {
            0int
        }
    }
}

/// The number of empty cells on the board.
pub open spec fn num_empty(s: Seq<Option<Mark>>) -> int {
    empties_upto(s, 9)
}

/// The cell contents after `m` is placed at index `i`.
pub open spec fn place_result(s: Seq<Option<Mark>>, i: int, m: Mark) -> Seq<Option<Mark>> {
    s.update(i, Some(m))
}

/// The phase after `m` is placed at index `i`: recomputed from the new cells,
/// with the turn passing to the other mark when the game goes on.
pub open spec fn state_after(s: Seq<Option<Mark>>, i: int, m: Mark) -> State {
    derived_state(place_result(s, i, m), State::Turn(other_mark(m)))
}

pub proof fn lemma_empties_bounds(s: Seq<Option<Mark>>, n: int)
    requires
        0 <= n,
    ensures
        0 <= empties_upto(s, n) <= n,
    decreases n,
{
    if n > 0 {
        lemma_empties_bounds(s, n - 1);
    }
}

pub proof fn lemma_empties_update(s: Seq<Option<Mark>>, i: int, v: Option<Mark>, n: int)
    requires
        0 <= i < s.len(),
        0 <= n <= s.len(),
    ensures
        i < n ==> empties_upto(s.update(i, v), n) == empties_upto(s, n) - (if s[i] is None {
            1int
        } else {
            0int
        }) + (if v is None {
            1int
        } else {
            0int
        }),
        n <= i ==> empties_upto(s.update(i, v), n) == empties_upto(s, n),
    decreases n,
{
    if n > 0 {
        lemma_empties_update(s, i, v, n - 1);
    }
}

pub proof fn lemma_empties_mono(s: Seq<Option<Mark>>, a: int, b: int)
    requires
        0 <= a <= b,
    ensures
        empties_upto(s, a) <= empties_upto(s, b),
    decreases b,
{
    if b > a {
        lemma_empties_mono(s, a, b - 1);
    }
}

/// An empty cell contributes to the count: a board with one is not counted
/// as having zero empties.
pub proof fn lemma_cell_counted(s: Seq<Option<Mark>>, k: int)
    requires
        0 <= k < 9,
        s[k] is None,
    ensures
        num_empty(s) >= 1,
{
    lemma_empties_bounds(s, k);
    lemma_empties_mono(s, k + 1, 9);
}

/// A board that is not full has at least one empty cell to count.
pub proof fn lemma_nonfull_has_empty(s: Seq<Option<Mark>>)
    requires
        s.len() == 9,
        !board_full(s),
    ensures
        num_empty(s) >= 1,
        exists|j: int| 0 <= j < 9 && s[j] is None,
{
    if s[0] is None {
        lemma_cell_counted(s, 0);
    } else if s[1] is None {
        lemma_cell_counted(s, 1);
    } else if s[2] is None {
        lemma_cell_counted(s, 2);
    } else if s[3] is None {
        lemma_cell_counted(s, 3);
    } else if s[4] is None {
        lemma_cell_counted(s, 4);
    } else if s[5] is None {
        lemma_cell_counted(s, 5);
    } else if s[6] is None {
        lemma_cell_counted(s, 6);
    } else if s[7] is None {
        lemma_cell_counted(s, 7);
    } else {
        lemma_cell_counted(s, 8);
    }
}

/// Placing the mark to move on an empty cell of a well-formed ongoing board
/// yields a well-formed board again, with one empty cell fewer.  In
/// particular the opponent cannot acquire a win line from the move, so at
/// most one mark ever holds a completed line.
pub proof fn lemma_place_wf(s: Seq<Option<Mark>>, st: State, i: int, m: Mark)
    requires
        wf_board(s, st),
        st == State::Turn(m),
        0 <= i < 9,
        s[i] is None,
    ensures
        wf_board(place_result(s, i, m), state_after(s, i, m)),
        num_empty(place_result(s, i, m)) == num_empty(s) - 1,
{
    let s2 = place_result(s, i, m);
    assert(!has_win(s2, other_mark(m)));
    lemma_empties_update(s, i, Some(m), 9);
}

/// The 3x3 grid of cell contents plus the current phase.  The phase is a
/// cached, derived field: every constructor and mutator keeps it equal to
/// the recomputation from the cells.
pub struct Board {
    marks: Vec<Option<Mark>>,
    state: State,
}

impl Board {
    /// The cell contents, as a sequence of nine optional marks.
    pub closed spec fn cells(&self) -> Seq<Option<Mark>> {
        self.marks@
    }

    /// The current phase.
    pub closed spec fn phase(&self) -> State {
        self.state
    }

    /// The board's invariant: see `wf_board`.
    pub open spec fn wf(&self) -> bool {
        wf_board(self.cells(), self.phase())
    }

    /// The initial board: all cells empty, `X` to move.
    pub fn new() -> (b: Board)
        ensures
            b.wf(),
            b.cells() == Seq::new(9, |i: int| None::<Mark>),
            b.phase() == State::Turn(Mark::X),
    {
        let marks: Vec<Option<Mark>> = vec![None, None, None, None, None, None, None, None, None];
        proof {
            assert(marks@ =~= Seq::new(9, |i: int| None::<Mark>));
        }
        Board { marks, state: State::Turn(Mark::X) }
    }

    /// The content of cell `index`.
    pub fn get(&self, index: usize) -> (r: Option<Mark>)
        requires
            index < self.cells().len(),
        ensures
            r == self.cells()[index as int],
    {
        self.marks[index]
    }

    /// The current phase, as a value.
    pub fn state(&self) -> (r: State)
        ensures
            r == self.phase(),
    {
        self.state
    }

    /// Cell `a` holds `m`.
    fn cell_is(&self, a: usize, m: Mark) -> (r: bool)
        requires
            self.cells().len() == 9,
            a < 9,
        ensures
            r == (self.cells()[a as int] == Some(m)),
    {
        match self.marks[a] {
            Some(x) => x == m,
            None => false,
        }
    }

    /// The line `a`-`b`-`c` is fully occupied by `m`.
    fn line_is_won(&self, m: Mark, a: usize, b: usize, c: usize) -> (r: bool)
        requires
            self.cells().len() == 9,
            a < 9,
            b < 9,
            c < 9,
        ensures
            r == line_won(self.cells(), m, a as int, b as int, c as int),
    {
        self.cell_is(a, m) && self.cell_is(b, m) && self.cell_is(c, m)
    }

    /// `m` has completed one of the 8 win lines.
    fn wins(&self, m: Mark) -> (r: bool)
        requires
            self.cells().len() == 9,
        ensures
            r == has_win(self.cells(), m),
    {
        self.line_is_won(m, 0, 1, 2) || self.line_is_won(m, 3, 4, 5) || self.line_is_won(m, 6, 7, 8)
            || self.line_is_won(m, 0, 3, 6) || self.line_is_won(m, 1, 4, 7) || self.line_is_won(
            m,
            2,
            5,
            8,
        ) || self.line_is_won(m, 0, 4, 8) || self.line_is_won(m, 2, 4, 6)
    }

    /// True iff no cell is empty.
    pub fn is_full(&self) -> (r: bool)
        requires
            self.cells().len() == 9,
        ensures
            r == board_full(self.cells()),
    {
        self.marks[0].is_some() && self.marks[1].is_some() && self.marks[2].is_some()
            && self.marks[3].is_some() && self.marks[4].is_some() && self.marks[5].is_some()
            && self.marks[6].is_some() && self.marks[7].is_some() && self.marks[8].is_some()
    }

    /// Recomputes the phase from the cell contents alone: a completed line is
    /// a win, a full board without one is a tie, and otherwise the phase
    /// currently in force stands.
    pub fn get_new_state(&self) -> (r: State)
        requires
            self.cells().len() == 9,
        ensures
            r == derived_state(self.cells(), self.phase()),
    {
        if self.wins(Mark::X) {
            State::Won(Mark::X)
        } else if self.wins(Mark::O) {
            State::Won(Mark::O)
        } else if self.is_full() {
            State::Tie
        } else {
            self.state
        }
    }

    /// Applies a move: places the mark whose turn it is on cell `index` and
    /// recomputes the phase.  Fails, leaving the board unchanged, iff the
    /// index is out of range, the cell is occupied, or the game is over.
    pub fn place(&mut self, index: usize) -> (r: Option<()>)
        requires
            old(self).wf(),
        ensures
            r is Some <==> (index < 9 && old(self).cells()[index as int] is None && old(
                self,
            ).phase() is Turn),
            r is None ==> *final(self) == *old(self),
            r is Some ==> {
                let m = turn_mark(old(self).phase());
                &&& final(self).cells() == place_result(old(self).cells(), index as int, m)
                &&& final(self).phase() == state_after(old(self).cells(), index as int, m)
                &&& final(self).wf()
                &&& num_empty(final(self).cells()) == num_empty(old(self).cells()) - 1
            },
    {
        if index >= 9 {
            return None;
        }
        if self.marks[index].is_some() {
            return None;
        }
        match self.state {
            State::Turn(mark) => {
                proof {
                    lemma_place_wf(self.cells(), self.state, index as int, mark);
                }
                self.marks.set(index, Some(mark));
                self.state = State::Turn(mark.other());
                self.state = self.get_new_state();
                Some(())
            },
            _ => None,
        }
    }
}

impl Clone for Board {
    /// An exact copy: same cells, same phase.
    fn clone(&self) -> (r: Board)
        ensures
            r.cells() == self.cells(),
            r.phase() == self.phase(),
    {
        let mut marks: Vec<Option<Mark>> = Vec::new();
        let mut i: usize = 0;
        while i < self.marks.len()
            invariant
                i <= self.marks@.len(),
                marks@ =~= self.marks@.subrange(0, i as int),
            decreases self.marks@.len() - i,
        {
            marks.push(self.marks[i]);
            i = i + 1;
        }
        proof {
            assert(marks@ =~= self.marks@);
        }
        Board { marks, state: self.state }
    }
}

/// The characterization of the recomputed phase of a well-formed board:
/// `Won(m)` exactly when `m` alone holds a completed win line, `Tie` exactly
/// when the board is full without a winner, and otherwise the ongoing phase
/// stands unchanged.
pub proof fn lemma_evaluate_characterization(s: Seq<Option<Mark>>, st: State)
    requires
        wf_board(s, st),
    ensures
        forall|m: Mark|
            derived_state(s, st) == State::Won(m) <==> (has_win(s, m) && !has_win(
                s,
                other_mark(m),
            )),
        derived_state(s, st) == State::Tie <==> (board_full(s) && !has_win(s, Mark::X) && !has_win(
            s,
            Mark::O,
        )),
        derived_state(s, st) is Turn ==> derived_state(s, st) == st,
        (!has_win(s, Mark::X) && !has_win(s, Mark::O) && !board_full(s)) ==> (derived_state(s, st)
            == st && st is Turn),
{
}

} // verus!
