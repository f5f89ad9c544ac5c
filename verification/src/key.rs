//! The memoization key: an injective encoding of a board snapshot (cells and
//! phase) into a `u64`, so the table can be keyed by a machine integer whose
//! hashing the verifier understands.
//!
//! The cells are a nine-digit base-3 number; one further bit distinguishes
//! whose turn it is on an ongoing board.  On well-formed boards the key
//! determines the snapshot completely, which is what makes reusing a cached
//! result sound.

use vstd::prelude::*;

use crate::board::{Board, Mark, State, wf_board};

verus! {

/// The base-3 digit of one cell: empty 0, `X` 1, `O` 2.
pub open spec fn cell_digit(c: Option<Mark>) -> int {
    match c {
        None => 0,
        Some(Mark::X) => 1,
        Some(Mark::O) => 2,
    }
}

/// The base-3 number formed by the digits of cells `i..9`, least significant
/// first.
pub open spec fn enc_from(s: Seq<Option<Mark>>, i: int) -> int
    decreases 9 - i,
{
    if i < 0 || i >= 9 {
        0
    } else {
        cell_digit(s[i]) + 3 * enc_from(s, i + 1)
    }
}

pub open spec fn pow3(n: int) -> int
    decreases n,
{
    if n <= 0 {
        1
    } else {
        3 * pow3(n - 1)
    }
}

/// `1` exactly when it is `O`'s turn; the bit that, together with the cell
/// digits, pins the snapshot down.
pub open spec fn turn_bit(st: State) -> int {
    match st {
        State::Turn(Mark::O) => 1,
        _ => 0,
    }
}

/// The key of a snapshot, as a mathematical integer.
pub open spec fn board_key_spec(s: Seq<Option<Mark>>, st: State) -> int {
    2 * enc_from(s, 0) + turn_bit(st)
}

/// The key of a snapshot, as the `u64` actually stored in the table.
pub open spec fn key_of(s: Seq<Option<Mark>>, st: State) -> u64 {
    board_key_spec(s, st) as u64
}

pub proof fn lemma_enc_bounds(s: Seq<Option<Mark>>, i: int)
    ensures
        0 <= enc_from(s, i) < pow3(9 - i),
    decreases 9 - i,
{
    if 0 <= i < 9 {
        lemma_enc_bounds(s, i + 1);
    } else {
        lemma_pow3_positive(9 - i);
    }
}

pub proof fn lemma_pow3_mono(a: int, b: int)
    requires
        a <= b,
    ensures
        pow3(a) <= pow3(b),
    decreases b - a,
{
    if a < b {
        lemma_pow3_mono(a, b - 1);
        lemma_pow3_positive(b - 1);
    }
}

pub proof fn lemma_pow3_positive(n: int)
    ensures
        pow3(n) >= 1,
    decreases n,
{
    if n > 0 {
        lemma_pow3_positive(n - 1);
    }
}

pub proof fn lemma_pow3_9()
    ensures
        pow3(9) == 19683,
{
    reveal_with_fuel(pow3, 11);
}

/// Equal keys mean equal digits, hence equal cells, on `i..9`.
proof fn lemma_enc_injective(s1: Seq<Option<Mark>>, s2: Seq<Option<Mark>>, i: int)
    requires
        s1.len() == 9,
        s2.len() == 9,
        0 <= i <= 9,
        enc_from(s1, i) == enc_from(s2, i),
    ensures
        forall|j: int| i <= j < 9 ==> s1[j] == s2[j],
    decreases 9 - i,
{
    if i < 9 {
        lemma_enc_bounds(s1, i + 1);
        lemma_enc_bounds(s2, i + 1);
        assert(cell_digit(s1[i]) == cell_digit(s2[i]));
        assert(s1[i] == s2[i]);
        lemma_enc_injective(s1, s2, i + 1);
    }
}

/// On well-formed boards the key is injective: equal keys mean the same
/// cells and the same phase.
pub proof fn lemma_key_injective(
    s1: Seq<Option<Mark>>,
    st1: State,
    s2: Seq<Option<Mark>>,
    st2: State,
)
    requires
        wf_board(s1, st1),
        wf_board(s2, st2),
        board_key_spec(s1, st1) == board_key_spec(s2, st2),
    ensures
        s1 == s2,
        st1 == st2,
{
    lemma_enc_bounds(s1, 0);
    lemma_enc_bounds(s2, 0);
    assert(turn_bit(st1) == turn_bit(st2));
    assert(enc_from(s1, 0) == enc_from(s2, 0));
    lemma_enc_injective(s1, s2, 0);
    assert(s1 =~= s2);
    match (st1, st2) {
        (State::Turn(m1), State::Turn(m2)) => {
            assert(m1 == m2);
        },
        _ => {
            assert(st1 == st2);
        },
    }
}

/// The key fits comfortably in a `u64`; the `u64` and integer forms agree.
pub proof fn lemma_key_range(s: Seq<Option<Mark>>, st: State)
    ensures
        0 <= board_key_spec(s, st) < 39367,
        key_of(s, st) as int == board_key_spec(s, st),
{
    lemma_enc_bounds(s, 0);
    lemma_pow3_9();
}

/// Computes the key of a board.
pub fn board_key(b: &Board) -> (k: u64)
    requires
        b.cells().len() == 9,
    ensures
        k == key_of(b.cells(), b.phase()),
        k as int == board_key_spec(b.cells(), b.phase()),
{
    let ghost s = b.cells();
    let mut acc: u64 = 0;
    let mut i: usize = 9;
    while i > 0
        invariant
            b.cells() == s,
            s.len() == 9,
            i <= 9,
            acc as int == enc_from(s, i as int),
        decreases i,
    {
        proof {
            lemma_enc_bounds(s, i as int);
            lemma_enc_bounds(s, i as int - 1);
            lemma_pow3_mono(9 - (i as int - 1), 9);
            lemma_pow3_9();
        }
        i = i - 1;
        let d: u64 = match b.get(i) {
            None => 0,
            Some(Mark::X) => 1,
            Some(Mark::O) => 2,
        };
        acc = 3 * acc + d;
    }
    proof {
        lemma_key_range(s, b.phase());
    }
    let bit: u64 = match b.state() {
        State::Turn(Mark::O) => 1,
        _ => 0,
    };
    2 * acc + bit
}

} // verus!
