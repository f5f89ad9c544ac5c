use tictactoe::board::{Board, Mark, State};
use tictactoe::key::board_key;

fn cells_of(b: &Board) -> Vec<Option<Mark>> {
    (0..9usize).map(|i| b.get(i)).collect()
}

#[test]
fn mark_other_swaps_the_players() {
    assert_eq!(Mark::X.other(), Mark::O);
    assert_eq!(Mark::O.other(), Mark::X);
}

#[test]
fn mark_to_char_draws_the_symbols() {
    assert_eq!(Mark::X.to_char(), 'X');
    assert_eq!(Mark::O.to_char(), 'O');
}

#[test]
fn mark_to_value_scores_the_players() {
    assert_eq!(Mark::X.to_value(), 1);
    assert_eq!(Mark::O.to_value(), -1);
}

#[test]
fn new_board_is_empty_and_x_moves_first() {
    let b = Board::new();
    assert_eq!(b.state(), State::Turn(Mark::X));
    assert!(!b.is_full());
    for i in 0..9usize {
        assert_eq!(b.get(i), None);
    }
}

#[test]
fn evaluate_on_the_empty_board_keeps_the_derived_phase() {
    // The derived phase is unchanged until a move is made.
    let b = Board::new();
    assert_eq!(b.get_new_state(), State::Turn(Mark::X));
}

#[test]
fn place_alternates_turns_and_records_marks() {
    let mut b = Board::new();
    assert_eq!(b.place(4), Some(()));
    assert_eq!(b.get(4), Some(Mark::X));
    assert_eq!(b.state(), State::Turn(Mark::O));
    assert_eq!(b.place(0), Some(()));
    assert_eq!(b.get(0), Some(Mark::O));
    assert_eq!(b.state(), State::Turn(Mark::X));
}

#[test]
fn place_out_of_range_fails_and_leaves_the_board_unchanged() {
    let mut b = Board::new();
    assert_eq!(b.place(2), Some(()));
    let before = cells_of(&b);
    let state_before = b.state();
    assert_eq!(b.place(9), None);
    assert_eq!(b.place(usize::MAX), None);
    assert_eq!(cells_of(&b), before);
    assert_eq!(b.state(), state_before);
}

#[test]
fn place_on_an_occupied_cell_fails_and_leaves_the_board_unchanged() {
    let mut b = Board::new();
    assert_eq!(b.place(4), Some(()));
    let before = cells_of(&b);
    let state_before = b.state();
    assert_eq!(b.place(4), None);
    assert_eq!(cells_of(&b), before);
    assert_eq!(b.state(), state_before);
}

#[test]
fn place_after_the_game_is_won_fails() {
    let mut b = Board::new();
    // X takes the top row: 0, 1, 2; O replies at 3, 4.
    for &i in &[0usize, 3, 1, 4, 2] {
        assert_eq!(b.place(i), Some(()));
    }
    assert_eq!(b.state(), State::Won(Mark::X));
    let before = cells_of(&b);
    assert_eq!(b.place(5), None);
    assert_eq!(cells_of(&b), before);
    assert_eq!(b.state(), State::Won(Mark::X));
}

#[test]
fn a_completed_row_wins() {
    let mut b = Board::new();
    for &i in &[0usize, 3, 1, 4, 2] {
        assert_eq!(b.place(i), Some(()));
    }
    assert_eq!(b.state(), State::Won(Mark::X));
    assert_eq!(b.get_new_state(), State::Won(Mark::X));
}

#[test]
fn a_completed_middle_row_wins_for_o() {
    let mut b = Board::new();
    for &i in &[0usize, 3, 1, 4, 8, 5] {
        assert_eq!(b.place(i), Some(()));
    }
    assert_eq!(b.state(), State::Won(Mark::O));
}

#[test]
fn a_completed_diagonal_wins() {
    let mut b = Board::new();
    for &i in &[0usize, 1, 4, 2, 8] {
        assert_eq!(b.place(i), Some(()));
    }
    assert_eq!(b.state(), State::Won(Mark::X));
}

#[test]
fn a_full_board_without_a_winner_is_a_tie() {
    let mut b = Board::new();
    // X: 0, 1, 5, 6, 8; O: 2, 3, 4, 7 -- no line is uniformly occupied.
    for &i in &[0usize, 2, 1, 3, 5, 4, 6, 7, 8] {
        assert_eq!(b.place(i), Some(()));
    }
    assert!(b.is_full());
    assert_eq!(b.state(), State::Tie);
    assert_eq!(b.get_new_state(), State::Tie);
}

#[test]
fn eight_filled_cells_without_a_win_leave_the_game_ongoing() {
    // The grid X,O,X / O,X,O / O,X,_ holds eight marks and no completed
    // line; one cell is still free, so the board is not full and the
    // derived phase is still `Turn`.
    let mut b = Board::new();
    for &i in &[0usize, 1, 2, 3, 4, 5, 7, 6] {
        assert_eq!(b.place(i), Some(()));
    }
    assert_eq!(b.get(0), Some(Mark::X));
    assert_eq!(b.get(1), Some(Mark::O));
    assert_eq!(b.get(2), Some(Mark::X));
    assert_eq!(b.get(3), Some(Mark::O));
    assert_eq!(b.get(4), Some(Mark::X));
    assert_eq!(b.get(5), Some(Mark::O));
    assert_eq!(b.get(6), Some(Mark::O));
    assert_eq!(b.get(7), Some(Mark::X));
    assert_eq!(b.get(8), None);
    assert!(!b.is_full());
    assert_eq!(b.get_new_state(), State::Turn(Mark::X));
}

#[test]
fn clone_copies_cells_and_phase() {
    let mut b = Board::new();
    assert_eq!(b.place(4), Some(()));
    let c = b.clone();
    assert_eq!(cells_of(&c), cells_of(&b));
    assert_eq!(c.state(), b.state());
    // The clone is independent: a move on it leaves the original alone.
    let mut c2 = c.clone();
    assert_eq!(c2.place(0), Some(()));
    assert_eq!(b.get(0), None);
}

#[test]
fn distinct_positions_get_distinct_memo_keys() {
    let mut boards = vec![Board::new()];
    for &mv in &[4usize, 0, 8, 2, 6] {
        let mut b = boards.last().unwrap().clone();
        assert_eq!(b.place(mv), Some(()));
        boards.push(b);
    }
    let keys: Vec<u64> = boards.iter().map(board_key).collect();
    for a in 0..keys.len() {
        for b in (a + 1)..keys.len() {
            assert_ne!(keys[a], keys[b]);
        }
    }
}
