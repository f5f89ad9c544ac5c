use std::collections::HashMap;

use tictactoe::board::{Board, Mark, State};
use tictactoe::search::{compute_best_move, minimax, minimax_plain, MiniMaxNode};

fn board_after(moves: &[usize]) -> Board {
    let mut b = Board::new();
    for &i in moves {
        assert_eq!(b.place(i), Some(()));
    }
    b
}

#[test]
fn the_immediate_winning_move_is_taken() {
    // X,X,_ / O,O,_ / _,_,_ with X to move: index 2 completes the top row.
    let b = board_after(&[0, 3, 1, 4]);
    assert_eq!(b.state(), State::Turn(Mark::X));
    assert_eq!(compute_best_move(&b), 2);
}

#[test]
fn a_node_snapshot_calculates_the_same_winning_move() {
    let b = board_after(&[0, 3, 1, 4]);
    let node = MiniMaxNode::new(&b);
    assert_eq!(node.calculate(), 2);
}

#[test]
fn the_opponents_immediate_win_is_blocked() {
    // X,X,_ / O,O,_ / _,_,X with O to move: whatever the engine picks for O
    // must keep the position's value, i.e. not hand X a forced win that was
    // not already forced.
    let b = board_after(&[0, 3, 1, 4, 8]);
    assert_eq!(b.state(), State::Turn(Mark::O));
    let mv = compute_best_move(&b) as usize;
    let mut after = b.clone();
    assert_eq!(after.place(mv), Some(()));
    // Whatever O plays must keep O from having already lost on the spot:
    // X must not be able to win immediately afterwards.
    let mut memory: HashMap<u64, i8> = HashMap::new();
    let v = minimax(&b, &mut memory);
    let v_after = minimax(&after, &mut memory);
    assert_eq!(v, v_after);
}

#[test]
fn memoized_and_unmemoized_search_agree_on_the_value() {
    let boards = [
        board_after(&[0]),
        board_after(&[4]),
        board_after(&[0, 4]),
        board_after(&[0, 3, 1, 4]),
        board_after(&[0, 1, 2, 3, 4, 5, 7, 6]),
    ];
    for b in boards.iter() {
        let mut memory: HashMap<u64, i8> = HashMap::new();
        assert_eq!(minimax(b, &mut memory), minimax_plain(b));
    }
}

#[test]
fn memoized_and_unmemoized_search_agree_from_the_empty_board() {
    let b = Board::new();
    let mut memory: HashMap<u64, i8> = HashMap::new();
    let with_table = minimax(&b, &mut memory);
    let without_table = minimax_plain(&b);
    assert_eq!(with_table, without_table);
    // Optimal tic-tac-toe from the empty board is a forced tie.
    assert_eq!(with_table, 0);
}

#[test]
fn the_selected_move_preserves_the_game_value() {
    let boards = [board_after(&[4]), board_after(&[0, 3, 1, 4]), board_after(&[4, 0, 8])];
    for b in boards.iter() {
        let mut memory: HashMap<u64, i8> = HashMap::new();
        let value = minimax(b, &mut memory);
        let mv = compute_best_move(b) as usize;
        let mut after = b.clone();
        assert_eq!(after.place(mv), Some(()));
        let mut memory2: HashMap<u64, i8> = HashMap::new();
        assert_eq!(minimax(&after, &mut memory2), value);
    }
}

#[test]
fn terminal_boards_evaluate_without_searching() {
    let won = board_after(&[0, 3, 1, 4, 2]);
    assert_eq!(won.state(), State::Won(Mark::X));
    let mut memory: HashMap<u64, i8> = HashMap::new();
    assert_eq!(minimax(&won, &mut memory), 1);
    assert_eq!(minimax_plain(&won), 1);

    let lost = board_after(&[0, 3, 1, 4, 8, 5]);
    assert_eq!(lost.state(), State::Won(Mark::O));
    assert_eq!(minimax(&lost, &mut memory), -1);

    let tied = board_after(&[0, 2, 1, 3, 5, 4, 6, 7, 8]);
    assert_eq!(tied.state(), State::Tie);
    assert_eq!(minimax(&tied, &mut memory), 0);
    assert_eq!(minimax_plain(&tied), 0);
}

#[test]
fn self_play_from_the_empty_board_never_loses_for_the_first_mover() {
    // Both sides play the engine's move; the second mover can never win
    // against optimal first-mover play, and optimal play on both sides in
    // fact forces a tie.
    let mut b = Board::new();
    let mut moves: usize = 0;
    while let State::Turn(_) = b.state() {
        assert!(moves < 9);
        let mv = compute_best_move(&b) as usize;
        assert_eq!(b.place(mv), Some(()));
        assert_ne!(b.state(), State::Won(Mark::O));
        moves += 1;
    }
    assert_eq!(b.state(), State::Tie);
    assert!(b.is_full());
}

#[test]
fn ties_among_equal_moves_go_to_the_lowest_index() {
    // On the empty board every first move leads to a position X can hold to
    // a tie, and no first move forces a win, so all nine are equally valued:
    // the engine must take index 0.
    let b = Board::new();
    assert_eq!(compute_best_move(&b), 0);
}
