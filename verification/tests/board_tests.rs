use connect_four::board::Board;
use connect_four::board::GameOutcome;
use connect_four::board::InsertionError;
use connect_four::board::Piece;

fn apply(board: &mut Board, cols: &[usize]) {
    for &c in cols {
        board.insert_at(c).unwrap();
    }
}

/// Column moves that fill all 42 cells without ever forming a 4-in-a-row:
/// three pairs of columns are filled in tandem, then the last column alone.
fn draw_moves() -> Vec<usize> {
    let mut moves = Vec::new();
    for &(u, v) in &[(1, 3), (2, 4), (5, 7)] {
        moves.extend_from_slice(&[u, v, v, u, u, v, v, u, u, v, v, u]);
    }
    moves.extend_from_slice(&[6, 6, 6, 6, 6, 6]);
    moves
}

#[test]
fn piece_as_int_signs() {
    assert_eq!(Piece::First.as_int(), 1);
    assert_eq!(Piece::Second.as_int(), -1);
    assert_eq!(Piece::First.flip(), Piece::Second);
    assert_eq!(Piece::Second.flip(), Piece::First);
}

#[test]
fn new_board_is_empty_first_to_move() {
    let board = Board::new();
    for x in 0..7 {
        for y in 0..6 {
            assert_eq!(board.cell_at(x, y), None);
        }
    }
    assert_eq!(board.outcome, None);
    assert_eq!(board.current_turn, Piece::First);
}

#[test]
fn valid_moves_on_empty_board_are_center_biased() {
    let board = Board::new();
    assert_eq!(board.get_valid_moves(), vec![4, 3, 5, 2, 6, 1, 7]);
}

#[test]
fn valid_moves_skip_full_column() {
    let mut board = Board::new();
    apply(&mut board, &[4, 4, 4, 4, 4, 4]);
    assert_eq!(board.outcome, None);
    assert_eq!(board.get_valid_moves(), vec![3, 5, 2, 6, 1, 7]);
}

#[test]
fn insert_occupies_lowest_empty_cell() {
    let mut board = Board::new();
    assert_eq!(board.insert_at(3), Ok(()));
    assert_eq!(board.cell_at(2, 5), Some(Piece::First));
    assert_eq!(board.cell_at(2, 4), None);
    assert_eq!(board.insert_at(3), Ok(()));
    assert_eq!(board.cell_at(2, 4), Some(Piece::Second));
    assert_eq!(board.cell_at(2, 3), None);
}

#[test]
fn turn_alternates_on_open_board() {
    let mut board = Board::new();
    assert_eq!(board.current_turn, Piece::First);
    board.insert_at(1).unwrap();
    assert_eq!(board.current_turn, Piece::Second);
    board.insert_at(2).unwrap();
    assert_eq!(board.current_turn, Piece::First);
    board.insert_at(1).unwrap();
    assert_eq!(board.current_turn, Piece::Second);
}

#[test]
fn filled_column_is_rejected_and_board_unchanged() {
    let mut board = Board::new();
    apply(&mut board, &[1, 1, 1, 1, 1, 1]);
    assert_eq!(board.outcome, None);
    let turn_before = board.current_turn;
    let cells_before: Vec<Option<Piece>> =
        (0..6).map(|y| board.cell_at(0, y)).collect();
    assert_eq!(board.insert_at(1), Err(InsertionError::FilledSlot));
    let cells_after: Vec<Option<Piece>> =
        (0..6).map(|y| board.cell_at(0, y)).collect();
    assert_eq!(cells_before, cells_after);
    assert_eq!(board.current_turn, turn_before);
    assert_eq!(board.outcome, None);
}

#[test]
fn finished_game_rejects_every_column() {
    let mut board = Board::new();
    apply(&mut board, &[4, 1, 4, 2, 4, 3, 4]);
    assert_eq!(board.outcome, Some(GameOutcome::Winner(Piece::First)));
    // An untouched column is rejected too, and nothing changes.
    assert_eq!(board.cell_at(4, 5), None);
    assert_eq!(board.insert_at(5), Err(InsertionError::GameFinished));
    assert_eq!(board.cell_at(4, 5), None);
    assert_eq!(board.current_turn, Piece::First);
    assert_eq!(board.outcome, Some(GameOutcome::Winner(Piece::First)));
}

#[test]
fn vertical_stack_of_four_wins_and_turn_freezes() {
    let mut board = Board::new();
    // First stacks column 4 on every turn; Second plays elsewhere.
    apply(&mut board, &[4, 1, 4, 2, 4, 3]);
    assert_eq!(board.outcome, None);
    board.insert_at(4).unwrap();
    for y in 2..6 {
        assert_eq!(board.cell_at(3, y), Some(Piece::First));
    }
    assert_eq!(board.outcome, Some(GameOutcome::Winner(Piece::First)));
    // The winner made the last move and the turn stays frozen on them.
    assert_eq!(board.current_turn, Piece::First);
}

#[test]
fn horizontal_four_wins() {
    let mut board = Board::new();
    apply(&mut board, &[1, 7, 2, 7, 3, 7, 4]);
    assert_eq!(board.outcome, Some(GameOutcome::Winner(Piece::First)));
    assert_eq!(board.current_turn, Piece::First);
}

#[test]
fn rising_diagonal_four_wins() {
    let mut board = Board::new();
    apply(&mut board, &[1, 2, 2, 3, 4, 3, 3, 4, 5, 4, 4]);
    assert_eq!(board.outcome, Some(GameOutcome::Winner(Piece::First)));
}

#[test]
fn falling_diagonal_four_wins() {
    let mut board = Board::new();
    apply(&mut board, &[7, 6, 6, 5, 4, 5, 5, 4, 3, 4, 4]);
    assert_eq!(board.outcome, Some(GameOutcome::Winner(Piece::First)));
}

#[test]
fn second_player_vertical_win_scores_negative_sentinel() {
    let mut board = Board::new();
    apply(&mut board, &[1, 4, 2, 4, 3, 4, 7, 4]);
    assert_eq!(board.outcome, Some(GameOutcome::Winner(Piece::Second)));
    assert_eq!(board.current_turn, Piece::Second);
    assert_eq!(board.get_total_score(), -100000);
}

#[test]
fn win_scores_positive_sentinel() {
    let mut board = Board::new();
    apply(&mut board, &[4, 1, 4, 2, 4, 3, 4]);
    assert_eq!(board.get_total_score(), 100000);
}

#[test]
fn full_board_without_line_is_a_draw() {
    let mut board = Board::new();
    let moves = draw_moves();
    apply(&mut board, &moves[..41]);
    assert_eq!(board.outcome, None);
    board.insert_at(moves[41]).unwrap();
    assert_eq!(board.outcome, Some(GameOutcome::Draw));
    assert_eq!(board.current_turn, Piece::Second);
    assert_eq!(board.get_valid_moves(), Vec::<usize>::new());
    assert_eq!(board.insert_at(1), Err(InsertionError::GameFinished));
}

#[test]
fn drawn_board_score_stays_small() {
    let mut board = Board::new();
    apply(&mut board, &draw_moves());
    assert_eq!(board.outcome, Some(GameOutcome::Draw));
    let score = board.get_total_score();
    assert!(-276 <= score && score <= 276);
}

#[test]
fn empty_board_scores_zero() {
    let board = Board::new();
    assert_eq!(board.get_total_score(), 0);
}

#[test]
fn single_center_piece_scores_its_line_coverage() {
    let mut board = Board::new();
    board.insert_at(4).unwrap();
    // The bottom-center cell lies on 4 horizontal, 1 vertical and 2 diagonal
    // scorable lines, each counting +1 for First.
    assert_eq!(board.get_total_score(), 7);
    board.insert_at(4).unwrap();
    // Second's reply one cell up sits on 10 lines, each counting -1.
    assert_eq!(board.get_total_score(), -3);
}

#[test]
fn outcome_recomputation_is_idempotent_on_finished_board() {
    let mut board = Board::new();
    apply(&mut board, &[4, 1, 4, 2, 4, 3, 4]);
    assert_eq!(board.outcome, Some(GameOutcome::Winner(Piece::First)));
    board.update_outcome();
    assert_eq!(board.outcome, Some(GameOutcome::Winner(Piece::First)));
    assert_eq!(board.current_turn, Piece::First);
    board.update_outcome();
    assert_eq!(board.outcome, Some(GameOutcome::Winner(Piece::First)));
    for y in 2..6 {
        assert_eq!(board.cell_at(3, y), Some(Piece::First));
    }
}

#[test]
fn line_score_counts_pieces() {
    let mut board = Board::new();
    board.insert_at(1).unwrap();
    // One First piece at the bottom-left corner.
    assert_eq!(board.score(0, 5, 1, 0), 1);
    assert_eq!(board.score(0, 2, 0, 1), 1);
    assert_eq!(board.score(0, 5, 1, -1), 1);
    assert_eq!(board.score(1, 5, 1, 0), 0);
    board.insert_at(1).unwrap();
    // Second's reply sits on the same vertical line: the counts cancel.
    assert_eq!(board.score(0, 2, 0, 1), 0);
}

#[test]
fn score_reports_recorded_winner_on_every_line() {
    let mut board = Board::new();
    apply(&mut board, &[4, 1, 4, 2, 4, 3, 4]);
    assert_eq!(board.outcome, Some(GameOutcome::Winner(Piece::First)));
    // Once a winner is recorded, even an empty line reports the sentinel.
    assert_eq!(board.cell_at(6, 5), None);
    assert_eq!(board.score(3, 5, 1, 0), 100000);
    assert_eq!(board.score(6, 2, 0, 1), 100000);
}

#[test]
fn is_slot_empty_tracks_top_cell() {
    let mut board = Board::new();
    assert!(board.is_slot_empty(0));
    apply(&mut board, &[1, 1, 1, 1, 1]);
    assert!(board.is_slot_empty(0));
    board.insert_at(1).unwrap();
    assert!(!board.is_slot_empty(0));
    assert!(board.is_slot_empty(1));
}
