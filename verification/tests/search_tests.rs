use connect_four::board::Board;
use connect_four::board::GameOutcome;
use connect_four::board::Piece;
use connect_four::board::MAX_GAME_SCORE;
use connect_four::search::negamax;

fn apply(board: &mut Board, cols: &[usize]) {
    for &c in cols {
        board.insert_at(c).unwrap();
    }
}

#[test]
fn depth_zero_returns_static_evaluation() {
    let board = Board::new();
    assert_eq!(
        negamax(&board, 0, -MAX_GAME_SCORE, MAX_GAME_SCORE, 1),
        (0, 1)
    );
}

#[test]
fn depth_zero_negates_for_second_player() {
    let mut board = Board::new();
    board.insert_at(4).unwrap();
    assert_eq!(board.current_turn, Piece::Second);
    let color = board.current_turn.as_int();
    // The position is worth +7 to First, so -7 from Second's perspective.
    assert_eq!(
        negamax(&board, 0, -MAX_GAME_SCORE, MAX_GAME_SCORE, color),
        (-7, 1)
    );
}

#[test]
fn depth_one_on_empty_board_prefers_center() {
    let board = Board::new();
    // The center column is the first candidate of the fixed order and its
    // single-piece value (+7) strictly beats every other column, so depth-1
    // search settles on column 4 with value 7.
    assert_eq!(
        negamax(&board, 1, -MAX_GAME_SCORE, MAX_GAME_SCORE, 1),
        (7, 4)
    );
}

#[test]
fn depth_two_on_empty_board_anticipates_the_reply() {
    let board = Board::new();
    // After First takes the center (+7), Second's best reply stacks on top
    // of it (-10), so the center line is worth -3 — and no other opening
    // does better, so the first candidate keeps the preference.
    assert_eq!(
        negamax(&board, 2, -MAX_GAME_SCORE, MAX_GAME_SCORE, 1),
        (-3, 4)
    );
}

#[test]
fn finished_board_is_a_search_leaf() {
    let mut board = Board::new();
    apply(&mut board, &[4, 1, 4, 2, 4, 3, 4]);
    assert_eq!(board.outcome, Some(GameOutcome::Winner(Piece::First)));
    // Any depth: the recorded outcome cuts the search off at once.
    assert_eq!(
        negamax(&board, 5, -MAX_GAME_SCORE, MAX_GAME_SCORE, 1),
        (MAX_GAME_SCORE, 1)
    );
    assert_eq!(
        negamax(&board, 5, -MAX_GAME_SCORE, MAX_GAME_SCORE, -1),
        (-MAX_GAME_SCORE, 1)
    );
}

#[test]
fn search_takes_an_immediate_vertical_win() {
    let mut board = Board::new();
    // First has three pieces stacked in column 4 and is to move.
    apply(&mut board, &[4, 1, 4, 2, 4, 3]);
    assert_eq!(board.current_turn, Piece::First);
    let color = board.current_turn.as_int();
    let (value, best) = negamax(&board, 2, -MAX_GAME_SCORE, MAX_GAME_SCORE, color);
    assert_eq!(best, 4);
    assert_eq!(value, MAX_GAME_SCORE);
}
