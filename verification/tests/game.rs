use tic_tac_toe::game::{Cell, Game, Mark, Outcome, SearchError, TurnResult};

#[test]
fn new_game_is_empty_and_ongoing() {
    let g = Game::new();
    assert_eq!(g.steps, 0);
    for row in 0..3 {
        for column in 0..3 {
            assert_eq!(g.cell(row, column), Cell::Empty);
        }
    }
    assert_eq!(g.outcome(), Outcome::Ongoing);
}

#[test]
fn other_swaps_marks() {
    assert_eq!(Mark::Circle.other(), Mark::Cross);
    assert_eq!(Mark::Cross.other(), Mark::Circle);
}

#[test]
fn step_rejects_taken_cell_and_keeps_board() {
    let mut g = Game::new();
    assert!(g.step(Mark::Circle, 1, 1));
    let steps_before = g.steps;
    assert!(!g.step(Mark::Cross, 1, 1));
    assert_eq!(g.steps, steps_before);
    assert_eq!(g.cell(1, 1), Cell::Circle);
    assert_eq!(g.outcome(), Outcome::Ongoing);
}

#[test]
fn step_counts_each_success_once() {
    let mut g = Game::new();
    assert!(g.step(Mark::Circle, 0, 0));
    assert_eq!(g.steps, 1);
    assert!(g.step(Mark::Cross, 2, 2));
    assert_eq!(g.steps, 2);
    assert_eq!(g.cell(0, 0), Cell::Circle);
    assert_eq!(g.cell(2, 2), Cell::Cross);
}

#[test]
fn top_row_of_circles_wins() {
    let mut g = Game::new();
    assert!(g.step(Mark::Circle, 0, 0));
    assert!(g.step(Mark::Cross, 1, 0));
    assert!(g.step(Mark::Circle, 0, 1));
    assert!(g.step(Mark::Cross, 1, 1));
    assert!(g.step(Mark::Circle, 0, 2));
    assert_eq!(g.outcome(), Outcome::Win(Mark::Circle));
    let (over, winner) = g.is_game_over();
    assert!(over);
    assert_eq!(winner, Cell::Circle);
}

#[test]
fn column_of_crosses_wins() {
    let mut g = Game::new();
    assert!(g.step(Mark::Cross, 0, 2));
    assert!(g.step(Mark::Circle, 0, 0));
    assert!(g.step(Mark::Cross, 1, 2));
    assert!(g.step(Mark::Circle, 1, 0));
    assert!(g.step(Mark::Cross, 2, 2));
    assert_eq!(g.outcome(), Outcome::Win(Mark::Cross));
    let (_, winner) = g.check_columns();
    assert_eq!(winner, Cell::Cross);
}

#[test]
fn main_diagonal_win_detected() {
    let mut g = Game::new();
    assert!(g.step(Mark::Circle, 0, 0));
    assert!(g.step(Mark::Cross, 0, 1));
    assert!(g.step(Mark::Circle, 1, 1));
    assert!(g.step(Mark::Cross, 0, 2));
    assert!(g.step(Mark::Circle, 2, 2));
    let (over, winner) = g.check_diagonals();
    assert!(over);
    assert_eq!(winner, Cell::Circle);
    assert_eq!(g.outcome(), Outcome::Win(Mark::Circle));
}

#[test]
fn anti_diagonal_win_detected() {
    let mut g = Game::new();
    assert!(g.step(Mark::Cross, 2, 0));
    assert!(g.step(Mark::Circle, 0, 0));
    assert!(g.step(Mark::Cross, 1, 1));
    assert!(g.step(Mark::Circle, 0, 1));
    assert!(g.step(Mark::Cross, 0, 2));
    assert_eq!(g.outcome(), Outcome::Win(Mark::Cross));
}

/// O X O / O X X / X O O: nine moves, no winning line.
fn drawn_board() -> Game {
    let mut g = Game::new();
    assert!(g.step(Mark::Circle, 0, 0));
    assert!(g.step(Mark::Cross, 0, 1));
    assert!(g.step(Mark::Circle, 0, 2));
    assert!(g.step(Mark::Cross, 1, 1));
    assert!(g.step(Mark::Circle, 1, 0));
    assert!(g.step(Mark::Cross, 1, 2));
    assert!(g.step(Mark::Circle, 2, 1));
    assert!(g.step(Mark::Cross, 2, 0));
    assert!(g.step(Mark::Circle, 2, 2));
    g
}

#[test]
fn full_board_without_line_is_draw() {
    let g = drawn_board();
    assert_eq!(g.steps, 9);
    assert_eq!(g.outcome(), Outcome::Draw);
    let (over, winner) = g.is_game_over();
    assert!(over);
    assert_eq!(winner, Cell::Empty);
}

#[test]
fn full_board_search_reports_error() {
    let g = drawn_board();
    assert_eq!(g.find_best_move(), Err(SearchError::SearchOnFullBoard));
}

#[test]
fn ongoing_with_open_bottom_row_and_winning_reply() {
    // O X O / X O X / N N N with circle to move.
    let mut g = Game::new();
    assert!(g.step(Mark::Circle, 0, 0));
    assert!(g.step(Mark::Cross, 0, 1));
    assert!(g.step(Mark::Circle, 0, 2));
    assert!(g.step(Mark::Cross, 1, 0));
    assert!(g.step(Mark::Circle, 1, 1));
    assert!(g.step(Mark::Cross, 1, 2));
    assert_eq!(g.outcome(), Outcome::Ongoing);
    let (row, col) = g.find_best_move().expect("three cells are open");
    assert_eq!(row, 2);
    assert!(col < 3);
    let mut after = g;
    assert!(after.step(Mark::Circle, row, col));
    // Circle secures at least a draw from the chosen cell.
    assert!(after.minimax(0, Mark::Cross) >= 0);
}

#[test]
fn best_move_on_empty_board_secures_draw() {
    let g = Game::new();
    let (row, col) = g.find_best_move().expect("the board is empty");
    let corner_or_center = (row == 1 && col == 1) || (row != 1 && col != 1);
    assert!(corner_or_center);
    let mut after = g;
    assert!(after.step(Mark::Circle, row, col));
    // The position after the chosen first move cannot be forced to a loss.
    assert!(after.minimax(0, Mark::Cross) >= 0);
}

#[test]
fn minimax_scores_immediate_win() {
    // O O N / X X N / N N N with circle to move: circle completes the row.
    let mut g = Game::new();
    assert!(g.step(Mark::Circle, 0, 0));
    assert!(g.step(Mark::Cross, 1, 0));
    assert!(g.step(Mark::Circle, 0, 1));
    assert!(g.step(Mark::Cross, 1, 1));
    assert_eq!(g.minimax(0, Mark::Circle), 10);
}

#[test]
fn minimax_scores_forced_loss() {
    // X X N / N O N / N N N with cross to move: cross completes the row.
    let mut g = Game::new();
    assert!(g.step(Mark::Cross, 0, 0));
    assert!(g.step(Mark::Circle, 1, 1));
    assert!(g.step(Mark::Cross, 0, 1));
    assert_eq!(g.minimax(0, Mark::Cross), -10);
}

#[test]
fn minimax_scores_finished_draw() {
    let g = drawn_board();
    assert_eq!(g.minimax(0, Mark::Circle), 0);
    assert_eq!(g.minimax(0, Mark::Cross), 0);
}

#[test]
fn take_turn_flips_sides_rejects_and_finishes() {
    let mut g = Game::new();
    assert_eq!(g.take_turn(Mark::Circle, 0, 0), TurnResult::Next(Mark::Cross));
    assert_eq!(g.take_turn(Mark::Cross, 0, 0), TurnResult::Rejected);
    assert_eq!(g.take_turn(Mark::Cross, 1, 0), TurnResult::Next(Mark::Circle));
    assert_eq!(g.take_turn(Mark::Circle, 0, 1), TurnResult::Next(Mark::Cross));
    assert_eq!(g.take_turn(Mark::Cross, 1, 1), TurnResult::Next(Mark::Circle));
    assert_eq!(
        g.take_turn(Mark::Circle, 0, 2),
        TurnResult::Finished(Outcome::Win(Mark::Circle))
    );
}
