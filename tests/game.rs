use tictactoe::board::{has_won, CellState};
use tictactoe::game::{GameState, GameStatus, MoveResult};

fn play(g: &mut GameState, moves: &[&str]) {
    for m in moves {
        assert_eq!(g.update(m), MoveResult::Accepted, "move {}", m);
    }
}

#[test]
fn new_game_is_empty() {
    let g = GameState::build();
    assert_eq!(g.step_count(), 0);
    assert!(!g.is_won());
    assert!(!g.is_draw());
    for r in 1..=3 {
        for c in 1..=3 {
            assert_eq!(g.cell(r, c), None);
            assert_eq!(g.symbol_at(r, c), '-');
        }
    }
    assert_eq!(g.status(), GameStatus::AwaitingMove(g.who_moves()));
}

#[test]
fn row_completed_wins_for_the_mover() {
    let mut g = GameState::with_first_player(CellState::X);
    play(&mut g, &["1 1", "2 2", "1 2", "2 1"]);
    assert!(!g.is_won());
    assert_eq!(g.update("1 3"), MoveResult::Accepted);
    assert!(g.is_won());
    assert!(!g.is_draw());
    assert_eq!(g.winner(), Some(CellState::X));
    assert_eq!(g.status(), GameStatus::Won(CellState::X));
    assert_eq!(g.step_count(), 5);
}

#[test]
fn out_of_range_input_changes_nothing() {
    let mut g = GameState::with_first_player(CellState::O);
    play(&mut g, &["2 2"]);
    assert_eq!(g.update("5 5"), MoveResult::Invalid);
    assert_eq!(g.who_moves(), CellState::X);
    assert_eq!(g.step_count(), 1);
    assert_eq!(g.cell(2, 2), Some(CellState::O));
}

#[test]
fn non_numeric_input_changes_nothing() {
    let mut g = GameState::with_first_player(CellState::X);
    assert_eq!(g.update("one two"), MoveResult::Invalid);
    assert_eq!(g.who_moves(), CellState::X);
    assert_eq!(g.step_count(), 0);
}

#[test]
fn occupied_cell_is_rejected() {
    let mut g = GameState::with_first_player(CellState::X);
    play(&mut g, &["2 2"]);
    assert_eq!(g.who_moves(), CellState::O);
    assert_eq!(g.update("2 2"), MoveResult::Occupied);
    assert_eq!(g.who_moves(), CellState::O);
    assert_eq!(g.step_count(), 1);
    assert_eq!(g.cell(2, 2), Some(CellState::X));
    assert_eq!(g.symbol_at(2, 2), 'X');
}

#[test]
fn accepted_move_takes_one_cell_and_passes_the_turn() {
    let mut g = GameState::with_first_player(CellState::O);
    assert_eq!(g.update("3 1"), MoveResult::Accepted);
    assert_eq!(g.cell(3, 1), Some(CellState::O));
    assert_eq!(g.step_count(), 1);
    assert_eq!(g.who_moves(), CellState::X);
    for r in 1..=3 {
        for c in 1..=3 {
            if (r, c) != (3, 1) {
                assert_eq!(g.cell(r, c), None);
            }
        }
    }
    assert_eq!(g.update("1 3"), MoveResult::Accepted);
    assert_eq!(g.who_moves(), CellState::O);
    assert_eq!(g.symbol_at(1, 3), 'X');
}

#[test]
fn full_board_without_line_is_a_draw() {
    let mut g = GameState::with_first_player(CellState::X);
    play(
        &mut g,
        &["1 1", "1 3", "1 2", "2 1", "2 3", "2 2", "3 1", "3 2", "3 3"],
    );
    assert!(g.is_draw());
    assert!(!g.is_won());
    assert_eq!(g.winner(), None);
    assert_eq!(g.status(), GameStatus::Draw);
    assert_eq!(g.step_count(), 9);
    assert_eq!(g.update("1 1"), MoveResult::Finished);
}

#[test]
fn finished_game_takes_no_moves() {
    let mut g = GameState::with_first_player(CellState::O);
    play(&mut g, &["1 3", "1 1", "2 2", "1 2", "3 1"]);
    assert_eq!(g.winner(), Some(CellState::O));
    assert_eq!(g.update("3 3"), MoveResult::Finished);
    assert_eq!(g.cell(3, 3), None);
    assert_eq!(g.step_count(), 5);
}

#[test]
fn column_and_diagonal_lines_win() {
    let mut g = GameState::with_first_player(CellState::X);
    play(&mut g, &["1 2", "1 1", "2 2", "3 3", "3 2"]);
    assert_eq!(g.status(), GameStatus::Won(CellState::X));

    let mut h = GameState::with_first_player(CellState::O);
    play(&mut h, &["1 1", "1 2", "2 2", "1 3", "3 3"]);
    assert_eq!(h.winner(), Some(CellState::O));
}

#[test]
fn has_won_checks_one_mark() {
    let x = Some(CellState::X);
    let o = Some(CellState::O);
    let b = [x, o, None, x, o, None, x, None, None];
    assert!(has_won(&b, CellState::X));
    assert!(!has_won(&b, CellState::O));
    let empty = [None; 9];
    assert!(!has_won(&empty, CellState::X));
}

#[test]
fn marks_and_symbols() {
    assert_eq!(CellState::X.opponent(), CellState::O);
    assert_eq!(CellState::O.opponent(), CellState::X);
    assert_eq!(CellState::X.symbol(), 'X');
    assert_eq!(CellState::O.symbol(), 'O');
}

#[test]
fn win_records_a_line_of_the_player_to_move() {
    let mut g = GameState::with_first_player(CellState::X);
    assert_eq!(g.make_move("1 1"), MoveResult::Accepted);
    assert_eq!(g.make_move("2 2"), MoveResult::Accepted);
    assert_eq!(g.make_move("3 3"), MoveResult::Accepted);
    assert_eq!(g.make_move("3 3"), MoveResult::Occupied);
    assert_eq!(g.make_move("x"), MoveResult::Invalid);
    g.win();
    assert!(g.is_won());
    assert_eq!(g.who_moves(), CellState::X);
}
