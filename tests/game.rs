use tictactoe::game::{
    game_state_to_str, get_game_state, Cell, ChangeSelected, Game, GameState, Player, SelectedCell,
};
use tictactoe::game_logic::make_best_move;

const E: Cell = Cell::Empty;
const A: Cell = Cell::Player(Player::Player1);
const B: Cell = Cell::Player(Player::Player2);

fn won(player: Player, cells: Vec<usize>) -> GameState {
    GameState::GameWon { player, cells }
}

#[test]
fn classify_row_win() {
    let board = [A, A, A, B, B, E, E, E, E];
    assert_eq!(get_game_state(&board), won(Player::Player1, vec![0, 1, 2]));
}

#[test]
fn classify_column_win() {
    let board = [B, A, A, B, A, E, B, E, E];
    assert_eq!(get_game_state(&board), won(Player::Player2, vec![0, 3, 6]));
}

#[test]
fn classify_main_diagonal_win() {
    let board = [A, B, B, E, A, E, E, E, A];
    assert_eq!(get_game_state(&board), won(Player::Player1, vec![0, 4, 8]));
}

#[test]
fn classify_anti_diagonal_win() {
    let board = [A, A, B, E, B, E, B, E, A];
    assert_eq!(get_game_state(&board), won(Player::Player2, vec![2, 4, 6]));
}

#[test]
fn classify_reports_row_before_column() {
    let board = [A, A, A, A, B, B, A, B, B];
    assert_eq!(get_game_state(&board), won(Player::Player1, vec![0, 1, 2]));
}

#[test]
fn classify_reports_column_before_diagonal() {
    let board = [A, B, B, A, A, E, A, E, A];
    assert_eq!(get_game_state(&board), won(Player::Player1, vec![0, 3, 6]));
}

#[test]
fn classify_last_row_win_on_full_board() {
    let board = [A, B, A, A, B, B, B, B, B];
    assert_eq!(get_game_state(&board), won(Player::Player2, vec![6, 7, 8]));
}

#[test]
fn classify_open_boards_in_progress() {
    assert_eq!(get_game_state(&[E; 9]), GameState::InProgress);
    assert_eq!(get_game_state(&[A, B, A, A, B, B, B, A, E]), GameState::InProgress);
}

#[test]
fn classify_won_line_agrees_with_cells() {
    let board = [B, A, E, A, B, A, E, E, B];
    match get_game_state(&board) {
        GameState::GameWon { player, cells } => {
            assert_eq!(cells.len(), 3);
            for i in cells {
                assert_eq!(board[i], Cell::Player(player));
            }
        }
        other => panic!("expected a win, got {:?}", other),
    }
}

#[test]
fn game_states_compare_by_value() {
    assert_eq!(won(Player::Player1, vec![0, 1, 2]), won(Player::Player1, vec![0, 1, 2]));
    assert_ne!(won(Player::Player1, vec![0, 1, 2]), won(Player::Player1, vec![3, 4, 5]));
    assert_ne!(won(Player::Player1, vec![0, 1, 2]), won(Player::Player2, vec![0, 1, 2]));
    assert_ne!(GameState::Tie, GameState::InProgress);
    assert_eq!(GameState::Tie, GameState::Tie);
}

#[test]
fn status_text_for_each_state() {
    assert_eq!(game_state_to_str(&GameState::Tie), "Tie");
    assert_eq!(game_state_to_str(&GameState::InProgress), "In progress");
    assert_eq!(game_state_to_str(&won(Player::Player1, vec![0, 1, 2])), "Computer won");
    assert_eq!(game_state_to_str(&won(Player::Player2, vec![2, 4, 6])), "Player won");
}

#[test]
fn new_game_is_empty_without_cursor() {
    let game = Game::new();
    assert_eq!(game.get_cells(), vec![E; 9]);
    assert_eq!(game.get_selected_cell(), SelectedCell::NotSelected);
    assert_eq!(game.get_state(), GameState::InProgress);
}

#[test]
fn set_cell_state_fills_only_empty_cells() {
    let mut game = Game::new();
    assert!(game.set_cell_state(1, 2, B));
    assert_eq!(game.get_cell_state(1, 2), B);
    assert_eq!(game.get_cells()[7], B);
    assert!(!game.set_cell_state(1, 2, A));
    assert_eq!(game.get_cell_state(1, 2), B);
}

#[test]
fn cursor_appears_in_corner_then_steps() {
    let mut game = Game::new();
    game.move_selected_cell(ChangeSelected::Down);
    assert_eq!(game.get_selected_cell(), SelectedCell::Selected { x: 0, y: 0 });
    game.move_selected_cell(ChangeSelected::Right);
    assert_eq!(game.get_selected_cell(), SelectedCell::Selected { x: 1, y: 0 });
    game.move_selected_cell(ChangeSelected::Down);
    assert_eq!(game.get_selected_cell(), SelectedCell::Selected { x: 1, y: 1 });
    game.move_selected_cell(ChangeSelected::Left);
    assert_eq!(game.get_selected_cell(), SelectedCell::Selected { x: 0, y: 1 });
    game.move_selected_cell(ChangeSelected::Up);
    assert_eq!(game.get_selected_cell(), SelectedCell::Selected { x: 0, y: 0 });
}

#[test]
fn cursor_stays_at_edges() {
    let mut game = Game::new();
    game.select_cell(0, 0);
    game.move_selected_cell(ChangeSelected::Left);
    game.move_selected_cell(ChangeSelected::Up);
    assert_eq!(game.get_selected_cell(), SelectedCell::Selected { x: 0, y: 0 });
    game.select_cell(2, 2);
    game.move_selected_cell(ChangeSelected::Right);
    game.move_selected_cell(ChangeSelected::Down);
    assert_eq!(game.get_selected_cell(), SelectedCell::Selected { x: 2, y: 2 });
}

#[test]
fn cursor_frozen_once_game_is_won() {
    let mut game = Game::new();
    game.make_move(0, Player::Player1);
    game.make_move(1, Player::Player1);
    game.make_move(2, Player::Player1);
    game.select_cell(1, 1);
    game.move_selected_cell(ChangeSelected::Right);
    assert_eq!(game.get_selected_cell(), SelectedCell::Selected { x: 1, y: 1 });
}

#[test]
fn move_on_selected_cell() {
    let mut game = Game::new();
    assert!(!game.make_move_on_selected_cell(Player::Player2));
    assert_eq!(game.get_cells(), vec![E; 9]);
    game.select_cell(2, 1);
    assert!(game.make_move_on_selected_cell(Player::Player2));
    assert_eq!(game.get_cells()[5], B);
    assert!(!game.make_move_on_selected_cell(Player::Player1));
    assert_eq!(game.get_cells()[5], B);
}

#[test]
fn make_move_only_while_in_progress() {
    let mut game = Game::new();
    game.make_move(4, Player::Player2);
    assert_eq!(game.get_cell_state(1, 1), B);
    game.make_move(0, Player::Player1);
    game.make_move(1, Player::Player1);
    game.make_move(2, Player::Player1);
    assert_eq!(game.get_state(), won(Player::Player1, vec![0, 1, 2]));
    game.make_move(8, Player::Player2);
    assert_eq!(game.get_cells(), vec![A, A, A, E, B, E, E, E, E]);
}

#[test]
fn computer_answers_with_block() {
    let mut game = Game::new();
    game.make_move(0, Player::Player2);
    game.make_move(1, Player::Player2);
    game.make_move(3, Player::Player1);
    make_best_move(&mut game);
    assert_eq!(game.get_cells(), vec![B, B, A, A, E, E, E, E, E]);
}

#[test]
fn computer_does_not_move_after_game_ends() {
    let mut game = Game::new();
    for i in [0, 4, 8] {
        game.make_move(i, Player::Player2);
    }
    let before = game.get_cells();
    make_best_move(&mut game);
    assert_eq!(game.get_cells(), before);
}

#[test]
fn computer_opens_in_first_cell() {
    let mut game = Game::new();
    make_best_move(&mut game);
    assert_eq!(game.get_cells(), vec![A, E, E, E, E, E, E, E, E]);
}

#[test]
fn clear_restarts_game() {
    let mut game = Game::new();
    game.make_move(4, Player::Player2);
    game.select_cell(1, 1);
    game.clear();
    assert_eq!(game.get_cells(), vec![E; 9]);
    assert_eq!(game.get_selected_cell(), SelectedCell::NotSelected);
}

#[test]
fn associated_classifier_matches_free_function() {
    let board = [B, A, A, B, A, E, B, E, E];
    assert_eq!(Game::get_game_state(&board), get_game_state(&board));
}
