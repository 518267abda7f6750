//! Tic-tac-toe on a 3×3 board: terminal-state detection, and a minimax
//! search with alpha-beta pruning that picks the optimal move for the
//! automated player.
pub mod game;
pub mod game_logic;
