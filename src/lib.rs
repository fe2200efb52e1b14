//! Tic-tac-toe on a 3×3 board: coordinate validation, move application,
//! win and draw detection, and turn bookkeeping.

pub mod coords;
pub mod board;
pub mod game;
