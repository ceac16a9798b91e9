//! A tic-tac-toe engine: board and move-set state, move validation,
//! win and draw detection, and a greedy opponent that wins when it can,
//! blocks when it must, and otherwise plays a random free cell.

pub mod board;
pub mod game;
pub mod text;
