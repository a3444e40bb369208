//! Search for a knight-move path over a 10x10 board whose visited cells are
//! spread evenly over rows, columns and irregular regions.
pub mod geometry;
pub mod regions;
pub mod state;
pub mod search;
pub mod puzzle;
