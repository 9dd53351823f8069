//! A 9×9 number-placement puzzle engine: the grid model, the duplicate
//! check, board generation, the field store and the façade over them.

pub mod grid;
pub mod grid_laws;
pub mod units;
mod tally;
pub mod validation;
pub mod validation_laws;
pub mod store;
pub mod generator;
pub mod local_fill;
pub mod logic;
pub mod controller;
