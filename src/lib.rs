pub mod cell;
pub mod universe;
