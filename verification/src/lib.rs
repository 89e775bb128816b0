//! Conway's Game of Life on a toroidal grid whose cells are packed one per bit.
//!
//! [`grid`] holds the mathematical model, [`laws`] what is proved of it,
//! [`universe`] the executable universe, and [`bitset`] what is taken on trust
//! about the bit set that stores the cells.

pub mod bitset;
pub mod grid;
pub mod laws;
pub mod universe;

pub use universe::Universe;
