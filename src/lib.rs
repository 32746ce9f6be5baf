//! Conway's Game of Life on a toroidal grid, with verified stepping,
//! seeding and pattern stamping.

pub mod seed;
pub mod universe;
pub mod laws;

pub use seed::Seed;
pub use universe::{Cell, Universe};
