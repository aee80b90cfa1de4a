//! A small, total, purely functional computation core: two-valued booleans,
//! signed unary (Peano-style) numerals, immutable singly-linked lists, and a
//! `Function` abstraction with generic combinators, on top of which sit an
//! N-Queens solution enumerator and a single-generation step of Conway's Game
//! of Life. Every operation is a value transformation with an exact contract;
//! rendering and program startup live outside this crate.

pub mod booleans;
pub mod errors;
pub mod functions;
pub mod gameoflife;
pub mod lists;
pub mod nqueens;
pub mod numbers;
