//! Compiles a sorted set of escape pairs (a byte and the text that replaces
//! it) into a byte classification table and a compact comparison-group
//! encoding for vectorized scanners, and emits the code that binds them.
pub mod buffer;
pub mod generator;
pub mod pair;
pub mod ranges;
pub mod table;

pub use generator::{generate, Generator};
pub use pair::Pair;
