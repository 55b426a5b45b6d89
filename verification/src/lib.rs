//! Testing chess engines by puzzles.
//!
//! The library holds what the program decides: how it reads its command line, the rows of
//! the puzzle database and the lines of an engine, which commands it sends, and what it
//! prints. Files, processes and threads are the program's.

pub mod banner;
pub mod error;
pub mod laws;
pub mod number;
pub mod progress;
pub mod puzzle;
pub mod rounding;
pub mod session;
pub mod settings;
pub mod source;
pub mod text;
pub mod uci;
