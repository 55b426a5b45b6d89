//! What holds of the library as a whole. Laws about an operation speak of every result that a
//! call of it can give.

pub mod decimals;
pub mod flags;
pub mod hearing;
pub mod number;
pub mod output;
pub mod progress;
pub mod puzzle;
pub mod rounding;
pub mod rows;
pub mod session;
pub mod settings;
pub mod source;
pub mod text;
pub mod uci;
