//! A sans-I/O scanner for whitespace-delimited input.
//!
//! The scanner holds one line of bytes at a time together with a cursor, hands
//! out the tokens of that line in order, and converts each token to the type
//! the caller asks for. Reading the lines is the caller's business: whenever
//! the current line is used up the scanner says so, and the caller feeds it
//! the next one.

pub mod convert;
pub mod gaps;
pub mod number;
pub mod scanner;
pub mod stream;
pub mod text;
pub mod token;
