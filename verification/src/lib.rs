//! Line navigator: a verified core for inspecting a text file by lines.
//!
//! The library models a text file as the sequence of its newline-delimited
//! lines and offers three operations over that model: counting the lines,
//! viewing a window of lines around a given 1-indexed line number, and
//! searching every line for a literal byte-string keyword.  Command parsing
//! for the interactive prompt is verified here as well; reading the file and
//! the prompt loop itself are left to the surrounding binary.

pub mod bytes;
pub mod lines;
pub mod numbers;
pub mod command;
pub mod search;
pub mod window;
pub mod navigator;
