//! Quote decoding, request encoding and live terminal rendering for a
//! streaming stock quote client.

pub mod text;
pub mod invest;
pub mod number;
pub mod quote;
pub mod render;
pub mod display;
pub mod stream;
pub mod cli;
