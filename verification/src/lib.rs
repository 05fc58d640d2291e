//! Decomposes one character, given as its encoded bytes, into a structured
//! display: the Unicode code point, its binary payload bits, the raw byte
//! framing, and the hexadecimal bytes.

pub mod error;
pub mod parser;
pub mod renderer;
pub mod string;
pub mod unicode;
