//! Assembly of mnemonic text into binary words: the lexer, the two passes
//! that gather the instructions and settle the symbols, the generator of
//! the binary text, and the proof that the assembler reads a listing back
//! from its text.

pub mod generator;
pub mod lexer;
pub mod parser;
pub mod reading;
