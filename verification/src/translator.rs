//! Translation of stack-machine commands into assembly mnemonics: the
//! tokenizer, the command dispatcher and the emission engine, and what is
//! proved of the names the engine makes up, of the effect of the code it
//! emits, and of the text it writes.

pub mod effect;
pub mod emitter;
pub mod lexer;
pub mod naming;
pub mod parser;
pub mod tokens;
pub mod written;
