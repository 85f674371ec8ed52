//! Tools for a small two-register, 16-bit machine: a translator from a
//! stack-oriented virtual-machine language to the machine's assembly
//! mnemonics, an assembler from those mnemonics to binary words, and a
//! model of the machine, against which the emitted code is proved to do what
//! the commands of the virtual machine ask for.

pub mod assembler;
pub mod instruction;
pub mod listing;
pub mod machine;
pub mod numeral;
pub mod translator;
