//! A CHIP-8 interpreter whose every instruction is proved against a
//! mathematical model of the machine.
pub mod font;
pub mod keymap;
pub mod laws;
pub mod machine;
pub mod semantics;

pub use machine::Chip8;
pub use semantics::Chip8Error;
