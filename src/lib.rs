//! An interpreter for the eight-instruction tape-machine language
//! (`>` `<` `+` `-` `.` `,` `[` `]`), with every step of execution
//! specified and proved.
pub mod bits;
pub mod brackets;
pub mod laws;
pub mod machine;
pub mod text;

pub use machine::{BfError, Pause, Program, WrapPolicy, ITERATION_LIMIT};
