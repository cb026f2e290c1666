//! A Brainfuck toolchain: a parser from program text to a tree of bytecode
//! instructions, a set of peephole optimisations over that tree, and an
//! interpreter driven one step at a time by its caller, who supplies the
//! bytes it reads and shows the bytes it writes.

pub mod bytecode;
pub mod optimize;
pub mod parse;
pub mod interpreter;
pub mod semantics;
pub mod laws;
pub mod simulation;
pub mod shape;
mod text;

pub use bytecode::{ByteCodeObject, Op};
pub use interpreter::{Action, ByteCodeInterpreter, Machine, TAPE_LEN};
pub use parse::is_balanced;
