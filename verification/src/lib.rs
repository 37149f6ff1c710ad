//! A tape machine in the Brainfuck family with five extra operations for raw
//! TCP networking.
//!
//! The library has two parts. The parser turns source text into an operation
//! tree: [`parser::parse`]. The machine interprets such a tree one step at a
//! time: it says what outside work the next step needs ([`vm::VM::pending`]),
//! the host does that work on its streams and sockets, and the machine takes
//! the step with the host's reply ([`vm::VM::step`]). The machine never
//! touches a stream or a socket itself.
//!
//! What the functions promise is stated over mathematical models:
//! [`syntax::parse_text`] says what a text means, [`machine::Machine`] says
//! what an operation does to the machine, and [`run::next_levels`] says how
//! a run moves through a program.

pub mod balance;
pub mod error;
pub mod machine;
pub mod op;
pub mod parser;
pub mod render;
pub mod run;
pub mod syntax;
pub mod tape;
pub mod vm;

pub use crate::error::TrainfuckError;
pub use crate::machine::{Endpoint, Reply, Request};
pub use crate::op::Op;
pub use crate::parser::parse;
pub use crate::run::Run;
pub use crate::vm::VM;
