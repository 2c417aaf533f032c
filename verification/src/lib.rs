//! A byte-machine interpreter for the eight-instruction tape language
//! (`< > + - . , [ ]`).
//!
//! * [`tape`] holds the machine's memory: a size-capped line of byte cells
//!   that grows in both directions and is addressed by a signed pointer.
//! * [`instruction`] defines the eight instructions and how source text is
//!   decoded into them.
//! * [`program`] holds the decoded instructions with a program counter and
//!   resolves loop jumps by matching brackets on the fly.
//! * [`runner`] drives a tape and a program with two byte-I/O capabilities,
//!   one step at a time or under a step budget.
//! * [`laws`] proves what holds of every execution, whatever the program and
//!   whatever the capabilities answer.
//!
//! Every executable function carries a contract over a mathematical view of
//! the data it works on. The one thing taken on trust is the declaration of
//! `std::io::Error`, the error type of the capabilities.

pub mod instruction;
pub mod laws;
pub mod program;
pub mod runner;
pub mod tape;

pub use instruction::Instruction;
pub use program::{MismatchedParen, Program, ProgramStepResult, ProgramView};
pub use runner::{IoOutcome, RunError, RunOutcome, RunResult, Runner, RunnerView};
pub use tape::{MaxSizeExceeded, Tape, TapeView};
