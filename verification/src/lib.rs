//! The core of a tool that runs one command per input argument, in parallel:
//! a bounded-memory stream of newline-delimited arguments, and the decisions
//! of the supervisor that runs one child process under an optional deadline.
//!
//! Nothing in this crate touches a file or a process. Whoever drives it reads
//! the file and runs the child, and reports what happened; every decision is
//! taken here.

pub mod arguments;
pub mod execute;
