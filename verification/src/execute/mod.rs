//! Running one job: the supervisor of a child process.

pub mod child;
