//! Input arguments: the record format, the stream that yields them, and the
//! flags that the rest of the tool reads.

use vstd::prelude::*;

pub mod disk_buffer;
pub mod errors;
pub mod indices;
pub mod iterator;
pub mod model;
pub mod reading;
pub mod records;

verus! {

/// The flag bit that silences the mirroring of a job's output to the terminal.
pub const QUIET_MODE: u16 = 8;

} // verus!
