//! Byte-granularity memory-access validation: a shadow tracker that records,
//! for every byte of a fixed address space, whether it is unallocated,
//! allocated but uninitialised, or allocated and initialised, together with
//! an allocation registry that predicts the tracker's allocate/free verdicts.
pub mod agreement;
mod draw;
pub mod oracle;
pub mod shadow;
pub mod valid;

pub use agreement::replay;
pub use oracle::{
    is_free_valid, is_malloc_valid, no_allocs_in_range, Allocation, BuggyCommandSequence,
    BuggyCommandSequenceState, Command,
};
pub use shadow::{AccessError, MemState, Valgrind};
