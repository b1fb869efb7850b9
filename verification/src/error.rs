//! Error kinds visible across the kernel's boundaries.

use vstd::prelude::*;

verus! {

/// The error kinds the kernel core surfaces. Memory exhaustion comes from
/// the frame allocator or the heap; the rest arise in dispatch and IPC.
#[derive(Clone, Copy, Debug, PartialEq, Eq, Structural)]
pub enum KernelError {
    OutOfMemory,
    MappingExists,
    NotFound,
    InvalidArgument,
    Other,
}

impl KernelError {
    /// The negative `isize` a syscall returns for this error.
    pub open spec fn spec_code(self) -> int {
        match self {
            KernelError::OutOfMemory => -1,
            KernelError::MappingExists => -2,
            KernelError::NotFound => -3,
            KernelError::InvalidArgument => -4,
            KernelError::Other => -5,
        }
    }

    pub fn code(self) -> (r: isize)
        ensures
            r == self.spec_code(),
            r < 0,
    {
        match self {
            KernelError::OutOfMemory => -1,
            KernelError::MappingExists => -2,
            KernelError::NotFound => -3,
            KernelError::InvalidArgument => -4,
            KernelError::Other => -5,
        }
    }
}

} // verus!
