//! An executable model of the Sophon microkernel's resource-management core.
//!
//! The crate covers the kernel's three hard subsystems: virtual memory (typed
//! addresses, a four-level page table, a physical frame allocator, and a
//! buddy-style kernel heap), tasks and scheduling (a FIFO run queue with
//! time slicing and blocking), and the syscall / module-call dispatch layer.
//! Machine state that the real kernel reaches through raw pointers — page
//! table frames, free-list links threaded through free cells, user memory —
//! is held here in explicit structures, so that every invariant the design
//! relies on is stated and checked.

pub mod addr;
pub mod error;
pub mod heap;
pub mod kernel;
pub mod page_table;
pub mod physical;
pub mod sched;
pub mod scheme;
pub mod sync;
pub mod syscall;
