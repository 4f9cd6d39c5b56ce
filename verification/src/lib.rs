//! A minimal hardware-accelerated virtual machine for x86-64 guest code:
//! the execution substrate for a snapshot-based fuzzer or dynamic
//! analyzer. It runs short bursts of raw guest code under hypervisor
//! isolation, stops on well-defined events — exceptions, halts,
//! breakpoints, emulated syscalls — lets the host inspect and mutate
//! processor and memory state, and resets the guest to a known baseline
//! between runs from the hypervisor's dirty log.
//!
//! The guest boots straight into flat 64-bit ring-0 mode with paging on;
//! every exception funnels through a page of per-vector trampolines into
//! the host, which reconstructs the exception frame and reports a typed
//! exit. The two hypervisor controls that hand raw host memory or raw
//! pointers to the kernel — registering the memory slot and clearing the
//! dirty log — are left to the embedder, which performs them with the
//! plain descriptions this library supplies.

use vstd::prelude::*;

mod hv;
pub mod dirty;
pub mod exit;
pub mod memory;
pub mod regs;
pub mod snapshot;
pub mod vm;
pub mod x64;

pub use vm::Vm;

pub use exit::PageFaultDetail;
pub use exit::VmError;
pub use exit::VmExit;
pub use memory::Mapping;
pub use memory::MemoryError;
pub use memory::PagePermissions;
pub use memory::VirtualMemory;
pub use memory::PAGE_SIZE;
pub use regs::Register;
pub use snapshot::SnapshotError;
pub use snapshot::SnapshotInfo;
pub use snapshot::SnapshotMapping;
pub use snapshot::SnapshotRegisters;
