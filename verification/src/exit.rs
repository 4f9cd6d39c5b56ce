//! Exit reasons handed to the embedder, and the page-fault status decoding.

use vstd::prelude::*;
use crate::memory::MemoryError;
use crate::snapshot::SnapshotError;

verus! {

/// Details behind a page-fault exit, taken from the exception error code and
/// the faulting address register.
#[derive(Debug, Copy, Clone, PartialEq, Eq, Structural)]
pub struct PageFaultDetail {
    /// Page fault status code, from the exception frame's error code.
    pub status: u32,
    /// Address of the access which caused the fault.
    pub address: u64,
}

/// Bit 0 of the status clear: the fault hit a page that was not present.
pub open spec fn pf_unmapped(status: u32) -> bool {
    status & 1 == 0
}

/// Bit 1 of the status clear: the faulting access was a read.
pub open spec fn pf_read(status: u32) -> bool {
    status & 2 == 0
}

/// Bit 1 of the status set: the faulting access was a write.
pub open spec fn pf_write(status: u32) -> bool {
    status & 2 != 0
}

/// Bit 15 of the status set: the faulting access was an instruction fetch.
pub open spec fn pf_instruction_fetch(status: u32) -> bool {
    status & 0x8000 != 0
}

impl PageFaultDetail {
    /// Returns true if the faulty access was made to unmapped memory.
    pub fn unmapped(&self) -> (r: bool)
        ensures
            r == pf_unmapped(self.status),
    {
        self.status & 1 == 0
    }

    /// Returns true if the faulty access was a read.
    pub fn read(&self) -> (r: bool)
        ensures
            r == pf_read(self.status),
    {
        self.status & 2 == 0
    }

    /// Returns true if the faulty access was a write.
    pub fn write(&self) -> (r: bool)
        ensures
            r == pf_write(self.status),
    {
        !self.read()
    }

    /// Returns true if the faulty access was an instruction fetch.
    pub fn instruction_fetch(&self) -> (r: bool)
        ensures
            r == pf_instruction_fetch(self.status),
    {
        self.status & 0x8000 != 0
    }
}

/// The status bits decode as the architecture lays the error code out: bit 0
/// alone decides presence, bit 1 alone splits every fault into exactly one
/// of read and write, and bit 15 alone decides instruction fetch.
pub proof fn lemma_page_fault_decoding(status: u32)
    ensures
        pf_unmapped(status) <==> (status >> 0) & 1 == 0,
        pf_read(status) <==> (status >> 1) & 1 == 0,
        pf_write(status) <==> (status >> 1) & 1 == 1,
        pf_write(status) == !pf_read(status),
        pf_instruction_fetch(status) <==> (status >> 15) & 1 == 1,
{
    assert((status & 1 == 0) <==> (status >> 0) & 1 == 0) by (bit_vector);
    assert((status & 2 == 0) <==> (status >> 1) & 1 == 0) by (bit_vector);
    assert((status & 2 != 0) <==> (status >> 1) & 1 == 1) by (bit_vector);
    assert((status & 0x8000 != 0) <==> (status >> 15) & 1 == 1) by (bit_vector);
}

/// How the hypervisor's run call came back, before classification: the
/// raw material the run loop turns into a `VmExit`.
#[derive(Copy, Clone, Debug, PartialEq, Eq, Structural)]
pub enum HvRunRaw {
    /// A debug trap: a software breakpoint or a single step.
    Debug,
    /// The guest ran a halt instruction.
    Hlt,
    /// Any other exit the hypervisor reports.
    Other,
    /// The run call itself failed, with this error number.
    Failed(i32),
}

/// Why the guest stopped, as reported to the embedder.
#[derive(Copy, Clone, Debug, PartialEq, Eq, Structural)]
pub enum VmExit {
    /// The guest ran a halt instruction of its own.
    Hlt,
    /// The guest hit a breakpoint instruction or a single step.
    Breakpoint,
    /// The hypervisor call was interrupted by a signal.
    Interrupted,
    /// The guest ran an instruction the processor refused.
    InvalidInstruction,
    /// The guest took a page fault.
    PageFault(PageFaultDetail),
    /// The guest took an exception with this vector.
    Exception(u64),
    /// The guest ran a syscall instruction.
    Syscall,
    /// The hypervisor reported an exit this library does not handle.
    Unhandled,
}

/// Error raised by a virtual-machine operation.
#[derive(Clone, Debug, PartialEq, Eq)]
pub enum VmError {
    /// Error during a guest-memory access.
    MemoryError(MemoryError),
    /// Error during snapshot loading.
    SnapshotError(SnapshotError),
    /// Hypervisor error, with a fixed short reason.
    HvError(&'static str),
}

impl From<MemoryError> for VmError {
    fn from(err: MemoryError) -> (r: VmError) {
        VmError::MemoryError(err)
    }
}

impl vstd::std_specs::convert::FromSpecImpl<MemoryError> for VmError {
    open spec fn obeys_from_spec() -> bool {
        true
    }

    open spec fn from_spec(err: MemoryError) -> VmError {
        VmError::MemoryError(err)
    }
}

impl From<SnapshotError> for VmError {
    fn from(err: SnapshotError) -> (r: VmError) {
        VmError::SnapshotError(err)
    }
}

impl vstd::std_specs::convert::FromSpecImpl<SnapshotError> for VmError {
    open spec fn obeys_from_spec() -> bool {
        true
    }

    open spec fn from_spec(err: SnapshotError) -> VmError {
        VmError::SnapshotError(err)
    }
}

} // verus!
