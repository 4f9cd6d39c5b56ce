//! Snapshot records: the mappings and register block that a snapshot
//! manifest describes, as plain values. Reading and parsing the files that
//! carry them is the embedder's business.

use vstd::prelude::*;
use crate::memory::PagePermissions;

verus! {

/// Error raised while loading a snapshot.
#[derive(Clone, Debug, PartialEq, Eq)]
pub enum SnapshotError {
    /// The manifest or the memory dump could not be read.
    IoError(String),
    /// The manifest does not describe a loadable snapshot.
    ParseError(String),
}

/// One mapping of a snapshot manifest.
#[derive(Clone, Copy, Debug, PartialEq, Eq, Structural)]
pub struct SnapshotMapping {
    /// First virtual address of the mapping.
    pub start: u64,
    /// One past the last virtual address of the mapping.
    pub end: u64,
    /// Guest access rights of the mapping.
    pub permissions: PagePermissions,
    /// Offset of the mapping's bytes inside the memory dump.
    pub physical_offset: u64,
}

/// The register block of a snapshot.
#[derive(Clone, Copy, Debug, PartialEq, Eq, Structural, Default)]
pub struct SnapshotRegisters {
    /// RAX
    pub rax: u64,
    /// RBX
    pub rbx: u64,
    /// RCX
    pub rcx: u64,
    /// RDX
    pub rdx: u64,
    /// RSI
    pub rsi: u64,
    /// RDI
    pub rdi: u64,
    /// RSP
    pub rsp: u64,
    /// RBP
    pub rbp: u64,
    /// R8
    pub r8: u64,
    /// R9
    pub r9: u64,
    /// R10
    pub r10: u64,
    /// R11
    pub r11: u64,
    /// R12
    pub r12: u64,
    /// R13
    pub r13: u64,
    /// R14
    pub r14: u64,
    /// R15
    pub r15: u64,
    /// RIP
    pub rip: u64,
    /// RFLAGS
    pub rflags: u64,
    /// FS base
    pub fs_base: u64,
    /// GS base
    pub gs_base: u64,
}

/// A parsed snapshot: the mappings to install and the registers to load.
#[derive(Clone, Debug, PartialEq, Eq)]
pub struct SnapshotInfo {
    /// The mappings, each copied from the memory dump.
    pub mappings: Vec<SnapshotMapping>,
    /// The register block to install.
    pub registers: SnapshotRegisters,
}

} // verus!
