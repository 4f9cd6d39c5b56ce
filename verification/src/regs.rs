//! Register identities and the value/update model of the register mirror.
//!
//! The mirror is the hypervisor's general-register block plus the two
//! model-specific base registers, which are addressed separately because
//! they are not part of the general-register block.

use vstd::prelude::*;

verus! {

/// The registers a caller can read and write on the mirror.
#[derive(Copy, Clone, Debug, PartialEq, Eq, Structural)]
pub enum Register {
    /// RAX
    Rax,
    /// RBX
    Rbx,
    /// RCX
    Rcx,
    /// RDX
    Rdx,
    /// RSI
    Rsi,
    /// RDI
    Rdi,
    /// RSP
    Rsp,
    /// RBP
    Rbp,
    /// R8
    R8,
    /// R9
    R9,
    /// R10
    R10,
    /// R11
    R11,
    /// R12
    R12,
    /// R13
    R13,
    /// R14
    R14,
    /// R15
    R15,
    /// RIP
    Rip,
    /// RFLAGS
    Rflags,
    /// FS base
    FsBase,
    /// GS base
    GsBase,
}

/// Value of register `id` in a mirror made of the general-register block
/// `regs` and the two base registers.
pub open spec fn reg_value(
    regs: kvm_bindings::kvm_regs,
    fs_base: u64,
    gs_base: u64,
    id: Register,
) -> u64 {
    match id {
        Register::Rax => regs.rax,
        Register::Rbx => regs.rbx,
        Register::Rcx => regs.rcx,
        Register::Rdx => regs.rdx,
        Register::Rsi => regs.rsi,
        Register::Rdi => regs.rdi,
        Register::Rsp => regs.rsp,
        Register::Rbp => regs.rbp,
        Register::R8 => regs.r8,
        Register::R9 => regs.r9,
        Register::R10 => regs.r10,
        Register::R11 => regs.r11,
        Register::R12 => regs.r12,
        Register::R13 => regs.r13,
        Register::R14 => regs.r14,
        Register::R15 => regs.r15,
        Register::Rip => regs.rip,
        Register::Rflags => regs.rflags,
        Register::FsBase => fs_base,
        Register::GsBase => gs_base,
    }
}

/// Reads register `id` from a mirror.
pub fn reg_read(
    regs: &kvm_bindings::kvm_regs,
    fs_base: u64,
    gs_base: u64,
    id: Register,
) -> (r: u64)
    ensures
        r == reg_value(*regs, fs_base, gs_base, id),
{
    match id {
        Register::Rax => regs.rax,
        Register::Rbx => regs.rbx,
        Register::Rcx => regs.rcx,
        Register::Rdx => regs.rdx,
        Register::Rsi => regs.rsi,
        Register::Rdi => regs.rdi,
        Register::Rsp => regs.rsp,
        Register::Rbp => regs.rbp,
        Register::R8 => regs.r8,
        Register::R9 => regs.r9,
        Register::R10 => regs.r10,
        Register::R11 => regs.r11,
        Register::R12 => regs.r12,
        Register::R13 => regs.r13,
        Register::R14 => regs.r14,
        Register::R15 => regs.r15,
        Register::Rip => regs.rip,
        Register::Rflags => regs.rflags,
        Register::FsBase => fs_base,
        Register::GsBase => gs_base,
    }
}

/// Writes register `id` in a mirror: the named register takes the value
/// and every other register keeps its own.
pub fn reg_write(
    regs: &mut kvm_bindings::kvm_regs,
    fs_base: &mut u64,
    gs_base: &mut u64,
    id: Register,
    value: u64,
)
    ensures
        forall|x: Register|
            reg_value(*final(regs), *final(fs_base), *final(gs_base), x) == (if x == id {
                value
            } else {
                reg_value(*old(regs), *old(fs_base), *old(gs_base), x)
            }),
{
    match id {
        Register::Rax => regs.rax = value,
        Register::Rbx => regs.rbx = value,
        Register::Rcx => regs.rcx = value,
        Register::Rdx => regs.rdx = value,
        Register::Rsi => regs.rsi = value,
        Register::Rdi => regs.rdi = value,
        Register::Rsp => regs.rsp = value,
        Register::Rbp => regs.rbp = value,
        Register::R8 => regs.r8 = value,
        Register::R9 => regs.r9 = value,
        Register::R10 => regs.r10 = value,
        Register::R11 => regs.r11 = value,
        Register::R12 => regs.r12 = value,
        Register::R13 => regs.r13 = value,
        Register::R14 => regs.r14 = value,
        Register::R15 => regs.r15 = value,
        Register::Rip => regs.rip = value,
        Register::Rflags => regs.rflags = value,
        Register::FsBase => *fs_base = value,
        Register::GsBase => *gs_base = value,
    }
}

/// Writing one register and reading it back yields the written value, and
/// every other register keeps its value: the mirror half of the register
/// round trip.
pub proof fn lemma_register_round_trip(
    before: kvm_bindings::kvm_regs,
    fs_before: u64,
    gs_before: u64,
    after: kvm_bindings::kvm_regs,
    fs_after: u64,
    gs_after: u64,
    id: Register,
    v: u64,
)
    requires
        forall|x: Register|
            reg_value(after, fs_after, gs_after, x) == if x == id {
                v
            } else {
                reg_value(before, fs_before, gs_before, x)
            },
    ensures
        reg_value(after, fs_after, gs_after, id) == v,
        forall|x: Register|
            x != id ==> reg_value(after, fs_after, gs_after, x) == reg_value(
                before,
                fs_before,
                gs_before,
                x,
            ),
{
}

} // verus!
