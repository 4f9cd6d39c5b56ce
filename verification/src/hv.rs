//! The trusted boundary to the hypervisor: declarations of the handle types
//! and one wrapper per hypervisor call the library makes. Every contract
//! here is believed, not proved; each doc comment names the outside
//! function relied on. Outcomes of these calls depend on the machine, so
//! the wrappers promise nothing about them beyond their shape.

use vstd::prelude::*;
use crate::exit::HvRunRaw;
use crate::memory::VirtualMemory;

verus! {

#[verifier::external_type_specification]
pub struct ExKvmRegs(kvm_bindings::kvm_regs);

#[verifier::external_type_specification]
pub struct ExKvmSegment(kvm_bindings::kvm_segment);

#[verifier::external_type_specification]
pub struct ExKvmDtable(kvm_bindings::kvm_dtable);

#[verifier::external_type_specification]
pub struct ExKvmSregs(kvm_bindings::kvm_sregs);

#[verifier::external_type_specification]
#[verifier::external_body]
pub struct ExKvm(kvm_ioctls::Kvm);

#[verifier::external_type_specification]
#[verifier::external_body]
pub struct ExVmFd(kvm_ioctls::VmFd);

#[verifier::external_type_specification]
#[verifier::external_body]
pub struct ExVcpuFd(kvm_ioctls::VcpuFd);

/// The hypervisor ABI version this library is written against, as the
/// interface's headers state it.
pub const HV_API_VERSION: i32 = 12;

/// Capability number of the manual dirty-log-protect facility, second
/// revision, as the interface's headers state it.
pub const HV_CAP_MANUAL_DIRTY_LOG_PROTECT2: u64 = 168;

/// Model-specific register holding the FS segment base.
const IA32_FS_BASE: u32 = 0xC000_0100;

/// Model-specific register holding the GS segment base.
const IA32_GS_BASE: u32 = 0xC000_0101;

/// Relies on kvm_ioctls::Kvm::new: opens the hypervisor device.
#[verifier::external_body]
pub fn kvm_open() -> (r: Option<kvm_ioctls::Kvm>) {
    kvm_ioctls::Kvm::new().ok()
}

/// Relies on kvm_ioctls::Kvm::get_api_version: reports the ABI version of
/// the running hypervisor.
#[verifier::external_body]
pub fn kvm_api_version(kvm: &kvm_ioctls::Kvm) -> (r: i32) {
    kvm.get_api_version()
}

/// Relies on kvm_ioctls::Kvm::check_extension with Cap::SyncRegs: whether
/// the shared run area carries synchronized register blocks.
#[verifier::external_body]
pub fn kvm_has_sync_regs(kvm: &kvm_ioctls::Kvm) -> (r: bool) {
    kvm.check_extension(kvm_ioctls::Cap::SyncRegs)
}

/// Relies on kvm_ioctls::Kvm::check_extension_raw: the raw capability
/// query; positive means present.
#[verifier::external_body]
pub fn kvm_check_extension_raw(kvm: &kvm_ioctls::Kvm, cap: u64) -> (r: i32) {
    kvm.check_extension_raw(cap)
}

/// Relies on kvm_ioctls::Kvm::create_vm: creates a virtual machine handle.
#[verifier::external_body]
pub fn kvm_create_vm(kvm: &kvm_ioctls::Kvm) -> (r: Option<kvm_ioctls::VmFd>) {
    kvm.create_vm().ok()
}

/// Relies on kvm_ioctls::VmFd::enable_cap: turns on manual
/// dirty-log-protect for this virtual machine.
#[verifier::external_body]
pub fn vm_enable_manual_dirty_log(vm: &kvm_ioctls::VmFd) -> (r: bool) {
    let mut cap = kvm_bindings::kvm_enable_cap::default();
    cap.cap = kvm_bindings::KVM_CAP_MANUAL_DIRTY_LOG_PROTECT2;
    cap.args[0] = kvm_bindings::KVM_DIRTY_LOG_MANUAL_PROTECT_ENABLE as u64;
    vm.enable_cap(&cap).is_ok()
}

/// Relies on kvm_ioctls::VmFd::create_vcpu: creates the virtual processor.
#[verifier::external_body]
pub fn vm_create_vcpu(vm: &kvm_ioctls::VmFd, id: u64) -> (r: Option<kvm_ioctls::VcpuFd>) {
    vm.create_vcpu(id).ok()
}

/// Relies on kvm_ioctls::VmFd::set_tss_address: points the hypervisor's
/// scratch task-state area at the given guest physical address.
#[verifier::external_body]
pub fn vm_set_tss_address(vm: &kvm_ioctls::VmFd, offset: usize) -> (r: bool) {
    vm.set_tss_address(offset).is_ok()
}

/// Relies on kvm_ioctls::VmFd::get_dirty_log: the dirty bitmap of a memory
/// slot, one bit per page in 64-bit words. What the words hold depends on
/// what the guest has written, so nothing is promised of them.
#[verifier::external_body]
pub fn vm_get_dirty_log(vm: &kvm_ioctls::VmFd, slot: u32, memory_size: usize) -> (r: Option<
    Vec<u64>,
>) {
    vm.get_dirty_log(slot, memory_size).ok()
}

/// Relies on kvm_ioctls::VcpuFd::set_guest_debug: traps software
/// breakpoints to the host instead of the guest's own handlers.
#[verifier::external_body]
pub fn vcpu_enable_sw_breakpoints(vcpu: &kvm_ioctls::VcpuFd) -> (r: bool) {
    let debug = kvm_bindings::kvm_guest_debug {
        control: kvm_bindings::KVM_GUESTDBG_ENABLE | kvm_bindings::KVM_GUESTDBG_USE_SW_BP,
        pad: 0,
        arch: Default::default(),
    };
    vcpu.set_guest_debug(&debug).is_ok()
}

/// Relies on kvm_ioctls::VcpuFd::get_regs: the processor's current
/// general registers.
#[verifier::external_body]
pub fn vcpu_get_regs(vcpu: &kvm_ioctls::VcpuFd) -> (r: Option<kvm_bindings::kvm_regs>) {
    vcpu.get_regs().ok()
}

/// Relies on kvm_ioctls::VcpuFd::set_regs: installs general registers.
#[verifier::external_body]
pub fn vcpu_set_regs(vcpu: &kvm_ioctls::VcpuFd, regs: &kvm_bindings::kvm_regs) -> (r: bool) {
    vcpu.set_regs(regs).is_ok()
}

/// Relies on kvm_ioctls::VcpuFd::get_sregs: the processor's current
/// special registers.
#[verifier::external_body]
pub fn vcpu_get_sregs(vcpu: &kvm_ioctls::VcpuFd) -> (r: Option<kvm_bindings::kvm_sregs>) {
    vcpu.get_sregs().ok()
}

/// Relies on kvm_ioctls::VcpuFd::set_sregs: installs special registers.
#[verifier::external_body]
pub fn vcpu_set_sregs(vcpu: &kvm_ioctls::VcpuFd, sregs: &kvm_bindings::kvm_sregs) -> (r: bool) {
    vcpu.set_sregs(sregs).is_ok()
}

/// Relies on kvm_ioctls::VcpuFd::set_msrs: writes the FS and GS base
/// model-specific registers.
#[verifier::external_body]
pub fn vcpu_set_base_msrs(vcpu: &kvm_ioctls::VcpuFd, fs_base: u64, gs_base: u64) -> (r: bool) {
    let entries = [
        kvm_bindings::kvm_msr_entry { index: IA32_FS_BASE, data: fs_base, ..Default::default() },
        kvm_bindings::kvm_msr_entry { index: IA32_GS_BASE, data: gs_base, ..Default::default() },
    ];
    let msrs = match kvm_bindings::Msrs::from_entries(&entries) {
        Ok(m) => m,
        Err(_) => return false,
    };
    matches!(vcpu.set_msrs(&msrs), Ok(2))
}

/// Relies on kvm_ioctls::VcpuFd::get_msrs: reads the FS and GS base
/// model-specific registers; yields a value only when the hypervisor
/// returned exactly the two entries asked for.
#[verifier::external_body]
pub fn vcpu_get_base_msrs(vcpu: &kvm_ioctls::VcpuFd) -> (r: Option<(u64, u64)>) {
    let entries = [
        kvm_bindings::kvm_msr_entry { index: IA32_FS_BASE, ..Default::default() },
        kvm_bindings::kvm_msr_entry { index: IA32_GS_BASE, ..Default::default() },
    ];
    let mut msrs = kvm_bindings::Msrs::from_entries(&entries).ok()?;
    match vcpu.get_msrs(&mut msrs) {
        Ok(2) => {
            let s = msrs.as_slice();
            Some((s[0].data, s[1].data))
        },
        _ => None,
    }
}

/// Relies on kvm_ioctls::VcpuFd::sync_regs: the register blocks the
/// hypervisor copied into the shared run area on the last exit.
#[verifier::external_body]
pub fn vcpu_sync_read(vcpu: &kvm_ioctls::VcpuFd) -> (r: (
    kvm_bindings::kvm_regs,
    kvm_bindings::kvm_sregs,
)) {
    let s = vcpu.sync_regs();
    (s.regs, s.sregs)
}

/// Relies on kvm_ioctls::VcpuFd::sync_regs_mut: places register blocks in
/// the shared run area for the hypervisor to load on the next entry.
#[verifier::external_body]
pub fn vcpu_sync_write(
    vcpu: &mut kvm_ioctls::VcpuFd,
    regs: &kvm_bindings::kvm_regs,
    sregs: &kvm_bindings::kvm_sregs,
) {
    let s = vcpu.sync_regs_mut();
    s.regs = *regs;
    s.sregs = *sregs;
}

/// Relies on kvm_ioctls::VcpuFd::set_sync_valid_reg: asks the hypervisor
/// to copy both register blocks out on every exit.
#[verifier::external_body]
pub fn vcpu_mark_sync_valid(vcpu: &mut kvm_ioctls::VcpuFd) {
    vcpu.set_sync_valid_reg(kvm_ioctls::SyncReg::Register);
    vcpu.set_sync_valid_reg(kvm_ioctls::SyncReg::SystemRegister);
}

/// Relies on kvm_ioctls::VcpuFd::set_sync_dirty_reg: marks both register
/// blocks in the run area as modified, so the hypervisor loads them on the
/// next entry.
#[verifier::external_body]
pub fn vcpu_mark_sync_dirty(vcpu: &mut kvm_ioctls::VcpuFd) {
    vcpu.set_sync_dirty_reg(kvm_ioctls::SyncReg::Register);
    vcpu.set_sync_dirty_reg(kvm_ioctls::SyncReg::SystemRegister);
}

/// Relies on kvm_ioctls::VcpuFd::clear_sync_dirty_reg: withdraws the
/// modified marks, so the hypervisor keeps its own register state.
#[verifier::external_body]
pub fn vcpu_clear_sync_dirty(vcpu: &mut kvm_ioctls::VcpuFd) {
    vcpu.clear_sync_dirty_reg(kvm_ioctls::SyncReg::Register);
    vcpu.clear_sync_dirty_reg(kvm_ioctls::SyncReg::SystemRegister);
}

/// Relies on kvm_ioctls::VcpuFd::run: enters the guest and reports how it
/// left, telling the exit variants apart; a failure carries the raw error
/// number. The guest may write bytes anywhere in the registered backing
/// store, so the call takes the guest memory and promises only that its
/// size and the host-side page records — mappings, rights, frames and
/// software dirty flags, which the kernel never touches — survive.
#[verifier::external_body]
pub fn vcpu_run(vcpu: &mut kvm_ioctls::VcpuFd, mem: &mut VirtualMemory) -> (r: HvRunRaw)
    ensures
        final(mem).phys().len() == old(mem).phys().len(),
        final(mem).wf() == old(mem).wf(),
        forall|b: u64| #[trigger] final(mem).is_mapped(b) <==> old(mem).is_mapped(b),
        forall|b: u64|
            #[trigger] old(mem).is_mapped(b) ==> final(mem).perms_of(b) == old(mem).perms_of(b)
                && final(mem).frame_of(b) == old(mem).frame_of(b) && final(mem).dirty_of(b)
                == old(mem).dirty_of(b),
        final(mem).mappings_view() == old(mem).mappings_view(),
        final(mem).next_free_frame() == old(mem).next_free_frame(),
{
    let _ = mem;
    match vcpu.run() {
        Ok(kvm_ioctls::VcpuExit::Debug(_)) => HvRunRaw::Debug,
        Ok(kvm_ioctls::VcpuExit::Hlt) => HvRunRaw::Hlt,
        Ok(_) => HvRunRaw::Other,
        Err(e) => HvRunRaw::Failed(e.errno()),
    }
}

/// Relies on nix::errno::Errno::from_raw: whether the error number names
/// an interrupted or to-be-retried call. On this target the interrupted
/// and try-again error numbers are 4 and 11, as the platform's headers
/// state them.
#[verifier::external_body]
pub fn errno_is_retry(errno: i32) -> (r: bool)
    ensures
        r == (errno == 4 || errno == 11),
{
    match nix::errno::Errno::from_raw(errno) {
        nix::errno::Errno::EINTR => true,
        nix::errno::Errno::EAGAIN => true,
        _ => false,
    }
}

} // verus!
