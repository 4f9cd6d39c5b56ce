//! The virtual machine: hypervisor handles, the register mirror, the guest
//! memory, and the run loop with its exit classification.
//!
//! The mirror holds the registers the embedder sees between runs; it is
//! committed to the hypervisor before every entry and refreshed from the
//! shared run area after every exit. Bit 1 of RFLAGS, which the
//! architecture reserves as one, is forced on at every commit.

use vstd::prelude::*;
use crate::memory::bitmap_bit;
use crate::dirty::restore_dirty_pages;
use crate::exit::HvRunRaw;
use crate::exit::PageFaultDetail;
use crate::exit::VmError;
use crate::exit::VmExit;
use crate::hv;
use crate::memory::page_at;
use crate::memory::spec_round_up_to_page;
use crate::memory::Mapping;
use crate::memory::MemoryError;
use crate::memory::PagePermissions;
use crate::memory::VirtualMemory;
use crate::memory::PAGE_SIZE;
use crate::regs::reg_value;
use crate::snapshot::SnapshotInfo;
use crate::snapshot::SnapshotMapping;
use crate::snapshot::SnapshotRegisters;
use crate::x64::vector_has_error_code;
use crate::x64::ExceptionFrame;
use crate::x64::VECTOR_INVALID_OPCODE;
use crate::x64::VECTOR_PAGE_FAULT;
use crate::regs::Register;

verus! {

/// Base of the exception-control region: the interrupt-descriptor table's
/// page, at the bottom of the high canonical addresses.
pub const IDT_ADDRESS: u64 = 0xffff_ffff_ff00_0000;

/// The trampoline page, one page above the interrupt-descriptor table.
pub const IDT_HANDLERS: u64 = 0xffff_ffff_ff00_1000;

/// The global-descriptor-table page.
pub const GDT_ADDRESS: u64 = 0xffff_ffff_ff00_2000;

/// The task-state-segment page.
pub const TSS_ADDRESS: u64 = 0xffff_ffff_ff00_3000;

/// The exception stack page, used through interrupt-stack-table slot 1.
pub const STACK_ADDRESS: u64 = 0xffff_ffff_ff00_4000;

/// Protected-mode enable bit of CR0.
pub const CR0_PE: u64 = 1 << 0;

/// Extension-type bit of CR0.
pub const CR0_ET: u64 = 1 << 4;

/// Write-protect bit of CR0.
pub const CR0_WP: u64 = 1 << 16;

/// Paging-enable bit of CR0.
pub const CR0_PG: u64 = 1 << 31;

/// Physical-address-extension bit of CR4.
pub const CR4_PAE: u64 = 1 << 5;

/// FXSAVE/FXRSTOR-enable bit of CR4.
pub const CR4_OSFXSR: u64 = 1 << 9;

/// XSAVE-enable bit of CR4.
pub const CR4_OSXSAVE: u64 = 1 << 18;

/// Long-mode-enable bit of EFER.
pub const EFER_LME: u64 = 1 << 8;

/// Long-mode-active bit of EFER.
pub const EFER_LMA: u64 = 1 << 10;

/// No-execute-enable bit of EFER.
pub const EFER_NXE: u64 = 1 << 11;

/// The flat 64-bit ring-0 code segment: selector 1 in the global
/// descriptor table, executable, readable, accessed, long-mode flag on.
pub open spec fn spec_code_segment() -> kvm_bindings::kvm_segment {
    kvm_bindings::kvm_segment {
        base: 0,
        limit: 0,
        selector: 8,
        type_: 11,
        present: 1,
        dpl: 0,
        db: 0,
        s: 1,
        l: 1,
        g: 0,
        avl: 0,
        unusable: 0,
        padding: 0,
    }
}

/// The flat data segment every data selector shares: as the code segment
/// but with a writable data type.
pub open spec fn spec_data_segment() -> kvm_bindings::kvm_segment {
    kvm_bindings::kvm_segment {
        base: 0,
        limit: 0,
        selector: 8,
        type_: 3,
        present: 1,
        dpl: 0,
        db: 0,
        s: 1,
        l: 1,
        g: 0,
        avl: 0,
        unusable: 0,
        padding: 0,
    }
}

/// The task register: selector 2 in the global descriptor table, pointing
/// at the task-state segment.
pub open spec fn spec_task_register() -> kvm_bindings::kvm_segment {
    kvm_bindings::kvm_segment {
        base: TSS_ADDRESS,
        limit: 103,
        selector: 16,
        type_: 11,
        present: 1,
        dpl: 0,
        db: 0,
        s: 0,
        l: 1,
        g: 0,
        avl: 0,
        unusable: 0,
        padding: 0,
    }
}

/// Top of the exception stack: a small guard region is left beneath the
/// end of the stack page.
pub const IST1_STACK_TOP: u64 = 0xffff_ffff_ff00_4f00;

/// Whether the five pages of the exception-control region are all free in
/// this memory, with enough physical frames left to back them.
pub open spec fn spec_exception_region_free(mem: VirtualMemory) -> bool {
    &&& !mem.is_mapped(IDT_ADDRESS)
    &&& !mem.is_mapped(IDT_HANDLERS)
    &&& !mem.is_mapped(GDT_ADDRESS)
    &&& !mem.is_mapped(TSS_ADDRESS)
    &&& !mem.is_mapped(STACK_ADDRESS)
    &&& mem.frames() - mem.next_free_frame() >= 20
}

/// Whether this memory holds the exception-control region: the five pages
/// mapped with their access rights, the trampoline page, the
/// interrupt-descriptor table pointing into it, the global descriptor
/// table and the task-state segment with its alternate stack.
pub open spec fn spec_exception_region_present(mem: VirtualMemory) -> bool {
    &&& mem.is_mapped(IDT_ADDRESS) && mem.perms_of(IDT_ADDRESS) == (PagePermissions {
        read: true,
        write: false,
        execute: false,
    })
    &&& mem.is_mapped(IDT_HANDLERS) && mem.perms_of(IDT_HANDLERS) == (PagePermissions {
        read: true,
        write: false,
        execute: true,
    })
    &&& mem.is_mapped(GDT_ADDRESS) && mem.perms_of(GDT_ADDRESS) == (PagePermissions {
        read: true,
        write: true,
        execute: false,
    })
    &&& mem.is_mapped(TSS_ADDRESS) && mem.perms_of(TSS_ADDRESS) == (PagePermissions {
        read: true,
        write: false,
        execute: false,
    })
    &&& mem.is_mapped(STACK_ADDRESS) && mem.perms_of(STACK_ADDRESS) == (PagePermissions {
        read: true,
        write: true,
        execute: false,
    })
    &&& forall|j: int|
        0 <= j < PAGE_SIZE ==> mem.byte_at(IDT_HANDLERS as int + j)
            == crate::x64::trampoline_page_byte(j)
    &&& forall|p: int|
        0 <= p < 512 ==> mem.byte_at(IDT_ADDRESS as int + p) == crate::x64::idt_page_byte(
            IDT_HANDLERS,
            p,
        )
    &&& forall|j: int|
        0 <= j < 32 ==> mem.byte_at(GDT_ADDRESS as int + j) == crate::x64::gdt_byte(
            TSS_ADDRESS,
            j,
        )
    &&& forall|j: int|
        0 <= j < 104 ==> mem.byte_at(TSS_ADDRESS as int + j) == crate::x64::tss_byte(
            IST1_STACK_TOP,
            j,
        )
}

/// Whether a special-register block carries the long-mode configuration
/// the bootstrap establishes: protection and paging on, physical address
/// extension, long mode enabled and active, the flat code and data
/// segments, and the descriptor tables of the exception-control region.
pub open spec fn spec_long_mode_sregs(sregs: kvm_bindings::kvm_sregs) -> bool {
    &&& sregs.cr0 == CR0_PE | CR0_PG | CR0_ET | CR0_WP
    &&& sregs.cr4 == CR4_PAE | CR4_OSXSAVE | CR4_OSFXSR
    &&& sregs.cr3 == 0
    &&& sregs.efer == EFER_LME | EFER_LMA | EFER_NXE
    &&& sregs.cs == spec_code_segment()
    &&& sregs.ds == spec_data_segment()
    &&& sregs.es == spec_data_segment()
    &&& sregs.fs == spec_data_segment()
    &&& sregs.gs == spec_data_segment()
    &&& sregs.ss == spec_data_segment()
    &&& sregs.tr == spec_task_register()
    &&& sregs.gdt.base == GDT_ADDRESS && sregs.gdt.limit == 23
    &&& sregs.idt.base == IDT_ADDRESS && sregs.idt.limit == 511
}

/// With the exception-control region in place, every vector's stub is
/// the three bytes `push vector; hlt` at its 32-byte slot, and the whole
/// stub lies inside the trampoline page.
pub proof fn lemma_trampolines_in_place(mem: VirtualMemory, i: int)
    requires
        spec_exception_region_present(mem),
        0 <= i < 32,
    ensures
        mem.byte_at(IDT_HANDLERS as int + 32 * i) == 0x6a,
        mem.byte_at(IDT_HANDLERS as int + 32 * i + 1) == i as u8,
        mem.byte_at(IDT_HANDLERS as int + 32 * i + 2) == 0xf4,
        32 * i + 3 <= PAGE_SIZE as int,
{
    crate::x64::lemma_trampoline_containment(IDT_HANDLERS, i);
}

/// The flags value committed before every guest entry has its reserved
/// bit 1 set: forcing the bit on makes it hold whatever the mirror held.
/// What the guest returns in RFLAGS afterwards is the architecture's own
/// invariant, which the processor maintains.
pub proof fn lemma_rflags_reserved_bit(v: u64)
    ensures
        (v | 2) & 2 == 2,
{
    assert((v | 2) & 2 == 2) by (bit_vector);
}

/// The fixed reasons a register flush can report, each naming the
/// hypervisor exchange that failed.
pub open spec fn spec_flush_hv_message(m: &'static str) -> bool {
    ||| m == "Could not commit registers"
    ||| m == "Could not commit special registers"
    ||| m == "Could not commit fsbase and gsbase"
    ||| m == "Could not get general registers"
    ||| m == "Could not get special registers"
}

/// The fixed reasons machine construction can report, each naming the
/// hypervisor step that failed.
pub open spec fn spec_construction_hv_message(m: &'static str) -> bool {
    ||| m == "Could not open kvm device"
    ||| m == "Wrong KVM api version"
    ||| m == "SyncRegs capability not present"
    ||| m == "Manual dirty log protect capability not present"
    ||| m == "Could not create vm fd"
    ||| m == "Could not enable KVM_DIRTY_LOG_MANUAL_PROTECT"
    ||| m == "Could not create vm vcpu"
    ||| m == "Could not get general registers"
    ||| m == "Could not get special registers"
    ||| m == "Could not set tss address"
    ||| m == "Could not set debug registers"
    ||| m == "Could not commit registers"
    ||| m == "Could not commit special registers"
    ||| m == "Could not commit fsbase and gsbase"
}

/// Whether a failed run call's error number asks for a retry: the
/// interrupted and try-again numbers of this target, 4 and 11.
pub open spec fn spec_run_retry(outcome: HvRunRaw) -> bool {
    match outcome {
        HvRunRaw::Failed(e) => e == 4 || e == 11,
        _ => false,
    }
}

/// Whether an exit report, together with the mirror left behind, is the
/// lawful classification of some raw hypervisor outcome over the given
/// memory and trampoline base, for some pulled register block and
/// faulting-address value.
pub open spec fn run_result_classified(
    r: Result<VmExit, VmError>,
    regs_after: kvm_bindings::kvm_regs,
    mem: VirtualMemory,
    hp: u64,
) -> bool {
    exists|outcome: HvRunRaw, pulled: kvm_bindings::kvm_regs, cr2: u64|
        (r, regs_after) == #[trigger] spec_classify(outcome, mem, pulled, cr2, hp)
}

/// A guest virtual machine: hypervisor handles, the register mirror, and
/// the guest memory.
pub struct Vm {
    /// Handle on the hypervisor device.
    _kvm: kvm_ioctls::Kvm,
    /// Handle on the virtual machine.
    kvm_vm: kvm_ioctls::VmFd,
    /// Handle on the single virtual processor.
    kvm_vcpu: kvm_ioctls::VcpuFd,
    /// Mirror of the general registers.
    registers: kvm_bindings::kvm_regs,
    /// Mirror of the special registers.
    special_registers: kvm_bindings::kvm_sregs,
    /// Mirror of the FS base model-specific register.
    fs_base: u64,
    /// Mirror of the GS base model-specific register.
    gs_base: u64,
    /// Base address of the trampoline page; a halt with the instruction
    /// pointer inside it is an exception report, not a guest halt.
    hypercall_page: u64,
    /// The guest memory.
    pub memory: VirtualMemory,
}

impl Vm {
    /// The general-register mirror.
    pub closed spec fn regs(self) -> kvm_bindings::kvm_regs {
        self.registers
    }

    /// The special-register mirror.
    pub closed spec fn sregs(self) -> kvm_bindings::kvm_sregs {
        self.special_registers
    }

    /// The FS base mirror.
    pub closed spec fn fs(self) -> u64 {
        self.fs_base
    }

    /// The GS base mirror.
    pub closed spec fn gs(self) -> u64 {
        self.gs_base
    }

    /// Base address of the trampoline page.
    pub closed spec fn hypercall_base(self) -> u64 {
        self.hypercall_page
    }

    /// The guest memory, for contracts.
    pub closed spec fn mem(self) -> VirtualMemory {
        self.memory
    }

    /// A machine is well-formed when its guest memory is.
    pub closed spec fn wf(self) -> bool {
        self.memory.wf()
    }

    /// Gets a register from the mirror.
    pub fn get_reg(&self, regid: Register) -> (r: u64)
        ensures
            r == reg_value(self.regs(), self.fs(), self.gs(), regid),
    {
        crate::regs::reg_read(&self.registers, self.fs_base, self.gs_base, regid)
    }

    /// Sets a register in the mirror: the named register takes the value
    /// and every other register keeps its own.
    pub fn set_reg(&mut self, regid: Register, regval: u64)
        ensures
            forall|x: Register|
                reg_value(final(self).regs(), final(self).fs(), final(self).gs(), x) == (
                if x == regid {
                    regval
                } else {
                    reg_value(old(self).regs(), old(self).fs(), old(self).gs(), x)
                }),
            final(self).mem() == old(self).mem(),
            final(self).wf() == old(self).wf(),
            final(self).sregs() == old(self).sregs(),
            final(self).hypercall_base() == old(self).hypercall_base(),
    {
        crate::regs::reg_write(
            &mut self.registers,
            &mut self.fs_base,
            &mut self.gs_base,
            regid,
            regval,
        );
    }

    /// Maps memory with the given access rights in the guest address space.
    pub fn mmap(&mut self, vaddr: u64, size: usize, perms: PagePermissions) -> (r: Result<
        (),
        VmError,
    >)
        requires
            old(self).wf(),
        ensures
            final(self).wf(),
            final(self).regs() == old(self).regs(),
            final(self).sregs() == old(self).sregs(),
            final(self).fs() == old(self).fs(),
            final(self).gs() == old(self).gs(),
            final(self).hypercall_base() == old(self).hypercall_base(),
            ({
                let np = VirtualMemory::spec_pages_of(size as int);
                match r {
                    Ok(()) => {
                        &&& vaddr % (PAGE_SIZE as u64) == 0
                        &&& vaddr + np * (PAGE_SIZE as int) <= u64::MAX + 1
                        &&& forall|k: int|
                            0 <= k < np ==> {
                                let b = page_at(vaddr, k);
                                &&& final(self).mem().is_mapped(#[trigger] page_at(vaddr, k))
                                &&& final(self).mem().perms_of(b) == perms
                                &&& final(self).mem().dirty_of(b) == false
                            }
                        &&& forall|b: u64|
                            #[trigger] old(self).mem().is_mapped(b) ==> final(self).mem().is_mapped(b) && final(self).mem().perms_of(b) == old(self).mem().perms_of(b) && final(self).mem().dirty_of(b) == old(self).mem().dirty_of(b) && final(self).mem().frame_of(b) == old(self).mem().frame_of(b)
                        &&& final(self).mem().phys().len() == old(self).mem().phys().len()
                        &&& forall|x: int|
                            #[trigger] old(self).mem().byte_mapped(x) ==> final(self).mem().byte_at(x) == old(self).mem().byte_at(x)
                    },
                    Err(VmError::MemoryError(e)) => {
                        &&& final(self).regs() == old(self).regs()
                        &&& final(self).mem().mappings_view() == old(self).mem().mappings_view()
                        &&& forall|b: u64|
                            #[trigger] final(self).mem().is_mapped(b) <==> old(self).mem().is_mapped(b)
                        &&& forall|b: u64|
                            #[trigger] old(self).mem().is_mapped(b) ==> final(self).mem().perms_of(b) == old(self).mem().perms_of(b) && final(self).mem().dirty_of(b) == old(self).mem().dirty_of(b)
                        &&& final(self).mem().phys().len() == old(self).mem().phys().len()
                        &&& forall|x: int|
                            #[trigger] old(self).mem().byte_mapped(x) ==> final(self).mem().byte_at(x) == old(self).mem().byte_at(x)
                        &&& match e {
                            MemoryError::Unaligned(a) => {
                                &&& a == vaddr
                                &&& vaddr % (PAGE_SIZE as u64) != 0
                            },
                            MemoryError::OutOfRange(a) => {
                                &&& a == vaddr
                                &&& vaddr + np * (PAGE_SIZE as int) > u64::MAX + 1
                            },
                            MemoryError::AlreadyMapped(b) => exists|k: int|
                                0 <= k < np && b == #[trigger] page_at(vaddr, k) && old(self).mem().is_mapped(b),
                            MemoryError::OutOfMemory => np > old(self).mem().frames() - old(self).mem().next_free_frame() || final(self).mem().next_free_frame() == final(self).mem().frames(),
                            _ => false,
                        }
                    },
                    _ => false,
                }
            }),
    {
        match self.memory.mmap(vaddr, size, perms) {
            Ok(()) => Ok(()),
            Err(e) => Err(VmError::MemoryError(e)),
        }
    }

    /// Writes the given bytes into the guest memory and marks the touched
    /// pages dirty.
    pub fn write(&mut self, vaddr: u64, data: &[u8]) -> (r: Result<(), VmError>)
        requires
            old(self).wf(),
        ensures
            final(self).wf(),
            final(self).regs() == old(self).regs(),
            final(self).sregs() == old(self).sregs(),
            final(self).fs() == old(self).fs(),
            final(self).gs() == old(self).gs(),
            final(self).hypercall_base() == old(self).hypercall_base(),
            match r {
                Ok(()) => {
                    &&& vaddr + data@.len() <= u64::MAX + 1
                    &&& old(self).mem().range_mapped(vaddr as int, data@.len() as int)
                    &&& final(self).mem().bytes_at(vaddr as int, data@.len() as int) == data@
                    &&& forall|x: int|
                        old(self).mem().byte_mapped(x) && !(vaddr <= x < vaddr + data@.len())
                            ==> final(self).mem().byte_at(x) == old(self).mem().byte_at(x)
                    &&& forall|b: u64|
                        #[trigger] final(self).mem().is_mapped(b) <==> old(self).mem().is_mapped(b)
                    &&& forall|b: u64|
                        #[trigger] old(self).mem().is_mapped(b) ==> final(self).mem().perms_of(b) == old(self).mem().perms_of(b) && final(self).mem().frame_of(b) == old(self).mem().frame_of(b)
                    &&& forall|b: u64|
                        #[trigger] old(self).mem().is_mapped(b) ==> final(self).mem().dirty_of(b) == (old(self).mem().dirty_of(b)
                            || VirtualMemory::page_in_range(b, vaddr as int, data@.len() as int))
                    &&& final(self).mem().phys().len() == old(self).mem().phys().len()
                },
                Err(VmError::MemoryError(e)) => {
                    &&& *final(self) == *old(self)
                    &&& match e {
                        MemoryError::OutOfRange(a) => {
                            &&& a == vaddr
                            &&& vaddr + data@.len() > u64::MAX + 1
                        },
                        MemoryError::Unmapped(a) => {
                            &&& vaddr + data@.len() <= u64::MAX + 1
                            &&& old(self).mem().first_unmapped(
                                vaddr as int,
                                data@.len() as int,
                                a as int,
                            )
                        },
                        _ => false,
                    }
                },
                _ => false,
            },
    {
        match self.memory.write(vaddr, data) {
            Ok(()) => Ok(()),
            Err(e) => Err(VmError::MemoryError(e)),
        }
    }

    /// Writes a 64-bit value into the guest memory as little-endian bytes.
    pub fn write_value(&mut self, address: u64, val: u64) -> (r: Result<(), VmError>)
        requires
            old(self).wf(),
        ensures
            final(self).wf(),
            final(self).regs() == old(self).regs(),
            final(self).sregs() == old(self).sregs(),
            final(self).fs() == old(self).fs(),
            final(self).gs() == old(self).gs(),
            final(self).hypercall_base() == old(self).hypercall_base(),
            match r {
                Ok(()) => {
                    &&& address + 8 <= u64::MAX + 1
                    &&& old(self).mem().range_mapped(address as int, 8)
                    &&& final(self).mem().read_u64_at(address as int) == val
                    &&& forall|x: int|
                        old(self).mem().byte_mapped(x) && !(address <= x < address + 8)
                            ==> final(self).mem().byte_at(x) == old(self).mem().byte_at(x)
                    &&& forall|b: u64|
                        #[trigger] final(self).mem().is_mapped(b) <==> old(self).mem().is_mapped(b)
                    &&& final(self).mem().phys().len() == old(self).mem().phys().len()
                },
                Err(VmError::MemoryError(e)) => {
                    &&& *final(self) == *old(self)
                    &&& match e {
                        MemoryError::OutOfRange(a) => {
                            &&& a == address
                            &&& address + 8 > u64::MAX + 1
                        },
                        MemoryError::Unmapped(a) => {
                            &&& address + 8 <= u64::MAX + 1
                            &&& old(self).mem().first_unmapped(address as int, 8, a as int)
                        },
                        _ => false,
                    }
                },
                _ => false,
            },
    {
        let r = self.memory.write_val(address, val);
        proof {
            vstd::bytes::lemma_auto_spec_u64_to_from_le_bytes();
        }
        match r {
            Ok(()) => Ok(()),
            Err(e) => Err(VmError::MemoryError(e)),
        }
    }

    /// Reads `len` bytes from the guest memory.
    pub fn read(&self, vaddr: u64, len: usize) -> (r: Result<Vec<u8>, VmError>)
        requires
            self.wf(),
        ensures
            match r {
                Ok(v) => {
                    &&& v@.len() == len
                    &&& vaddr + len <= u64::MAX + 1
                    &&& self.mem().range_mapped(vaddr as int, len as int)
                    &&& v@ == self.mem().bytes_at(vaddr as int, len as int)
                },
                Err(VmError::MemoryError(e)) => match e {
                    MemoryError::OutOfRange(a) => {
                        &&& a == vaddr
                        &&& vaddr + len > u64::MAX + 1
                    },
                    MemoryError::Unmapped(a) => {
                        &&& vaddr + len <= u64::MAX + 1
                        &&& self.mem().first_unmapped(vaddr as int, len as int, a as int)
                    },
                    _ => false,
                },
                _ => false,
            },
    {
        match self.memory.read(vaddr, len) {
            Ok(v) => Ok(v),
            Err(e) => Err(VmError::MemoryError(e)),
        }
    }

    /// Reads the little-endian 64-bit value at the given guest address.
    pub fn read_value(&self, address: u64) -> (r: Result<u64, VmError>)
        requires
            self.wf(),
        ensures
            match r {
                Ok(x) => {
                    &&& address + 8 <= u64::MAX + 1
                    &&& self.mem().range_mapped(address as int, 8)
                    &&& x == self.mem().read_u64_at(address as int)
                },
                Err(VmError::MemoryError(e)) => match e {
                    MemoryError::OutOfRange(a) => {
                        &&& a == address
                        &&& address + 8 > u64::MAX + 1
                    },
                    MemoryError::Unmapped(a) => {
                        &&& address + 8 <= u64::MAX + 1
                        &&& self.mem().first_unmapped(address as int, 8, a as int)
                    },
                    _ => false,
                },
                _ => false,
            },
    {
        match self.memory.read_val(address) {
            Ok(x) => Ok(x),
            Err(e) => Err(VmError::MemoryError(e)),
        }
    }

    /// All mapped pages, in order of creation.
    pub fn mappings(&self) -> (r: Vec<Mapping>)
        ensures
            r@ == self.mem().mappings_view(),
    {
        self.memory.mappings()
    }

    /// The mapped pages whose software dirty flag is set, in order of
    /// creation.
    pub fn dirty_mappings(&self) -> (r: Vec<Mapping>)
        ensures
            r@ == self.mem().mappings_view().filter(|m: Mapping| m.dirty),
    {
        self.memory.dirty_mappings()
    }

    /// Clears the software dirty flag of every mapped page.
    pub fn clear_dirty_mappings(&mut self)
        requires
            old(self).wf(),
        ensures
            final(self).wf(),
            final(self).regs() == old(self).regs(),
            final(self).sregs() == old(self).sregs(),
            final(self).fs() == old(self).fs(),
            final(self).gs() == old(self).gs(),
            final(self).hypercall_base() == old(self).hypercall_base(),
            forall|b: u64|
                #[trigger] final(self).mem().is_mapped(b) <==> old(self).mem().is_mapped(b),
            forall|b: u64|
                #[trigger] old(self).mem().is_mapped(b) ==> final(self).mem().dirty_of(b)
                    == false && final(self).mem().perms_of(b) == old(self).mem().perms_of(b),
            final(self).mem().phys() == old(self).mem().phys(),
            final(self).mem().mappings_view().filter(|m: Mapping| m.dirty) == Seq::<
                Mapping,
            >::empty(),
    {
        self.memory.clear_dirty();
        proof {
            let cleared = self.mem().mappings_view();
            let pred = |m: Mapping| m.dirty;
            assert forall|i: int| 0 <= i < cleared.len() implies !pred(#[trigger] cleared[i]) by {
                assert(cleared[i] == Mapping {
                    address: old(self).mem().mappings_view()[i].address,
                    permissions: old(self).mem().mappings_view()[i].permissions,
                    dirty: false,
                });
            }
            lemma_filter_none(cleared, pred);
        }
    }

    /// Commits the mirror to the shared run area: forces bit 1 of RFLAGS
    /// on, places both register blocks there marked as modified, and
    /// writes the base registers through their model-specific registers.
    fn commit_registers(&mut self) -> (r: Result<(), VmError>)
        ensures
            final(self).regs() == (kvm_bindings::kvm_regs {
                rflags: old(self).regs().rflags | 2,
                ..old(self).regs()
            }),
            final(self).regs().rflags & 2 == 2,
            final(self).sregs() == old(self).sregs(),
            final(self).fs() == old(self).fs(),
            final(self).gs() == old(self).gs(),
            final(self).mem() == old(self).mem(),
            final(self).hypercall_base() == old(self).hypercall_base(),
            r is Err ==> r == Err::<(), VmError>(
                VmError::HvError("Could not commit fsbase and gsbase"),
            ),
    {
        // The architecture reserves bit 1 of RFLAGS as one.
        self.registers.rflags = self.registers.rflags | 2;
        proof {
            let f = old(self).regs().rflags;
            assert((f | 2) & 2 == 2) by (bit_vector);
        }
        hv::vcpu_sync_write(&mut self.kvm_vcpu, &self.registers, &self.special_registers);
        hv::vcpu_mark_sync_dirty(&mut self.kvm_vcpu);
        // The base registers are not part of the shared blocks.
        if !hv::vcpu_set_base_msrs(&self.kvm_vcpu, self.fs_base, self.gs_base) {
            return Err(VmError::HvError("Could not commit fsbase and gsbase"));
        }
        Ok(())
    }

    /// Writes the mirror to the processor through the direct register
    /// calls, then reads it back, so the mirror equals what the hardware
    /// will use; the shared run area is left unmarked.
    fn flush_registers(&mut self) -> (r: Result<(), VmError>)
        ensures
            final(self).mem() == old(self).mem(),
            final(self).hypercall_base() == old(self).hypercall_base(),
            r is Err ==> (r matches Err(VmError::HvError(m)) && spec_flush_hv_message(m)),
    {
        // The architecture reserves bit 1 of RFLAGS as one.
        self.registers.rflags = self.registers.rflags | 2;
        if !hv::vcpu_set_regs(&self.kvm_vcpu, &self.registers) {
            return Err(VmError::HvError("Could not commit registers"));
        }
        if !hv::vcpu_set_sregs(&self.kvm_vcpu, &self.special_registers) {
            return Err(VmError::HvError("Could not commit special registers"));
        }
        if !hv::vcpu_set_base_msrs(&self.kvm_vcpu, self.fs_base, self.gs_base) {
            return Err(VmError::HvError("Could not commit fsbase and gsbase"));
        }
        self.registers = match hv::vcpu_get_regs(&self.kvm_vcpu) {
            Some(r) => r,
            None => {
                return Err(VmError::HvError("Could not get general registers"));
            },
        };
        self.special_registers = match hv::vcpu_get_sregs(&self.kvm_vcpu) {
            Some(s) => s,
            None => {
                return Err(VmError::HvError("Could not get special registers"));
            },
        };
        hv::vcpu_sync_write(&mut self.kvm_vcpu, &self.registers, &self.special_registers);
        hv::vcpu_clear_sync_dirty(&mut self.kvm_vcpu);
        Ok(())
    }

    /// Runs the guest until an exit the embedder must see: commits the
    /// mirror, enters the guest, pulls the registers the hypervisor
    /// synchronized on exit, and classifies what happened. The guest
    /// memory is read, never written, so the memory state is exactly what
    /// it was; the registers after the call are whatever the guest left,
    /// as the mirror reports them.
    /// Runs the guest until an exit the embedder must see: commits the
    /// mirror, enters the guest, pulls the registers the hypervisor
    /// synchronized on exit, folds the hypervisor's dirty log into the
    /// software dirty flags, and classifies what happened.
    ///
    /// The guest may write any of its memory, so the contents after the
    /// call are whatever it left; the mapping records are the host's and
    /// survive, and dirty flags only accumulate — every page flagged
    /// before stays flagged, and pages the log marks come back flagged.
    /// The log accumulates in the hypervisor until the embedder's
    /// dirty-log clear, so a page it marked before the last clear can
    /// come back flagged even after `clear_dirty_mappings`.
    pub fn run(&mut self) -> (r: Result<VmExit, VmError>)
        requires
            old(self).wf(),
        ensures
            final(self).wf(),
            final(self).hypercall_base() == old(self).hypercall_base(),
            final(self).mem().phys().len() == old(self).mem().phys().len(),
            forall|b: u64|
                #[trigger] final(self).mem().is_mapped(b) <==> old(self).mem().is_mapped(b),
            forall|b: u64|
                #[trigger] old(self).mem().is_mapped(b) ==> final(self).mem().perms_of(b)
                    == old(self).mem().perms_of(b) && final(self).mem().frame_of(b) == old(
                    self,
                ).mem().frame_of(b),
            forall|b: u64|
                #[trigger] old(self).mem().is_mapped(b) && old(self).mem().dirty_of(b)
                    ==> final(self).mem().dirty_of(b),
            // Whatever the hypervisor did, the reported exit is the lawful
            // classification of some raw outcome over the state pulled on
            // exit; the only other results are the register-exchange and
            // dirty-log failures.
            r == Err::<VmExit, VmError>(
                VmError::HvError("Could not commit fsbase and gsbase"),
            ) || r == Err::<VmExit, VmError>(
                VmError::HvError("Could not read fs_base and gs_base"),
            ) || r == Err::<VmExit, VmError>(
                VmError::HvError("Could not get dirty log after guest exit"),
            ) || run_result_classified(
                r,
                final(self).regs(),
                final(self).mem(),
                old(self).hypercall_base(),
            ),
    {
        if let Err(e) = self.commit_registers() {
            return Err(e);
        }
        hv::vcpu_mark_sync_valid(&mut self.kvm_vcpu);
        let ghost m_entry = self.memory;
        let outcome = hv::vcpu_run(&mut self.kvm_vcpu, &mut self.memory);
        let ghost m_run = self.memory;
        // Pull the register blocks the hypervisor synchronized on exit.
        let (regs, sregs) = hv::vcpu_sync_read(&self.kvm_vcpu);
        self.registers = regs;
        self.special_registers = sregs;
        // The base registers travel out of band.
        match hv::vcpu_get_base_msrs(&self.kvm_vcpu) {
            Some((fs, gs)) => {
                self.fs_base = fs;
                self.gs_base = gs;
            },
            None => {
                return Err(VmError::HvError("Could not read fs_base and gs_base"));
            },
        }
        // Fold the guest's writes into the software dirty flags.
        let size = self.memory.host_memory_size();
        match hv::vm_get_dirty_log(&self.kvm_vm, 0, size) {
            Some(bitmap) => {
                self.memory.mark_dirty_frames(&bitmap);
            },
            None => {
                proof {
                    lemma_run_memory_chain(old(self).mem(), m_entry, m_run, self.memory);
                }
                return Err(VmError::HvError("Could not get dirty log after guest exit"));
            },
        }
        proof {
            lemma_run_memory_chain(old(self).mem(), m_entry, m_run, self.memory);
        }
        let cr2 = self.special_registers.cr2;
        let hp = self.hypercall_page;
        let ghost pulled = self.registers;
        let r = classify_exit(outcome, &self.memory, &mut self.registers, cr2, hp);
        proof {
            assert((r, self.registers) == spec_classify(
                outcome,
                self.memory,
                pulled,
                cr2,
                old(self).hypercall_base(),
            ));
            assert(run_result_classified(
                r,
                self.registers,
                self.memory,
                old(self).hypercall_base(),
            ));
        }
        r
    }

    /// Configures the special-register mirror for flat 64-bit ring-0
    /// execution: code and data segments, protection, paging, physical
    /// address extension and long mode, with the page-table root at the
    /// memory's page directory. Also points the hypervisor's scratch
    /// task-state area at its conventional hole and turns on software
    /// breakpoint trapping.
    fn setup_registers(&mut self) -> (r: Result<(), VmError>)
        ensures
            final(self).mem() == old(self).mem(),
            final(self).regs() == old(self).regs(),
            final(self).fs() == old(self).fs(),
            final(self).gs() == old(self).gs(),
            final(self).hypercall_base() == old(self).hypercall_base(),
            r is Err ==> r == Err::<(), VmError>(
                VmError::HvError("Could not set tss address"),
            ) || r == Err::<(), VmError>(VmError::HvError("Could not set debug registers")),
            r is Ok ==> final(self).sregs() == (kvm_bindings::kvm_sregs {
                cs: spec_code_segment(),
                ds: spec_data_segment(),
                es: spec_data_segment(),
                fs: spec_data_segment(),
                gs: spec_data_segment(),
                ss: spec_data_segment(),
                cr0: CR0_PE | CR0_PG | CR0_ET | CR0_WP,
                cr4: CR4_PAE | CR4_OSXSAVE | CR4_OSFXSR,
                cr3: 0,
                efer: EFER_LME | EFER_LMA | EFER_NXE,
                ..old(self).sregs()
            }),
    {
        let code_seg = kvm_bindings::kvm_segment {
            base: 0,
            limit: 0,
            selector: 8,  // index 1 in the GDT, RPL 0
            type_: 11,  // code: execute, read, accessed
            present: 1,
            dpl: 0,
            db: 0,
            s: 1,  // code or data
            l: 1,
            g: 0,
            avl: 0,
            unusable: 0,
            padding: 0,
        };
        self.special_registers.cs = code_seg;
        let mut seg = code_seg;
        seg.type_ = 3;  // data: read, write, accessed
        self.special_registers.ds = seg;
        self.special_registers.es = seg;
        self.special_registers.fs = seg;
        self.special_registers.gs = seg;
        self.special_registers.ss = seg;
        // Protection and paging on, write protect, extension type.
        self.special_registers.cr0 = CR0_PE | CR0_PG | CR0_ET | CR0_WP;
        // Physical address extension, FXSAVE and XSAVE support.
        self.special_registers.cr4 = CR4_PAE | CR4_OSXSAVE | CR4_OSFXSR;
        // The page-table root of the guest memory.
        self.special_registers.cr3 = self.memory.page_directory();
        // Long mode enabled and active, no-execute support.
        self.special_registers.efer = EFER_LME | EFER_LMA | EFER_NXE;
        // The hypervisor needs a scratch task-state area of its own.
        if !hv::vm_set_tss_address(&self.kvm_vm, 0xfffb_d000) {
            return Err(VmError::HvError("Could not set tss address"));
        }
        // Trap software breakpoints to the host.
        if !hv::vcpu_enable_sw_breakpoints(&self.kvm_vcpu) {
            return Err(VmError::HvError("Could not set debug registers"));
        }
        Ok(())
    }

    /// Builds the exception-control region: the global descriptor table,
    /// the task-state segment with its alternate stack, the per-vector
    /// trampoline page and the interrupt-descriptor table pointing into
    /// it, and records the trampoline page as the hypercall region.
    fn setup_exception_handling(&mut self) -> (r: Result<(), VmError>)
        requires
            old(self).wf(),
        ensures
            final(self).wf(),
            final(self).regs() == old(self).regs(),
            final(self).fs() == old(self).fs(),
            final(self).gs() == old(self).gs(),
            spec_exception_region_free(old(self).mem()) ==> r is Ok,
            r is Ok ==> {
                &&& final(self).hypercall_base() == IDT_HANDLERS
                &&& spec_exception_region_present(final(self).mem())
                &&& final(self).sregs() == (kvm_bindings::kvm_sregs {
                    tr: spec_task_register(),
                    gdt: kvm_bindings::kvm_dtable {
                        base: GDT_ADDRESS,
                        limit: 23,
                        padding: old(self).sregs().gdt.padding,
                    },
                    idt: kvm_bindings::kvm_dtable {
                        base: IDT_ADDRESS,
                        limit: 511,
                        padding: old(self).sregs().idt.padding,
                    },
                    ..old(self).sregs()
                })
                &&& forall|b: u64|
                    #[trigger] old(self).mem().is_mapped(b) ==> final(self).mem().is_mapped(b)
                        && final(self).mem().perms_of(b) == old(self).mem().perms_of(b)
                &&& final(self).mem().phys().len() == old(self).mem().phys().len()
            },
            r is Err ==> !spec_exception_region_free(old(self).mem()) && r matches Err(
                VmError::MemoryError(_),
            ),
    {
        let perms_r = PagePermissions { read: true, write: false, execute: false };
        let perms_rw = PagePermissions { read: true, write: true, execute: false };
        let perms_rx = PagePermissions { read: true, write: false, execute: true };
        // Map the five pages of the region first.
        let ghost before_0 = self.memory;
        proof {
            assert(before_0 == old(self).mem());
        }
        if let Err(e) = self.memory.mmap(IDT_ADDRESS, PAGE_SIZE, perms_r) {
            proof {
                if spec_exception_region_free(old(self).mem()) {
                    assert(VirtualMemory::spec_pages_of(PAGE_SIZE as int) == 1);
                    assert forall|k: int|
                        0 <= k < 1 implies !before_0.is_mapped(
                        #[trigger] page_at(IDT_ADDRESS, k)) by {
                        assert(page_at(IDT_ADDRESS, k) == IDT_ADDRESS);
                    }
                    assert(4 <= before_0.frames() - before_0.next_free_frame());
                    assert(false);
                }
            }
            return Err(VmError::MemoryError(e));
        }
        proof {
            assert(self.memory.is_mapped(page_at(IDT_ADDRESS, 0)));
            assert(page_at(IDT_ADDRESS, 0) == IDT_ADDRESS);
        }
        let ghost before_1 = self.memory;
        if let Err(e) = self.memory.mmap(IDT_HANDLERS, PAGE_SIZE, perms_rx) {
            proof {
                if spec_exception_region_free(old(self).mem()) {
                    assert(VirtualMemory::spec_pages_of(PAGE_SIZE as int) == 1);
                    assert forall|k: int|
                        0 <= k < 1 implies !before_1.is_mapped(
                        #[trigger] page_at(IDT_HANDLERS, k)) by {
                        assert(page_at(IDT_HANDLERS, k) == IDT_HANDLERS);
                    }
                    assert(before_1.next_free_frame() <= before_0.next_free_frame() + 4);
                    assert(before_1.frames() == before_0.frames());
                    assert(4 <= before_1.frames() - before_1.next_free_frame());
                    assert(false);
                }
            }
            return Err(VmError::MemoryError(e));
        }
        proof {
            assert(self.memory.is_mapped(page_at(IDT_HANDLERS, 0)));
            assert(page_at(IDT_HANDLERS, 0) == IDT_HANDLERS);
        }
        let ghost before_2 = self.memory;
        if let Err(e) = self.memory.mmap(GDT_ADDRESS, PAGE_SIZE, perms_rw) {
            proof {
                if spec_exception_region_free(old(self).mem()) {
                    assert(VirtualMemory::spec_pages_of(PAGE_SIZE as int) == 1);
                    assert forall|k: int|
                        0 <= k < 1 implies !before_2.is_mapped(
                        #[trigger] page_at(GDT_ADDRESS, k)) by {
                        assert(page_at(GDT_ADDRESS, k) == GDT_ADDRESS);
                    }
                    assert(before_1.next_free_frame() <= before_0.next_free_frame() + 4);
                    assert(before_1.frames() == before_0.frames());
                    assert(before_2.next_free_frame() <= before_1.next_free_frame() + 4);
                    assert(before_2.frames() == before_1.frames());
                    assert(4 <= before_2.frames() - before_2.next_free_frame());
                    assert(false);
                }
            }
            return Err(VmError::MemoryError(e));
        }
        proof {
            assert(self.memory.is_mapped(page_at(GDT_ADDRESS, 0)));
            assert(page_at(GDT_ADDRESS, 0) == GDT_ADDRESS);
        }
        let ghost before_3 = self.memory;
        if let Err(e) = self.memory.mmap(TSS_ADDRESS, PAGE_SIZE, perms_r) {
            proof {
                if spec_exception_region_free(old(self).mem()) {
                    assert(VirtualMemory::spec_pages_of(PAGE_SIZE as int) == 1);
                    assert forall|k: int|
                        0 <= k < 1 implies !before_3.is_mapped(
                        #[trigger] page_at(TSS_ADDRESS, k)) by {
                        assert(page_at(TSS_ADDRESS, k) == TSS_ADDRESS);
                    }
                    assert(before_1.next_free_frame() <= before_0.next_free_frame() + 4);
                    assert(before_1.frames() == before_0.frames());
                    assert(before_2.next_free_frame() <= before_1.next_free_frame() + 4);
                    assert(before_2.frames() == before_1.frames());
                    assert(before_3.next_free_frame() <= before_2.next_free_frame() + 4);
                    assert(before_3.frames() == before_2.frames());
                    assert(4 <= before_3.frames() - before_3.next_free_frame());
                    assert(false);
                }
            }
            return Err(VmError::MemoryError(e));
        }
        proof {
            assert(self.memory.is_mapped(page_at(TSS_ADDRESS, 0)));
            assert(page_at(TSS_ADDRESS, 0) == TSS_ADDRESS);
        }
        let ghost before_4 = self.memory;
        if let Err(e) = self.memory.mmap(STACK_ADDRESS, PAGE_SIZE, perms_rw) {
            proof {
                if spec_exception_region_free(old(self).mem()) {
                    assert(VirtualMemory::spec_pages_of(PAGE_SIZE as int) == 1);
                    assert forall|k: int|
                        0 <= k < 1 implies !before_4.is_mapped(
                        #[trigger] page_at(STACK_ADDRESS, k)) by {
                        assert(page_at(STACK_ADDRESS, k) == STACK_ADDRESS);
                    }
                    assert(before_1.next_free_frame() <= before_0.next_free_frame() + 4);
                    assert(before_1.frames() == before_0.frames());
                    assert(before_2.next_free_frame() <= before_1.next_free_frame() + 4);
                    assert(before_2.frames() == before_1.frames());
                    assert(before_3.next_free_frame() <= before_2.next_free_frame() + 4);
                    assert(before_3.frames() == before_2.frames());
                    assert(before_4.next_free_frame() <= before_3.next_free_frame() + 4);
                    assert(before_4.frames() == before_3.frames());
                    assert(4 <= before_4.frames() - before_4.next_free_frame());
                    assert(false);
                }
            }
            return Err(VmError::MemoryError(e));
        }
        proof {
            assert(self.memory.is_mapped(page_at(STACK_ADDRESS, 0)));
            assert(page_at(STACK_ADDRESS, 0) == STACK_ADDRESS);
        }
        // Install the four tables with one write over their pages.
        let image = build_exception_image();
        proof {
            let m = self.memory;
            assert forall|a: int|
                IDT_ADDRESS <= a < IDT_ADDRESS + 4 * (PAGE_SIZE as int) implies m.byte_mapped(
                a,
            ) by {
                if a < IDT_ADDRESS + PAGE_SIZE {
                    VirtualMemory::lemma_page_base_offset(IDT_ADDRESS, a - IDT_ADDRESS);
                } else if a < IDT_HANDLERS + PAGE_SIZE {
                    VirtualMemory::lemma_page_base_offset(IDT_HANDLERS, a - IDT_HANDLERS);
                } else if a < GDT_ADDRESS + PAGE_SIZE {
                    VirtualMemory::lemma_page_base_offset(GDT_ADDRESS, a - GDT_ADDRESS);
                } else {
                    VirtualMemory::lemma_page_base_offset(TSS_ADDRESS, a - TSS_ADDRESS);
                }
            }
        }
        if let Err(e) = self.memory.write(IDT_ADDRESS, image.as_slice()) {
            proof {
                assert(false);
            }
            return Err(VmError::MemoryError(e));
        }
        self.hypercall_page = IDT_HANDLERS;
        // Point the descriptor-table registers at the region.
        self.special_registers.gdt.base = GDT_ADDRESS;
        self.special_registers.gdt.limit = 23;  // three 8-byte descriptor slots
        self.special_registers.idt.base = IDT_ADDRESS;
        self.special_registers.idt.limit = 511;  // 32 gates of 16 bytes
        self.special_registers.tr = kvm_bindings::kvm_segment {
            base: TSS_ADDRESS,
            limit: 103,
            selector: 16,  // index 2 in the GDT, RPL 0
            type_: 11,
            present: 1,
            dpl: 0,
            db: 0,
            s: 0,
            l: 1,
            g: 0,
            avl: 0,
            unusable: 0,
            padding: 0,
        };
        proof {
            let m = self.memory;
            assert forall|p: int|
                0 <= p < 4 * (PAGE_SIZE as int) implies m.byte_at(IDT_ADDRESS as int + p)
                == exception_image_byte(p) by {
                assert(m.bytes_at(IDT_ADDRESS as int, 4 * (PAGE_SIZE as int))[p] == m.byte_at(
                    IDT_ADDRESS as int + p,
                ));
            }
            assert forall|j: int|
                0 <= j < PAGE_SIZE implies m.byte_at(IDT_HANDLERS as int + j)
                == crate::x64::trampoline_page_byte(j) by {
                assert(m.byte_at(IDT_ADDRESS as int + ((PAGE_SIZE as int) + j))
                    == exception_image_byte((PAGE_SIZE as int) + j));
            }
            assert forall|p: int|
                0 <= p < 512 implies m.byte_at(IDT_ADDRESS as int + p)
                == crate::x64::idt_page_byte(IDT_HANDLERS, p) by {
                assert(m.byte_at(IDT_ADDRESS as int + p) == exception_image_byte(p));
            }
            assert forall|j: int|
                0 <= j < 32 implies m.byte_at(GDT_ADDRESS as int + j) == crate::x64::gdt_byte(
                TSS_ADDRESS,
                j,
            ) by {
                assert(m.byte_at(IDT_ADDRESS as int + (2 * (PAGE_SIZE as int) + j))
                    == exception_image_byte(2 * (PAGE_SIZE as int) + j));
            }
            assert forall|j: int|
                0 <= j < 104 implies m.byte_at(TSS_ADDRESS as int + j) == crate::x64::tss_byte(
                IST1_STACK_TOP,
                j,
            ) by {
                assert(m.byte_at(IDT_ADDRESS as int + (3 * (PAGE_SIZE as int) + j))
                    == exception_image_byte(3 * (PAGE_SIZE as int) + j));
            }
        }
        Ok(())
    }

    /// Creates a virtual machine with at least `memory_size` bytes of
    /// guest memory, rounded up to whole pages: opens the hypervisor,
    /// checks its version and the capabilities this library needs, builds
    /// the long-mode environment and the exception-control region, and
    /// flushes the register mirror to the processor.
    ///
    /// The embedder must still register the guest memory with the
    /// hypervisor (see `memory_slot_request`) before the first run; that
    /// step hands raw host memory to the kernel and lives outside this
    /// library.
    pub fn new(memory_size: usize) -> (r: Result<Vm, VmError>)
        ensures
            match r {
                Ok(vm) => {
                    &&& vm.wf()
                    &&& vm.hypercall_base() == IDT_HANDLERS
                    &&& spec_exception_region_present(vm.mem())
                    &&& vm.mem().phys().len() == spec_round_up_to_page(memory_size as int)
                },
                Err(VmError::MemoryError(e)) => (memory_size + PAGE_SIZE > usize::MAX
                    && e == MemoryError::OutOfMemory) || spec_round_up_to_page(
                    memory_size as int,
                ) < 21 * (PAGE_SIZE as int),
                Err(VmError::HvError(m)) => spec_construction_hv_message(m),
                Err(VmError::SnapshotError(e)) => false,
            },
            memory_size + PAGE_SIZE > usize::MAX ==> r == Err::<Vm, VmError>(
                VmError::MemoryError(MemoryError::OutOfMemory),
            ),
    {
        let vm_memory = match VirtualMemory::new(memory_size) {
            Ok(m) => m,
            Err(e) => {
                return Err(VmError::MemoryError(e));
            },
        };
        let kvm = match hv::kvm_open() {
            Some(k) => k,
            None => {
                return Err(VmError::HvError("Could not open kvm device"));
            },
        };
        if hv::kvm_api_version(&kvm) != hv::HV_API_VERSION {
            return Err(VmError::HvError("Wrong KVM api version"));
        }
        if !hv::kvm_has_sync_regs(&kvm) {
            return Err(VmError::HvError("SyncRegs capability not present"));
        }
        if hv::kvm_check_extension_raw(&kvm, hv::HV_CAP_MANUAL_DIRTY_LOG_PROTECT2) <= 0 {
            return Err(VmError::HvError("Manual dirty log protect capability not present"));
        }
        let vm_fd = match hv::kvm_create_vm(&kvm) {
            Some(f) => f,
            None => {
                return Err(VmError::HvError("Could not create vm fd"));
            },
        };
        if !hv::vm_enable_manual_dirty_log(&vm_fd) {
            return Err(VmError::HvError("Could not enable KVM_DIRTY_LOG_MANUAL_PROTECT"));
        }
        let vcpu_fd = match hv::vm_create_vcpu(&vm_fd, 0) {
            Some(f) => f,
            None => {
                return Err(VmError::HvError("Could not create vm vcpu"));
            },
        };
        let regs = match hv::vcpu_get_regs(&vcpu_fd) {
            Some(r) => r,
            None => {
                return Err(VmError::HvError("Could not get general registers"));
            },
        };
        let sregs = match hv::vcpu_get_sregs(&vcpu_fd) {
            Some(s) => s,
            None => {
                return Err(VmError::HvError("Could not get special registers"));
            },
        };
        let mut vm = Vm {
            _kvm: kvm,
            kvm_vm: vm_fd,
            kvm_vcpu: vcpu_fd,
            registers: regs,
            special_registers: sregs,
            fs_base: 0,
            gs_base: 0,
            hypercall_page: 0,
            memory: vm_memory,
        };
        if let Err(e) = vm.setup_registers() {
            return Err(e);
        }
        proof {
            if spec_round_up_to_page(memory_size as int) >= 21 * (PAGE_SIZE as int) {
                assert(vm.memory.frames() >= 21) by (nonlinear_arith)
                    requires
                        vm.memory.frames() * (PAGE_SIZE as int) >= 21 * (PAGE_SIZE as int),
                ;
            }
        }
        let ghost mem_before = vm.memory;
        if let Err(e) = vm.setup_exception_handling() {
            proof {
                assert(!mem_before.is_mapped(IDT_ADDRESS));
                assert(!mem_before.is_mapped(IDT_HANDLERS));
                assert(!mem_before.is_mapped(GDT_ADDRESS));
                assert(!mem_before.is_mapped(TSS_ADDRESS));
                assert(!mem_before.is_mapped(STACK_ADDRESS));
                assert(mem_before.frames() < 21);
                assert(mem_before.frames() * (PAGE_SIZE as int) < 21 * (PAGE_SIZE as int))
                    by (nonlinear_arith)
                    requires
                        mem_before.frames() < 21,
                        mem_before.frames() >= 0,
                ;
            }
            return Err(e);
        }
        proof {
            // What the flush commits to the processor is the long-mode
            // configuration: every control-register and segment invariant
            // of the bootstrap holds of the mirror at this point.
            assert(spec_long_mode_sregs(vm.special_registers));
        }
        if let Err(e) = vm.flush_registers() {
            return Err(e);
        }
        Ok(vm)
    }

    /// The memory-slot description the embedder registers with the
    /// hypervisor: slot 0, guest physical base 0, the whole guest memory,
    /// with dirty logging expected on.
    pub fn memory_slot_request(&self) -> (r: MemorySlotRequest)
        ensures
            r.slot == 0,
            r.guest_phys_addr == 0,
            r.memory_size == self.mem().phys().len(),
    {
        MemorySlotRequest {
            slot: 0,
            guest_phys_addr: 0,
            memory_size: self.memory.host_memory_size() as u64,
        }
    }

    /// The virtual-machine handle, for the embedder's slot registration
    /// and dirty-log acknowledgement.
    pub fn vm_fd(&self) -> &kvm_ioctls::VmFd {
        &self.kvm_vm
    }

    /// Installs a snapshot's register block in the mirror.
    pub fn set_regs_snapshot(&mut self, regs: &SnapshotRegisters)
        ensures
            forall|x: Register|
                reg_value(final(self).regs(), final(self).fs(), final(self).gs(), x)
                    == snapshot_reg(*regs, x),
            final(self).mem() == old(self).mem(),
            final(self).wf() == old(self).wf(),
            final(self).sregs() == old(self).sregs(),
            final(self).hypercall_base() == old(self).hypercall_base(),
    {
        self.set_reg(Register::Rax, regs.rax);
        self.set_reg(Register::Rbx, regs.rbx);
        self.set_reg(Register::Rcx, regs.rcx);
        self.set_reg(Register::Rdx, regs.rdx);
        self.set_reg(Register::Rsi, regs.rsi);
        self.set_reg(Register::Rdi, regs.rdi);
        self.set_reg(Register::Rsp, regs.rsp);
        self.set_reg(Register::Rbp, regs.rbp);
        self.set_reg(Register::R8, regs.r8);
        self.set_reg(Register::R9, regs.r9);
        self.set_reg(Register::R10, regs.r10);
        self.set_reg(Register::R11, regs.r11);
        self.set_reg(Register::R12, regs.r12);
        self.set_reg(Register::R13, regs.r13);
        self.set_reg(Register::R14, regs.r14);
        self.set_reg(Register::R15, regs.r15);
        self.set_reg(Register::Rip, regs.rip);
        self.set_reg(Register::Rflags, regs.rflags);
        self.set_reg(Register::FsBase, regs.fs_base);
        self.set_reg(Register::GsBase, regs.gs_base);
    }

    /// Resets this machine to the state of `other`: the register mirror is
    /// copied wholesale, the hypervisor's dirty log for the memory slot is
    /// queried, and every page it marks is copied back from `other`'s
    /// physical store. On success the bitmap that was applied is returned;
    /// the embedder must acknowledge exactly that bitmap through the
    /// hypervisor's dirty-log-clear control, which hands a raw pointer to
    /// the kernel and so lives outside this library.
    pub fn reset(&mut self, other: &Vm) -> (r: Result<Vec<u64>, VmError>)
        requires
            old(self).wf(),
            other.wf(),
            old(self).mem().phys().len() == other.mem().phys().len(),
        ensures
            final(self).wf(),
            final(self).regs() == other.regs(),
            final(self).sregs() == other.sregs(),
            final(self).fs() == other.fs(),
            final(self).gs() == other.gs(),
            final(self).hypercall_base() == old(self).hypercall_base(),
            final(self).mem().phys().len() == old(self).mem().phys().len(),
            forall|b: u64|
                #[trigger] final(self).mem().is_mapped(b) <==> old(self).mem().is_mapped(b),
            forall|b: u64|
                #[trigger] old(self).mem().is_mapped(b) ==> final(self).mem().perms_of(b)
                    == old(self).mem().perms_of(b) && final(self).mem().dirty_of(b) == old(self).mem().dirty_of(b) && final(self).mem().frame_of(b) == old(self).mem().frame_of(b),
            match r {
                Ok(bitmap) => {
                    &&& forall|p: int|
                        #[trigger] bitmap_bit(bitmap@, p) ==> p * (PAGE_SIZE as int) + (
                        PAGE_SIZE as int) <= old(self).mem().phys().len()
                    &&& forall|q: int|
                        0 <= q < old(self).mem().phys().len() ==> #[trigger] final(self).mem().phys()[q] == (if bitmap_bit(bitmap@, q / (PAGE_SIZE as int)) {
                            other.mem().phys()[q]
                        } else {
                            old(self).mem().phys()[q]
                        })
                },
                Err(VmError::HvError(_)) => final(self).mem().phys() == old(self).mem().phys(),
                Err(VmError::MemoryError(MemoryError::OutOfRange(_))) => final(self).mem().phys() == old(self).mem().phys(),
                _ => false,
            },
    {
        // The register mirror is copied wholesale.
        self.registers = other.registers;
        self.special_registers = other.special_registers;
        self.fs_base = other.fs_base;
        self.gs_base = other.gs_base;
        let size = self.memory.host_memory_size();
        let bitmap = match hv::vm_get_dirty_log(&self.kvm_vm, 0, size) {
            Some(b) => b,
            None => {
                return Err(VmError::HvError("Could not get dirty log for current vm"));
            },
        };
        match restore_dirty_pages(&mut self.memory, &other.memory, &bitmap) {
            Ok(()) => Ok(bitmap),
            Err(e) => Err(VmError::MemoryError(e)),
        }
    }

    /// An independent machine with the same memory size, the same register
    /// mirror and a byte-for-byte copy of the guest memory, sharing no
    /// hypervisor state with this one. The embedder registers the clone's
    /// memory slot as for a machine built directly.
    pub fn clone(&self) -> (r: Result<Vm, VmError>)
        requires
            self.wf(),
        ensures
            match r {
                Ok(vm) => {
                    &&& vm.wf()
                    &&& vm.regs() == self.regs()
                    &&& vm.sregs() == self.sregs()
                    &&& vm.fs() == self.fs()
                    &&& vm.gs() == self.gs()
                    &&& vm.hypercall_base() == IDT_HANDLERS
                    &&& vm.mem().phys() == self.mem().phys()
                    &&& vm.mem().mappings_view() == self.mem().mappings_view()
                    &&& forall|b: u64|
                        #[trigger] vm.mem().is_mapped(b) <==> self.mem().is_mapped(b)
                    &&& forall|b: u64|
                        #[trigger] self.mem().is_mapped(b) ==> vm.mem().perms_of(b)
                            == self.mem().perms_of(b) && vm.mem().dirty_of(b)
                            == self.mem().dirty_of(b)
                },
                Err(VmError::MemoryError(e)) => self.mem().phys().len() + PAGE_SIZE
                    > usize::MAX || spec_round_up_to_page(self.mem().phys().len() as int) < 21
                    * (PAGE_SIZE as int),
                Err(VmError::HvError(m)) => spec_construction_hv_message(m),
                Err(VmError::SnapshotError(e)) => false,
            },
    {
        let mut vm = match Vm::new(self.memory.host_memory_size()) {
            Ok(v) => v,
            Err(e) => {
                return Err(match e {
                    VmError::MemoryError(m) => VmError::MemoryError(m),
                    VmError::SnapshotError(se) => VmError::SnapshotError(se),
                    VmError::HvError(h) => VmError::HvError(h),
                });
            },
        };
        vm.registers = self.registers;
        vm.special_registers = self.special_registers;
        vm.fs_base = self.fs_base;
        vm.gs_base = self.gs_base;
        vm.memory = self.memory.duplicate();
        Ok(vm)
    }

    /// Installs a parsed snapshot: maps each of its ranges, copies their
    /// pages from the memory dump (bytes past the end of the dump read as
    /// zero), installs the register block and flushes it to the processor.
    /// The embedder parses the manifest and reads both files; this
    /// function takes their contents as plain values.
    pub fn load_snapshot(&mut self, info: &SnapshotInfo, dump: &[u8]) -> (r: Result<
        (),
        VmError,
    >)
        requires
            old(self).wf(),
            forall|i: int|
                0 <= i < info.mappings@.len() ==> (#[trigger] info.mappings@[i]).start
                    < info.mappings@[i].end,
        ensures
            final(self).wf(),
            final(self).hypercall_base() == old(self).hypercall_base(),
            r is Ok ==> forall|i: int, a: int|
                0 <= i < info.mappings@.len() && #[trigger] snapshot_range_holds(
                    info.mappings@[i],
                    a,
                ) ==> final(self).mem().byte_at(a) == snapshot_byte(
                    info.mappings@[i],
                    dump@,
                    a,
                ),
            r is Ok ==> forall|i: int, k: int|
                0 <= i < info.mappings@.len() && 0 <= k < spec_snapshot_pages(
                    info.mappings@[i],
                ) ==> final(self).mem().is_mapped(
                    #[trigger] page_at(info.mappings@[i].start, k),
                ) && final(self).mem().perms_of(page_at(info.mappings@[i].start, k))
                    == info.mappings@[i].permissions,
            r matches Err(VmError::MemoryError(e)) ==> exists|i: int|
                0 <= i < info.mappings@.len() && spec_snapshot_mapping_error(
                    #[trigger] info.mappings@[i],
                    e,
                ),
            r matches Err(VmError::HvError(m)) ==> spec_flush_hv_message(m),
            r matches Err(VmError::SnapshotError(_)) ==> false,
    {
        let n = info.mappings.len();
        let mut i: usize = 0;
        while i < n
            invariant
                self.wf(),
                n == info.mappings@.len(),
                i <= n,
                forall|j: int|
                    0 <= j < n ==> (#[trigger] info.mappings@[j]).start
                        < info.mappings@[j].end,
                self.hypercall_page == old(self).hypercall_base(),
                forall|j: int, a: int|
                    0 <= j < i && #[trigger] snapshot_range_holds(info.mappings@[j], a)
                        ==> self.mem().byte_at(a) == snapshot_byte(
                        info.mappings@[j],
                        dump@,
                        a,
                    ) && self.mem().byte_mapped(a),
                forall|j: int, k: int|
                    0 <= j < i && 0 <= k < spec_snapshot_pages(info.mappings@[j])
                        ==> self.mem().is_mapped(
                        #[trigger] page_at(info.mappings@[j].start, k),
                    ) && self.mem().perms_of(page_at(info.mappings@[j].start, k))
                        == info.mappings@[j].permissions,
            decreases n - i,
        {
            let m = info.mappings[i];
            if let Err(e) = load_mapping(&mut self.memory, m, dump) {
                proof {
                    assert(spec_snapshot_mapping_error(info.mappings@[i as int], e));
                    assert(exists|i2: int|
                        0 <= i2 < info.mappings@.len() && spec_snapshot_mapping_error(
                            #[trigger] info.mappings@[i2],
                            e,
                        ));
                }
                return Err(VmError::MemoryError(e));
            }
            i += 1;
        }
        self.set_regs_snapshot(&info.registers);
        if let Err(e) = self.flush_registers() {
            return Err(e);
        }
        Ok(())
    }
}

/// The least address of `[addr, addr + len)` whose page is unmapped, as an
/// error of the guest-memory subsystem.
pub open spec fn spec_unmapped_err(mem: VirtualMemory, addr: u64, len: int) -> VmError {
    VmError::MemoryError(
        MemoryError::Unmapped(
            (choose|a: int| mem.first_unmapped(addr as int, len, a)) as u64,
        ),
    )
}

/// Whether `[addr, addr + len)` stays below the top of the address space
/// and is fully mapped.
pub open spec fn spec_readable(mem: VirtualMemory, addr: u64, len: int) -> bool {
    &&& addr + len <= u64::MAX + 1
    &&& mem.range_mapped(addr as int, len)
}

/// The exception frame as laid out at address `fa`: return address, code
/// segment, flags, faulting stack pointer, stack segment.
pub open spec fn spec_frame_at(mem: VirtualMemory, fa: int) -> ExceptionFrame {
    ExceptionFrame {
        rip: mem.read_u64_at(fa),
        cs: mem.read_u64_at(fa + 8),
        rflags: mem.read_u64_at(fa + 16),
        rsp: mem.read_u64_at(fa + 24),
        ss: mem.read_u64_at(fa + 32),
    }
}

/// The register block with the stack and instruction pointers restored to
/// their values before the exception.
pub open spec fn spec_regs_restored(regs: kvm_bindings::kvm_regs, rsp: u64, rip: u64)
    -> kvm_bindings::kvm_regs {
    kvm_bindings::kvm_regs { rsp, rip, ..regs }
}

/// `x + 2` with the address space wrapping at the top.
pub open spec fn spec_step_over_syscall(x: u64) -> u64 {
    if x + 2 <= u64::MAX {
        (x + 2) as u64
    } else {
        (x + 2 - 0x1_0000_0000_0000_0000) as u64
    }
}

/// What a halt exit means, given the guest memory, the registers pulled on
/// exit, the faulting-address register and the trampoline page base.
///
/// A halt outside the trampoline page is the guest's own. One inside it is
/// an exception report: the stub pushed its vector on the alternate stack
/// above the processor's frame, so the vector sits at the stack pointer,
/// the error code (for the vectors that carry one) just above it, and the
/// frame above that. The guest's context is restored from the frame; a
/// page fault reports the error code and faulting address; an invalid
/// opcode over the two syscall bytes is reported as a syscall with the
/// instruction pointer stepped past them; every other vector is reported
/// as the exception it is.
pub open spec fn spec_halt(
    mem: VirtualMemory,
    regs: kvm_bindings::kvm_regs,
    cr2: u64,
    hp: u64,
) -> (Result<VmExit, VmError>, kvm_bindings::kvm_regs) {
    let rip = regs.rip;
    let rsp = regs.rsp;
    if !(hp <= rip < hp + PAGE_SIZE) {
        (Ok(VmExit::Hlt), regs)
    } else if rsp > u64::MAX - 56 {
        (Err(VmError::MemoryError(MemoryError::OutOfRange(rsp))), regs)
    } else if !mem.range_mapped(rsp as int, 8) {
        (spec_err_result(mem, rsp, 8), regs)
    } else {
        let vector = mem.read_u64_at(rsp as int);
        if vector_has_error_code(vector) && !mem.range_mapped(rsp as int + 8, 8) {
            (spec_err_result(mem, (rsp + 8) as u64, 8), regs)
        } else {
            let error_code = if vector_has_error_code(vector) {
                mem.read_u64_at(rsp as int + 8)
            } else {
                0
            };
            let fa = if vector_has_error_code(vector) {
                (rsp + 16) as u64
            } else {
                (rsp + 8) as u64
            };
            if !mem.range_mapped(fa as int, 40) {
                (spec_err_result(mem, fa, 40), regs)
            } else {
                let frame = spec_frame_at(mem, fa as int);
                let restored = spec_regs_restored(regs, frame.rsp, frame.rip);
                if vector == VECTOR_PAGE_FAULT {
                    (
                        Ok(
                            VmExit::PageFault(
                                PageFaultDetail { status: error_code as u32, address: cr2 },
                            ),
                        ),
                        restored,
                    )
                } else if vector == VECTOR_INVALID_OPCODE {
                    if spec_readable(mem, frame.rip, 2) && mem.bytes_at(frame.rip as int, 2)
                        == seq![0x0fu8, 0x05u8] {
                        (
                            Ok(VmExit::Syscall),
                            spec_regs_restored(regs, frame.rsp, spec_step_over_syscall(frame.rip)),
                        )
                    } else {
                        (Ok(VmExit::InvalidInstruction), restored)
                    }
                } else {
                    (Ok(VmExit::Exception(vector)), restored)
                }
            }
        }
    }
}

/// The unmapped-page error for a range already known to stay below the top
/// of the address space.
pub open spec fn spec_err_result(mem: VirtualMemory, addr: u64, len: int) -> Result<
    VmExit,
    VmError,
> {
    Err(spec_unmapped_err(mem, addr, len))
}

/// The least unmapped address of a range is unique.
proof fn lemma_first_unmapped_unique(mem: VirtualMemory, addr: int, len: int, a: int, b: int)
    requires
        mem.first_unmapped(addr, len, a),
        mem.first_unmapped(addr, len, b),
    ensures
        a == b,
{
    if a < b {
        assert(mem.byte_mapped(a));
    }
    if b < a {
        assert(mem.byte_mapped(b));
    }
}

/// Turns the unmapped-page error a memory read reported into the library
/// error the halt model names.
proof fn lemma_err_matches(mem: VirtualMemory, addr: u64, len: int, a: u64)
    requires
        mem.first_unmapped(addr as int, len, a as int),
    ensures
        spec_unmapped_err(mem, addr, len) == VmError::MemoryError(MemoryError::Unmapped(a)),
{
    let c = choose|x: int| mem.first_unmapped(addr as int, len, x);
    lemma_first_unmapped_unique(mem, addr as int, len, c, a as int);
}

/// Decodes a halt exit: a guest halt if the instruction pointer lies
/// outside the trampoline page, otherwise the exception the trampoline
/// reported, with the guest context restored from the exception frame.
pub fn handle_halt(
    mem: &VirtualMemory,
    regs: &mut kvm_bindings::kvm_regs,
    cr2: u64,
    hp: u64,
) -> (r: Result<VmExit, VmError>)
    requires
        mem.wf(),
    ensures
        (r, *final(regs)) == spec_halt(*mem, *old(regs), cr2, hp),
{
    let rip = regs.rip;
    let rsp = regs.rsp;
    if rip < hp || rip - hp >= PAGE_SIZE as u64 {
        return Ok(VmExit::Hlt);
    }
    if rsp > u64::MAX - 56 {
        return Err(VmError::MemoryError(MemoryError::OutOfRange(rsp)));
    }
    let vector = match mem.read_val(rsp) {
        Ok(v) => v,
        Err(e) => {
            proof {
                match e {
                    MemoryError::Unmapped(a) => {
                        lemma_err_matches(*mem, rsp, 8, a);
                    },
                    _ => {},
                }
            }
            return Err(VmError::MemoryError(e));
        },
    };
    let has_ec = crate::x64::has_error_code(vector);
    let error_code: u64 = if has_ec {
        match mem.read_val(rsp + 8) {
            Ok(v) => v,
            Err(e) => {
                proof {
                    match e {
                        MemoryError::Unmapped(a) => {
                            lemma_err_matches(*mem, (rsp + 8) as u64, 8, a);
                        },
                        _ => {},
                    }
                }
                return Err(VmError::MemoryError(e));
            },
        }
    } else {
        0
    };
    let fa: u64 = if has_ec {
        rsp + 16
    } else {
        rsp + 8
    };
    // Validate the whole frame at once so the reported address is the
    // lowest missing one.
    match mem.read(fa, 40) {
        Ok(_) => (),
        Err(e) => {
            proof {
                match e {
                    MemoryError::Unmapped(a) => {
                        lemma_err_matches(*mem, fa, 40, a);
                    },
                    _ => {},
                }
            }
            return Err(VmError::MemoryError(e));
        },
    }
    let frame_rip = match mem.read_val(fa) {
        Ok(v) => v,
        Err(_) => {
            proof {
                assert(false);
            }
            return Err(VmError::MemoryError(MemoryError::Unmapped(fa)));
        },
    };
    let frame_rsp = match mem.read_val(fa + 24) {
        Ok(v) => v,
        Err(_) => {
            proof {
                assert(false);
            }
            return Err(VmError::MemoryError(MemoryError::Unmapped(fa)));
        },
    };
    // Restore the guest context to the moment of the exception.
    regs.rsp = frame_rsp;
    regs.rip = frame_rip;
    proof {
        assert(*regs == spec_regs_restored(
            *old(regs),
            spec_frame_at(*mem, fa as int).rsp,
            spec_frame_at(*mem, fa as int).rip,
        ));
    }
    if vector == VECTOR_PAGE_FAULT {
        return Ok(
            VmExit::PageFault(PageFaultDetail { status: error_code as u32, address: cr2 }),
        );
    }
    if vector == VECTOR_INVALID_OPCODE {
        match mem.read(frame_rip, 2) {
            Ok(code) => {
                if code[0] == 0x0f && code[1] == 0x05 {
                    proof {
                        assert(mem.bytes_at(frame_rip as int, 2) =~= seq![0x0fu8, 0x05u8]);
                    }
                    regs.rip = if frame_rip <= u64::MAX - 2 {
                        frame_rip + 2
                    } else {
                        0
                    };
                    return Ok(VmExit::Syscall);
                }
                proof {
                    if mem.bytes_at(frame_rip as int, 2) == seq![0x0fu8, 0x05u8] {
                        assert(mem.bytes_at(frame_rip as int, 2)[0] == 0x0f);
                        assert(mem.bytes_at(frame_rip as int, 2)[1] == 0x05);
                    }
                }
                return Ok(VmExit::InvalidInstruction);
            },
            Err(_) => {
                return Ok(VmExit::InvalidInstruction);
            },
        }
    }
    Ok(VmExit::Exception(vector))
}

/// What the run loop reports for each way the hypervisor's run call can
/// come back. A failed call whose error number names an interrupted or
/// to-be-retried call is a resumable interruption; any other failure is a
/// hypervisor error.
pub open spec fn spec_classify(
    outcome: HvRunRaw,
    mem: VirtualMemory,
    regs: kvm_bindings::kvm_regs,
    cr2: u64,
    hp: u64,
) -> (Result<VmExit, VmError>, kvm_bindings::kvm_regs) {
    match outcome {
        HvRunRaw::Debug => (Ok(VmExit::Breakpoint), regs),
        HvRunRaw::Hlt => spec_halt(mem, regs, cr2, hp),
        HvRunRaw::Other => (Ok(VmExit::Unhandled), regs),
        HvRunRaw::Failed(_) => if spec_run_retry(outcome) {
            (Ok(VmExit::Interrupted), regs)
        } else {
            (Err(VmError::HvError("Unexpected errno in KVM_RUN")), regs)
        },
    }
}

/// Classifies a raw hypervisor exit into the exit reason handed to the
/// embedder, restoring the guest context when the exit was an exception
/// report. An interruption is reported exactly when a failed run call's
/// error number names an interrupted or to-be-retried call.
pub fn classify_exit(
    outcome: HvRunRaw,
    mem: &VirtualMemory,
    regs: &mut kvm_bindings::kvm_regs,
    cr2: u64,
    hp: u64,
) -> (r: Result<VmExit, VmError>)
    requires
        mem.wf(),
    ensures
        (r, *final(regs)) == spec_classify(outcome, *mem, *old(regs), cr2, hp),
{
    match outcome {
        HvRunRaw::Debug => Ok(VmExit::Breakpoint),
        HvRunRaw::Hlt => handle_halt(mem, regs, cr2, hp),
        HvRunRaw::Other => Ok(VmExit::Unhandled),
        HvRunRaw::Failed(errno) => if hv::errno_is_retry(errno) {
            Ok(VmExit::Interrupted)
        } else {
            Err(VmError::HvError("Unexpected errno in KVM_RUN"))
        },
    }
}

/// Exit classification is total: every raw hypervisor outcome, over every
/// memory, register block and state, maps to exactly one exit value — a
/// debug trap to a breakpoint, a halt to what the halt model says, an
/// unrecognized exit to the unhandled report, and a failed call either to
/// an interruption or to a hypervisor error.
pub proof fn lemma_exit_classification_total(
    outcome: HvRunRaw,
    mem: VirtualMemory,
    regs: kvm_bindings::kvm_regs,
    cr2: u64,
    hp: u64,
)
    ensures
        outcome is Debug ==> spec_classify(outcome, mem, regs, cr2, hp) == (
        Ok::<VmExit, VmError>(VmExit::Breakpoint), regs),
        outcome is Hlt ==> spec_classify(outcome, mem, regs, cr2, hp) == spec_halt(
            mem,
            regs,
            cr2,
            hp,
        ),
        outcome is Other ==> spec_classify(outcome, mem, regs, cr2, hp) == (
        Ok::<VmExit, VmError>(VmExit::Unhandled), regs),
        outcome is Failed && spec_run_retry(outcome) ==> spec_classify(
            outcome,
            mem,
            regs,
            cr2,
            hp,
        ) == (Ok::<VmExit, VmError>(VmExit::Interrupted), regs),
        outcome is Failed && !spec_run_retry(outcome) ==> spec_classify(
            outcome,
            mem,
            regs,
            cr2,
            hp,
        ).0 is Err,
{
}

/// The description of the guest-memory slot an embedder must register
/// with the hypervisor before the first run: slot number, guest physical
/// base and size in bytes. Registering it hands raw host memory to the
/// kernel, which is outside what this library can do itself.
#[derive(Copy, Clone, Debug, PartialEq, Eq, Structural)]
pub struct MemorySlotRequest {
    /// Slot number; this library uses a single slot.
    pub slot: u32,
    /// Guest physical address the slot starts at.
    pub guest_phys_addr: u64,
    /// Size of the slot in bytes.
    pub memory_size: u64,
}

/// Value of a register of a snapshot's register block.
pub open spec fn snapshot_reg(s: SnapshotRegisters, id: Register) -> u64 {
    match id {
        Register::Rax => s.rax,
        Register::Rbx => s.rbx,
        Register::Rcx => s.rcx,
        Register::Rdx => s.rdx,
        Register::Rsi => s.rsi,
        Register::Rdi => s.rdi,
        Register::Rsp => s.rsp,
        Register::Rbp => s.rbp,
        Register::R8 => s.r8,
        Register::R9 => s.r9,
        Register::R10 => s.r10,
        Register::R11 => s.r11,
        Register::R12 => s.r12,
        Register::R13 => s.r13,
        Register::R14 => s.r14,
        Register::R15 => s.r15,
        Register::Rip => s.rip,
        Register::Rflags => s.rflags,
        Register::FsBase => s.fs_base,
        Register::GsBase => s.gs_base,
    }
}

/// Composes the memory facts of a run: the mirror commit leaves the
/// memory alone, the guest entry keeps the mapping records, and folding
/// the dirty log only raises dirty flags.
proof fn lemma_run_memory_chain(
    m0: VirtualMemory,
    m1: VirtualMemory,
    m2: VirtualMemory,
    m3: VirtualMemory,
)
    requires
        m1 == m0,
        m2.phys().len() == m1.phys().len(),
        forall|b: u64| #[trigger] m2.is_mapped(b) <==> m1.is_mapped(b),
        forall|b: u64|
            #[trigger] m1.is_mapped(b) ==> m2.perms_of(b) == m1.perms_of(b) && m2.frame_of(b)
                == m1.frame_of(b) && m2.dirty_of(b) == m1.dirty_of(b),
        m3.phys().len() == m2.phys().len(),
        forall|b: u64| #[trigger] m3.is_mapped(b) <==> m2.is_mapped(b),
        forall|b: u64|
            #[trigger] m2.is_mapped(b) ==> m3.perms_of(b) == m2.perms_of(b) && m3.frame_of(b)
                == m2.frame_of(b) && (m2.dirty_of(b) ==> m3.dirty_of(b)),
    ensures
        m3.phys().len() == m0.phys().len(),
        forall|b: u64| #[trigger] m3.is_mapped(b) <==> m0.is_mapped(b),
        forall|b: u64|
            #[trigger] m0.is_mapped(b) ==> m3.perms_of(b) == m0.perms_of(b) && m3.frame_of(b)
                == m0.frame_of(b),
        forall|b: u64|
            #[trigger] m0.is_mapped(b) && m0.dirty_of(b) ==> m3.dirty_of(b),
{
    assert forall|b: u64| #[trigger] m3.is_mapped(b) <==> m0.is_mapped(b) by {
        assert(m2.is_mapped(b) <==> m1.is_mapped(b));
    }
    assert forall|b: u64| #[trigger] m0.is_mapped(b) implies m3.perms_of(b) == m0.perms_of(b)
        && m3.frame_of(b) == m0.frame_of(b) && (m0.dirty_of(b) ==> m3.dirty_of(b)) by {
        assert(m1.is_mapped(b));
        assert(m2.is_mapped(b));
    }
}

/// The number of whole pages a snapshot mapping covers.
pub open spec fn spec_snapshot_pages(m: SnapshotMapping) -> int {
    VirtualMemory::spec_pages_of(((m.end - m.start) as usize) as int)
}

/// The condition under which installing one snapshot mapping reports each
/// memory error. The overlap and exhaustion cases also depend on what was
/// installed before the failing mapping.
pub open spec fn spec_snapshot_mapping_error(m: SnapshotMapping, e: MemoryError) -> bool {
    let np = spec_snapshot_pages(m);
    match e {
        MemoryError::Unaligned(a) => a == m.start && m.start % (PAGE_SIZE as u64) != 0,
        MemoryError::OutOfRange(a) => a == m.start && m.start + np * (PAGE_SIZE as int)
            > u64::MAX + 1,
        MemoryError::AlreadyMapped(b) => exists|k: int|
            0 <= k < np && b == #[trigger] page_at(m.start, k),
        MemoryError::OutOfMemory => true,
        _ => false,
    }
}

/// The page-rounded extent in bytes that a snapshot mapping covers.
pub open spec fn snapshot_extent(m: SnapshotMapping) -> int {
    VirtualMemory::spec_pages_of(((m.end - m.start) as usize) as int) * (PAGE_SIZE as int)
}

/// Whether guest address `a` falls in the page-rounded range of a
/// snapshot mapping.
pub open spec fn snapshot_range_holds(m: SnapshotMapping, a: int) -> bool {
    m.start <= a < m.start + snapshot_extent(m)
}

/// The byte a snapshot mapping places at guest address `a`: read from the
/// dump at the mapping's physical offset, zero past the dump's end.
pub open spec fn snapshot_byte(m: SnapshotMapping, dump: Seq<u8>, a: int) -> u8 {
    let off = m.physical_offset + (a - m.start);
    if 0 <= off < dump.len() {
        dump[off]
    } else {
        0
    }
}

/// Maps one snapshot range with its declared rights and fills it from the
/// memory dump, page-rounded, bytes past the dump's end reading as zero.
/// Every byte that was reachable before keeps its value and stays mapped.
pub fn load_mapping(mem: &mut VirtualMemory, m: SnapshotMapping, dump: &[u8]) -> (r: Result<
    (),
    MemoryError,
>)
    requires
        old(mem).wf(),
        m.start < m.end,
    ensures
        final(mem).wf(),
        match r {
            Ok(()) => {
                &&& forall|a: int|
                    snapshot_range_holds(m, a) ==> final(mem).byte_at(a) == snapshot_byte(
                        m,
                        dump@,
                        a,
                    ) && final(mem).byte_mapped(a)
                &&& forall|k: int|
                    0 <= k < spec_snapshot_pages(m) ==> final(mem).is_mapped(
                        #[trigger] page_at(m.start, k),
                    ) && final(mem).perms_of(page_at(m.start, k)) == m.permissions
                &&& forall|b: u64|
                    #[trigger] old(mem).is_mapped(b) ==> final(mem).is_mapped(b) && final(mem).perms_of(b) == old(mem).perms_of(b)
                &&& forall|x: int|
                    old(mem).byte_mapped(x) ==> final(mem).byte_mapped(x) && final(mem).byte_at(x) == old(mem).byte_at(x)
                &&& final(mem).phys().len() == old(mem).phys().len()
            },
            Err(e) => {
                &&& final(mem).mappings_view() == old(mem).mappings_view()
                &&& forall|b: u64|
                    #[trigger] final(mem).is_mapped(b) <==> old(mem).is_mapped(b)
                &&& forall|b: u64|
                    #[trigger] old(mem).is_mapped(b) ==> final(mem).perms_of(b) == old(mem).perms_of(b) && final(mem).dirty_of(b) == old(mem).dirty_of(b)
                &&& final(mem).phys().len() == old(mem).phys().len()
                &&& forall|x: int|
                    #[trigger] old(mem).byte_mapped(x) ==> final(mem).byte_at(x) == old(mem).byte_at(x)
                &&& ({
                    let np = VirtualMemory::spec_pages_of(((m.end - m.start) as usize) as int);
                    match e {
                        MemoryError::Unaligned(a) => {
                            &&& a == m.start
                            &&& m.start % (PAGE_SIZE as u64) != 0
                        },
                        MemoryError::OutOfRange(a) => {
                            &&& a == m.start
                            &&& m.start + np * (PAGE_SIZE as int) > u64::MAX + 1
                        },
                        MemoryError::AlreadyMapped(b) => exists|k: int|
                            0 <= k < np && b == #[trigger] page_at(m.start, k) && old(mem).is_mapped(b),
                        MemoryError::OutOfMemory => np > old(mem).frames() - old(mem).next_free_frame() || final(mem).next_free_frame() == final(mem).frames(),
                        _ => false,
                    }
                })
            },
        },
{
    let size = #[verifier::truncate] ((m.end - m.start) as usize);
    if let Err(e) = mem.mmap(m.start, size, m.permissions) {
        return Err(e);
    }
    let ghost after_map = *mem;
    let npages: usize = size / PAGE_SIZE + if size % PAGE_SIZE != 0 {
        1
    } else {
        0
    };
    let host_len: usize = mem.host_memory_size();
    proof {
        assert(npages as int == VirtualMemory::spec_pages_of(size as int)) by {
            vstd::arithmetic::div_mod::lemma_fundamental_div_mod(size as int, PAGE_SIZE as int);
        };
        old(mem).lemma_wf_size();
        mem.lemma_wf_size();
        assert(npages as int <= mem.frames());
        assert(npages as int * (PAGE_SIZE as int) <= mem.frames() * (PAGE_SIZE as int)) by {
            vstd::arithmetic::mul::lemma_mul_inequality(
                npages as int,
                mem.frames(),
                PAGE_SIZE as int,
            );
        };
        assert(mem.frames() * (PAGE_SIZE as int) == host_len as int);
    }
    let total: usize = npages * PAGE_SIZE;
    let dlen: usize = dump.len();
    let mut buf: Vec<u8> = Vec::new();
    let mut j: usize = 0;
    while j < total
        invariant
            j <= total,
            buf@.len() == j,
            dlen == dump@.len(),
            total as int == snapshot_extent(m),
            m.start + total <= u64::MAX + 1,
            forall|p: int|
                0 <= p < j ==> buf@[p] == snapshot_byte(m, dump@, m.start + p),
        decreases total - j,
    {
        let byte: u8 = if m.physical_offset <= u64::MAX - (j as u64) && m.physical_offset + (
        j as u64) < dump.len() as u64 {
            dump[(m.physical_offset + j as u64) as usize]
        } else {
            0
        };
        buf.push(byte);
        j += 1;
    }
    proof {
        mem.lemma_pages_range_mapped(m.start, npages as int);
    }
    match mem.write(m.start, buf.as_slice()) {
        Ok(()) => (),
        Err(_) => {
            proof {
                assert(false);
            }
            return Err(MemoryError::Unmapped(m.start));
        },
    }
    proof {
        assert forall|a: int| snapshot_range_holds(m, a) implies mem.byte_at(a)
            == snapshot_byte(m, dump@, a) && mem.byte_mapped(a) by {
            let p = a - m.start;
            assert(0 <= p < total);
            assert(mem.bytes_at(m.start as int, buf@.len() as int) == buf@);
            assert(mem.bytes_at(m.start as int, total as int)[p] == mem.byte_at(m.start + p));
            assert(buf@[p] == snapshot_byte(m, dump@, m.start + p));
            assert(after_map.byte_mapped(a));
            assert(mem.is_mapped(VirtualMemory::page_base_of(a) as u64) == after_map.is_mapped(
                VirtualMemory::page_base_of(a) as u64,
            ));
        }
        assert forall|x: int| old(mem).byte_mapped(x) implies mem.byte_mapped(x) && mem.byte_at(
            x,
        ) == old(mem).byte_at(x) by {
            assert(after_map.byte_mapped(x));
            assert(after_map.byte_at(x) == old(mem).byte_at(x));
            if m.start <= x < m.start + total {
                // A previously reachable byte cannot lie in the fresh range:
                // its page was mapped, the fresh pages were not.
                after_map.lemma_pages_range_mapped(m.start, npages as int);
                let ps = PAGE_SIZE as int;
                let d = x - m.start;
                let k = d / ps;
                vstd::arithmetic::div_mod::lemma_fundamental_div_mod(d, ps);
                vstd::arithmetic::div_mod::lemma_mod_bound(d, ps);
                vstd::arithmetic::div_mod::lemma_div_pos_is_pos(d, ps);
                assert(k < npages) by {
                    if k >= npages {
                        vstd::arithmetic::mul::lemma_mul_inequality(npages as int, k, ps);
                    }
                };
                assert(!old(mem).is_mapped(page_at(m.start, k)));
                assert(page_at(m.start, k) % (PAGE_SIZE as u64) == 0) by {
                    vstd::arithmetic::div_mod::lemma_mod_multiples_vanish(
                        k,
                        m.start as int,
                        ps,
                    );
                    vstd::arithmetic::mul::lemma_mul_inequality(k + 1, npages as int, ps);
                    assert((k + 1) * ps == k * ps + ps) by (nonlinear_arith);
                };
                assert(m.start + k * ps + ps <= u64::MAX + 1) by {
                    vstd::arithmetic::mul::lemma_mul_inequality(k + 1, npages as int, ps);
                    assert((k + 1) * ps == k * ps + ps) by (nonlinear_arith);
                };
                VirtualMemory::lemma_page_base_offset(page_at(m.start, k), d % ps);
                assert(VirtualMemory::page_base_of(x) == page_at(m.start, k));
                assert(false);
            }
        }
        assert forall|k: int| 0 <= k < spec_snapshot_pages(m) implies mem.is_mapped(
            #[trigger] page_at(m.start, k),
        ) && mem.perms_of(page_at(m.start, k)) == m.permissions by {
            assert(after_map.is_mapped(page_at(m.start, k)));
            assert(after_map.perms_of(page_at(m.start, k)) == m.permissions);
        }
    }
    Ok(())
}

/// Byte `p` of the combined image of the exception-control tables: the
/// interrupt-descriptor table page, the trampoline page, the global
/// descriptor table page and the task-state segment page, in that order,
/// each padded with zeros to a page.
pub open spec fn exception_image_byte(p: int) -> u8 {
    let ps = PAGE_SIZE as int;
    if p < 512 {
        crate::x64::idt_page_byte(IDT_HANDLERS, p)
    } else if p < ps {
        0
    } else if p < 2 * ps {
        crate::x64::trampoline_page_byte(p - ps)
    } else if p < 2 * ps + 32 {
        crate::x64::gdt_byte(TSS_ADDRESS, p - 2 * ps)
    } else if p < 3 * ps {
        0
    } else if p < 3 * ps + 104 {
        crate::x64::tss_byte(IST1_STACK_TOP, p - 3 * ps)
    } else {
        0
    }
}

/// Builds the combined image of the exception-control tables.
fn build_exception_image() -> (r: Vec<u8>)
    ensures
        r@.len() == 4 * PAGE_SIZE,
        forall|p: int| 0 <= p < 4 * PAGE_SIZE ==> r@[p] == exception_image_byte(p),
{
    let mut r = crate::x64::build_idt(IDT_HANDLERS);
    proof {
        assert(r@.len() == 512);
    }
    while r.len() < PAGE_SIZE
        invariant
            512 <= r@.len() <= PAGE_SIZE,
            forall|p: int| 0 <= p < r@.len() ==> r@[p] == exception_image_byte(p),
        decreases PAGE_SIZE - r@.len(),
    {
        r.push(0);
    }
    let tramp = crate::x64::build_trampolines();
    let mut j: usize = 0;
    while j < PAGE_SIZE
        invariant
            j <= PAGE_SIZE,
            tramp@.len() == PAGE_SIZE,
            forall|q: int|
                0 <= q < PAGE_SIZE ==> tramp@[q] == crate::x64::trampoline_page_byte(q),
            r@.len() == PAGE_SIZE + j,
            forall|p: int| 0 <= p < r@.len() ==> r@[p] == exception_image_byte(p),
        decreases PAGE_SIZE - j,
    {
        r.push(tramp[j]);
        j += 1;
    }
    let gdt = crate::x64::build_gdt(TSS_ADDRESS);
    let mut j: usize = 0;
    while j < 32
        invariant
            j <= 32,
            gdt@.len() == 32,
            forall|q: int| 0 <= q < 32 ==> gdt@[q] == crate::x64::gdt_byte(TSS_ADDRESS, q),
            r@.len() == 2 * PAGE_SIZE + j,
            forall|p: int| 0 <= p < r@.len() ==> r@[p] == exception_image_byte(p),
        decreases 32 - j,
    {
        r.push(gdt[j]);
        j += 1;
    }
    while r.len() < 3 * PAGE_SIZE
        invariant
            2 * PAGE_SIZE + 32 <= r@.len() <= 3 * PAGE_SIZE,
            forall|p: int| 0 <= p < r@.len() ==> r@[p] == exception_image_byte(p),
        decreases 3 * PAGE_SIZE - r@.len(),
    {
        r.push(0);
    }
    let tss = crate::x64::build_tss(IST1_STACK_TOP);
    let mut j: usize = 0;
    while j < 104
        invariant
            j <= 104,
            tss@.len() == 104,
            forall|q: int| 0 <= q < 104 ==> tss@[q] == crate::x64::tss_byte(IST1_STACK_TOP, q),
            r@.len() == 3 * PAGE_SIZE + j,
            forall|p: int| 0 <= p < r@.len() ==> r@[p] == exception_image_byte(p),
        decreases 104 - j,
    {
        r.push(tss[j]);
        j += 1;
    }
    while r.len() < 4 * PAGE_SIZE
        invariant
            3 * PAGE_SIZE + 104 <= r@.len() <= 4 * PAGE_SIZE,
            forall|p: int| 0 <= p < r@.len() ==> r@[p] == exception_image_byte(p),
        decreases 4 * PAGE_SIZE - r@.len(),
    {
        r.push(0);
    }
    r
}

/// A filter over a sequence none of whose elements satisfies the predicate
/// yields the empty sequence.
proof fn lemma_filter_none<A>(s: Seq<A>, pred: spec_fn(A) -> bool)
    requires
        forall|i: int| 0 <= i < s.len() ==> !pred(#[trigger] s[i]),
    ensures
        s.filter(pred) == Seq::<A>::empty(),
    decreases s.len(),
{
    reveal(Seq::filter);
    if s.len() > 0 {
        lemma_filter_none(s.drop_last(), pred);
        assert(!pred(s.last()));
    }
}

} // verus!
