use kvm_bindings::kvm_regs;
use tartiflette_vm::exit::HvRunRaw;
use tartiflette_vm::memory::PagePermissions;
use tartiflette_vm::memory::VirtualMemory;
use tartiflette_vm::memory::PAGE_SIZE;
use tartiflette_vm::vm::classify_exit;
use tartiflette_vm::vm::handle_halt;
use tartiflette_vm::MemoryError;
use tartiflette_vm::PageFaultDetail;
use tartiflette_vm::VmError;
use tartiflette_vm::VmExit;

const HYPERCALL_PAGE: u64 = 0x0010_0000;

fn rw() -> PagePermissions {
    PagePermissions { read: true, write: true, execute: false }
}

fn rx() -> PagePermissions {
    PagePermissions { read: true, write: false, execute: true }
}

/// A memory with an exception stack whose frame reports `vector` taken at
/// `fault_rip` with the guest stack at `fault_rsp`.
fn memory_with_frame(vector: u64, error_code: Option<u64>, fault_rip: u64, fault_rsp: u64) -> (VirtualMemory, u64) {
    let mut mem = VirtualMemory::new(64 * PAGE_SIZE).unwrap();
    let stack_top: u64 = 0x8000;
    mem.mmap(stack_top, PAGE_SIZE, rw()).unwrap();
    let rsp = stack_top + 0x100;
    // The stub pushed the vector last, so it sits at the stack pointer.
    mem.write_val(rsp, vector).unwrap();
    let mut at = rsp + 8;
    if let Some(code) = error_code {
        mem.write_val(at, code).unwrap();
        at += 8;
    }
    // The processor frame: return address, code segment, flags, stack
    // pointer, stack segment.
    mem.write_val(at, fault_rip).unwrap();
    mem.write_val(at + 8, 0x8).unwrap();
    mem.write_val(at + 16, 0x202).unwrap();
    mem.write_val(at + 24, fault_rsp).unwrap();
    mem.write_val(at + 32, 0x10).unwrap();
    (mem, rsp)
}

#[test]
fn halt_outside_the_hypercall_page_is_a_guest_halt() {
    let mem = VirtualMemory::new(16 * PAGE_SIZE).unwrap();
    let mut regs = kvm_regs::default();
    regs.rip = 0x5000;
    let r = handle_halt(&mem, &mut regs, 0, HYPERCALL_PAGE).unwrap();
    assert_eq!(r, VmExit::Hlt);
    assert_eq!(regs.rip, 0x5000);
}

#[test]
fn breakpoint_interrupted_failed_and_unhandled_classify() {
    let mem = VirtualMemory::new(16 * PAGE_SIZE).unwrap();
    let mut regs = kvm_regs::default();
    let r = classify_exit(HvRunRaw::Debug, &mem, &mut regs, 0, HYPERCALL_PAGE);
    assert_eq!(r.unwrap(), VmExit::Breakpoint);
    let r = classify_exit(HvRunRaw::Other, &mem, &mut regs, 0, HYPERCALL_PAGE);
    assert_eq!(r.unwrap(), VmExit::Unhandled);
    let r = classify_exit(HvRunRaw::Failed(4), &mem, &mut regs, 0, HYPERCALL_PAGE);
    assert_eq!(r.unwrap(), VmExit::Interrupted);
    let r = classify_exit(HvRunRaw::Failed(11), &mem, &mut regs, 0, HYPERCALL_PAGE);
    assert_eq!(r.unwrap(), VmExit::Interrupted);
    let r = classify_exit(HvRunRaw::Failed(5), &mem, &mut regs, 0, HYPERCALL_PAGE);
    assert!(matches!(r, Err(VmError::HvError(_))));
}

#[test]
fn syscall_bytes_synthesize_a_syscall_exit() {
    // The invalid-opcode vector over the two syscall bytes.
    let (mut mem, rsp) = memory_with_frame(6, None, 0x1337000, 0x9000);
    mem.mmap(0x1337000, PAGE_SIZE, rx()).unwrap();
    mem.write(0x1337000, &[0x0f, 0x05, 0xcc]).unwrap();
    let mut regs = kvm_regs::default();
    regs.rip = HYPERCALL_PAGE + 6 * 32 + 3;
    regs.rsp = rsp;
    let r = handle_halt(&mem, &mut regs, 0, HYPERCALL_PAGE).unwrap();
    assert_eq!(r, VmExit::Syscall);
    // The instruction pointer steps past the two syscall bytes.
    assert_eq!(regs.rip, 0x1337002);
    assert_eq!(regs.rsp, 0x9000);
}

#[test]
fn other_bytes_stay_an_invalid_instruction() {
    let (mut mem, rsp) = memory_with_frame(6, None, 0x1337000, 0x9000);
    mem.mmap(0x1337000, PAGE_SIZE, rx()).unwrap();
    mem.write(0x1337000, &[0x48, 0x01, 0xc2]).unwrap();
    let mut regs = kvm_regs::default();
    regs.rip = HYPERCALL_PAGE;
    regs.rsp = rsp;
    let r = handle_halt(&mem, &mut regs, 0, HYPERCALL_PAGE).unwrap();
    assert_eq!(r, VmExit::InvalidInstruction);
    assert_eq!(regs.rip, 0x1337000);
}

#[test]
fn unreadable_fault_address_is_an_invalid_instruction() {
    // The restored instruction pointer lies on an unmapped page.
    let (mem, rsp) = memory_with_frame(6, None, 0x7777000, 0x9000);
    let mut regs = kvm_regs::default();
    regs.rip = HYPERCALL_PAGE;
    regs.rsp = rsp;
    let r = handle_halt(&mem, &mut regs, 0, HYPERCALL_PAGE).unwrap();
    assert_eq!(r, VmExit::InvalidInstruction);
}

#[test]
fn page_fault_reports_error_code_and_address() {
    // An unmapped read: status bits all clear.
    let (mem, rsp) = memory_with_frame(14, Some(0), 0x1000, 0x9000);
    let mut regs = kvm_regs::default();
    regs.rip = HYPERCALL_PAGE + 14 * 32 + 3;
    regs.rsp = rsp;
    let r = handle_halt(&mem, &mut regs, 0x2000, HYPERCALL_PAGE).unwrap();
    let expected = VmExit::PageFault(PageFaultDetail { status: 0, address: 0x2000 });
    assert_eq!(r, expected);
    if let VmExit::PageFault(d) = r {
        assert!(d.unmapped());
        assert!(d.read());
    }
    assert_eq!(regs.rip, 0x1000);
    assert_eq!(regs.rsp, 0x9000);
}

#[test]
fn write_fault_to_readonly_page_reports_write() {
    // A write to a present page: present and write bits set.
    let (mem, rsp) = memory_with_frame(14, Some(3), 0x1000, 0x9000);
    let mut regs = kvm_regs::default();
    regs.rip = HYPERCALL_PAGE;
    regs.rsp = rsp;
    let r = handle_halt(&mem, &mut regs, 0x2000, HYPERCALL_PAGE).unwrap();
    if let VmExit::PageFault(d) = r {
        assert!(!d.unmapped());
        assert!(d.write());
        assert_eq!(d.address, 0x2000);
    } else {
        panic!("expected a page fault, got {:?}", r);
    }
}

#[test]
fn other_vectors_surface_as_exceptions() {
    let (mem, rsp) = memory_with_frame(3, None, 0x4000, 0x9000);
    let mut regs = kvm_regs::default();
    regs.rip = HYPERCALL_PAGE;
    regs.rsp = rsp;
    let r = handle_halt(&mem, &mut regs, 0, HYPERCALL_PAGE).unwrap();
    assert_eq!(r, VmExit::Exception(3));
    assert_eq!(regs.rip, 0x4000);
}

#[test]
fn unmapped_exception_stack_is_a_memory_error() {
    let mem = VirtualMemory::new(16 * PAGE_SIZE).unwrap();
    let mut regs = kvm_regs::default();
    regs.rip = HYPERCALL_PAGE;
    regs.rsp = 0x8000;
    let r = handle_halt(&mem, &mut regs, 0, HYPERCALL_PAGE);
    assert!(matches!(
        r,
        Err(VmError::MemoryError(MemoryError::Unmapped(0x8000)))
    ));
}
