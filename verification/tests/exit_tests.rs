use tartiflette_vm::PageFaultDetail;
use tartiflette_vm::VmExit;

#[test]
fn page_fault_on_unmapped_read_decodes() {
    // Status 0: not present, read access.
    let d = PageFaultDetail { status: 0, address: 0x2000 };
    assert!(d.unmapped());
    assert!(d.read());
    assert!(!d.write());
    assert!(!d.instruction_fetch());
}

#[test]
fn page_fault_on_write_to_present_page_decodes() {
    // Status 3: present, write access.
    let d = PageFaultDetail { status: 3, address: 0x2000 };
    assert!(!d.unmapped());
    assert!(!d.read());
    assert!(d.write());
}

#[test]
fn page_fault_read_and_write_split_every_status() {
    for status in [0u32, 1, 2, 3, 0x8000, 0x8001, 0x17] {
        let d = PageFaultDetail { status, address: 0 };
        assert_eq!(d.write(), !d.read(), "status {:#x}", status);
    }
}

#[test]
fn instruction_fetch_is_bit_fifteen() {
    let d = PageFaultDetail { status: 1 << 15, address: 0 };
    assert!(d.instruction_fetch());
    let d2 = PageFaultDetail { status: !(1u32 << 15), address: 0 };
    assert!(!d2.instruction_fetch());
}

#[test]
fn exit_values_compare_by_content() {
    assert_eq!(
        VmExit::PageFault(PageFaultDetail { status: 0, address: 0x2000 }),
        VmExit::PageFault(PageFaultDetail { status: 0, address: 0x2000 })
    );
    assert_ne!(VmExit::Hlt, VmExit::Breakpoint);
    assert_ne!(VmExit::Exception(3), VmExit::Exception(4));
}
