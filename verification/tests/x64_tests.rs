use tartiflette_vm::x64::build_gdt;
use tartiflette_vm::x64::build_idt;
use tartiflette_vm::x64::build_trampolines;
use tartiflette_vm::x64::build_tss;
use tartiflette_vm::x64::has_error_code;
use tartiflette_vm::PAGE_SIZE;

#[test]
fn trampolines_are_three_byte_stubs_at_stride_32() {
    let page = build_trampolines();
    assert_eq!(page.len(), PAGE_SIZE);
    for i in 0..32usize {
        // Containment: the whole stub lies inside the page.
        assert!(32 * i + 3 <= PAGE_SIZE);
        assert_eq!(page[32 * i], 0x6a, "push opcode of stub {}", i);
        assert_eq!(page[32 * i + 1], i as u8, "vector byte of stub {}", i);
        assert_eq!(page[32 * i + 2], 0xf4, "hlt opcode of stub {}", i);
        // Everything else in the slot is zero.
        for j in 3..32 {
            if 32 * i + j < PAGE_SIZE {
                assert_eq!(page[32 * i + j], 0);
            }
        }
    }
}

#[test]
fn error_code_vectors_match_the_architecture() {
    let with_code = [8u64, 10, 11, 12, 13, 14, 17, 21];
    for v in 0..32u64 {
        assert_eq!(has_error_code(v), with_code.contains(&v), "vector {}", v);
    }
}

#[test]
fn idt_gate_zero_encodes_the_first_trampoline() {
    // Handlers at the trampoline page of the exception-control region.
    let idt = build_idt(0xffff_ffff_ff00_1000);
    assert_eq!(idt.len(), 512);
    let gate0 = &idt[0..16];
    assert_eq!(
        gate0,
        &[
            0x00, 0x10, // offset 15:0 = 0x1000
            0x08, 0x00, // code-segment selector 1, RPL 0
            0x01, // IST slot 1
            0x8f, // present, DPL 0, trap gate
            0x00, 0xff, // offset 31:16 = 0xff00
            0xff, 0xff, 0xff, 0xff, // offset 63:32
            0x00, 0x00, 0x00, 0x00, // reserved
        ]
    );
    // Gate 3 points 96 bytes further into the trampoline page.
    let gate3 = &idt[48..64];
    assert_eq!(gate3[0], 0x60);
    assert_eq!(gate3[1], 0x10);
    assert_eq!(&gate3[2..6], &[0x08, 0x00, 0x01, 0x8f]);
}

#[test]
fn tss_holds_the_alternate_stack_in_slot_one() {
    let tss = build_tss(0xffff_ffff_ff00_4f00);
    assert_eq!(tss.len(), 104);
    // Interrupt-stack-table slot 1 sits at byte offset 36.
    assert_eq!(
        &tss[36..44],
        &[0x00, 0x4f, 0x00, 0xff, 0xff, 0xff, 0xff, 0xff]
    );
    for (j, b) in tss.iter().enumerate() {
        if !(36..44).contains(&j) {
            assert_eq!(*b, 0, "byte {}", j);
        }
    }
}

#[test]
fn gdt_holds_null_code_and_task_descriptors() {
    let gdt = build_gdt(0xffff_ffff_ff00_3000);
    assert_eq!(gdt.len(), 32);
    assert_eq!(&gdt[0..8], &[0u8; 8]);
    // The 64-bit ring-0 code descriptor, little endian.
    assert_eq!(&gdt[8..16], &[0x00, 0x00, 0x00, 0x00, 0x00, 0x9a, 0x20, 0x00]);
    // The task descriptor: limit 103, base of the task-state page, type 9.
    assert_eq!(
        &gdt[16..32],
        &[
            0x67, 0x00, // limit 15:0 = 103
            0x00, 0x30, 0x00, // base 23:0
            0x89, // present, DPL 0, available 64-bit TSS
            0x00, // limit 19:16, byte granularity
            0xff, // base 31:24
            0xff, 0xff, 0xff, 0xff, // base 63:32
            0x00, 0x00, 0x00, 0x00, // reserved
        ]
    );
}
