//! Bit-exact images of the protection structures the guest boots with: the
//! per-vector trampoline page, the interrupt-descriptor table of trap gates,
//! the task-state segment with its alternate stack, and the global
//! descriptor table holding the code and task descriptors.

use vstd::prelude::*;
use crate::memory::PAGE_SIZE;

verus! {

/// Number of exception vectors the guest traps on.
pub const NUM_VECTORS: usize = 32;

/// Distance in bytes between two trampoline stubs.
pub const HANDLER_STRIDE: usize = 32;

/// Size in bytes of one interrupt gate descriptor.
pub const IDT_ENTRY_SIZE: usize = 16;

/// Size in bytes of the 64-bit task-state segment.
pub const TSS_SIZE: usize = 104;

/// Size in bytes of the global descriptor table: a null descriptor, a code
/// descriptor and a 16-byte task descriptor.
pub const GDT_SIZE: usize = 32;

/// The 64-bit ring-0 code descriptor: present, system bit set, executable,
/// readable, long-mode flag.
pub const GDT_CODE_DESCRIPTOR: u64 = 0x00209a0000000000;

/// Whether the processor pushes an error code for this exception vector:
/// double fault, invalid TSS, segment not present, stack fault, general
/// protection, page fault, alignment check and control protection.
pub open spec fn vector_has_error_code(vector: u64) -> bool {
    ||| vector == 8
    ||| vector == 10
    ||| vector == 11
    ||| vector == 12
    ||| vector == 13
    ||| vector == 14
    ||| vector == 17
    ||| vector == 21
}

/// Exception vector raised by an instruction the processor refuses.
pub const VECTOR_INVALID_OPCODE: u64 = 6;

/// Exception vector raised by a page fault.
pub const VECTOR_PAGE_FAULT: u64 = 14;

/// Decides whether the processor pushes an error code for `vector`.
pub fn has_error_code(vector: u64) -> (r: bool)
    ensures
        r == vector_has_error_code(vector),
{
    vector == 8 || vector == 10 || vector == 11 || vector == 12 || vector == 13 || vector == 14
        || vector == 17 || vector == 21
}

/// The frame the processor pushes on exception entry, beneath the error
/// code when one is present.
#[derive(Copy, Clone, Debug, PartialEq, Eq, Structural)]
pub struct ExceptionFrame {
    /// Instruction pointer at the fault.
    pub rip: u64,
    /// Code-segment selector at the fault.
    pub cs: u64,
    /// Flags register at the fault.
    pub rflags: u64,
    /// Stack pointer at the fault.
    pub rsp: u64,
    /// Stack-segment selector at the fault.
    pub ss: u64,
}

/// Byte `j` of the trampoline page. Stub `i` sits at offset `32 * i` and
/// reads `push imm8 i; hlt`; every other byte of the page is zero.
pub open spec fn trampoline_page_byte(j: int) -> u8 {
    let i = j / (HANDLER_STRIDE as int);
    let o = j % (HANDLER_STRIDE as int);
    if i < NUM_VECTORS as int && o == 0 {
        0x6a
    } else if i < NUM_VECTORS as int && o == 1 {
        i as u8
    } else if i < NUM_VECTORS as int && o == 2 {
        0xf4
    } else {
        0
    }
}

/// Builds the trampoline page: one three-byte stub per vector at a 32-byte
/// stride, zero elsewhere.
pub fn build_trampolines() -> (r: Vec<u8>)
    ensures
        r@.len() == PAGE_SIZE,
        forall|j: int| 0 <= j < PAGE_SIZE ==> r@[j] == trampoline_page_byte(j),
{
    let mut r: Vec<u8> = Vec::new();
    let mut j: usize = 0;
    while j < PAGE_SIZE
        invariant
            j <= PAGE_SIZE,
            r@.len() == j,
            forall|p: int| 0 <= p < j ==> r@[p] == trampoline_page_byte(p),
        decreases PAGE_SIZE - j,
    {
        let i = j / HANDLER_STRIDE;
        let o = j % HANDLER_STRIDE;
        let byte: u8 = if i < NUM_VECTORS && o == 0 {
            0x6a
        } else if i < NUM_VECTORS && o == 1 {
            i as u8
        } else if i < NUM_VECTORS && o == 2 {
            0xf4
        } else {
            0
        };
        r.push(byte);
        j += 1;
    }
    r
}

/// Every vector's stub starts inside the trampoline page, occupies three
/// bytes at a 32-byte stride, and ends inside the page as well.
pub proof fn lemma_trampoline_containment(base: u64, i: int)
    requires
        0 <= i < NUM_VECTORS as int,
        base + PAGE_SIZE <= u64::MAX + 1,
    ensures
        base <= base + (HANDLER_STRIDE as int) * i < base + PAGE_SIZE,
        base + (HANDLER_STRIDE as int) * i + 3 <= base + PAGE_SIZE,
        trampoline_page_byte((HANDLER_STRIDE as int) * i) == 0x6a,
        trampoline_page_byte((HANDLER_STRIDE as int) * i + 1) == i as u8,
        trampoline_page_byte((HANDLER_STRIDE as int) * i + 2) == 0xf4,
{
    let st = HANDLER_STRIDE as int;
    assert(st == 32);
    assert(0 <= 32 * i <= 32 * 31) by (nonlinear_arith)
        requires
            0 <= i < 32,
    ;
    assert forall|o: int| 0 <= o < 3 implies #[trigger] trampoline_page_byte(st * i + o) == (
    if o == 0 {
        0x6au8
    } else if o == 1 {
        i as u8
    } else {
        0xf4u8
    }) by {
        vstd::arithmetic::div_mod::lemma_fundamental_div_mod_converse(st * i + o, st, i, o);
    }
}

/// Byte `j` of a 64-bit trap-gate descriptor for a handler at `handler`:
/// code-segment selector `1`, IST slot 1, DPL 0, present.
pub open spec fn idt_gate_byte(handler: u64, j: int) -> u8 {
    if j == 0 {
        (handler & 0xff) as u8
    } else if j == 1 {
        ((handler >> 8) & 0xff) as u8
    } else if j == 2 {
        0x08  // selector low byte: index 1 in the GDT, RPL 0
    } else if j == 3 {
        0x00  // selector high byte
    } else if j == 4 {
        0x01  // IST slot 1
    } else if j == 5 {
        0x8f  // present, DPL 0, trap-gate type
    } else if j == 6 {
        ((handler >> 16) & 0xff) as u8
    } else if j == 7 {
        ((handler >> 24) & 0xff) as u8
    } else if j == 8 {
        ((handler >> 32) & 0xff) as u8
    } else if j == 9 {
        ((handler >> 40) & 0xff) as u8
    } else if j == 10 {
        ((handler >> 48) & 0xff) as u8
    } else if j == 11 {
        ((handler >> 56) & 0xff) as u8
    } else {
        0  // reserved
    }
}

/// Reassembling the offset fields of a trap gate yields the handler
/// address it was built for: the descriptor encoding is faithful, so a
/// gate built for a stub inside the trampoline page dispatches into that
/// page.
pub proof fn lemma_idt_gate_roundtrip(handler: u64)
    ensures
        (idt_gate_byte(handler, 0) as u64) | ((idt_gate_byte(handler, 1) as u64) << 8) | ((
        idt_gate_byte(handler, 6) as u64) << 16) | ((idt_gate_byte(handler, 7) as u64) << 24)
            | ((idt_gate_byte(handler, 8) as u64) << 32) | ((idt_gate_byte(handler, 9) as u64)
            << 40) | ((idt_gate_byte(handler, 10) as u64) << 48) | ((idt_gate_byte(
            handler,
            11,
        ) as u64) << 56) == handler,
{
    assert(((handler & 0xff) as u8 as u64) | ((((handler >> 8) & 0xff) as u8 as u64) << 8) | ((((
    handler >> 16) & 0xff) as u8 as u64) << 16) | ((((handler >> 24) & 0xff) as u8 as u64)
        << 24) | ((((handler >> 32) & 0xff) as u8 as u64) << 32) | ((((handler >> 40)
        & 0xff) as u8 as u64) << 40) | ((((handler >> 48) & 0xff) as u8 as u64) << 48) | ((((
    handler >> 56) & 0xff) as u8 as u64) << 56) == handler) by (bit_vector);
}

/// Byte `p` of the interrupt-descriptor table: 32 trap gates, gate `i`
/// pointing at the stub at `handlers_base + 32 * i`.
pub open spec fn idt_page_byte(handlers_base: u64, p: int) -> u8 {
    let i = p / (IDT_ENTRY_SIZE as int);
    let j = p % (IDT_ENTRY_SIZE as int);
    idt_gate_byte((handlers_base + (HANDLER_STRIDE as int) * i) as u64, j)
}

/// Builds the 16 descriptor bytes of one trap gate.
fn idt_gate_bytes(handler: u64) -> (r: Vec<u8>)
    ensures
        r@.len() == IDT_ENTRY_SIZE,
        forall|j: int| 0 <= j < IDT_ENTRY_SIZE ==> r@[j] == idt_gate_byte(handler, j),
{
    let mut r: Vec<u8> = Vec::new();
    r.push((handler & 0xff) as u8);
    r.push(((handler >> 8) & 0xff) as u8);
    r.push(0x08);
    r.push(0x00);
    r.push(0x01);
    r.push(0x8f);
    r.push(((handler >> 16) & 0xff) as u8);
    r.push(((handler >> 24) & 0xff) as u8);
    r.push(((handler >> 32) & 0xff) as u8);
    r.push(((handler >> 40) & 0xff) as u8);
    r.push(((handler >> 48) & 0xff) as u8);
    r.push(((handler >> 56) & 0xff) as u8);
    r.push(0);
    r.push(0);
    r.push(0);
    r.push(0);
    r
}

/// Builds the interrupt-descriptor table: 32 trap gates whose handlers sit
/// at a 32-byte stride above `handlers_base`.
pub fn build_idt(handlers_base: u64) -> (r: Vec<u8>)
    requires
        handlers_base + PAGE_SIZE <= u64::MAX + 1,
    ensures
        r@.len() == NUM_VECTORS * IDT_ENTRY_SIZE,
        forall|p: int|
            0 <= p < NUM_VECTORS * IDT_ENTRY_SIZE ==> r@[p] == idt_page_byte(handlers_base, p),
{
    let mut r: Vec<u8> = Vec::new();
    let mut i: usize = 0;
    while i < NUM_VECTORS
        invariant
            handlers_base + PAGE_SIZE <= u64::MAX + 1,
            i <= NUM_VECTORS,
            r@.len() == i * IDT_ENTRY_SIZE,
            forall|p: int|
                0 <= p < i * IDT_ENTRY_SIZE ==> r@[p] == idt_page_byte(handlers_base, p),
        decreases NUM_VECTORS - i,
    {
        proof {
            assert((i as int) * 32 + 32 <= 4096) by (nonlinear_arith)
                requires
                    (i as int) < 32,
            ;
            assert((i as int) * (HANDLER_STRIDE as int) == (i as int) * 32);
        }
        let handler = handlers_base + (i as u64) * (HANDLER_STRIDE as u64);
        let gate = idt_gate_bytes(handler);
        let ghost before = r@;
        let mut j: usize = 0;
        while j < IDT_ENTRY_SIZE
            invariant
                j <= IDT_ENTRY_SIZE,
                gate@.len() == IDT_ENTRY_SIZE,
                forall|q: int|
                    0 <= q < IDT_ENTRY_SIZE ==> gate@[q] == idt_gate_byte(
                        (handlers_base + (HANDLER_STRIDE as int) * (i as int)) as u64,
                        q,
                    ),
                r@.len() == before.len() + j,
                r@.subrange(0, before.len() as int) == before,
                forall|q: int| 0 <= q < j ==> r@[before.len() + q] == gate@[q],
            decreases IDT_ENTRY_SIZE - j,
        {
            r.push(gate[j]);
            proof {
                assert(r@.subrange(0, before.len() as int) =~= before);
            }
            j += 1;
        }
        proof {
            assert forall|p: int| 0 <= p < (i as int + 1) * IDT_ENTRY_SIZE implies r@[p]
                == idt_page_byte(handlers_base, p) by {
                assert((i as int + 1) * IDT_ENTRY_SIZE == (i as int) * IDT_ENTRY_SIZE
                    + IDT_ENTRY_SIZE) by (nonlinear_arith);
                if p < before.len() {
                    assert(r@.subrange(0, before.len() as int)[p] == before[p]);
                } else {
                    let q = p - before.len();
                    assert(r@[before.len() + q] == gate@[q]);
                    vstd::arithmetic::div_mod::lemma_fundamental_div_mod_converse(
                        p,
                        IDT_ENTRY_SIZE as int,
                        i as int,
                        q,
                    );
                }
            }
        }
        i += 1;
    }
    r
}

/// Byte `j` of the 64-bit task-state segment whose interrupt-stack-table
/// slot 1 holds `ist1`; every other field is zero.
pub open spec fn tss_byte(ist1: u64, j: int) -> u8 {
    if 36 <= j < 44 {
        vstd::bytes::spec_u64_to_le_bytes(ist1)[j - 36]
    } else {
        0
    }
}

/// Builds the task-state segment with interrupt-stack-table slot 1 set to
/// `ist1`.
pub fn build_tss(ist1: u64) -> (r: Vec<u8>)
    ensures
        r@.len() == TSS_SIZE,
        forall|j: int| 0 <= j < TSS_SIZE ==> r@[j] == tss_byte(ist1, j),
{
    let bytes = vstd::bytes::u64_to_le_bytes(ist1);
    let mut r: Vec<u8> = Vec::new();
    let mut j: usize = 0;
    while j < TSS_SIZE
        invariant
            j <= TSS_SIZE,
            r@.len() == j,
            bytes@ == vstd::bytes::spec_u64_to_le_bytes(ist1),
            bytes@.len() == 8,
            forall|p: int| 0 <= p < j ==> r@[p] == tss_byte(ist1, p),
        decreases TSS_SIZE - j,
    {
        if j >= 36 && j < 44 {
            r.push(bytes[j - 36]);
        } else {
            r.push(0);
        }
        j += 1;
    }
    r
}

/// Byte `j` of the 16-byte task descriptor for a task-state segment at
/// `base` with byte limit `limit`: type available 64-bit TSS, DPL 0,
/// present, byte granularity.
pub open spec fn tss_descriptor_byte(base: u64, limit: u32, j: int) -> u8 {
    if j == 0 {
        (limit & 0xff) as u8
    } else if j == 1 {
        ((limit >> 8) & 0xff) as u8
    } else if j == 2 {
        (base & 0xff) as u8
    } else if j == 3 {
        ((base >> 8) & 0xff) as u8
    } else if j == 4 {
        ((base >> 16) & 0xff) as u8
    } else if j == 5 {
        0x89  // present, DPL 0, type: available 64-bit TSS
    } else if j == 6 {
        ((limit >> 16) & 0x0f) as u8
    } else if j == 7 {
        ((base >> 24) & 0xff) as u8
    } else if j == 8 {
        ((base >> 32) & 0xff) as u8
    } else if j == 9 {
        ((base >> 40) & 0xff) as u8
    } else if j == 10 {
        ((base >> 48) & 0xff) as u8
    } else if j == 11 {
        ((base >> 56) & 0xff) as u8
    } else {
        0  // reserved
    }
}

/// Byte `j` of the global descriptor table: a null descriptor, the 64-bit
/// code descriptor, then the task descriptor for a task-state segment at
/// `tss_base` with the task-state segment's byte limit.
pub open spec fn gdt_byte(tss_base: u64, j: int) -> u8 {
    if j < 8 {
        0
    } else if j < 16 {
        vstd::bytes::spec_u64_to_le_bytes(GDT_CODE_DESCRIPTOR)[j - 8]
    } else {
        tss_descriptor_byte(tss_base, (TSS_SIZE - 1) as u32, j - 16)
    }
}

/// Builds the global descriptor table for a task-state segment at
/// `tss_base`.
pub fn build_gdt(tss_base: u64) -> (r: Vec<u8>)
    ensures
        r@.len() == GDT_SIZE,
        forall|j: int| 0 <= j < GDT_SIZE ==> r@[j] == gdt_byte(tss_base, j),
{
    let code = vstd::bytes::u64_to_le_bytes(GDT_CODE_DESCRIPTOR);
    let limit: u32 = (TSS_SIZE - 1) as u32;
    let mut r: Vec<u8> = Vec::new();
    let mut j: usize = 0;
    while j < 8
        invariant
            j <= 8,
            r@.len() == j,
            forall|p: int| 0 <= p < j ==> r@[p] == 0,
        decreases 8 - j,
    {
        r.push(0);
        j += 1;
    }
    let mut j: usize = 0;
    while j < 8
        invariant
            j <= 8,
            r@.len() == 8 + j,
            code@ == vstd::bytes::spec_u64_to_le_bytes(GDT_CODE_DESCRIPTOR),
            code@.len() == 8,
            forall|p: int| 0 <= p < 8 ==> r@[p] == 0,
            forall|p: int| 8 <= p < 8 + j ==> r@[p] == code@[p - 8],
        decreases 8 - j,
    {
        r.push(code[j]);
        j += 1;
    }
    r.push((limit & 0xff) as u8);
    r.push(((limit >> 8) & 0xff) as u8);
    r.push((tss_base & 0xff) as u8);
    r.push(((tss_base >> 8) & 0xff) as u8);
    r.push(((tss_base >> 16) & 0xff) as u8);
    r.push(0x89);
    r.push(((limit >> 16) & 0x0f) as u8);
    r.push(((tss_base >> 24) & 0xff) as u8);
    r.push(((tss_base >> 32) & 0xff) as u8);
    r.push(((tss_base >> 40) & 0xff) as u8);
    r.push(((tss_base >> 48) & 0xff) as u8);
    r.push(((tss_base >> 56) & 0xff) as u8);
    r.push(0);
    r.push(0);
    r.push(0);
    r.push(0);
    proof {
        assert forall|j2: int| 0 <= j2 < GDT_SIZE implies r@[j2] == gdt_byte(tss_base, j2) by {}
    }
    r
}

} // verus!
