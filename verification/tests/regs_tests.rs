use kvm_bindings::kvm_regs;
use tartiflette_vm::regs::reg_read;
use tartiflette_vm::regs::reg_write;
use tartiflette_vm::Register;

const ALL: [Register; 20] = [
    Register::Rax,
    Register::Rbx,
    Register::Rcx,
    Register::Rdx,
    Register::Rsi,
    Register::Rdi,
    Register::Rsp,
    Register::Rbp,
    Register::R8,
    Register::R9,
    Register::R10,
    Register::R11,
    Register::R12,
    Register::R13,
    Register::R14,
    Register::R15,
    Register::Rip,
    Register::Rflags,
    Register::FsBase,
    Register::GsBase,
];

#[test]
fn written_register_reads_back() {
    let mut regs = kvm_regs::default();
    let mut fs: u64 = 0;
    let mut gs: u64 = 0;
    for (k, id) in ALL.iter().enumerate() {
        let v = 0x1000 + k as u64;
        reg_write(&mut regs, &mut fs, &mut gs, *id, v);
        assert_eq!(reg_read(&regs, fs, gs, *id), v, "{:?}", id);
    }
}

#[test]
fn writing_one_register_leaves_the_rest_alone() {
    let mut regs = kvm_regs::default();
    let mut fs: u64 = 0;
    let mut gs: u64 = 0;
    // Give every register a distinct value first.
    for (k, id) in ALL.iter().enumerate() {
        reg_write(&mut regs, &mut fs, &mut gs, *id, 0x100 + k as u64);
    }
    reg_write(&mut regs, &mut fs, &mut gs, Register::Rdx, 0xdead);
    for (k, id) in ALL.iter().enumerate() {
        let expected = if *id == Register::Rdx { 0xdead } else { 0x100 + k as u64 };
        assert_eq!(reg_read(&regs, fs, gs, *id), expected, "{:?}", id);
    }
}

#[test]
fn base_registers_are_separate_from_the_block() {
    let mut regs = kvm_regs::default();
    let mut fs: u64 = 0;
    let mut gs: u64 = 0;
    reg_write(&mut regs, &mut fs, &mut gs, Register::FsBase, 0x1111);
    reg_write(&mut regs, &mut fs, &mut gs, Register::GsBase, 0x2222);
    assert_eq!(fs, 0x1111);
    assert_eq!(gs, 0x2222);
    assert_eq!(regs.rax, 0);
}
