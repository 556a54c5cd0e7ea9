use msc_jit::asm_helper::{emit0, emit1, emit2, AsmWriterHelper, ListingWriter};
use msc_jit::into_operand::IntoOperand;
use msc_jit::listing::{Item, RawCode};
use x86asm::{Mnemonic, Operand, OperandSize, Reg};

fn op1(m: Mnemonic, a: impl IntoOperand) -> Item {
    Item::Op1(m, a.into_op())
}

fn op2(m: Mnemonic, a: impl IntoOperand, b: impl IntoOperand) -> Item {
    Item::Op2(m, a.into_op(), b.into_op())
}

#[test]
fn frame_setup_without_locals() {
    let mut out = ListingWriter::new();
    out.setup_stack_frame(0);
    assert_eq!(out.items, vec![op1(Mnemonic::PUSH, Reg::RBP), op2(Mnemonic::MOV, Reg::RBP, Reg::RSP)]);
}

#[test]
fn frame_setup_pads_locals_to_four() {
    for (vars, bytes) in [(1u32, 16u32), (3, 16), (4, 16), (5, 32), (8, 32), (65535, 4 * 65536)] {
        let mut out = ListingWriter::new();
        out.setup_stack_frame(vars);
        assert_eq!(
            out.items,
            vec![
                op1(Mnemonic::PUSH, Reg::RBP),
                op2(Mnemonic::SUB, Reg::RSP, bytes),
                op2(Mnemonic::MOV, Reg::RBP, Reg::RSP),
            ]
        );
    }
}

#[test]
fn frame_teardown_mirrors_setup() {
    let mut out = ListingWriter { items: vec![Item::Op0(Mnemonic::FWAIT)] };
    out.write_ret(0);
    assert_eq!(
        out.items,
        vec![
            Item::Op0(Mnemonic::FWAIT),
            op2(Mnemonic::MOV, Reg::RSP, Reg::RBP),
            op1(Mnemonic::POP, Reg::RBP),
            Item::Op0(Mnemonic::RET),
        ]
    );
    let mut out = ListingWriter::new();
    out.write_ret(6);
    assert_eq!(
        out.items,
        vec![
            op2(Mnemonic::MOV, Reg::RSP, Reg::RBP),
            op2(Mnemonic::ADD, Reg::RSP, 32u32),
            op1(Mnemonic::POP, Reg::RBP),
            Item::Op0(Mnemonic::RET),
        ]
    );
}

#[test]
fn nonvolatile_registers_are_restored_in_reverse() {
    let order = [Reg::RBX, Reg::RBP, Reg::RDI, Reg::RSI, Reg::R12, Reg::R13, Reg::R14, Reg::R15];
    let mut saved = ListingWriter::new();
    saved.save_nonvolatile_regs();
    assert_eq!(saved.items, order.iter().map(|r| op1(Mnemonic::PUSH, *r)).collect::<Vec<Item>>());
    let mut restored = ListingWriter::new();
    restored.restore_nonvolatile_regs();
    assert_eq!(restored.items, order.iter().rev().map(|r| op1(Mnemonic::POP, *r)).collect::<Vec<Item>>());
}

#[test]
fn single_instruction_emitters() {
    let mut out = ListingWriter::new();
    out.pop(Reg::RCX);
    out.push(5u32);
    out.push(Reg::RAX);
    out.mov(Reg::EAX, (Reg::RBP, 4u64, OperandSize::Dword));
    out.call(Reg::RAX);
    emit0(&mut out, Mnemonic::RET);
    emit1(&mut out, Mnemonic::NEG, (Reg::RSP, OperandSize::Dword));
    emit2(&mut out, Mnemonic::XOR, Reg::EDI, Reg::EDI);
    assert_eq!(
        out.items,
        vec![
            op1(Mnemonic::POP, Reg::RCX),
            op1(Mnemonic::PUSH, 5u32),
            op1(Mnemonic::PUSH, Reg::RAX),
            op2(Mnemonic::MOV, Reg::EAX, Operand::IndirectDisplaced(Reg::RBP, 4, Some(OperandSize::Dword), None)),
            op1(Mnemonic::CALL, Reg::RAX),
            Item::Op0(Mnemonic::RET),
            op1(Mnemonic::NEG, Operand::Indirect(Reg::RSP, Some(OperandSize::Dword), None)),
            op2(Mnemonic::XOR, Reg::EDI, Reg::EDI),
        ]
    );
}

#[test]
fn global_access_goes_through_rdx() {
    let base = 0xdead_beef_0000u64;
    let slot = |n: u64| (Reg::RDX, n * 4, OperandSize::Dword);
    let mut out = ListingWriter::new();
    out.get_global(base, Reg::EAX, 3);
    out.set_global(base, Reg::ECX, 0);
    out.get_global_float(base, 255);
    out.set_global_float(base, 1);
    assert_eq!(
        out.items,
        vec![
            op2(Mnemonic::MOV, Reg::RDX, base),
            op2(Mnemonic::MOV, Reg::EAX, slot(3)),
            op2(Mnemonic::MOV, Reg::RDX, base),
            op2(Mnemonic::MOV, Operand::Indirect(Reg::RDX, Some(OperandSize::Dword), None), Reg::ECX),
            op2(Mnemonic::MOV, Reg::RDX, base),
            op1(Mnemonic::FLD, slot(255)),
            op2(Mnemonic::MOV, Reg::RDX, base),
            op1(Mnemonic::FSTP, slot(1)),
        ]
    );
}

#[test]
fn fpu_transfer_orders() {
    let slot = |n: u64| op1(Mnemonic::FLD, (Reg::RSP, n * 8, OperandSize::Dword));
    let mut out = ListingWriter::new();
    out.copy_to_fpu(3);
    assert_eq!(out.items, vec![slot(2), slot(1), slot(0)]);
    let mut out = ListingWriter::new();
    out.copy_to_fpu_rev(3);
    assert_eq!(out.items, vec![slot(0), slot(1), slot(2)]);
    let mut out = ListingWriter::new();
    out.copy_to_fpu(0);
    out.copy_to_fpu_rev(0);
    assert!(out.items.is_empty());
}

#[test]
fn raw_emitters() {
    let mut out = ListingWriter::new();
    out.fstsw_ax();
    out.sahf();
    out.fcompp();
    out.mov_rax_0();
    assert_eq!(
        out.items,
        vec![
            Item::Raw(RawCode::FstswAx),
            Item::Raw(RawCode::Sahf),
            Item::Raw(RawCode::Fcompp),
            Item::Raw(RawCode::MovRaxSlot),
        ]
    );
}
