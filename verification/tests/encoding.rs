use msc_jit::into_operand::IntoOperand;
use msc_jit::listing::{assemble_into, encode_item, Item, RawCode};
use msc_jit::mov::encode_mov;
use x86asm::{InstructionEncodingError, InstructionWriter, Mnemonic, Mode, Operand, OperandSize, Reg, RegScale};

fn mov(dst: Operand, src: Operand) -> Vec<u8> {
    encode_mov(&dst, &src).unwrap()
}

fn imm64(first: [u8; 2], value: u64) -> Vec<u8> {
    let mut bytes = first.to_vec();
    bytes.extend_from_slice(&value.to_le_bytes());
    bytes
}

#[test]
fn mov_between_registers() {
    assert_eq!(mov(Reg::RBP.into_op(), Reg::RSP.into_op()), vec![0x48, 0x89, 0xe5]);
    assert_eq!(mov(Reg::RSP.into_op(), Reg::RBP.into_op()), vec![0x48, 0x89, 0xec]);
    assert_eq!(mov(Reg::RDI.into_op(), Reg::RSP.into_op()), vec![0x48, 0x89, 0xe7]);
    assert_eq!(mov(Reg::R15.into_op(), Reg::RSP.into_op()), vec![0x49, 0x89, 0xe7]);
    assert_eq!(mov(Reg::EAX.into_op(), Reg::EDX.into_op()), vec![0x89, 0xd0]);
    assert_eq!(mov(Reg::EAX.into_op(), Reg::R8D.into_op()), vec![0x44, 0x89, 0xc0]);
}

#[test]
fn mov_register_widths_must_agree() {
    assert_eq!(
        encode_mov(&Reg::RAX.into_op(), &Reg::EDX.into_op()),
        Err(InstructionEncodingError::NoEncoding)
    );
    assert_eq!(encode_mov(&Reg::CL.into_op(), &Reg::CL.into_op()), Err(InstructionEncodingError::NoEncoding));
}

#[test]
fn mov_loads_and_stores_locals() {
    let slot = |n: u64| (Reg::RBP, n * 4, OperandSize::Dword).into_op();
    assert_eq!(mov(Reg::EAX.into_op(), slot(2)), vec![0x8b, 0x45, 0x08]);
    assert_eq!(mov(Reg::EAX.into_op(), slot(0)), vec![0x8b, 0x45, 0x00]);
    assert_eq!(mov(slot(1), Reg::EAX.into_op()), vec![0x89, 0x45, 0x04]);
    assert_eq!(mov(slot(6), Reg::R8D.into_op()), vec![0x44, 0x89, 0x45, 0x18]);
    assert_eq!(mov(slot(31), Reg::EDX.into_op()), vec![0x89, 0x55, 0x7c]);
}

#[test]
fn mov_displacement_of_128_takes_four_bytes() {
    let slot = (Reg::RBP, 128u64, OperandSize::Dword).into_op();
    assert_eq!(mov(Reg::EAX.into_op(), slot), vec![0x8b, 0x85, 0x80, 0x00, 0x00, 0x00]);
}

#[test]
fn mov_negative_displacements() {
    let below = (Reg::RSP, -4i64, OperandSize::Dword).into_op();
    assert_eq!(mov(below, 1u32.into_op()), vec![0xc7, 0x44, 0x24, 0xfc, 1, 0, 0, 0]);
    let source = (Reg::RSP, -0x30i64, OperandSize::Qword).into_op();
    assert_eq!(mov(Reg::RAX.into_op(), source), vec![0x48, 0x8b, 0x44, 0x24, 0xd0]);
    let far = (Reg::RBP, -129i64, OperandSize::Dword).into_op();
    assert_eq!(mov(Reg::ECX.into_op(), far), vec![0x8b, 0x8d, 0x7f, 0xff, 0xff, 0xff]);
}

#[test]
fn mov_displacement_beyond_32_bits_has_no_encoding() {
    let slot = (Reg::RBP, 0x1_0000_0000u64, OperandSize::Dword).into_op();
    assert_eq!(encode_mov(&Reg::EAX.into_op(), &slot), Err(InstructionEncodingError::NoEncoding));
}

#[test]
fn mov_through_stack_pointer_takes_sib() {
    assert_eq!(
        mov((Reg::RSP, OperandSize::Qword).into_op(), Reg::RAX.into_op()),
        vec![0x48, 0x89, 0x04, 0x24]
    );
    assert_eq!(
        mov(Reg::RAX.into_op(), (Reg::RSP, 8u64, OperandSize::Qword).into_op()),
        vec![0x48, 0x8b, 0x44, 0x24, 0x08]
    );
    assert_eq!(
        mov(Reg::EAX.into_op(), (Reg::RSP, 32u64, OperandSize::Dword).into_op()),
        vec![0x8b, 0x44, 0x24, 0x20]
    );
}

#[test]
fn mov_scaled_index() {
    let entry = (Reg::RDI, Reg::RAX, RegScale::Eight, OperandSize::Qword).into_op();
    assert_eq!(mov(Reg::RDI.into_op(), entry), vec![0x48, 0x8b, 0x3c, 0xc7]);
    let no_index = (Reg::RDI, Reg::RSP, RegScale::Eight, OperandSize::Qword).into_op();
    assert_eq!(encode_mov(&Reg::RDI.into_op(), &no_index), Err(InstructionEncodingError::NoEncoding));
}

#[test]
fn mov_globals_through_rdx() {
    let slot = |n: u64| (Reg::RDX, n * 4, OperandSize::Dword).into_op();
    assert_eq!(mov(Reg::EAX.into_op(), slot(3)), vec![0x8b, 0x42, 0x0c]);
    assert_eq!(mov(slot(0), Reg::ECX.into_op()), vec![0x89, 0x0a]);
}

#[test]
fn mov_immediates() {
    assert_eq!(
        mov(Reg::RDX.into_op(), 0x1122334455667788u64.into_op()),
        imm64([0x48, 0xba], 0x1122334455667788)
    );
    assert_eq!(mov(Reg::RCX.into_op(), 0x4000u64.into_op()), imm64([0x48, 0xb9], 0x4000));
    assert_eq!(mov(Reg::R9.into_op(), 5u64.into_op()), imm64([0x49, 0xb9], 5));
    assert_eq!(mov(Reg::RSI.into_op(), 2u32.into_op()), vec![0x48, 0xc7, 0xc6, 2, 0, 0, 0]);
    assert_eq!(mov(Reg::EDX.into_op(), 1u32.into_op()), vec![0xba, 1, 0, 0, 0]);
    assert_eq!(mov(Reg::EAX.into_op(), 60u32.into_op()), vec![0xb8, 60, 0, 0, 0]);
    assert_eq!(mov(Reg::R8D.into_op(), 0xdeadbeefu32.into_op()), vec![0x41, 0xb8, 0xef, 0xbe, 0xad, 0xde]);
}

#[test]
fn mov_operand_size_must_fit_register() {
    let qword = (Reg::RBP, 8u64, OperandSize::Qword).into_op();
    assert_eq!(encode_mov(&Reg::EAX.into_op(), &qword), Err(InstructionEncodingError::NoEncoding));
    let byte = (Reg::RBP, 8u64, OperandSize::Byte).into_op();
    assert_eq!(encode_mov(&byte, &1u32.into_op()), Err(InstructionEncodingError::NoEncoding));
    assert_eq!(encode_mov(&Reg::EAX.into_op(), &7u8.into_op()), Err(InstructionEncodingError::NoEncoding));
}

#[test]
fn raw_codes() {
    assert_eq!(encode_item(&Item::Raw(RawCode::FstswAx)), Ok(vec![0x9b, 0xdf, 0xe0]));
    assert_eq!(encode_item(&Item::Raw(RawCode::Sahf)), Ok(vec![0x9e]));
    assert_eq!(encode_item(&Item::Raw(RawCode::Fcompp)), Ok(vec![0xde, 0xd9]));
    assert_eq!(
        encode_item(&Item::Raw(RawCode::MovRaxSlot)),
        Ok(vec![0x48, 0xb8, 0xf8, 0xff, 0xff, 0xff, 0xff, 0xff, 0xff, 0xf8])
    );
}

#[test]
fn assembler_encodes_what_it_is_handed() {
    let add = Item::Op2(Mnemonic::ADD, Reg::EAX.into_op(), Reg::ECX.into_op());
    assert_eq!(encode_item(&add), Ok(vec![0x01, 0xc8]));
    let push = Item::Op1(Mnemonic::PUSH, 0x12345678u32.into_op());
    assert_eq!(encode_item(&push), Ok(vec![0x68, 0x78, 0x56, 0x34, 0x12]));
    assert_eq!(encode_item(&Item::Op1(Mnemonic::POP, Reg::RAX.into_op())), Ok(vec![0x58]));
    assert_eq!(encode_item(&Item::Op0(Mnemonic::RET)), Ok(vec![0xc3]));
    assert_eq!(encode_item(&Item::Op1(Mnemonic::JMP, 0u32.into_op())), Ok(vec![0xe9, 0, 0, 0, 0]));
    assert_eq!(encode_item(&Item::Op1(Mnemonic::JE, 0x12u32.into_op())), Ok(vec![0x0f, 0x84, 0x12, 0, 0, 0]));
    assert_eq!(encode_item(&Item::Op1(Mnemonic::JNE, 0u32.into_op())), Ok(vec![0x0f, 0x85, 0, 0, 0, 0]));
    let fmul = Item::Op2(Mnemonic::FMUL, Reg::ST.into_op(), Reg::ST1.into_op());
    assert_eq!(encode_item(&fmul), Ok(vec![0xd8, 0xc9]));
}

#[test]
fn assembler_result_is_that_of_x86asm() {
    let cases = vec![
        (Mnemonic::PUSH, Some(Reg::RBP.into_op()), None),
        (Mnemonic::POP, Some(Reg::RDI.into_op()), None),
        (Mnemonic::PUSH, Some(5u32.into_op()), None),
        (Mnemonic::SUB, Some(Reg::RSP.into_op()), Some(Reg::R15.into_op())),
        (Mnemonic::AND, Some(Reg::R15.into_op()), Some(8u8.into_op())),
        (Mnemonic::FLD, Some((Reg::RSP, 8u64, OperandSize::Dword).into_op()), None),
        (Mnemonic::SYSCALL, None, None),
    ];
    for (mnemonic, operand1, operand2) in cases {
        let mut writer = InstructionWriter::new(Vec::new(), Mode::Long);
        let item = match (operand1, operand2) {
            (Some(a), Some(b)) => {
                writer.write2(mnemonic, a, b).unwrap();
                Item::Op2(mnemonic, a, b)
            }
            (Some(a), None) => {
                writer.write1(mnemonic, a).unwrap();
                Item::Op1(mnemonic, a)
            }
            _ => {
                writer.write0(mnemonic).unwrap();
                Item::Op0(mnemonic)
            }
        };
        assert_eq!(encode_item(&item), Ok(writer.get_inner_writer_ref().clone()));
    }
}

#[test]
fn pushes_and_pops_of_the_upper_registers_carry_their_prefix() {
    let upper = [Reg::R8, Reg::R9, Reg::R10, Reg::R11, Reg::R12, Reg::R13, Reg::R14, Reg::R15];
    for (place, r) in upper.into_iter().enumerate() {
        let place = place as u8;
        assert_eq!(encode_item(&Item::Op1(Mnemonic::PUSH, r.into_op())), Ok(vec![0x41, 0x50 + place]));
        assert_eq!(encode_item(&Item::Op1(Mnemonic::POP, r.into_op())), Ok(vec![0x41, 0x58 + place]));
    }
    assert_eq!(encode_item(&Item::Op1(Mnemonic::PUSH, Reg::R15.into_op())), Ok(vec![0x41, 0x57]));
    assert_eq!(encode_item(&Item::Op1(Mnemonic::POP, Reg::R9.into_op())), Ok(vec![0x41, 0x59]));
    assert_eq!(encode_item(&Item::Op1(Mnemonic::PUSH, Reg::RAX.into_op())), Ok(vec![0x50]));
    assert_eq!(encode_item(&Item::Op1(Mnemonic::POP, Reg::RDI.into_op())), Ok(vec![0x5f]));
}

#[test]
fn displacement_of_128_from_the_frame_pointer_goes_to_the_assembler() {
    let slot = |disp: u64| (Reg::RBP, disp, OperandSize::Dword).into_op();
    // inc dword [rbp + 124], [rbp + 128], [rbp + 132]
    assert_eq!(encode_item(&Item::Op1(Mnemonic::INC, slot(124))), Ok(vec![0xff, 0x45, 0x7c]));
    assert_eq!(encode_item(&Item::Op1(Mnemonic::INC, slot(128))), Ok(vec![0xff, 0x85, 0x80, 0, 0, 0]));
    assert_eq!(encode_item(&Item::Op1(Mnemonic::INC, slot(132))), Ok(vec![0xff, 0x85, 0x84, 0, 0, 0]));
    assert_eq!(encode_item(&Item::Op1(Mnemonic::DEC, slot(128))), Ok(vec![0xff, 0x8d, 0x80, 0, 0, 0]));
    assert_eq!(encode_item(&Item::Op1(Mnemonic::FLD, slot(128))), Ok(vec![0xd9, 0x85, 0x80, 0, 0, 0]));
    assert_eq!(encode_item(&Item::Op1(Mnemonic::FSTP, slot(128))), Ok(vec![0xd9, 0x9d, 0x80, 0, 0, 0]));
    // a move is assembled here, with four bytes of displacement
    let store = Item::Op2(Mnemonic::MOV, slot(128), Reg::EAX.into_op());
    assert_eq!(encode_item(&store), Ok(vec![0x89, 0x85, 0x80, 0, 0, 0]));
}

#[test]
fn displacement_of_128_from_other_bases_is_kept_from_the_assembler() {
    let global = |disp: u64| (Reg::RDX, disp, OperandSize::Dword).into_op();
    // fld and fstp of global 32 are assembled here
    assert_eq!(encode_item(&Item::Op1(Mnemonic::FLD, global(128))), Ok(vec![0xd9, 0x82, 0x80, 0, 0, 0]));
    assert_eq!(encode_item(&Item::Op1(Mnemonic::FSTP, global(128))), Ok(vec![0xd9, 0x9a, 0x80, 0, 0, 0]));
    // as the assembler has it for the slots around it
    assert_eq!(encode_item(&Item::Op1(Mnemonic::FLD, global(132))), Ok(vec![0xd9, 0x82, 0x84, 0, 0, 0]));
    assert_eq!(encode_item(&Item::Op1(Mnemonic::FSTP, global(132))), Ok(vec![0xd9, 0x9a, 0x84, 0, 0, 0]));
    assert_eq!(encode_item(&Item::Op1(Mnemonic::FLD, global(124))), Ok(vec![0xd9, 0x42, 0x7c]));
    // nothing else with that displacement has an encoding
    assert_eq!(encode_item(&Item::Op1(Mnemonic::INC, global(128))), Err(InstructionEncodingError::NoEncoding));
    let add = Item::Op2(Mnemonic::ADD, Reg::EAX.into_op(), global(128));
    assert_eq!(encode_item(&add), Err(InstructionEncodingError::NoEncoding));
    let top = (Reg::RSP, 128u64, OperandSize::Dword).into_op();
    assert_eq!(encode_item(&Item::Op1(Mnemonic::FLD, top)), Err(InstructionEncodingError::NoEncoding));
}

#[test]
fn assembler_error_is_handed_on() {
    let item = Item::Op2(Mnemonic::RET, Reg::RAX.into_op(), Reg::RAX.into_op());
    assert_eq!(encode_item(&item), Err(InstructionEncodingError::NoEncoding));
}

#[test]
fn forms_outside_the_supported_set_have_no_encoding() {
    assert_eq!(encode_item(&Item::Op0(Mnemonic::NOP)), Err(InstructionEncodingError::NoEncoding));
    assert_eq!(encode_item(&Item::Op0(Mnemonic::MOV)), Err(InstructionEncodingError::NoEncoding));
    assert_eq!(
        encode_item(&Item::Op1(Mnemonic::PUSH, Operand::Direct(Reg::RIP))),
        Err(InstructionEncodingError::NoEncoding)
    );
    assert_eq!(
        encode_item(&Item::Op1(Mnemonic::FSTP, Operand::Direct(Reg::ST))),
        Err(InstructionEncodingError::NoEncoding)
    );
    assert_eq!(
        encode_item(&Item::Op1(Mnemonic::INC, Operand::Indirect(Reg::BX, Some(OperandSize::Dword), None))),
        Err(InstructionEncodingError::NoEncoding)
    );
    assert_eq!(
        encode_item(&Item::Op1(Mnemonic::INC, Operand::Memory(16, Some(OperandSize::Dword), None))),
        Err(InstructionEncodingError::NoEncoding)
    );
}

#[test]
fn listing_is_assembled_in_order() {
    let items = vec![
        Item::Op1(Mnemonic::PUSH, Reg::RBP.into_op()),
        Item::Op2(Mnemonic::MOV, Reg::RBP.into_op(), Reg::RSP.into_op()),
        Item::Raw(RawCode::Sahf),
    ];
    let mut out = vec![0xaa];
    assert_eq!(assemble_into(&mut out, &items), Ok(()));
    assert_eq!(out, vec![0xaa, 0x55, 0x48, 0x89, 0xe5, 0x9e]);
}

#[test]
fn listing_stops_at_the_first_entry_without_encoding() {
    let items = vec![
        Item::Op1(Mnemonic::PUSH, Reg::RBP.into_op()),
        Item::Op0(Mnemonic::NOP),
        Item::Op2(Mnemonic::RET, Reg::RAX.into_op(), Reg::RAX.into_op()),
    ];
    let mut out = vec![0xaa];
    assert_eq!(assemble_into(&mut out, &items), Err(InstructionEncodingError::NoEncoding));
    assert_eq!(out, vec![0xaa, 0x55]);
}

#[test]
fn operand_coercions() {
    assert_eq!(7u8.into_op(), Operand::Literal8(7));
    assert_eq!(7u16.into_op(), Operand::Literal16(7));
    assert_eq!(7u32.into_op(), Operand::Literal32(7));
    assert_eq!(7u64.into_op(), Operand::Literal64(7));
    assert_eq!(Reg::RAX.into_op(), Operand::Direct(Reg::RAX));
    assert_eq!(
        (Reg::RSP, OperandSize::Dword).into_op(),
        Operand::Indirect(Reg::RSP, Some(OperandSize::Dword), None)
    );
    assert_eq!(
        (Reg::RBP, 0u64, OperandSize::Dword).into_op(),
        Operand::Indirect(Reg::RBP, Some(OperandSize::Dword), None)
    );
    assert_eq!(
        (Reg::RBP, 12u64, OperandSize::Dword).into_op(),
        Operand::IndirectDisplaced(Reg::RBP, 12, Some(OperandSize::Dword), None)
    );
    assert_eq!(
        (Reg::RSP, -4i64, OperandSize::Dword).into_op(),
        Operand::IndirectDisplaced(Reg::RSP, 0xffff_ffff_ffff_fffc, Some(OperandSize::Dword), None)
    );
    assert_eq!(
        (Reg::RSP, i64::MIN, OperandSize::Dword).into_op(),
        Operand::IndirectDisplaced(Reg::RSP, 0x8000_0000_0000_0000, Some(OperandSize::Dword), None)
    );
    assert_eq!(
        (Reg::RSP, 0i64, OperandSize::Qword).into_op(),
        Operand::Indirect(Reg::RSP, Some(OperandSize::Qword), None)
    );
    assert_eq!(
        (Reg::RDI, Reg::RAX, RegScale::Eight, OperandSize::Qword).into_op(),
        Operand::IndirectScaledIndexed(Reg::RDI, Reg::RAX, RegScale::Eight, Some(OperandSize::Qword), None)
    );
    assert_eq!(
        (Reg::RDI, Reg::RAX, RegScale::Two, 16u64, OperandSize::Qword).into_op(),
        Operand::IndirectScaledIndexedDisplaced(
            Reg::RDI,
            Reg::RAX,
            RegScale::Two,
            16,
            Some(OperandSize::Qword),
            None
        )
    );
    assert_eq!(Operand::Literal8(1).into_op(), Operand::Literal8(1));
}
