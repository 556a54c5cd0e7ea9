//! The boundary to the `x86asm` assembler.
//!
//! The assembler's register, operand and mnemonic types are declared here so
//! that the generator builds and inspects them directly. What is taken on
//! trust is the byte encoder alone: `x86asm_encode` and the name
//! `x86asm_encoding` for what it returns.

use vstd::prelude::*;
use x86asm::{InstructionEncodingError, Mnemonic, Operand, OperandSize, Reg, RegScale, SegmentReg};

verus! {

// The assembler's plain data types, declared with their variants: Verus
// holds each declaration against the type that `x86asm` defines.
#[verifier::external_type_specification]
pub struct ExReg(Reg);

#[verifier::external_type_specification]
pub struct ExRegScale(RegScale);

#[verifier::external_type_specification]
pub struct ExSegmentReg(SegmentReg);

#[verifier::external_type_specification]
pub struct ExOperandSize(OperandSize);

#[verifier::external_type_specification]
pub struct ExOperand(Operand);

#[verifier::external_type_specification]
pub struct ExMnemonic(Mnemonic);

#[verifier::external_type_specification]
pub struct ExInstructionEncodingError(InstructionEncodingError);

/// What `x86asm` writes, in long mode, for the instruction made of a mnemonic
/// and up to two operands: the bytes on success, the assembler's error
/// otherwise.
pub uninterp spec fn x86asm_encoding(
    mnemonic: Mnemonic,
    operand1: Option<Operand>,
    operand2: Option<Operand>,
) -> Result<Seq<u8>, InstructionEncodingError>;

/// The hardware number of a 64-bit general-purpose register.
pub open spec fn gpr64(r: Reg) -> Option<u8> {
    match r {
        Reg::RAX => Some(0u8),
        Reg::RCX => Some(1u8),
        Reg::RDX => Some(2u8),
        Reg::RBX => Some(3u8),
        Reg::RSP => Some(4u8),
        Reg::RBP => Some(5u8),
        Reg::RSI => Some(6u8),
        Reg::RDI => Some(7u8),
        Reg::R8 => Some(8u8),
        Reg::R9 => Some(9u8),
        Reg::R10 => Some(10u8),
        Reg::R11 => Some(11u8),
        Reg::R12 => Some(12u8),
        Reg::R13 => Some(13u8),
        Reg::R14 => Some(14u8),
        Reg::R15 => Some(15u8),
        _ => None,
    }
}

/// The hardware number of a 32-bit general-purpose register.
pub open spec fn gpr32(r: Reg) -> Option<u8> {
    match r {
        Reg::EAX => Some(0u8),
        Reg::ECX => Some(1u8),
        Reg::EDX => Some(2u8),
        Reg::EBX => Some(3u8),
        Reg::ESP => Some(4u8),
        Reg::EBP => Some(5u8),
        Reg::ESI => Some(6u8),
        Reg::EDI => Some(7u8),
        Reg::R8D => Some(8u8),
        Reg::R9D => Some(9u8),
        Reg::R10D => Some(10u8),
        Reg::R11D => Some(11u8),
        Reg::R12D => Some(12u8),
        Reg::R13D => Some(13u8),
        Reg::R14D => Some(14u8),
        Reg::R15D => Some(15u8),
        _ => None,
    }
}

/// One of the eight numbered x87 stack registers.
pub open spec fn is_x87_slot(r: Reg) -> bool {
    match r {
        Reg::ST0 | Reg::ST1 | Reg::ST2 | Reg::ST3 | Reg::ST4 | Reg::ST5 | Reg::ST6 | Reg::ST7 => true,
        _ => false,
    }
}

/// The registers that may stand as a direct operand handed to `x86asm`.
pub open spec fn plain_register(r: Reg) -> bool {
    gpr64(r) is Some || gpr32(r) is Some || r == Reg::CL || is_x87_slot(r)
}

/// The operand shapes handed to `x86asm`: a plain register, memory addressed
/// through 64-bit registers without a segment override, or an immediate.
pub open spec fn plain_operand(op: Operand) -> bool {
    match op {
        Operand::Direct(r) => plain_register(r),
        Operand::Indirect(base, _, seg) => gpr64(base) is Some && seg is None,
        Operand::IndirectDisplaced(base, _, _, seg) => gpr64(base) is Some && seg is None,
        Operand::IndirectScaledIndexed(base, index, _, _, seg) => gpr64(base) is Some && gpr64(
            index,
        ) is Some && seg is None,
        Operand::Literal8(_) => true,
        Operand::Literal16(_) => true,
        Operand::Literal32(_) => true,
        Operand::Literal64(_) => true,
        _ => false,
    }
}

/// The x87 arithmetic mnemonics that take the stack top `ST` as a fixed first
/// operand.
pub open spec fn x87_arith(m: Mnemonic) -> bool {
    match m {
        Mnemonic::FADD | Mnemonic::FSUB | Mnemonic::FMUL | Mnemonic::FDIV => true,
        _ => false,
    }
}

/// An x87 arithmetic instruction on the stack top and a numbered slot.
pub open spec fn x87_top_form(m: Mnemonic, a: Operand, b: Operand) -> bool {
    &&& x87_arith(m)
    &&& a == Operand::Direct(Reg::ST)
    &&& match b {
        Operand::Direct(r) => is_x87_slot(r),
        _ => false,
    }
}

/// The mnemonics that this library hands to `x86asm`. `MOV` is not among
/// them: `x86asm` 0.1.0 runs into an unimplemented operand type for every
/// `MOV` with operands, so `MOV` is encoded in `crate::mov`.
pub open spec fn supported_mnemonic(m: Mnemonic) -> bool {
    match m {
        Mnemonic::ADD | Mnemonic::SUB | Mnemonic::AND | Mnemonic::OR | Mnemonic::XOR => true,
        Mnemonic::INC | Mnemonic::DEC | Mnemonic::NEG | Mnemonic::NOT => true,
        Mnemonic::IMUL | Mnemonic::IDIV | Mnemonic::SHL | Mnemonic::SHR => true,
        Mnemonic::CMP | Mnemonic::TEST => true,
        Mnemonic::PUSH | Mnemonic::POP | Mnemonic::CALL | Mnemonic::RET | Mnemonic::SYSCALL => true,
        Mnemonic::JMP | Mnemonic::JE | Mnemonic::JNE => true,
        Mnemonic::CMOVE | Mnemonic::CMOVNE | Mnemonic::CMOVNZ => true,
        Mnemonic::CMOVL | Mnemonic::CMOVGE | Mnemonic::CMOVLE | Mnemonic::CMOVG => true,
        Mnemonic::CMOVB | Mnemonic::CMOVAE | Mnemonic::CMOVBE | Mnemonic::CMOVA => true,
        Mnemonic::FLD | Mnemonic::FSTP | Mnemonic::FILD | Mnemonic::FISTP | Mnemonic::FIADD => true,
        Mnemonic::FADD | Mnemonic::FSUB | Mnemonic::FMUL | Mnemonic::FDIV => true,
        Mnemonic::FCHS | Mnemonic::FWAIT | Mnemonic::FSTCW | Mnemonic::FLDCW => true,
        _ => false,
    }
}

/// The instructions that `x86asm_encode` accepts.
pub open spec fn encodable(m: Mnemonic, op1: Option<Operand>, op2: Option<Operand>) -> bool {
    &&& supported_mnemonic(m)
    &&& match (op1, op2) {
        (None, None) => true,
        (None, Some(_)) => false,
        (Some(a), None) => plain_operand(a),
        (Some(a), Some(b)) => {
            ||| plain_operand(a) && plain_operand(b)
            ||| x87_top_form(m, a, b)
        },
    }
}

pub open spec fn encoded_view(r: Result<Vec<u8>, InstructionEncodingError>) -> Result<
    Seq<u8>,
    InstructionEncodingError,
> {
    match r {
        Ok(bytes) => Ok(bytes@),
        Err(e) => Err(e),
    }
}

/// Calls `x86asm::InstructionWriter::write` in long mode on a fresh buffer and
/// hands back what it wrote. The contract claims that the outcome depends on
/// the mnemonic and the operands alone. The `requires` keeps to the mnemonics
/// and operand shapes for which the assembler's definition lookup and operand
/// encoder were read and do not panic: no `MOV`, registers that have a
/// register code and a register type, memory operands whose address size is
/// 64 bits, and `ST` only where a definition fixes it.
#[verifier::external_body]
pub(crate) fn x86asm_encode(mnemonic: Mnemonic, operand1: Option<Operand>, operand2: Option<Operand>) -> (r:
    Result<Vec<u8>, InstructionEncodingError>)
    requires
        encodable(mnemonic, operand1, operand2),
    ensures
        encoded_view(r) == x86asm_encoding(mnemonic, operand1, operand2),
{
    let mut writer = x86asm::InstructionWriter::new(Vec::new(), x86asm::Mode::Long);
    let instr = x86asm::Instruction { mnemonic, operand1, operand2, ..Default::default() };
    writer.write(&instr).map(|_| writer.get_inner_writer_ref().clone())
}

pub fn gpr64_code(r: Reg) -> (c: Option<u8>)
    ensures
        c == gpr64(r),
{
    match r {
        Reg::RAX => Some(0),
        Reg::RCX => Some(1),
        Reg::RDX => Some(2),
        Reg::RBX => Some(3),
        Reg::RSP => Some(4),
        Reg::RBP => Some(5),
        Reg::RSI => Some(6),
        Reg::RDI => Some(7),
        Reg::R8 => Some(8),
        Reg::R9 => Some(9),
        Reg::R10 => Some(10),
        Reg::R11 => Some(11),
        Reg::R12 => Some(12),
        Reg::R13 => Some(13),
        Reg::R14 => Some(14),
        Reg::R15 => Some(15),
        _ => None,
    }
}

pub fn gpr32_code(r: Reg) -> (c: Option<u8>)
    ensures
        c == gpr32(r),
{
    match r {
        Reg::EAX => Some(0),
        Reg::ECX => Some(1),
        Reg::EDX => Some(2),
        Reg::EBX => Some(3),
        Reg::ESP => Some(4),
        Reg::EBP => Some(5),
        Reg::ESI => Some(6),
        Reg::EDI => Some(7),
        Reg::R8D => Some(8),
        Reg::R9D => Some(9),
        Reg::R10D => Some(10),
        Reg::R11D => Some(11),
        Reg::R12D => Some(12),
        Reg::R13D => Some(13),
        Reg::R14D => Some(14),
        Reg::R15D => Some(15),
        _ => None,
    }
}

fn check_x87_slot(r: Reg) -> (b: bool)
    ensures
        b == is_x87_slot(r),
{
    match r {
        Reg::ST0 | Reg::ST1 | Reg::ST2 | Reg::ST3 | Reg::ST4 | Reg::ST5 | Reg::ST6 | Reg::ST7 => true,
        _ => false,
    }
}

fn check_plain_register(r: Reg) -> (b: bool)
    ensures
        b == plain_register(r),
{
    let is_cl = match r {
        Reg::CL => true,
        _ => false,
    };
    gpr64_code(r).is_some() || gpr32_code(r).is_some() || is_cl || check_x87_slot(r)
}

fn check_plain_operand(op: &Operand) -> (b: bool)
    ensures
        b == plain_operand(*op),
{
    match op {
        Operand::Direct(r) => check_plain_register(*r),
        Operand::Indirect(base, _, seg) => gpr64_code(*base).is_some() && seg.is_none(),
        Operand::IndirectDisplaced(base, _, _, seg) => gpr64_code(*base).is_some() && seg.is_none(),
        Operand::IndirectScaledIndexed(base, index, _, _, seg) => gpr64_code(*base).is_some()
            && gpr64_code(*index).is_some() && seg.is_none(),
        Operand::Literal8(_) => true,
        Operand::Literal16(_) => true,
        Operand::Literal32(_) => true,
        Operand::Literal64(_) => true,
        _ => false,
    }
}

fn check_x87_arith(m: Mnemonic) -> (b: bool)
    ensures
        b == x87_arith(m),
{
    match m {
        Mnemonic::FADD | Mnemonic::FSUB | Mnemonic::FMUL | Mnemonic::FDIV => true,
        _ => false,
    }
}

fn check_supported_mnemonic(m: Mnemonic) -> (b: bool)
    ensures
        b == supported_mnemonic(m),
{
    match m {
        Mnemonic::ADD | Mnemonic::SUB | Mnemonic::AND | Mnemonic::OR | Mnemonic::XOR => true,
        Mnemonic::INC | Mnemonic::DEC | Mnemonic::NEG | Mnemonic::NOT => true,
        Mnemonic::IMUL | Mnemonic::IDIV | Mnemonic::SHL | Mnemonic::SHR => true,
        Mnemonic::CMP | Mnemonic::TEST => true,
        Mnemonic::PUSH | Mnemonic::POP | Mnemonic::CALL | Mnemonic::RET | Mnemonic::SYSCALL => true,
        Mnemonic::JMP | Mnemonic::JE | Mnemonic::JNE => true,
        Mnemonic::CMOVE | Mnemonic::CMOVNE | Mnemonic::CMOVNZ => true,
        Mnemonic::CMOVL | Mnemonic::CMOVGE | Mnemonic::CMOVLE | Mnemonic::CMOVG => true,
        Mnemonic::CMOVB | Mnemonic::CMOVAE | Mnemonic::CMOVBE | Mnemonic::CMOVA => true,
        Mnemonic::FLD | Mnemonic::FSTP | Mnemonic::FILD | Mnemonic::FISTP | Mnemonic::FIADD => true,
        Mnemonic::FADD | Mnemonic::FSUB | Mnemonic::FMUL | Mnemonic::FDIV => true,
        Mnemonic::FCHS | Mnemonic::FWAIT | Mnemonic::FSTCW | Mnemonic::FLDCW => true,
        _ => false,
    }
}

fn check_x87_top_form(m: Mnemonic, a: &Operand, b: &Operand) -> (ok: bool)
    ensures
        ok == x87_top_form(m, *a, *b),
{
    let top = match a {
        Operand::Direct(Reg::ST) => true,
        _ => false,
    };
    let slot = match b {
        Operand::Direct(r) => check_x87_slot(*r),
        _ => false,
    };
    check_x87_arith(m) && top && slot
}

/// Whether `x86asm_encode` accepts the instruction.
pub fn is_encodable(m: Mnemonic, op1: &Option<Operand>, op2: &Option<Operand>) -> (b: bool)
    ensures
        b == encodable(m, *op1, *op2),
{
    if !check_supported_mnemonic(m) {
        return false;
    }
    match (op1, op2) {
        (None, None) => true,
        (None, Some(_)) => false,
        (Some(a), None) => check_plain_operand(a),
        (Some(a), Some(b)) => (check_plain_operand(a) && check_plain_operand(b))
            || check_x87_top_form(m, a, b),
    }
}

} // verus!
