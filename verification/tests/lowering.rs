use msc::{Cmd, Command};
use msc_jit::into_operand::IntoOperand;
use msc_jit::listing::{Item, RawCode};
use msc_jit::lower::{lower_command, CompileError, Effect, HostEnv, JumpKind, Lowered, Violation};
use x86asm::{Mnemonic, OperandSize, Reg, RegScale};

const GLOBALS: u64 = 0x7000_0000_1000;
const STRINGS: u64 = 0x7000_0000_2000;
const PRINTF: u64 = 0x7000_0000_3000;

fn env() -> HostEnv {
    let mut syscalls = Vec::new();
    for i in 0..256u64 {
        syscalls.push(0x5000_0000 + i * 16);
    }
    HostEnv { globals: GLOBALS, string_table: STRINGS, printf: PRINTF, syscalls }
}

fn lower(cmd: Cmd, push_bit: bool) -> Result<Lowered, CompileError> {
    lower_command(&Command { cmd, push_bit, position: 12 }, None, 5, 0x100, &env())
}

fn code(cmd: Cmd, push_bit: bool) -> Vec<Item> {
    let lowered = lower(cmd, push_bit).unwrap();
    assert_eq!(lowered.effect, Effect::Plain);
    assert!(lowered.head.is_empty());
    lowered.tail
}

fn op0(m: Mnemonic) -> Item {
    Item::Op0(m)
}

fn op1(m: Mnemonic, a: impl IntoOperand) -> Item {
    Item::Op1(m, a.into_op())
}

fn op2(m: Mnemonic, a: impl IntoOperand, b: impl IntoOperand) -> Item {
    Item::Op2(m, a.into_op(), b.into_op())
}

fn local(n: u64) -> (Reg, u64, OperandSize) {
    (Reg::RBP, 4 * n, OperandSize::Dword)
}

fn global(n: u64) -> (Reg, u64, OperandSize) {
    (Reg::RDX, 4 * n, OperandSize::Dword)
}

fn top() -> (Reg, OperandSize) {
    (Reg::RSP, OperandSize::Dword)
}

fn scratch() -> (Reg, i64, OperandSize) {
    (Reg::RSP, -4, OperandSize::Dword)
}

fn aligned_call() -> Vec<Item> {
    vec![
        op1(Mnemonic::PUSH, Reg::R15),
        op2(Mnemonic::MOV, Reg::R15, Reg::RSP),
        op2(Mnemonic::AND, Reg::R15, 8u8),
        op2(Mnemonic::SUB, Reg::RSP, Reg::R15),
        op1(Mnemonic::CALL, Reg::RCX),
        op2(Mnemonic::ADD, Reg::RSP, Reg::R15),
        op1(Mnemonic::POP, Reg::R15),
    ]
}

fn teardown() -> Vec<Item> {
    vec![
        op2(Mnemonic::MOV, Reg::RSP, Reg::RBP),
        op2(Mnemonic::ADD, Reg::RSP, 32u32),
        op1(Mnemonic::POP, Reg::RBP),
        op0(Mnemonic::RET),
    ]
}

#[test]
fn reserved_opcodes_are_unsupported() {
    for (cmd, opcode) in [(Cmd::Unk1, 1), (Cmd::ErrorC, 0xc), (Cmd::Error37, 0x37), (Cmd::Error4C, 0x4c)] {
        assert_eq!(lower(cmd, true).unwrap_err(), CompileError::UnsupportedOpcode { position: 12, opcode });
    }
}

#[test]
fn begin_past_the_first_position_is_refused() {
    assert_eq!(
        lower(Cmd::Begin { arg_count: 0, var_count: 0 }, false).unwrap_err(),
        CompileError::StructuralViolation { position: 12, opcode: Some(2), violation: Violation::MisplacedBegin }
    );
}

#[test]
fn pushes_of_immediates() {
    assert_eq!(code(Cmd::PushShort { val: 0xffff }, true), vec![op1(Mnemonic::PUSH, 0xffffu32)]);
    assert_eq!(code(Cmd::PushInt { val: 0x40400000 }, true), vec![op1(Mnemonic::PUSH, 0x40400000u32)]);
    assert!(code(Cmd::PushShort { val: 1 }, false).is_empty());
    assert!(code(Cmd::PushInt { val: 1 }, false).is_empty());
}

#[test]
fn variable_reads_and_writes() {
    assert_eq!(
        code(Cmd::PushVar { var_type: 0, var_num: 3 }, true),
        vec![op2(Mnemonic::MOV, Reg::EAX, local(3)), op1(Mnemonic::PUSH, Reg::RAX)]
    );
    assert_eq!(
        code(Cmd::PushVar { var_type: 1, var_num: 3 }, true),
        vec![
            op2(Mnemonic::MOV, Reg::RDX, GLOBALS),
            op2(Mnemonic::MOV, Reg::EAX, global(3)),
            op1(Mnemonic::PUSH, Reg::RAX),
        ]
    );
    assert_eq!(
        code(Cmd::PushVar { var_type: 0, var_num: 3 }, false),
        vec![op2(Mnemonic::MOV, Reg::EAX, local(3))]
    );
    assert_eq!(
        code(Cmd::PushVar { var_type: 1, var_num: 3 }, false),
        vec![op2(Mnemonic::MOV, Reg::RDX, GLOBALS), op2(Mnemonic::MOV, Reg::EAX, global(3))]
    );
    assert_eq!(
        code(Cmd::SetVar { var_type: 0, var_num: 0 }, false),
        vec![op1(Mnemonic::POP, Reg::RAX), op2(Mnemonic::MOV, local(0), Reg::EAX)]
    );
    assert_eq!(
        code(Cmd::VarSetF { var_type: 1, var_num: 7 }, false),
        vec![
            op1(Mnemonic::POP, Reg::RCX),
            op2(Mnemonic::MOV, Reg::RDX, GLOBALS),
            op2(Mnemonic::MOV, global(7), Reg::ECX),
        ]
    );
}

#[test]
fn integer_increment_and_decrement() {
    assert_eq!(code(Cmd::IncI { var_type: 0, var_num: 2 }, false), vec![op1(Mnemonic::INC, local(2))]);
    assert_eq!(code(Cmd::DecI { var_type: 0, var_num: 2 }, false), vec![op1(Mnemonic::DEC, local(2))]);
    assert_eq!(
        code(Cmd::DecI { var_type: 1, var_num: 1 }, false),
        vec![
            op2(Mnemonic::MOV, Reg::RDX, GLOBALS),
            op2(Mnemonic::MOV, Reg::ECX, global(1)),
            op1(Mnemonic::DEC, Reg::ECX),
            op2(Mnemonic::MOV, Reg::RDX, GLOBALS),
            op2(Mnemonic::MOV, global(1), Reg::ECX),
        ]
    );
}

#[test]
fn float_increment_and_decrement() {
    assert_eq!(
        code(Cmd::IncF { var_type: 0, var_num: 1 }, false),
        vec![
            op2(Mnemonic::MOV, scratch(), 1u32),
            op1(Mnemonic::FLD, local(1)),
            op1(Mnemonic::FIADD, scratch()),
            op1(Mnemonic::FSTP, local(1)),
        ]
    );
    assert_eq!(
        code(Cmd::DecF { var_type: 1, var_num: 1 }, false),
        vec![
            op2(Mnemonic::MOV, scratch(), 0xffff_ffffu32),
            op2(Mnemonic::MOV, Reg::RDX, GLOBALS),
            op1(Mnemonic::FLD, global(1)),
            op1(Mnemonic::FIADD, scratch()),
            op2(Mnemonic::MOV, Reg::RDX, GLOBALS),
            op1(Mnemonic::FSTP, global(1)),
        ]
    );
}

#[test]
fn compound_assignments() {
    assert_eq!(
        code(Cmd::SubVarBy { var_type: 1, var_num: 2 }, false),
        vec![
            op1(Mnemonic::POP, Reg::RCX),
            op2(Mnemonic::MOV, Reg::RDX, GLOBALS),
            op2(Mnemonic::MOV, Reg::EAX, global(2)),
            op2(Mnemonic::SUB, Reg::EAX, Reg::ECX),
            op2(Mnemonic::MOV, Reg::RDX, GLOBALS),
            op2(Mnemonic::MOV, global(2), Reg::EAX),
        ]
    );
    assert_eq!(
        code(Cmd::XorVarBy { var_type: 0, var_num: 2 }, false),
        vec![
            op1(Mnemonic::POP, Reg::RCX),
            op2(Mnemonic::MOV, Reg::EAX, local(2)),
            op2(Mnemonic::XOR, Reg::EAX, Reg::ECX),
            op2(Mnemonic::MOV, local(2), Reg::EAX),
        ]
    );
    assert_eq!(
        code(Cmd::ModVarBy { var_type: 0, var_num: 1 }, false),
        vec![
            op1(Mnemonic::POP, Reg::RCX),
            op2(Mnemonic::MOV, Reg::EAX, local(1)),
            op2(Mnemonic::MOV, Reg::EDX, 0u32),
            op1(Mnemonic::IDIV, Reg::ECX),
            op2(Mnemonic::MOV, local(1), Reg::EDX),
        ]
    );
    assert_eq!(
        code(Cmd::DivVarBy { var_type: 0, var_num: 1 }, false),
        vec![
            op1(Mnemonic::POP, Reg::RCX),
            op2(Mnemonic::MOV, Reg::EAX, local(1)),
            op2(Mnemonic::MOV, Reg::EDX, 0u32),
            op1(Mnemonic::IDIV, Reg::ECX),
            op2(Mnemonic::MOV, local(1), Reg::EAX),
        ]
    );
    assert_eq!(
        code(Cmd::MultVarBy { var_type: 0, var_num: 1 }, false),
        vec![
            op1(Mnemonic::POP, Reg::RCX),
            op2(Mnemonic::MOV, Reg::EAX, local(1)),
            op1(Mnemonic::IMUL, Reg::ECX),
            op2(Mnemonic::MOV, local(1), Reg::EAX),
        ]
    );
    assert_eq!(
        code(Cmd::ModVarBy { var_type: 1, var_num: 1 }, false),
        vec![
            op1(Mnemonic::POP, Reg::RCX),
            op2(Mnemonic::MOV, Reg::RDX, GLOBALS),
            op2(Mnemonic::MOV, Reg::EAX, global(1)),
            op2(Mnemonic::MOV, Reg::EDX, 0u32),
            op1(Mnemonic::IDIV, Reg::ECX),
            op2(Mnemonic::MOV, Reg::EAX, Reg::EDX),
            op2(Mnemonic::MOV, Reg::RDX, GLOBALS),
            op2(Mnemonic::MOV, global(1), Reg::EAX),
        ]
    );
    assert_eq!(
        code(Cmd::MultVarBy { var_type: 1, var_num: 0 }, false),
        vec![
            op1(Mnemonic::POP, Reg::RCX),
            op2(Mnemonic::MOV, Reg::RDX, GLOBALS),
            op2(Mnemonic::MOV, Reg::EAX, (Reg::RDX, OperandSize::Dword)),
            op1(Mnemonic::IMUL, Reg::ECX),
            op2(Mnemonic::MOV, Reg::RDX, GLOBALS),
            op2(Mnemonic::MOV, (Reg::RDX, OperandSize::Dword), Reg::EAX),
        ]
    );
    let float_assign: [(fn(u8, u16) -> Cmd, Mnemonic); 4] = [
        (|var_type, var_num| Cmd::AddVarByF { var_type, var_num }, Mnemonic::FADD),
        (|var_type, var_num| Cmd::SubVarByF { var_type, var_num }, Mnemonic::FSUB),
        (|var_type, var_num| Cmd::MultVarByF { var_type, var_num }, Mnemonic::FMUL),
        (|var_type, var_num| Cmd::DivVarByF { var_type, var_num }, Mnemonic::FDIV),
    ];
    for (cmd, op) in float_assign {
        assert_eq!(
            code(cmd(0, 4), false),
            vec![
                op1(Mnemonic::FLD, local(4)),
                op1(op, top()),
                op1(Mnemonic::FSTP, local(4)),
                op2(Mnemonic::ADD, Reg::RSP, 8u8),
            ]
        );
        assert_eq!(
            code(cmd(1, 4), false),
            vec![
                op2(Mnemonic::MOV, Reg::RDX, GLOBALS),
                op1(Mnemonic::FLD, global(4)),
                op1(op, top()),
                op2(Mnemonic::MOV, Reg::RDX, GLOBALS),
                op1(Mnemonic::FSTP, global(4)),
                op2(Mnemonic::ADD, Reg::RSP, 8u8),
            ]
        );
    }
}

#[test]
fn integer_arithmetic() {
    let pops = vec![op1(Mnemonic::POP, Reg::RCX), op1(Mnemonic::POP, Reg::RAX)];
    for (cmd, op, count) in [
        (Cmd::AddI, Mnemonic::ADD, Reg::ECX),
        (Cmd::SubI, Mnemonic::SUB, Reg::ECX),
        (Cmd::AndI, Mnemonic::AND, Reg::ECX),
        (Cmd::OrI, Mnemonic::OR, Reg::ECX),
        (Cmd::XorI, Mnemonic::XOR, Reg::ECX),
        (Cmd::ShiftL, Mnemonic::SHL, Reg::CL),
        (Cmd::ShiftR, Mnemonic::SHR, Reg::CL),
    ] {
        let mut expected = pops.clone();
        expected.push(op2(op, Reg::EAX, count));
        expected.push(op1(Mnemonic::PUSH, Reg::RAX));
        assert_eq!(code(cmd, true), expected);
        assert_eq!(code(cmd, false), pops);
    }
    assert_eq!(
        code(Cmd::MultI, true),
        vec![pops[0], pops[1], op1(Mnemonic::IMUL, Reg::ECX), op1(Mnemonic::PUSH, Reg::RAX)]
    );
    assert_eq!(
        code(Cmd::DivI, true),
        vec![
            pops[0],
            pops[1],
            op2(Mnemonic::MOV, Reg::EDX, 0u32),
            op1(Mnemonic::IDIV, Reg::ECX),
            op1(Mnemonic::PUSH, Reg::RAX),
        ]
    );
    assert_eq!(
        code(Cmd::ModI, true),
        vec![
            pops[0],
            pops[1],
            op2(Mnemonic::MOV, Reg::EDX, 0u32),
            op1(Mnemonic::IDIV, Reg::ECX),
            op1(Mnemonic::PUSH, Reg::RDX),
        ]
    );
    assert_eq!(code(Cmd::ModI, false), pops);
}

#[test]
fn integer_comparisons() {
    for (cmd, taken, other) in [
        (Cmd::Equals, Mnemonic::CMOVE, Mnemonic::CMOVNE),
        (Cmd::NotEquals, Mnemonic::CMOVNE, Mnemonic::CMOVE),
        (Cmd::LessThan, Mnemonic::CMOVL, Mnemonic::CMOVGE),
        (Cmd::LessOrEqual, Mnemonic::CMOVLE, Mnemonic::CMOVG),
        (Cmd::Greater, Mnemonic::CMOVG, Mnemonic::CMOVLE),
        (Cmd::GreaterOrEqual, Mnemonic::CMOVGE, Mnemonic::CMOVL),
    ] {
        assert_eq!(
            code(cmd, true),
            vec![
                op1(Mnemonic::POP, Reg::RAX),
                op1(Mnemonic::POP, Reg::RCX),
                op2(Mnemonic::XOR, Reg::R8, Reg::R8),
                op2(Mnemonic::MOV, Reg::EDX, 1u32),
                op2(Mnemonic::CMP, Reg::ECX, Reg::EAX),
                op2(taken, Reg::EAX, Reg::EDX),
                op2(other, Reg::EAX, Reg::R8D),
                op1(Mnemonic::PUSH, Reg::RAX),
            ]
        );
        assert_eq!(code(cmd, false), vec![op1(Mnemonic::POP, Reg::RAX), op1(Mnemonic::POP, Reg::RCX)]);
    }
}

#[test]
fn float_comparisons() {
    for (cmd, taken, other) in [
        (Cmd::EqualsF, Mnemonic::CMOVE, Mnemonic::CMOVNE),
        (Cmd::NotEqualsF, Mnemonic::CMOVNE, Mnemonic::CMOVE),
        (Cmd::LessThanF, Mnemonic::CMOVB, Mnemonic::CMOVAE),
        (Cmd::LessOrEqualF, Mnemonic::CMOVBE, Mnemonic::CMOVA),
        (Cmd::GreaterF, Mnemonic::CMOVA, Mnemonic::CMOVBE),
        (Cmd::GreaterOrEqualF, Mnemonic::CMOVAE, Mnemonic::CMOVB),
    ] {
        assert_eq!(
            code(cmd, true),
            vec![
                op1(Mnemonic::FLD, top()),
                op1(Mnemonic::FLD, (Reg::RSP, 8u64, OperandSize::Dword)),
                op2(Mnemonic::XOR, Reg::R8, Reg::R8),
                op2(Mnemonic::MOV, Reg::EDX, 1u32),
                Item::Raw(RawCode::Fcompp),
                Item::Raw(RawCode::FstswAx),
                op0(Mnemonic::FWAIT),
                Item::Raw(RawCode::Sahf),
                op2(taken, Reg::EAX, Reg::EDX),
                op2(other, Reg::EAX, Reg::R8D),
                op2(Mnemonic::ADD, Reg::RSP, 16u8),
                op1(Mnemonic::PUSH, Reg::RAX),
            ]
        );
        assert_eq!(code(cmd, false), vec![op2(Mnemonic::ADD, Reg::RSP, 16u8)]);
    }
}

#[test]
fn float_arithmetic() {
    for (cmd, op) in [
        (Cmd::AddF, Mnemonic::FADD),
        (Cmd::SubF, Mnemonic::FSUB),
        (Cmd::MultF, Mnemonic::FMUL),
        (Cmd::DivF, Mnemonic::FDIV),
    ] {
        assert_eq!(
            code(cmd, true),
            vec![
                op1(Mnemonic::FLD, (Reg::RSP, 8u64, OperandSize::Dword)),
                op1(Mnemonic::FLD, top()),
                op2(op, Reg::ST, Reg::ST1),
                op2(Mnemonic::ADD, Reg::RSP, 8u8),
                op1(Mnemonic::FSTP, top()),
                op1(Mnemonic::FSTP, Reg::ST0),
            ]
        );
        assert_eq!(code(cmd, false), vec![op2(Mnemonic::ADD, Reg::RSP, 16u8)]);
    }
}

#[test]
fn unary_operations() {
    assert_eq!(code(Cmd::NegI, true), vec![op1(Mnemonic::NEG, top())]);
    assert_eq!(code(Cmd::NotI, true), vec![op1(Mnemonic::NOT, top())]);
    assert_eq!(code(Cmd::NegI, false), vec![op1(Mnemonic::POP, Reg::RAX)]);
    assert_eq!(
        code(Cmd::NegF, true),
        vec![op1(Mnemonic::FLD, top()), op0(Mnemonic::FCHS), op1(Mnemonic::FSTP, top())]
    );
    assert_eq!(code(Cmd::NegF, false), vec![op2(Mnemonic::ADD, Reg::RSP, 8u8)]);
    assert_eq!(
        code(Cmd::Not, true),
        vec![
            op1(Mnemonic::POP, Reg::RAX),
            op2(Mnemonic::XOR, Reg::R8, Reg::R8),
            op2(Mnemonic::MOV, Reg::EDX, 1u32),
            op2(Mnemonic::TEST, Reg::RAX, Reg::RAX),
            op2(Mnemonic::CMOVE, Reg::RAX, Reg::RDX),
            op2(Mnemonic::CMOVNZ, Reg::RAX, Reg::R8),
            op1(Mnemonic::PUSH, Reg::RAX),
        ]
    );
    assert_eq!(code(Cmd::Not, false), vec![op1(Mnemonic::POP, Reg::RAX)]);
}

#[test]
fn casts_at_the_top_slot() {
    assert_eq!(
        code(Cmd::IntToFloat { stack_pos: 0 }, false),
        vec![op1(Mnemonic::FILD, top()), op1(Mnemonic::FSTP, top())]
    );
    let control = (Reg::RSP, -2i64, OperandSize::Word);
    assert_eq!(
        code(Cmd::FloatToInt { stack_pos: 0 }, false),
        vec![
            op1(Mnemonic::FSTCW, control),
            op2(Mnemonic::OR, control, 0xc00u16),
            op1(Mnemonic::FLDCW, control),
            op1(Mnemonic::FLD, top()),
            op1(Mnemonic::FISTP, top()),
        ]
    );
}

#[test]
fn casts_at_another_slot_are_refused() {
    let refused =
        |opcode| CompileError::StructuralViolation { position: 12, opcode: Some(opcode), violation: Violation::CastSlot };
    assert_eq!(lower(Cmd::IntToFloat { stack_pos: 1 }, false).unwrap_err(), refused(0x38));
    assert_eq!(lower(Cmd::FloatToInt { stack_pos: 255 }, true).unwrap_err(), refused(0x39));
}

#[test]
fn explicit_duplicate_and_discard() {
    assert_eq!(
        code(Cmd::Push, true),
        vec![op1(Mnemonic::POP, Reg::RAX), op1(Mnemonic::PUSH, Reg::RAX), op1(Mnemonic::PUSH, Reg::RAX)]
    );
    assert!(code(Cmd::Push, false).is_empty());
    assert_eq!(code(Cmd::Pop, false), vec![op2(Mnemonic::ADD, Reg::RSP, 8u8)]);
    assert!(code(Cmd::Pop, true).is_empty());
}

#[test]
fn jumps_carry_a_placeholder() {
    for cmd in [Cmd::Jump { loc: 0x140 }, Cmd::Jump5 { loc: 0x140 }, Cmd::Else { loc: 0x140 }] {
        let lowered = lower(cmd, false).unwrap();
        assert!(lowered.head.is_empty());
        assert_eq!(lowered.tail, vec![op1(Mnemonic::JMP, 0u32)]);
        assert_eq!(lowered.effect, Effect::Jump { kind: JumpKind::Jmp, target: 0x40 });
    }
    let test = vec![op1(Mnemonic::POP, Reg::RAX), op2(Mnemonic::CMP, Reg::RAX, 0u8)];
    let lowered = lower(Cmd::If { loc: 0x100 }, false).unwrap();
    assert_eq!(lowered.head, test);
    assert_eq!(lowered.tail, vec![op1(Mnemonic::JE, 0u32)]);
    assert_eq!(lowered.effect, Effect::Jump { kind: JumpKind::Je, target: 0 });
    let lowered = lower(Cmd::IfNot { loc: 0x104 }, false).unwrap();
    assert_eq!(lowered.head, test);
    assert_eq!(lowered.tail, vec![op1(Mnemonic::JNE, 0u32)]);
    assert_eq!(lowered.effect, Effect::Jump { kind: JumpKind::Jne, target: 4 });
}

#[test]
fn jump_before_the_script_is_refused() {
    assert_eq!(
        lower(Cmd::Jump { loc: 0xff }, false).unwrap_err(),
        CompileError::StructuralViolation { position: 12, opcode: Some(4), violation: Violation::JumpTarget }
    );
}

#[test]
fn try_marks_its_target_when_the_push_bit_is_set() {
    let lowered = lower(Cmd::Try { loc: 0x120 }, true).unwrap();
    assert!(lowered.head.is_empty() && lowered.tail.is_empty());
    assert_eq!(lowered.effect, Effect::Try { target: 0x120 });
    assert_eq!(lower(Cmd::Try { loc: 0x120 }, false).unwrap().effect, Effect::Plain);
}

#[test]
fn returns_and_end() {
    for cmd in [Cmd::Return6, Cmd::Return8] {
        let mut expected = vec![op1(Mnemonic::POP, Reg::RAX)];
        expected.extend(teardown());
        assert_eq!(code(cmd, false), expected);
    }
    for cmd in [Cmd::Return7, Cmd::Return9, Cmd::End] {
        assert_eq!(code(cmd, false), teardown());
    }
}

#[test]
fn exit_and_nop() {
    assert_eq!(
        code(Cmd::Exit, false),
        vec![op2(Mnemonic::MOV, Reg::EAX, 60u32), op2(Mnemonic::XOR, Reg::EDI, Reg::EDI), op0(Mnemonic::SYSCALL)]
    );
    assert!(code(Cmd::Nop, true).is_empty());
}

#[test]
fn system_call() {
    let mut expected = vec![
        op2(Mnemonic::MOV, Reg::RDI, Reg::RSP),
        op2(Mnemonic::MOV, Reg::RSI, 2u32),
        op2(Mnemonic::MOV, Reg::RCX, 0x5000_0000u64 + 5 * 16),
    ];
    expected.extend(aligned_call());
    expected.push(op2(Mnemonic::ADD, Reg::RSP, 16u8));
    assert_eq!(code(Cmd::Sys { arg_count: 2, sys_num: 5 }, false), expected);
    expected.push(op1(Mnemonic::PUSH, Reg::RAX));
    assert_eq!(code(Cmd::Sys { arg_count: 2, sys_num: 5 }, true), expected);
}

#[test]
fn system_call_discards_many_arguments_with_a_wide_immediate() {
    let listing = code(Cmd::Sys { arg_count: 15, sys_num: 0 }, false);
    assert_eq!(listing.last(), Some(&op2(Mnemonic::ADD, Reg::RSP, 120u8)));
    let listing = code(Cmd::Sys { arg_count: 16, sys_num: 0 }, false);
    assert_eq!(listing.last(), Some(&op2(Mnemonic::ADD, Reg::RSP, 128u32)));
    let listing = code(Cmd::Sys { arg_count: 255, sys_num: 0 }, false);
    assert_eq!(listing.last(), Some(&op2(Mnemonic::ADD, Reg::RSP, 2040u32)));
}

#[test]
fn system_call_without_adapter_is_unsupported() {
    let short = HostEnv { globals: 0, string_table: 0, printf: 0, syscalls: vec![1, 2, 3] };
    let cmd = Command { cmd: Cmd::Sys { arg_count: 0, sys_num: 3 }, push_bit: false, position: 8 };
    assert_eq!(
        lower_command(&cmd, None, 0, 0, &short).unwrap_err(),
        CompileError::UnsupportedOpcode { position: 8, opcode: 0x2d }
    );
    let cmd = Command { cmd: Cmd::Sys { arg_count: 0, sys_num: 2 }, push_bit: false, position: 8 };
    assert!(lower_command(&cmd, None, 0, 0, &short).is_ok());
}

#[test]
fn print_call() {
    let mut expected = vec![
        op2(Mnemonic::MOV, Reg::RSI, Reg::RSP),
        op2(Mnemonic::MOV, Reg::RAX, (Reg::RSP, 16u64, OperandSize::Qword)),
        op2(Mnemonic::MOV, Reg::RDX, 2u64),
        op2(Mnemonic::MOV, Reg::RDI, STRINGS),
        op2(Mnemonic::MOV, Reg::RDI, (Reg::RDI, Reg::RAX, RegScale::Eight, OperandSize::Qword)),
        op2(Mnemonic::MOV, Reg::RCX, PRINTF),
    ];
    expected.extend(aligned_call());
    expected.push(op2(Mnemonic::ADD, Reg::RSP, 24u8));
    assert_eq!(code(Cmd::PrintF { arg_count: 3 }, false), expected);
}

#[test]
fn print_without_arguments_emits_nothing() {
    for push_bit in [false, true] {
        assert!(code(Cmd::PrintF { arg_count: 0 }, push_bit).is_empty());
    }
}

#[test]
fn print_call_with_the_format_alone_reads_the_top_slot() {
    let listing = code(Cmd::PrintF { arg_count: 1 }, false);
    assert_eq!(listing[1], op2(Mnemonic::MOV, Reg::RAX, (Reg::RSP, OperandSize::Qword)));
    assert_eq!(listing[2], op2(Mnemonic::MOV, Reg::RDX, 0u64));
}

fn call(arg_count: u8) -> Lowered {
    let cmd = Command { cmd: Cmd::CallFunc { arg_count }, push_bit: false, position: 12 };
    lower_command(&cmd, Some(0x400), 0, 0x100, &env()).unwrap()
}

#[test]
fn call_without_arguments_loads_no_register() {
    let lowered = call(0);
    assert!(lowered.head.is_empty());
    assert_eq!(lowered.tail, vec![Item::Raw(RawCode::MovRaxSlot), op1(Mnemonic::CALL, Reg::RAX)]);
    assert_eq!(lowered.effect, Effect::Call { callee: 0x400 });
}

#[test]
fn call_pops_register_arguments_last_first() {
    let regs = [Reg::RDI, Reg::RSI, Reg::RDX, Reg::RCX, Reg::R8, Reg::R9];
    for n in 1..=6usize {
        let lowered = call(n as u8);
        let expected: Vec<Item> = regs[..n].iter().rev().map(|r| op1(Mnemonic::POP, *r)).collect();
        assert_eq!(lowered.head, expected);
        assert_eq!(lowered.tail, vec![Item::Raw(RawCode::MovRaxSlot), op1(Mnemonic::CALL, Reg::RAX)]);
    }
}

#[test]
fn call_moves_overflow_arguments_into_the_outbound_area() {
    let lowered = call(8);
    let slot = |d: i64| (Reg::RSP, d, OperandSize::Qword);
    let mut expected = vec![op2(Mnemonic::ADD, Reg::RSP, 16u8)];
    for r in [Reg::R9, Reg::R8, Reg::RCX, Reg::RDX, Reg::RSI, Reg::RDI] {
        expected.push(op1(Mnemonic::POP, r));
    }
    expected.push(op2(Mnemonic::SUB, Reg::RSP, 16u8));
    expected.push(op2(Mnemonic::MOV, Reg::RAX, slot(-0x30)));
    expected.push(op2(Mnemonic::MOV, slot(8), Reg::RAX));
    expected.push(op2(Mnemonic::MOV, Reg::RAX, slot(-0x28)));
    expected.push(op2(Mnemonic::MOV, slot(0), Reg::RAX));
    assert_eq!(lowered.head, expected);
    assert_eq!(
        lowered.tail,
        vec![Item::Raw(RawCode::MovRaxSlot), op1(Mnemonic::CALL, Reg::RAX), op2(Mnemonic::ADD, Reg::RSP, 16u8)]
    );
}

#[test]
fn call_with_many_overflow_arguments() {
    let lowered = call(255);
    let slot = |d: i64| (Reg::RSP, d, OperandSize::Qword);
    assert_eq!(lowered.head.len(), 1 + 6 + 1 + 2 * 6 + 4 * 121);
    assert_eq!(lowered.head[0], op2(Mnemonic::ADD, Reg::RSP, 1992u32));
    assert_eq!(lowered.head[7], op2(Mnemonic::SUB, Reg::RSP, 1992u32));
    // the last six arguments are moved up from below the outbound area
    assert_eq!(lowered.head[8], op2(Mnemonic::MOV, Reg::RAX, slot(-0x30)));
    assert_eq!(lowered.head[9], op2(Mnemonic::MOV, slot(8 * 248), Reg::RAX));
    assert_eq!(lowered.head[18], op2(Mnemonic::MOV, Reg::RAX, slot(-8)));
    assert_eq!(lowered.head[19], op2(Mnemonic::MOV, slot(8 * 243), Reg::RAX));
    // the others are exchanged in pairs within the area
    assert_eq!(lowered.head[20], op2(Mnemonic::MOV, Reg::RAX, slot(0)));
    assert_eq!(lowered.head[21], op2(Mnemonic::MOV, Reg::R10, slot(8 * 242)));
    assert_eq!(lowered.head[22], op2(Mnemonic::MOV, slot(8 * 242), Reg::RAX));
    assert_eq!(lowered.head[23], op2(Mnemonic::MOV, slot(0), Reg::R10));
    assert_eq!(lowered.head[500], op2(Mnemonic::MOV, Reg::RAX, slot(8 * 120)));
    assert_eq!(lowered.head[501], op2(Mnemonic::MOV, Reg::R10, slot(8 * 122)));
    assert_eq!(lowered.head[502], op2(Mnemonic::MOV, slot(8 * 122), Reg::RAX));
    assert_eq!(lowered.head[503], op2(Mnemonic::MOV, slot(8 * 120), Reg::R10));
}

#[test]
fn call_with_fourteen_arguments_exchanges_the_two_that_overlap() {
    let slot = |d: i64| (Reg::RSP, d, OperandSize::Qword);
    let mut expected = vec![op2(Mnemonic::ADD, Reg::RSP, 64u8)];
    for r in [Reg::R9, Reg::R8, Reg::RCX, Reg::RDX, Reg::RSI, Reg::RDI] {
        expected.push(op1(Mnemonic::POP, r));
    }
    expected.push(op2(Mnemonic::SUB, Reg::RSP, 64u8));
    for i in 0..6 {
        expected.push(op2(Mnemonic::MOV, Reg::RAX, slot(8 * i - 0x30)));
        expected.push(op2(Mnemonic::MOV, slot(8 * (7 - i)), Reg::RAX));
    }
    expected.push(op2(Mnemonic::MOV, Reg::RAX, slot(0)));
    expected.push(op2(Mnemonic::MOV, Reg::R10, slot(8)));
    expected.push(op2(Mnemonic::MOV, slot(8), Reg::RAX));
    expected.push(op2(Mnemonic::MOV, slot(0), Reg::R10));
    assert_eq!(call(14).head, expected);
    // with thirteen the one slot in the middle stays where it is
    assert_eq!(call(13).head.len(), 1 + 6 + 1 + 12);
}

fn latest<K: PartialEq + Copy>(cells: &[(K, u64)], key: K) -> Option<u64> {
    cells.iter().rev().find(|(k, _)| *k == key).map(|(_, v)| *v)
}

/// Runs the listing of a call's setup on a stack that holds `args`, the
/// last on top, and hands back the registers, the stack pointer and memory,
/// each as the list of what was written.
fn after_call_setup(items: &[Item], args: &[u64], start: i64) -> (Vec<(Reg, u64)>, i64, Vec<(i64, u64)>) {
    let mut regs: Vec<(Reg, u64)> = Vec::new();
    let mut mem: Vec<(i64, u64)> = Vec::new();
    let mut rsp = start;
    for (j, arg) in args.iter().rev().enumerate() {
        mem.push((start + 8 * j as i64, *arg));
    }
    let address = |rsp: i64, op: &x86asm::Operand| match op {
        x86asm::Operand::Indirect(Reg::RSP, _, _) => rsp,
        x86asm::Operand::IndirectDisplaced(Reg::RSP, d, _, _) => rsp + *d as i64,
        other => panic!("unexpected operand {:?}", other),
    };
    let amount = |op: &x86asm::Operand| match op {
        x86asm::Operand::Literal8(v) => i64::from(*v as i8),
        x86asm::Operand::Literal32(v) => i64::from(*v as i32),
        other => panic!("unexpected amount {:?}", other),
    };
    for item in items {
        match item {
            Item::Op2(Mnemonic::ADD, x86asm::Operand::Direct(Reg::RSP), src) => rsp += amount(src),
            Item::Op2(Mnemonic::SUB, x86asm::Operand::Direct(Reg::RSP), src) => rsp -= amount(src),
            Item::Op1(Mnemonic::POP, x86asm::Operand::Direct(r)) => {
                regs.push((*r, latest(&mem, rsp).unwrap()));
                rsp += 8;
            }
            Item::Op2(Mnemonic::MOV, x86asm::Operand::Direct(r), src) => {
                regs.push((*r, latest(&mem, address(rsp, src)).unwrap()));
            }
            Item::Op2(Mnemonic::MOV, dst, x86asm::Operand::Direct(r)) => {
                mem.push((address(rsp, dst), latest(&regs, *r).unwrap()));
            }
            other => panic!("unexpected entry {:?}", other),
        }
    }
    (regs, rsp, mem)
}

#[test]
fn call_setup_hands_over_every_argument() {
    let arg_regs = [Reg::RDI, Reg::RSI, Reg::RDX, Reg::RCX, Reg::R8, Reg::R9];
    for arg_count in 0..=255u8 {
        let count = usize::from(arg_count);
        let args: Vec<u64> = (0..count).map(|k| 0x1000 + k as u64).collect();
        let start = 0x10_0000;
        let (regs, rsp, mem) = after_call_setup(&call(arg_count).head, &args, start);
        let in_regs = count.min(6);
        assert_eq!(rsp, start + 8 * in_regs as i64, "{} arguments", arg_count);
        for k in 0..in_regs {
            assert_eq!(latest(&regs, arg_regs[k]), Some(args[k]), "argument {} of {}", k, arg_count);
        }
        for k in 6..count {
            let at = rsp + 8 * (k as i64 - 6);
            assert_eq!(latest(&mem, at), Some(args[k]), "argument {} of {}", k, arg_count);
        }
    }
}

#[test]
fn call_without_a_pushed_callee_is_refused() {
    for cmd in [
        Cmd::CallFunc { arg_count: 1 },
        Cmd::CallFunc2 { arg_count: 1 },
        Cmd::CallFunc3 { arg_count: 1 },
    ] {
        assert_eq!(
            lower(cmd, false).unwrap_err(),
            CompileError::StructuralViolation { position: 12, opcode: Some(0x2f), violation: Violation::CallTarget }
        );
    }
}

/// What a listing does to the stack pointer, with `pad` in `R15`.
fn stack_pointer_change(items: &[Item], pad: i64) -> i64 {
    let amount = |src: &x86asm::Operand| match src {
        x86asm::Operand::Literal8(v) => i64::from(*v as i8),
        x86asm::Operand::Literal32(v) => i64::from(*v as i32),
        x86asm::Operand::Direct(Reg::R15) => pad,
        _ => 0,
    };
    let mut change = 0;
    for item in items {
        change += match item {
            Item::Op1(Mnemonic::PUSH, _) => -8,
            Item::Op1(Mnemonic::POP, _) => 8,
            Item::Op2(Mnemonic::ADD, x86asm::Operand::Direct(Reg::RSP), src) => amount(src),
            Item::Op2(Mnemonic::SUB, x86asm::Operand::Direct(Reg::RSP), src) => -amount(src),
            _ => 0,
        };
    }
    change
}

#[test]
fn code_moves_the_stack_pointer_as_the_command_moves_the_stack() {
    let var = |f: fn(u8, u16) -> Cmd, var_type: u8| f(var_type, 3);
    // the command, its push-bit, and the slots it adds to the virtual stack
    let cases: Vec<(Cmd, bool, i64)> = vec![
        (Cmd::PushInt { val: 9 }, true, 1),
        (Cmd::PushInt { val: 9 }, false, 0),
        (Cmd::PushShort { val: 9 }, true, 1),
        (var(|var_type, var_num| Cmd::PushVar { var_type, var_num }, 0), true, 1),
        (var(|var_type, var_num| Cmd::PushVar { var_type, var_num }, 1), true, 1),
        (var(|var_type, var_num| Cmd::PushVar { var_type, var_num }, 0), false, 0),
        (var(|var_type, var_num| Cmd::PushVar { var_type, var_num }, 1), false, 0),
        (var(|var_type, var_num| Cmd::SetVar { var_type, var_num }, 0), false, -1),
        (var(|var_type, var_num| Cmd::VarSetF { var_type, var_num }, 1), false, -1),
        (var(|var_type, var_num| Cmd::IncI { var_type, var_num }, 1), false, 0),
        (var(|var_type, var_num| Cmd::DecF { var_type, var_num }, 0), false, 0),
        (var(|var_type, var_num| Cmd::AddVarBy { var_type, var_num }, 0), false, -1),
        (var(|var_type, var_num| Cmd::ModVarBy { var_type, var_num }, 1), false, -1),
        (var(|var_type, var_num| Cmd::DivVarByF { var_type, var_num }, 1), false, -1),
        (Cmd::AddI, true, -1),
        (Cmd::AddI, false, -2),
        (Cmd::ModI, true, -1),
        (Cmd::ShiftL, false, -2),
        (Cmd::LessThan, true, -1),
        (Cmd::LessThan, false, -2),
        (Cmd::GreaterF, true, -1),
        (Cmd::GreaterF, false, -2),
        (Cmd::EqualsF, false, -2),
        (Cmd::DivF, true, -1),
        (Cmd::DivF, false, -2),
        (Cmd::NegI, true, 0),
        (Cmd::NotI, false, -1),
        (Cmd::NegF, true, 0),
        (Cmd::NegF, false, -1),
        (Cmd::Not, false, -1),
        (Cmd::Not, true, 0),
        (Cmd::IntToFloat { stack_pos: 0 }, false, 0),
        (Cmd::FloatToInt { stack_pos: 0 }, true, 0),
        (Cmd::Jump { loc: 0x100 }, false, 0),
        (Cmd::If { loc: 0x100 }, false, -1),
        (Cmd::IfNot { loc: 0x100 }, true, -1),
        (Cmd::Try { loc: 0x100 }, true, 0),
        (Cmd::Push, true, 1),
        (Cmd::Push, false, 0),
        (Cmd::Pop, false, -1),
        (Cmd::Pop, true, 0),
        (Cmd::Sys { arg_count: 3, sys_num: 1 }, true, -2),
        (Cmd::Sys { arg_count: 200, sys_num: 1 }, false, -200),
        (Cmd::PrintF { arg_count: 4 }, false, -4),
        (Cmd::PrintF { arg_count: 255 }, false, -255),
        (Cmd::PrintF { arg_count: 0 }, false, 0),
        (Cmd::Exit, false, 0),
        (Cmd::Nop, true, 0),
    ];
    for (cmd, push_bit, slots) in cases {
        let lowered = lower(cmd, push_bit).unwrap();
        let mut listing = lowered.head.clone();
        listing.extend(lowered.tail.iter().copied());
        for pad in [0, 8] {
            assert_eq!(stack_pointer_change(&listing, pad), -8 * slots, "{:?}", cmd);
        }
    }
    for arg_count in [0u8, 1, 6, 7, 8, 22, 255] {
        let lowered = call(arg_count);
        let mut listing = lowered.head.clone();
        listing.extend(lowered.tail.iter().copied());
        assert_eq!(stack_pointer_change(&listing, 8), 8 * i64::from(arg_count));
    }
}
