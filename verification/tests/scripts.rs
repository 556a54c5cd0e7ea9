use msc::{Cmd, Command, Script};
use msc_jit::into_operand::IntoOperand;
use msc_jit::listing::{encode_item, Item, RawCode};
use msc_jit::lower::{CompileError, HostEnv, Violation};
use msc_jit::script::{append_listing, compile_script, overwrite, CallReloc};
use x86asm::{Mnemonic, OperandSize, Reg, RegScale};

const STRINGS: u64 = 0x2000;
const PRINTF: u64 = 0x3000;

fn env() -> HostEnv {
    HostEnv { globals: 0x1122334455667788, string_table: STRINGS, printf: PRINTF, syscalls: vec![0x4000; 256] }
}

/// Commands four bytes apart in a script that starts at `start`.
fn script(start: u32, cmds: Vec<(Cmd, bool)>) -> Script {
    let mut commands = Vec::new();
    let mut position = 0u32;
    for (cmd, push_bit) in cmds {
        commands.push(Command { cmd, push_bit, position });
        position += 4;
    }
    Script { commands, bounds: (start, start + position) }
}

fn reloc(script: usize, at: usize, callee: u32, source: u32) -> CallReloc {
    CallReloc { script, at, callee, source, opcode: 0x2f }
}

fn begin(arg_count: u16, var_count: u16) -> (Cmd, bool) {
    (Cmd::Begin { arg_count, var_count }, false)
}

fn assemble(items: &[Item]) -> Vec<u8> {
    let mut bytes = Vec::new();
    for item in items {
        bytes.extend(encode_item(item).unwrap());
    }
    bytes
}

fn op1(m: Mnemonic, a: impl IntoOperand) -> Item {
    Item::Op1(m, a.into_op())
}

fn op2(m: Mnemonic, a: impl IntoOperand, b: impl IntoOperand) -> Item {
    Item::Op2(m, a.into_op(), b.into_op())
}

const PROLOGUE: [u8; 4] = [0x55, 0x48, 0x89, 0xe5];
const EPILOGUE: [u8; 5] = [0x48, 0x89, 0xec, 0x5d, 0xc3];
const SLOT: [u8; 10] = [0x48, 0xb8, 0xf8, 0xff, 0xff, 0xff, 0xff, 0xff, 0xff, 0xf8];

fn joined(parts: &[&[u8]]) -> Vec<u8> {
    parts.iter().flat_map(|p| p.iter().copied()).collect()
}

#[test]
fn adds_two_constants() {
    let s = script(
        0x10,
        vec![
            begin(0, 0),
            (Cmd::PushShort { val: 2 }, true),
            (Cmd::PushShort { val: 3 }, true),
            (Cmd::AddI, true),
            (Cmd::Return6, false),
        ],
    );
    let compiled = compile_script(&s, 0, &env()).unwrap();
    let expected = joined(&[
        &PROLOGUE,
        &[0x68, 2, 0, 0, 0],
        &[0x68, 3, 0, 0, 0],
        &[0x59, 0x58, 0x01, 0xc8, 0x50],
        &[0x58],
        &EPILOGUE,
    ]);
    assert_eq!(compiled.code, expected);
    assert!(compiled.relocs.is_empty());
}

#[test]
fn branches_on_a_local() {
    let s = script(
        0x10,
        vec![
            begin(0, 1),
            (Cmd::PushShort { val: 0 }, true),
            (Cmd::SetVar { var_type: 0, var_num: 0 }, false),
            (Cmd::PushVar { var_type: 0, var_num: 0 }, true),
            (Cmd::PushShort { val: 0 }, true),
            (Cmd::Equals, true),
            (Cmd::IfNot { loc: 0x10 + 36 }, false),
            (Cmd::PushShort { val: 1 }, true),
            (Cmd::Return6, false),
            (Cmd::PushShort { val: 2 }, true),
            (Cmd::Return6, false),
        ],
    );
    let compiled = compile_script(&s, 0, &env()).unwrap();
    let leave: [u8; 12] = [0x48, 0x89, 0xec, 0x48, 0x81, 0xc4, 0x10, 0, 0, 0, 0x5d, 0xc3];
    let expected = joined(&[
        &[0x55, 0x48, 0x81, 0xec, 0x10, 0, 0, 0, 0x48, 0x89, 0xe5],
        &[0x68, 0, 0, 0, 0],
        &[0x58, 0x89, 0x45, 0x00],
        &[0x8b, 0x45, 0x00, 0x50],
        &[0x68, 0, 0, 0, 0],
        &[0x58, 0x59, 0x4d, 0x31, 0xc0, 0xba, 1, 0, 0, 0, 0x39, 0xc1, 0x0f, 0x44, 0xc2, 0x41, 0x0f, 0x45, 0xc0, 0x50],
        &[0x58, 0x48, 0x83, 0xf8, 0x00, 0x0f, 0x85, 0x12, 0, 0, 0],
        &[0x68, 1, 0, 0, 0],
        &[0x58],
        &leave,
        &[0x68, 2, 0, 0, 0],
        &[0x58],
        &leave,
    ]);
    assert_eq!(compiled.code, expected);
    // the jump at 54 is six bytes long and leads 0x12 further: to the push of 2
    assert_eq!(&compiled.code[54..56], &[0x0f, 0x85]);
    assert_eq!(&compiled.code[54 + 6 + 0x12..][..5], &[0x68, 2, 0, 0, 0]);
}

#[test]
fn callee_adds_three_to_its_argument() {
    let s = script(
        0x40,
        vec![
            begin(1, 0),
            (Cmd::PushVar { var_type: 0, var_num: 0 }, true),
            (Cmd::PushShort { val: 3 }, true),
            (Cmd::AddI, true),
            (Cmd::Return6, false),
        ],
    );
    let compiled = compile_script(&s, 1, &env()).unwrap();
    let expected = joined(&[
        &PROLOGUE,
        &[0x89, 0x7d, 0x00],
        &[0x8b, 0x45, 0x00, 0x50],
        &[0x68, 3, 0, 0, 0],
        &[0x59, 0x58, 0x01, 0xc8, 0x50],
        &[0x58],
        &EPILOGUE,
    ]);
    assert_eq!(compiled.code, expected);
}

#[test]
fn caller_passes_one_argument() {
    let s = script(
        0x10,
        vec![
            begin(0, 0),
            (Cmd::Try { loc: 0x10 + 20 }, true),
            (Cmd::PushShort { val: 7 }, true),
            (Cmd::PushInt { val: 0x40 }, true),
            (Cmd::CallFunc { arg_count: 1 }, false),
            (Cmd::Return6, false),
        ],
    );
    let compiled = compile_script(&s, 3, &env()).unwrap();
    let expected = joined(&[
        &PROLOGUE,
        &[0x68, 7, 0, 0, 0],
        &[0x5f],
        &SLOT,
        &[0xff, 0xd0],
        &[0x50],
        &[0x58],
        &EPILOGUE,
    ]);
    assert_eq!(compiled.code, expected);
    assert_eq!(compiled.relocs, vec![reloc(3, 10, 0x40, 16)]);
}

#[test]
fn multiplies_floats_and_truncates() {
    let s = script(
        0x10,
        vec![
            begin(0, 0),
            (Cmd::PushInt { val: 0x40400000 }, true),
            (Cmd::PushInt { val: 0x40000000 }, true),
            (Cmd::MultF, true),
            (Cmd::FloatToInt { stack_pos: 0 }, false),
            (Cmd::Return6, false),
        ],
    );
    let compiled = compile_script(&s, 0, &env()).unwrap();
    let expected = joined(&[
        &PROLOGUE,
        &[0x68, 0x00, 0x00, 0x40, 0x40],
        &[0x68, 0x00, 0x00, 0x00, 0x40],
        &[0xd9, 0x44, 0x24, 0x08, 0xd9, 0x04, 0x24, 0xd8, 0xc9, 0x48, 0x83, 0xc4, 0x08, 0xd9, 0x1c, 0x24, 0xdd, 0xd8],
        &[0x9b, 0xd9, 0xbc, 0x24, 0xfe, 0xff, 0xff, 0xff],
        &[0x66, 0x81, 0x8c, 0x24, 0xfe, 0xff, 0xff, 0xff, 0x00, 0x0c],
        &[0xd9, 0xac, 0x24, 0xfe, 0xff, 0xff, 0xff],
        &[0xd9, 0x04, 0x24, 0xdb, 0x1c, 0x24],
        &[0x58],
        &EPILOGUE,
    ]);
    assert_eq!(compiled.code, expected);
}

fn print_call(arg_count: u8) -> Vec<Item> {
    vec![
        op2(Mnemonic::MOV, Reg::RSI, Reg::RSP),
        op2(Mnemonic::MOV, Reg::RAX, (Reg::RSP, 8 * (arg_count as u64 - 1), OperandSize::Qword)),
        op2(Mnemonic::MOV, Reg::RDX, arg_count as u64 - 1),
        op2(Mnemonic::MOV, Reg::RDI, STRINGS),
        op2(Mnemonic::MOV, Reg::RDI, (Reg::RDI, Reg::RAX, RegScale::Eight, OperandSize::Qword)),
        op2(Mnemonic::MOV, Reg::RCX, PRINTF),
        op1(Mnemonic::PUSH, Reg::R15),
        op2(Mnemonic::MOV, Reg::R15, Reg::RSP),
        op2(Mnemonic::AND, Reg::R15, 8u8),
        op2(Mnemonic::SUB, Reg::RSP, Reg::R15),
        op1(Mnemonic::CALL, Reg::RCX),
        op2(Mnemonic::ADD, Reg::RSP, Reg::R15),
        op1(Mnemonic::POP, Reg::R15),
        op2(Mnemonic::ADD, Reg::RSP, 8 * arg_count),
    ]
}

#[test]
fn prints_a_string() {
    let s = script(0x10, vec![begin(0, 0), (Cmd::PushShort { val: 0 }, true), (Cmd::PrintF { arg_count: 1 }, false), (Cmd::End, false)]);
    let compiled = compile_script(&s, 0, &env()).unwrap();
    let expected = joined(&[&PROLOGUE, &[0x68, 0, 0, 0, 0], &assemble(&print_call(1)), &EPILOGUE]);
    assert_eq!(compiled.code, expected);
}

#[test]
fn prints_two_arguments() {
    let s = script(
        0x10,
        vec![
            begin(0, 0),
            (Cmd::PushShort { val: 0 }, true),
            (Cmd::PushShort { val: 10 }, true),
            (Cmd::PushShort { val: 20 }, true),
            (Cmd::PrintF { arg_count: 3 }, false),
            (Cmd::End, false),
        ],
    );
    let compiled = compile_script(&s, 0, &env()).unwrap();
    let expected = joined(&[
        &PROLOGUE,
        &[0x68, 0, 0, 0, 0, 0x68, 10, 0, 0, 0, 0x68, 20, 0, 0, 0],
        &assemble(&print_call(3)),
        &EPILOGUE,
    ]);
    assert_eq!(compiled.code, expected);
}

#[test]
fn script_of_begin_and_end_is_prologue_and_epilogue() {
    let s = script(0, vec![begin(0, 0), (Cmd::End, false)]);
    let compiled = compile_script(&s, 0, &env()).unwrap();
    assert_eq!(compiled.code, joined(&[&PROLOGUE, &EPILOGUE]));
    assert!(compiled.relocs.is_empty());
}

#[test]
fn script_of_begin_alone_is_prologue_and_epilogue() {
    let s = script(0, vec![begin(0, 0)]);
    let compiled = compile_script(&s, 0, &env()).unwrap();
    assert_eq!(compiled.code, joined(&[&PROLOGUE, &EPILOGUE]));
    assert!(compiled.relocs.is_empty());
    let s = script(0, vec![begin(0, 5)]);
    let compiled = compile_script(&s, 0, &env()).unwrap();
    let with_locals: [u8; 23] = [
        0x55, 0x48, 0x81, 0xec, 0x20, 0, 0, 0, 0x48, 0x89, 0xe5, // push rbp; sub rsp, 32; mov rbp, rsp
        0x48, 0x89, 0xec, 0x48, 0x81, 0xc4, 0x20, 0, 0, 0, 0x5d, 0xc3, // mov rsp, rbp; add rsp, 32; pop rbp; ret
    ];
    assert_eq!(compiled.code, with_locals.to_vec());
}

#[test]
fn prologue_spills_register_and_stack_arguments() {
    let s = script(0, vec![begin(8, 2)]);
    let compiled = compile_script(&s, 0, &env()).unwrap();
    let expected = joined(&[
        &[0x55, 0x48, 0x81, 0xec, 0x10, 0, 0, 0, 0x48, 0x89, 0xe5],
        &[0x89, 0x7d, 0x00, 0x89, 0x75, 0x04, 0x89, 0x55, 0x08, 0x89, 0x4d, 0x0c],
        &[0x44, 0x89, 0x45, 0x10, 0x44, 0x89, 0x4d, 0x14],
        &[0x8b, 0x44, 0x24, 0x20, 0x89, 0x45, 0x18],
        &[0x8b, 0x44, 0x24, 0x28, 0x89, 0x45, 0x1c],
        &[0x48, 0x89, 0xec, 0x48, 0x81, 0xc4, 0x10, 0, 0, 0, 0x5d, 0xc3],
    ]);
    assert_eq!(compiled.code, expected);
}

#[test]
fn script_must_begin_with_begin() {
    let empty = Script { commands: vec![], bounds: (0, 0) };
    assert_eq!(
        compile_script(&empty, 0, &env()).unwrap_err(),
        CompileError::StructuralViolation { position: 0, opcode: None, violation: Violation::MissingBegin }
    );
    let mut s = script(0, vec![(Cmd::Nop, false), begin(0, 0)]);
    s.commands[0].position = 9;
    assert_eq!(
        compile_script(&s, 0, &env()).unwrap_err(),
        CompileError::StructuralViolation { position: 9, opcode: Some(0), violation: Violation::MissingBegin }
    );
}

#[test]
fn begin_may_stand_at_the_start_only() {
    let s = script(0, vec![begin(0, 0), (Cmd::Nop, false), begin(0, 0)]);
    assert_eq!(
        compile_script(&s, 0, &env()).unwrap_err(),
        CompileError::StructuralViolation { position: 8, opcode: Some(2), violation: Violation::MisplacedBegin }
    );
}

#[test]
fn first_error_wins() {
    let s = script(0, vec![begin(0, 0), (Cmd::Unk1, false), (Cmd::IntToFloat { stack_pos: 2 }, false)]);
    assert_eq!(compile_script(&s, 0, &env()).unwrap_err(), CompileError::UnsupportedOpcode { position: 4, opcode: 1 });
}

#[test]
fn pushed_immediate_is_written_unless_a_call_takes_it() {
    let s = script(0, vec![begin(0, 0), (Cmd::PushInt { val: 5 }, true)]);
    assert_eq!(compile_script(&s, 0, &env()).unwrap().code, joined(&[&PROLOGUE, &[0x68, 5, 0, 0, 0]]));
    let s = script(0, vec![begin(0, 0), (Cmd::PushInt { val: 5 }, true), (Cmd::Nop, false), (Cmd::End, false)]);
    assert_eq!(
        compile_script(&s, 0, &env()).unwrap().code,
        joined(&[&PROLOGUE, &[0x68, 5, 0, 0, 0], &EPILOGUE])
    );
    let s = script(0, vec![begin(0, 0), (Cmd::PushInt { val: 5 }, true), (Cmd::CallFunc2 { arg_count: 0 }, false)]);
    let compiled = compile_script(&s, 0, &env()).unwrap();
    assert_eq!(compiled.code, joined(&[&PROLOGUE, &SLOT, &[0xff, 0xd0]]));
    assert_eq!(compiled.relocs, vec![reloc(0, 4, 5, 8)]);
}

#[test]
fn call_needs_the_push_right_before_it() {
    let refused = |position| CompileError::StructuralViolation {
        position,
        opcode: Some(0x2f),
        violation: Violation::CallTarget,
    };
    let s = script(0, vec![begin(0, 0), (Cmd::CallFunc { arg_count: 0 }, false)]);
    assert_eq!(compile_script(&s, 0, &env()).unwrap_err(), refused(4));
    let s = script(0, vec![begin(0, 0), (Cmd::PushInt { val: 5 }, true), (Cmd::Nop, false), (Cmd::CallFunc { arg_count: 0 }, false)]);
    assert_eq!(compile_script(&s, 0, &env()).unwrap_err(), refused(12));
    let s = script(0, vec![begin(0, 0), (Cmd::PushInt { val: 5 }, false), (Cmd::CallFunc { arg_count: 0 }, false)]);
    assert_eq!(compile_script(&s, 0, &env()).unwrap_err(), refused(8));
    let s = script(0, vec![begin(0, 0), (Cmd::PushVar { var_type: 0, var_num: 0 }, true), (Cmd::CallFunc { arg_count: 0 }, false)]);
    assert_eq!(compile_script(&s, 0, &env()).unwrap_err(), refused(8));
}

#[test]
fn return_value_is_pushed_on_arrival_at_a_marked_position() {
    let s = script(
        0x100,
        vec![begin(0, 0), (Cmd::Try { loc: 0x100 + 12 }, true), (Cmd::Nop, false), (Cmd::Nop, false), (Cmd::End, false)],
    );
    assert_eq!(compile_script(&s, 0, &env()).unwrap().code, joined(&[&PROLOGUE, &[0x50], &EPILOGUE]));
    let unmarked = script(
        0x100,
        vec![begin(0, 0), (Cmd::Try { loc: 0x100 + 12 }, false), (Cmd::Nop, false), (Cmd::Nop, false), (Cmd::End, false)],
    );
    assert_eq!(compile_script(&unmarked, 0, &env()).unwrap().code, joined(&[&PROLOGUE, &EPILOGUE]));
}

#[test]
fn marked_call_loses_its_callee() {
    let s = script(
        0,
        vec![begin(0, 0), (Cmd::Try { loc: 12 }, true), (Cmd::PushInt { val: 5 }, true), (Cmd::CallFunc { arg_count: 0 }, false)],
    );
    assert_eq!(
        compile_script(&s, 0, &env()).unwrap_err(),
        CompileError::StructuralViolation { position: 12, opcode: Some(0x2f), violation: Violation::CallTarget }
    );
}

#[test]
fn jumps_backward_and_forward() {
    let s = script(
        0x20,
        vec![
            begin(0, 0),
            (Cmd::Nop, false),
            (Cmd::Jump { loc: 0x20 + 16 }, false),
            (Cmd::Else { loc: 0x20 + 4 }, false),
            (Cmd::End, false),
        ],
    );
    let compiled = compile_script(&s, 0, &env()).unwrap();
    let expected = joined(&[
        &PROLOGUE,
        &[0xe9, 5, 0, 0, 0],
        &[0xe9, 0xf6, 0xff, 0xff, 0xff],
        &EPILOGUE,
    ]);
    assert_eq!(compiled.code, expected);
}

#[test]
fn conditional_jump_counts_from_its_own_end() {
    let s = script(0, vec![begin(0, 0), (Cmd::If { loc: 4 }, false), (Cmd::End, false)]);
    let compiled = compile_script(&s, 0, &env()).unwrap();
    // pop rax; cmp rax, 0; je back to the pop: 4 - (9 + 6) = -11
    let expected = joined(&[&PROLOGUE, &[0x58, 0x48, 0x83, 0xf8, 0x00, 0x0f, 0x84, 0xf5, 0xff, 0xff, 0xff], &EPILOGUE]);
    assert_eq!(compiled.code, expected);
}

#[test]
fn jump_to_a_call_lands_on_its_address_slot() {
    let s = script(
        0,
        vec![
            begin(0, 0),
            (Cmd::PushShort { val: 1 }, true),
            (Cmd::PushInt { val: 0x80 }, true),
            (Cmd::CallFunc { arg_count: 1 }, false),
            (Cmd::Jump { loc: 12 }, false),
        ],
    );
    let compiled = compile_script(&s, 0, &env()).unwrap();
    // slot at 10, jump at 22: 10 - (22 + 5) = -17
    let expected = joined(&[&PROLOGUE, &[0x68, 1, 0, 0, 0], &[0x5f], &SLOT, &[0xff, 0xd0], &[0xe9, 0xef, 0xff, 0xff, 0xff]]);
    assert_eq!(compiled.code, expected);
    assert_eq!(compiled.relocs, vec![reloc(0, 10, 0x80, 12)]);
}

#[test]
fn jump_to_no_command_is_refused() {
    let s = script(0, vec![begin(0, 0), (Cmd::Nop, false), (Cmd::Jump { loc: 6 }, false), (Cmd::End, false)]);
    assert_eq!(
        compile_script(&s, 0, &env()).unwrap_err(),
        CompileError::StructuralViolation { position: 8, opcode: Some(4), violation: Violation::JumpTarget }
    );
    // the first command of a script has no code offset of its own
    let s = script(0, vec![begin(0, 0), (Cmd::Jump { loc: 0 }, false)]);
    assert_eq!(
        compile_script(&s, 0, &env()).unwrap_err(),
        CompileError::StructuralViolation { position: 4, opcode: Some(4), violation: Violation::JumpTarget }
    );
    let s = script(0x40, vec![begin(0, 0), (Cmd::Jump { loc: 4 }, false)]);
    assert_eq!(
        compile_script(&s, 0, &env()).unwrap_err(),
        CompileError::StructuralViolation { position: 4, opcode: Some(4), violation: Violation::JumpTarget }
    );
}

#[test]
fn calls_are_recorded_in_order() {
    let s = script(
        0,
        vec![
            begin(0, 0),
            (Cmd::PushInt { val: 0x100 }, true),
            (Cmd::CallFunc { arg_count: 0 }, false),
            (Cmd::PushInt { val: 0x200 }, true),
            (Cmd::CallFunc3 { arg_count: 0 }, false),
        ],
    );
    let compiled = compile_script(&s, 7, &env()).unwrap();
    assert_eq!(compiled.code, joined(&[&PROLOGUE, &SLOT, &[0xff, 0xd0], &SLOT, &[0xff, 0xd0]]));
    assert_eq!(
        compiled.relocs,
        vec![reloc(7, 4, 0x100, 8), reloc(7, 16, 0x200, 16)]
    );
}

#[test]
fn compilation_is_repeatable() {
    let s = script(
        0x10,
        vec![
            begin(2, 3),
            (Cmd::PushVar { var_type: 1, var_num: 9 }, true),
            (Cmd::If { loc: 0x10 + 16 }, false),
            (Cmd::IncF { var_type: 1, var_num: 2 }, false),
            (Cmd::Sys { arg_count: 1, sys_num: 3 }, true),
            (Cmd::Return6, false),
        ],
    );
    let first = compile_script(&s, 0, &env()).unwrap();
    let second = compile_script(&s, 0, &env()).unwrap();
    assert_eq!(first.code, second.code);
    assert_eq!(first.relocs, second.relocs);
}

#[test]
fn entry_without_encoding_is_an_encoding_failure() {
    let mut code = vec![1, 2, 3];
    let items = vec![Item::Raw(RawCode::Sahf), Item::Op0(Mnemonic::NOP)];
    assert_eq!(append_listing(&mut code, &items, 44), Err(CompileError::EncodingFailure { position: 44 }));
    assert_eq!(code, vec![1, 2, 3, 0x9e]);
    let mut code = vec![1, 2, 3];
    assert_eq!(append_listing(&mut code, &items[..1].to_vec(), 44), Ok(()));
    assert_eq!(code, vec![1, 2, 3, 0x9e]);
}

#[test]
fn overwrite_replaces_in_place() {
    let mut code = vec![0, 1, 2, 3, 4, 5];
    overwrite(&mut code, 2, &vec![9, 8, 7]);
    assert_eq!(code, vec![0, 1, 9, 8, 7, 5]);
    overwrite(&mut code, 6, &vec![]);
    assert_eq!(code, vec![0, 1, 9, 8, 7, 5]);
}

fn holds(code: &[u8], part: &[u8]) -> bool {
    code.windows(part.len()).any(|w| w == part)
}

#[test]
fn variable_32_is_compiled_like_its_neighbours() {
    let frame: [u8; 11] = [0x55, 0x48, 0x81, 0xec, 0xa0, 0, 0, 0, 0x48, 0x89, 0xe5];
    let leave: [u8; 12] = [0x48, 0x89, 0xec, 0x48, 0x81, 0xc4, 0xa0, 0, 0, 0, 0x5d, 0xc3];
    let step = |var_num| script(0, vec![begin(0, 40), (Cmd::IncI { var_type: 0, var_num }, false), (Cmd::End, false)]);
    // inc dword [rbp + 128]
    let compiled = compile_script(&step(32), 0, &env()).unwrap();
    assert_eq!(compiled.code, joined(&[&frame, &[0xff, 0x85, 0x80, 0, 0, 0], &leave]));
    let compiled = compile_script(&step(33), 0, &env()).unwrap();
    assert_eq!(compiled.code, joined(&[&frame, &[0xff, 0x85, 0x84, 0, 0, 0], &leave]));
    let float_cmds: [fn(u8, u16) -> Cmd; 6] = [
        |var_type, var_num| Cmd::IncF { var_type, var_num },
        |var_type, var_num| Cmd::DecF { var_type, var_num },
        |var_type, var_num| Cmd::AddVarByF { var_type, var_num },
        |var_type, var_num| Cmd::SubVarByF { var_type, var_num },
        |var_type, var_num| Cmd::MultVarByF { var_type, var_num },
        |var_type, var_num| Cmd::DivVarByF { var_type, var_num },
    ];
    for cmd in float_cmds {
        let local = script(0, vec![begin(0, 40), (cmd(0, 32), false), (Cmd::End, false)]);
        let code = compile_script(&local, 0, &env()).unwrap().code;
        // fld dword [rbp + 128]; fstp dword [rbp + 128]
        assert!(holds(&code, &[0xd9, 0x85, 0x80, 0, 0, 0]));
        assert!(holds(&code, &[0xd9, 0x9d, 0x80, 0, 0, 0]));
        let global = script(0, vec![begin(0, 0), (cmd(1, 32), false), (Cmd::End, false)]);
        let code = compile_script(&global, 0, &env()).unwrap().code;
        // fld dword [rdx + 128]; fstp dword [rdx + 128]
        assert!(holds(&code, &[0xd9, 0x82, 0x80, 0, 0, 0]));
        assert!(holds(&code, &[0xd9, 0x9a, 0x80, 0, 0, 0]));
    }
    let dec = script(0, vec![begin(0, 0), (Cmd::DecI { var_type: 1, var_num: 32 }, false), (Cmd::End, false)]);
    assert!(compile_script(&dec, 0, &env()).is_ok());
}

#[test]
fn call_with_six_arguments_pops_into_the_argument_registers() {
    let mut cmds = vec![begin(0, 0)];
    for val in 1..=6 {
        cmds.push((Cmd::PushShort { val }, true));
    }
    cmds.push((Cmd::PushInt { val: 0x40 }, true));
    cmds.push((Cmd::CallFunc { arg_count: 6 }, false));
    cmds.push((Cmd::End, false));
    let compiled = compile_script(&script(0, cmds), 2, &env()).unwrap();
    let pushes: Vec<u8> = (1..=6).flat_map(|val| [0x68, val, 0, 0, 0]).collect();
    // pop r9; pop r8; pop rcx; pop rdx; pop rsi; pop rdi
    let pops = [0x41, 0x59, 0x41, 0x58, 0x59, 0x5a, 0x5e, 0x5f];
    let expected = joined(&[&PROLOGUE, &pushes, &pops, &SLOT, &[0xff, 0xd0], &EPILOGUE]);
    assert_eq!(compiled.code, expected);
    assert_eq!(compiled.relocs, vec![reloc(2, 4 + 30 + 8, 0x40, 32)]);
}
