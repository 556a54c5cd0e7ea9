//! Lowering of one bytecode command into its instruction listing.
//!
//! The native stack mirrors the virtual operand stack with one 8-byte slot
//! per value. Locals live in 4-byte slots above `RBP`; globals in a 4-byte
//! slot array whose address is baked into the code.

use vstd::prelude::*;
use msc::{Cmd, Command};
use x86asm::{Mnemonic, Operand, OperandSize, Reg, RegScale};
use crate::asm_helper::{
    emit0, emit1, emit2, fpu_transfer, fpu_transfer_rev, frame_teardown, global_load, global_load_float,
    global_store, global_store_float, AsmWriterHelper, ListingWriter,
};
use crate::bytecode::opcode_value;
use crate::into_operand::displaced;
use crate::listing::{Item, RawCode};

verus! {

/// The three jumps that the generator emits.
#[derive(Clone, Copy, Debug, PartialEq, Eq, Structural)]
pub enum JumpKind {
    Jmp,
    Je,
    Jne,
}

/// What is wrong with the structure of a script or program.
#[derive(Clone, Copy, Debug, PartialEq, Eq, Structural)]
pub enum Violation {
    /// The script does not begin with `Begin`.
    MissingBegin,
    /// `Begin` stands past the first position.
    MisplacedBegin,
    /// A cast names a stack slot other than the top.
    CastSlot,
    /// A call does not directly follow a push of its callee's offset.
    CallTarget,
    /// A jump leads to no command of its script.
    JumpTarget,
    /// A call names an offset at which no script starts.
    UnknownCallee,
    /// No script starts at the entrypoint.
    UnknownEntrypoint,
}

/// Why compilation was refused. `position` and `opcode` are those of the
/// command at fault; a violation that no command is at fault for has no
/// opcode, and its position is the offset that was looked for.
#[derive(Clone, Copy, Debug, PartialEq, Eq, Structural)]
pub enum CompileError {
    UnsupportedOpcode { position: u32, opcode: u8 },
    StructuralViolation { position: u32, opcode: Option<u8>, violation: Violation },
    EncodingFailure { position: u32 },
    /// The region of a script would be larger than the address space.
    MemoryFailure { script: usize },
}

/// What a command asks of the generator beyond its code.
#[derive(Clone, Copy, Debug, PartialEq, Eq, Structural)]
pub enum Effect {
    Plain,
    /// The first instruction of the tail is a jump to patch; `target` is the
    /// position of the command it leads to, relative to the script.
    Jump { kind: JumpKind, target: u32 },
    /// The first entry of the tail is the slot for the callee's address.
    Call { callee: u32 },
    /// A return value is to be pushed on arrival at `target`.
    Try { target: u32 },
}

/// The host addresses that are baked into the code.
#[derive(Debug)]
pub struct HostEnv {
    /// Address of the global slot array.
    pub globals: u64,
    /// Address of the vector of string pointers.
    pub string_table: u64,
    /// Address of the print helper.
    pub printf: u64,
    /// Addresses of the system call adapters, by number.
    pub syscalls: Vec<u64>,
}

/// The listing of one command, split where an offset is recorded.
#[derive(Debug)]
pub struct Lowered {
    pub head: Vec<Item>,
    pub tail: Vec<Item>,
    pub effect: Effect,
}

pub struct Lowering {
    pub head: Seq<Item>,
    pub tail: Seq<Item>,
    pub effect: Effect,
}

impl View for Lowered {
    type V = Lowering;

    open spec fn view(&self) -> Lowering {
        Lowering { head: self.head@, tail: self.tail@, effect: self.effect }
    }
}

/// The refusal of a command whose opcode is not supported.
pub open spec fn unsupported(cmd: Command) -> CompileError {
    CompileError::UnsupportedOpcode { position: cmd.position, opcode: opcode_value(cmd.cmd) }
}

/// The refusal of a command that violates the structure of its script.
pub open spec fn violating(cmd: Command, violation: Violation) -> CompileError {
    CompileError::StructuralViolation {
        position: cmd.position,
        opcode: Some(opcode_value(cmd.cmd)),
        violation,
    }
}

pub fn refuse_unsupported(cmd: &Command) -> (e: CompileError)
    ensures
        e == unsupported(*cmd),
{
    CompileError::UnsupportedOpcode { position: cmd.position, opcode: cmd.cmd.value() }
}

pub fn refuse_violating(cmd: &Command, violation: Violation) -> (e: CompileError)
    ensures
        e == violating(*cmd, violation),
{
    CompileError::StructuralViolation { position: cmd.position, opcode: Some(cmd.cmd.value()), violation }
}

pub open spec fn jump_mnemonic(kind: JumpKind) -> Mnemonic {
    match kind {
        JumpKind::Jmp => Mnemonic::JMP,
        JumpKind::Je => Mnemonic::JE,
        JumpKind::Jne => Mnemonic::JNE,
    }
}

/// The length in bytes of a jump with a 32-bit displacement.
pub open spec fn jump_length(kind: JumpKind) -> nat {
    match kind {
        JumpKind::Jmp => 5,
        JumpKind::Je => 6,
        JumpKind::Jne => 6,
    }
}

/// The jump instruction with the given displacement.
pub open spec fn jump_item(kind: JumpKind, rel: u32) -> Item {
    Item::Op1(jump_mnemonic(kind), Operand::Literal32(rel))
}

pub open spec fn reg(r: Reg) -> Operand {
    Operand::Direct(r)
}

/// The dword slot of local `n`.
pub open spec fn local_slot(n: u16) -> Operand {
    displaced(Reg::RBP, (n as u64 * 4) as u64, OperandSize::Dword)
}

/// The low dword of the top stack slot.
pub open spec fn stack_top() -> Operand {
    Operand::Indirect(Reg::RSP, Some(OperandSize::Dword), None)
}

/// The dword just below the stack pointer.
pub open spec fn scratch_slot() -> Operand {
    Operand::IndirectDisplaced(Reg::RSP, 0xffff_ffff_ffff_fffc, Some(OperandSize::Dword), None)
}

/// The word just below the stack pointer, used for the x87 control word.
pub open spec fn control_word() -> Operand {
    Operand::IndirectDisplaced(Reg::RSP, 0xffff_ffff_ffff_fffe, Some(OperandSize::Word), None)
}

/// The immediate for moving the stack pointer by `bytes`: 8 bits where the
/// sign-extended byte is `bytes`, 32 bits otherwise.
pub open spec fn stack_adjust(bytes: u32) -> Operand {
    if bytes < 128 {
        Operand::Literal8(bytes as u8)
    } else {
        Operand::Literal32(bytes)
    }
}

pub open spec fn push_immediate(val: u32) -> Item {
    Item::Op1(Mnemonic::PUSH, Operand::Literal32(val))
}

/// The integer argument registers of the System V calling convention.
pub open spec fn arg_regs() -> Seq<Reg> {
    seq![Reg::RDI, Reg::RSI, Reg::RDX, Reg::RCX, Reg::R8, Reg::R9]
}

/// Their 32-bit halves.
pub open spec fn arg_regs_32() -> Seq<Reg> {
    seq![Reg::EDI, Reg::ESI, Reg::EDX, Reg::ECX, Reg::R8D, Reg::R9D]
}

/// A call through `target` with the stack pointer aligned to 16 bytes:
/// `R15` holds the padding across the call.
pub open spec fn aligned_call(target: Reg) -> Seq<Item> {
    seq![
        Item::Op1(Mnemonic::PUSH, reg(Reg::R15)),
        Item::Op2(Mnemonic::MOV, reg(Reg::R15), reg(Reg::RSP)),
        Item::Op2(Mnemonic::AND, reg(Reg::R15), Operand::Literal8(8)),
        Item::Op2(Mnemonic::SUB, reg(Reg::RSP), reg(Reg::R15)),
        Item::Op1(Mnemonic::CALL, reg(target)),
        Item::Op2(Mnemonic::ADD, reg(Reg::RSP), reg(Reg::R15)),
        Item::Op1(Mnemonic::POP, reg(Reg::R15)),
    ]
}

pub open spec fn sys_code(handler: u64, arg_count: u8, push_bit: bool) -> Seq<Item> {
    seq![
        Item::Op2(Mnemonic::MOV, reg(Reg::RDI), reg(Reg::RSP)),
        Item::Op2(Mnemonic::MOV, reg(Reg::RSI), Operand::Literal32(arg_count as u32)),
        Item::Op2(Mnemonic::MOV, reg(Reg::RCX), Operand::Literal64(handler)),
    ] + aligned_call(Reg::RCX) + seq![
        Item::Op2(Mnemonic::ADD, reg(Reg::RSP), stack_adjust((8 * arg_count) as u32)),
    ] + (if push_bit {
        seq![Item::Op1(Mnemonic::PUSH, reg(Reg::RAX))]
    } else {
        Seq::<Item>::empty()
    })
}

/// The print helper's call: `RSI` the argument vector, `RDI` the format
/// string found through the string table, `RDX` the number of arguments
/// besides the format.
pub open spec fn printf_code(string_table: u64, printf: u64, arg_count: u8) -> Seq<Item> {
    seq![
        Item::Op2(Mnemonic::MOV, reg(Reg::RSI), reg(Reg::RSP)),
        Item::Op2(
            Mnemonic::MOV,
            reg(Reg::RAX),
            displaced(Reg::RSP, (8 * (arg_count - 1)) as u64, OperandSize::Qword),
        ),
        Item::Op2(Mnemonic::MOV, reg(Reg::RDX), Operand::Literal64((arg_count - 1) as u64)),
        Item::Op2(Mnemonic::MOV, reg(Reg::RDI), Operand::Literal64(string_table)),
        Item::Op2(
            Mnemonic::MOV,
            reg(Reg::RDI),
            Operand::IndirectScaledIndexed(Reg::RDI, Reg::RAX, RegScale::Eight, Some(OperandSize::Qword), None),
        ),
        Item::Op2(Mnemonic::MOV, reg(Reg::RCX), Operand::Literal64(printf)),
    ] + aligned_call(Reg::RCX) + seq![
        Item::Op2(Mnemonic::ADD, reg(Reg::RSP), stack_adjust((8 * arg_count) as u32)),
    ]
}

pub open spec fn dup_code() -> Seq<Item> {
    seq![
        Item::Op1(Mnemonic::POP, reg(Reg::RAX)),
        Item::Op1(Mnemonic::PUSH, reg(Reg::RAX)),
        Item::Op1(Mnemonic::PUSH, reg(Reg::RAX)),
    ]
}

pub open spec fn discard_code() -> Seq<Item> {
    seq![Item::Op2(Mnemonic::ADD, reg(Reg::RSP), Operand::Literal8(8))]
}

/// `pop rax; cmp rax, 0`: what precedes a conditional jump.
pub open spec fn branch_test() -> Seq<Item> {
    seq![
        Item::Op1(Mnemonic::POP, reg(Reg::RAX)),
        Item::Op2(Mnemonic::CMP, reg(Reg::RAX), Operand::Literal8(0)),
    ]
}

/// The number of arguments passed in registers.
pub open spec fn reg_args(arg_count: u8) -> int {
    if arg_count < 6 {
        arg_count as int
    } else {
        6
    }
}

/// The number of arguments passed on the stack.
pub open spec fn stack_args(arg_count: u8) -> int {
    if arg_count > 6 {
        arg_count - 6
    } else {
        0
    }
}

/// Where overflow move `i` reads from, relative to the stack pointer after
/// the outbound area was reserved: `8 * i - 0x30` in two's complement. Of
/// `n` arguments that slot holds argument `n - 1 - i`, the one pushed `i`
/// before the last.
pub open spec fn overflow_source(i: int) -> u64 {
    if i < 6 {
        (0xffff_ffff_ffff_ffd0 + 8 * i) as u64
    } else {
        (8 * i - 0x30) as u64
    }
}

/// Overflow move `j / 2`, in two instructions: of `6 + over` arguments it
/// carries argument `5 + over - j / 2` into slot `over - 1 - j / 2` of the
/// outbound area, so that argument `k` comes to lie at `[RSP + 8 * (k - 6)]`.
pub open spec fn overflow_move(over: int, j: int) -> Item {
    if j % 2 == 0 {
        Item::Op2(Mnemonic::MOV, reg(Reg::RAX), displaced(Reg::RSP, overflow_source(j / 2), OperandSize::Qword))
    } else {
        Item::Op2(
            Mnemonic::MOV,
            displaced(Reg::RSP, (8 * (over - 1 - j / 2)) as u64, OperandSize::Qword),
            reg(Reg::RAX),
        )
    }
}

/// The number of overflow moves: one for each of the last six stack
/// arguments. They were pushed last and lie below the outbound area, so a
/// move of theirs overwrites nothing that is still to be read.
pub open spec fn outer_moves(over: int) -> int {
    if over < 6 {
        over
    } else {
        6
    }
}

/// The number of exchanges. The stack arguments before the last six lie
/// within the outbound area, in the reverse of the order they are wanted
/// in: they are exchanged in pairs, from the ends of their part of the area
/// inwards.
pub open spec fn inner_swaps(over: int) -> int {
    if over > 6 {
        (over - 6) / 2
    } else {
        0
    }
}

/// Exchange `j / 4`, in four instructions: slots `j / 4` and
/// `over - 7 - j / 4` of the outbound area trade their contents through
/// `RAX` and `R10`.
pub open spec fn overflow_swap(over: int, j: int) -> Item {
    let low = displaced(Reg::RSP, (8 * (j / 4)) as u64, OperandSize::Qword);
    let high = displaced(Reg::RSP, (8 * (over - 7 - j / 4)) as u64, OperandSize::Qword);
    if j % 4 == 0 {
        Item::Op2(Mnemonic::MOV, reg(Reg::RAX), low)
    } else if j % 4 == 1 {
        Item::Op2(Mnemonic::MOV, reg(Reg::R10), high)
    } else if j % 4 == 2 {
        Item::Op2(Mnemonic::MOV, high, reg(Reg::RAX))
    } else {
        Item::Op2(Mnemonic::MOV, low, reg(Reg::R10))
    }
}

/// What brings the stack arguments into the outbound area: the moves, then
/// the exchanges.
pub open spec fn overflow_moves(over: int) -> Seq<Item> {
    Seq::new((2 * outer_moves(over)) as nat, |j: int| overflow_move(over, j)) + Seq::new(
        (4 * inner_swaps(over)) as nat,
        |j: int| overflow_swap(over, j),
    )
}

pub open spec fn arg_pops(count: int) -> Seq<Item> {
    Seq::new(count as nat, |i: int| Item::Op1(Mnemonic::POP, reg(arg_regs()[count - 1 - i])))
}

/// What a call does before the address slot: the register arguments are
/// popped, the last first, and the stack arguments are moved into the
/// outbound area.
pub open spec fn call_setup(arg_count: u8) -> Seq<Item> {
    let over = stack_args(arg_count);
    if over > 0 {
        seq![Item::Op2(Mnemonic::ADD, reg(Reg::RSP), stack_adjust((8 * over) as u32))] + arg_pops(6) + seq![
            Item::Op2(Mnemonic::SUB, reg(Reg::RSP), stack_adjust((8 * over) as u32)),
        ] + overflow_moves(over)
    } else {
        arg_pops(reg_args(arg_count))
    }
}

/// The address slot, the call, and the release of the outbound area.
pub open spec fn call_transfer(arg_count: u8) -> Seq<Item> {
    let over = stack_args(arg_count);
    seq![Item::Raw(RawCode::MovRaxSlot), Item::Op1(Mnemonic::CALL, reg(Reg::RAX))] + (if over > 0 {
        seq![Item::Op2(Mnemonic::ADD, reg(Reg::RSP), stack_adjust((8 * over) as u32))]
    } else {
        Seq::<Item>::empty()
    })
}

pub open spec fn int_to_float_code() -> Seq<Item> {
    seq![Item::Op1(Mnemonic::FILD, stack_top()), Item::Op1(Mnemonic::FSTP, stack_top())]
}

/// Sets the x87 rounding control to truncation, then converts in place.
pub open spec fn float_to_int_code() -> Seq<Item> {
    seq![
        Item::Op1(Mnemonic::FSTCW, control_word()),
        Item::Op2(Mnemonic::OR, control_word(), Operand::Literal16(0xc00)),
        Item::Op1(Mnemonic::FLDCW, control_word()),
        Item::Op1(Mnemonic::FLD, stack_top()),
        Item::Op1(Mnemonic::FISTP, stack_top()),
    ]
}

/// A variable is read into `EAX` and pushed; with the push-bit clear the
/// value is read and dropped.
pub open spec fn push_var_code(var_type: u8, var_num: u16, globals: u64, push_bit: bool) -> Seq<Item> {
    (if var_type == 0 {
        seq![Item::Op2(Mnemonic::MOV, reg(Reg::EAX), local_slot(var_num))]
    } else {
        global_load(globals, Reg::EAX, var_num)
    }) + (if push_bit {
        seq![Item::Op1(Mnemonic::PUSH, reg(Reg::RAX))]
    } else {
        Seq::<Item>::empty()
    })
}

pub open spec fn set_var_code(var_type: u8, var_num: u16, globals: u64) -> Seq<Item> {
    if var_type == 0 {
        seq![
            Item::Op1(Mnemonic::POP, reg(Reg::RAX)),
            Item::Op2(Mnemonic::MOV, local_slot(var_num), reg(Reg::EAX)),
        ]
    } else {
        seq![Item::Op1(Mnemonic::POP, reg(Reg::RCX))] + global_store(globals, Reg::ECX, var_num)
    }
}

/// Increment or decrement of an integer variable; `op` is `INC` or `DEC`.
pub open spec fn step_int_code(op: Mnemonic, var_type: u8, var_num: u16, globals: u64) -> Seq<Item> {
    if var_type == 0 {
        seq![Item::Op1(op, local_slot(var_num))]
    } else {
        global_load(globals, Reg::ECX, var_num) + seq![Item::Op1(op, reg(Reg::ECX))] + global_store(
            globals,
            Reg::ECX,
            var_num,
        )
    }
}

/// Increment or decrement of a float variable: `delta` is 1 or -1 as a
/// dword, added through the scratch slot.
pub open spec fn step_float_code(delta: u32, var_type: u8, var_num: u16, globals: u64) -> Seq<Item> {
    seq![Item::Op2(Mnemonic::MOV, scratch_slot(), Operand::Literal32(delta))] + (if var_type == 0 {
        seq![
            Item::Op1(Mnemonic::FLD, local_slot(var_num)),
            Item::Op1(Mnemonic::FIADD, scratch_slot()),
            Item::Op1(Mnemonic::FSTP, local_slot(var_num)),
        ]
    } else {
        global_load_float(globals, var_num) + seq![Item::Op1(Mnemonic::FIADD, scratch_slot())]
            + global_store_float(globals, var_num)
    })
}

/// Compound assignment to a float variable: the variable is loaded, `op`
/// combines it with the operand at the stack top, and the result is stored;
/// then the operand is dropped.
pub open spec fn float_assign_code(op: Mnemonic, var_type: u8, var_num: u16, globals: u64) -> Seq<Item> {
    (if var_type == 0 {
        seq![
            Item::Op1(Mnemonic::FLD, local_slot(var_num)),
            Item::Op1(op, stack_top()),
            Item::Op1(Mnemonic::FSTP, local_slot(var_num)),
        ]
    } else {
        global_load_float(globals, var_num) + seq![Item::Op1(op, stack_top())] + global_store_float(
            globals,
            var_num,
        )
    }) + seq![Item::Op2(Mnemonic::ADD, reg(Reg::RSP), Operand::Literal8(8))]
}

/// Compound assignment to an integer variable with a two-operand
/// instruction: the operand is popped into `ECX`, the variable is loaded
/// into `EAX`, combined and stored.
pub open spec fn int_assign_code(op: Mnemonic, var_type: u8, var_num: u16, globals: u64) -> Seq<Item> {
    seq![Item::Op1(Mnemonic::POP, reg(Reg::RCX))] + (if var_type == 0 {
        seq![
            Item::Op2(Mnemonic::MOV, reg(Reg::EAX), local_slot(var_num)),
            Item::Op2(op, reg(Reg::EAX), reg(Reg::ECX)),
            Item::Op2(Mnemonic::MOV, local_slot(var_num), reg(Reg::EAX)),
        ]
    } else {
        global_load(globals, Reg::EAX, var_num) + seq![Item::Op2(op, reg(Reg::EAX), reg(Reg::ECX))]
            + global_store(globals, Reg::EAX, var_num)
    })
}

/// Compound multiply, divide or remainder on an integer variable. As with
/// `muldiv_code`, a zero divisor is left to the processor.
pub open spec fn muldiv_assign_code(
    divide: bool,
    remainder: bool,
    var_type: u8,
    var_num: u16,
    globals: u64,
) -> Seq<Item> {
    let op = if divide {
        Mnemonic::IDIV
    } else {
        Mnemonic::IMUL
    };
    seq![Item::Op1(Mnemonic::POP, reg(Reg::RCX))] + (if var_type == 0 {
        seq![Item::Op2(Mnemonic::MOV, reg(Reg::EAX), local_slot(var_num))] + (if divide {
            seq![Item::Op2(Mnemonic::MOV, reg(Reg::EDX), Operand::Literal32(0))]
        } else {
            Seq::<Item>::empty()
        }) + seq![
            Item::Op1(op, reg(Reg::ECX)),
            Item::Op2(Mnemonic::MOV, local_slot(var_num), reg(if remainder { Reg::EDX } else { Reg::EAX })),
        ]
    } else {
        global_load(globals, Reg::EAX, var_num) + (if divide {
            seq![Item::Op2(Mnemonic::MOV, reg(Reg::EDX), Operand::Literal32(0))]
        } else {
            Seq::<Item>::empty()
        }) + seq![Item::Op1(op, reg(Reg::ECX))] + (if remainder {
            seq![Item::Op2(Mnemonic::MOV, reg(Reg::EAX), reg(Reg::EDX))]
        } else {
            Seq::<Item>::empty()
        }) + global_store(globals, Reg::EAX, var_num)
    })
}

/// Multiply, divide or remainder of the two top slots. The divisor is not
/// tested: a division by zero is left to the processor, which raises its
/// divide error.
pub open spec fn muldiv_code(divide: bool, remainder: bool, push_bit: bool) -> Seq<Item> {
    seq![Item::Op1(Mnemonic::POP, reg(Reg::RCX)), Item::Op1(Mnemonic::POP, reg(Reg::RAX))] + (if push_bit {
        (if divide {
            seq![Item::Op2(Mnemonic::MOV, reg(Reg::EDX), Operand::Literal32(0))]
        } else {
            Seq::<Item>::empty()
        }) + seq![
            Item::Op1(if divide { Mnemonic::IDIV } else { Mnemonic::IMUL }, reg(Reg::ECX)),
            Item::Op1(Mnemonic::PUSH, reg(if remainder { Reg::RDX } else { Reg::RAX })),
        ]
    } else {
        Seq::<Item>::empty()
    })
}

/// A two-operand integer operation on the two top slots; shifts take their
/// count from `CL`.
pub open spec fn int_binop_code(op: Mnemonic, count: Reg, push_bit: bool) -> Seq<Item> {
    seq![Item::Op1(Mnemonic::POP, reg(Reg::RCX)), Item::Op1(Mnemonic::POP, reg(Reg::RAX))] + (if push_bit {
        seq![Item::Op2(op, reg(Reg::EAX), reg(count)), Item::Op1(Mnemonic::PUSH, reg(Reg::RAX))]
    } else {
        Seq::<Item>::empty()
    })
}

/// An integer comparison: `taken` moves 1 into the result where the
/// relation holds, `other` moves 0 where it does not.
pub open spec fn int_compare_code(taken: Mnemonic, other: Mnemonic, push_bit: bool) -> Seq<Item> {
    seq![Item::Op1(Mnemonic::POP, reg(Reg::RAX)), Item::Op1(Mnemonic::POP, reg(Reg::RCX))] + (if push_bit {
        seq![
            Item::Op2(Mnemonic::XOR, reg(Reg::R8), reg(Reg::R8)),
            Item::Op2(Mnemonic::MOV, reg(Reg::EDX), Operand::Literal32(1)),
            Item::Op2(Mnemonic::CMP, reg(Reg::ECX), reg(Reg::EAX)),
            Item::Op2(taken, reg(Reg::EAX), reg(Reg::EDX)),
            Item::Op2(other, reg(Reg::EAX), reg(Reg::R8D)),
            Item::Op1(Mnemonic::PUSH, reg(Reg::RAX)),
        ]
    } else {
        Seq::<Item>::empty()
    })
}

/// A float comparison: the operands are compared on the x87 stack and the
/// flags brought over; `taken` moves 1 into the result where the relation
/// holds, `other` moves 0 where it does not. With the push-bit clear the two
/// operands are dropped.
pub open spec fn float_compare_code(taken: Mnemonic, other: Mnemonic, push_bit: bool) -> Seq<Item> {
    if push_bit {
        fpu_transfer_rev(2) + seq![
            Item::Op2(Mnemonic::XOR, reg(Reg::R8), reg(Reg::R8)),
            Item::Op2(Mnemonic::MOV, reg(Reg::EDX), Operand::Literal32(1)),
            Item::Raw(RawCode::Fcompp),
            Item::Raw(RawCode::FstswAx),
            Item::Op0(Mnemonic::FWAIT),
            Item::Raw(RawCode::Sahf),
            Item::Op2(taken, reg(Reg::EAX), reg(Reg::EDX)),
            Item::Op2(other, reg(Reg::EAX), reg(Reg::R8D)),
            Item::Op2(Mnemonic::ADD, reg(Reg::RSP), Operand::Literal8(16)),
            Item::Op1(Mnemonic::PUSH, reg(Reg::RAX)),
        ]
    } else {
        seq![Item::Op2(Mnemonic::ADD, reg(Reg::RSP), Operand::Literal8(16))]
    }
}

pub open spec fn float_binop_code(op: Mnemonic, push_bit: bool) -> Seq<Item> {
    if push_bit {
        fpu_transfer(2) + seq![
            Item::Op2(op, reg(Reg::ST), reg(Reg::ST1)),
            Item::Op2(Mnemonic::ADD, reg(Reg::RSP), Operand::Literal8(8)),
            Item::Op1(Mnemonic::FSTP, stack_top()),
            Item::Op1(Mnemonic::FSTP, reg(Reg::ST0)),
        ]
    } else {
        seq![Item::Op2(Mnemonic::ADD, reg(Reg::RSP), Operand::Literal8(0x10))]
    }
}

/// Negation or complement of the top slot in place; `op` is `NEG` or `NOT`.
pub open spec fn int_unary_code(op: Mnemonic, push_bit: bool) -> Seq<Item> {
    if push_bit {
        seq![Item::Op1(op, stack_top())]
    } else {
        seq![Item::Op1(Mnemonic::POP, reg(Reg::RAX))]
    }
}

/// Negation of the float in the top slot, in place; with the push-bit
/// clear the slot is dropped.
pub open spec fn float_negate_code(push_bit: bool) -> Seq<Item> {
    if push_bit {
        fpu_transfer(1) + seq![Item::Op0(Mnemonic::FCHS), Item::Op1(Mnemonic::FSTP, stack_top())]
    } else {
        seq![Item::Op2(Mnemonic::ADD, reg(Reg::RSP), Operand::Literal8(8))]
    }
}

/// Logical not: the operand is popped, and with the push-bit set 1 is
/// pushed where it was zero and 0 where it was not.
pub open spec fn logical_not_code(push_bit: bool) -> Seq<Item> {
    seq![Item::Op1(Mnemonic::POP, reg(Reg::RAX))] + (if push_bit {
        seq![
            Item::Op2(Mnemonic::XOR, reg(Reg::R8), reg(Reg::R8)),
            Item::Op2(Mnemonic::MOV, reg(Reg::EDX), Operand::Literal32(1)),
            Item::Op2(Mnemonic::TEST, reg(Reg::RAX), reg(Reg::RAX)),
            Item::Op2(Mnemonic::CMOVE, reg(Reg::RAX), reg(Reg::RDX)),
            Item::Op2(Mnemonic::CMOVNZ, reg(Reg::RAX), reg(Reg::R8)),
            Item::Op1(Mnemonic::PUSH, reg(Reg::RAX)),
        ]
    } else {
        Seq::<Item>::empty()
    })
}

pub open spec fn return_value_code(var_count: u16) -> Seq<Item> {
    seq![Item::Op1(Mnemonic::POP, reg(Reg::RAX))] + frame_teardown(var_count as u32)
}

/// `exit(0)` through the kernel.
pub open spec fn exit_code() -> Seq<Item> {
    seq![
        Item::Op2(Mnemonic::MOV, reg(Reg::EAX), Operand::Literal32(60)),
        Item::Op2(Mnemonic::XOR, reg(Reg::EDI), reg(Reg::EDI)),
        Item::Op0(Mnemonic::SYSCALL),
    ]
}

pub open spec fn plain(code: Seq<Item>) -> Result<Lowering, CompileError> {
    Ok(Lowering { head: Seq::<Item>::empty(), tail: code, effect: Effect::Plain })
}

/// A jump to the command at `loc`, with a zero displacement for now.
pub open spec fn jump_lowering(
    cmd: Command,
    kind: JumpKind,
    loc: u32,
    script_start: u32,
    head: Seq<Item>,
) -> Result<Lowering, CompileError> {
    if loc >= script_start {
        Ok(
            Lowering {
                head,
                tail: seq![jump_item(kind, 0)],
                effect: Effect::Jump { kind, target: (loc - script_start) as u32 },
            },
        )
    } else {
        Err(violating(cmd, Violation::JumpTarget))
    }
}

pub open spec fn cast_lowering(cmd: Command, stack_pos: u8, code: Seq<Item>) -> Result<
    Lowering,
    CompileError,
> {
    if stack_pos == 0 {
        plain(code)
    } else {
        Err(violating(cmd, Violation::CastSlot))
    }
}

/// The listing of a command that follows the first of its script. `callee`
/// is the offset pushed by the command before it, where that was a push of
/// an immediate; `script_start` is where the script begins in the container.
#[verifier::opaque]
pub open spec fn lowering(
    cmd: Command,
    callee: Option<u32>,
    var_count: u16,
    script_start: u32,
    env: HostEnv,
) -> Result<Lowering, CompileError> {
    let p = cmd.push_bit;
    let g = env.globals;
    match cmd.cmd {
        Cmd::Unk1 | Cmd::ErrorC | Cmd::Error37 | Cmd::Error4C => Err(unsupported(cmd)),
        Cmd::Begin { arg_count, var_count } => Err(violating(cmd, Violation::MisplacedBegin)),
        Cmd::Jump { loc } => jump_lowering(cmd, JumpKind::Jmp, loc, script_start, Seq::<Item>::empty()),
        Cmd::Jump5 { loc } => jump_lowering(cmd, JumpKind::Jmp, loc, script_start, Seq::<Item>::empty()),
        Cmd::Else { loc } => jump_lowering(cmd, JumpKind::Jmp, loc, script_start, Seq::<Item>::empty()),
        Cmd::If { loc } => jump_lowering(cmd, JumpKind::Je, loc, script_start, branch_test()),
        Cmd::IfNot { loc } => jump_lowering(cmd, JumpKind::Jne, loc, script_start, branch_test()),
        Cmd::Sys { arg_count, sys_num } => if sys_num < env.syscalls@.len() {
            plain(sys_code(env.syscalls@[sys_num as int], arg_count, p))
        } else {
            Err(unsupported(cmd))
        },
        Cmd::Push => plain(if p { dup_code() } else { Seq::<Item>::empty() }),
        Cmd::Pop => plain(if !p { discard_code() } else { Seq::<Item>::empty() }),
        Cmd::CallFunc { arg_count } | Cmd::CallFunc2 { arg_count } | Cmd::CallFunc3 { arg_count } => match callee {
            Some(c) => Ok(
                Lowering {
                    head: call_setup(arg_count),
                    tail: call_transfer(arg_count),
                    effect: Effect::Call { callee: c },
                },
            ),
            None => Err(violating(cmd, Violation::CallTarget)),
        },
        Cmd::PushShort { val } => plain(if p { seq![push_immediate(val as u32)] } else { Seq::<Item>::empty() }),
        Cmd::PushInt { val } => plain(if p { seq![push_immediate(val)] } else { Seq::<Item>::empty() }),
        Cmd::IntToFloat { stack_pos } => cast_lowering(cmd, stack_pos, int_to_float_code()),
        Cmd::FloatToInt { stack_pos } => cast_lowering(cmd, stack_pos, float_to_int_code()),
        Cmd::PushVar { var_type, var_num } => plain(push_var_code(var_type, var_num, g, p)),
        Cmd::SetVar { var_type, var_num } | Cmd::VarSetF { var_type, var_num } => plain(
            set_var_code(var_type, var_num, g),
        ),
        Cmd::IncI { var_type, var_num } => plain(step_int_code(Mnemonic::INC, var_type, var_num, g)),
        Cmd::DecI { var_type, var_num } => plain(step_int_code(Mnemonic::DEC, var_type, var_num, g)),
        Cmd::IncF { var_type, var_num } => plain(step_float_code(1, var_type, var_num, g)),
        Cmd::DecF { var_type, var_num } => plain(step_float_code(0xffff_ffff, var_type, var_num, g)),
        Cmd::AddVarByF { var_type, var_num } => plain(float_assign_code(Mnemonic::FADD, var_type, var_num, g)),
        Cmd::SubVarByF { var_type, var_num } => plain(float_assign_code(Mnemonic::FSUB, var_type, var_num, g)),
        Cmd::MultVarByF { var_type, var_num } => plain(float_assign_code(Mnemonic::FMUL, var_type, var_num, g)),
        Cmd::DivVarByF { var_type, var_num } => plain(float_assign_code(Mnemonic::FDIV, var_type, var_num, g)),
        Cmd::AddVarBy { var_type, var_num } => plain(int_assign_code(Mnemonic::ADD, var_type, var_num, g)),
        Cmd::SubVarBy { var_type, var_num } => plain(int_assign_code(Mnemonic::SUB, var_type, var_num, g)),
        Cmd::AndVarBy { var_type, var_num } => plain(int_assign_code(Mnemonic::AND, var_type, var_num, g)),
        Cmd::OrVarBy { var_type, var_num } => plain(int_assign_code(Mnemonic::OR, var_type, var_num, g)),
        Cmd::XorVarBy { var_type, var_num } => plain(int_assign_code(Mnemonic::XOR, var_type, var_num, g)),
        Cmd::MultVarBy { var_type, var_num } => plain(muldiv_assign_code(false, false, var_type, var_num, g)),
        Cmd::DivVarBy { var_type, var_num } => plain(muldiv_assign_code(true, false, var_type, var_num, g)),
        Cmd::ModVarBy { var_type, var_num } => plain(muldiv_assign_code(true, true, var_type, var_num, g)),
        Cmd::MultI => plain(muldiv_code(false, false, p)),
        Cmd::DivI => plain(muldiv_code(true, false, p)),
        Cmd::ModI => plain(muldiv_code(true, true, p)),
        Cmd::AddI => plain(int_binop_code(Mnemonic::ADD, Reg::ECX, p)),
        Cmd::SubI => plain(int_binop_code(Mnemonic::SUB, Reg::ECX, p)),
        Cmd::AndI => plain(int_binop_code(Mnemonic::AND, Reg::ECX, p)),
        Cmd::OrI => plain(int_binop_code(Mnemonic::OR, Reg::ECX, p)),
        Cmd::XorI => plain(int_binop_code(Mnemonic::XOR, Reg::ECX, p)),
        Cmd::ShiftL => plain(int_binop_code(Mnemonic::SHL, Reg::CL, p)),
        Cmd::ShiftR => plain(int_binop_code(Mnemonic::SHR, Reg::CL, p)),
        Cmd::Equals => plain(int_compare_code(Mnemonic::CMOVE, Mnemonic::CMOVNE, p)),
        Cmd::NotEquals => plain(int_compare_code(Mnemonic::CMOVNE, Mnemonic::CMOVE, p)),
        Cmd::LessThan => plain(int_compare_code(Mnemonic::CMOVL, Mnemonic::CMOVGE, p)),
        Cmd::LessOrEqual => plain(int_compare_code(Mnemonic::CMOVLE, Mnemonic::CMOVG, p)),
        Cmd::Greater => plain(int_compare_code(Mnemonic::CMOVG, Mnemonic::CMOVLE, p)),
        Cmd::GreaterOrEqual => plain(int_compare_code(Mnemonic::CMOVGE, Mnemonic::CMOVL, p)),
        Cmd::EqualsF => plain(float_compare_code(Mnemonic::CMOVE, Mnemonic::CMOVNE, p)),
        Cmd::NotEqualsF => plain(float_compare_code(Mnemonic::CMOVNE, Mnemonic::CMOVE, p)),
        Cmd::LessThanF => plain(float_compare_code(Mnemonic::CMOVB, Mnemonic::CMOVAE, p)),
        Cmd::LessOrEqualF => plain(float_compare_code(Mnemonic::CMOVBE, Mnemonic::CMOVA, p)),
        Cmd::GreaterF => plain(float_compare_code(Mnemonic::CMOVA, Mnemonic::CMOVBE, p)),
        Cmd::GreaterOrEqualF => plain(float_compare_code(Mnemonic::CMOVAE, Mnemonic::CMOVB, p)),
        Cmd::NegI => plain(int_unary_code(Mnemonic::NEG, p)),
        Cmd::NotI => plain(int_unary_code(Mnemonic::NOT, p)),
        Cmd::NegF => plain(float_negate_code(p)),
        Cmd::Not => plain(logical_not_code(p)),
        Cmd::AddF => plain(float_binop_code(Mnemonic::FADD, p)),
        Cmd::SubF => plain(float_binop_code(Mnemonic::FSUB, p)),
        Cmd::MultF => plain(float_binop_code(Mnemonic::FMUL, p)),
        Cmd::DivF => plain(float_binop_code(Mnemonic::FDIV, p)),
        Cmd::PrintF { arg_count } => if arg_count == 0 {
            plain(Seq::<Item>::empty())
        } else {
            plain(printf_code(env.string_table, env.printf, arg_count))
        },
        Cmd::Try { loc } => Ok(
            Lowering {
                head: Seq::<Item>::empty(),
                tail: Seq::<Item>::empty(),
                effect: if p {
                    Effect::Try { target: loc }
                } else {
                    Effect::Plain
                },
            },
        ),
        Cmd::Return6 | Cmd::Return8 => plain(return_value_code(var_count)),
        Cmd::Return7 | Cmd::Return9 | Cmd::End => plain(frame_teardown(var_count as u32)),
        Cmd::Exit => plain(exit_code()),
        Cmd::Nop => plain(Seq::<Item>::empty()),
    }
}

/// The number of arguments of a call.
pub open spec fn call_arity(c: Cmd) -> u8 {
    match c {
        Cmd::CallFunc { arg_count } | Cmd::CallFunc2 { arg_count } | Cmd::CallFunc3 { arg_count } => arg_count,
        _ => 0u8,
    }
}

/// A command with the effect of a call is lowered to a call's code.
pub proof fn lemma_call_lowering(cmd: Command, callee: Option<u32>, var_count: u16, script_start: u32, env: HostEnv)
    requires
        lowering(cmd, callee, var_count, script_start, env) is Ok,
        lowering(cmd, callee, var_count, script_start, env)->Ok_0.effect is Call,
    ensures
        lowering(cmd, callee, var_count, script_start, env)->Ok_0.head == call_setup(call_arity(cmd.cmd)),
        lowering(cmd, callee, var_count, script_start, env)->Ok_0.tail == call_transfer(call_arity(cmd.cmd)),
{
    reveal(lowering);
}

/// All the instructions of a lowered command.
pub open spec fn command_code(l: Lowering) -> Seq<Item> {
    l.head + l.tail
}

pub fn jump_opcode(kind: JumpKind) -> (m: Mnemonic)
    ensures
        m == jump_mnemonic(kind),
{
    match kind {
        JumpKind::Jmp => Mnemonic::JMP,
        JumpKind::Je => Mnemonic::JE,
        JumpKind::Jne => Mnemonic::JNE,
    }
}

pub fn jump_size(kind: JumpKind) -> (n: usize)
    ensures
        n == jump_length(kind),
{
    match kind {
        JumpKind::Jmp => 5,
        JumpKind::Je => 6,
        JumpKind::Jne => 6,
    }
}

pub fn adjust_operand(bytes: u32) -> (op: Operand)
    ensures
        op == stack_adjust(bytes),
{
    if bytes < 128 {
        Operand::Literal8(bytes as u8)
    } else {
        Operand::Literal32(bytes)
    }
}

fn arg_reg(i: usize) -> (r: Reg)
    requires
        i < 6,
    ensures
        r == arg_regs()[i as int],
{
    if i == 0 {
        Reg::RDI
    } else if i == 1 {
        Reg::RSI
    } else if i == 2 {
        Reg::RDX
    } else if i == 3 {
        Reg::RCX
    } else if i == 4 {
        Reg::R8
    } else {
        Reg::R9
    }
}

pub fn arg_reg_32(i: usize) -> (r: Reg)
    requires
        i < 6,
    ensures
        r == arg_regs_32()[i as int],
{
    if i == 0 {
        Reg::EDI
    } else if i == 1 {
        Reg::ESI
    } else if i == 2 {
        Reg::EDX
    } else if i == 3 {
        Reg::ECX
    } else if i == 4 {
        Reg::R8D
    } else {
        Reg::R9D
    }
}

fn local(n: u16) -> (op: (Reg, u64, OperandSize))
    ensures
        crate::into_operand::IntoOperand::operand(op) == local_slot(n),
{
    (Reg::RBP, n as u64 * 4, OperandSize::Dword)
}

fn top() -> (op: (Reg, OperandSize))
    ensures
        crate::into_operand::IntoOperand::operand(op) == stack_top(),
{
    (Reg::RSP, OperandSize::Dword)
}

fn scratch() -> (op: (Reg, i64, OperandSize))
    ensures
        crate::into_operand::IntoOperand::operand(op) == scratch_slot(),
{
    (Reg::RSP, -4i64, OperandSize::Dword)
}

fn control() -> (op: (Reg, i64, OperandSize))
    ensures
        crate::into_operand::IntoOperand::operand(op) == control_word(),
{
    (Reg::RSP, -2i64, OperandSize::Word)
}

fn emit_aligned_call(out: &mut ListingWriter, target: Reg)
    ensures
        final(out)@ == old(out)@ + aligned_call(target),
{
    emit1(out, Mnemonic::PUSH, Reg::R15);
    emit2(out, Mnemonic::MOV, Reg::R15, Reg::RSP);
    emit2(out, Mnemonic::AND, Reg::R15, 8u8);
    emit2(out, Mnemonic::SUB, Reg::RSP, Reg::R15);
    emit1(out, Mnemonic::CALL, target);
    emit2(out, Mnemonic::ADD, Reg::RSP, Reg::R15);
    emit1(out, Mnemonic::POP, Reg::R15);
    assert(out@ =~= old(out)@ + aligned_call(target));
}

fn emit_sys(out: &mut ListingWriter, handler: u64, arg_count: u8, push_bit: bool)
    ensures
        final(out)@ == old(out)@ + sys_code(handler, arg_count, push_bit),
{
    emit2(out, Mnemonic::MOV, Reg::RDI, Reg::RSP);
    emit2(out, Mnemonic::MOV, Reg::RSI, arg_count as u32);
    emit2(out, Mnemonic::MOV, Reg::RCX, handler);
    emit_aligned_call(out, Reg::RCX);
    emit2(out, Mnemonic::ADD, Reg::RSP, adjust_operand(8 * (arg_count as u32)));
    if push_bit {
        emit1(out, Mnemonic::PUSH, Reg::RAX);
    }
    assert(out@ =~= old(out)@ + sys_code(handler, arg_count, push_bit));
}

fn emit_printf(out: &mut ListingWriter, string_table: u64, printf: u64, arg_count: u8)
    requires
        arg_count > 0,
    ensures
        final(out)@ == old(out)@ + printf_code(string_table, printf, arg_count),
{
    emit2(out, Mnemonic::MOV, Reg::RSI, Reg::RSP);
    emit2(out, Mnemonic::MOV, Reg::RAX, (Reg::RSP, 8 * (arg_count as u64 - 1), OperandSize::Qword));
    emit2(out, Mnemonic::MOV, Reg::RDX, arg_count as u64 - 1);
    emit2(out, Mnemonic::MOV, Reg::RDI, string_table);
    emit2(out, Mnemonic::MOV, Reg::RDI, (Reg::RDI, Reg::RAX, RegScale::Eight, OperandSize::Qword));
    emit2(out, Mnemonic::MOV, Reg::RCX, printf);
    emit_aligned_call(out, Reg::RCX);
    emit2(out, Mnemonic::ADD, Reg::RSP, adjust_operand(8 * (arg_count as u32)));
    assert(out@ =~= old(out)@ + printf_code(string_table, printf, arg_count));
}

fn overflow_source_of(i: u64) -> (d: u64)
    requires
        i < 256,
    ensures
        d == overflow_source(i as int),
{
    if i < 6 {
        0xffff_ffff_ffff_ffd0 + 8 * i
    } else {
        8 * i - 0x30
    }
}

fn emit_arg_pops(out: &mut ListingWriter, count: usize)
    requires
        count <= 6,
    ensures
        final(out)@ == old(out)@ + arg_pops(count as int),
{
    let mut i: usize = 0;
    while i < count
        invariant
            i <= count <= 6,
            out@ == old(out)@ + arg_pops(count as int).take(i as int),
        decreases count - i,
    {
        emit1(out, Mnemonic::POP, arg_reg(count - 1 - i));
        assert(arg_pops(count as int).take(i + 1) =~= arg_pops(count as int).take(i as int).push(
            arg_pops(count as int)[i as int],
        ));
        i = i + 1;
    }
    assert(arg_pops(count as int).take(count as int) =~= arg_pops(count as int));
}

fn emit_overflow_moves(out: &mut ListingWriter, over: u64)
    requires
        0 < over < 256,
    ensures
        final(out)@ == old(out)@ + overflow_moves(over as int),
{
    let outer: u64 = if over < 6 {
        over
    } else {
        6
    };
    let inner: u64 = if over > 6 {
        (over - 6) / 2
    } else {
        0
    };
    let ghost moves = Seq::new((2 * outer) as nat, |j: int| overflow_move(over as int, j));
    let ghost swaps = Seq::new((4 * inner) as nat, |j: int| overflow_swap(over as int, j));
    let mut i: u64 = 0;
    while i < outer
        invariant
            i <= outer <= over < 256,
            outer <= 6,
            moves == Seq::new((2 * outer) as nat, |j: int| overflow_move(over as int, j)),
            out@ == old(out)@ + moves.take(2 * i),
        decreases outer - i,
    {
        emit2(out, Mnemonic::MOV, Reg::RAX, (Reg::RSP, overflow_source_of(i), OperandSize::Qword));
        emit2(out, Mnemonic::MOV, (Reg::RSP, 8 * (over - 1 - i), OperandSize::Qword), Reg::RAX);
        proof {
            assert(moves[2 * i] == overflow_move(over as int, 2 * i));
            assert(moves[2 * i + 1] == overflow_move(over as int, 2 * i + 1));
            assert((2 * i) % 2 == 0 && (2 * i) / 2 == i);
            assert((2 * i + 1) % 2 == 1 && (2 * i + 1) / 2 == i);
            assert(moves.take(2 * (i + 1)) =~= moves.take(2 * i).push(moves[2 * i]).push(moves[2 * i + 1]));
        }
        i = i + 1;
    }
    assert(moves.take(2 * outer) =~= moves);
    assert(swaps.take(0) =~= Seq::<Item>::empty());
    assert(out@ =~= old(out)@ + moves + swaps.take(0));
    let mut p: u64 = 0;
    while p < inner
        invariant
            p <= inner,
            over < 256,
            over > 6 ==> inner == (over - 6) / 2,
            over <= 6 ==> inner == 0,
            swaps == Seq::new((4 * inner) as nat, |j: int| overflow_swap(over as int, j)),
            out@ == old(out)@ + moves + swaps.take(4 * p),
        decreases inner - p,
    {
        let ghost before = out@;
        emit2(out, Mnemonic::MOV, Reg::RAX, (Reg::RSP, 8 * p, OperandSize::Qword));
        emit2(out, Mnemonic::MOV, Reg::R10, (Reg::RSP, 8 * (over - 7 - p), OperandSize::Qword));
        emit2(out, Mnemonic::MOV, (Reg::RSP, 8 * (over - 7 - p), OperandSize::Qword), Reg::RAX);
        emit2(out, Mnemonic::MOV, (Reg::RSP, 8 * p, OperandSize::Qword), Reg::R10);
        proof {
            assert((4 * p) % 4 == 0 && (4 * p) / 4 == p);
            assert((4 * p + 1) % 4 == 1 && (4 * p + 1) / 4 == p);
            assert((4 * p + 2) % 4 == 2 && (4 * p + 2) / 4 == p);
            assert((4 * p + 3) % 4 == 3 && (4 * p + 3) / 4 == p);
            assert(swaps[4 * p] == overflow_swap(over as int, 4 * p));
            assert(swaps[4 * p + 1] == overflow_swap(over as int, 4 * p + 1));
            assert(swaps[4 * p + 2] == overflow_swap(over as int, 4 * p + 2));
            assert(swaps[4 * p + 3] == overflow_swap(over as int, 4 * p + 3));
            assert(swaps.take(4 * (p + 1)) =~= swaps.take(4 * p).push(swaps[4 * p]).push(swaps[4 * p + 1]).push(
                swaps[4 * p + 2],
            ).push(swaps[4 * p + 3]));
            assert(out@ =~= old(out)@ + moves + swaps.take(4 * (p + 1)));
        }
        p = p + 1;
    }
    assert(swaps.take(4 * inner) =~= swaps);
    assert(overflow_moves(over as int) =~= moves + swaps);
    assert(out@ =~= old(out)@ + overflow_moves(over as int));
}

fn emit_call_setup(out: &mut ListingWriter, arg_count: u8)
    ensures
        final(out)@ == old(out)@ + call_setup(arg_count),
{
    if arg_count > 6 {
        let over: u32 = arg_count as u32 - 6;
        emit2(out, Mnemonic::ADD, Reg::RSP, adjust_operand(8 * over));
        emit_arg_pops(out, 6);
        emit2(out, Mnemonic::SUB, Reg::RSP, adjust_operand(8 * over));
        emit_overflow_moves(out, over as u64);
        assert(out@ =~= old(out)@ + call_setup(arg_count));
    } else {
        emit_arg_pops(out, arg_count as usize);
    }
}

fn emit_call_transfer(out: &mut ListingWriter, arg_count: u8)
    ensures
        final(out)@ == old(out)@ + call_transfer(arg_count),
{
    out.mov_rax_0();
    emit1(out, Mnemonic::CALL, Reg::RAX);
    if arg_count > 6 {
        let over: u32 = arg_count as u32 - 6;
        emit2(out, Mnemonic::ADD, Reg::RSP, adjust_operand(8 * over));
    }
    assert(out@ =~= old(out)@ + call_transfer(arg_count));
}

fn emit_push_var(out: &mut ListingWriter, var_type: u8, var_num: u16, globals: u64, push_bit: bool)
    ensures
        final(out)@ == old(out)@ + push_var_code(var_type, var_num, globals, push_bit),
{
    if var_type == 0 {
        emit2(out, Mnemonic::MOV, Reg::EAX, local(var_num));
    } else {
        out.get_global(globals, Reg::EAX, var_num);
    }
    if push_bit {
        emit1(out, Mnemonic::PUSH, Reg::RAX);
    }
    assert(out@ =~= old(out)@ + push_var_code(var_type, var_num, globals, push_bit));
}

fn emit_set_var(out: &mut ListingWriter, var_type: u8, var_num: u16, globals: u64)
    ensures
        final(out)@ == old(out)@ + set_var_code(var_type, var_num, globals),
{
    if var_type == 0 {
        emit1(out, Mnemonic::POP, Reg::RAX);
        emit2(out, Mnemonic::MOV, local(var_num), Reg::EAX);
    } else {
        emit1(out, Mnemonic::POP, Reg::RCX);
        out.set_global(globals, Reg::ECX, var_num);
    }
    assert(out@ =~= old(out)@ + set_var_code(var_type, var_num, globals));
}

fn emit_step_int(out: &mut ListingWriter, op: Mnemonic, var_type: u8, var_num: u16, globals: u64)
    ensures
        final(out)@ == old(out)@ + step_int_code(op, var_type, var_num, globals),
{
    if var_type == 0 {
        emit1(out, op, local(var_num));
    } else {
        out.get_global(globals, Reg::ECX, var_num);
        emit1(out, op, Reg::ECX);
        out.set_global(globals, Reg::ECX, var_num);
    }
    assert(out@ =~= old(out)@ + step_int_code(op, var_type, var_num, globals));
}

fn emit_step_float(out: &mut ListingWriter, delta: u32, var_type: u8, var_num: u16, globals: u64)
    ensures
        final(out)@ == old(out)@ + step_float_code(delta, var_type, var_num, globals),
{
    emit2(out, Mnemonic::MOV, scratch(), delta);
    if var_type == 0 {
        emit1(out, Mnemonic::FLD, local(var_num));
        emit1(out, Mnemonic::FIADD, scratch());
        emit1(out, Mnemonic::FSTP, local(var_num));
    } else {
        out.get_global_float(globals, var_num);
        emit1(out, Mnemonic::FIADD, scratch());
        out.set_global_float(globals, var_num);
    }
    assert(out@ =~= old(out)@ + step_float_code(delta, var_type, var_num, globals));
}

fn emit_float_assign(out: &mut ListingWriter, op: Mnemonic, var_type: u8, var_num: u16, globals: u64)
    ensures
        final(out)@ == old(out)@ + float_assign_code(op, var_type, var_num, globals),
{
    if var_type == 0 {
        emit1(out, Mnemonic::FLD, local(var_num));
        emit1(out, op, top());
        emit1(out, Mnemonic::FSTP, local(var_num));
    } else {
        out.get_global_float(globals, var_num);
        emit1(out, op, top());
        out.set_global_float(globals, var_num);
    }
    emit2(out, Mnemonic::ADD, Reg::RSP, 8u8);
    assert(out@ =~= old(out)@ + float_assign_code(op, var_type, var_num, globals));
}

fn emit_int_assign(out: &mut ListingWriter, op: Mnemonic, var_type: u8, var_num: u16, globals: u64)
    ensures
        final(out)@ == old(out)@ + int_assign_code(op, var_type, var_num, globals),
{
    emit1(out, Mnemonic::POP, Reg::RCX);
    if var_type == 0 {
        emit2(out, Mnemonic::MOV, Reg::EAX, local(var_num));
        emit2(out, op, Reg::EAX, Reg::ECX);
        emit2(out, Mnemonic::MOV, local(var_num), Reg::EAX);
    } else {
        out.get_global(globals, Reg::EAX, var_num);
        emit2(out, op, Reg::EAX, Reg::ECX);
        out.set_global(globals, Reg::EAX, var_num);
    }
    assert(out@ =~= old(out)@ + int_assign_code(op, var_type, var_num, globals));
}

fn emit_muldiv_assign(
    out: &mut ListingWriter,
    divide: bool,
    remainder: bool,
    var_type: u8,
    var_num: u16,
    globals: u64,
)
    ensures
        final(out)@ == old(out)@ + muldiv_assign_code(divide, remainder, var_type, var_num, globals),
{
    let op = if divide {
        Mnemonic::IDIV
    } else {
        Mnemonic::IMUL
    };
    emit1(out, Mnemonic::POP, Reg::RCX);
    if var_type == 0 {
        emit2(out, Mnemonic::MOV, Reg::EAX, local(var_num));
        if divide {
            emit2(out, Mnemonic::MOV, Reg::EDX, 0u32);
        }
        emit1(out, op, Reg::ECX);
        emit2(out, Mnemonic::MOV, local(var_num), if remainder { Reg::EDX } else { Reg::EAX });
    } else {
        out.get_global(globals, Reg::EAX, var_num);
        if divide {
            emit2(out, Mnemonic::MOV, Reg::EDX, 0u32);
        }
        emit1(out, op, Reg::ECX);
        if remainder {
            emit2(out, Mnemonic::MOV, Reg::EAX, Reg::EDX);
        }
        out.set_global(globals, Reg::EAX, var_num);
    }
    assert(out@ =~= old(out)@ + muldiv_assign_code(divide, remainder, var_type, var_num, globals));
}

fn emit_muldiv(out: &mut ListingWriter, divide: bool, remainder: bool, push_bit: bool)
    ensures
        final(out)@ == old(out)@ + muldiv_code(divide, remainder, push_bit),
{
    emit1(out, Mnemonic::POP, Reg::RCX);
    emit1(out, Mnemonic::POP, Reg::RAX);
    if push_bit {
        if divide {
            emit2(out, Mnemonic::MOV, Reg::EDX, 0u32);
        }
        emit1(out, if divide { Mnemonic::IDIV } else { Mnemonic::IMUL }, Reg::ECX);
        emit1(out, Mnemonic::PUSH, if remainder { Reg::RDX } else { Reg::RAX });
    }
    assert(out@ =~= old(out)@ + muldiv_code(divide, remainder, push_bit));
}

fn emit_int_binop(out: &mut ListingWriter, op: Mnemonic, count: Reg, push_bit: bool)
    ensures
        final(out)@ == old(out)@ + int_binop_code(op, count, push_bit),
{
    emit1(out, Mnemonic::POP, Reg::RCX);
    emit1(out, Mnemonic::POP, Reg::RAX);
    if push_bit {
        emit2(out, op, Reg::EAX, count);
        emit1(out, Mnemonic::PUSH, Reg::RAX);
    }
    assert(out@ =~= old(out)@ + int_binop_code(op, count, push_bit));
}

fn emit_int_compare(out: &mut ListingWriter, taken: Mnemonic, other: Mnemonic, push_bit: bool)
    ensures
        final(out)@ == old(out)@ + int_compare_code(taken, other, push_bit),
{
    emit1(out, Mnemonic::POP, Reg::RAX);
    emit1(out, Mnemonic::POP, Reg::RCX);
    if push_bit {
        emit2(out, Mnemonic::XOR, Reg::R8, Reg::R8);
        emit2(out, Mnemonic::MOV, Reg::EDX, 1u32);
        emit2(out, Mnemonic::CMP, Reg::ECX, Reg::EAX);
        emit2(out, taken, Reg::EAX, Reg::EDX);
        emit2(out, other, Reg::EAX, Reg::R8D);
        emit1(out, Mnemonic::PUSH, Reg::RAX);
    }
    assert(out@ =~= old(out)@ + int_compare_code(taken, other, push_bit));
}

fn emit_float_compare(out: &mut ListingWriter, taken: Mnemonic, other: Mnemonic, push_bit: bool)
    ensures
        final(out)@ == old(out)@ + float_compare_code(taken, other, push_bit),
{
    if push_bit {
        out.copy_to_fpu_rev(2);
        emit2(out, Mnemonic::XOR, Reg::R8, Reg::R8);
        emit2(out, Mnemonic::MOV, Reg::EDX, 1u32);
        out.fcompp();
        out.fstsw_ax();
        emit0(out, Mnemonic::FWAIT);
        out.sahf();
        emit2(out, taken, Reg::EAX, Reg::EDX);
        emit2(out, other, Reg::EAX, Reg::R8D);
        emit2(out, Mnemonic::ADD, Reg::RSP, 16u8);
        emit1(out, Mnemonic::PUSH, Reg::RAX);
    } else {
        emit2(out, Mnemonic::ADD, Reg::RSP, 16u8);
    }
    assert(out@ =~= old(out)@ + float_compare_code(taken, other, push_bit));
}

fn emit_float_binop(out: &mut ListingWriter, op: Mnemonic, push_bit: bool)
    ensures
        final(out)@ == old(out)@ + float_binop_code(op, push_bit),
{
    if push_bit {
        out.copy_to_fpu(2);
        emit2(out, op, Reg::ST, Reg::ST1);
        emit2(out, Mnemonic::ADD, Reg::RSP, 8u8);
        emit1(out, Mnemonic::FSTP, top());
        emit1(out, Mnemonic::FSTP, Reg::ST0);
    } else {
        emit2(out, Mnemonic::ADD, Reg::RSP, 0x10u8);
    }
    assert(out@ =~= old(out)@ + float_binop_code(op, push_bit));
}

fn emit_int_unary(out: &mut ListingWriter, op: Mnemonic, push_bit: bool)
    ensures
        final(out)@ == old(out)@ + int_unary_code(op, push_bit),
{
    if push_bit {
        emit1(out, op, top());
    } else {
        emit1(out, Mnemonic::POP, Reg::RAX);
    }
    assert(out@ =~= old(out)@ + int_unary_code(op, push_bit));
}

fn emit_float_negate(out: &mut ListingWriter, push_bit: bool)
    ensures
        final(out)@ == old(out)@ + float_negate_code(push_bit),
{
    if push_bit {
        out.copy_to_fpu(1);
        emit0(out, Mnemonic::FCHS);
        emit1(out, Mnemonic::FSTP, top());
    } else {
        emit2(out, Mnemonic::ADD, Reg::RSP, 8u8);
    }
    assert(out@ =~= old(out)@ + float_negate_code(push_bit));
}

fn emit_logical_not(out: &mut ListingWriter, push_bit: bool)
    ensures
        final(out)@ == old(out)@ + logical_not_code(push_bit),
{
    emit1(out, Mnemonic::POP, Reg::RAX);
    if push_bit {
        emit2(out, Mnemonic::XOR, Reg::R8, Reg::R8);
        emit2(out, Mnemonic::MOV, Reg::EDX, 1u32);
        emit2(out, Mnemonic::TEST, Reg::RAX, Reg::RAX);
        emit2(out, Mnemonic::CMOVE, Reg::RAX, Reg::RDX);
        emit2(out, Mnemonic::CMOVNZ, Reg::RAX, Reg::R8);
        emit1(out, Mnemonic::PUSH, Reg::RAX);
    }
    assert(out@ =~= old(out)@ + logical_not_code(push_bit));
}

fn emit_casts(out: &mut ListingWriter, to_float: bool)
    ensures
        final(out)@ == old(out)@ + (if to_float {
            int_to_float_code()
        } else {
            float_to_int_code()
        }),
{
    if to_float {
        emit1(out, Mnemonic::FILD, top());
        emit1(out, Mnemonic::FSTP, top());
        assert(out@ =~= old(out)@ + int_to_float_code());
    } else {
        emit1(out, Mnemonic::FSTCW, control());
        emit2(out, Mnemonic::OR, control(), 0xc00u16);
        emit1(out, Mnemonic::FLDCW, control());
        emit1(out, Mnemonic::FLD, top());
        emit1(out, Mnemonic::FISTP, top());
        assert(out@ =~= old(out)@ + float_to_int_code());
    }
}

fn emit_dup(out: &mut ListingWriter)
    ensures
        final(out)@ == old(out)@ + dup_code(),
{
    emit1(out, Mnemonic::POP, Reg::RAX);
    emit1(out, Mnemonic::PUSH, Reg::RAX);
    emit1(out, Mnemonic::PUSH, Reg::RAX);
    assert(out@ =~= old(out)@ + dup_code());
}

fn emit_discard(out: &mut ListingWriter)
    ensures
        final(out)@ == old(out)@ + discard_code(),
{
    emit2(out, Mnemonic::ADD, Reg::RSP, 8u8);
    assert(out@ =~= old(out)@ + discard_code());
}

fn emit_return_value(out: &mut ListingWriter, var_count: u16)
    ensures
        final(out)@ == old(out)@ + return_value_code(var_count),
{
    emit1(out, Mnemonic::POP, Reg::RAX);
    out.write_ret(var_count as u32);
    assert(out@ =~= old(out)@ + return_value_code(var_count));
}

fn emit_exit(out: &mut ListingWriter)
    ensures
        final(out)@ == old(out)@ + exit_code(),
{
    emit2(out, Mnemonic::MOV, Reg::EAX, 60u32);
    emit2(out, Mnemonic::XOR, Reg::EDI, Reg::EDI);
    emit0(out, Mnemonic::SYSCALL);
    assert(out@ =~= old(out)@ + exit_code());
}

fn lower_jump(cmd: &Command, kind: JumpKind, loc: u32, script_start: u32, head: Vec<Item>) -> (r: Result<
    Lowered,
    CompileError,
>)
    ensures
        match r {
            Ok(l) => jump_lowering(*cmd, kind, loc, script_start, head@) == Ok::<Lowering, CompileError>(l@),
            Err(e) => jump_lowering(*cmd, kind, loc, script_start, head@) == Err::<Lowering, CompileError>(e),
        },
{
    if loc >= script_start {
        let mut tail = ListingWriter::new();
        emit1(&mut tail, jump_opcode(kind), 0u32);
        assert(tail@ =~= seq![jump_item(kind, 0)]);
        Ok(Lowered { head, tail: tail.items, effect: Effect::Jump { kind, target: loc - script_start } })
    } else {
        Err(refuse_violating(cmd, Violation::JumpTarget))
    }
}

fn branch_head() -> (head: Vec<Item>)
    ensures
        head@ == branch_test(),
{
    let mut head = ListingWriter::new();
    emit1(&mut head, Mnemonic::POP, Reg::RAX);
    emit2(&mut head, Mnemonic::CMP, Reg::RAX, 0u8);
    assert(head@ =~= branch_test());
    head.items
}

fn finish(tail: Vec<Item>) -> (r: Result<Lowered, CompileError>)
    ensures
        r is Ok,
        plain(tail@) == Ok::<Lowering, CompileError>(r->Ok_0@),
{
    Ok(Lowered { head: Vec::new(), tail, effect: Effect::Plain })
}

/// Lowers one command that follows the first of its script.
#[verifier::rlimit(50)]
pub fn lower_command(
    cmd: &Command,
    callee: Option<u32>,
    var_count: u16,
    script_start: u32,
    env: &HostEnv,
) -> (r: Result<Lowered, CompileError>)
    ensures
        match r {
            Ok(l) => lowering(*cmd, callee, var_count, script_start, *env) == Ok::<Lowering, CompileError>(l@),
            Err(e) => lowering(*cmd, callee, var_count, script_start, *env) == Err::<Lowering, CompileError>(e),
        },
{
    proof {
        reveal(lowering);
    }
    let p = cmd.push_bit;
    let g = env.globals;
    let mut out = ListingWriter::new();
    match cmd.cmd {
        Cmd::Unk1 | Cmd::ErrorC | Cmd::Error37 | Cmd::Error4C => {
            return Err(refuse_unsupported(cmd));
        },
        Cmd::Begin { arg_count, var_count } => {
            return Err(refuse_violating(cmd, Violation::MisplacedBegin));
        },
        Cmd::Jump { loc } => {
            return lower_jump(cmd, JumpKind::Jmp, loc, script_start, out.items);
        },
        Cmd::Jump5 { loc } => {
            return lower_jump(cmd, JumpKind::Jmp, loc, script_start, out.items);
        },
        Cmd::Else { loc } => {
            return lower_jump(cmd, JumpKind::Jmp, loc, script_start, out.items);
        },
        Cmd::If { loc } => {
            return lower_jump(cmd, JumpKind::Je, loc, script_start, branch_head());
        },
        Cmd::IfNot { loc } => {
            return lower_jump(cmd, JumpKind::Jne, loc, script_start, branch_head());
        },
        Cmd::Sys { arg_count, sys_num } => {
            if (sys_num as usize) < env.syscalls.len() {
                emit_sys(&mut out, env.syscalls[sys_num as usize], arg_count, p);
            } else {
                return Err(refuse_unsupported(cmd));
            }
        },
        Cmd::Push => {
            if p {
                emit_dup(&mut out);
            }
        },
        Cmd::Pop => {
            if !p {
                emit_discard(&mut out);
            }
        },
        Cmd::CallFunc { arg_count } | Cmd::CallFunc2 { arg_count } | Cmd::CallFunc3 { arg_count } => {
            match callee {
                Some(c) => {
                    let mut tail = ListingWriter::new();
                    emit_call_setup(&mut out, arg_count);
                    emit_call_transfer(&mut tail, arg_count);
                    return Ok(Lowered { head: out.items, tail: tail.items, effect: Effect::Call { callee: c } });
                },
                None => {
                    return Err(refuse_violating(cmd, Violation::CallTarget));
                },
            }
        },
        Cmd::PushShort { val } => {
            if p {
                emit1(&mut out, Mnemonic::PUSH, val as u32);
            }
        },
        Cmd::PushInt { val } => {
            if p {
                emit1(&mut out, Mnemonic::PUSH, val);
            }
        },
        Cmd::IntToFloat { stack_pos } => {
            if stack_pos == 0 {
                emit_casts(&mut out, true);
            } else {
                return Err(refuse_violating(cmd, Violation::CastSlot));
            }
        },
        Cmd::FloatToInt { stack_pos } => {
            if stack_pos == 0 {
                emit_casts(&mut out, false);
            } else {
                return Err(refuse_violating(cmd, Violation::CastSlot));
            }
        },
        Cmd::PushVar { var_type, var_num } => emit_push_var(&mut out, var_type, var_num, g, p),
        Cmd::SetVar { var_type, var_num } | Cmd::VarSetF { var_type, var_num } => emit_set_var(
            &mut out,
            var_type,
            var_num,
            g,
        ),
        Cmd::IncI { var_type, var_num } => emit_step_int(&mut out, Mnemonic::INC, var_type, var_num, g),
        Cmd::DecI { var_type, var_num } => emit_step_int(&mut out, Mnemonic::DEC, var_type, var_num, g),
        Cmd::IncF { var_type, var_num } => emit_step_float(&mut out, 1, var_type, var_num, g),
        Cmd::DecF { var_type, var_num } => emit_step_float(&mut out, 0xffff_ffff, var_type, var_num, g),
        Cmd::AddVarByF { var_type, var_num } => emit_float_assign(&mut out, Mnemonic::FADD, var_type, var_num, g),
        Cmd::SubVarByF { var_type, var_num } => emit_float_assign(&mut out, Mnemonic::FSUB, var_type, var_num, g),
        Cmd::MultVarByF { var_type, var_num } => emit_float_assign(&mut out, Mnemonic::FMUL, var_type, var_num, g),
        Cmd::DivVarByF { var_type, var_num } => emit_float_assign(&mut out, Mnemonic::FDIV, var_type, var_num, g),
        Cmd::AddVarBy { var_type, var_num } => emit_int_assign(&mut out, Mnemonic::ADD, var_type, var_num, g),
        Cmd::SubVarBy { var_type, var_num } => emit_int_assign(&mut out, Mnemonic::SUB, var_type, var_num, g),
        Cmd::AndVarBy { var_type, var_num } => emit_int_assign(&mut out, Mnemonic::AND, var_type, var_num, g),
        Cmd::OrVarBy { var_type, var_num } => emit_int_assign(&mut out, Mnemonic::OR, var_type, var_num, g),
        Cmd::XorVarBy { var_type, var_num } => emit_int_assign(&mut out, Mnemonic::XOR, var_type, var_num, g),
        Cmd::MultVarBy { var_type, var_num } => emit_muldiv_assign(&mut out, false, false, var_type, var_num, g),
        Cmd::DivVarBy { var_type, var_num } => emit_muldiv_assign(&mut out, true, false, var_type, var_num, g),
        Cmd::ModVarBy { var_type, var_num } => emit_muldiv_assign(&mut out, true, true, var_type, var_num, g),
        Cmd::MultI => emit_muldiv(&mut out, false, false, p),
        Cmd::DivI => emit_muldiv(&mut out, true, false, p),
        Cmd::ModI => emit_muldiv(&mut out, true, true, p),
        Cmd::AddI => emit_int_binop(&mut out, Mnemonic::ADD, Reg::ECX, p),
        Cmd::SubI => emit_int_binop(&mut out, Mnemonic::SUB, Reg::ECX, p),
        Cmd::AndI => emit_int_binop(&mut out, Mnemonic::AND, Reg::ECX, p),
        Cmd::OrI => emit_int_binop(&mut out, Mnemonic::OR, Reg::ECX, p),
        Cmd::XorI => emit_int_binop(&mut out, Mnemonic::XOR, Reg::ECX, p),
        Cmd::ShiftL => emit_int_binop(&mut out, Mnemonic::SHL, Reg::CL, p),
        Cmd::ShiftR => emit_int_binop(&mut out, Mnemonic::SHR, Reg::CL, p),
        Cmd::Equals => emit_int_compare(&mut out, Mnemonic::CMOVE, Mnemonic::CMOVNE, p),
        Cmd::NotEquals => emit_int_compare(&mut out, Mnemonic::CMOVNE, Mnemonic::CMOVE, p),
        Cmd::LessThan => emit_int_compare(&mut out, Mnemonic::CMOVL, Mnemonic::CMOVGE, p),
        Cmd::LessOrEqual => emit_int_compare(&mut out, Mnemonic::CMOVLE, Mnemonic::CMOVG, p),
        Cmd::Greater => emit_int_compare(&mut out, Mnemonic::CMOVG, Mnemonic::CMOVLE, p),
        Cmd::GreaterOrEqual => emit_int_compare(&mut out, Mnemonic::CMOVGE, Mnemonic::CMOVL, p),
        Cmd::EqualsF => emit_float_compare(&mut out, Mnemonic::CMOVE, Mnemonic::CMOVNE, p),
        Cmd::NotEqualsF => emit_float_compare(&mut out, Mnemonic::CMOVNE, Mnemonic::CMOVE, p),
        Cmd::LessThanF => emit_float_compare(&mut out, Mnemonic::CMOVB, Mnemonic::CMOVAE, p),
        Cmd::LessOrEqualF => emit_float_compare(&mut out, Mnemonic::CMOVBE, Mnemonic::CMOVA, p),
        Cmd::GreaterF => emit_float_compare(&mut out, Mnemonic::CMOVA, Mnemonic::CMOVBE, p),
        Cmd::GreaterOrEqualF => emit_float_compare(&mut out, Mnemonic::CMOVAE, Mnemonic::CMOVB, p),
        Cmd::NegI => emit_int_unary(&mut out, Mnemonic::NEG, p),
        Cmd::NotI => emit_int_unary(&mut out, Mnemonic::NOT, p),
        Cmd::NegF => emit_float_negate(&mut out, p),
        Cmd::Not => emit_logical_not(&mut out, p),
        Cmd::AddF => emit_float_binop(&mut out, Mnemonic::FADD, p),
        Cmd::SubF => emit_float_binop(&mut out, Mnemonic::FSUB, p),
        Cmd::MultF => emit_float_binop(&mut out, Mnemonic::FMUL, p),
        Cmd::DivF => emit_float_binop(&mut out, Mnemonic::FDIV, p),
        Cmd::PrintF { arg_count } => {
            if arg_count > 0 {
                emit_printf(&mut out, env.string_table, env.printf, arg_count);
            }
        },
        Cmd::Try { loc } => {
            let effect = if p {
                Effect::Try { target: loc }
            } else {
                Effect::Plain
            };
            return Ok(Lowered { head: out.items, tail: Vec::new(), effect });
        },
        Cmd::Return6 | Cmd::Return8 => emit_return_value(&mut out, var_count),
        Cmd::Return7 | Cmd::Return9 | Cmd::End => out.write_ret(var_count as u32),
        Cmd::Exit => emit_exit(&mut out),
        Cmd::Nop => {},
    }
    assert(Seq::<Item>::empty() + out@ =~= out@);
    finish(out.items)
}

} // verus!
