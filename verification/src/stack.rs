//! The virtual operand stack and the native stack pointer.
//!
//! Every value on the virtual stack takes one 8-byte slot of the native
//! stack, which grows downwards. This module states what each command does
//! to the virtual stack, what each instruction does to `RSP`, and proves
//! that the two agree for the code that a command is lowered to.

use vstd::prelude::*;
use msc::{Cmd, Command};
use x86asm::{Mnemonic, Operand, Reg};
use crate::asm_helper::{
    fpu_transfer, fpu_transfer_rev, global_load, global_load_float, global_store, global_store_float,
};
use crate::listing::Item;
use crate::lower::{
    aligned_call, arg_pops, call_setup, call_transfer, command_code, float_assign_code, float_binop_code,
    float_compare_code, float_negate_code, float_to_int_code, int_assign_code, int_binop_code, int_compare_code,
    int_to_float_code, int_unary_code, logical_not_code, lowering, muldiv_assign_code, muldiv_code, overflow_moves,
    printf_code, push_var_code, reg_args, set_var_code, stack_adjust, stack_args, step_float_code, step_int_code,
    sys_code, HostEnv,
};

verus! {

/// The number of slots that a command takes off the virtual stack. The
/// callee offset that precedes a call is folded into the call and never
/// reaches the stack, so a call takes its arguments only.
pub open spec fn pops(cmd: Command) -> int {
    match cmd.cmd {
        Cmd::SetVar { var_type, var_num } | Cmd::VarSetF { var_type, var_num } => 1,
        Cmd::AddVarBy { var_type, var_num } | Cmd::SubVarBy { var_type, var_num } | Cmd::MultVarBy {
            var_type,
            var_num,
        } | Cmd::DivVarBy { var_type, var_num } | Cmd::ModVarBy { var_type, var_num } | Cmd::AndVarBy {
            var_type,
            var_num,
        } | Cmd::OrVarBy { var_type, var_num } | Cmd::XorVarBy { var_type, var_num } => 1,
        Cmd::AddVarByF { var_type, var_num } | Cmd::SubVarByF { var_type, var_num } | Cmd::MultVarByF {
            var_type,
            var_num,
        } | Cmd::DivVarByF { var_type, var_num } => 1,
        Cmd::AddI | Cmd::SubI | Cmd::MultI | Cmd::DivI | Cmd::ModI => 2,
        Cmd::AndI | Cmd::OrI | Cmd::XorI | Cmd::ShiftL | Cmd::ShiftR => 2,
        Cmd::Equals | Cmd::NotEquals | Cmd::LessThan | Cmd::LessOrEqual | Cmd::Greater | Cmd::GreaterOrEqual => 2,
        Cmd::AddF | Cmd::SubF | Cmd::MultF | Cmd::DivF => 2,
        Cmd::EqualsF | Cmd::NotEqualsF | Cmd::LessThanF | Cmd::LessOrEqualF | Cmd::GreaterF
        | Cmd::GreaterOrEqualF => 2,
        Cmd::NegI | Cmd::NotI | Cmd::NegF | Cmd::Not => 1,
        Cmd::If { loc } | Cmd::IfNot { loc } => 1,
        Cmd::Return6 | Cmd::Return8 => 1,
        Cmd::CallFunc { arg_count } | Cmd::CallFunc2 { arg_count } | Cmd::CallFunc3 { arg_count } => arg_count as int,
        Cmd::Sys { arg_count, sys_num } => arg_count as int,
        Cmd::PrintF { arg_count } => arg_count as int,
        Cmd::Pop => if cmd.push_bit {
            0
        } else {
            1
        },
        _ => 0,
    }
}

/// Whether the command has a result that its push-bit keeps or drops.
pub open spec fn has_result(c: Cmd) -> bool {
    match c {
        Cmd::PushInt { val } => true,
        Cmd::PushShort { val } => true,
        Cmd::PushVar { var_type, var_num } => true,
        Cmd::AddI | Cmd::SubI | Cmd::MultI | Cmd::DivI | Cmd::ModI => true,
        Cmd::AndI | Cmd::OrI | Cmd::XorI | Cmd::ShiftL | Cmd::ShiftR => true,
        Cmd::Equals | Cmd::NotEquals | Cmd::LessThan | Cmd::LessOrEqual | Cmd::Greater | Cmd::GreaterOrEqual => true,
        Cmd::AddF | Cmd::SubF | Cmd::MultF | Cmd::DivF => true,
        Cmd::EqualsF | Cmd::NotEqualsF | Cmd::LessThanF | Cmd::LessOrEqualF | Cmd::GreaterF
        | Cmd::GreaterOrEqualF => true,
        Cmd::NegI | Cmd::NotI | Cmd::NegF | Cmd::Not => true,
        Cmd::Sys { arg_count, sys_num } => true,
        Cmd::Push => true,
        _ => false,
    }
}

/// The number of slots that a command puts on the virtual stack.
pub open spec fn pushes(cmd: Command) -> int {
    if has_result(cmd.cmd) && cmd.push_bit {
        1
    } else {
        0
    }
}

/// The change in the depth of the virtual stack, in slots.
pub open spec fn stack_delta(cmd: Command) -> int {
    pushes(cmd) - pops(cmd)
}

/// The commands whose code follows the virtual stack: all but the returns,
/// which tear the whole frame down.
pub open spec fn follows_stack(cmd: Command) -> bool {
    match cmd.cmd {
        Cmd::Return6 | Cmd::Return7 | Cmd::Return8 | Cmd::Return9 | Cmd::End => false,
        _ => true,
    }
}

pub open spec fn sign_extend_8(v: u8) -> int {
    if v < 0x80 {
        v as int
    } else {
        v - 0x100
    }
}

pub open spec fn sign_extend_32(v: u32) -> int {
    if v < 0x8000_0000 {
        v as int
    } else {
        v - 0x1_0000_0000
    }
}

/// What is added to `RSP` by an `add rsp, src`; `pad` is the value that
/// `R15` holds across an aligned call.
pub open spec fn added_amount(src: Operand, pad: int) -> int {
    match src {
        Operand::Literal8(v) => sign_extend_8(v),
        Operand::Literal32(v) => sign_extend_32(v),
        Operand::Direct(r) => if r == Reg::R15 {
            pad
        } else {
            0
        },
        _ => 0,
    }
}

/// The change of `RSP` that one listing entry brings about. A call counts
/// for nothing: the callee returns with the stack as it found it.
pub open spec fn rsp_effect(item: Item, pad: int) -> int {
    match item {
        Item::Op1(m, _) => if m == Mnemonic::PUSH {
            -8
        } else if m == Mnemonic::POP {
            8
        } else {
            0
        },
        Item::Op2(m, dst, src) => if dst == Operand::Direct(Reg::RSP) && m == Mnemonic::ADD {
            added_amount(src, pad)
        } else if dst == Operand::Direct(Reg::RSP) && m == Mnemonic::SUB {
            -added_amount(src, pad)
        } else {
            0
        },
        _ => 0,
    }
}

pub open spec fn net_rsp_upto(items: Seq<Item>, n: nat, pad: int) -> int
    decreases n,
{
    if n == 0 {
        0
    } else {
        net_rsp_upto(items, (n - 1) as nat, pad) + rsp_effect(items[n - 1], pad)
    }
}

/// The change of `RSP` over a whole listing.
pub open spec fn net_rsp(items: Seq<Item>, pad: int) -> int {
    net_rsp_upto(items, items.len(), pad)
}

proof fn lemma_net_upto_agrees(a: Seq<Item>, b: Seq<Item>, n: nat, pad: int)
    requires
        n <= a.len(),
        n <= b.len(),
        forall|i: int| 0 <= i < n ==> a[i] == b[i],
    ensures
        net_rsp_upto(a, n, pad) == net_rsp_upto(b, n, pad),
    decreases n,
{
    if n > 0 {
        lemma_net_upto_agrees(a, b, (n - 1) as nat, pad);
    }
}

/// The change over two listings joined is the sum of the changes.
pub proof fn lemma_net_concat(a: Seq<Item>, b: Seq<Item>, pad: int)
    ensures
        net_rsp(a + b, pad) == net_rsp(a, pad) + net_rsp(b, pad),
{
    lemma_net_concat_upto(a, b, b.len(), pad);
}

proof fn lemma_net_concat_upto(a: Seq<Item>, b: Seq<Item>, n: nat, pad: int)
    requires
        n <= b.len(),
    ensures
        net_rsp_upto(a + b, a.len() + n, pad) == net_rsp(a, pad) + net_rsp_upto(b, n, pad),
    decreases n,
{
    if n == 0 {
        lemma_net_upto_agrees(a + b, a, a.len(), pad);
    } else {
        lemma_net_concat_upto(a, b, (n - 1) as nat, pad);
        assert((a + b)[a.len() + n - 1] == b[n - 1]);
    }
}

/// A listing of entries that each move `RSP` by `each` moves it by as much
/// per entry.
pub proof fn lemma_net_uniform(items: Seq<Item>, n: nat, each: int, pad: int)
    requires
        n <= items.len(),
        forall|i: int| 0 <= i < n ==> rsp_effect(#[trigger] items[i], pad) == each,
    ensures
        net_rsp_upto(items, n, pad) == each * n,
    decreases n,
{
    if n > 0 {
        lemma_net_uniform(items, (n - 1) as nat, each, pad);
        let before: int = n - 1;
        let count: int = n as int;
        assert(each * count == each * before + each) by (nonlinear_arith)
            requires
                count == before + 1,
        ;
    } else {
        let count: int = n as int;
        assert(each * count == 0) by (nonlinear_arith)
            requires
                count == 0,
        ;
    }
}

proof fn lemma_net_aligned_call(target: Reg, pad: int)
    ensures
        net_rsp(aligned_call(target), pad) == 0,
{
    reveal_with_fuel(net_rsp_upto, 8);
}

proof fn lemma_net_transfers(count: usize, pad: int)
    ensures
        net_rsp(fpu_transfer(count), pad) == 0,
        net_rsp(fpu_transfer_rev(count), pad) == 0,
{
    lemma_net_uniform(fpu_transfer(count), count as nat, 0, pad);
    lemma_net_uniform(fpu_transfer_rev(count), count as nat, 0, pad);
}

proof fn lemma_net_globals(globals: u64, r: Reg, n: u16, pad: int)
    ensures
        net_rsp(global_load(globals, r, n), pad) == 0,
        net_rsp(global_store(globals, r, n), pad) == 0,
        net_rsp(global_load_float(globals, n), pad) == 0,
        net_rsp(global_store_float(globals, n), pad) == 0,
{
    reveal_with_fuel(net_rsp_upto, 3);
}

proof fn lemma_net_adjust(bytes: u32, pad: int)
    requires
        bytes < 0x8000_0000,
    ensures
        added_amount(stack_adjust(bytes), pad) == bytes,
{
}

proof fn lemma_net_sys(handler: u64, arg_count: u8, push_bit: bool, pad: int)
    ensures
        net_rsp(sys_code(handler, arg_count, push_bit), pad) == 8 * arg_count - (if push_bit {
            8int
        } else {
            0int
        }),
{
    let a = seq![
        Item::Op2(Mnemonic::MOV, Operand::Direct(Reg::RDI), Operand::Direct(Reg::RSP)),
        Item::Op2(Mnemonic::MOV, Operand::Direct(Reg::RSI), Operand::Literal32(arg_count as u32)),
        Item::Op2(Mnemonic::MOV, Operand::Direct(Reg::RCX), Operand::Literal64(handler)),
    ];
    let b = aligned_call(Reg::RCX);
    let c = seq![
        Item::Op2(Mnemonic::ADD, Operand::Direct(Reg::RSP), stack_adjust((8 * arg_count) as u32)),
    ];
    let d = if push_bit {
        seq![Item::Op1(Mnemonic::PUSH, Operand::Direct(Reg::RAX))]
    } else {
        Seq::<Item>::empty()
    };
    lemma_net_aligned_call(Reg::RCX, pad);
    lemma_net_adjust((8 * arg_count) as u32, pad);
    lemma_net_concat(a, b, pad);
    lemma_net_concat(a + b, c, pad);
    lemma_net_concat(a + b + c, d, pad);
    reveal_with_fuel(net_rsp_upto, 4);
}

proof fn lemma_net_printf(string_table: u64, printf: u64, arg_count: u8, pad: int)
    requires
        arg_count > 0,
    ensures
        net_rsp(printf_code(string_table, printf, arg_count), pad) == 8 * arg_count,
{
    let all = printf_code(string_table, printf, arg_count);
    let b = aligned_call(Reg::RCX);
    let c = seq![
        Item::Op2(Mnemonic::ADD, Operand::Direct(Reg::RSP), stack_adjust((8 * arg_count) as u32)),
    ];
    let a = all.subrange(0, 6);
    assert(all =~= a + b + c);
    lemma_net_aligned_call(Reg::RCX, pad);
    lemma_net_adjust((8 * arg_count) as u32, pad);
    lemma_net_concat(a, b, pad);
    lemma_net_concat(a + b, c, pad);
    reveal_with_fuel(net_rsp_upto, 7);
}

/// A call moves `RSP` up by one slot for each argument.
pub proof fn lemma_net_call(arg_count: u8, pad: int)
    ensures
        net_rsp(call_setup(arg_count) + call_transfer(arg_count), pad) == 8 * arg_count,
{
    let over = stack_args(arg_count);
    let amount = stack_adjust((8 * over) as u32);
    lemma_net_adjust((8 * over) as u32, pad);
    lemma_net_concat(call_setup(arg_count), call_transfer(arg_count), pad);
    let slot = seq![
        Item::Raw(crate::listing::RawCode::MovRaxSlot),
        Item::Op1(Mnemonic::CALL, Operand::Direct(Reg::RAX)),
    ];
    if over > 0 {
        let up = seq![Item::Op2(Mnemonic::ADD, Operand::Direct(Reg::RSP), amount)];
        let down = seq![Item::Op2(Mnemonic::SUB, Operand::Direct(Reg::RSP), amount)];
        lemma_net_uniform(arg_pops(6), 6, 8, pad);
        let moves = overflow_moves(over);
        assert forall|i: int| 0 <= i < moves.len() implies rsp_effect(#[trigger] moves[i], pad) == 0 by {
            let first = 2 * crate::lower::outer_moves(over);
            if i < first {
                assert(moves[i] == crate::lower::overflow_move(over, i));
            } else {
                assert(moves[i] == crate::lower::overflow_swap(over, i - first));
            }
        }
        lemma_net_uniform(moves, moves.len(), 0, pad);
        lemma_net_concat(up, arg_pops(6), pad);
        lemma_net_concat(up + arg_pops(6), down, pad);
        lemma_net_concat(up + arg_pops(6) + down, overflow_moves(over), pad);
        lemma_net_concat(slot, up, pad);
        reveal_with_fuel(net_rsp_upto, 3);
    } else {
        lemma_net_uniform(arg_pops(reg_args(arg_count)), reg_args(arg_count) as nat, 8, pad);
        lemma_net_concat(slot, Seq::<Item>::empty(), pad);
        reveal_with_fuel(net_rsp_upto, 3);
    }
}

proof fn lemma_net_variables(var_type: u8, var_num: u16, globals: u64, pad: int)
    ensures
        net_rsp(push_var_code(var_type, var_num, globals, true), pad) == -8,
        net_rsp(push_var_code(var_type, var_num, globals, false), pad) == 0,
        net_rsp(set_var_code(var_type, var_num, globals), pad) == 8,
{
    lemma_net_globals(globals, Reg::EAX, var_num, pad);
    lemma_net_globals(globals, Reg::ECX, var_num, pad);
    let push = seq![Item::Op1(Mnemonic::PUSH, Operand::Direct(Reg::RAX))];
    let pop = seq![Item::Op1(Mnemonic::POP, Operand::Direct(Reg::RCX))];
    lemma_net_concat(global_load(globals, Reg::EAX, var_num), push, pad);
    lemma_net_concat(
        seq![Item::Op2(Mnemonic::MOV, Operand::Direct(Reg::EAX), crate::lower::local_slot(var_num))],
        push,
        pad,
    );
    lemma_net_concat(pop, global_store(globals, Reg::ECX, var_num), pad);
    reveal_with_fuel(net_rsp_upto, 3);
}

proof fn lemma_net_step_int(op: Mnemonic, var_type: u8, var_num: u16, globals: u64, pad: int)
    requires
        op != Mnemonic::PUSH,
        op != Mnemonic::POP,
    ensures
        net_rsp(step_int_code(op, var_type, var_num, globals), pad) == 0,
{
    lemma_net_globals(globals, Reg::ECX, var_num, pad);
    let mid = seq![Item::Op1(op, Operand::Direct(Reg::ECX))];
    lemma_net_concat(global_load(globals, Reg::ECX, var_num), mid, pad);
    lemma_net_concat(global_load(globals, Reg::ECX, var_num) + mid, global_store(globals, Reg::ECX, var_num), pad);
    reveal_with_fuel(net_rsp_upto, 2);
}

proof fn lemma_net_step_float(delta: u32, var_type: u8, var_num: u16, globals: u64, pad: int)
    ensures
        net_rsp(step_float_code(delta, var_type, var_num, globals), pad) == 0,
{
    lemma_net_globals(globals, Reg::ECX, var_num, pad);
    let first = seq![Item::Op2(Mnemonic::MOV, crate::lower::scratch_slot(), Operand::Literal32(delta))];
    let add = seq![Item::Op1(Mnemonic::FIADD, crate::lower::scratch_slot())];
    let local = seq![
        Item::Op1(Mnemonic::FLD, crate::lower::local_slot(var_num)),
        Item::Op1(Mnemonic::FIADD, crate::lower::scratch_slot()),
        Item::Op1(Mnemonic::FSTP, crate::lower::local_slot(var_num)),
    ];
    lemma_net_concat(global_load_float(globals, var_num), add, pad);
    lemma_net_concat(global_load_float(globals, var_num) + add, global_store_float(globals, var_num), pad);
    lemma_net_concat(first, local, pad);
    lemma_net_concat(
        first,
        global_load_float(globals, var_num) + add + global_store_float(globals, var_num),
        pad,
    );
    reveal_with_fuel(net_rsp_upto, 4);
}

proof fn lemma_net_float_assign(op: Mnemonic, var_type: u8, var_num: u16, globals: u64, pad: int)
    requires
        op != Mnemonic::PUSH,
        op != Mnemonic::POP,
    ensures
        net_rsp(float_assign_code(op, var_type, var_num, globals), pad) == 8,
{
    lemma_net_globals(globals, Reg::EAX, var_num, pad);
    let drop = seq![Item::Op2(Mnemonic::ADD, Operand::Direct(Reg::RSP), Operand::Literal8(8))];
    let fadd = seq![Item::Op1(op, crate::lower::stack_top())];
    let local = seq![
        Item::Op1(Mnemonic::FLD, crate::lower::local_slot(var_num)),
        Item::Op1(op, crate::lower::stack_top()),
        Item::Op1(Mnemonic::FSTP, crate::lower::local_slot(var_num)),
    ];
    lemma_net_concat(local, drop, pad);
    lemma_net_concat(global_load_float(globals, var_num), fadd, pad);
    lemma_net_concat(global_load_float(globals, var_num) + fadd, global_store_float(globals, var_num), pad);
    lemma_net_concat(
        global_load_float(globals, var_num) + fadd + global_store_float(globals, var_num),
        drop,
        pad,
    );
    reveal_with_fuel(net_rsp_upto, 4);
}

proof fn lemma_net_int_assign(op: Mnemonic, var_type: u8, var_num: u16, globals: u64, pad: int)
    ensures
        net_rsp(int_assign_code(op, var_type, var_num, globals), pad) == 8,
{
    lemma_net_globals(globals, Reg::EAX, var_num, pad);
    let pop = seq![Item::Op1(Mnemonic::POP, Operand::Direct(Reg::RCX))];
    let load = global_load(globals, Reg::EAX, var_num);
    let store = global_store(globals, Reg::EAX, var_num);
    let local = seq![
        Item::Op2(Mnemonic::MOV, Operand::Direct(Reg::EAX), crate::lower::local_slot(var_num)),
        Item::Op2(op, Operand::Direct(Reg::EAX), Operand::Direct(Reg::ECX)),
        Item::Op2(Mnemonic::MOV, crate::lower::local_slot(var_num), Operand::Direct(Reg::EAX)),
    ];
    let middle = seq![Item::Op2(op, Operand::Direct(Reg::EAX), Operand::Direct(Reg::ECX))];
    lemma_net_concat(pop, local, pad);
    lemma_net_concat(load, middle, pad);
    lemma_net_concat(load + middle, store, pad);
    lemma_net_concat(pop, load + middle + store, pad);
    reveal_with_fuel(net_rsp_upto, 4);
}

proof fn lemma_net_muldiv_assign(divide: bool, remainder: bool, var_type: u8, var_num: u16, globals: u64, pad: int)
    ensures
        net_rsp(muldiv_assign_code(divide, remainder, var_type, var_num, globals), pad) == 8,
{
    lemma_net_globals(globals, Reg::EAX, var_num, pad);
    let pop = seq![Item::Op1(Mnemonic::POP, Operand::Direct(Reg::RCX))];
    let load = global_load(globals, Reg::EAX, var_num);
    let store = global_store(globals, Reg::EAX, var_num);
    let m = if divide {
        Mnemonic::IDIV
    } else {
        Mnemonic::IMUL
    };
    let fetch_local = seq![Item::Op2(Mnemonic::MOV, Operand::Direct(Reg::EAX), crate::lower::local_slot(var_num))];
    let finish_local = seq![
        Item::Op1(m, Operand::Direct(Reg::ECX)),
        Item::Op2(
            Mnemonic::MOV,
            crate::lower::local_slot(var_num),
            Operand::Direct(if remainder { Reg::EDX } else { Reg::EAX }),
        ),
    ];
    let clear = if divide {
        seq![Item::Op2(Mnemonic::MOV, Operand::Direct(Reg::EDX), Operand::Literal32(0))]
    } else {
        Seq::<Item>::empty()
    };
    let middle = seq![Item::Op1(m, Operand::Direct(Reg::ECX))];
    let fetch = if remainder {
        seq![Item::Op2(Mnemonic::MOV, Operand::Direct(Reg::EAX), Operand::Direct(Reg::EDX))]
    } else {
        Seq::<Item>::empty()
    };
    lemma_net_concat(fetch_local, clear, pad);
    lemma_net_concat(fetch_local + clear, finish_local, pad);
    lemma_net_concat(pop, fetch_local + clear + finish_local, pad);
    lemma_net_concat(load, clear, pad);
    lemma_net_concat(load + clear, middle, pad);
    lemma_net_concat(load + clear + middle, fetch, pad);
    lemma_net_concat(load + clear + middle + fetch, store, pad);
    lemma_net_concat(pop, load + clear + middle + fetch + store, pad);
    reveal_with_fuel(net_rsp_upto, 4);
}

proof fn lemma_net_int_binop(op: Mnemonic, count: Reg, push_bit: bool, pad: int)
    ensures
        net_rsp(int_binop_code(op, count, push_bit), pad) == (if push_bit {
            8int
        } else {
            16int
        }),
{
    reveal_with_fuel(net_rsp_upto, 5);
}

proof fn lemma_net_muldiv(divide: bool, remainder: bool, push_bit: bool, pad: int)
    ensures
        net_rsp(muldiv_code(divide, remainder, push_bit), pad) == (if push_bit {
            8int
        } else {
            16int
        }),
{
    let pops = seq![
        Item::Op1(Mnemonic::POP, Operand::Direct(Reg::RCX)),
        Item::Op1(Mnemonic::POP, Operand::Direct(Reg::RAX)),
    ];
    let code = muldiv_code(divide, remainder, push_bit);
    let rest = code.subrange(2, code.len() as int);
    assert(code =~= pops + rest);
    lemma_net_concat(pops, rest, pad);
    reveal_with_fuel(net_rsp_upto, 4);
}

proof fn lemma_net_int_compare(taken: Mnemonic, other: Mnemonic, push_bit: bool, pad: int)
    ensures
        net_rsp(int_compare_code(taken, other, push_bit), pad) == (if push_bit {
            8int
        } else {
            16int
        }),
{
    reveal_with_fuel(net_rsp_upto, 9);
}

proof fn lemma_net_float_binop(op: Mnemonic, push_bit: bool, pad: int)
    ensures
        net_rsp(float_binop_code(op, push_bit), pad) == (if push_bit {
            8int
        } else {
            16int
        }),
{
    lemma_net_transfers(2, pad);
    let code = float_binop_code(op, push_bit);
    if push_bit {
        let rest = code.subrange(2, code.len() as int);
        assert(code =~= fpu_transfer(2) + rest);
        lemma_net_concat(fpu_transfer(2), rest, pad);
    }
    reveal_with_fuel(net_rsp_upto, 5);
}

proof fn lemma_net_float_compare(taken: Mnemonic, other: Mnemonic, pad: int)
    ensures
        net_rsp(float_compare_code(taken, other, true), pad) == 8,
        net_rsp(float_compare_code(taken, other, false), pad) == 16,
{
    lemma_net_transfers(2, pad);
    let code = float_compare_code(taken, other, true);
    let rest = code.subrange(2, code.len() as int);
    assert(code =~= fpu_transfer_rev(2) + rest);
    lemma_net_concat(fpu_transfer_rev(2), rest, pad);
    reveal_with_fuel(net_rsp_upto, 11);
}

proof fn lemma_net_unary(op: Mnemonic, push_bit: bool, pad: int)
    requires
        op != Mnemonic::PUSH,
        op != Mnemonic::POP,
    ensures
        net_rsp(int_unary_code(op, push_bit), pad) == (if push_bit {
            0int
        } else {
            8int
        }),
{
    reveal_with_fuel(net_rsp_upto, 2);
}

proof fn lemma_net_in_place(push_bit: bool, pad: int)
    ensures
        net_rsp(float_negate_code(true), pad) == 0,
        net_rsp(float_negate_code(false), pad) == 8,
        net_rsp(logical_not_code(true), pad) == 0,
        net_rsp(logical_not_code(false), pad) == 8,
        net_rsp(int_to_float_code(), pad) == 0,
        net_rsp(float_to_int_code(), pad) == 0,
{
    reveal_with_fuel(net_rsp_upto, 7);
    lemma_net_transfers(1, pad);
    let rest = seq![Item::Op0(Mnemonic::FCHS), Item::Op1(Mnemonic::FSTP, crate::lower::stack_top())];
    lemma_net_concat(fpu_transfer(1), rest, pad);
    let pop = seq![Item::Op1(Mnemonic::POP, Operand::Direct(Reg::RAX))];
    let kept = logical_not_code(true);
    lemma_net_concat(pop, kept.subrange(1, kept.len() as int), pad);
    assert(kept =~= pop + kept.subrange(1, kept.len() as int));
    let dropped = logical_not_code(false);
    assert(dropped =~= pop);
}

/// The code of a command moves `RSP` by eight bytes down for every slot
/// that the command adds to the virtual stack, and up for every slot that
/// it takes off, whatever padding an aligned call needs.
#[verifier::rlimit(50)]
pub proof fn lemma_stack_discipline(
    cmd: Command,
    callee: Option<u32>,
    var_count: u16,
    script_start: u32,
    env: HostEnv,
    pad: int,
)
    requires
        follows_stack(cmd),
        lowering(cmd, callee, var_count, script_start, env) is Ok,
    ensures
        net_rsp(command_code(lowering(cmd, callee, var_count, script_start, env)->Ok_0), pad) == -8 * stack_delta(
            cmd,
        ),
{
    reveal(lowering);
    let l = lowering(cmd, callee, var_count, script_start, env)->Ok_0;
    let p = cmd.push_bit;
    let g = env.globals;
    let none = Seq::<Item>::empty();
    assert(none + l.tail =~= l.tail);
    assert(net_rsp(none, pad) == 0);
    match cmd.cmd {
        Cmd::Jump { loc } | Cmd::Jump5 { loc } | Cmd::Else { loc } => {
            reveal_with_fuel(net_rsp_upto, 2);
        },
        Cmd::If { loc } | Cmd::IfNot { loc } => {
            lemma_net_concat(l.head, l.tail, pad);
            reveal_with_fuel(net_rsp_upto, 3);
        },
        Cmd::Sys { arg_count, sys_num } => {
            lemma_net_sys(env.syscalls@[sys_num as int], arg_count, p, pad);
        },
        Cmd::Push | Cmd::Pop | Cmd::PushShort { .. } | Cmd::PushInt { .. } | Cmd::Exit | Cmd::Nop | Cmd::Try {
            ..
        } => {
            reveal_with_fuel(net_rsp_upto, 4);
        },
        Cmd::CallFunc { arg_count } | Cmd::CallFunc2 { arg_count } | Cmd::CallFunc3 { arg_count } => {
            lemma_net_call(arg_count, pad);
        },
        Cmd::IntToFloat { .. } | Cmd::FloatToInt { .. } | Cmd::NegF | Cmd::Not => {
            lemma_net_in_place(p, pad);
        },
        Cmd::NegI => {
            lemma_net_unary(Mnemonic::NEG, p, pad);
        },
        Cmd::NotI => {
            lemma_net_unary(Mnemonic::NOT, p, pad);
        },
        Cmd::PushVar { var_type, var_num } | Cmd::SetVar { var_type, var_num } | Cmd::VarSetF {
            var_type,
            var_num,
        } => {
            lemma_net_variables(var_type, var_num, g, pad);
        },
        Cmd::IncI { var_type, var_num } => {
            lemma_net_step_int(Mnemonic::INC, var_type, var_num, g, pad);
        },
        Cmd::DecI { var_type, var_num } => {
            lemma_net_step_int(Mnemonic::DEC, var_type, var_num, g, pad);
        },
        Cmd::IncF { var_type, var_num } => {
            lemma_net_step_float(1, var_type, var_num, g, pad);
        },
        Cmd::DecF { var_type, var_num } => {
            lemma_net_step_float(0xffff_ffff, var_type, var_num, g, pad);
        },
        Cmd::AddVarByF { var_type, var_num } => {
            lemma_net_float_assign(Mnemonic::FADD, var_type, var_num, g, pad);
        },
        Cmd::SubVarByF { var_type, var_num } => {
            lemma_net_float_assign(Mnemonic::FSUB, var_type, var_num, g, pad);
        },
        Cmd::MultVarByF { var_type, var_num } => {
            lemma_net_float_assign(Mnemonic::FMUL, var_type, var_num, g, pad);
        },
        Cmd::DivVarByF { var_type, var_num } => {
            lemma_net_float_assign(Mnemonic::FDIV, var_type, var_num, g, pad);
        },
        Cmd::AddVarBy { var_type, var_num } => {
            lemma_net_int_assign(Mnemonic::ADD, var_type, var_num, g, pad);
        },
        Cmd::SubVarBy { var_type, var_num } => {
            lemma_net_int_assign(Mnemonic::SUB, var_type, var_num, g, pad);
        },
        Cmd::AndVarBy { var_type, var_num } => {
            lemma_net_int_assign(Mnemonic::AND, var_type, var_num, g, pad);
        },
        Cmd::OrVarBy { var_type, var_num } => {
            lemma_net_int_assign(Mnemonic::OR, var_type, var_num, g, pad);
        },
        Cmd::XorVarBy { var_type, var_num } => {
            lemma_net_int_assign(Mnemonic::XOR, var_type, var_num, g, pad);
        },
        Cmd::MultVarBy { var_type, var_num } => {
            lemma_net_muldiv_assign(false, false, var_type, var_num, g, pad);
        },
        Cmd::DivVarBy { var_type, var_num } => {
            lemma_net_muldiv_assign(true, false, var_type, var_num, g, pad);
        },
        Cmd::ModVarBy { var_type, var_num } => {
            lemma_net_muldiv_assign(true, true, var_type, var_num, g, pad);
        },
        Cmd::MultI => {
            lemma_net_muldiv(false, false, p, pad);
        },
        Cmd::DivI => {
            lemma_net_muldiv(true, false, p, pad);
        },
        Cmd::ModI => {
            lemma_net_muldiv(true, true, p, pad);
        },
        Cmd::AddI => {
            lemma_net_int_binop(Mnemonic::ADD, Reg::ECX, p, pad);
        },
        Cmd::SubI => {
            lemma_net_int_binop(Mnemonic::SUB, Reg::ECX, p, pad);
        },
        Cmd::AndI => {
            lemma_net_int_binop(Mnemonic::AND, Reg::ECX, p, pad);
        },
        Cmd::OrI => {
            lemma_net_int_binop(Mnemonic::OR, Reg::ECX, p, pad);
        },
        Cmd::XorI => {
            lemma_net_int_binop(Mnemonic::XOR, Reg::ECX, p, pad);
        },
        Cmd::ShiftL => {
            lemma_net_int_binop(Mnemonic::SHL, Reg::CL, p, pad);
        },
        Cmd::ShiftR => {
            lemma_net_int_binop(Mnemonic::SHR, Reg::CL, p, pad);
        },
        Cmd::Equals => {
            lemma_net_int_compare(Mnemonic::CMOVE, Mnemonic::CMOVNE, p, pad);
        },
        Cmd::NotEquals => {
            lemma_net_int_compare(Mnemonic::CMOVNE, Mnemonic::CMOVE, p, pad);
        },
        Cmd::LessThan => {
            lemma_net_int_compare(Mnemonic::CMOVL, Mnemonic::CMOVGE, p, pad);
        },
        Cmd::LessOrEqual => {
            lemma_net_int_compare(Mnemonic::CMOVLE, Mnemonic::CMOVG, p, pad);
        },
        Cmd::Greater => {
            lemma_net_int_compare(Mnemonic::CMOVG, Mnemonic::CMOVLE, p, pad);
        },
        Cmd::GreaterOrEqual => {
            lemma_net_int_compare(Mnemonic::CMOVGE, Mnemonic::CMOVL, p, pad);
        },
        Cmd::EqualsF => {
            lemma_net_float_compare(Mnemonic::CMOVE, Mnemonic::CMOVNE, pad);
        },
        Cmd::NotEqualsF => {
            lemma_net_float_compare(Mnemonic::CMOVNE, Mnemonic::CMOVE, pad);
        },
        Cmd::LessThanF => {
            lemma_net_float_compare(Mnemonic::CMOVB, Mnemonic::CMOVAE, pad);
        },
        Cmd::LessOrEqualF => {
            lemma_net_float_compare(Mnemonic::CMOVBE, Mnemonic::CMOVA, pad);
        },
        Cmd::GreaterF => {
            lemma_net_float_compare(Mnemonic::CMOVA, Mnemonic::CMOVBE, pad);
        },
        Cmd::GreaterOrEqualF => {
            lemma_net_float_compare(Mnemonic::CMOVAE, Mnemonic::CMOVB, pad);
        },
        Cmd::AddF => {
            lemma_net_float_binop(Mnemonic::FADD, p, pad);
        },
        Cmd::SubF => {
            lemma_net_float_binop(Mnemonic::FSUB, p, pad);
        },
        Cmd::MultF => {
            lemma_net_float_binop(Mnemonic::FMUL, p, pad);
        },
        Cmd::DivF => {
            lemma_net_float_binop(Mnemonic::FDIV, p, pad);
        },
        Cmd::PrintF { arg_count } => {
            if arg_count > 0 {
                lemma_net_printf(env.string_table, env.printf, arg_count, pad);
            }
        },
        _ => {},
    }
}

/// A call without arguments pops nothing: it is the address slot and the
/// call, and no register is loaded.
pub proof fn lemma_call_without_arguments()
    ensures
        call_setup(0) == Seq::<Item>::empty(),
        call_transfer(0) == seq![
            Item::Raw(crate::listing::RawCode::MovRaxSlot),
            Item::Op1(Mnemonic::CALL, Operand::Direct(Reg::RAX)),
        ],
{
    assert(call_setup(0) =~= Seq::<Item>::empty());
    assert(call_transfer(0) =~= seq![
        Item::Raw(crate::listing::RawCode::MovRaxSlot),
        Item::Op1(Mnemonic::CALL, Operand::Direct(Reg::RAX)),
    ]);
}

} // verus!
