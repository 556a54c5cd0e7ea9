//! Every instruction that the generator emits is one that the assembly
//! knows: one that this library encodes, or one that is handed to `x86asm`.
//! An encoding failure can therefore only come from `x86asm` itself.

use vstd::prelude::*;
use msc::Command;
use x86asm::{Mnemonic, Operand, Reg};
use crate::asm_helper::{
    fpu_transfer, fpu_transfer_rev, frame_setup, frame_teardown, global_load, global_load_float, global_store,
    global_store_float,
};
use crate::encoder::{encodable, x86asm_encoding};
use crate::listing::{item_encoding, listing_encoding, misread_displacement, own_encoding, Item};
use crate::lower::{
    aligned_call, arg_pops, call_setup, call_transfer, dup_code, exit_code, float_assign_code,
    float_binop_code, float_compare_code, float_negate_code, float_to_int_code, int_assign_code, int_binop_code,
    int_compare_code, int_to_float_code, int_unary_code, logical_not_code, lowering, muldiv_assign_code,
    muldiv_code, overflow_moves, printf_code, push_var_code, set_var_code, step_float_code,
    step_int_code, sys_code, HostEnv,
};
use crate::mov::mov_encoding;
use crate::script::prologue;

verus! {

/// The instruction is handed to `x86asm`.
pub open spec fn handed_on(m: Mnemonic, a: Option<Operand>, b: Option<Operand>) -> bool {
    encodable(m, a, b) && !misread_displacement(a) && !misread_displacement(b)
}

/// The entry is raw bytes, an instruction that is encoded here, or one that
/// is handed to `x86asm`.
pub open spec fn known_form(item: Item) -> bool {
    match item {
        Item::Raw(_) => true,
        Item::Op0(m) => handed_on(m, None, None),
        Item::Op1(m, a) => own_encoding(m, a) is Some || handed_on(m, Some(a), None),
        Item::Op2(m, a, b) => if m == Mnemonic::MOV {
            mov_encoding(a, b) is Ok
        } else {
            handed_on(m, Some(a), Some(b))
        },
    }
}

pub open spec fn all_known(items: Seq<Item>) -> bool {
    forall|i: int| 0 <= i < items.len() ==> known_form(#[trigger] items[i])
}

/// `x86asm` was handed the instruction and refused it.
pub open spec fn refused(m: Mnemonic, a: Option<Operand>, b: Option<Operand>) -> bool {
    handed_on(m, a, b) && x86asm_encoding(m, a, b) is Err
}

/// `x86asm` was handed the entry and refused it.
pub open spec fn assembler_refuses(item: Item) -> bool {
    match item {
        Item::Op0(m) => refused(m, None, None),
        Item::Op1(m, a) => own_encoding(m, a) is None && refused(m, Some(a), None),
        Item::Op2(m, a, b) => m != Mnemonic::MOV && refused(m, Some(a), Some(b)),
        Item::Raw(_) => false,
    }
}

/// An entry of a known form fails to encode only where `x86asm` refuses it.
pub proof fn lemma_known_form_fails_in_assembler(item: Item)
    requires
        known_form(item),
        item_encoding(item) is Err,
    ensures
        assembler_refuses(item),
{
}

/// A listing of known forms fails to encode only where `x86asm` refuses one
/// of its entries.
pub proof fn lemma_known_listing_fails_in_assembler(items: Seq<Item>)
    requires
        all_known(items),
        listing_encoding(items) is Err,
    ensures
        exists|i: int| 0 <= i < items.len() && assembler_refuses(#[trigger] items[i]),
    decreases items.len(),
{
    if items.len() > 0 {
        let before = items.drop_last();
        if listing_encoding(before) is Err {
            assert forall|i: int| 0 <= i < before.len() implies known_form(#[trigger] before[i]) by {
                assert(before[i] == items[i]);
            }
            lemma_known_listing_fails_in_assembler(before);
            let i = choose|i: int| 0 <= i < before.len() && assembler_refuses(#[trigger] before[i]);
            assert(before[i] == items[i]);
        } else {
            lemma_known_form_fails_in_assembler(items.last());
            assert(items[items.len() - 1] == items.last());
        }
    }
}

/// What the generator itself writes is of known forms: a pending push, the
/// push of a return value, and a jump with its displacement.
pub proof fn lemma_generator_forms(kind: crate::lower::JumpKind, rel: u32, val: u32)
    ensures
        known_form(crate::lower::jump_item(kind, rel)),
        known_form(crate::lower::push_immediate(val)),
        all_known(crate::script::return_value_push()),
{
}

proof fn lemma_known_concat(a: Seq<Item>, b: Seq<Item>)
    requires
        all_known(a),
        all_known(b),
    ensures
        all_known(a + b),
{
    assert forall|i: int| 0 <= i < (a + b).len() implies known_form(#[trigger] (a + b)[i]) by {
        if i < a.len() {
            assert((a + b)[i] == a[i]);
        } else {
            assert((a + b)[i] == b[i - a.len()]);
        }
    }
}

proof fn lemma_known_frames(num_vars: u16)
    ensures
        all_known(frame_setup(num_vars as u32)),
        all_known(frame_teardown(num_vars as u32)),
{
}

proof fn lemma_known_globals(globals: u64, var_num: u16)
    ensures
        all_known(global_load(globals, Reg::EAX, var_num)),
        all_known(global_load(globals, Reg::ECX, var_num)),
        all_known(global_store(globals, Reg::EAX, var_num)),
        all_known(global_store(globals, Reg::ECX, var_num)),
        all_known(global_load_float(globals, var_num)),
        all_known(global_store_float(globals, var_num)),
{
}

proof fn lemma_known_transfers(count: usize)
    requires
        count <= 2,
    ensures
        all_known(fpu_transfer(count)),
        all_known(fpu_transfer_rev(count)),
{
}

proof fn lemma_known_aligned_call()
    ensures
        all_known(aligned_call(Reg::RCX)),
{
}

proof fn lemma_known_calls(handler: u64, string_table: u64, printf: u64, arg_count: u8, push_bit: bool)
    ensures
        all_known(sys_code(handler, arg_count, push_bit)),
        arg_count > 0 ==> all_known(printf_code(string_table, printf, arg_count)),
{
    lemma_known_aligned_call();
    let sys = sys_code(handler, arg_count, push_bit);
    assert forall|i: int| 0 <= i < sys.len() implies known_form(#[trigger] sys[i]) by {
        if 3 <= i < 10 {
            assert(sys[i] == aligned_call(Reg::RCX)[i - 3]);
        }
    }
    if arg_count > 0 {
        let print = printf_code(string_table, printf, arg_count);
        assert forall|i: int| 0 <= i < print.len() implies known_form(#[trigger] print[i]) by {
            if 6 <= i < 13 {
                assert(print[i] == aligned_call(Reg::RCX)[i - 6]);
            }
        }
    }
}

proof fn lemma_known_call(arg_count: u8)
    ensures
        all_known(call_setup(arg_count)),
        all_known(call_transfer(arg_count)),
{
    let setup = call_setup(arg_count);
    let over = crate::lower::stack_args(arg_count);
    assert forall|i: int| 0 <= i < setup.len() implies known_form(#[trigger] setup[i]) by {
        if over > 0 {
            if 1 <= i < 7 {
                assert(setup[i] == arg_pops(6)[i - 1]);
            } else if i >= 8 {
                let moves = overflow_moves(over);
                let first = 2 * crate::lower::outer_moves(over);
                assert(setup[i] == moves[i - 8]);
                if i - 8 < first {
                    assert(moves[i - 8] == crate::lower::overflow_move(over, i - 8));
                } else {
                    assert(moves[i - 8] == crate::lower::overflow_swap(over, i - 8 - first));
                }
            }
        }
    }
}

proof fn lemma_known_variables(var_type: u8, var_num: u16, globals: u64, delta: u32, op: Mnemonic)
    requires
        op == Mnemonic::FADD || op == Mnemonic::FSUB || op == Mnemonic::FMUL || op == Mnemonic::FDIV,
    ensures
        all_known(push_var_code(var_type, var_num, globals, true)),
        all_known(push_var_code(var_type, var_num, globals, false)),
        all_known(set_var_code(var_type, var_num, globals)),
        all_known(step_int_code(Mnemonic::INC, var_type, var_num, globals)),
        all_known(step_int_code(Mnemonic::DEC, var_type, var_num, globals)),
        all_known(step_float_code(delta, var_type, var_num, globals)),
        all_known(float_assign_code(op, var_type, var_num, globals)),
{
    lemma_known_globals(globals, var_num);
    let push = seq![Item::Op1(Mnemonic::PUSH, Operand::Direct(Reg::RAX))];
    let pop = seq![Item::Op1(Mnemonic::POP, Operand::Direct(Reg::RCX))];
    let drop = seq![Item::Op2(Mnemonic::ADD, Operand::Direct(Reg::RSP), Operand::Literal8(8))];
    let first = seq![Item::Op2(Mnemonic::MOV, crate::lower::scratch_slot(), Operand::Literal32(delta))];
    let add = seq![Item::Op1(Mnemonic::FIADD, crate::lower::scratch_slot())];
    let fadd = seq![Item::Op1(op, crate::lower::stack_top())];
    let load = global_load_float(globals, var_num);
    let store = global_store_float(globals, var_num);
    lemma_known_concat(global_load(globals, Reg::EAX, var_num), push);
    lemma_known_concat(pop, global_store(globals, Reg::ECX, var_num));
    lemma_known_concat(global_load(globals, Reg::ECX, var_num), seq![Item::Op1(Mnemonic::INC, Operand::Direct(Reg::ECX))]);
    lemma_known_concat(
        global_load(globals, Reg::ECX, var_num) + seq![Item::Op1(Mnemonic::INC, Operand::Direct(Reg::ECX))],
        global_store(globals, Reg::ECX, var_num),
    );
    lemma_known_concat(global_load(globals, Reg::ECX, var_num), seq![Item::Op1(Mnemonic::DEC, Operand::Direct(Reg::ECX))]);
    lemma_known_concat(
        global_load(globals, Reg::ECX, var_num) + seq![Item::Op1(Mnemonic::DEC, Operand::Direct(Reg::ECX))],
        global_store(globals, Reg::ECX, var_num),
    );
    lemma_known_concat(load, add);
    lemma_known_concat(load + add, store);
    lemma_known_concat(first, load + add + store);
    lemma_known_concat(load, fadd);
    lemma_known_concat(load + fadd, store);
    lemma_known_concat(load + fadd + store, drop);
    if var_type == 0 {
        let local = seq![
            Item::Op1(Mnemonic::FLD, crate::lower::local_slot(var_num)),
            Item::Op1(Mnemonic::FIADD, crate::lower::scratch_slot()),
            Item::Op1(Mnemonic::FSTP, crate::lower::local_slot(var_num)),
        ];
        lemma_known_concat(first, local);
        let assign = seq![
            Item::Op1(Mnemonic::FLD, crate::lower::local_slot(var_num)),
            Item::Op1(op, crate::lower::stack_top()),
            Item::Op1(Mnemonic::FSTP, crate::lower::local_slot(var_num)),
        ];
        lemma_known_concat(assign, drop);
    }
}

proof fn lemma_known_int_assign(op: Mnemonic, var_type: u8, var_num: u16, globals: u64)
    requires
        op == Mnemonic::ADD || op == Mnemonic::SUB || op == Mnemonic::AND || op == Mnemonic::OR || op
            == Mnemonic::XOR,
    ensures
        all_known(int_assign_code(op, var_type, var_num, globals)),
{
    lemma_known_globals(globals, var_num);
    let pop = seq![Item::Op1(Mnemonic::POP, Operand::Direct(Reg::RCX))];
    let load = global_load(globals, Reg::EAX, var_num);
    let store = global_store(globals, Reg::EAX, var_num);
    let middle = seq![Item::Op2(op, Operand::Direct(Reg::EAX), Operand::Direct(Reg::ECX))];
    lemma_known_concat(load, middle);
    lemma_known_concat(load + middle, store);
    lemma_known_concat(pop, load + middle + store);
    if var_type == 0 {
        let local = seq![
            Item::Op2(Mnemonic::MOV, Operand::Direct(Reg::EAX), crate::lower::local_slot(var_num)),
            Item::Op2(op, Operand::Direct(Reg::EAX), Operand::Direct(Reg::ECX)),
            Item::Op2(Mnemonic::MOV, crate::lower::local_slot(var_num), Operand::Direct(Reg::EAX)),
        ];
        lemma_known_concat(pop, local);
    }
}

proof fn lemma_known_muldiv_assign(divide: bool, remainder: bool, var_type: u8, var_num: u16, globals: u64)
    ensures
        all_known(muldiv_assign_code(divide, remainder, var_type, var_num, globals)),
{
    lemma_known_globals(globals, var_num);
    let pop = seq![Item::Op1(Mnemonic::POP, Operand::Direct(Reg::RCX))];
    let load = global_load(globals, Reg::EAX, var_num);
    let store = global_store(globals, Reg::EAX, var_num);
    let m = if divide {
        Mnemonic::IDIV
    } else {
        Mnemonic::IMUL
    };
    let clear = if divide {
        seq![Item::Op2(Mnemonic::MOV, Operand::Direct(Reg::EDX), Operand::Literal32(0))]
    } else {
        Seq::<Item>::empty()
    };
    let middle = seq![Item::Op1(m, Operand::Direct(Reg::ECX))];
    let fetch = if remainder {
        seq![Item::Op2(Mnemonic::MOV, Operand::Direct(Reg::EAX), Operand::Direct(Reg::EDX))]
    } else {
        Seq::<Item>::empty()
    };
    lemma_known_concat(load, clear);
    lemma_known_concat(load + clear, middle);
    lemma_known_concat(load + clear + middle, fetch);
    lemma_known_concat(load + clear + middle + fetch, store);
    lemma_known_concat(pop, load + clear + middle + fetch + store);
    if var_type == 0 {
        let fetch_local = seq![
            Item::Op2(Mnemonic::MOV, Operand::Direct(Reg::EAX), crate::lower::local_slot(var_num)),
        ];
        let finish_local = seq![
            Item::Op1(m, Operand::Direct(Reg::ECX)),
            Item::Op2(
                Mnemonic::MOV,
                crate::lower::local_slot(var_num),
                Operand::Direct(if remainder { Reg::EDX } else { Reg::EAX }),
            ),
        ];
        lemma_known_concat(fetch_local, clear);
        lemma_known_concat(fetch_local + clear, finish_local);
        lemma_known_concat(pop, fetch_local + clear + finish_local);
    }
}

/// The conditional moves that the comparisons choose from.
pub open spec fn is_cmov(m: Mnemonic) -> bool {
    match m {
        Mnemonic::CMOVE | Mnemonic::CMOVNE | Mnemonic::CMOVL | Mnemonic::CMOVGE | Mnemonic::CMOVLE
        | Mnemonic::CMOVG | Mnemonic::CMOVB | Mnemonic::CMOVAE | Mnemonic::CMOVBE | Mnemonic::CMOVA => true,
        _ => false,
    }
}

proof fn lemma_known_integer(op: Mnemonic, count: Reg, divide: bool, remainder: bool, push_bit: bool)
    requires
        op == Mnemonic::ADD || op == Mnemonic::SUB || op == Mnemonic::AND || op == Mnemonic::OR || op
            == Mnemonic::XOR || op == Mnemonic::SHL || op == Mnemonic::SHR,
        count == Reg::ECX || count == Reg::CL,
    ensures
        all_known(int_binop_code(op, count, push_bit)),
        all_known(muldiv_code(divide, remainder, push_bit)),
        all_known(int_unary_code(Mnemonic::NEG, push_bit)),
        all_known(int_unary_code(Mnemonic::NOT, push_bit)),
        all_known(logical_not_code(push_bit)),
        all_known(dup_code()),
        all_known(exit_code()),
{
}

proof fn lemma_known_compare(taken: Mnemonic, other: Mnemonic, push_bit: bool)
    requires
        is_cmov(taken),
        is_cmov(other),
    ensures
        all_known(int_compare_code(taken, other, push_bit)),
        all_known(float_compare_code(taken, other, push_bit)),
{
    lemma_known_transfers(2);
    if push_bit {
        let code = float_compare_code(taken, other, push_bit);
        assert forall|i: int| 0 <= i < code.len() implies known_form(#[trigger] code[i]) by {
            if i < 2 {
                assert(code[i] == fpu_transfer_rev(2)[i]);
            }
        }
    }
}

proof fn lemma_known_float(op: Mnemonic, push_bit: bool)
    requires
        op == Mnemonic::FADD || op == Mnemonic::FSUB || op == Mnemonic::FMUL || op == Mnemonic::FDIV,
    ensures
        all_known(float_binop_code(op, push_bit)),
        all_known(float_negate_code(true)),
        all_known(float_negate_code(false)),
        all_known(int_to_float_code()),
        all_known(float_to_int_code()),
{
    lemma_known_transfers(2);
    lemma_known_transfers(1);
    if push_bit {
        let code = float_binop_code(op, push_bit);
        assert forall|i: int| 0 <= i < code.len() implies known_form(#[trigger] code[i]) by {
            if i < 2 {
                assert(code[i] == fpu_transfer(2)[i]);
            }
        }
    }
    let negate = float_negate_code(true);
    assert forall|i: int| 0 <= i < negate.len() implies known_form(#[trigger] negate[i]) by {
        if i < 1 {
            assert(negate[i] == fpu_transfer(1)[i]);
        }
    }
}

/// Whatever a command is lowered to, each of its instructions is of a
/// known form.
#[verifier::rlimit(50)]
pub proof fn lemma_lowering_known(cmd: Command, callee: Option<u32>, var_count: u16, script_start: u32, env: HostEnv)
    requires
        lowering(cmd, callee, var_count, script_start, env) is Ok,
    ensures
        all_known(lowering(cmd, callee, var_count, script_start, env)->Ok_0.head),
        all_known(lowering(cmd, callee, var_count, script_start, env)->Ok_0.tail),
{
    reveal(lowering);
    let p = cmd.push_bit;
    let g = env.globals;
    lemma_known_frames(var_count);
    lemma_known_concat(seq![Item::Op1(Mnemonic::POP, Operand::Direct(Reg::RAX))], frame_teardown(var_count as u32));
    match cmd.cmd {
        msc::Cmd::Sys { arg_count, sys_num } => {
            lemma_known_calls(env.syscalls@[sys_num as int], env.string_table, env.printf, arg_count, p);
        },
        msc::Cmd::PrintF { arg_count } => {
            lemma_known_calls(0, env.string_table, env.printf, arg_count, p);
        },
        msc::Cmd::AddVarByF { var_type, var_num } => {
            lemma_known_variables(var_type, var_num, g, 1, Mnemonic::FADD);
        },
        msc::Cmd::SubVarByF { var_type, var_num } => {
            lemma_known_variables(var_type, var_num, g, 1, Mnemonic::FSUB);
        },
        msc::Cmd::MultVarByF { var_type, var_num } => {
            lemma_known_variables(var_type, var_num, g, 1, Mnemonic::FMUL);
        },
        msc::Cmd::DivVarByF { var_type, var_num } => {
            lemma_known_variables(var_type, var_num, g, 1, Mnemonic::FDIV);
        },
        msc::Cmd::CallFunc { arg_count } | msc::Cmd::CallFunc2 { arg_count } | msc::Cmd::CallFunc3 {
            arg_count,
        } => {
            lemma_known_call(arg_count);
        },
        msc::Cmd::PushVar { var_type, var_num } | msc::Cmd::SetVar { var_type, var_num } | msc::Cmd::VarSetF {
            var_type,
            var_num,
        } | msc::Cmd::IncI { var_type, var_num } | msc::Cmd::DecI { var_type, var_num } | msc::Cmd::IncF {
            var_type,
            var_num,
        } => {
            lemma_known_variables(var_type, var_num, g, 1, Mnemonic::FADD);
        },
        msc::Cmd::DecF { var_type, var_num } => {
            lemma_known_variables(var_type, var_num, g, 0xffff_ffff, Mnemonic::FADD);
        },
        msc::Cmd::AddVarBy { var_type, var_num } => {
            lemma_known_int_assign(Mnemonic::ADD, var_type, var_num, g);
        },
        msc::Cmd::SubVarBy { var_type, var_num } => {
            lemma_known_int_assign(Mnemonic::SUB, var_type, var_num, g);
        },
        msc::Cmd::AndVarBy { var_type, var_num } => {
            lemma_known_int_assign(Mnemonic::AND, var_type, var_num, g);
        },
        msc::Cmd::OrVarBy { var_type, var_num } => {
            lemma_known_int_assign(Mnemonic::OR, var_type, var_num, g);
        },
        msc::Cmd::XorVarBy { var_type, var_num } => {
            lemma_known_int_assign(Mnemonic::XOR, var_type, var_num, g);
        },
        msc::Cmd::MultVarBy { var_type, var_num } => {
            lemma_known_muldiv_assign(false, false, var_type, var_num, g);
        },
        msc::Cmd::DivVarBy { var_type, var_num } => {
            lemma_known_muldiv_assign(true, false, var_type, var_num, g);
        },
        msc::Cmd::ModVarBy { var_type, var_num } => {
            lemma_known_muldiv_assign(true, true, var_type, var_num, g);
        },
        msc::Cmd::MultI => {
            lemma_known_integer(Mnemonic::ADD, Reg::ECX, false, false, p);
        },
        msc::Cmd::DivI => {
            lemma_known_integer(Mnemonic::ADD, Reg::ECX, true, false, p);
        },
        msc::Cmd::ModI => {
            lemma_known_integer(Mnemonic::ADD, Reg::ECX, true, true, p);
        },
        msc::Cmd::AddI | msc::Cmd::NegI | msc::Cmd::NotI | msc::Cmd::Not | msc::Cmd::Push | msc::Cmd::Exit => {
            lemma_known_integer(Mnemonic::ADD, Reg::ECX, false, false, p);
        },
        msc::Cmd::SubI => {
            lemma_known_integer(Mnemonic::SUB, Reg::ECX, false, false, p);
        },
        msc::Cmd::AndI => {
            lemma_known_integer(Mnemonic::AND, Reg::ECX, false, false, p);
        },
        msc::Cmd::OrI => {
            lemma_known_integer(Mnemonic::OR, Reg::ECX, false, false, p);
        },
        msc::Cmd::XorI => {
            lemma_known_integer(Mnemonic::XOR, Reg::ECX, false, false, p);
        },
        msc::Cmd::ShiftL => {
            lemma_known_integer(Mnemonic::SHL, Reg::CL, false, false, p);
        },
        msc::Cmd::ShiftR => {
            lemma_known_integer(Mnemonic::SHR, Reg::CL, false, false, p);
        },
        msc::Cmd::Equals | msc::Cmd::EqualsF => {
            lemma_known_compare(Mnemonic::CMOVE, Mnemonic::CMOVNE, p);
        },
        msc::Cmd::NotEquals | msc::Cmd::NotEqualsF => {
            lemma_known_compare(Mnemonic::CMOVNE, Mnemonic::CMOVE, p);
        },
        msc::Cmd::LessThan => {
            lemma_known_compare(Mnemonic::CMOVL, Mnemonic::CMOVGE, p);
        },
        msc::Cmd::LessOrEqual => {
            lemma_known_compare(Mnemonic::CMOVLE, Mnemonic::CMOVG, p);
        },
        msc::Cmd::Greater => {
            lemma_known_compare(Mnemonic::CMOVG, Mnemonic::CMOVLE, p);
        },
        msc::Cmd::GreaterOrEqual => {
            lemma_known_compare(Mnemonic::CMOVGE, Mnemonic::CMOVL, p);
        },
        msc::Cmd::LessThanF => {
            lemma_known_compare(Mnemonic::CMOVB, Mnemonic::CMOVAE, p);
        },
        msc::Cmd::LessOrEqualF => {
            lemma_known_compare(Mnemonic::CMOVBE, Mnemonic::CMOVA, p);
        },
        msc::Cmd::GreaterF => {
            lemma_known_compare(Mnemonic::CMOVA, Mnemonic::CMOVBE, p);
        },
        msc::Cmd::GreaterOrEqualF => {
            lemma_known_compare(Mnemonic::CMOVAE, Mnemonic::CMOVB, p);
        },
        msc::Cmd::AddF | msc::Cmd::NegF | msc::Cmd::IntToFloat { .. } | msc::Cmd::FloatToInt { .. } => {
            lemma_known_float(Mnemonic::FADD, p);
        },
        msc::Cmd::SubF => {
            lemma_known_float(Mnemonic::FSUB, p);
        },
        msc::Cmd::MultF => {
            lemma_known_float(Mnemonic::FMUL, p);
        },
        msc::Cmd::DivF => {
            lemma_known_float(Mnemonic::FDIV, p);
        },
        _ => {},
    }
}

/// The prologue of a script is of known forms throughout.
pub proof fn lemma_prologue_known(arg_count: u16, var_count: u16)
    ensures
        all_known(prologue(arg_count, var_count)),
{
    lemma_known_frames(var_count);
    let code = prologue(arg_count, var_count);
    let setup = frame_setup(var_count as u32);
    let in_regs: int = if arg_count < 6 {
        arg_count as int
    } else {
        6
    };
    assert forall|i: int| 0 <= i < code.len() implies known_form(#[trigger] code[i]) by {
        if i < setup.len() {
            assert(code[i] == setup[i]);
        } else if i < setup.len() + in_regs {
            let k = i - setup.len();
            assert(code[i] == Item::Op2(
                Mnemonic::MOV,
                crate::lower::local_slot(k as u16),
                Operand::Direct(crate::lower::arg_regs_32()[k]),
            ));
        } else {
            let j = i - setup.len() - in_regs;
            assert(code[i] == crate::script::stack_spill(var_count, j));
        }
    }
}

} // verus!
