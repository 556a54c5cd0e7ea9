//! What the host's addresses change in compiled code. The globals, the
//! string table, the print helper and the system call adapters enter the
//! code as 64-bit immediates of `mov r64, imm64` and in no other way: two
//! compilations of one program for different hosts differ only within
//! those immediates.

use vstd::prelude::*;
use msc::{Cmd, Command, MscsbFile, Script};
use x86asm::{Mnemonic, Operand, Reg};
use crate::asm_helper::{global_load, global_load_float, global_store, global_store_float};
use crate::encoder::gpr64;
use crate::listing::{item_encoding, listing_encoding, Item};
use crate::lower::{
    float_assign_code, int_assign_code, jump_length, lowering, muldiv_assign_code, printf_code, push_immediate,
    push_var_code, set_var_code, step_float_code, step_int_code, sys_code, CompileError, HostEnv,
};
use crate::memory::region_image;
use crate::program::{compiled_program, fresh_region, lemma_script_images, pending_calls, script_images};
use crate::script::{
    appended, arrival, closed, compiled_script, flushed, generated, is_call, jumps_in_order, lemma_patched_jump,
    marked, performed, pushed_immediate, recorded, resolved, return_value_push, script_header, stepped, GenState,
    JumpFixup, ScriptImage,
};

verus! {

/// Two listing entries are the same but for the immediate of a
/// `mov r64, imm64`.
pub open spec fn akin(a: Item, b: Item) -> bool {
    a == b || match a {
        Item::Op2(m, Operand::Direct(r), Operand::Literal64(_)) => match b {
            Item::Op2(n, Operand::Direct(q), Operand::Literal64(_)) => m == Mnemonic::MOV && n == Mnemonic::MOV && r
                == q,
            _ => false,
        },
        _ => false,
    }
}

/// Two listings are the same, entry for entry, but for such immediates.
pub open spec fn akin_all(a: Seq<Item>, b: Seq<Item>) -> bool {
    a.len() == b.len() && forall|i: int| 0 <= i < a.len() ==> akin(#[trigger] a[i], b[i])
}

proof fn lemma_akin_concat(a: Seq<Item>, b: Seq<Item>, c: Seq<Item>, d: Seq<Item>)
    requires
        akin_all(a, b),
        akin_all(c, d),
    ensures
        akin_all(a + c, b + d),
{
    assert forall|i: int| 0 <= i < (a + c).len() implies akin(#[trigger] (a + c)[i], (b + d)[i]) by {
        if i < a.len() {
            assert((a + c)[i] == a[i] && (b + d)[i] == b[i]);
        } else {
            assert((a + c)[i] == c[i - a.len()] && (b + d)[i] == d[i - a.len()]);
        }
    }
}

proof fn lemma_akin_globals(first: u64, second: u64, var_num: u16)
    ensures
        akin_all(global_load(first, Reg::EAX, var_num), global_load(second, Reg::EAX, var_num)),
        akin_all(global_load(first, Reg::ECX, var_num), global_load(second, Reg::ECX, var_num)),
        akin_all(global_store(first, Reg::EAX, var_num), global_store(second, Reg::EAX, var_num)),
        akin_all(global_store(first, Reg::ECX, var_num), global_store(second, Reg::ECX, var_num)),
        akin_all(global_load_float(first, var_num), global_load_float(second, var_num)),
        akin_all(global_store_float(first, var_num), global_store_float(second, var_num)),
{
}

proof fn lemma_akin_same(a: Seq<Item>)
    ensures
        akin_all(a, a),
{
}

proof fn lemma_akin_variables(var_type: u8, var_num: u16, first: u64, second: u64, delta: u32, op: Mnemonic, p: bool)
    ensures
        akin_all(push_var_code(var_type, var_num, first, p), push_var_code(var_type, var_num, second, p)),
        akin_all(set_var_code(var_type, var_num, first), set_var_code(var_type, var_num, second)),
        akin_all(step_int_code(op, var_type, var_num, first), step_int_code(op, var_type, var_num, second)),
        akin_all(step_float_code(delta, var_type, var_num, first), step_float_code(delta, var_type, var_num, second)),
        akin_all(float_assign_code(op, var_type, var_num, first), float_assign_code(op, var_type, var_num, second)),
{
    lemma_akin_globals(first, second, var_num);
    if var_type != 0 {
        let push = if p {
            seq![Item::Op1(Mnemonic::PUSH, Operand::Direct(Reg::RAX))]
        } else {
            Seq::<Item>::empty()
        };
        let pop = seq![Item::Op1(Mnemonic::POP, Operand::Direct(Reg::RCX))];
        let drop = seq![Item::Op2(Mnemonic::ADD, Operand::Direct(Reg::RSP), Operand::Literal8(8))];
        let start = seq![Item::Op2(Mnemonic::MOV, crate::lower::scratch_slot(), Operand::Literal32(delta))];
        let add = seq![Item::Op1(Mnemonic::FIADD, crate::lower::scratch_slot())];
        let with = seq![Item::Op1(op, crate::lower::stack_top())];
        let step = seq![Item::Op1(op, Operand::Direct(Reg::ECX))];
        let load1 = global_load_float(first, var_num);
        let load2 = global_load_float(second, var_num);
        let store1 = global_store_float(first, var_num);
        let store2 = global_store_float(second, var_num);
        let get1 = global_load(first, Reg::ECX, var_num);
        let get2 = global_load(second, Reg::ECX, var_num);
        let put1 = global_store(first, Reg::ECX, var_num);
        let put2 = global_store(second, Reg::ECX, var_num);
        lemma_akin_concat(global_load(first, Reg::EAX, var_num), global_load(second, Reg::EAX, var_num), push, push);
        lemma_akin_concat(pop, pop, put1, put2);
        lemma_akin_concat(get1, get2, step, step);
        lemma_akin_concat(get1 + step, get2 + step, put1, put2);
        lemma_akin_concat(load1, load2, add, add);
        lemma_akin_concat(load1 + add, load2 + add, store1, store2);
        lemma_akin_concat(start, start, load1 + add + store1, load2 + add + store2);
        lemma_akin_concat(load1, load2, with, with);
        lemma_akin_concat(load1 + with, load2 + with, store1, store2);
        lemma_akin_concat(load1 + with + store1, load2 + with + store2, drop, drop);
    }
}

proof fn lemma_akin_int_assign(op: Mnemonic, var_type: u8, var_num: u16, first: u64, second: u64)
    ensures
        akin_all(int_assign_code(op, var_type, var_num, first), int_assign_code(op, var_type, var_num, second)),
{
    lemma_akin_globals(first, second, var_num);
    if var_type != 0 {
        let pop = seq![Item::Op1(Mnemonic::POP, Operand::Direct(Reg::RCX))];
        let middle = seq![Item::Op2(op, Operand::Direct(Reg::EAX), Operand::Direct(Reg::ECX))];
        let load1 = global_load(first, Reg::EAX, var_num);
        let load2 = global_load(second, Reg::EAX, var_num);
        let store1 = global_store(first, Reg::EAX, var_num);
        let store2 = global_store(second, Reg::EAX, var_num);
        lemma_akin_concat(load1, load2, middle, middle);
        lemma_akin_concat(load1 + middle, load2 + middle, store1, store2);
        lemma_akin_concat(pop, pop, load1 + middle + store1, load2 + middle + store2);
    }
}

proof fn lemma_akin_muldiv_assign(
    divide: bool,
    remainder: bool,
    var_type: u8,
    var_num: u16,
    first: u64,
    second: u64,
)
    ensures
        akin_all(
            muldiv_assign_code(divide, remainder, var_type, var_num, first),
            muldiv_assign_code(divide, remainder, var_type, var_num, second),
        ),
{
    lemma_akin_globals(first, second, var_num);
    if var_type != 0 {
        let pop = seq![Item::Op1(Mnemonic::POP, Operand::Direct(Reg::RCX))];
        let m = if divide {
            Mnemonic::IDIV
        } else {
            Mnemonic::IMUL
        };
        let clear = if divide {
            seq![Item::Op2(Mnemonic::MOV, Operand::Direct(Reg::EDX), Operand::Literal32(0))]
        } else {
            Seq::<Item>::empty()
        };
        let middle = seq![Item::Op1(m, Operand::Direct(Reg::ECX))];
        let fetch = if remainder {
            seq![Item::Op2(Mnemonic::MOV, Operand::Direct(Reg::EAX), Operand::Direct(Reg::EDX))]
        } else {
            Seq::<Item>::empty()
        };
        let load1 = global_load(first, Reg::EAX, var_num);
        let load2 = global_load(second, Reg::EAX, var_num);
        let store1 = global_store(first, Reg::EAX, var_num);
        let store2 = global_store(second, Reg::EAX, var_num);
        lemma_akin_concat(load1, load2, clear, clear);
        lemma_akin_concat(load1 + clear, load2 + clear, middle, middle);
        lemma_akin_concat(load1 + clear + middle, load2 + clear + middle, fetch, fetch);
        lemma_akin_concat(load1 + clear + middle + fetch, load2 + clear + middle + fetch, store1, store2);
        lemma_akin_concat(
            pop,
            pop,
            load1 + clear + middle + fetch + store1,
            load2 + clear + middle + fetch + store2,
        );
    }
}

proof fn lemma_akin_calls(
    handler1: u64,
    handler2: u64,
    first: HostEnv,
    second: HostEnv,
    arg_count: u8,
    push_bit: bool,
)
    ensures
        akin_all(sys_code(handler1, arg_count, push_bit), sys_code(handler2, arg_count, push_bit)),
        arg_count > 0 ==> akin_all(
            printf_code(first.string_table, first.printf, arg_count),
            printf_code(second.string_table, second.printf, arg_count),
        ),
{
    let sys1 = sys_code(handler1, arg_count, push_bit);
    let sys2 = sys_code(handler2, arg_count, push_bit);
    assert(sys1.len() == sys2.len());
    assert forall|i: int| 0 <= i < sys1.len() implies akin(#[trigger] sys1[i], sys2[i]) by {
        if 3 <= i < 10 {
            assert(sys1[i] == crate::lower::aligned_call(Reg::RCX)[i - 3]);
            assert(sys2[i] == crate::lower::aligned_call(Reg::RCX)[i - 3]);
        }
    }
    if arg_count > 0 {
        let print1 = printf_code(first.string_table, first.printf, arg_count);
        let print2 = printf_code(second.string_table, second.printf, arg_count);
        assert(print1.len() == print2.len());
        assert forall|i: int| 0 <= i < print1.len() implies akin(#[trigger] print1[i], print2[i]) by {
            if 6 <= i < 13 {
                assert(print1[i] == crate::lower::aligned_call(Reg::RCX)[i - 6]);
                assert(print2[i] == crate::lower::aligned_call(Reg::RCX)[i - 6]);
            }
        }
    }
}

/// What a command is lowered to for two hosts is the same but for the
/// immediates of `mov r64, imm64`.
#[verifier::rlimit(50)]
pub proof fn lemma_lowering_elsewhere(
    cmd: Command,
    callee: Option<u32>,
    var_count: u16,
    script_start: u32,
    first: HostEnv,
    second: HostEnv,
)
    requires
        lowering(cmd, callee, var_count, script_start, first) is Ok,
        lowering(cmd, callee, var_count, script_start, second) is Ok,
    ensures
        ({
            let a = lowering(cmd, callee, var_count, script_start, first)->Ok_0;
            let b = lowering(cmd, callee, var_count, script_start, second)->Ok_0;
            &&& a.effect == b.effect
            &&& akin_all(a.head, b.head)
            &&& akin_all(a.tail, b.tail)
            &&& a.effect is Jump ==> a.tail == b.tail
        }),
{
    reveal(lowering);
    let p = cmd.push_bit;
    let g = first.globals;
    let h = second.globals;
    match cmd.cmd {
        Cmd::Sys { arg_count, sys_num } => {
            lemma_akin_calls(
                first.syscalls@[sys_num as int],
                second.syscalls@[sys_num as int],
                first,
                second,
                arg_count,
                p,
            );
        },
        Cmd::PrintF { arg_count } => {
            lemma_akin_calls(0, 0, first, second, arg_count, p);
        },
        Cmd::PushVar { var_type, var_num } | Cmd::SetVar { var_type, var_num } | Cmd::VarSetF { var_type, var_num } => {
            lemma_akin_variables(var_type, var_num, g, h, 1, Mnemonic::INC, p);
        },
        Cmd::IncI { var_type, var_num } => {
            lemma_akin_variables(var_type, var_num, g, h, 1, Mnemonic::INC, p);
        },
        Cmd::DecI { var_type, var_num } => {
            lemma_akin_variables(var_type, var_num, g, h, 1, Mnemonic::DEC, p);
        },
        Cmd::IncF { var_type, var_num } => {
            lemma_akin_variables(var_type, var_num, g, h, 1, Mnemonic::INC, p);
        },
        Cmd::DecF { var_type, var_num } => {
            lemma_akin_variables(var_type, var_num, g, h, 0xffff_ffff, Mnemonic::INC, p);
        },
        Cmd::AddVarByF { var_type, var_num } => {
            lemma_akin_variables(var_type, var_num, g, h, 1, Mnemonic::FADD, p);
        },
        Cmd::SubVarByF { var_type, var_num } => {
            lemma_akin_variables(var_type, var_num, g, h, 1, Mnemonic::FSUB, p);
        },
        Cmd::MultVarByF { var_type, var_num } => {
            lemma_akin_variables(var_type, var_num, g, h, 1, Mnemonic::FMUL, p);
        },
        Cmd::DivVarByF { var_type, var_num } => {
            lemma_akin_variables(var_type, var_num, g, h, 1, Mnemonic::FDIV, p);
        },
        Cmd::AddVarBy { var_type, var_num } => {
            lemma_akin_int_assign(Mnemonic::ADD, var_type, var_num, g, h);
        },
        Cmd::SubVarBy { var_type, var_num } => {
            lemma_akin_int_assign(Mnemonic::SUB, var_type, var_num, g, h);
        },
        Cmd::AndVarBy { var_type, var_num } => {
            lemma_akin_int_assign(Mnemonic::AND, var_type, var_num, g, h);
        },
        Cmd::OrVarBy { var_type, var_num } => {
            lemma_akin_int_assign(Mnemonic::OR, var_type, var_num, g, h);
        },
        Cmd::XorVarBy { var_type, var_num } => {
            lemma_akin_int_assign(Mnemonic::XOR, var_type, var_num, g, h);
        },
        Cmd::MultVarBy { var_type, var_num } => {
            lemma_akin_muldiv_assign(false, false, var_type, var_num, g, h);
        },
        Cmd::DivVarBy { var_type, var_num } => {
            lemma_akin_muldiv_assign(true, false, var_type, var_num, g, h);
        },
        Cmd::ModVarBy { var_type, var_num } => {
            lemma_akin_muldiv_assign(true, true, var_type, var_num, g, h);
        },
        _ => {},
    }
}

/// The two bytes with which `mov r64, imm64` begins: the prefix for a
/// 64-bit operand, and the opcode that names the register.
pub open spec fn opens_immediate(a: u8, b: u8) -> bool {
    (a == 0x48 || a == 0x49) && 0xb8 <= b <= 0xbf
}

/// Byte `x` of the code lies within the eight bytes at `s`, which follow
/// the two bytes with which `mov r64, imm64` begins.
pub open spec fn field_at(code: Seq<u8>, s: int, x: int) -> bool {
    2 <= s <= x < s + 8 && s + 8 <= code.len() && opens_immediate(code[s - 2], code[s - 1])
}

/// The instruction whose immediate begins at `s` shares no byte with a jump.
pub open spec fn window_clear(s: int, jumps: Seq<JumpFixup>) -> bool {
    forall|k: int|
        0 <= k < jumps.len() ==> (#[trigger] jumps[k]).at + jump_length(jumps[k].kind) <= s - 2 || s + 8
            <= jumps[k].at
}

/// Byte `x` lies, in both codes, within the immediate at `s` of a
/// `mov r64, imm64` that shares no byte with a jump.
pub open spec fn clear_field(a: Seq<u8>, b: Seq<u8>, jumps: Seq<JumpFixup>, s: int, x: int) -> bool {
    field_at(a, s, x) && field_at(b, s, x) && window_clear(s, jumps)
}

/// Two codes of one length that differ only within the immediates of
/// `mov r64, imm64`, of instructions that share no byte with a jump.
pub open spec fn alike_clear(a: Seq<u8>, b: Seq<u8>, jumps: Seq<JumpFixup>) -> bool {
    a.len() == b.len() && forall|x: int|
        0 <= x < a.len() && #[trigger] a[x] != b[x] ==> exists|s: int| #[trigger] clear_field(a, b, jumps, s, x)
}

/// Two codes of one length that differ only within the immediates of
/// `mov r64, imm64`.
pub open spec fn alike(a: Seq<u8>, b: Seq<u8>) -> bool {
    alike_clear(a, b, Seq::<JumpFixup>::empty())
}

/// Codes that are alike stay so where more is written behind them, while
/// every jump lies within the codes as they were.
proof fn lemma_alike_grown(a: Seq<u8>, b: Seq<u8>, c: Seq<u8>, d: Seq<u8>, jumps: Seq<JumpFixup>)
    requires
        alike_clear(a, b, jumps),
        alike(c, d),
        forall|k: int| 0 <= k < jumps.len() ==> (#[trigger] jumps[k]).at + jump_length(jumps[k].kind) <= a.len(),
    ensures
        alike_clear(a + c, b + d, jumps),
{
    let n = a.len() as int;
    assert forall|x: int| 0 <= x < (a + c).len() && #[trigger] (a + c)[x] != (b + d)[x] implies exists|s: int|
        #[trigger] clear_field(a + c, b + d, jumps, s, x) by {
        if x < n {
            assert(a[x] != b[x]);
            let s = choose|s: int| #[trigger] clear_field(a, b, jumps, s, x);
            assert((a + c)[s - 2] == a[s - 2] && (a + c)[s - 1] == a[s - 1]);
            assert((b + d)[s - 2] == b[s - 2] && (b + d)[s - 1] == b[s - 1]);
            assert(clear_field(a + c, b + d, jumps, s, x));
        } else {
            assert(c[x - n] != d[x - n]);
            let s = choose|s: int| #[trigger] clear_field(c, d, Seq::<JumpFixup>::empty(), s, x - n);
            assert((a + c)[s + n - 2] == c[s - 2] && (a + c)[s + n - 1] == c[s - 1]);
            assert((b + d)[s + n - 2] == d[s - 2] && (b + d)[s + n - 1] == d[s - 1]);
            assert(clear_field(a + c, b + d, jumps, s + n, x));
        }
    }
}

/// Codes that are alike stay so where a jump is written behind them.
proof fn lemma_alike_jump(a: Seq<u8>, b: Seq<u8>, tail: Seq<u8>, jumps: Seq<JumpFixup>, j: JumpFixup)
    requires
        alike_clear(a, b, jumps),
        j.at >= a.len(),
    ensures
        alike_clear(a + tail, b + tail, jumps.push(j)),
{
    let after = jumps.push(j);
    assert forall|x: int| 0 <= x < (a + tail).len() && #[trigger] (a + tail)[x] != (b + tail)[x] implies exists|
        s: int,
    | #[trigger] clear_field(a + tail, b + tail, after, s, x) by {
        assert(x < a.len());
        assert(a[x] != b[x]);
        let s = choose|s: int| #[trigger] clear_field(a, b, jumps, s, x);
        assert((a + tail)[s - 2] == a[s - 2] && (a + tail)[s - 1] == a[s - 1]);
        assert((b + tail)[s - 2] == b[s - 2] && (b + tail)[s - 1] == b[s - 1]);
        assert forall|k: int| 0 <= k < after.len() implies (#[trigger] after[k]).at + jump_length(after[k].kind) <= s
            - 2 || s + 8 <= after[k].at by {
            if k < jumps.len() {
                assert(after[k] == jumps[k]);
            }
        }
        assert(clear_field(a + tail, b + tail, after, s, x));
    }
}

proof fn lemma_alike_same(a: Seq<u8>, jumps: Seq<JumpFixup>)
    ensures
        alike_clear(a, a, jumps),
{
}

/// Entries that are the same but for a 64-bit immediate have an encoding
/// together or not at all, and encodings that differ only within it.
proof fn lemma_akin_encoding(a: Item, b: Item)
    requires
        akin(a, b),
    ensures
        item_encoding(a) is Ok <==> item_encoding(b) is Ok,
        item_encoding(a) is Ok ==> alike(item_encoding(a)->Ok_0, item_encoding(b)->Ok_0),
{
    let none = Seq::<JumpFixup>::empty();
    if a != b {
        vstd::bytes::lemma_auto_spec_u64_to_from_le_bytes();
        match a {
            Item::Op2(m, Operand::Direct(r), Operand::Literal64(v)) => match b {
                Item::Op2(n, Operand::Direct(q), Operand::Literal64(w)) => {
                    if gpr64(r) is Some {
                        let x = item_encoding(a)->Ok_0;
                        let y = item_encoding(b)->Ok_0;
                        let dc = gpr64(r)->Some_0;
                        let head = crate::mov::rex(true, 0, 0, dc) + seq![(0xb8 + dc % 8) as u8];
                        assert(x == head + vstd::bytes::spec_u64_to_le_bytes(v));
                        assert(y == head + vstd::bytes::spec_u64_to_le_bytes(w));
                        assert(head.len() == 2 && opens_immediate(head[0], head[1]));
                        assert(x.len() == 10 && y.len() == 10);
                        assert forall|i: int| 0 <= i < x.len() && #[trigger] x[i] != y[i] implies exists|s: int|
                            #[trigger] clear_field(x, y, none, s, i) by {
                            assert(x[0] == head[0] && x[1] == head[1]);
                            assert(y[0] == head[0] && y[1] == head[1]);
                            assert(clear_field(x, y, none, 2, i));
                        }
                    }
                },
                _ => {},
            },
            _ => {},
        }
    }
}

/// Listings that are the same but for 64-bit immediates have an encoding
/// together or not at all, and encodings that differ only within them.
proof fn lemma_akin_listing(a: Seq<Item>, b: Seq<Item>)
    requires
        akin_all(a, b),
    ensures
        listing_encoding(a) is Ok <==> listing_encoding(b) is Ok,
        listing_encoding(a) is Ok ==> alike(listing_encoding(a)->Ok_0, listing_encoding(b)->Ok_0),
    decreases a.len(),
{
    if a.len() > 0 {
        assert(akin_all(a.drop_last(), b.drop_last())) by {
            assert forall|i: int| 0 <= i < a.drop_last().len() implies akin(
                #[trigger] a.drop_last()[i],
                b.drop_last()[i],
            ) by {
                assert(a.drop_last()[i] == a[i] && b.drop_last()[i] == b[i]);
            }
        }
        assert(akin(a[a.len() - 1], b[a.len() - 1]));
        lemma_akin_listing(a.drop_last(), b.drop_last());
        lemma_akin_encoding(a.last(), b.last());
        if listing_encoding(a) is Ok {
            lemma_alike_grown(
                listing_encoding(a.drop_last())->Ok_0,
                listing_encoding(b.drop_last())->Ok_0,
                item_encoding(a.last())->Ok_0,
                item_encoding(b.last())->Ok_0,
                Seq::<JumpFixup>::empty(),
            );
        }
    }
}

/// Writing such listings behind codes that are alike gives codes that are
/// alike, or fails for both.
proof fn lemma_appended_elsewhere(
    c: Seq<u8>,
    d: Seq<u8>,
    a: Seq<Item>,
    b: Seq<Item>,
    position: u32,
    jumps: Seq<JumpFixup>,
)
    requires
        alike_clear(c, d, jumps),
        jumps_in_order(jumps, c.len() as int),
        akin_all(a, b),
    ensures
        appended(c, a, position) is Ok <==> appended(d, b, position) is Ok,
        appended(c, a, position) is Ok ==> {
            &&& alike_clear(appended(c, a, position)->Ok_0, appended(d, b, position)->Ok_0, jumps)
            &&& jumps_in_order(jumps, appended(c, a, position)->Ok_0.len() as int)
            &&& c.len() <= appended(c, a, position)->Ok_0.len()
        },
{
    lemma_akin_listing(a, b);
    if listing_encoding(a) is Ok {
        lemma_alike_grown(c, d, listing_encoding(a)->Ok_0, listing_encoding(b)->Ok_0, jumps);
    }
}

/// Two states of the generator that are the same but for such immediates
/// in their code.
pub open spec fn same_shape(s: GenState, t: GenState) -> bool {
    &&& alike_clear(s.code, t.code, s.jumps)
    &&& jumps_in_order(s.jumps, s.code.len() as int)
    &&& s.pending == t.pending
    &&& s.locations == t.locations
    &&& s.jumps == t.jumps
    &&& s.tries == t.tries
    &&& s.relocs == t.relocs
}

proof fn lemma_arrival_elsewhere(s: GenState, t: GenState, cmd: Command, script_start: u32)
    requires
        same_shape(s, t),
        arrival(s, cmd, script_start) is Ok,
        arrival(t, cmd, script_start) is Ok,
    ensures
        same_shape(arrival(s, cmd, script_start)->Ok_0.0, arrival(t, cmd, script_start)->Ok_0.0),
        arrival(s, cmd, script_start)->Ok_0.1 == arrival(t, cmd, script_start)->Ok_0.1,
{
    reveal(arrival);
    let m = marked(s.tries, script_start, cmd.position);
    let push = return_value_push();
    lemma_akin_same(push);
    match s.pending {
        Some((val, position)) => {
            if !(is_call(cmd.cmd) && !m) {
                let first = seq![push_immediate(val)];
                lemma_akin_same(first);
                lemma_appended_elsewhere(s.code, t.code, first, first, position, s.jumps);
                if m {
                    lemma_appended_elsewhere(
                        appended(s.code, first, position)->Ok_0,
                        appended(t.code, first, position)->Ok_0,
                        push,
                        push,
                        cmd.position,
                        s.jumps,
                    );
                }
            }
        },
        None => {
            if m {
                lemma_appended_elsewhere(s.code, t.code, push, push, cmd.position, s.jumps);
            }
        },
    }
}

#[verifier::rlimit(40)]
proof fn lemma_performed_elsewhere(
    s: GenState,
    t: GenState,
    callee: Option<u32>,
    cmd: Command,
    index: usize,
    var_count: u16,
    script_start: u32,
    first: HostEnv,
    second: HostEnv,
)
    requires
        same_shape(s, t),
        performed(s, callee, cmd, index, var_count, script_start, first) is Ok,
        performed(t, callee, cmd, index, var_count, script_start, second) is Ok,
        performed(s, callee, cmd, index, var_count, script_start, first)->Ok_0.code.len() <= usize::MAX,
    ensures
        same_shape(
            performed(s, callee, cmd, index, var_count, script_start, first)->Ok_0,
            performed(t, callee, cmd, index, var_count, script_start, second)->Ok_0,
        ),
{
    reveal(performed);
    lemma_lowering_elsewhere(cmd, callee, var_count, script_start, first, second);
    let a = lowering(cmd, callee, var_count, script_start, first)->Ok_0;
    let b = lowering(cmd, callee, var_count, script_start, second)->Ok_0;
    if pushed_immediate(cmd) is None {
        lemma_appended_elsewhere(s.code, t.code, a.head, b.head, cmd.position, s.jumps);
        let mid1 = appended(s.code, a.head, cmd.position)->Ok_0;
        let mid2 = appended(t.code, b.head, cmd.position)->Ok_0;
        lemma_appended_elsewhere(mid1, mid2, a.tail, b.tail, cmd.position, s.jumps);
        let code1 = appended(mid1, a.tail, cmd.position)->Ok_0;
        let code2 = appended(mid2, b.tail, cmd.position)->Ok_0;
        let next1 = performed(s, callee, cmd, index, var_count, script_start, first)->Ok_0;
        let next2 = performed(t, callee, cmd, index, var_count, script_start, second)->Ok_0;
        assert(Ok::<GenState, CompileError>(next1) == recorded(s, a, mid1, code1, cmd, index));
        assert(Ok::<GenState, CompileError>(next2) == recorded(t, b, mid2, code2, cmd, index));
        match a.effect {
            crate::lower::Effect::Jump { kind, target } => {
                let j = JumpFixup {
                    at: mid1.len() as usize,
                    kind,
                    target,
                    source: cmd.position,
                    opcode: crate::bytecode::opcode_value(cmd.cmd),
                };
                assert(next1.jumps == s.jumps.push(j));
                let tail = listing_encoding(a.tail)->Ok_0;
                assert(code1 == mid1 + tail);
                assert(code2 == mid2 + tail);
                lemma_alike_jump(mid1, mid2, tail, s.jumps, j);
                assert forall|k: int| 0 <= k < next1.jumps.len() implies (#[trigger] next1.jumps[k]).at
                    + jump_length(next1.jumps[k].kind) <= code1.len() by {
                    if k < s.jumps.len() {
                        assert(next1.jumps[k] == s.jumps[k]);
                    }
                }
                assert forall|i: int, k: int| 0 <= i < k < next1.jumps.len() implies (#[trigger] next1.jumps[i]).at
                    + jump_length(next1.jumps[i].kind) <= (#[trigger] next1.jumps[k]).at by {
                    assert(next1.jumps[i] == s.jumps[i]);
                    if k < s.jumps.len() {
                        assert(next1.jumps[k] == s.jumps[k]);
                    }
                }
            },
            _ => {
                assert(next1.jumps == s.jumps);
            },
        }
    }
}

proof fn lemma_stepped_elsewhere(
    s: GenState,
    t: GenState,
    cmd: Command,
    index: usize,
    var_count: u16,
    script_start: u32,
    first: HostEnv,
    second: HostEnv,
)
    requires
        same_shape(s, t),
        stepped(s, cmd, index, var_count, script_start, first) is Ok,
        stepped(t, cmd, index, var_count, script_start, second) is Ok,
        stepped(s, cmd, index, var_count, script_start, first)->Ok_0.code.len() <= usize::MAX,
    ensures
        same_shape(
            stepped(s, cmd, index, var_count, script_start, first)->Ok_0,
            stepped(t, cmd, index, var_count, script_start, second)->Ok_0,
        ),
{
    lemma_arrival_elsewhere(s, t, cmd, script_start);
    let (arrived1, callee) = arrival(s, cmd, script_start)->Ok_0;
    let (arrived2, _) = arrival(t, cmd, script_start)->Ok_0;
    lemma_performed_elsewhere(arrived1, arrived2, callee, cmd, index, var_count, script_start, first, second);
}

proof fn lemma_generated_elsewhere(
    commands: Seq<Command>,
    index: usize,
    arg_count: u16,
    var_count: u16,
    script_start: u32,
    first: HostEnv,
    second: HostEnv,
    n: nat,
)
    requires
        generated(commands, index, arg_count, var_count, script_start, first, n) is Ok,
        generated(commands, index, arg_count, var_count, script_start, second, n) is Ok,
        generated(commands, index, arg_count, var_count, script_start, first, n)->Ok_0.code.len() <= usize::MAX,
    ensures
        same_shape(
            generated(commands, index, arg_count, var_count, script_start, first, n)->Ok_0,
            generated(commands, index, arg_count, var_count, script_start, second, n)->Ok_0,
        ),
    decreases n,
{
    if n > 0 {
        let before = generated(commands, index, arg_count, var_count, script_start, first, (n - 1) as nat)->Ok_0;
        crate::script::lemma_stepped_order(before, commands[n as int], index, var_count, script_start, first);
        lemma_generated_elsewhere(commands, index, arg_count, var_count, script_start, first, second, (n - 1) as nat);
        lemma_stepped_elsewhere(
            before,
            generated(commands, index, arg_count, var_count, script_start, second, (n - 1) as nat)->Ok_0,
            commands[n as int],
            index,
            var_count,
            script_start,
            first,
            second,
        );
    } else {
        let code = generated(commands, index, arg_count, var_count, script_start, first, n)->Ok_0.code;
        lemma_alike_same(code, Seq::<JumpFixup>::empty());
    }
}

/// No jump among the first `n` covers byte `i`.
pub open spec fn untouched(jumps: Seq<JumpFixup>, n: nat, i: int) -> bool {
    forall|k: int| 0 <= k < n ==> !((#[trigger] jumps[k]).at <= i < jumps[k].at + jump_length(jumps[k].kind))
}

/// Resolving the same jumps in two codes of one length leaves them
/// different only where they were different, and changes no byte that no
/// jump covers.
proof fn lemma_resolved_elsewhere(c: Seq<u8>, d: Seq<u8>, locations: Map<u32, usize>, jumps: Seq<JumpFixup>, n: nat)
    requires
        c.len() == d.len(),
        n <= jumps.len(),
        resolved(c, locations, jumps, n) is Ok,
        resolved(d, locations, jumps, n) is Ok,
    ensures
        ({
            let x = resolved(c, locations, jumps, n)->Ok_0;
            let y = resolved(d, locations, jumps, n)->Ok_0;
            &&& x.len() == c.len()
            &&& y.len() == c.len()
            &&& forall|i: int| 0 <= i < c.len() && #[trigger] x[i] != y[i] ==> c[i] != d[i]
            &&& forall|i: int| 0 <= i < c.len() && untouched(jumps, n, i) ==> #[trigger] x[i] == c[i] && y[i] == d[i]
        }),
    decreases n,
{
    if n > 0 {
        lemma_resolved_elsewhere(c, d, locations, jumps, (n - 1) as nat);
        let before1 = resolved(c, locations, jumps, (n - 1) as nat)->Ok_0;
        let before2 = resolved(d, locations, jumps, (n - 1) as nat)->Ok_0;
        let j = jumps[n - 1];
        lemma_patched_jump(before1, locations, j);
        lemma_patched_jump(before2, locations, j);
        let x = resolved(c, locations, jumps, n)->Ok_0;
        let y = resolved(d, locations, jumps, n)->Ok_0;
        let start = j.at as int;
        let end = j.at + jump_length(j.kind);
        assert(x.subrange(start, end) == y.subrange(start, end));
        assert forall|i: int| 0 <= i < c.len() && #[trigger] x[i] != y[i] implies c[i] != d[i] by {
            if start <= i < end {
                assert(x.subrange(start, end)[i - start] == x[i]);
                assert(y.subrange(start, end)[i - start] == y[i]);
            } else {
                assert(x[i] == before1[i] && y[i] == before2[i]);
            }
        }
        assert forall|i: int| 0 <= i < c.len() && untouched(jumps, n, i) implies #[trigger] x[i] == c[i] && y[i]
            == d[i] by {
            assert(!(jumps[n - 1].at <= i < jumps[n - 1].at + jump_length(jumps[n - 1].kind)));
            assert(untouched(jumps, (n - 1) as nat, i));
            assert(x[i] == before1[i] && y[i] == before2[i]);
        }
    }
}

/// A script compiled for two hosts. The calls to link are the same, and
/// the codes have one length and differ only within the immediates of
/// `mov r64, imm64`: the addresses of the host enter the code there and
/// nowhere else.
pub proof fn lemma_compiled_script_elsewhere(script: Script, index: usize, first: HostEnv, second: HostEnv)
    requires
        compiled_script(script, index, first) is Ok,
        compiled_script(script, index, second) is Ok,
        compiled_script(script, index, first)->Ok_0.code.len() <= usize::MAX,
    ensures
        compiled_script(script, index, first)->Ok_0.relocs == compiled_script(script, index, second)->Ok_0.relocs,
        alike(compiled_script(script, index, first)->Ok_0.code, compiled_script(script, index, second)->Ok_0.code),
{
    let commands = script.commands@;
    let (arg_count, var_count) = script_header(commands)->Some_0;
    let n = (commands.len() - 1) as nat;
    let s = generated(commands, index, arg_count, var_count, script.bounds.0, first, n)->Ok_0;
    let t = generated(commands, index, arg_count, var_count, script.bounds.0, second, n)->Ok_0;
    let f1 = flushed(s)->Ok_0;
    let f2 = flushed(t)->Ok_0;
    let c = closed(f1, commands, var_count)->Ok_0;
    let d = closed(f2, commands, var_count)->Ok_0;
    let a = compiled_script(script, index, first)->Ok_0;
    let b = compiled_script(script, index, second)->Ok_0;
    assert(Ok::<Seq<u8>, CompileError>(a.code) == resolved(c, s.locations, s.jumps, s.jumps.len()));
    crate::script::lemma_resolved_length(c, s.locations, s.jumps, s.jumps.len());
    assert(s.code.len() <= f1.len() <= c.len());
    lemma_generated_elsewhere(commands, index, arg_count, var_count, script.bounds.0, first, second, n);
    if s.pending is Some {
        let push = seq![push_immediate(s.pending->Some_0.0)];
        lemma_akin_same(push);
        lemma_appended_elsewhere(s.code, t.code, push, push, s.pending->Some_0.1, s.jumps);
    }
    assert(alike_clear(f1, f2, s.jumps) && jumps_in_order(s.jumps, f1.len() as int));
    if commands.len() == 1 {
        let teardown = crate::asm_helper::frame_teardown(var_count as u32);
        lemma_akin_same(teardown);
        lemma_appended_elsewhere(f1, f2, teardown, teardown, commands[0].position, s.jumps);
    }
    assert(alike_clear(c, d, s.jumps));
    assert(Ok::<Seq<u8>, CompileError>(b.code) == resolved(d, s.locations, s.jumps, s.jumps.len()));
    lemma_resolved_elsewhere(c, d, s.locations, s.jumps, s.jumps.len());
    let none = Seq::<JumpFixup>::empty();
    assert forall|x: int| 0 <= x < a.code.len() && #[trigger] a.code[x] != b.code[x] implies exists|w: int|
        #[trigger] clear_field(a.code, b.code, none, w, x) by {
        assert(c[x] != d[x]);
        let w = choose|w: int| #[trigger] clear_field(c, d, s.jumps, w, x);
        assert(untouched(s.jumps, s.jumps.len(), w - 2));
        assert(untouched(s.jumps, s.jumps.len(), w - 1));
        assert(a.code[w - 2] == c[w - 2] && a.code[w - 1] == c[w - 1]);
        assert(b.code[w - 2] == d[w - 2] && b.code[w - 1] == d[w - 1]);
        assert(clear_field(a.code, b.code, none, w, x));
    }
}

proof fn lemma_pending_elsewhere(a: Seq<ScriptImage>, b: Seq<ScriptImage>)
    requires
        a.len() == b.len(),
        forall|i: int| 0 <= i < a.len() ==> (#[trigger] a[i]).relocs == b[i].relocs,
    ensures
        pending_calls(a) == pending_calls(b),
    decreases a.len(),
{
    if a.len() > 0 {
        assert forall|i: int| 0 <= i < a.drop_last().len() implies (#[trigger] a.drop_last()[i]).relocs
            == b.drop_last()[i].relocs by {
            assert(a.drop_last()[i] == a[i] && b.drop_last()[i] == b[i]);
        }
        lemma_pending_elsewhere(a.drop_last(), b.drop_last());
        assert(a[a.len() - 1].relocs == b[a.len() - 1].relocs);
    }
}

/// The images of one script in two compilations, and what holds of them.
proof fn lemma_image_elsewhere(scripts: Seq<Script>, first: HostEnv, second: HostEnv, i: int)
    requires
        scripts.len() <= usize::MAX,
        script_images(scripts, first, scripts.len()) is Ok,
        script_images(scripts, second, scripts.len()) is Ok,
        0 <= i < scripts.len(),
    ensures
        ({
            let a = script_images(scripts, first, scripts.len())->Ok_0[i];
            let b = script_images(scripts, second, scripts.len())->Ok_0[i];
            &&& script_images(scripts, first, scripts.len())->Ok_0.len() == scripts.len()
            &&& script_images(scripts, second, scripts.len())->Ok_0.len() == scripts.len()
            &&& a.relocs == b.relocs
            &&& alike(region_image(a.code), region_image(b.code))
        }),
{
    lemma_script_images(scripts, first, scripts.len());
    lemma_script_images(scripts, second, scripts.len());
    let a = script_images(scripts, first, scripts.len())->Ok_0[i];
    let b = script_images(scripts, second, scripts.len())->Ok_0[i];
    assert(compiled_script(scripts[i], i as usize, first) == Ok::<ScriptImage, CompileError>(a));
    assert(compiled_script(scripts[i], i as usize, second) == Ok::<ScriptImage, CompileError>(b));
    lemma_compiled_script_elsewhere(scripts[i], i as usize, first, second);
    let none = Seq::<JumpFixup>::empty();
    let rest = crate::memory::fill(crate::memory::pages_for(a.code.len() as int) * crate::memory::PAGE_SIZE
        - a.code.len());
    lemma_alike_same(rest, none);
    lemma_alike_grown(a.code, b.code, rest, rest, none);
}

proof fn lemma_relocs_elsewhere(scripts: Seq<Script>, first: HostEnv, second: HostEnv)
    requires
        scripts.len() <= usize::MAX,
        script_images(scripts, first, scripts.len()) is Ok,
        script_images(scripts, second, scripts.len()) is Ok,
    ensures
        script_images(scripts, first, scripts.len())->Ok_0.len() == scripts.len(),
        script_images(scripts, second, scripts.len())->Ok_0.len() == scripts.len(),
        pending_calls(script_images(scripts, first, scripts.len())->Ok_0) == pending_calls(
            script_images(scripts, second, scripts.len())->Ok_0,
        ),
{
    let a = script_images(scripts, first, scripts.len())->Ok_0;
    let b = script_images(scripts, second, scripts.len())->Ok_0;
    lemma_script_images(scripts, first, scripts.len());
    lemma_script_images(scripts, second, scripts.len());
    assert forall|i: int| 0 <= i < a.len() implies (#[trigger] a[i]).relocs == b[i].relocs by {
        lemma_image_elsewhere(scripts, first, second, i);
    }
    lemma_pending_elsewhere(a, b);
}

/// A program compiled for two hosts: both compilations have as many
/// regions as the program has scripts, the same string section, the same
/// calls to link and the same entrypoint.
pub proof fn lemma_compile_elsewhere(file: MscsbFile, first: HostEnv, second: HostEnv)
    requires
        compiled_program(file, first) is Ok,
        compiled_program(file, second) is Ok,
    ensures
        ({
            let p = compiled_program(file, first)->Ok_0;
            let q = compiled_program(file, second)->Ok_0;
            &&& p.regions.len() == file.scripts@.len()
            &&& q.regions.len() == file.scripts@.len()
            &&& p.string_section == q.string_section
            &&& p.string_offsets == q.string_offsets
            &&& p.entrypoint_index == q.entrypoint_index
            &&& p.calls == q.calls
        }),
{
    let scripts = file.scripts@;
    assert(scripts.len() == file.scripts.len());
    lemma_relocs_elsewhere(scripts, first, second);
    let p = compiled_program(file, first)->Ok_0;
    let q = compiled_program(file, second)->Ok_0;
    assert(p.string_offsets =~= q.string_offsets);
}

/// One region of a program compiled for two hosts. It has the same size
/// in both compilations, and a byte of it that is not the same in both
/// lies, in both, within the immediate of a `mov r64, imm64`: the
/// addresses of the host enter the code there and nowhere else.
pub proof fn lemma_region_elsewhere(file: MscsbFile, first: HostEnv, second: HostEnv, i: int)
    requires
        compiled_program(file, first) is Ok,
        compiled_program(file, second) is Ok,
        0 <= i < file.scripts@.len(),
    ensures
        alike(compiled_program(file, first)->Ok_0.regions[i].bytes, compiled_program(file, second)->Ok_0.regions[i].bytes),
{
    let scripts = file.scripts@;
    assert(scripts.len() == file.scripts.len());
    let p = compiled_program(file, first)->Ok_0;
    let q = compiled_program(file, second)->Ok_0;
    let a = script_images(scripts, first, scripts.len())->Ok_0;
    let b = script_images(scripts, second, scripts.len())->Ok_0;
    lemma_image_elsewhere(scripts, first, second, i);
    assert(p.regions[i] == fresh_region(a[i]));
    assert(q.regions[i] == fresh_region(b[i]));
}

} // verus!
