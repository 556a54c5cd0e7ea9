//! A model of the processor as far as calls and frames go: the stack
//! pointer, the frame pointer, the registers that carry arguments, and
//! memory. Against it a call's listing and a script's prologue are shown to
//! hand every argument from the caller's stack to the callee's local slots,
//! a script of `Begin` alone to return with the caller's stack as it was,
//! and a call into the host to find the stack pointer on a 16-byte boundary.
//!
//! The model gives a meaning to listings, not to bytes: that the assembled
//! bytes decode to the instructions of the listing is not part of it.

use vstd::prelude::*;
use x86asm::{Mnemonic, Operand, OperandSize, Reg};
use crate::listing::{Item, RawCode};
use crate::lower::{
    aligned_call, arg_pops, arg_regs, arg_regs_32, call_setup, call_transfer, inner_swaps, outer_moves,
    overflow_moves, stack_adjust,
};
use crate::script::prologue;
use crate::asm_helper::{frame_setup, frame_teardown, padded_locals};
use crate::stack::{sign_extend_32, sign_extend_8};

verus! {

/// The state that the model follows. Memory is a map from the address of a
/// dword to its value; a qword is two dwords, the low one first.
pub ghost struct Machine {
    pub rsp: int,
    pub rbp: int,
    /// `RAX`, the six argument registers, `R10` and `R15`, by their 64-bit
    /// names.
    pub regs: Map<Reg, u64>,
    pub mem: Map<int, u32>,
}

/// One past the last address.
pub open spec fn address_space() -> int {
    0x1_0000_0000_0000_0000
}

pub open spec fn low(v: u64) -> u32 {
    (v % 0x1_0000_0000) as u32
}

pub open spec fn high(v: u64) -> u32 {
    (v / 0x1_0000_0000) as u32
}

/// The qword at `a`.
pub open spec fn qword(mem: Map<int, u32>, a: int) -> u64 {
    (mem[a] + mem[a + 4] * 0x1_0000_0000) as u64
}

/// Memory after `v` was written to the qword at `a`.
pub open spec fn stored(mem: Map<int, u32>, a: int, v: u64) -> Map<int, u32> {
    mem.insert(a, low(v)).insert(a + 4, high(v))
}

/// The qword `i` slots above the stack pointer.
pub open spec fn stack_word(m: Machine, i: int) -> u64 {
    qword(m.mem, m.rsp + 8 * i)
}

/// The dword of local `k`.
pub open spec fn local_word(m: Machine, k: int) -> u32 {
    m.mem[m.rbp + 4 * k]
}

/// An access of `bytes` bytes at `a` that the model follows: within the
/// address space and on a dword boundary.
pub open spec fn accessible(a: int, bytes: int) -> bool {
    0 <= a && a + bytes <= address_space() && a % 4 == 0
}

/// The registers whose 64 bits the model holds.
pub open spec fn held(r: Reg) -> bool {
    r == Reg::RAX || r == Reg::RDI || r == Reg::RSI || r == Reg::RDX || r == Reg::RCX || r == Reg::R8 || r
        == Reg::R9 || r == Reg::R10 || r == Reg::R15
}

/// The 64-bit register of which `r` is the low half.
pub open spec fn widened(r: Reg) -> Option<Reg> {
    if r == Reg::EAX {
        Some(Reg::RAX)
    } else if r == Reg::EDI {
        Some(Reg::RDI)
    } else if r == Reg::ESI {
        Some(Reg::RSI)
    } else if r == Reg::EDX {
        Some(Reg::RDX)
    } else if r == Reg::ECX {
        Some(Reg::RCX)
    } else if r == Reg::R8D {
        Some(Reg::R8)
    } else if r == Reg::R9D {
        Some(Reg::R9)
    } else {
        None
    }
}

/// A displacement as the signed number that the processor adds.
pub open spec fn signed(d: u64) -> int {
    if d < 0x8000_0000_0000_0000 {
        d as int
    } else {
        d - 0x1_0000_0000_0000_0000
    }
}

/// The address and width that a memory operand names, for the two bases
/// that the model follows.
pub open spec fn effective(m: Machine, op: Operand) -> Option<(int, OperandSize)> {
    match op {
        Operand::Indirect(base, Some(size), None) => if base == Reg::RSP {
            Some((m.rsp, size))
        } else if base == Reg::RBP {
            Some((m.rbp, size))
        } else {
            None
        },
        Operand::IndirectDisplaced(base, d, Some(size), None) => if base == Reg::RSP {
            Some((m.rsp + signed(d), size))
        } else if base == Reg::RBP {
            Some((m.rbp + signed(d), size))
        } else {
            None
        },
        _ => None,
    }
}

/// The sign-extended immediate of an addition to the stack pointer.
pub open spec fn immediate(op: Operand) -> Option<int> {
    match op {
        Operand::Literal8(v) => Some(sign_extend_8(v)),
        Operand::Literal32(v) => Some(sign_extend_32(v)),
        _ => None,
    }
}

/// What an addition to the stack pointer adds: an immediate, or the value
/// of a register that the model holds.
pub open spec fn amount(m: Machine, op: Operand) -> Option<int> {
    match op {
        Operand::Direct(r) => if held(r) {
            Some(m.regs[r] as int)
        } else {
            None
        },
        _ => immediate(op),
    }
}

/// `and r, imm8` with an immediate that sign extension leaves as it is.
pub open spec fn masked(m: Machine, r: Reg, src: Operand) -> Option<Machine> {
    match src {
        Operand::Literal8(v) => if held(r) && v < 0x80 {
            Some(Machine { regs: m.regs.insert(r, m.regs[r] & (v as u64)), ..m })
        } else {
            None
        },
        _ => None,
    }
}

/// The stack pointer moved by `delta`, while it stays in the address space.
pub open spec fn moved(m: Machine, delta: int) -> Option<Machine> {
    if 0 <= m.rsp + delta < address_space() {
        Some(Machine { rsp: m.rsp + delta, ..m })
    } else {
        None
    }
}

/// `push r`, for the frame pointer and the registers that the model holds.
pub open spec fn pushed(m: Machine, r: Reg) -> Option<Machine> {
    let v = if r == Reg::RBP {
        m.rbp as u64
    } else {
        m.regs[r]
    };
    if (r == Reg::RBP || held(r)) && accessible(m.rsp - 8, 8) {
        Some(Machine { rsp: m.rsp - 8, mem: stored(m.mem, m.rsp - 8, v), ..m })
    } else {
        None
    }
}

/// `pop r`.
pub open spec fn popped(m: Machine, r: Reg) -> Option<Machine> {
    if accessible(m.rsp, 8) && m.rsp + 8 < address_space() {
        if r == Reg::RBP {
            Some(Machine { rsp: m.rsp + 8, rbp: qword(m.mem, m.rsp) as int, ..m })
        } else if held(r) {
            Some(Machine { rsp: m.rsp + 8, regs: m.regs.insert(r, qword(m.mem, m.rsp)), ..m })
        } else {
            None
        }
    } else {
        None
    }
}

/// `ret`: the address to return to leaves the stack.
pub open spec fn returned(m: Machine) -> Option<Machine> {
    if accessible(m.rsp, 8) && m.rsp + 8 < address_space() {
        Some(Machine { rsp: m.rsp + 8, ..m })
    } else {
        None
    }
}

/// `mov r, [..]`: a qword into a 64-bit register, or a dword into the low
/// half of one, which clears the high half.
pub open spec fn loaded(m: Machine, r: Reg, src: Operand) -> Option<Machine> {
    match effective(m, src) {
        Some((a, size)) => if size == OperandSize::Qword && held(r) && accessible(a, 8) {
            Some(Machine { regs: m.regs.insert(r, qword(m.mem, a)), ..m })
        } else if size == OperandSize::Dword && accessible(a, 4) {
            match widened(r) {
                Some(w) => Some(Machine { regs: m.regs.insert(w, m.mem[a] as u64), ..m }),
                None => None,
            }
        } else {
            None
        },
        None => None,
    }
}

/// `mov [..], r`.
pub open spec fn saved(m: Machine, dst: Operand, r: Reg) -> Option<Machine> {
    match effective(m, dst) {
        Some((a, size)) => if size == OperandSize::Qword && held(r) && accessible(a, 8) {
            Some(Machine { mem: stored(m.mem, a, m.regs[r]), ..m })
        } else if size == OperandSize::Dword && accessible(a, 4) {
            match widened(r) {
                Some(w) => Some(Machine { mem: m.mem.insert(a, low(m.regs[w])), ..m }),
                None => None,
            }
        } else {
            None
        },
        None => None,
    }
}

/// The value that the address slot holds before linking.
pub open spec fn unlinked() -> u64 {
    0xf8ff_ffff_ffff_fff8
}

pub open spec fn copied(m: Machine, dst: Operand, src: Operand) -> Option<Machine> {
    match dst {
        Operand::Direct(d) => match src {
            Operand::Direct(s) => if d == Reg::RBP && s == Reg::RSP {
                Some(Machine { rbp: m.rsp, ..m })
            } else if d == Reg::RSP && s == Reg::RBP && 0 <= m.rbp < address_space() {
                Some(Machine { rsp: m.rbp, ..m })
            } else if held(d) && s == Reg::RSP {
                Some(Machine { regs: m.regs.insert(d, m.rsp as u64), ..m })
            } else {
                None
            },
            _ => loaded(m, d, src),
        },
        _ => match src {
            Operand::Direct(s) => saved(m, dst, s),
            _ => None,
        },
    }
}

/// The state after one entry of a listing, for the instructions of calls
/// and frames; `None` for every other, and where the model does not follow.
#[verifier::opaque]
pub open spec fn step(m: Machine, item: Item) -> Option<Machine> {
    match item {
        Item::Op1(op, a) => match a {
            Operand::Direct(r) => if op == Mnemonic::PUSH {
                pushed(m, r)
            } else if op == Mnemonic::POP {
                popped(m, r)
            } else {
                None
            },
            _ => None,
        },
        Item::Op2(op, dst, src) => if op == Mnemonic::MOV {
            copied(m, dst, src)
        } else if dst == Operand::Direct(Reg::RSP) && op == Mnemonic::ADD {
            match amount(m, src) {
                Some(v) => moved(m, v),
                None => None,
            }
        } else if dst == Operand::Direct(Reg::RSP) && op == Mnemonic::SUB {
            match amount(m, src) {
                Some(v) => moved(m, -v),
                None => None,
            }
        } else if op == Mnemonic::AND {
            match dst {
                Operand::Direct(r) => masked(m, r, src),
                _ => None,
            }
        } else {
            None
        },
        Item::Raw(c) => if c == RawCode::MovRaxSlot {
            Some(Machine { regs: m.regs.insert(Reg::RAX, unlinked()), ..m })
        } else {
            None
        },
        Item::Op0(op) => if op == Mnemonic::RET {
            returned(m)
        } else {
            None
        },
    }
}

/// The state after a whole listing.
pub open spec fn run(m: Option<Machine>, items: Seq<Item>) -> Option<Machine>
    decreases items.len(),
{
    if items.len() == 0 {
        m
    } else {
        match run(m, items.drop_last()) {
            Some(s) => step(s, items.last()),
            None => None,
        }
    }
}

/// The state on entry to the callee: the call has pushed the address to
/// return to.
pub open spec fn entered(m: Machine, return_address: u64) -> Machine {
    Machine { rsp: m.rsp - 8, mem: stored(m.mem, m.rsp - 8, return_address), ..m }
}

proof fn lemma_step_push(m: Machine, r: Reg)
    ensures
        step(m, Item::Op1(Mnemonic::PUSH, Operand::Direct(r))) == pushed(m, r),
{
    reveal(step);
}

proof fn lemma_step_pop(m: Machine, r: Reg)
    ensures
        step(m, Item::Op1(Mnemonic::POP, Operand::Direct(r))) == popped(m, r),
{
    reveal(step);
}

proof fn lemma_step_mov(m: Machine, dst: Operand, src: Operand)
    ensures
        step(m, Item::Op2(Mnemonic::MOV, dst, src)) == copied(m, dst, src),
{
    reveal(step);
}

proof fn lemma_step_add(m: Machine, src: Operand)
    ensures
        step(m, Item::Op2(Mnemonic::ADD, Operand::Direct(Reg::RSP), src)) == (match amount(m, src) {
            Some(v) => moved(m, v),
            None => None,
        }),
{
    reveal(step);
}

proof fn lemma_step_sub(m: Machine, src: Operand)
    ensures
        step(m, Item::Op2(Mnemonic::SUB, Operand::Direct(Reg::RSP), src)) == (match amount(m, src) {
            Some(v) => moved(m, -v),
            None => None,
        }),
{
    reveal(step);
}

proof fn lemma_step_and(m: Machine, r: Reg, src: Operand)
    ensures
        step(m, Item::Op2(Mnemonic::AND, Operand::Direct(r), src)) == masked(m, r, src),
{
    reveal(step);
}

proof fn lemma_step_ret(m: Machine)
    ensures
        step(m, Item::Op0(Mnemonic::RET)) == returned(m),
{
    reveal(step);
}

proof fn lemma_step_slot(m: Machine)
    ensures
        step(m, Item::Raw(RawCode::MovRaxSlot)) == Some(Machine { regs: m.regs.insert(Reg::RAX, unlinked()), ..m }),
{
    reveal(step);
}

proof fn lemma_run_concat(m: Option<Machine>, a: Seq<Item>, b: Seq<Item>)
    ensures
        run(m, a + b) == run(run(m, a), b),
    decreases b.len(),
{
    if b.len() == 0 {
        assert(a + b =~= a);
    } else {
        assert((a + b).drop_last() =~= a + b.drop_last());
        lemma_run_concat(m, a, b.drop_last());
    }
}

proof fn lemma_run_one(m: Machine, item: Item)
    ensures
        run(Some(m), seq![item]) == step(m, item),
{
    reveal_with_fuel(run, 2);
    assert(seq![item].drop_last() =~= Seq::<Item>::empty());
}

proof fn lemma_run_more(m: Option<Machine>, items: Seq<Item>, n: int)
    requires
        0 <= n < items.len(),
    ensures
        run(m, items.take(n + 1)) == (match run(m, items.take(n)) {
            Some(s) => step(s, items[n]),
            None => None,
        }),
{
    assert(items.take(n + 1).drop_last() =~= items.take(n));
}

proof fn lemma_halves(v: u64)
    ensures
        low(v) + high(v) * 0x1_0000_0000 == v,
{
}

proof fn lemma_stored(mem: Map<int, u32>, a: int, v: u64)
    ensures
        qword(stored(mem, a, v), a) == v,
        forall|b: int| b != a && b != a + 4 ==> #[trigger] stored(mem, a, v)[b] == mem[b],
{
    lemma_halves(v);
}

proof fn lemma_arg_regs(k: int)
    requires
        0 <= k < 6,
    ensures
        held(arg_regs()[k]),
        arg_regs()[k] != Reg::RAX,
        arg_regs()[k] != Reg::R10,
        widened(arg_regs_32()[k]) == Some(arg_regs()[k]),
        forall|j: int| 0 <= j < 6 && j != k ==> arg_regs()[j] != arg_regs()[k],
{
    assert(arg_regs()[0] == Reg::RDI && arg_regs()[1] == Reg::RSI && arg_regs()[2] == Reg::RDX);
    assert(arg_regs()[3] == Reg::RCX && arg_regs()[4] == Reg::R8 && arg_regs()[5] == Reg::R9);
    assert(arg_regs_32()[0] == Reg::EDI && arg_regs_32()[1] == Reg::ESI && arg_regs_32()[2] == Reg::EDX);
    assert(arg_regs_32()[3] == Reg::ECX && arg_regs_32()[4] == Reg::R8D && arg_regs_32()[5] == Reg::R9D);
}

/// The state after the first `n` of `count` pops into argument registers:
/// register `count - 1 - i` holds what lay `i` slots above the stack pointer.
#[verifier::rlimit(40)]
proof fn lemma_arg_pops(m: Machine, count: int, n: int)
    requires
        0 <= n <= count <= 6,
        m.rsp % 4 == 0,
        0 <= m.rsp,
        m.rsp + 8 * count < address_space(),
    ensures
        run(Some(m), arg_pops(count).take(n)) is Some,
        ({
            let s = run(Some(m), arg_pops(count).take(n))->Some_0;
            &&& s.rsp == m.rsp + 8 * n
            &&& s.rbp == m.rbp
            &&& s.mem == m.mem
            &&& forall|i: int| 0 <= i < n ==> s.regs[arg_regs()[count - 1 - i]] == #[trigger] stack_word(m, i)
        }),
    decreases n,
{
    if n == 0 {
        assert(arg_pops(count).take(0) =~= Seq::<Item>::empty());
    } else {
        lemma_arg_pops(m, count, n - 1);
        lemma_run_more(Some(m), arg_pops(count), n - 1);
        lemma_arg_regs(count - n);
        let before = run(Some(m), arg_pops(count).take(n - 1))->Some_0;
        assert(arg_pops(count)[n - 1] == Item::Op1(Mnemonic::POP, Operand::Direct(arg_regs()[count - n])));
        lemma_step_pop(before, arg_regs()[count - n]);
        let s = run(Some(m), arg_pops(count).take(n))->Some_0;
        assert forall|i: int| 0 <= i < n implies s.regs[arg_regs()[count - 1 - i]] == #[trigger] stack_word(m, i) by {
            if i < n - 1 {
                assert(arg_regs()[count - 1 - i] != arg_regs()[count - n]);
            }
        }
    }
}

/// The displacement of an overflow move's source as a signed number.
proof fn lemma_overflow_source(i: int)
    requires
        0 <= i < 6,
    ensures
        signed(crate::lower::overflow_source(i)) == 8 * i - 48,
        crate::lower::overflow_source(i) != 0,
{
}

spec fn outer_part(over: int) -> Seq<Item> {
    Seq::new((2 * outer_moves(over)) as nat, |j: int| crate::lower::overflow_move(over, j))
}

spec fn swap_part(over: int) -> Seq<Item> {
    Seq::new((4 * inner_swaps(over)) as nat, |j: int| crate::lower::overflow_swap(over, j))
}

/// The state after the first `n` moves into the outbound area: slot `j` of
/// the area holds what lay `over - 7 - j` slots from the stack pointer, and
/// nothing outside the filled part of the area has changed.
#[verifier::rlimit(40)]
proof fn lemma_outer_moves(m: Machine, over: int, n: int)
    requires
        1 <= over < 250,
        0 <= n <= outer_moves(over),
        m.rsp % 4 == 0,
        48 <= m.rsp,
        m.rsp + 8 * over <= address_space(),
    ensures
        run(Some(m), outer_part(over).take(2 * n)) is Some,
        ({
            let s = run(Some(m), outer_part(over).take(2 * n))->Some_0;
            &&& s.rsp == m.rsp
            &&& s.rbp == m.rbp
            &&& forall|r: Reg| r != Reg::RAX ==> #[trigger] s.regs[r] == m.regs[r]
            &&& forall|a: int|
                a < m.rsp + 8 * (over - n) || a >= m.rsp + 8 * over ==> #[trigger] s.mem[a] == m.mem[a]
            &&& forall|j: int| over - n <= j < over ==> #[trigger] stack_word(s, j) == stack_word(m, over - 7 - j)
        }),
    decreases n,
{
    let moves = outer_part(over);
    if n == 0 {
        assert(moves.take(0) =~= Seq::<Item>::empty());
    } else {
        let i = n - 1;
        lemma_outer_moves(m, over, i);
        lemma_run_more(Some(m), moves, 2 * i);
        lemma_run_more(Some(m), moves, 2 * i + 1);
        lemma_overflow_source(i);
        assert((2 * i) % 2 == 0 && (2 * i) / 2 == i);
        assert((2 * i + 1) % 2 == 1 && (2 * i + 1) / 2 == i);
        let s0 = run(Some(m), moves.take(2 * i))->Some_0;
        let from = m.rsp + 8 * i - 48;
        let to = m.rsp + 8 * (over - n);
        let source = crate::into_operand::displaced(Reg::RSP, crate::lower::overflow_source(i), OperandSize::Qword);
        let target = crate::into_operand::displaced(Reg::RSP, (8 * (over - 1 - i)) as u64, OperandSize::Qword);
        assert(moves[2 * i] == Item::Op2(Mnemonic::MOV, Operand::Direct(Reg::RAX), source));
        assert(moves[2 * i + 1] == Item::Op2(Mnemonic::MOV, target, Operand::Direct(Reg::RAX)));
        assert(effective(s0, source) == Some((from, OperandSize::Qword)));
        let s1 = Machine { regs: s0.regs.insert(Reg::RAX, qword(s0.mem, from)), ..s0 };
        lemma_step_mov(s0, Operand::Direct(Reg::RAX), source);
        assert(step(s0, moves[2 * i]) == Some(s1));
        assert(effective(s1, target) == Some((to, OperandSize::Qword)));
        let s2 = Machine { mem: stored(s1.mem, to, s1.regs[Reg::RAX]), ..s1 };
        lemma_step_mov(s1, target, Operand::Direct(Reg::RAX));
        assert(step(s1, moves[2 * i + 1]) == Some(s2));
        assert(run(Some(m), moves.take(2 * n)) == Some(s2));
        lemma_stored(s1.mem, to, s1.regs[Reg::RAX]);
        assert(s0.mem[from] == m.mem[from] && s0.mem[from + 4] == m.mem[from + 4]);
        assert forall|j: int| over - n <= j < over implies #[trigger] stack_word(s2, j) == stack_word(
            m,
            over - 7 - j,
        ) by {
            if j > over - n {
                assert(stack_word(s0, j) == stack_word(m, over - 7 - j));
                assert(s2.mem[m.rsp + 8 * j] == s0.mem[m.rsp + 8 * j]);
                assert(s2.mem[m.rsp + 8 * j + 4] == s0.mem[m.rsp + 8 * j + 4]);
            }
        }
    }
}

/// The state after the first `p` exchanges: the `p` slots at either end of
/// the first `over - 6` slots of the outbound area hold what lay at the
/// slot mirrored within that part, and nothing else has changed.
#[verifier::rlimit(40)]
proof fn lemma_inner_swaps(m: Machine, over: int, p: int)
    requires
        6 < over < 250,
        0 <= p <= inner_swaps(over),
        m.rsp % 4 == 0,
        0 <= m.rsp,
        m.rsp + 8 * over <= address_space(),
    ensures
        run(Some(m), swap_part(over).take(4 * p)) is Some,
        ({
            let s = run(Some(m), swap_part(over).take(4 * p))->Some_0;
            &&& s.rsp == m.rsp
            &&& s.rbp == m.rbp
            &&& forall|r: Reg| r != Reg::RAX && r != Reg::R10 ==> #[trigger] s.regs[r] == m.regs[r]
            &&& forall|a: int|
                (a < m.rsp || a >= m.rsp + 8 * p) && (a < m.rsp + 8 * (over - 6 - p) || a >= m.rsp + 8 * (over
                    - 6)) ==> #[trigger] s.mem[a] == m.mem[a]
            &&& forall|t: int|
                0 <= t < p || over - 6 - p <= t < over - 6 ==> #[trigger] stack_word(s, t) == stack_word(
                    m,
                    over - 7 - t,
                )
        }),
    decreases p,
{
    let swaps = swap_part(over);
    if p == 0 {
        assert(swaps.take(0) =~= Seq::<Item>::empty());
    } else {
        let i = p - 1;
        let q = over - 7 - i;
        lemma_inner_swaps(m, over, i);
        assert((4 * i) % 4 == 0 && (4 * i) / 4 == i);
        assert((4 * i + 1) % 4 == 1 && (4 * i + 1) / 4 == i);
        assert((4 * i + 2) % 4 == 2 && (4 * i + 2) / 4 == i);
        assert((4 * i + 3) % 4 == 3 && (4 * i + 3) / 4 == i);
        assert(i < q);
        let s0 = run(Some(m), swaps.take(4 * i))->Some_0;
        let low_at = m.rsp + 8 * i;
        let high_at = m.rsp + 8 * q;
        let low = crate::into_operand::displaced(Reg::RSP, (8 * i) as u64, OperandSize::Qword);
        let high = crate::into_operand::displaced(Reg::RSP, (8 * q) as u64, OperandSize::Qword);
        assert(swaps[4 * i] == Item::Op2(Mnemonic::MOV, Operand::Direct(Reg::RAX), low));
        assert(swaps[4 * i + 1] == Item::Op2(Mnemonic::MOV, Operand::Direct(Reg::R10), high));
        assert(swaps[4 * i + 2] == Item::Op2(Mnemonic::MOV, high, Operand::Direct(Reg::RAX)));
        assert(swaps[4 * i + 3] == Item::Op2(Mnemonic::MOV, low, Operand::Direct(Reg::R10)));
        let first = qword(s0.mem, low_at);
        let second = qword(s0.mem, high_at);
        let s1 = Machine { regs: s0.regs.insert(Reg::RAX, first), ..s0 };
        let s2 = Machine { regs: s1.regs.insert(Reg::R10, second), ..s1 };
        let s3 = Machine { mem: stored(s2.mem, high_at, first), ..s2 };
        let s4 = Machine { mem: stored(s3.mem, low_at, second), ..s3 };
        assert(effective(s0, low) == Some((low_at, OperandSize::Qword)));
        assert(effective(s0, high) == Some((high_at, OperandSize::Qword)));
        assert(run(Some(m), swaps.take(4 * i + 1)) == Some(s1)) by {
            lemma_run_more(Some(m), swaps, 4 * i);
            lemma_step_mov(s0, Operand::Direct(Reg::RAX), low);
        }
        assert(run(Some(m), swaps.take(4 * i + 2)) == Some(s2)) by {
            lemma_run_more(Some(m), swaps, 4 * i + 1);
            lemma_step_mov(s1, Operand::Direct(Reg::R10), high);
            assert(effective(s1, high) == Some((high_at, OperandSize::Qword)));
        }
        assert(run(Some(m), swaps.take(4 * i + 3)) == Some(s3)) by {
            lemma_run_more(Some(m), swaps, 4 * i + 2);
            lemma_step_mov(s2, high, Operand::Direct(Reg::RAX));
            assert(effective(s2, high) == Some((high_at, OperandSize::Qword)));
        }
        assert(run(Some(m), swaps.take(4 * p)) == Some(s4)) by {
            lemma_run_more(Some(m), swaps, 4 * i + 3);
            lemma_step_mov(s3, low, Operand::Direct(Reg::R10));
            assert(effective(s3, low) == Some((low_at, OperandSize::Qword)));
        }
        lemma_stored(s2.mem, high_at, first);
        lemma_stored(s3.mem, low_at, second);
        assert(first == stack_word(m, i)) by {
            assert(s0.mem[low_at] == m.mem[low_at] && s0.mem[low_at + 4] == m.mem[low_at + 4]);
        }
        assert(second == stack_word(m, q)) by {
            assert(s0.mem[high_at] == m.mem[high_at] && s0.mem[high_at + 4] == m.mem[high_at + 4]);
        }
        assert(stack_word(s4, i) == second);
        assert(stack_word(s4, q) == first) by {
            assert(s4.mem[high_at] == s3.mem[high_at] && s4.mem[high_at + 4] == s3.mem[high_at + 4]);
        }
        assert forall|t: int| 0 <= t < p || over - 6 - p <= t < over - 6 implies #[trigger] stack_word(s4, t)
            == stack_word(m, over - 7 - t) by {
            if t != i && t != q {
                assert(stack_word(s0, t) == stack_word(m, over - 7 - t));
                assert(s4.mem[m.rsp + 8 * t] == s0.mem[m.rsp + 8 * t]);
                assert(s4.mem[m.rsp + 8 * t + 4] == s0.mem[m.rsp + 8 * t + 4]);
            }
        }
    }
}

/// The state after the stack arguments were brought into the outbound
/// area: slot `t` of the area holds what lay `over - 7 - t` slots from the
/// stack pointer before, for every slot of the area.
#[verifier::rlimit(40)]
proof fn lemma_overflow_moves(m: Machine, over: int)
    requires
        1 <= over < 250,
        m.rsp % 4 == 0,
        48 <= m.rsp,
        m.rsp + 8 * over <= address_space(),
    ensures
        run(Some(m), overflow_moves(over)) is Some,
        ({
            let s = run(Some(m), overflow_moves(over))->Some_0;
            &&& s.rsp == m.rsp
            &&& s.rbp == m.rbp
            &&& forall|r: Reg| r != Reg::RAX && r != Reg::R10 ==> #[trigger] s.regs[r] == m.regs[r]
            &&& forall|t: int| 0 <= t < over ==> #[trigger] stack_word(s, t) == stack_word(m, over - 7 - t)
        }),
{
    let outer = outer_moves(over);
    let inner = inner_swaps(over);
    assert(overflow_moves(over) =~= outer_part(over) + swap_part(over));
    lemma_run_concat(Some(m), outer_part(over), swap_part(over));
    lemma_outer_moves(m, over, outer);
    assert(outer_part(over).take(2 * outer) =~= outer_part(over));
    let s1 = run(Some(m), outer_part(over))->Some_0;
    if over > 6 {
        lemma_inner_swaps(s1, over, inner);
        assert(swap_part(over).take(4 * inner) =~= swap_part(over));
        let s2 = run(Some(s1), swap_part(over))->Some_0;
        assert forall|t: int| 0 <= t < over implies #[trigger] stack_word(s2, t) == stack_word(m, over - 7 - t) by {
            if t >= over - 6 {
                assert(stack_word(s1, t) == stack_word(m, over - 7 - t));
                assert(s2.mem[m.rsp + 8 * t] == s1.mem[m.rsp + 8 * t]);
                assert(s2.mem[m.rsp + 8 * t + 4] == s1.mem[m.rsp + 8 * t + 4]);
            } else if t < inner || t >= over - 6 - inner {
                let u = over - 7 - t;
                assert(stack_word(s2, t) == stack_word(s1, u));
                assert(s1.mem[m.rsp + 8 * u] == m.mem[m.rsp + 8 * u]);
                assert(s1.mem[m.rsp + 8 * u + 4] == m.mem[m.rsp + 8 * u + 4]);
            } else {
                assert(over - 7 - t == t);
                assert(s2.mem[m.rsp + 8 * t] == s1.mem[m.rsp + 8 * t]);
                assert(s2.mem[m.rsp + 8 * t + 4] == s1.mem[m.rsp + 8 * t + 4]);
                assert(s1.mem[m.rsp + 8 * t] == m.mem[m.rsp + 8 * t]);
                assert(s1.mem[m.rsp + 8 * t + 4] == m.mem[m.rsp + 8 * t + 4]);
            }
        }
    } else {
        assert(swap_part(over) =~= Seq::<Item>::empty());
    }
}

/// The state at a call's `call` instruction: after the setup and the load
/// of the callee's address.
pub open spec fn at_call(m: Machine, arg_count: u8) -> Option<Machine> {
    run(Some(m), call_setup(arg_count) + seq![Item::Raw(RawCode::MovRaxSlot)])
}

/// The first two entries of a call's transfer are the address slot and the
/// call; the rest is what runs once the callee has returned.
pub open spec fn call_release(arg_count: u8) -> Seq<Item> {
    call_transfer(arg_count).skip(2)
}

/// A call hands its arguments over as the calling convention has it. With
/// the arguments on the stack, the last one on top, the state at the `call`
/// instruction holds the first six in `RDI`, `RSI`, `RDX`, `RCX`, `R8` and
/// `R9`, and argument `k` beyond them at `[RSP + 8 * (k - 6)]`; the stack
/// pointer stands above all of the caller's slots but for the outbound area.
#[verifier::rlimit(40)]
pub proof fn lemma_call_passes_arguments(m: Machine, arg_count: u8, args: Seq<u64>)
    requires
        args.len() == arg_count,
        m.rsp % 4 == 0,
        0 <= m.rsp,
        m.rsp + 8 * arg_count < address_space(),
        forall|k: int| 0 <= k < arg_count ==> stack_word(m, arg_count - 1 - k) == #[trigger] args[k],
    ensures
        at_call(m, arg_count) is Some,
        ({
            let c = at_call(m, arg_count)->Some_0;
            &&& c.rsp == m.rsp + 8 * arg_count - 8 * crate::lower::stack_args(arg_count)
            &&& c.rbp == m.rbp
            &&& forall|k: int| 0 <= k < crate::lower::reg_args(arg_count) ==> c.regs[arg_regs()[k]] == #[trigger] args[k]
            &&& forall|k: int| 6 <= k < arg_count ==> stack_word(c, k - 6) == #[trigger] args[k]
        }),
{
    let over = crate::lower::stack_args(arg_count);
    let slot = seq![Item::Raw(RawCode::MovRaxSlot)];
    lemma_run_concat(Some(m), call_setup(arg_count), slot);
    if over > 0 {
        let lift = seq![Item::Op2(Mnemonic::ADD, Operand::Direct(Reg::RSP), stack_adjust((8 * over) as u32))];
        let drop = seq![Item::Op2(Mnemonic::SUB, Operand::Direct(Reg::RSP), stack_adjust((8 * over) as u32))];
        let pops = arg_pops(6);
        let moves = overflow_moves(over);
        assert(call_setup(arg_count) == lift + pops + drop + moves);
        lemma_run_concat(Some(m), lift + pops + drop, moves);
        lemma_run_concat(Some(m), lift + pops, drop);
        lemma_run_concat(Some(m), lift, pops);
        lemma_run_one(m, lift[0]);
        lemma_step_add(m, stack_adjust((8 * over) as u32));
        assert(immediate(stack_adjust((8 * over) as u32)) == Some(8 * over));
        let m1 = Machine { rsp: m.rsp + 8 * over, ..m };
        assert(run(Some(m), lift) == Some(m1));
        lemma_arg_pops(m1, 6, 6);
        assert(pops.take(6) =~= pops);
        let m2 = run(Some(m1), pops)->Some_0;
        lemma_run_one(m2, drop[0]);
        lemma_step_sub(m2, stack_adjust((8 * over) as u32));
        let m3 = Machine { rsp: m.rsp + 48, ..m2 };
        assert(run(Some(m2), drop) == Some(m3));
        lemma_overflow_moves(m3, over);
        let m4 = run(Some(m3), moves)->Some_0;
        assert(run(Some(m), call_setup(arg_count)) == Some(m4));
        lemma_run_one(m4, slot[0]);
        lemma_step_slot(m4);
        let c = at_call(m, arg_count)->Some_0;
        assert(c == Machine { regs: m4.regs.insert(Reg::RAX, unlinked()), ..m4 });
        assert forall|k: int| 0 <= k < 6 implies c.regs[arg_regs()[k]] == #[trigger] args[k] by {
            lemma_arg_regs(k);
            assert(m2.regs[arg_regs()[6 - 1 - (5 - k)]] == stack_word(m1, 5 - k));
            assert(stack_word(m1, 5 - k) == stack_word(m, arg_count - 1 - k));
        }
        assert forall|k: int| 6 <= k < arg_count implies stack_word(c, k - 6) == #[trigger] args[k] by {
            assert(stack_word(m4, k - 6) == stack_word(m3, over - 7 - (k - 6)));
            assert(m3.mem == m.mem);
            assert(stack_word(m3, over - 7 - (k - 6)) == stack_word(m, arg_count - 1 - k));
        }
    } else {
        let count = crate::lower::reg_args(arg_count);
        let pops = arg_pops(count);
        lemma_arg_pops(m, count, count);
        assert(pops.take(count) =~= pops);
        let m1 = run(Some(m), pops)->Some_0;
        lemma_run_one(m1, slot[0]);
        lemma_step_slot(m1);
        let c = at_call(m, arg_count)->Some_0;
        assert(c == Machine { regs: m1.regs.insert(Reg::RAX, unlinked()), ..m1 });
        assert forall|k: int| 0 <= k < count implies c.regs[arg_regs()[k]] == #[trigger] args[k] by {
            lemma_arg_regs(k);
            assert(m1.regs[arg_regs()[count - 1 - (count - 1 - k)]] == stack_word(m, count - 1 - k));
        }
    }
}

/// Once the callee has returned with the stack pointer as it found it, the
/// rest of the call releases the outbound area: the stack pointer then
/// stands above all of the arguments.
pub proof fn lemma_call_releases(m: Machine, back: Machine, arg_count: u8)
    requires
        0 <= m.rsp,
        m.rsp + 8 * arg_count < address_space(),
        at_call(m, arg_count) is Some,
        back.rsp == at_call(m, arg_count)->Some_0.rsp,
        at_call(m, arg_count)->Some_0.rsp == m.rsp + 8 * arg_count - 8 * crate::lower::stack_args(arg_count),
    ensures
        run(Some(back), call_release(arg_count)) is Some,
        run(Some(back), call_release(arg_count))->Some_0.rsp == m.rsp + 8 * arg_count,
{
    let over = crate::lower::stack_args(arg_count);
    if over > 0 {
        let release = seq![Item::Op2(Mnemonic::ADD, Operand::Direct(Reg::RSP), stack_adjust((8 * over) as u32))];
        assert(call_release(arg_count) =~= release);
        lemma_run_one(back, release[0]);
        lemma_step_add(back, stack_adjust((8 * over) as u32));
        assert(immediate(stack_adjust((8 * over) as u32)) == Some(8 * over));
    } else {
        assert(call_release(arg_count) =~= Seq::<Item>::empty());
    }
}

/// Argument `k` as the callee finds it on entry: the low half of a
/// register, or the dword past the return address and the arguments before
/// it.
pub open spec fn incoming(m: Machine, k: int) -> u32 {
    if k < 6 {
        low(m.regs[arg_regs()[k]])
    } else {
        m.mem[m.rsp + 8 + 8 * (k - 6)]
    }
}

spec fn register_spills(n: int) -> Seq<Item> {
    Seq::new(
        n as nat,
        |i: int| Item::Op2(Mnemonic::MOV, crate::lower::local_slot(i as u16), Operand::Direct(arg_regs_32()[i])),
    )
}

spec fn stack_spills(var_count: u16, n: int) -> Seq<Item> {
    Seq::new((2 * n) as nat, |j: int| crate::script::stack_spill(var_count, j))
}

/// The state after the frame is set up: both pointers stand below the
/// locals, and only the slot of the saved frame pointer has changed.
proof fn lemma_frame_setup(m: Machine, var_count: u16)
    requires
        m.rsp % 4 == 0,
        8 + 4 * padded_locals(var_count as int) <= m.rsp <= address_space(),
    ensures
        run(Some(m), frame_setup(var_count as u32)) is Some,
        ({
            let s = run(Some(m), frame_setup(var_count as u32))->Some_0;
            &&& s.rsp == m.rsp - 8 - 4 * padded_locals(var_count as int)
            &&& s.rbp == s.rsp
            &&& s.regs == m.regs
            &&& forall|a: int| a != m.rsp - 8 && a != m.rsp - 4 ==> #[trigger] s.mem[a] == m.mem[a]
            &&& qword(s.mem, m.rsp - 8) == m.rbp as u64
        }),
{
    let padded = padded_locals(var_count as int);
    let push = seq![Item::Op1(Mnemonic::PUSH, Operand::Direct(Reg::RBP))];
    let sub = seq![Item::Op2(Mnemonic::SUB, Operand::Direct(Reg::RSP), Operand::Literal32((4 * padded) as u32))];
    let set = seq![Item::Op2(Mnemonic::MOV, Operand::Direct(Reg::RBP), Operand::Direct(Reg::RSP))];
    lemma_run_one(m, push[0]);
    lemma_step_push(m, Reg::RBP);
    let m1 = Machine { rsp: m.rsp - 8, mem: stored(m.mem, m.rsp - 8, m.rbp as u64), ..m };
    assert(run(Some(m), push) == Some(m1));
    lemma_stored(m.mem, m.rsp - 8, m.rbp as u64);
    if padded > 0 {
        assert(frame_setup(var_count as u32) == push + sub + set);
        lemma_run_concat(Some(m), push + sub, set);
        lemma_run_concat(Some(m), push, sub);
        lemma_run_one(m1, sub[0]);
        lemma_step_sub(m1, Operand::Literal32((4 * padded) as u32));
        let m2 = Machine { rsp: m1.rsp - 4 * padded, ..m1 };
        assert(run(Some(m1), sub) == Some(m2));
        lemma_run_one(m2, set[0]);
        lemma_step_mov(m2, Operand::Direct(Reg::RBP), Operand::Direct(Reg::RSP));
    } else {
        assert(frame_setup(var_count as u32) =~= push + set);
        lemma_run_concat(Some(m), push, set);
        lemma_run_one(m1, set[0]);
        lemma_step_mov(m1, Operand::Direct(Reg::RBP), Operand::Direct(Reg::RSP));
    }
}

/// The state after the first `n` register arguments were written to their
/// local slots.
#[verifier::rlimit(40)]
proof fn lemma_register_spills(m: Machine, count: int, n: int)
    requires
        0 <= n <= count <= 6,
        m.rbp % 4 == 0,
        0 <= m.rbp,
        m.rbp + 4 * count <= address_space(),
    ensures
        run(Some(m), register_spills(count).take(n)) is Some,
        ({
            let s = run(Some(m), register_spills(count).take(n))->Some_0;
            &&& s.rsp == m.rsp
            &&& s.rbp == m.rbp
            &&& s.regs == m.regs
            &&& forall|a: int| a < m.rbp || a >= m.rbp + 4 * n ==> #[trigger] s.mem[a] == m.mem[a]
            &&& forall|k: int| 0 <= k < n ==> #[trigger] local_word(s, k) == low(m.regs[arg_regs()[k]])
        }),
    decreases n,
{
    let spills = register_spills(count);
    if n == 0 {
        assert(spills.take(0) =~= Seq::<Item>::empty());
    } else {
        let i = n - 1;
        lemma_register_spills(m, count, i);
        lemma_run_more(Some(m), spills, i);
        lemma_arg_regs(i);
        let s0 = run(Some(m), spills.take(i))->Some_0;
        let slot = crate::lower::local_slot(i as u16);
        assert(spills[i] == Item::Op2(Mnemonic::MOV, slot, Operand::Direct(arg_regs_32()[i])));
        assert(effective(s0, slot) == Some((m.rbp + 4 * i, OperandSize::Dword)));
        let s1 = Machine { mem: s0.mem.insert(m.rbp + 4 * i, low(s0.regs[arg_regs()[i]])), ..s0 };
        lemma_step_mov(s0, slot, Operand::Direct(arg_regs_32()[i]));
        assert(step(s0, spills[i]) == Some(s1));
        assert forall|k: int| 0 <= k < n implies #[trigger] local_word(s1, k) == low(m.regs[arg_regs()[k]]) by {
            if k < i {
                assert(local_word(s0, k) == low(m.regs[arg_regs()[k]]));
            }
        }
    }
}

/// The state after the first `n` stack arguments were copied to their
/// local slots, from where the caller left them past the return address.
#[verifier::rlimit(40)]
proof fn lemma_stack_spills(m: Machine, var_count: u16, count: int, n: int)
    requires
        0 <= n <= count,
        count + 6 <= var_count,
        m.rsp == m.rbp,
        m.rsp % 4 == 0,
        0 <= m.rsp,
        m.rsp + 16 + 4 * padded_locals(var_count as int) + 8 * count <= address_space(),
    ensures
        run(Some(m), stack_spills(var_count, count).take(2 * n)) is Some,
        ({
            let s = run(Some(m), stack_spills(var_count, count).take(2 * n))->Some_0;
            &&& s.rsp == m.rsp
            &&& s.rbp == m.rbp
            &&& forall|r: Reg| r != Reg::RAX ==> #[trigger] s.regs[r] == m.regs[r]
            &&& forall|a: int| a < m.rbp + 24 || a >= m.rbp + 24 + 4 * n ==> #[trigger] s.mem[a] == m.mem[a]
            &&& forall|k: int|
                6 <= k < 6 + n ==> #[trigger] local_word(s, k) == m.mem[m.rsp + 16 + 4 * padded_locals(
                    var_count as int,
                ) + 8 * (k - 6)]
        }),
    decreases n,
{
    let spills = stack_spills(var_count, count);
    let padded = padded_locals(var_count as int);
    if n == 0 {
        assert(spills.take(0) =~= Seq::<Item>::empty());
    } else {
        let i = n - 1;
        lemma_stack_spills(m, var_count, count, i);
        lemma_run_more(Some(m), spills, 2 * i);
        lemma_run_more(Some(m), spills, 2 * i + 1);
        assert((2 * i) % 2 == 0 && (2 * i) / 2 == i);
        assert((2 * i + 1) % 2 == 1 && (2 * i + 1) / 2 == i);
        let s0 = run(Some(m), spills.take(2 * i))->Some_0;
        let from = m.rsp + 16 + 4 * padded + 8 * i;
        let to = m.rbp + 4 * (i + 6);
        let source = crate::script::incoming_slot(i, var_count);
        let target = crate::lower::local_slot((i + 6) as u16);
        assert(spills[2 * i] == Item::Op2(Mnemonic::MOV, Operand::Direct(Reg::EAX), source));
        assert(spills[2 * i + 1] == Item::Op2(Mnemonic::MOV, target, Operand::Direct(Reg::EAX)));
        assert(effective(s0, source) == Some((from, OperandSize::Dword)));
        let s1 = Machine { regs: s0.regs.insert(Reg::RAX, s0.mem[from] as u64), ..s0 };
        lemma_step_mov(s0, Operand::Direct(Reg::EAX), source);
        assert(step(s0, spills[2 * i]) == Some(s1));
        assert(effective(s1, target) == Some((to, OperandSize::Dword)));
        let s2 = Machine { mem: s1.mem.insert(to, low(s1.regs[Reg::RAX])), ..s1 };
        lemma_step_mov(s1, target, Operand::Direct(Reg::EAX));
        assert(step(s1, spills[2 * i + 1]) == Some(s2));
        assert(run(Some(m), spills.take(2 * n)) == Some(s2));
        assert(s0.mem[from] == m.mem[from]);
        assert(low(s0.mem[from] as u64) == s0.mem[from]);
        assert forall|k: int| 6 <= k < 6 + n implies #[trigger] local_word(s2, k) == m.mem[m.rsp + 16 + 4 * padded
            + 8 * (k - 6)] by {
            if k < 6 + i {
                assert(local_word(s0, k) == m.mem[m.rsp + 16 + 4 * padded + 8 * (k - 6)]);
            }
        }
    }
}

/// A script's prologue takes its arguments over: once it has run, local
/// slot `k` holds argument `k` as it came in, for each of the script's
/// arguments. The script has a local slot for each argument.
#[verifier::rlimit(40)]
pub proof fn lemma_prologue_takes_arguments(m: Machine, arg_count: u16, var_count: u16)
    requires
        arg_count <= var_count,
        m.rsp % 4 == 0,
        8 + 4 * padded_locals(var_count as int) <= m.rsp <= address_space(),
        arg_count > 6 ==> m.rsp + 8 + 8 * (arg_count - 6) <= address_space(),
    ensures
        run(Some(m), prologue(arg_count, var_count)) is Some,
        ({
            let e = run(Some(m), prologue(arg_count, var_count))->Some_0;
            &&& e.rsp == m.rsp - 8 - 4 * padded_locals(var_count as int)
            &&& e.rbp == e.rsp
            &&& forall|k: int| 0 <= k < arg_count ==> #[trigger] local_word(e, k) == incoming(m, k)
            &&& qword(e.mem, m.rsp - 8) == m.rbp as u64
            &&& forall|a: int| a >= m.rsp ==> #[trigger] e.mem[a] == m.mem[a]
            &&& forall|r: Reg| r != Reg::RAX ==> #[trigger] e.regs[r] == m.regs[r]
        }),
{
    let in_regs: int = if arg_count < 6 {
        arg_count as int
    } else {
        6
    };
    let rest = arg_count - in_regs;
    let frame = frame_setup(var_count as u32);
    let from_regs = register_spills(in_regs);
    let from_stack = stack_spills(var_count, rest);
    assert(prologue(arg_count, var_count) =~= frame + from_regs + from_stack);
    lemma_run_concat(Some(m), frame + from_regs, from_stack);
    lemma_run_concat(Some(m), frame, from_regs);
    lemma_frame_setup(m, var_count);
    let f = run(Some(m), frame)->Some_0;
    lemma_register_spills(f, in_regs, in_regs);
    assert(from_regs.take(in_regs) =~= from_regs);
    let g = run(Some(f), from_regs)->Some_0;
    if rest > 0 {
        lemma_stack_spills(g, var_count, rest, rest);
    } else {
        assert(from_stack.take(0) =~= Seq::<Item>::empty());
    }
    assert(from_stack.take(2 * rest) =~= from_stack);
    let e = run(Some(g), from_stack)->Some_0;
    assert forall|k: int| 0 <= k < arg_count implies #[trigger] local_word(e, k) == incoming(m, k) by {
        if k < 6 {
            assert(local_word(g, k) == low(f.regs[arg_regs()[k]]));
            assert(e.mem[g.rbp + 4 * k] == g.mem[g.rbp + 4 * k]);
        } else {
            let from = g.rsp + 16 + 4 * padded_locals(var_count as int) + 8 * (k - 6);
            assert(local_word(e, k) == g.mem[from]);
            assert(g.mem[from] == f.mem[from]);
            assert(f.mem[from] == m.mem[from]);
        }
    }
}

/// From the caller's stack to the callee's locals. With the arguments of a
/// call on the caller's stack, the last on top, the call's listing followed
/// by the callee's prologue leaves the low dword of argument `k` in the
/// callee's local slot `k`, for every argument. The callee declares as many
/// arguments as the call passes, and a local slot for each.
pub proof fn lemma_arguments_reach_locals(
    m: Machine,
    arg_count: u8,
    var_count: u16,
    args: Seq<u64>,
    return_address: u64,
)
    requires
        arg_count <= var_count,
        args.len() == arg_count,
        m.rsp % 4 == 0,
        16 + 4 * padded_locals(var_count as int) <= m.rsp,
        m.rsp + 8 * arg_count < address_space(),
        forall|k: int| 0 <= k < arg_count ==> stack_word(m, arg_count - 1 - k) == #[trigger] args[k],
    ensures
        at_call(m, arg_count) is Some,
        ({
            let callee = entered(at_call(m, arg_count)->Some_0, return_address);
            let e = run(Some(callee), prologue(arg_count as u16, var_count));
            &&& e is Some
            &&& forall|k: int| 0 <= k < arg_count ==> local_word(e->Some_0, k) == low(#[trigger] args[k])
        }),
{
    lemma_call_passes_arguments(m, arg_count, args);
    let c = at_call(m, arg_count)->Some_0;
    let callee = entered(c, return_address);
    lemma_stored(c.mem, c.rsp - 8, return_address);
    lemma_prologue_takes_arguments(callee, arg_count as u16, var_count);
    let e = run(Some(callee), prologue(arg_count as u16, var_count))->Some_0;
    assert forall|k: int| 0 <= k < arg_count implies local_word(e, k) == low(#[trigger] args[k]) by {
        assert(local_word(e, k) == incoming(callee, k));
        if k >= 6 {
            assert(stack_word(c, k - 6) == args[k]);
            assert(callee.mem[c.rsp + 8 * (k - 6)] == c.mem[c.rsp + 8 * (k - 6)]);
        }
    }
}

/// The frame teardown undoes the frame setup: from a state in which both
/// pointers stand below the locals and the caller's frame pointer lies above
/// them, it returns with that frame pointer restored and the stack pointer
/// past the return address. It writes nothing.
proof fn lemma_frame_teardown(m: Machine, var_count: u16, frame_pointer: int)
    requires
        m.rsp == m.rbp,
        m.rsp % 4 == 0,
        0 <= m.rsp,
        m.rsp + 4 * padded_locals(var_count as int) + 16 < address_space(),
        0 <= frame_pointer < address_space(),
        qword(m.mem, m.rsp + 4 * padded_locals(var_count as int)) == frame_pointer as u64,
    ensures
        run(Some(m), frame_teardown(var_count as u32)) is Some,
        ({
            let s = run(Some(m), frame_teardown(var_count as u32))->Some_0;
            &&& s.rsp == m.rsp + 4 * padded_locals(var_count as int) + 16
            &&& s.rbp == frame_pointer
            &&& s.regs == m.regs
            &&& s.mem == m.mem
        }),
{
    let padded = padded_locals(var_count as int);
    let reset = seq![Item::Op2(Mnemonic::MOV, Operand::Direct(Reg::RSP), Operand::Direct(Reg::RBP))];
    let add = seq![Item::Op2(Mnemonic::ADD, Operand::Direct(Reg::RSP), Operand::Literal32((4 * padded) as u32))];
    let leave = seq![Item::Op1(Mnemonic::POP, Operand::Direct(Reg::RBP)), Item::Op0(Mnemonic::RET)];
    lemma_run_one(m, reset[0]);
    lemma_step_mov(m, Operand::Direct(Reg::RSP), Operand::Direct(Reg::RBP));
    assert(run(Some(m), reset) == Some(m));
    let m1 = Machine { rsp: m.rsp + 4 * padded, ..m };
    let m2 = Machine { rsp: m1.rsp + 8, rbp: frame_pointer, ..m1 };
    let m3 = Machine { rsp: m2.rsp + 8, ..m2 };
    assert(leave.drop_last() =~= seq![leave[0]]);
    lemma_run_one(m1, leave[0]);
    lemma_step_pop(m1, Reg::RBP);
    lemma_step_ret(m2);
    assert(step(m1, leave[0]) == Some(m2));
    assert(step(m2, leave[1]) == Some(m3));
    assert(run(Some(m1), leave) == Some(m3));
    if padded > 0 {
        assert(frame_teardown(var_count as u32) == reset + add + leave);
        lemma_run_concat(Some(m), reset + add, leave);
        lemma_run_concat(Some(m), reset, add);
        lemma_run_one(m, add[0]);
        lemma_step_add(m, Operand::Literal32((4 * padded) as u32));
    } else {
        assert(frame_teardown(var_count as u32) =~= reset + leave);
        lemma_run_concat(Some(m), reset, leave);
    }
}

/// A script of `Begin` alone returns at once. Entered with the return
/// address on top of the stack, its code leaves the stack pointer just past
/// that address and the frame pointer as it was; it writes to no address at
/// or above the stack pointer it was entered with, and changes no argument
/// register. The script has a local slot for each of its arguments.
pub proof fn lemma_lone_begin_returns(m: Machine, arg_count: u16, var_count: u16)
    requires
        arg_count <= var_count,
        m.rsp % 4 == 0,
        8 + 4 * padded_locals(var_count as int) <= m.rsp,
        m.rsp + 8 + 8 * arg_count < address_space(),
        0 <= m.rbp < address_space(),
    ensures
        run(Some(m), prologue(arg_count, var_count) + frame_teardown(var_count as u32)) is Some,
        ({
            let s = run(Some(m), prologue(arg_count, var_count) + frame_teardown(var_count as u32))->Some_0;
            &&& s.rsp == m.rsp + 8
            &&& s.rbp == m.rbp
            &&& forall|a: int| a >= m.rsp ==> #[trigger] s.mem[a] == m.mem[a]
            &&& forall|r: Reg| r != Reg::RAX ==> #[trigger] s.regs[r] == m.regs[r]
        }),
{
    lemma_run_concat(Some(m), prologue(arg_count, var_count), frame_teardown(var_count as u32));
    lemma_prologue_takes_arguments(m, arg_count, var_count);
    let e = run(Some(m), prologue(arg_count, var_count))->Some_0;
    lemma_frame_teardown(e, var_count, m.rbp);
}

/// What a call into the host runs before the `call` instruction.
pub open spec fn call_alignment(target: Reg) -> Seq<Item> {
    aligned_call(target).take(4)
}

/// What it runs once the host has returned.
pub open spec fn call_realignment(target: Reg) -> Seq<Item> {
    aligned_call(target).skip(5)
}

/// The padding that brings a stack pointer on an 8-byte boundary down to
/// a 16-byte boundary is its bit of value eight.
proof fn lemma_padding(at: int)
    requires
        at % 8 == 0,
        0 <= at < address_space(),
    ensures
        (at as u64) & 8 == 0 || (at as u64) & 8 == 8,
        (at - ((at as u64) & 8)) % 16 == 0,
{
    let x = at as u64;
    assert(x % 8 == 0);
    assert(x % 8 == 0 ==> ((x & 8 == 0 || x & 8 == 8) && ((x & 8 == 8) <==> (x % 16 == 8)))) by (bit_vector);
    if x & 8 == 8 {
        assert((at - 8) % 16 == 0);
    } else {
        assert(at % 16 == 0);
    }
}

/// The padding below the slot that a call into the host saves `R15` in.
pub open spec fn padding(m: Machine) -> u64 {
    ((m.rsp - 8) as u64) & 8
}

/// The state at the `call` instruction of a call into the host.
pub open spec fn aligned(m: Machine) -> Machine {
    Machine {
        rsp: m.rsp - 8 - padding(m),
        regs: m.regs.insert(Reg::R15, padding(m)),
        mem: stored(m.mem, m.rsp - 8, m.regs[Reg::R15]),
        ..m
    }
}

#[verifier::rlimit(40)]
proof fn lemma_alignment_runs(m: Machine, target: Reg)
    requires
        m.rsp % 8 == 0,
        16 <= m.rsp < address_space(),
    ensures
        run(Some(m), call_alignment(target)) == Some(aligned(m)),
{
    let code = call_alignment(target);
    let pad = padding(m);
    let m1 = Machine { rsp: m.rsp - 8, mem: stored(m.mem, m.rsp - 8, m.regs[Reg::R15]), ..m };
    let m2 = Machine { regs: m1.regs.insert(Reg::R15, m1.rsp as u64), ..m1 };
    let m3 = Machine { regs: m2.regs.insert(Reg::R15, pad), ..m2 };
    let m4 = Machine { rsp: m3.rsp - pad, ..m3 };
    lemma_padding(m.rsp - 8);
    assert(code.take(0) =~= Seq::<Item>::empty());
    assert(code.take(4) =~= code);
    assert(code[0] == Item::Op1(Mnemonic::PUSH, Operand::Direct(Reg::R15)));
    assert(code[1] == Item::Op2(Mnemonic::MOV, Operand::Direct(Reg::R15), Operand::Direct(Reg::RSP)));
    assert(code[2] == Item::Op2(Mnemonic::AND, Operand::Direct(Reg::R15), Operand::Literal8(8)));
    assert(code[3] == Item::Op2(Mnemonic::SUB, Operand::Direct(Reg::RSP), Operand::Direct(Reg::R15)));
    assert(run(Some(m), code.take(1)) == Some(m1)) by {
        lemma_run_more(Some(m), code, 0);
        lemma_step_push(m, Reg::R15);
    }
    assert(run(Some(m), code.take(2)) == Some(m2)) by {
        lemma_run_more(Some(m), code, 1);
        lemma_step_mov(m1, Operand::Direct(Reg::R15), Operand::Direct(Reg::RSP));
    }
    assert(run(Some(m), code.take(3)) == Some(m3)) by {
        lemma_run_more(Some(m), code, 2);
        lemma_step_and(m2, Reg::R15, Operand::Literal8(8));
        assert(m2.regs[Reg::R15] & 8 == pad);
    }
    assert(run(Some(m), code.take(4)) == Some(m4)) by {
        lemma_run_more(Some(m), code, 3);
        lemma_step_sub(m3, Operand::Direct(Reg::R15));
        assert(m3.regs[Reg::R15] == pad);
    }
    assert(m3.regs =~= m.regs.insert(Reg::R15, pad));
    assert(m4 == aligned(m));
}

/// A call into the host finds the stack pointer on a 16-byte boundary.
/// From a stack pointer on an 8-byte boundary, as pushes and pops of
/// qwords keep it, the state at the `call` instruction has the stack
/// pointer on a 16-byte boundary, at most 16 bytes below where it stood,
/// with the padding in `R15` and the caller's `R15` in the slot below the
/// old stack pointer. Nothing at or above the old stack pointer is written.
#[verifier::rlimit(40)]
pub proof fn lemma_host_call_is_aligned(m: Machine, target: Reg)
    requires
        m.rsp % 8 == 0,
        16 <= m.rsp < address_space(),
    ensures
        run(Some(m), call_alignment(target)) == Some(aligned(m)),
        ({
            let c = aligned(m);
            &&& c.rsp % 16 == 0
            &&& c.rsp == m.rsp - 8 - c.regs[Reg::R15]
            &&& c.regs[Reg::R15] == 0 || c.regs[Reg::R15] == 8
            &&& qword(c.mem, m.rsp - 8) == m.regs[Reg::R15]
            &&& forall|a: int| a >= m.rsp ==> #[trigger] c.mem[a] == m.mem[a]
            &&& forall|r: Reg| r != Reg::R15 ==> #[trigger] c.regs[r] == m.regs[r]
        }),
{
    lemma_alignment_runs(m, target);
    lemma_padding(m.rsp - 8);
    lemma_stored(m.mem, m.rsp - 8, m.regs[Reg::R15]);
}

/// Once the host has returned, with the stack pointer and `R15` as it
/// found them at the `call` instruction and the caller's stack untouched,
/// the rest of the call puts the stack pointer and `R15` back to what they
/// were before the call.
#[verifier::rlimit(40)]
pub proof fn lemma_host_call_realigns(m: Machine, back: Machine, target: Reg)
    requires
        m.rsp % 8 == 0,
        16 <= m.rsp < address_space(),
        back.rsp == aligned(m).rsp,
        back.regs[Reg::R15] == aligned(m).regs[Reg::R15],
        qword(back.mem, m.rsp - 8) == m.regs[Reg::R15],
    ensures
        run(Some(back), call_realignment(target)) is Some,
        ({
            let s = run(Some(back), call_realignment(target))->Some_0;
            &&& s.rsp == m.rsp
            &&& s.regs[Reg::R15] == m.regs[Reg::R15]
            &&& s.mem == back.mem
        }),
{
    lemma_padding(m.rsp - 8);
    let pad = padding(m);
    assert(back.rsp == m.rsp - 8 - pad);
    assert(back.regs[Reg::R15] == pad);
    lemma_realignment_runs(back, target, m.rsp - 8, m.regs[Reg::R15]);
}

/// The two instructions behind the `call`: the padding in `R15` is given
/// back, and `R15` is popped.
#[verifier::rlimit(40)]
proof fn lemma_realignment_runs(back: Machine, target: Reg, saved_at: int, saved: u64)
    requires
        saved_at % 8 == 0,
        8 <= saved_at,
        saved_at + 8 < address_space(),
        back.regs[Reg::R15] == 0 || back.regs[Reg::R15] == 8,
        back.rsp == saved_at - back.regs[Reg::R15],
        qword(back.mem, saved_at) == saved,
    ensures
        run(Some(back), call_realignment(target)) == Some(
            Machine { rsp: saved_at + 8, regs: back.regs.insert(Reg::R15, saved), ..back },
        ),
{
    let code = call_realignment(target);
    let b1 = Machine { rsp: saved_at, ..back };
    let b2 = Machine { rsp: saved_at + 8, regs: back.regs.insert(Reg::R15, saved), ..back };
    assert(code.take(0) =~= Seq::<Item>::empty());
    assert(code.take(2) =~= code);
    assert(code[0] == Item::Op2(Mnemonic::ADD, Operand::Direct(Reg::RSP), Operand::Direct(Reg::R15)));
    assert(code[1] == Item::Op1(Mnemonic::POP, Operand::Direct(Reg::R15)));
    assert(step(back, code[0]) == Some(b1)) by {
        lemma_step_add(back, Operand::Direct(Reg::R15));
    }
    assert(step(b1, code[1]) == Some(b2)) by {
        lemma_step_pop(b1, Reg::R15);
    }
    assert(run(Some(back), code.take(1)) == Some(b1)) by {
        lemma_run_more(Some(back), code, 0);
    }
    assert(run(Some(back), code.take(2)) == Some(b2)) by {
        lemma_run_more(Some(back), code, 1);
    }
}

} // verus!
