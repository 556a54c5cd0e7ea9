//! Canonical instruction sequences: frame setup and teardown, global loads
//! and stores, x87 transfers and the raw byte strings.

use vstd::prelude::*;
use x86asm::{Mnemonic, Operand, OperandSize, Reg};
use crate::into_operand::{displaced, IntoOperand};
use crate::listing::{Item, RawCode};

verus! {

/// The number of local slots after padding to a multiple of four.
pub open spec fn padded_locals(num_vars: int) -> int {
    num_vars + ((4 - num_vars % 4) % 4)
}

/// `push rbp; sub rsp, 4 * padded; mov rbp, rsp`, without the `sub` where
/// there are no locals.
pub open spec fn frame_setup(num_vars: u32) -> Seq<Item> {
    let padded = padded_locals(num_vars as int);
    seq![Item::Op1(Mnemonic::PUSH, Operand::Direct(Reg::RBP))] + (if padded > 0 {
        seq![Item::Op2(Mnemonic::SUB, Operand::Direct(Reg::RSP), Operand::Literal32((4 * padded) as u32))]
    } else {
        Seq::<Item>::empty()
    }) + seq![Item::Op2(Mnemonic::MOV, Operand::Direct(Reg::RBP), Operand::Direct(Reg::RSP))]
}

/// `mov rsp, rbp; add rsp, 4 * padded; pop rbp; ret`, without the `add` where
/// there are no locals.
pub open spec fn frame_teardown(num_vars: u32) -> Seq<Item> {
    let padded = padded_locals(num_vars as int);
    seq![Item::Op2(Mnemonic::MOV, Operand::Direct(Reg::RSP), Operand::Direct(Reg::RBP))] + (if padded > 0 {
        seq![Item::Op2(Mnemonic::ADD, Operand::Direct(Reg::RSP), Operand::Literal32((4 * padded) as u32))]
    } else {
        Seq::<Item>::empty()
    }) + seq![Item::Op1(Mnemonic::POP, Operand::Direct(Reg::RBP)), Item::Op0(Mnemonic::RET)]
}

/// The registers that a callee must preserve, in the order they are saved.
pub open spec fn nonvolatile_regs() -> Seq<Reg> {
    seq![Reg::RBX, Reg::RBP, Reg::RDI, Reg::RSI, Reg::R12, Reg::R13, Reg::R14, Reg::R15]
}

pub open spec fn save_sequence() -> Seq<Item> {
    Seq::new(8, |i: int| Item::Op1(Mnemonic::PUSH, Operand::Direct(nonvolatile_regs()[i])))
}

pub open spec fn restore_sequence() -> Seq<Item> {
    Seq::new(8, |i: int| Item::Op1(Mnemonic::POP, Operand::Direct(nonvolatile_regs()[7 - i])))
}

/// The dword slot of global `global_num`, addressed through `RDX`.
pub open spec fn global_slot(global_num: u16) -> Operand {
    displaced(Reg::RDX, (global_num as u64 * 4) as u64, OperandSize::Dword)
}

/// `mov rdx, globals`: the base of the global array as a 64-bit immediate.
pub open spec fn global_base(globals: u64) -> Item {
    Item::Op2(Mnemonic::MOV, Operand::Direct(Reg::RDX), Operand::Literal64(globals))
}

/// Loads global `global_num` into `reg`.
pub open spec fn global_load(globals: u64, reg: Reg, global_num: u16) -> Seq<Item> {
    seq![global_base(globals), Item::Op2(Mnemonic::MOV, Operand::Direct(reg), global_slot(global_num))]
}

/// Stores `reg` into global `global_num`.
pub open spec fn global_store(globals: u64, reg: Reg, global_num: u16) -> Seq<Item> {
    seq![global_base(globals), Item::Op2(Mnemonic::MOV, global_slot(global_num), Operand::Direct(reg))]
}

/// Loads global `global_num` onto the x87 stack.
pub open spec fn global_load_float(globals: u64, global_num: u16) -> Seq<Item> {
    seq![global_base(globals), Item::Op1(Mnemonic::FLD, global_slot(global_num))]
}

/// Pops the x87 stack top into global `global_num`.
pub open spec fn global_store_float(globals: u64, global_num: u16) -> Seq<Item> {
    seq![global_base(globals), Item::Op1(Mnemonic::FSTP, global_slot(global_num))]
}

/// `fld dword [rsp + 8 * slot]`.
pub open spec fn fld_slot(slot: int) -> Item {
    Item::Op1(Mnemonic::FLD, displaced(Reg::RSP, (slot * 8) as u64, OperandSize::Dword))
}

/// Loads `count` stack slots onto the x87 stack, the deepest first.
pub open spec fn fpu_transfer(count: usize) -> Seq<Item> {
    Seq::new(count as nat, |k: int| fld_slot(count - 1 - k))
}

/// Loads `count` stack slots onto the x87 stack, the top first.
pub open spec fn fpu_transfer_rev(count: usize) -> Seq<Item> {
    Seq::new(count as nat, |k: int| fld_slot(k))
}

/// A listing under construction.
#[derive(Debug)]
pub struct ListingWriter {
    pub items: Vec<Item>,
}

impl View for ListingWriter {
    type V = Seq<Item>;

    open spec fn view(&self) -> Seq<Item> {
        self.items@
    }
}

impl ListingWriter {
    /// A writer that holds nothing yet.
    pub fn new() -> (w: ListingWriter)
        ensures
            w@ == Seq::<Item>::empty(),
    {
        ListingWriter { items: Vec::new() }
    }
}

/// Appends one instruction without operands.
pub fn emit0(out: &mut ListingWriter, m: Mnemonic)
    ensures
        final(out)@ == old(out)@.push(Item::Op0(m)),
{
    out.items.push(Item::Op0(m));
}

/// Appends one instruction with one operand.
pub fn emit1<A: IntoOperand>(out: &mut ListingWriter, m: Mnemonic, a: A)
    ensures
        final(out)@ == old(out)@.push(Item::Op1(m, a.operand())),
{
    out.items.push(Item::Op1(m, a.into_op()));
}

/// Appends one instruction with two operands.
pub fn emit2<A: IntoOperand, B: IntoOperand>(out: &mut ListingWriter, m: Mnemonic, a: A, b: B)
    ensures
        final(out)@ == old(out)@.push(Item::Op2(m, a.operand(), b.operand())),
{
    let x = a.into_op();
    let y = b.into_op();
    out.items.push(Item::Op2(m, x, y));
}

/// The emitters of canonical sequences, on a listing under construction.
pub trait AsmWriterHelper: Sized {
    /// The listing written so far.
    spec fn written(&self) -> Seq<Item>;

    fn write_ret(&mut self, num_vars: u32)
        requires
            4 * padded_locals(num_vars as int) <= u32::MAX,
        ensures
            final(self).written() == old(self).written() + frame_teardown(num_vars),
    ;

    fn setup_stack_frame(&mut self, num_vars: u32)
        requires
            4 * padded_locals(num_vars as int) <= u32::MAX,
        ensures
            final(self).written() == old(self).written() + frame_setup(num_vars),
    ;

    fn save_nonvolatile_regs(&mut self)
        ensures
            final(self).written() == old(self).written() + save_sequence(),
    ;

    fn restore_nonvolatile_regs(&mut self)
        ensures
            final(self).written() == old(self).written() + restore_sequence(),
    ;

    fn pop(&mut self, reg: Reg)
        ensures
            final(self).written() == old(self).written().push(Item::Op1(Mnemonic::POP, Operand::Direct(reg))),
    ;

    fn push<I: IntoOperand>(&mut self, operand: I)
        ensures
            final(self).written() == old(self).written().push(Item::Op1(Mnemonic::PUSH, operand.operand())),
    ;

    fn mov<I: IntoOperand, I2: IntoOperand>(&mut self, op1: I, op2: I2)
        ensures
            final(self).written() == old(self).written().push(
                Item::Op2(Mnemonic::MOV, op1.operand(), op2.operand()),
            ),
    ;

    fn call<I: IntoOperand>(&mut self, op1: I)
        ensures
            final(self).written() == old(self).written().push(Item::Op1(Mnemonic::CALL, op1.operand())),
    ;

    fn get_global(&mut self, globals: u64, reg: Reg, global_num: u16)
        ensures
            final(self).written() == old(self).written() + global_load(globals, reg, global_num),
    ;

    fn set_global(&mut self, globals: u64, reg: Reg, global_num: u16)
        ensures
            final(self).written() == old(self).written() + global_store(globals, reg, global_num),
    ;

    fn copy_to_fpu(&mut self, count: usize)
        requires
            count * 8 <= u64::MAX,
        ensures
            final(self).written() == old(self).written() + fpu_transfer(count),
    ;

    fn copy_to_fpu_rev(&mut self, count: usize)
        requires
            count * 8 <= u64::MAX,
        ensures
            final(self).written() == old(self).written() + fpu_transfer_rev(count),
    ;

    fn get_global_float(&mut self, globals: u64, global_num: u16)
        ensures
            final(self).written() == old(self).written() + global_load_float(globals, global_num),
    ;

    fn set_global_float(&mut self, globals: u64, global_num: u16)
        ensures
            final(self).written() == old(self).written() + global_store_float(globals, global_num),
    ;

    fn fstsw_ax(&mut self)
        ensures
            final(self).written() == old(self).written().push(Item::Raw(RawCode::FstswAx)),
    ;

    fn sahf(&mut self)
        ensures
            final(self).written() == old(self).written().push(Item::Raw(RawCode::Sahf)),
    ;

    fn fcompp(&mut self)
        ensures
            final(self).written() == old(self).written().push(Item::Raw(RawCode::Fcompp)),
    ;

    fn mov_rax_0(&mut self)
        ensures
            final(self).written() == old(self).written().push(Item::Raw(RawCode::MovRaxSlot)),
    ;
}

fn padded_count(num_vars: u32) -> (padded: u32)
    requires
        4 * padded_locals(num_vars as int) <= u32::MAX,
    ensures
        padded == padded_locals(num_vars as int),
{
    num_vars + ((4 - (num_vars % 4)) % 4)
}

fn nonvolatile(i: usize) -> (r: Reg)
    requires
        i < 8,
    ensures
        r == nonvolatile_regs()[i as int],
{
    if i == 0 {
        Reg::RBX
    } else if i == 1 {
        Reg::RBP
    } else if i == 2 {
        Reg::RDI
    } else if i == 3 {
        Reg::RSI
    } else if i == 4 {
        Reg::R12
    } else if i == 5 {
        Reg::R13
    } else if i == 6 {
        Reg::R14
    } else {
        Reg::R15
    }
}

impl AsmWriterHelper for ListingWriter {
    open spec fn written(&self) -> Seq<Item> {
        self@
    }

    fn write_ret(&mut self, num_vars: u32) {
        let padded = padded_count(num_vars);
        emit2(self, Mnemonic::MOV, Reg::RSP, Reg::RBP);
        if padded > 0 {
            emit2(self, Mnemonic::ADD, Reg::RSP, 4 * padded);
        }
        emit1(self, Mnemonic::POP, Reg::RBP);
        emit0(self, Mnemonic::RET);
        assert(self@ =~= old(self)@ + frame_teardown(num_vars));
    }

    fn setup_stack_frame(&mut self, num_vars: u32) {
        let padded = padded_count(num_vars);
        emit1(self, Mnemonic::PUSH, Reg::RBP);
        if padded > 0 {
            emit2(self, Mnemonic::SUB, Reg::RSP, 4 * padded);
        }
        emit2(self, Mnemonic::MOV, Reg::RBP, Reg::RSP);
        assert(self@ =~= old(self)@ + frame_setup(num_vars));
    }

    fn save_nonvolatile_regs(&mut self) {
        let mut i: usize = 0;
        while i < 8
            invariant
                i <= 8,
                self@ == old(self)@ + save_sequence().take(i as int),
            decreases 8 - i,
        {
            emit1(self, Mnemonic::PUSH, nonvolatile(i));
            assert(save_sequence().take(i + 1) =~= save_sequence().take(i as int).push(
                save_sequence()[i as int],
            ));
            i = i + 1;
        }
        assert(save_sequence().take(8) =~= save_sequence());
    }

    fn restore_nonvolatile_regs(&mut self) {
        let mut i: usize = 0;
        while i < 8
            invariant
                i <= 8,
                self@ == old(self)@ + restore_sequence().take(i as int),
            decreases 8 - i,
        {
            emit1(self, Mnemonic::POP, nonvolatile(7 - i));
            assert(restore_sequence().take(i + 1) =~= restore_sequence().take(i as int).push(
                restore_sequence()[i as int],
            ));
            i = i + 1;
        }
        assert(restore_sequence().take(8) =~= restore_sequence());
    }

    fn pop(&mut self, reg: Reg) {
        emit1(self, Mnemonic::POP, reg);
    }

    fn push<I: IntoOperand>(&mut self, operand: I) {
        emit1(self, Mnemonic::PUSH, operand);
    }

    fn mov<I: IntoOperand, I2: IntoOperand>(&mut self, op1: I, op2: I2) {
        emit2(self, Mnemonic::MOV, op1, op2);
    }

    fn call<I: IntoOperand>(&mut self, op1: I) {
        emit1(self, Mnemonic::CALL, op1);
    }

    fn get_global(&mut self, globals: u64, reg: Reg, global_num: u16) {
        self.mov(Reg::RDX, globals);
        self.mov(reg, (Reg::RDX, global_num as u64 * 4, OperandSize::Dword));
        assert(self@ =~= old(self)@ + global_load(globals, reg, global_num));
    }

    fn set_global(&mut self, globals: u64, reg: Reg, global_num: u16) {
        self.mov(Reg::RDX, globals);
        self.mov((Reg::RDX, global_num as u64 * 4, OperandSize::Dword), reg);
        assert(self@ =~= old(self)@ + global_store(globals, reg, global_num));
    }

    fn copy_to_fpu(&mut self, count: usize) {
        let mut k: usize = 0;
        while k < count
            invariant
                k <= count,
                count * 8 <= u64::MAX,
                self@ == old(self)@ + fpu_transfer(count).take(k as int),
            decreases count - k,
        {
            emit1(self, Mnemonic::FLD, (Reg::RSP, (count - 1 - k) as u64 * 8, OperandSize::Dword));
            assert(fpu_transfer(count).take(k + 1) =~= fpu_transfer(count).take(k as int).push(
                fpu_transfer(count)[k as int],
            ));
            k = k + 1;
        }
        assert(fpu_transfer(count).take(count as int) =~= fpu_transfer(count));
    }

    fn copy_to_fpu_rev(&mut self, count: usize) {
        let mut k: usize = 0;
        while k < count
            invariant
                k <= count,
                count * 8 <= u64::MAX,
                self@ == old(self)@ + fpu_transfer_rev(count).take(k as int),
            decreases count - k,
        {
            emit1(self, Mnemonic::FLD, (Reg::RSP, k as u64 * 8, OperandSize::Dword));
            assert(fpu_transfer_rev(count).take(k + 1) =~= fpu_transfer_rev(count).take(k as int).push(
                fpu_transfer_rev(count)[k as int],
            ));
            k = k + 1;
        }
        assert(fpu_transfer_rev(count).take(count as int) =~= fpu_transfer_rev(count));
    }

    fn get_global_float(&mut self, globals: u64, global_num: u16) {
        self.mov(Reg::RDX, globals);
        emit1(self, Mnemonic::FLD, (Reg::RDX, global_num as u64 * 4, OperandSize::Dword));
        assert(self@ =~= old(self)@ + global_load_float(globals, global_num));
    }

    fn set_global_float(&mut self, globals: u64, global_num: u16) {
        self.mov(Reg::RDX, globals);
        emit1(self, Mnemonic::FSTP, (Reg::RDX, global_num as u64 * 4, OperandSize::Dword));
        assert(self@ =~= old(self)@ + global_store_float(globals, global_num));
    }

    fn fstsw_ax(&mut self) {
        self.items.push(Item::Raw(RawCode::FstswAx));
    }

    fn sahf(&mut self) {
        self.items.push(Item::Raw(RawCode::Sahf));
    }

    fn fcompp(&mut self) {
        self.items.push(Item::Raw(RawCode::Fcompp));
    }

    fn mov_rax_0(&mut self) {
        self.items.push(Item::Raw(RawCode::MovRaxSlot));
    }
}

} // verus!
