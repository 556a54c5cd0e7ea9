//! Coercion of immediates, registers and addressing tuples into operands.

use vstd::prelude::*;
use x86asm::{Operand, OperandSize, Reg, RegScale};

verus! {

/// Anything that stands for one instruction operand.
pub trait IntoOperand: Sized {
    /// The operand that `self` stands for.
    spec fn operand(self) -> Operand;

    fn into_op(self) -> (op: Operand)
        ensures
            op == self.operand(),
    ;
}

/// `[base + disp]` of the given width; a zero displacement is left out.
pub open spec fn displaced(base: Reg, disp: u64, size: OperandSize) -> Operand {
    if disp == 0 {
        Operand::Indirect(base, Some(size), None)
    } else {
        Operand::IndirectDisplaced(base, disp, Some(size), None)
    }
}

/// A signed displacement as the 64-bit two's-complement pattern that an
/// addressing tuple carries.
pub open spec fn twos_complement(d: i64) -> u64 {
    if d >= 0 {
        d as u64
    } else {
        (d + 0x1_0000_0000_0000_0000) as u64
    }
}

pub fn to_twos_complement(d: i64) -> (u: u64)
    ensures
        u == twos_complement(d),
{
    if d >= 0 {
        d as u64
    } else {
        u64::MAX - ((-(d + 1)) as u64)
    }
}

impl IntoOperand for u8 {
    open spec fn operand(self) -> Operand {
        Operand::Literal8(self)
    }

    fn into_op(self) -> Operand {
        Operand::Literal8(self)
    }
}

impl IntoOperand for u16 {
    open spec fn operand(self) -> Operand {
        Operand::Literal16(self)
    }

    fn into_op(self) -> Operand {
        Operand::Literal16(self)
    }
}

impl IntoOperand for u32 {
    open spec fn operand(self) -> Operand {
        Operand::Literal32(self)
    }

    fn into_op(self) -> Operand {
        Operand::Literal32(self)
    }
}

impl IntoOperand for u64 {
    open spec fn operand(self) -> Operand {
        Operand::Literal64(self)
    }

    fn into_op(self) -> Operand {
        Operand::Literal64(self)
    }
}

impl IntoOperand for Reg {
    open spec fn operand(self) -> Operand {
        Operand::Direct(self)
    }

    fn into_op(self) -> Operand {
        Operand::Direct(self)
    }
}

impl IntoOperand for (Reg, OperandSize) {
    open spec fn operand(self) -> Operand {
        Operand::Indirect(self.0, Some(self.1), None)
    }

    fn into_op(self) -> Operand {
        Operand::Indirect(self.0, Some(self.1), None)
    }
}

impl IntoOperand for (Reg, u64, OperandSize) {
    open spec fn operand(self) -> Operand {
        displaced(self.0, self.1, self.2)
    }

    fn into_op(self) -> Operand {
        if self.1 == 0 {
            Operand::Indirect(self.0, Some(self.2), None)
        } else {
            Operand::IndirectDisplaced(self.0, self.1, Some(self.2), None)
        }
    }
}

impl IntoOperand for (Reg, i64, OperandSize) {
    open spec fn operand(self) -> Operand {
        displaced(self.0, twos_complement(self.1), self.2)
    }

    fn into_op(self) -> Operand {
        (self.0, to_twos_complement(self.1), self.2).into_op()
    }
}

impl IntoOperand for (Reg, Reg, RegScale, OperandSize) {
    open spec fn operand(self) -> Operand {
        Operand::IndirectScaledIndexed(self.0, self.1, self.2, Some(self.3), None)
    }

    fn into_op(self) -> Operand {
        Operand::IndirectScaledIndexed(self.0, self.1, self.2, Some(self.3), None)
    }
}

impl IntoOperand for (Reg, Reg, RegScale, u64, OperandSize) {
    open spec fn operand(self) -> Operand {
        Operand::IndirectScaledIndexedDisplaced(self.0, self.1, self.2, self.3, Some(self.4), None)
    }

    fn into_op(self) -> Operand {
        Operand::IndirectScaledIndexedDisplaced(self.0, self.1, self.2, self.3, Some(self.4), None)
    }
}

impl IntoOperand for Operand {
    open spec fn operand(self) -> Operand {
        self
    }

    fn into_op(self) -> Operand {
        self
    }
}

} // verus!
