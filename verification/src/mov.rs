//! Encoding of `MOV` in 64-bit mode.
//!
//! `x86asm` 0.1.0 cannot encode `MOV`: its definition lookup reaches an
//! unimplemented operand type for every `MOV` that has operands. The forms
//! that the generator uses are therefore encoded here: register to register,
//! register to and from memory, and immediates into registers and memory.

use vstd::bytes::{spec_u32_to_le_bytes, spec_u64_to_le_bytes, u32_to_le_bytes, u64_to_le_bytes};
use vstd::prelude::*;
use x86asm::{InstructionEncodingError, Operand, OperandSize, RegScale};
use crate::encoder::{gpr32, gpr32_code, gpr64, gpr64_code};

verus! {

/// A memory operand reduced to register numbers: `[base + index * 2^scale + disp]`.
#[derive(Clone, Copy, Debug)]
pub struct MemRef {
    pub base: u8,
    pub index: Option<(u8, u8)>,
    pub disp: u64,
    pub size: Option<OperandSize>,
}

pub open spec fn scale_bits(s: RegScale) -> u8 {
    match s {
        RegScale::One => 0u8,
        RegScale::Two => 1u8,
        RegScale::Four => 2u8,
        RegScale::Eight => 3u8,
    }
}

/// The memory operands that `MOV` takes here: a 64-bit base register, an
/// optional scaled 64-bit index other than `RSP`, no segment override.
pub open spec fn mem_ref(op: Operand) -> Option<MemRef> {
    match op {
        Operand::Indirect(base, size, seg) => match (gpr64(base), seg) {
            (Some(b), None) => Some(MemRef { base: b, index: None, disp: 0, size }),
            _ => None,
        },
        Operand::IndirectDisplaced(base, disp, size, seg) => match (gpr64(base), seg) {
            (Some(b), None) => Some(MemRef { base: b, index: None, disp, size }),
            _ => None,
        },
        Operand::IndirectScaledIndexed(base, index, scale, size, seg) => match (
            gpr64(base),
            gpr64(index),
            seg,
        ) {
            (Some(b), Some(i), None) => if i != 4 {
                Some(MemRef { base: b, index: Some((i, scale_bits(scale))), disp: 0, size })
            } else {
                None
            },
            _ => None,
        },
        _ => None,
    }
}

/// The REX prefix for the given width and register numbers, or nothing where
/// none is needed.
pub open spec fn rex(wide: bool, reg: u8, index: u8, rm: u8) -> Seq<u8> {
    let bits: int = (if wide { 8int } else { 0int }) + (if reg >= 8 { 4int } else { 0int }) + (if index >= 8 {
        2int
    } else {
        0int
    }) + (if rm >= 8 { 1int } else { 0int });
    if bits == 0 {
        Seq::<u8>::empty()
    } else {
        seq![(0x40 + bits) as u8]
    }
}

/// A ModRM or SIB byte from its three fields.
pub open spec fn field_byte(high: u8, mid: u8, low: u8) -> u8 {
    (high * 64 + (mid % 8) * 8 + (low % 8)) as u8
}

/// The ModRM `mod` field for a displacement read as a two's-complement
/// number: none, 8 bits or 32 bits. `RBP` and `R13` as base always take a
/// displacement.
pub open spec fn disp_mode(disp: u64, base: u8) -> Option<u8> {
    if disp == 0 && base % 8 != 5 {
        Some(0u8)
    } else if disp <= 0x7f || disp >= 0xffff_ffff_ffff_ff80 {
        Some(1u8)
    } else if disp <= 0x7fff_ffff || disp >= 0xffff_ffff_8000_0000 {
        Some(2u8)
    } else {
        None
    }
}

pub open spec fn disp_bytes(mode: u8, disp: u64) -> Seq<u8> {
    if mode == 1 {
        seq![(disp % 0x100) as u8]
    } else if mode == 2 {
        spec_u32_to_le_bytes((disp % 0x1_0000_0000) as u32)
    } else {
        Seq::<u8>::empty()
    }
}

/// ModRM, SIB and displacement for a memory operand with `reg` in the ModRM
/// `reg` field.
pub open spec fn mem_tail(m: MemRef, reg: u8) -> Option<Seq<u8>> {
    match disp_mode(m.disp, m.base) {
        None => None,
        Some(mode) => Some(
            match m.index {
                Some((i, s)) => seq![field_byte(mode, reg, 4), field_byte(s, i, m.base)],
                None => if m.base % 8 == 4 {
                    seq![field_byte(mode, reg, 4), field_byte(0, 4, m.base)]
                } else {
                    seq![field_byte(mode, reg, m.base)]
                },
            } + disp_bytes(mode, m.disp),
        ),
    }
}

pub open spec fn index_code(m: MemRef) -> u8 {
    match m.index {
        Some((i, _)) => i,
        None => 0u8,
    }
}

/// `MOV` between a register and memory: `opcode` is `0x8B` for a load and
/// `0x89` for a store.
pub open spec fn mov_mem(opcode: u8, wide: bool, reg: u8, m: MemRef) -> Result<
    Seq<u8>,
    InstructionEncodingError,
> {
    let fits = m.size == Some(if wide { OperandSize::Qword } else { OperandSize::Dword });
    match mem_tail(m, reg) {
        Some(tail) => if fits {
            Ok(rex(wide, reg, index_code(m), m.base) + seq![opcode] + tail)
        } else {
            Err(InstructionEncodingError::NoEncoding)
        },
        None => Err(InstructionEncodingError::NoEncoding),
    }
}

pub open spec fn mov_reg_mem(opcode: u8, r: x86asm::Reg, mem: Operand) -> Result<
    Seq<u8>,
    InstructionEncodingError,
> {
    match (mem_ref(mem), gpr64(r), gpr32(r)) {
        (Some(m), Some(c), _) => mov_mem(opcode, true, c, m),
        (Some(m), None, Some(c)) => mov_mem(opcode, false, c, m),
        _ => Err(InstructionEncodingError::NoEncoding),
    }
}

/// The bytes of `MOV dst, src`, or `NoEncoding` for a form that is not among
/// those listed at the head of this file.
pub open spec fn mov_encoding(dst: Operand, src: Operand) -> Result<Seq<u8>, InstructionEncodingError> {
    match (dst, src) {
        (Operand::Direct(d), Operand::Direct(s)) => match (gpr64(d), gpr64(s), gpr32(d), gpr32(s)) {
            (Some(dc), Some(sc), _, _) => Ok(rex(true, sc, 0, dc) + seq![0x89u8, field_byte(3, sc, dc)]),
            (None, None, Some(dc), Some(sc)) => Ok(
                rex(false, sc, 0, dc) + seq![0x89u8, field_byte(3, sc, dc)],
            ),
            _ => Err(InstructionEncodingError::NoEncoding),
        },
        (Operand::Direct(d), Operand::Literal64(v)) => match gpr64(d) {
            Some(dc) => Ok(rex(true, 0, 0, dc) + seq![(0xb8 + dc % 8) as u8] + spec_u64_to_le_bytes(v)),
            None => Err(InstructionEncodingError::NoEncoding),
        },
        (Operand::Direct(d), Operand::Literal32(v)) => match (gpr64(d), gpr32(d)) {
            (Some(dc), _) => Ok(
                rex(true, 0, 0, dc) + seq![0xc7u8, field_byte(3, 0, dc)] + spec_u32_to_le_bytes(v),
            ),
            (None, Some(dc)) => Ok(
                rex(false, 0, 0, dc) + seq![(0xb8 + dc % 8) as u8] + spec_u32_to_le_bytes(v),
            ),
            _ => Err(InstructionEncodingError::NoEncoding),
        },
        (Operand::Direct(d), _) => mov_reg_mem(0x8b, d, src),
        (_, Operand::Direct(s)) => mov_reg_mem(0x89, s, dst),
        (_, Operand::Literal32(v)) => match mem_ref(dst) {
            Some(m) => match mem_tail(m, 0) {
                Some(tail) => if m.size == Some(OperandSize::Dword) {
                    Ok(rex(false, 0, index_code(m), m.base) + seq![0xc7u8] + tail + spec_u32_to_le_bytes(v))
                } else {
                    Err(InstructionEncodingError::NoEncoding)
                },
                None => Err(InstructionEncodingError::NoEncoding),
            },
            None => Err(InstructionEncodingError::NoEncoding),
        },
        _ => Err(InstructionEncodingError::NoEncoding),
    }
}

fn scale_code(s: RegScale) -> (c: u8)
    ensures
        c == scale_bits(s),
{
    match s {
        RegScale::One => 0,
        RegScale::Two => 1,
        RegScale::Four => 2,
        RegScale::Eight => 3,
    }
}

pub fn memory_operand(op: &Operand) -> (r: Option<MemRef>)
    ensures
        r == mem_ref(*op),
{
    match op {
        Operand::Indirect(base, size, seg) => match (gpr64_code(*base), seg) {
            (Some(b), None) => Some(MemRef { base: b, index: None, disp: 0, size: *size }),
            _ => None,
        },
        Operand::IndirectDisplaced(base, disp, size, seg) => match (gpr64_code(*base), seg) {
            (Some(b), None) => Some(MemRef { base: b, index: None, disp: *disp, size: *size }),
            _ => None,
        },
        Operand::IndirectScaledIndexed(base, index, scale, size, seg) => match (
            gpr64_code(*base),
            gpr64_code(*index),
            seg,
        ) {
            (Some(b), Some(i), None) => if i != 4 {
                Some(MemRef { base: b, index: Some((i, scale_code(*scale))), disp: 0, size: *size })
            } else {
                None
            },
            _ => None,
        },
        _ => None,
    }
}

fn rex_prefix(wide: bool, reg: u8, index: u8, rm: u8) -> (out: Vec<u8>)
    ensures
        out@ == rex(wide, reg, index, rm),
{
    let mut bits: u8 = 0;
    if wide {
        bits = bits + 8;
    }
    if reg >= 8 {
        bits = bits + 4;
    }
    if index >= 8 {
        bits = bits + 2;
    }
    if rm >= 8 {
        bits = bits + 1;
    }
    let mut out: Vec<u8> = Vec::new();
    if bits != 0 {
        out.push(0x40 + bits);
    }
    out
}

fn make_field_byte(high: u8, mid: u8, low: u8) -> (b: u8)
    requires
        high <= 3,
    ensures
        b == field_byte(high, mid, low),
{
    high * 64 + (mid % 8) * 8 + (low % 8)
}

fn displacement_mode(disp: u64, base: u8) -> (r: Option<u8>)
    ensures
        r == disp_mode(disp, base),
        r matches Some(mode) ==> mode <= 2,
{
    if disp == 0 && base % 8 != 5 {
        Some(0)
    } else if disp <= 0x7f || disp >= 0xffff_ffff_ffff_ff80 {
        Some(1)
    } else if disp <= 0x7fff_ffff || disp >= 0xffff_ffff_8000_0000 {
        Some(2)
    } else {
        None
    }
}

fn push_displacement(out: &mut Vec<u8>, mode: u8, disp: u64)
    ensures
        final(out)@ == old(out)@ + disp_bytes(mode, disp),
{
    if mode == 1 {
        out.push((disp % 0x100) as u8);
    } else if mode == 2 {
        let mut bytes = u32_to_le_bytes((disp % 0x1_0000_0000) as u32);
        out.append(&mut bytes);
    }
}

fn memory_tail(m: &MemRef, reg: u8) -> (r: Option<Vec<u8>>)
    requires
        m.index matches Some((_, s)) ==> s <= 3,
    ensures
        match (r, mem_tail(*m, reg)) {
            (Some(bytes), Some(tail)) => bytes@ == tail,
            (None, None) => true,
            _ => false,
        },
{
    match displacement_mode(m.disp, m.base) {
        None => None,
        Some(mode) => {
            let mut out: Vec<u8> = Vec::new();
            match m.index {
                Some((i, s)) => {
                    out.push(make_field_byte(mode, reg, 4));
                    out.push(make_field_byte(s, i, m.base));
                },
                None => {
                    if m.base % 8 == 4 {
                        out.push(make_field_byte(mode, reg, 4));
                        out.push(make_field_byte(0, 4, m.base));
                    } else {
                        out.push(make_field_byte(mode, reg, m.base));
                    }
                },
            }
            push_displacement(&mut out, mode, m.disp);
            Some(out)
        },
    }
}

fn size_fits(size: &Option<OperandSize>, wide: bool) -> (b: bool)
    ensures
        b == (*size == Some(if wide { OperandSize::Qword } else { OperandSize::Dword })),
{
    match size {
        Some(OperandSize::Qword) => wide,
        Some(OperandSize::Dword) => !wide,
        _ => false,
    }
}

fn index_of(m: &MemRef) -> (i: u8)
    ensures
        i == index_code(*m),
{
    match m.index {
        Some((i, _)) => i,
        None => 0,
    }
}

fn encode_mov_mem(opcode: u8, wide: bool, reg: u8, m: &MemRef) -> (r: Result<
    Vec<u8>,
    InstructionEncodingError,
>)
    requires
        m.index matches Some((_, s)) ==> s <= 3,
    ensures
        crate::encoder::encoded_view(r) == mov_mem(opcode, wide, reg, *m),
{
    let fits = size_fits(&m.size, wide);
    match memory_tail(m, reg) {
        Some(mut tail) => {
            if fits {
                let ghost t = tail@;
                let mut out = rex_prefix(wide, reg, index_of(m), m.base);
                out.push(opcode);
                out.append(&mut tail);
                assert(out@ =~= rex(wide, reg, index_code(*m), m.base) + seq![opcode] + t);
                Ok(out)
            } else {
                Err(InstructionEncodingError::NoEncoding)
            }
        },
        None => Err(InstructionEncodingError::NoEncoding),
    }
}

fn encode_mov_reg_mem(opcode: u8, r: x86asm::Reg, mem: &Operand) -> (res: Result<
    Vec<u8>,
    InstructionEncodingError,
>)
    ensures
        crate::encoder::encoded_view(res) == mov_reg_mem(opcode, r, *mem),
{
    match (memory_operand(mem), gpr64_code(r), gpr32_code(r)) {
        (Some(m), Some(c), _) => encode_mov_mem(opcode, true, c, &m),
        (Some(m), None, Some(c)) => encode_mov_mem(opcode, false, c, &m),
        _ => Err(InstructionEncodingError::NoEncoding),
    }
}

/// Encodes `MOV dst, src`.
pub fn encode_mov(dst: &Operand, src: &Operand) -> (r: Result<Vec<u8>, InstructionEncodingError>)
    ensures
        crate::encoder::encoded_view(r) == mov_encoding(*dst, *src),
{
    match (dst, src) {
        (Operand::Direct(d), Operand::Direct(s)) => match (
            gpr64_code(*d),
            gpr64_code(*s),
            gpr32_code(*d),
            gpr32_code(*s),
        ) {
            (Some(dc), Some(sc), _, _) => {
                let mut out = rex_prefix(true, sc, 0, dc);
                out.push(0x89);
                out.push(make_field_byte(3, sc, dc));
                assert(out@ =~= rex(true, sc, 0, dc) + seq![0x89u8, field_byte(3, sc, dc)]);
                Ok(out)
            },
            (None, None, Some(dc), Some(sc)) => {
                let mut out = rex_prefix(false, sc, 0, dc);
                out.push(0x89);
                out.push(make_field_byte(3, sc, dc));
                assert(out@ =~= rex(false, sc, 0, dc) + seq![0x89u8, field_byte(3, sc, dc)]);
                Ok(out)
            },
            _ => Err(InstructionEncodingError::NoEncoding),
        },
        (Operand::Direct(d), Operand::Literal64(v)) => match gpr64_code(*d) {
            Some(dc) => {
                let mut out = rex_prefix(true, 0, 0, dc);
                out.push(0xb8 + dc % 8);
                let mut imm = u64_to_le_bytes(*v);
                out.append(&mut imm);
                assert(out@ =~= rex(true, 0, 0, dc) + seq![(0xb8 + dc % 8) as u8] + spec_u64_to_le_bytes(
                    *v,
                ));
                Ok(out)
            },
            None => Err(InstructionEncodingError::NoEncoding),
        },
        (Operand::Direct(d), Operand::Literal32(v)) => match (gpr64_code(*d), gpr32_code(*d)) {
            (Some(dc), _) => {
                let mut out = rex_prefix(true, 0, 0, dc);
                out.push(0xc7);
                out.push(make_field_byte(3, 0, dc));
                let mut imm = u32_to_le_bytes(*v);
                out.append(&mut imm);
                assert(out@ =~= rex(true, 0, 0, dc) + seq![0xc7u8, field_byte(3, 0, dc)]
                    + spec_u32_to_le_bytes(*v));
                Ok(out)
            },
            (None, Some(dc)) => {
                let mut out = rex_prefix(false, 0, 0, dc);
                out.push(0xb8 + dc % 8);
                let mut imm = u32_to_le_bytes(*v);
                out.append(&mut imm);
                assert(out@ =~= rex(false, 0, 0, dc) + seq![(0xb8 + dc % 8) as u8] + spec_u32_to_le_bytes(
                    *v,
                ));
                Ok(out)
            },
            _ => Err(InstructionEncodingError::NoEncoding),
        },
        (Operand::Direct(d), _) => encode_mov_reg_mem(0x8b, *d, src),
        (_, Operand::Direct(s)) => encode_mov_reg_mem(0x89, *s, dst),
        (_, Operand::Literal32(v)) => match memory_operand(dst) {
            Some(m) => match memory_tail(&m, 0) {
                Some(mut tail) => {
                    if size_fits(&m.size, false) {
                        let ghost t = tail@;
                        let mut out = rex_prefix(false, 0, index_of(&m), m.base);
                        out.push(0xc7);
                        out.append(&mut tail);
                        let mut imm = u32_to_le_bytes(*v);
                        out.append(&mut imm);
                        assert(out@ =~= rex(false, 0, index_code(m), m.base) + seq![0xc7u8] + t
                            + spec_u32_to_le_bytes(*v));
                        Ok(out)
                    } else {
                        Err(InstructionEncodingError::NoEncoding)
                    }
                },
                None => Err(InstructionEncodingError::NoEncoding),
            },
            None => Err(InstructionEncodingError::NoEncoding),
        },
        _ => Err(InstructionEncodingError::NoEncoding),
    }
}

} // verus!
