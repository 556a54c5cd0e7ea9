//! Instruction listings and their assembly into bytes.

use vstd::prelude::*;
use x86asm::{InstructionEncodingError, Mnemonic, Operand, OperandSize, Reg};
use crate::encoder::{encodable, encoded_view, is_encodable, x86asm_encode, x86asm_encoding};
use crate::mov::{encode_mov, mov_encoding};

verus! {

/// The fixed byte strings emitted for what the assembler does not offer.
#[derive(Clone, Copy, Debug, PartialEq, Eq, Structural)]
pub enum RawCode {
    /// `fstsw ax`
    FstswAx,
    /// `sahf`
    Sahf,
    /// `fcompp`
    Fcompp,
    /// `mov rax, imm64` with a placeholder immediate: the slot that linking
    /// fills with a callee's address.
    MovRaxSlot,
}

/// One entry of a listing: an instruction with up to two operands, or raw bytes.
#[derive(Clone, Copy, Debug, PartialEq, Eq)]
pub enum Item {
    Op0(Mnemonic),
    Op1(Mnemonic, Operand),
    Op2(Mnemonic, Operand, Operand),
    Raw(RawCode),
}

pub open spec fn raw_bytes(c: RawCode) -> Seq<u8> {
    match c {
        RawCode::FstswAx => seq![0x9bu8, 0xdfu8, 0xe0u8],
        RawCode::Sahf => seq![0x9eu8],
        RawCode::Fcompp => seq![0xdeu8, 0xd9u8],
        RawCode::MovRaxSlot => seq![
            0x48u8,
            0xb8u8,
            0xf8u8,
            0xffu8,
            0xffu8,
            0xffu8,
            0xffu8,
            0xffu8,
            0xffu8,
            0xf8u8,
        ],
    }
}

/// A displacement of exactly 128 from a base other than `RBP`. `x86asm`
/// writes it as one byte, which the processor reads as -128, so an
/// instruction with such an operand is not handed to it. From `RBP` it
/// writes four bytes, as it does for every larger displacement.
pub open spec fn misread_displacement(op: Option<Operand>) -> bool {
    match op {
        Some(Operand::IndirectDisplaced(base, d, _, _)) => d == 128 && base != Reg::RBP,
        _ => false,
    }
}

/// What the assembler makes of an instruction, with `NoEncoding` for one that
/// is not handed to it.
pub open spec fn checked_encoding(m: Mnemonic, a: Option<Operand>, b: Option<Operand>) -> Result<
    Seq<u8>,
    InstructionEncodingError,
> {
    if encodable(m, a, b) && !misread_displacement(a) && !misread_displacement(b) {
        x86asm_encoding(m, a, b)
    } else {
        Err(InstructionEncodingError::NoEncoding)
    }
}

/// The place of one of `R8` to `R15` among them.
pub open spec fn extended_number(r: Reg) -> Option<u8> {
    match r {
        Reg::R8 => Some(0u8),
        Reg::R9 => Some(1u8),
        Reg::R10 => Some(2u8),
        Reg::R11 => Some(3u8),
        Reg::R12 => Some(4u8),
        Reg::R13 => Some(5u8),
        Reg::R14 => Some(6u8),
        Reg::R15 => Some(7u8),
        _ => None,
    }
}

/// `push` and `pop` of one of `R8` to `R15`: the prefix `41`, then `50` for
/// a push or `58` for a pop, plus the register's place. `x86asm` writes
/// these without the prefix, which names the register eight places lower,
/// so they are assembled here.
pub open spec fn extended_stack_encoding(m: Mnemonic, x: Operand) -> Option<Seq<u8>> {
    match x {
        Operand::Direct(r) => match extended_number(r) {
            Some(n) => if m == Mnemonic::PUSH {
                Some(seq![0x41u8, (0x50 + n) as u8])
            } else if m == Mnemonic::POP {
                Some(seq![0x41u8, (0x58 + n) as u8])
            } else {
                None
            },
            None => None,
        },
        _ => None,
    }
}

/// The dword at `[RDX + 128]`: the slot of global 32.
pub open spec fn far_slot() -> Operand {
    Operand::IndirectDisplaced(Reg::RDX, 128, Some(OperandSize::Dword), None)
}

/// `fld` and `fstp` of the dword at `[RDX + 128]`: the opcode `D9`, the
/// ModRM byte that names the operation, `RDX` and a displacement of four
/// bytes, and the displacement. This is the one operand of the generator
/// that `x86asm` would misread, so these two are assembled here.
pub open spec fn far_slot_encoding(m: Mnemonic, x: Operand) -> Option<Seq<u8>> {
    if x == far_slot() && m == Mnemonic::FLD {
        Some(seq![0xd9u8, 0x82u8, 0x80u8, 0u8, 0u8, 0u8])
    } else if x == far_slot() && m == Mnemonic::FSTP {
        Some(seq![0xd9u8, 0x9au8, 0x80u8, 0u8, 0u8, 0u8])
    } else {
        None
    }
}

/// The one-operand instructions that are assembled here.
pub open spec fn own_encoding(m: Mnemonic, x: Operand) -> Option<Seq<u8>> {
    match extended_stack_encoding(m, x) {
        Some(bytes) => Some(bytes),
        None => far_slot_encoding(m, x),
    }
}

/// The bytes of one listing entry.
pub open spec fn item_encoding(a: Item) -> Result<Seq<u8>, InstructionEncodingError> {
    match a {
        Item::Raw(c) => Ok(raw_bytes(c)),
        Item::Op0(m) => checked_encoding(m, None, None),
        Item::Op1(m, x) => match own_encoding(m, x) {
            Some(bytes) => Ok(bytes),
            None => checked_encoding(m, Some(x), None),
        },
        Item::Op2(m, x, y) => if m == Mnemonic::MOV {
            mov_encoding(x, y)
        } else {
            checked_encoding(m, Some(x), Some(y))
        },
    }
}

/// The bytes of a listing: the entries' bytes one after the other, or the
/// error of the first entry that has none.
pub open spec fn listing_encoding(items: Seq<Item>) -> Result<Seq<u8>, InstructionEncodingError>
    decreases items.len(),
{
    if items.len() == 0 {
        Ok(Seq::<u8>::empty())
    } else {
        match listing_encoding(items.drop_last()) {
            Ok(bytes) => match item_encoding(items.last()) {
                Ok(more) => Ok(bytes + more),
                Err(e) => Err(e),
            },
            Err(e) => Err(e),
        }
    }
}

/// The bytes of the entries that stand before the first entry without
/// encoding: those of the whole listing where every entry has one.
pub open spec fn encoded_prefix(items: Seq<Item>) -> Seq<u8>
    decreases items.len(),
{
    if items.len() == 0 {
        Seq::<u8>::empty()
    } else {
        match listing_encoding(items) {
            Ok(bytes) => bytes,
            Err(_) => encoded_prefix(items.drop_last()),
        }
    }
}

/// Entries behind one without encoding add nothing to the encoded prefix.
pub proof fn lemma_encoded_prefix_stops(items: Seq<Item>, k: int)
    requires
        0 <= k < items.len(),
        listing_encoding(items.take(k)) is Ok,
        item_encoding(items[k]) is Err,
    ensures
        encoded_prefix(items) == listing_encoding(items.take(k))->Ok_0,
    decreases items.len() - k,
{
    assert(items.take(k + 1).drop_last() =~= items.take(k));
    assert(listing_encoding(items.take(k + 1)) is Err);
    lemma_listing_error_sticks(items, k + 1);
    if k + 1 == items.len() {
        assert(items.drop_last() =~= items.take(k));
        if k > 0 {
            assert(encoded_prefix(items.take(k)) == listing_encoding(items.take(k))->Ok_0);
        } else {
            assert(items.take(k) =~= Seq::<Item>::empty());
        }
    } else {
        let shorter = items.drop_last();
        assert(shorter.take(k) =~= items.take(k));
        assert(shorter[k] == items[k]);
        lemma_encoded_prefix_stops(shorter, k);
    }
}

/// A listing whose prefix has no encoding has none itself, with the same error.
pub proof fn lemma_listing_error_sticks(items: Seq<Item>, k: int)
    requires
        0 <= k <= items.len(),
        listing_encoding(items.take(k)) is Err,
    ensures
        listing_encoding(items) == listing_encoding(items.take(k)),
    decreases items.len() - k,
{
    if k == items.len() {
        assert(items.take(k) =~= items);
    } else {
        assert(items.take(k + 1).drop_last() =~= items.take(k));
        lemma_listing_error_sticks(items, k + 1);
    }
}

/// The encoding of two listings joined is the joined encoding.
pub proof fn lemma_listing_concat(a: Seq<Item>, b: Seq<Item>)
    ensures
        listing_encoding(a + b) == match listing_encoding(a) {
            Ok(x) => match listing_encoding(b) {
                Ok(y) => Ok(x + y),
                Err(e) => Err(e),
            },
            Err(e) => Err(e),
        },
    decreases b.len(),
{
    if b.len() == 0 {
        assert(a + b =~= a);
        if let Ok(x) = listing_encoding(a) {
            assert(x + Seq::<u8>::empty() =~= x);
        }
    } else {
        assert((a + b).drop_last() =~= a + b.drop_last());
        assert((a + b).last() == b.last());
        lemma_listing_concat(a, b.drop_last());
        if let Ok(x) = listing_encoding(a) {
            if let Ok(y) = listing_encoding(b.drop_last()) {
                if let Ok(z) = item_encoding(b.last()) {
                    assert((x + y) + z =~= x + (y + z));
                }
            }
        }
    }
}

fn raw_code(c: RawCode) -> (out: Vec<u8>)
    ensures
        out@ == raw_bytes(c),
{
    let mut out: Vec<u8> = Vec::new();
    match c {
        RawCode::FstswAx => {
            out.push(0x9b);
            out.push(0xdf);
            out.push(0xe0);
        },
        RawCode::Sahf => {
            out.push(0x9e);
        },
        RawCode::Fcompp => {
            out.push(0xde);
            out.push(0xd9);
        },
        RawCode::MovRaxSlot => {
            out.push(0x48);
            out.push(0xb8);
            out.push(0xf8);
            out.push(0xff);
            out.push(0xff);
            out.push(0xff);
            out.push(0xff);
            out.push(0xff);
            out.push(0xff);
            out.push(0xf8);
        },
    }
    assert(out@ =~= raw_bytes(c));
    out
}

fn is_misread(op: &Option<Operand>) -> (r: bool)
    ensures
        r == misread_displacement(*op),
{
    match op {
        Some(Operand::IndirectDisplaced(base, d, _, _)) => match base {
            Reg::RBP => false,
            _ => *d == 128,
        },
        _ => false,
    }
}

fn encode_checked(m: Mnemonic, a: Option<Operand>, b: Option<Operand>) -> (r: Result<
    Vec<u8>,
    InstructionEncodingError,
>)
    ensures
        encoded_view(r) == checked_encoding(m, a, b),
{
    if is_encodable(m, &a, &b) && !is_misread(&a) && !is_misread(&b) {
        x86asm_encode(m, a, b)
    } else {
        Err(InstructionEncodingError::NoEncoding)
    }
}

fn extended_register(r: Reg) -> (n: Option<u8>)
    ensures
        n == extended_number(r),
{
    match r {
        Reg::R8 => Some(0),
        Reg::R9 => Some(1),
        Reg::R10 => Some(2),
        Reg::R11 => Some(3),
        Reg::R12 => Some(4),
        Reg::R13 => Some(5),
        Reg::R14 => Some(6),
        Reg::R15 => Some(7),
        _ => None,
    }
}

fn encode_extended(m: Mnemonic, x: &Operand) -> (r: Option<Vec<u8>>)
    ensures
        match r {
            Some(bytes) => extended_stack_encoding(m, *x) == Some(bytes@),
            None => extended_stack_encoding(m, *x) is None,
        },
{
    let base: u8 = match m {
        Mnemonic::PUSH => 0x50,
        Mnemonic::POP => 0x58,
        _ => { return None; },
    };
    let place = match x {
        Operand::Direct(r) => extended_register(*r),
        _ => None,
    };
    match place {
        Some(n) => {
            let mut out: Vec<u8> = Vec::new();
            out.push(0x41);
            out.push(base + n);
            assert(out@ =~= seq![0x41u8, (base + n) as u8]);
            Some(out)
        },
        None => None,
    }
}

fn is_far_slot(x: &Operand) -> (r: bool)
    ensures
        r == (*x == far_slot()),
{
    match x {
        Operand::IndirectDisplaced(Reg::RDX, d, Some(OperandSize::Dword), None) => *d == 128,
        _ => false,
    }
}

fn encode_far_slot(m: Mnemonic, x: &Operand) -> (r: Option<Vec<u8>>)
    ensures
        match r {
            Some(bytes) => far_slot_encoding(m, *x) == Some(bytes@),
            None => far_slot_encoding(m, *x) is None,
        },
{
    let field: u8 = match m {
        Mnemonic::FLD => 0x82,
        Mnemonic::FSTP => 0x9a,
        _ => { return None; },
    };
    if !is_far_slot(x) {
        return None;
    }
    let mut out: Vec<u8> = Vec::new();
    out.push(0xd9);
    out.push(field);
    out.push(0x80);
    out.push(0);
    out.push(0);
    out.push(0);
    assert(out@ =~= seq![0xd9u8, field, 0x80u8, 0u8, 0u8, 0u8]);
    Some(out)
}

fn encode_own(m: Mnemonic, x: &Operand) -> (r: Option<Vec<u8>>)
    ensures
        match r {
            Some(bytes) => own_encoding(m, *x) == Some(bytes@),
            None => own_encoding(m, *x) is None,
        },
{
    match encode_extended(m, x) {
        Some(bytes) => Some(bytes),
        None => encode_far_slot(m, x),
    }
}

/// Encodes one listing entry.
pub fn encode_item(a: &Item) -> (r: Result<Vec<u8>, InstructionEncodingError>)
    ensures
        encoded_view(r) == item_encoding(*a),
{
    match a {
        Item::Raw(c) => Ok(raw_code(*c)),
        Item::Op0(m) => encode_checked(*m, None, None),
        Item::Op1(m, x) => match encode_own(*m, x) {
            Some(bytes) => Ok(bytes),
            None => encode_checked(*m, Some(*x), None),
        },
        Item::Op2(m, x, y) => match m {
            Mnemonic::MOV => encode_mov(x, y),
            _ => encode_checked(*m, Some(*x), Some(*y)),
        },
    }
}

/// Appends the bytes of a listing to `out`. On an error `out` holds what it
/// held before, followed by the bytes of the entries before the failing one.
pub fn assemble_into(out: &mut Vec<u8>, items: &Vec<Item>) -> (r: Result<(), InstructionEncodingError>)
    ensures
        match listing_encoding(items@) {
            Ok(bytes) => r is Ok,
            Err(e) => r == Err::<(), InstructionEncodingError>(e),
        },
        final(out)@ == old(out)@ + encoded_prefix(items@),
{
    let mut i: usize = 0;
    let ghost start = out@;
    let ghost mut done = Seq::<u8>::empty();
    assert(items@.take(0) =~= Seq::<Item>::empty());
    assert(start + done =~= start);
    while i < items.len()
        invariant
            0 <= i <= items.len(),
            listing_encoding(items@.take(i as int)) == Ok::<Seq<u8>, InstructionEncodingError>(done),
            out@ == start + done,
            start == old(out)@,
        decreases items.len() - i,
    {
        proof {
            assert(items@.take(i + 1).drop_last() =~= items@.take(i as int));
            assert(items@.take(i + 1).last() == items@[i as int]);
        }
        match encode_item(&items[i]) {
            Ok(mut bytes) => {
                proof {
                    assert((start + done) + bytes@ =~= start + (done + bytes@));
                    done = done + bytes@;
                }
                out.append(&mut bytes);
            },
            Err(e) => {
                proof {
                    assert(listing_encoding(items@.take(i + 1)) == Err::<Seq<u8>, InstructionEncodingError>(e));
                    lemma_listing_error_sticks(items@, i + 1);
                    lemma_encoded_prefix_stops(items@, i as int);
                }
                return Err(e);
            },
        }
        i = i + 1;
    }
    assert(items@.take(i as int) =~= items@);
    Ok(())
}

} // verus!
