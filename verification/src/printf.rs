//! The print helper's reading of a format string.
//!
//! Compiled code pushes its arguments left to right, so the argument vector
//! that the helper receives holds them right to left: conversion number `i`
//! takes slot `argc - i - 1`. This module splits a format into the steps
//! that the host then carries out one by one.

use vstd::prelude::*;

verus! {

/// One step of printing.
#[derive(Clone, Copy, Debug, PartialEq, Eq, Structural)]
pub enum PrintStep {
    /// Print this byte.
    Char(u8),
    /// Print argument `slot` as an integer, a character or a pointer with
    /// the conversion `fmt[start..end]`.
    Integer { start: usize, end: usize, slot: usize },
    /// Print the low 32 bits of argument `slot`, read as a float, with the
    /// conversion `fmt[start..end]`.
    Float { start: usize, end: usize, slot: usize },
    /// The conversion `fmt[start..end]` has no argument left to print.
    Missing { start: usize, end: usize },
    /// A conversion that is not known: it is skipped with a warning.
    Unknown,
}

/// The byte at `i`, or the closing NUL behind the format.
pub open spec fn byte_at(fmt: Seq<u8>, i: int) -> u8 {
    if 0 <= i < fmt.len() {
        fmt[i]
    } else {
        0
    }
}

pub open spec fn is_digit(b: u8) -> bool {
    0x30 <= b <= 0x39
}

/// The first position from `i` on that holds no decimal digit.
pub open spec fn skip_digits(fmt: Seq<u8>, i: int) -> int
    decreases fmt.len() - i,
{
    if 0 <= i < fmt.len() && is_digit(fmt[i]) {
        skip_digits(fmt, i + 1)
    } else {
        i
    }
}

/// Where the conversion character of the specifier that starts at `start`
/// stands: behind the `%`, a width, and a `.` with a precision.
pub open spec fn conversion_at(fmt: Seq<u8>, start: int) -> int {
    let width_end = skip_digits(fmt, start + 1);
    if byte_at(fmt, width_end) == 0x2e {
        skip_digits(fmt, width_end + 1)
    } else {
        width_end
    }
}

/// `c d i l o x p u X`
pub open spec fn is_integer_conversion(b: u8) -> bool {
    b == 0x63 || b == 0x64 || b == 0x69 || b == 0x6c || b == 0x6f || b == 0x78 || b == 0x70 || b == 0x75 || b
        == 0x58
}

/// `f e g`
pub open spec fn is_float_conversion(b: u8) -> bool {
    b == 0x66 || b == 0x65 || b == 0x67
}

/// The step for the specifier that starts at `start`, given that `used`
/// arguments were printed before it.
pub open spec fn specifier_step(fmt: Seq<u8>, start: int, used: int, argc: int) -> PrintStep {
    let at = conversion_at(fmt, start);
    let b = byte_at(fmt, at);
    if byte_at(fmt, start + 1) == 0x25 {
        PrintStep::Char(0x25)
    } else if is_integer_conversion(b) || is_float_conversion(b) {
        if used < argc {
            if is_integer_conversion(b) {
                PrintStep::Integer { start: start as usize, end: (at + 1) as usize, slot: (argc - used - 1) as usize }
            } else {
                PrintStep::Float { start: start as usize, end: (at + 1) as usize, slot: (argc - used - 1) as usize }
            }
        } else {
            PrintStep::Missing { start: start as usize, end: (at + 1) as usize }
        }
    } else {
        PrintStep::Unknown
    }
}

/// Where reading goes on behind the specifier that starts at `start`.
pub open spec fn specifier_end(fmt: Seq<u8>, start: int) -> int {
    if byte_at(fmt, start + 1) == 0x25 {
        start + 2
    } else {
        conversion_at(fmt, start) + 1
    }
}

/// Whether the specifier that starts at `start` prints an argument.
pub open spec fn takes_argument(fmt: Seq<u8>, start: int) -> bool {
    let b = byte_at(fmt, conversion_at(fmt, start));
    byte_at(fmt, start + 1) != 0x25 && (is_integer_conversion(b) || is_float_conversion(b))
}

pub proof fn lemma_skip_digits_bounds(fmt: Seq<u8>, i: int)
    requires
        0 <= i,
    ensures
        i <= skip_digits(fmt, i),
        skip_digits(fmt, i) <= fmt.len() || skip_digits(fmt, i) == i,
    decreases fmt.len() - i,
{
    if 0 <= i < fmt.len() && is_digit(fmt[i]) {
        lemma_skip_digits_bounds(fmt, i + 1);
    }
}

/// The steps for the format from `pos` on, where `used` arguments were
/// printed before.
pub open spec fn steps_from(fmt: Seq<u8>, pos: int, used: int, argc: int) -> Seq<PrintStep>
    decreases fmt.len() + 1 - pos,
    when 0 <= pos
    via steps_from_decreases
{
    if pos >= fmt.len() {
        Seq::<PrintStep>::empty()
    } else if fmt[pos] == 0x25 {
        seq![specifier_step(fmt, pos, used, argc)] + steps_from(
            fmt,
            specifier_end(fmt, pos),
            if takes_argument(fmt, pos) {
                used + 1
            } else {
                used
            },
            argc,
        )
    } else {
        seq![PrintStep::Char(fmt[pos])] + steps_from(fmt, pos + 1, used, argc)
    }
}

#[via_fn]
proof fn steps_from_decreases(fmt: Seq<u8>, pos: int, used: int, argc: int) {
    if pos < fmt.len() && fmt[pos] == 0x25 {
        lemma_skip_digits_bounds(fmt, pos + 1);
        lemma_skip_digits_bounds(fmt, skip_digits(fmt, pos + 1) + 1);
        assert(pos < specifier_end(fmt, pos) <= fmt.len() + 1);
    }
}

/// The steps that print `fmt` with `argc` arguments at hand.
pub open spec fn print_steps(fmt: Seq<u8>, argc: int) -> Seq<PrintStep> {
    steps_from(fmt, 0, 0, argc)
}

fn read(fmt: &[u8], i: usize) -> (b: u8)
    ensures
        b == byte_at(fmt@, i as int),
{
    if i < fmt.len() {
        fmt[i]
    } else {
        0
    }
}

fn digits_end(fmt: &[u8], from: usize) -> (to: usize)
    ensures
        to == skip_digits(fmt@, from as int),
        from <= to,
        to <= fmt@.len() || to == from,
{
    let mut i = from;
    while i < fmt.len() && 0x30 <= fmt[i] && fmt[i] <= 0x39
        invariant
            from <= i,
            i <= fmt@.len() || i == from,
            skip_digits(fmt@, i as int) == skip_digits(fmt@, from as int),
        decreases fmt@.len() - i,
    {
        i = i + 1;
    }
    i
}

fn conversion_position(fmt: &[u8], start: usize) -> (at: usize)
    requires
        start < fmt@.len(),
    ensures
        at == conversion_at(fmt@, start as int),
        start < at <= fmt@.len(),
{
    let len = fmt.len();
    let width_end = digits_end(fmt, start + 1);
    if read(fmt, width_end) == 0x2e {
        digits_end(fmt, width_end + 1)
    } else {
        width_end
    }
}

fn integer_conversion(b: u8) -> (r: bool)
    ensures
        r == is_integer_conversion(b),
{
    b == 0x63 || b == 0x64 || b == 0x69 || b == 0x6c || b == 0x6f || b == 0x78 || b == 0x70 || b == 0x75 || b
        == 0x58
}

fn float_conversion(b: u8) -> (r: bool)
    ensures
        r == is_float_conversion(b),
{
    b == 0x66 || b == 0x65 || b == 0x67
}

/// Splits a format into printing steps. `fmt` is the format without its
/// closing NUL and `argc` the number of arguments at hand.
pub fn msc_printf(fmt: &[u8], argc: usize) -> (steps: Vec<PrintStep>)
    ensures
        steps@ == print_steps(fmt@, argc as int),
{
    let mut steps: Vec<PrintStep> = Vec::new();
    let mut pos: usize = 0;
    let mut used: usize = 0;
    while pos < fmt.len()
        invariant
            used <= pos,
            steps@ + steps_from(fmt@, pos as int, used as int, argc as int) == print_steps(fmt@, argc as int),
        decreases fmt@.len() - pos,
    {
        let ghost rest = steps_from(fmt@, pos as int, used as int, argc as int);
        let ghost before = steps@;
        if fmt[pos] == 0x25 {
            let at = conversion_position(fmt, pos);
            let b = read(fmt, at);
            if read(fmt, pos + 1) == 0x25 {
                steps.push(PrintStep::Char(0x25));
                pos = pos + 2;
            } else if integer_conversion(b) || float_conversion(b) {
                if used < argc {
                    if integer_conversion(b) {
                        steps.push(PrintStep::Integer { start: pos, end: at + 1, slot: argc - used - 1 });
                    } else {
                        steps.push(PrintStep::Float { start: pos, end: at + 1, slot: argc - used - 1 });
                    }
                } else {
                    steps.push(PrintStep::Missing { start: pos, end: at + 1 });
                }
                used = used + 1;
                pos = at + 1;
            } else {
                steps.push(PrintStep::Unknown);
                pos = if at < fmt.len() {
                    at + 1
                } else {
                    at
                };
            }
        } else {
            steps.push(PrintStep::Char(fmt[pos]));
            pos = pos + 1;
        }
        proof {
            let next = steps_from(fmt@, pos as int, used as int, argc as int);
            assert(steps_from(fmt@, fmt@.len() as int + 1, used as int, argc as int)
                == Seq::<PrintStep>::empty());
            assert(steps_from(fmt@, fmt@.len() as int, used as int, argc as int) == Seq::<PrintStep>::empty());
            assert(rest == seq![steps@.last()] + next);
            assert(before + rest =~= steps@ + next);
        }
    }
    assert(steps@ + Seq::<PrintStep>::empty() =~= steps@);
    steps
}

} // verus!
