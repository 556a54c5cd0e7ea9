//! A just-in-time compiler from MotionScript bytecode to x86-64 machine code.
//!
//! A program is a list of scripts, a pool of strings and an entrypoint, as
//! the `msc` crate reads them from a container. Each script is compiled into
//! a region of whole pages that holds its machine code; calls between
//! scripts are linked once the address of every region is known.
//!
//! The library decides what code is emitted and where, and proves it against
//! its own account of every step. It does not map memory, change page
//! protection or run code: the host does, and hands the library the
//! addresses and outcomes that it needs.
//!
//! - [`lower`] turns one command into a listing of instructions;
//!   [`stack`] proves that the listing moves the stack pointer as the
//!   command moves the virtual stack, [`forms`] that each instruction is
//!   one that the assembly knows, [`machine`] that a call's arguments
//!   reach the callee's local slots;
//! - [`listing`] assembles listings into bytes, through `x86asm`
//!   ([`encoder`]); `MOV` ([`mov`]) and the pushes and pops of `R8` to
//!   `R15`, which `x86asm` does not assemble, it assembles itself;
//! - [`script`] runs the generator over a script and resolves its jumps;
//! - [`program`] compiles and links whole programs, over the regions of
//!   [`memory`]; [`addresses`] proves that the host's addresses change
//!   nothing in the code but 64-bit immediates;
//! - [`printf`] reads the format strings of the print helper;
//! - [`ast`] reads a script as a syntax tree.

pub mod addresses;
pub mod asm_helper;
pub mod ast;
pub mod bytecode;
pub mod encoder;
pub mod forms;
pub mod into_operand;
pub mod listing;
pub mod lower;
pub mod machine;
pub mod memory;
pub mod mov;
pub mod printf;
pub mod program;
pub mod script;
pub mod stack;

pub use crate::asm_helper::AsmWriterHelper;
pub use crate::ast::AsAst;
pub use crate::into_operand::IntoOperand;
pub use crate::lower::{CompileError, HostEnv};
pub use crate::memory::JitMemory;
pub use crate::program::{Compilable, CompiledProgram};
