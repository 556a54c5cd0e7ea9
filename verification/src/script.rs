//! The per-script code generator: one forward pass over the commands, then
//! the resolution of the jumps within the script.

use std::collections::{HashMap, HashSet};
use vstd::prelude::*;
use msc::{Cmd, Command, Script};
use x86asm::{Mnemonic, Operand, OperandSize, Reg};
use crate::asm_helper::{emit1, emit2, frame_setup, frame_teardown, padded_locals, AsmWriterHelper, ListingWriter};
use crate::bytecode::opcode_value;
use crate::into_operand::displaced;
use crate::listing::{assemble_into, encode_item, item_encoding, listing_encoding, Item};
use crate::lower::{
    arg_reg_32, arg_regs_32, jump_item, jump_length, jump_opcode, jump_size, local_slot, lower_command, lowering,
    push_immediate, refuse_violating, reg, violating, CompileError, Effect, HostEnv, JumpKind, Lowering, Violation,
};

verus! {

broadcast use vstd::std_specs::hash::group_hash_axioms;

/// A jump whose displacement is filled in once every command has its offset.
#[derive(Clone, Copy, Debug, PartialEq, Eq, Structural)]
pub struct JumpFixup {
    /// Code offset of the jump instruction.
    pub at: usize,
    pub kind: JumpKind,
    /// Position of the command jumped to, relative to the script.
    pub target: u32,
    /// Position of the jumping command.
    pub source: u32,
    /// Number of the jumping command's opcode.
    pub opcode: u8,
}

/// The place of a call's address slot and the offset of the script it calls.
#[derive(Clone, Copy, Debug, PartialEq, Eq, Structural)]
pub struct CallReloc {
    /// Index of the calling script.
    pub script: usize,
    /// Code offset of the slot: the 64-bit address starts two bytes further.
    pub at: usize,
    /// Offset in the container at which the callee starts.
    pub callee: u32,
    /// Position of the calling command.
    pub source: u32,
    /// Number of the calling command's opcode.
    pub opcode: u8,
}

/// The generator's state between two commands.
pub struct Generator {
    pub code: Vec<u8>,
    /// A push of an immediate by the last command, with that command's
    /// position: it is written when the next command turns out not to be a
    /// call that takes it for its callee.
    pub pending: Option<(u32, u32)>,
    /// The code offset recorded for each command position.
    pub locations: HashMap<u32, usize>,
    pub jumps: Vec<JumpFixup>,
    /// The container positions at which a return value is pushed on arrival.
    pub tries: HashSet<u32>,
    pub relocs: Vec<CallReloc>,
}

pub struct GenState {
    pub code: Seq<u8>,
    pub pending: Option<(u32, u32)>,
    pub locations: Map<u32, usize>,
    pub jumps: Seq<JumpFixup>,
    pub tries: Set<u32>,
    pub relocs: Seq<CallReloc>,
}

impl View for Generator {
    type V = GenState;

    open spec fn view(&self) -> GenState {
        GenState {
            code: self.code@,
            pending: self.pending,
            locations: self.locations@,
            jumps: self.jumps@,
            tries: self.tries@,
            relocs: self.relocs@,
        }
    }
}

/// The machine code of one script and the calls in it that await linking.
#[derive(Debug)]
pub struct CompiledScript {
    pub code: Vec<u8>,
    pub relocs: Vec<CallReloc>,
}

pub struct ScriptImage {
    pub code: Seq<u8>,
    pub relocs: Seq<CallReloc>,
}

impl View for CompiledScript {
    type V = ScriptImage;

    open spec fn view(&self) -> ScriptImage {
        ScriptImage { code: self.code@, relocs: self.relocs@ }
    }
}

/// `code` followed by the bytes of `items`; an entry without encoding is an
/// encoding failure of the command at `position`.
pub open spec fn appended(code: Seq<u8>, items: Seq<Item>, position: u32) -> Result<Seq<u8>, CompileError> {
    match listing_encoding(items) {
        Ok(bytes) => Ok(code + bytes),
        Err(_) => Err(CompileError::EncodingFailure { position }),
    }
}

pub open spec fn is_call(c: Cmd) -> bool {
    match c {
        Cmd::CallFunc { arg_count } | Cmd::CallFunc2 { arg_count } | Cmd::CallFunc3 { arg_count } => true,
        _ => false,
    }
}

/// The immediate that a command leaves on the stack, where it is a push of one.
pub open spec fn pushed_immediate(cmd: Command) -> Option<u32> {
    match cmd.cmd {
        Cmd::PushInt { val } => if cmd.push_bit {
            Some(val)
        } else {
            None
        },
        Cmd::PushShort { val } => if cmd.push_bit {
            Some(val as u32)
        } else {
            None
        },
        _ => None,
    }
}

/// Whether a return value is pushed on arrival at the command.
pub open spec fn marked(tries: Set<u32>, script_start: u32, position: u32) -> bool {
    script_start + position <= u32::MAX && tries.contains((script_start + position) as u32)
}

pub open spec fn return_value_push() -> Seq<Item> {
    seq![Item::Op1(Mnemonic::PUSH, reg(Reg::RAX))]
}

/// What happens on arrival at a command. A pending push becomes the callee
/// of a call; before anything else it is written out. Where the position is
/// marked, `push rax` follows.
#[verifier::opaque]
pub open spec fn arrival(st: GenState, cmd: Command, script_start: u32) -> Result<
    (GenState, Option<u32>),
    CompileError,
> {
    let m = marked(st.tries, script_start, cmd.position);
    match st.pending {
        Some((val, position)) => if is_call(cmd.cmd) && !m {
            Ok(
                (
                    GenState {
                        code: st.code,
                        pending: None,
                        locations: st.locations,
                        jumps: st.jumps,
                        tries: st.tries,
                        relocs: st.relocs,
                    },
                    Some(val),
                ),
            )
        } else {
            match appended(st.code, seq![push_immediate(val)], position) {
                Err(e) => Err(e),
                Ok(code) => arrival_mark(
                    GenState {
                        code,
                        pending: None,
                        locations: st.locations,
                        jumps: st.jumps,
                        tries: st.tries,
                        relocs: st.relocs,
                    },
                    m,
                    cmd.position,
                ),
            }
        },
        None => arrival_mark(st, m, cmd.position),
    }
}

pub open spec fn arrival_mark(st: GenState, m: bool, position: u32) -> Result<
    (GenState, Option<u32>),
    CompileError,
> {
    if m {
        match appended(st.code, return_value_push(), position) {
            Err(e) => Err(e),
            Ok(code) => Ok(
                (
                    GenState {
                        code,
                        pending: st.pending,
                        locations: st.locations,
                        jumps: st.jumps,
                        tries: st.tries,
                        relocs: st.relocs,
                    },
                    None,
                ),
            ),
        }
    } else {
        Ok((st, None))
    }
}

/// The state after the code of a lowered command was written behind `st.code`.
pub open spec fn recorded(
    st: GenState,
    l: Lowering,
    mid: Seq<u8>,
    code: Seq<u8>,
    cmd: Command,
    index: usize,
) -> Result<GenState, CompileError> {
    let position = cmd.position;
    let opcode = opcode_value(cmd.cmd);
    let start = st.code.len() as usize;
    let at = mid.len() as usize;
    match l.effect {
        Effect::Plain => Ok(
            GenState {
                code,
                pending: None,
                locations: st.locations.insert(position, start),
                jumps: st.jumps,
                tries: st.tries,
                relocs: st.relocs,
            },
        ),
        Effect::Jump { kind, target } => if code.len() - mid.len() == jump_length(kind) {
            Ok(
                GenState {
                    code,
                    pending: None,
                    locations: st.locations.insert(position, start),
                    jumps: st.jumps.push(JumpFixup { at, kind, target, source: position, opcode }),
                    tries: st.tries,
                    relocs: st.relocs,
                },
            )
        } else {
            Err(CompileError::EncodingFailure { position })
        },
        Effect::Call { callee } => Ok(
            GenState {
                code,
                pending: None,
                locations: st.locations.insert(position, at),
                jumps: st.jumps,
                tries: st.tries,
                relocs: st.relocs.push(CallReloc { script: index, at, callee, source: position, opcode }),
            },
        ),
        Effect::Try { target } => Ok(
            GenState {
                code,
                pending: None,
                locations: st.locations.insert(position, start),
                jumps: st.jumps,
                tries: st.tries.insert(target),
                relocs: st.relocs,
            },
        ),
    }
}

/// The effect of one command on the state reached on arrival at it.
#[verifier::opaque]
pub open spec fn performed(
    st: GenState,
    callee: Option<u32>,
    cmd: Command,
    index: usize,
    var_count: u16,
    script_start: u32,
    env: HostEnv,
) -> Result<GenState, CompileError> {
    match lowering(cmd, callee, var_count, script_start, env) {
        Err(e) => Err(e),
        Ok(l) => match pushed_immediate(cmd) {
            Some(val) => Ok(
                GenState {
                    code: st.code,
                    pending: Some((val, cmd.position)),
                    locations: st.locations.insert(cmd.position, st.code.len() as usize),
                    jumps: st.jumps,
                    tries: st.tries,
                    relocs: st.relocs,
                },
            ),
            None => match appended(st.code, l.head, cmd.position) {
                Err(e) => Err(e),
                Ok(mid) => match appended(mid, l.tail, cmd.position) {
                    Err(e) => Err(e),
                    Ok(code) => recorded(st, l, mid, code, cmd, index),
                },
            },
        },
    }
}

/// One step of the generator.
pub open spec fn stepped(
    st: GenState,
    cmd: Command,
    index: usize,
    var_count: u16,
    script_start: u32,
    env: HostEnv,
) -> Result<GenState, CompileError> {
    match arrival(st, cmd, script_start) {
        Err(e) => Err(e),
        Ok((arrived, callee)) => performed(arrived, callee, cmd, index, var_count, script_start, env),
    }
}

/// Where stack argument `i` of the script is found on entry, past the saved
/// frame pointer, the return address and the padded locals.
pub open spec fn incoming_slot(i: int, var_count: u16) -> Operand {
    displaced(Reg::RSP, (8 * i + 16 + 4 * padded_locals(var_count as int)) as u64, OperandSize::Dword)
}

pub open spec fn stack_spill(var_count: u16, j: int) -> Item {
    if j % 2 == 0 {
        Item::Op2(Mnemonic::MOV, reg(Reg::EAX), incoming_slot(j / 2, var_count))
    } else {
        Item::Op2(Mnemonic::MOV, local_slot((j / 2 + 6) as u16), reg(Reg::EAX))
    }
}

/// The frame setup and the spill of the incoming arguments into the first
/// local slots: six from registers, the rest from the caller's frame.
pub open spec fn prologue(arg_count: u16, var_count: u16) -> Seq<Item> {
    let in_regs: int = if arg_count < 6 {
        arg_count as int
    } else {
        6
    };
    frame_setup(var_count as u32) + Seq::new(
        in_regs as nat,
        |i: int| Item::Op2(Mnemonic::MOV, local_slot(i as u16), reg(arg_regs_32()[i])),
    ) + Seq::new((2 * (arg_count - in_regs)) as nat, |j: int| stack_spill(var_count, j))
}

/// The counts that the script's first command declares.
pub open spec fn script_header(commands: Seq<Command>) -> Option<(u16, u16)> {
    if commands.len() > 0 {
        match commands[0].cmd {
            Cmd::Begin { arg_count, var_count } => Some((arg_count, var_count)),
            _ => None,
        }
    } else {
        None
    }
}

/// The state after the prologue and the first `n` commands that follow `Begin`.
pub open spec fn generated(
    commands: Seq<Command>,
    index: usize,
    arg_count: u16,
    var_count: u16,
    script_start: u32,
    env: HostEnv,
    n: nat,
) -> Result<GenState, CompileError>
    decreases n,
{
    if n == 0 {
        match appended(Seq::<u8>::empty(), prologue(arg_count, var_count), commands[0].position) {
            Err(e) => Err(e),
            Ok(code) => Ok(
                GenState {
                    code,
                    pending: None,
                    locations: Map::<u32, usize>::empty(),
                    jumps: Seq::<JumpFixup>::empty(),
                    tries: Set::<u32>::empty(),
                    relocs: Seq::<CallReloc>::empty(),
                },
            ),
        }
    } else {
        match generated(commands, index, arg_count, var_count, script_start, env, (n - 1) as nat) {
            Err(e) => Err(e),
            Ok(st) => stepped(st, commands[n as int], index, var_count, script_start, env),
        }
    }
}

/// The code once a push still pending at the end is written out.
pub open spec fn flushed(st: GenState) -> Result<Seq<u8>, CompileError> {
    match st.pending {
        Some((val, position)) => appended(st.code, seq![push_immediate(val)], position),
        None => Ok(st.code),
    }
}

/// The displacement that takes a jump at `at` to `target`, where it fits
/// 32 bits: counted from the end of the jump, in two's complement.
pub open spec fn jump_displacement(target: usize, at: usize, kind: JumpKind) -> Option<u32> {
    let d = target - (at + jump_length(kind));
    if 0 <= d <= 0x7fff_ffff {
        Some(d as u32)
    } else if -0x8000_0000 <= d < 0 {
        Some((d + 0x1_0000_0000) as u32)
    } else {
        None
    }
}

/// `code` with `bytes` written over what stood at `at`.
pub open spec fn overwritten(code: Seq<u8>, at: int, bytes: Seq<u8>) -> Seq<u8> {
    code.subrange(0, at) + bytes + code.subrange(at + bytes.len(), code.len() as int)
}

/// The code with one jump resolved: the jump is encoded anew with the
/// displacement to the offset recorded for its target and written over the
/// placeholder.
#[verifier::opaque]
pub open spec fn patched(code: Seq<u8>, locations: Map<u32, usize>, j: JumpFixup) -> Result<
    Seq<u8>,
    CompileError,
> {
    if !locations.contains_key(j.target) {
        Err(
            CompileError::StructuralViolation {
                position: j.source,
                opcode: Some(j.opcode),
                violation: Violation::JumpTarget,
            },
        )
    } else if j.at + jump_length(j.kind) > code.len() {
        Err(CompileError::EncodingFailure { position: j.source })
    } else {
        match jump_displacement(locations[j.target], j.at, j.kind) {
            None => Err(CompileError::EncodingFailure { position: j.source }),
            Some(rel) => match item_encoding(jump_item(j.kind, rel)) {
                Err(_) => Err(CompileError::EncodingFailure { position: j.source }),
                Ok(bytes) => if bytes.len() == jump_length(j.kind) {
                    Ok(overwritten(code, j.at as int, bytes))
                } else {
                    Err(CompileError::EncodingFailure { position: j.source })
                },
            },
        }
    }
}

/// The code with the first `n` jumps resolved, in the order they were recorded.
pub open spec fn resolved(code: Seq<u8>, locations: Map<u32, usize>, jumps: Seq<JumpFixup>, n: nat) -> Result<
    Seq<u8>,
    CompileError,
>
    decreases n,
{
    if n == 0 {
        Ok(code)
    } else {
        match resolved(code, locations, jumps, (n - 1) as nat) {
            Err(e) => Err(e),
            Ok(c) => patched(c, locations, jumps[n - 1]),
        }
    }
}

/// The code of a script once it is closed: where no command follows
/// `Begin`, the frame teardown follows the prologue, so that the script
/// returns at once with the stack as it found it.
pub open spec fn closed(code: Seq<u8>, commands: Seq<Command>, var_count: u16) -> Result<Seq<u8>, CompileError> {
    if commands.len() == 1 {
        appended(code, frame_teardown(var_count as u32), commands[0].position)
    } else {
        Ok(code)
    }
}

/// The refusal of a script that does not start with `Begin`.
pub open spec fn missing_begin(commands: Seq<Command>) -> CompileError {
    if commands.len() > 0 {
        violating(commands[0], Violation::MissingBegin)
    } else {
        CompileError::StructuralViolation { position: 0, opcode: None, violation: Violation::MissingBegin }
    }
}

/// What a script compiles to: the code of its prologue and of each command
/// after `Begin`, closed by the frame teardown where there is none, with
/// every jump resolved, and the calls to link. A script that does not start
/// with `Begin` is refused.
pub open spec fn compiled_script(script: Script, index: usize, env: HostEnv) -> Result<ScriptImage, CompileError> {
    let commands = script.commands@;
    match script_header(commands) {
        None => Err(missing_begin(commands)),
        Some((arg_count, var_count)) => match generated(
            commands,
            index,
            arg_count,
            var_count,
            script.bounds.0,
            env,
            (commands.len() - 1) as nat,
        ) {
            Err(e) => Err(e),
            Ok(st) => match flushed(st) {
                Err(e) => Err(e),
                Ok(flushed_code) => match closed(flushed_code, commands, var_count) {
                    Err(e) => Err(e),
                    Ok(code) => match resolved(code, st.locations, st.jumps, st.jumps.len()) {
                        Err(e) => Err(e),
                        Ok(done) => Ok(ScriptImage { code: done, relocs: st.relocs }),
                    },
                },
            },
        },
    }
}

/// Once the generator has failed it stays failed.
pub proof fn lemma_generated_error_sticks(
    commands: Seq<Command>,
    index: usize,
    arg_count: u16,
    var_count: u16,
    script_start: u32,
    env: HostEnv,
    n: nat,
    m: nat,
)
    requires
        n <= m,
        generated(commands, index, arg_count, var_count, script_start, env, n) is Err,
    ensures
        generated(commands, index, arg_count, var_count, script_start, env, m) == generated(
            commands,
            index,
            arg_count,
            var_count,
            script_start,
            env,
            n,
        ),
    decreases m - n,
{
    if n < m {
        lemma_generated_error_sticks(commands, index, arg_count, var_count, script_start, env, n, (m - 1) as nat);
    }
}

/// Once a jump cannot be resolved the resolution stays failed.
pub proof fn lemma_resolved_error_sticks(
    code: Seq<u8>,
    locations: Map<u32, usize>,
    jumps: Seq<JumpFixup>,
    n: nat,
    m: nat,
)
    requires
        n <= m,
        resolved(code, locations, jumps, n) is Err,
    ensures
        resolved(code, locations, jumps, m) == resolved(code, locations, jumps, n),
    decreases m - n,
{
    if n < m {
        lemma_resolved_error_sticks(code, locations, jumps, n, (m - 1) as nat);
    }
}

/// Where the jump at `at` leads once it holds the displacement `rel`: the
/// displacement counts from the end of the jump and is signed.
pub open spec fn jump_destination(at: usize, kind: JumpKind, rel: u32) -> int {
    at + jump_length(kind) + (if rel < 0x8000_0000 {
        rel as int
    } else {
        rel - 0x1_0000_0000
    })
}

/// The displacement computed for a jump takes it to its target exactly.
pub proof fn lemma_jump_lands(target: usize, at: usize, kind: JumpKind)
    requires
        jump_displacement(target, at, kind) is Some,
    ensures
        jump_destination(at, kind, jump_displacement(target, at, kind)->Some_0) == target,
{
}

/// The jump stands in the code, encoded with the displacement that takes it
/// to the offset recorded for its target.
pub open spec fn jump_stands(code: Seq<u8>, locations: Map<u32, usize>, j: JumpFixup) -> bool {
    let rel = jump_displacement(locations[j.target], j.at, j.kind);
    &&& locations.contains_key(j.target)
    &&& rel is Some
    &&& jump_destination(j.at, j.kind, rel->Some_0) == locations[j.target]
    &&& item_encoding(jump_item(j.kind, rel->Some_0)) == Ok::<Seq<u8>, x86asm::InstructionEncodingError>(
        code.subrange(j.at as int, j.at + jump_length(j.kind)),
    )
}

/// A resolved jump stands where its placeholder stood, encoded with the
/// displacement to the offset recorded for its target; the code keeps its
/// length and every other byte.
pub proof fn lemma_patched_jump(code: Seq<u8>, locations: Map<u32, usize>, j: JumpFixup)
    requires
        patched(code, locations, j) is Ok,
    ensures
        ({
            let done = patched(code, locations, j)->Ok_0;
            &&& jump_stands(done, locations, j)
            &&& done.len() == code.len()
            &&& j.at + jump_length(j.kind) <= code.len()
            &&& forall|i: int|
                0 <= i < code.len() && !(j.at <= i < j.at + jump_length(j.kind)) ==> done[i] == code[i]
        }),
{
    reveal(patched);
    let rel = jump_displacement(locations[j.target], j.at, j.kind)->Some_0;
    let bytes = item_encoding(jump_item(j.kind, rel))->Ok_0;
    let done = patched(code, locations, j)->Ok_0;
    assert(done == overwritten(code, j.at as int, bytes));
    assert(done.subrange(j.at as int, j.at + jump_length(j.kind)) =~= bytes);
}

/// The jumps lie one behind the other in the order they were recorded, all
/// of them within the first `end` bytes.
pub open spec fn jumps_in_order(jumps: Seq<JumpFixup>, end: int) -> bool {
    &&& forall|k: int|
        0 <= k < jumps.len() ==> (#[trigger] jumps[k]).at + jump_length(jumps[k].kind) <= end
    &&& forall|i: int, k: int|
        0 <= i < k < jumps.len() ==> (#[trigger] jumps[i]).at + jump_length(jumps[i].kind) <= (
        #[trigger] jumps[k]).at
}

/// Once the first `n` jumps are resolved, each of them stands in the code
/// with the displacement to the offset recorded for its target, and the
/// code has kept its length.
pub proof fn lemma_resolved_jumps(
    code: Seq<u8>,
    locations: Map<u32, usize>,
    jumps: Seq<JumpFixup>,
    n: nat,
    k: int,
)
    requires
        jumps_in_order(jumps, code.len() as int),
        0 <= k < n <= jumps.len(),
        resolved(code, locations, jumps, n) is Ok,
    ensures
        resolved(code, locations, jumps, n)->Ok_0.len() == code.len(),
        jump_stands(resolved(code, locations, jumps, n)->Ok_0, locations, jumps[k]),
    decreases n,
{
    let before = resolved(code, locations, jumps, (n - 1) as nat)->Ok_0;
    let done = resolved(code, locations, jumps, n)->Ok_0;
    let last = jumps[n - 1];
    lemma_resolved_length(code, locations, jumps, (n - 1) as nat);
    lemma_patched_jump(before, locations, last);
    if k < n - 1 {
        lemma_resolved_jumps(code, locations, jumps, (n - 1) as nat, k);
        assert(jumps[k].at + jump_length(jumps[k].kind) <= jumps[n - 1].at);
        let j = jumps[k];
        assert(done.subrange(j.at as int, j.at + jump_length(j.kind)) =~= before.subrange(
            j.at as int,
            j.at + jump_length(j.kind),
        ));
    }
}

/// Resolving jumps keeps the length of the code.
pub proof fn lemma_resolved_length(code: Seq<u8>, locations: Map<u32, usize>, jumps: Seq<JumpFixup>, n: nat)
    requires
        n <= jumps.len(),
        resolved(code, locations, jumps, n) is Ok,
    ensures
        resolved(code, locations, jumps, n)->Ok_0.len() == code.len(),
    decreases n,
{
    if n > 0 {
        lemma_resolved_length(code, locations, jumps, (n - 1) as nat);
        lemma_patched_jump(resolved(code, locations, jumps, (n - 1) as nat)->Ok_0, locations, jumps[n - 1]);
    }
}

/// The calls lie one behind the other in the order they were recorded, each
/// with its whole slot within the first `end` bytes, all in script `index`.
pub open spec fn relocs_in_order(relocs: Seq<CallReloc>, index: usize, end: int) -> bool {
    &&& forall|k: int|
        0 <= k < relocs.len() ==> (#[trigger] relocs[k]).at + 10 <= end && relocs[k].script == index
    &&& forall|i: int, k: int|
        0 <= i < k < relocs.len() ==> (#[trigger] relocs[i]).at + 10 <= (#[trigger] relocs[k]).at
}

/// The code of a call's tail starts with the ten bytes of the address slot.
pub proof fn lemma_call_slot(arg_count: u8)
    requires
        listing_encoding(crate::lower::call_transfer(arg_count)) is Ok,
    ensures
        listing_encoding(crate::lower::call_transfer(arg_count))->Ok_0.len() >= 10,
{
    let slot = seq![Item::Raw(crate::listing::RawCode::MovRaxSlot)];
    let tail = crate::lower::call_transfer(arg_count);
    let rest = tail.subrange(1, tail.len() as int);
    assert(tail =~= slot + rest);
    crate::listing::lemma_listing_concat(slot, rest);
    assert(slot.drop_last() =~= Seq::<Item>::empty());
    reveal_with_fuel(listing_encoding, 2);
    assert(listing_encoding(slot) == Ok::<Seq<u8>, x86asm::InstructionEncodingError>(
        Seq::<u8>::empty() + crate::listing::raw_bytes(crate::listing::RawCode::MovRaxSlot),
    ));
}

/// Arrival at a command only adds code.
proof fn lemma_arrival_order(st: GenState, cmd: Command, script_start: u32)
    requires
        arrival(st, cmd, script_start) is Ok,
    ensures
        arrival(st, cmd, script_start)->Ok_0.0.jumps == st.jumps,
        arrival(st, cmd, script_start)->Ok_0.0.relocs == st.relocs,
        st.code.len() <= arrival(st, cmd, script_start)->Ok_0.0.code.len(),
{
    reveal(arrival);
}

/// Recording a jump behind the code so far keeps the jumps in order.
proof fn lemma_recorded_jumps(st: GenState, l: Lowering, mid: Seq<u8>, code: Seq<u8>, cmd: Command, index: usize)
    requires
        st.code.len() <= mid.len() <= code.len() <= usize::MAX,
        recorded(st, l, mid, code, cmd, index) is Ok,
        jumps_in_order(st.jumps, st.code.len() as int),
    ensures
        jumps_in_order(recorded(st, l, mid, code, cmd, index)->Ok_0.jumps, code.len() as int),
{
    let next = recorded(st, l, mid, code, cmd, index)->Ok_0;
    match l.effect {
        Effect::Jump { kind, target } => {
            let added = JumpFixup {
                at: mid.len() as usize,
                kind,
                target,
                source: cmd.position,
                opcode: opcode_value(cmd.cmd),
            };
            assert(next.jumps == st.jumps.push(added));
            assert forall|k: int| 0 <= k < next.jumps.len() implies (#[trigger] next.jumps[k]).at + jump_length(
                next.jumps[k].kind,
            ) <= code.len() by {
                if k < st.jumps.len() {
                    assert(next.jumps[k] == st.jumps[k]);
                }
            }
            assert forall|i: int, k: int| 0 <= i < k < next.jumps.len() implies (#[trigger] next.jumps[i]).at
                + jump_length(next.jumps[i].kind) <= (#[trigger] next.jumps[k]).at by {
                assert(next.jumps[i] == st.jumps[i]);
                if k < st.jumps.len() {
                    assert(next.jumps[k] == st.jumps[k]);
                }
            }
        },
        _ => {
            assert(next.jumps == st.jumps);
        },
    }
}

/// Recording a call behind the code so far keeps the calls in order.
proof fn lemma_recorded_relocs(st: GenState, l: Lowering, mid: Seq<u8>, code: Seq<u8>, cmd: Command, index: usize)
    requires
        st.code.len() <= mid.len() <= code.len() <= usize::MAX,
        recorded(st, l, mid, code, cmd, index) is Ok,
        relocs_in_order(st.relocs, index, st.code.len() as int),
        l.effect is Call ==> mid.len() + 10 <= code.len(),
    ensures
        relocs_in_order(recorded(st, l, mid, code, cmd, index)->Ok_0.relocs, index, code.len() as int),
{
    let next = recorded(st, l, mid, code, cmd, index)->Ok_0;
    match l.effect {
        Effect::Call { callee } => {
            let added = CallReloc {
                script: index,
                at: mid.len() as usize,
                callee,
                source: cmd.position,
                opcode: opcode_value(cmd.cmd),
            };
            assert(next.relocs == st.relocs.push(added));
            assert forall|k: int| 0 <= k < next.relocs.len() implies (#[trigger] next.relocs[k]).at + 10
                <= code.len() && next.relocs[k].script == index by {
                if k < st.relocs.len() {
                    assert(next.relocs[k] == st.relocs[k]);
                }
            }
            assert forall|i: int, k: int| 0 <= i < k < next.relocs.len() implies (#[trigger] next.relocs[i]).at
                + 10 <= (#[trigger] next.relocs[k]).at by {
                assert(next.relocs[i] == st.relocs[i]);
                if k < st.relocs.len() {
                    assert(next.relocs[k] == st.relocs[k]);
                }
            }
        },
        _ => {
            assert(next.relocs == st.relocs);
        },
    }
}

/// Performing a command only adds code and keeps jumps and calls in order.
proof fn lemma_performed_order(
    st: GenState,
    callee: Option<u32>,
    cmd: Command,
    index: usize,
    var_count: u16,
    script_start: u32,
    env: HostEnv,
)
    requires
        performed(st, callee, cmd, index, var_count, script_start, env) is Ok,
    ensures
        ({
            let next = performed(st, callee, cmd, index, var_count, script_start, env)->Ok_0;
            &&& st.code.len() <= next.code.len()
            &&& next.code.len() <= usize::MAX && jumps_in_order(st.jumps, st.code.len() as int)
                ==> jumps_in_order(next.jumps, next.code.len() as int)
            &&& next.code.len() <= usize::MAX && relocs_in_order(st.relocs, index, st.code.len() as int)
                ==> relocs_in_order(next.relocs, index, next.code.len() as int)
        }),
{
    reveal(performed);
    let next = performed(st, callee, cmd, index, var_count, script_start, env)->Ok_0;
    let l = lowering(cmd, callee, var_count, script_start, env)->Ok_0;
    if pushed_immediate(cmd) is None {
        let mid = appended(st.code, l.head, cmd.position)->Ok_0;
        let code = appended(mid, l.tail, cmd.position)->Ok_0;
        assert(next == recorded(st, l, mid, code, cmd, index)->Ok_0);
        assert(next.code == code);
        if l.effect is Call {
            crate::lower::lemma_call_lowering(cmd, callee, var_count, script_start, env);
            lemma_call_slot(crate::lower::call_arity(cmd.cmd));
        }
        if code.len() <= usize::MAX {
            if jumps_in_order(st.jumps, st.code.len() as int) {
                lemma_recorded_jumps(st, l, mid, code, cmd, index);
            }
            if relocs_in_order(st.relocs, index, st.code.len() as int) {
                lemma_recorded_relocs(st, l, mid, code, cmd, index);
            }
        }
    }
}

/// A step of the generator only adds code, and it keeps the jumps and the
/// calls in order.
pub proof fn lemma_stepped_order(
    st: GenState,
    cmd: Command,
    index: usize,
    var_count: u16,
    script_start: u32,
    env: HostEnv,
)
    requires
        stepped(st, cmd, index, var_count, script_start, env) is Ok,
    ensures
        ({
            let next = stepped(st, cmd, index, var_count, script_start, env)->Ok_0;
            &&& st.code.len() <= next.code.len()
            &&& next.code.len() <= usize::MAX && jumps_in_order(st.jumps, st.code.len() as int)
                ==> jumps_in_order(next.jumps, next.code.len() as int)
            &&& next.code.len() <= usize::MAX && relocs_in_order(st.relocs, index, st.code.len() as int)
                ==> relocs_in_order(next.relocs, index, next.code.len() as int)
        }),
{
    let (arrived, callee) = arrival(st, cmd, script_start)->Ok_0;
    lemma_arrival_order(st, cmd, script_start);
    lemma_performed_order(arrived, callee, cmd, index, var_count, script_start, env);
    let next = stepped(st, cmd, index, var_count, script_start, env)->Ok_0;
    if next.code.len() <= usize::MAX {
        if jumps_in_order(st.jumps, st.code.len() as int) {
            assert(jumps_in_order(arrived.jumps, arrived.code.len() as int));
        }
        if relocs_in_order(st.relocs, index, st.code.len() as int) {
            assert(relocs_in_order(arrived.relocs, index, arrived.code.len() as int));
        }
    }
}

/// The generator keeps the jumps and the calls of a script in order.
pub proof fn lemma_generated_order(
    commands: Seq<Command>,
    index: usize,
    arg_count: u16,
    var_count: u16,
    script_start: u32,
    env: HostEnv,
    n: nat,
)
    requires
        generated(commands, index, arg_count, var_count, script_start, env, n) is Ok,
        generated(commands, index, arg_count, var_count, script_start, env, n)->Ok_0.code.len() <= usize::MAX,
    ensures
        ({
            let st = generated(commands, index, arg_count, var_count, script_start, env, n)->Ok_0;
            &&& jumps_in_order(st.jumps, st.code.len() as int)
            &&& relocs_in_order(st.relocs, index, st.code.len() as int)
        }),
    decreases n,
{
    if n > 0 {
        let before = generated(commands, index, arg_count, var_count, script_start, env, (n - 1) as nat)->Ok_0;
        lemma_stepped_order(before, commands[n as int], index, var_count, script_start, env);
        lemma_generated_order(commands, index, arg_count, var_count, script_start, env, (n - 1) as nat);
    }
}

/// The state in which the generator leaves a script that has a header.
pub open spec fn final_state(script: Script, index: usize, env: HostEnv) -> Result<GenState, CompileError> {
    let commands = script.commands@;
    let (arg_count, var_count) = script_header(commands)->Some_0;
    generated(commands, index, arg_count, var_count, script.bounds.0, env, (commands.len() - 1) as nat)
}

/// In the code of a compiled script every jump stands with the displacement
/// to the offset recorded for its target, and the slot of every call lies
/// within the code, behind the slot before it.
pub proof fn lemma_compiled_script_layout(script: Script, index: usize, env: HostEnv)
    requires
        compiled_script(script, index, env) is Ok,
        compiled_script(script, index, env)->Ok_0.code.len() <= usize::MAX,
    ensures
        final_state(script, index, env) is Ok,
        compiled_script(script, index, env)->Ok_0.relocs == final_state(script, index, env)->Ok_0.relocs,
        relocs_in_order(
            compiled_script(script, index, env)->Ok_0.relocs,
            index,
            compiled_script(script, index, env)->Ok_0.code.len() as int,
        ),
        forall|k: int|
            0 <= k < final_state(script, index, env)->Ok_0.jumps.len() ==> jump_stands(
                compiled_script(script, index, env)->Ok_0.code,
                final_state(script, index, env)->Ok_0.locations,
                #[trigger] final_state(script, index, env)->Ok_0.jumps[k],
            ),
{
    let commands = script.commands@;
    let (arg_count, var_count) = script_header(commands)->Some_0;
    let n = (commands.len() - 1) as nat;
    let st = generated(commands, index, arg_count, var_count, script.bounds.0, env, n)->Ok_0;
    assert(final_state(script, index, env) == Ok::<GenState, CompileError>(st));
    let code = closed(flushed(st)->Ok_0, commands, var_count)->Ok_0;
    let image = compiled_script(script, index, env)->Ok_0;
    assert(Ok::<Seq<u8>, CompileError>(image.code) == resolved(code, st.locations, st.jumps, st.jumps.len()));
    lemma_resolved_length(code, st.locations, st.jumps, st.jumps.len());
    assert(st.code.len() <= flushed(st)->Ok_0.len() <= code.len());
    lemma_generated_order(commands, index, arg_count, var_count, script.bounds.0, env, n);
    assert(jumps_in_order(st.jumps, code.len() as int));
    assert forall|k: int| 0 <= k < st.jumps.len() implies jump_stands(
        image.code,
        st.locations,
        #[trigger] st.jumps[k],
    ) by {
        lemma_resolved_jumps(code, st.locations, st.jumps, st.jumps.len(), k);
    }
}

/// `call rax`.
pub open spec fn call_rax() -> Item {
    Item::Op1(Mnemonic::CALL, reg(Reg::RAX))
}

/// The length of `call rax` as the assembler has it.
pub open spec fn call_length() -> int {
    match item_encoding(call_rax()) {
        Ok(bytes) => bytes.len() as int,
        Err(_) => 0,
    }
}

/// A call stands whole at `at`: the two bytes that open `mov rax, imm64`,
/// eight bytes for the address, and behind them `call rax` as the assembler
/// has it.
pub open spec fn call_stands(code: Seq<u8>, at: int) -> bool {
    &&& item_encoding(call_rax()) is Ok
    &&& 0 <= at
    &&& at + 10 + call_length() <= code.len()
    &&& code[at] == 0x48u8
    &&& code[at + 1] == 0xb8u8
    &&& code.subrange(at + 10, at + 10 + call_length()) == item_encoding(call_rax())->Ok_0
}

/// Every call stands whole in the code, each behind the one before it.
pub open spec fn calls_stand(code: Seq<u8>, relocs: Seq<CallReloc>) -> bool {
    &&& forall|k: int| 0 <= k < relocs.len() ==> call_stands(code, (#[trigger] relocs[k]).at as int)
    &&& forall|i: int, k: int|
        0 <= i < k < relocs.len() ==> (#[trigger] relocs[i]).at + 10 + call_length() <= (#[trigger] relocs[k]).at
}

/// No jump shares a byte with a call.
pub open spec fn jumps_clear(jumps: Seq<JumpFixup>, relocs: Seq<CallReloc>) -> bool {
    forall|i: int, k: int|
        0 <= i < jumps.len() && 0 <= k < relocs.len() ==> {
            ||| (#[trigger] jumps[i]).at + jump_length(jumps[i].kind) <= (#[trigger] relocs[k]).at
            ||| relocs[k].at + 10 + call_length() <= jumps[i].at
        }
}

/// `longer` starts with `code`.
pub open spec fn begins_with(longer: Seq<u8>, code: Seq<u8>) -> bool {
    code.len() <= longer.len() && longer.subrange(0, code.len() as int) == code
}

/// What the generator keeps of its calls and jumps.
pub open spec fn sites_kept(st: GenState) -> bool {
    &&& calls_stand(st.code, st.relocs)
    &&& jumps_clear(st.jumps, st.relocs)
    &&& jumps_in_order(st.jumps, st.code.len() as int)
}

/// The code of a call's tail, written behind `before`, is a call that
/// stands whole where `before` ended.
proof fn lemma_call_tail(before: Seq<u8>, arg_count: u8)
    requires
        listing_encoding(crate::lower::call_transfer(arg_count)) is Ok,
    ensures
        call_stands(before + listing_encoding(crate::lower::call_transfer(arg_count))->Ok_0, before.len() as int),
{
    let slot = seq![Item::Raw(crate::listing::RawCode::MovRaxSlot)];
    let call = seq![call_rax()];
    let tail = crate::lower::call_transfer(arg_count);
    let rest = tail.subrange(2, tail.len() as int);
    assert(tail =~= slot + (call + rest));
    crate::listing::lemma_listing_concat(slot, call + rest);
    crate::listing::lemma_listing_concat(call, rest);
    assert(slot.drop_last() =~= Seq::<Item>::empty());
    assert(call.drop_last() =~= Seq::<Item>::empty());
    reveal_with_fuel(listing_encoding, 2);
    let slot_bytes = crate::listing::raw_bytes(crate::listing::RawCode::MovRaxSlot);
    assert(listing_encoding(slot) == Ok::<Seq<u8>, x86asm::InstructionEncodingError>(
        Seq::<u8>::empty() + slot_bytes,
    ));
    let call_bytes = item_encoding(call_rax())->Ok_0;
    assert(listing_encoding(call) == Ok::<Seq<u8>, x86asm::InstructionEncodingError>(
        Seq::<u8>::empty() + call_bytes,
    ));
    let rest_bytes = listing_encoding(rest)->Ok_0;
    let bytes = listing_encoding(tail)->Ok_0;
    assert(bytes =~= slot_bytes + (call_bytes + rest_bytes));
    let code = before + bytes;
    let at = before.len() as int;
    assert(code[at] == slot_bytes[0]);
    assert(code[at + 1] == slot_bytes[1]);
    assert(code.subrange(at + 10, at + 10 + call_length()) =~= call_bytes);
}

/// Calls that stand in the code stand in every code that starts with it.
proof fn lemma_calls_stay(code: Seq<u8>, longer: Seq<u8>, relocs: Seq<CallReloc>)
    requires
        calls_stand(code, relocs),
        begins_with(longer, code),
    ensures
        calls_stand(longer, relocs),
{
    assert forall|k: int| 0 <= k < relocs.len() implies call_stands(longer, (#[trigger] relocs[k]).at as int) by {
        let at = relocs[k].at as int;
        assert(call_stands(code, at));
        assert(longer.subrange(0, code.len() as int)[at] == longer[at]);
        assert(longer.subrange(0, code.len() as int)[at + 1] == longer[at + 1]);
        assert(longer.subrange(at + 10, at + 10 + call_length()) =~= longer.subrange(0, code.len() as int).subrange(
            at + 10,
            at + 10 + call_length(),
        ));
    }
}

proof fn lemma_begins_with_more(code: Seq<u8>, items: Seq<Item>, position: u32)
    requires
        appended(code, items, position) is Ok,
    ensures
        begins_with(appended(code, items, position)->Ok_0, code),
{
    let longer = appended(code, items, position)->Ok_0;
    assert(longer.subrange(0, code.len() as int) =~= code);
}

proof fn lemma_begins_with_chain(a: Seq<u8>, b: Seq<u8>, c: Seq<u8>)
    requires
        begins_with(b, a),
        begins_with(c, b),
    ensures
        begins_with(c, a),
{
    assert(c.subrange(0, a.len() as int) =~= c.subrange(0, b.len() as int).subrange(0, a.len() as int));
}

/// Arrival at a command only adds code behind what stands.
proof fn lemma_arrival_sites(st: GenState, cmd: Command, script_start: u32)
    requires
        arrival(st, cmd, script_start) is Ok,
    ensures
        begins_with(arrival(st, cmd, script_start)->Ok_0.0.code, st.code),
{
    reveal(arrival);
    let m = marked(st.tries, script_start, cmd.position);
    let arrived = arrival(st, cmd, script_start)->Ok_0.0;
    assert(st.code.subrange(0, st.code.len() as int) =~= st.code);
    match st.pending {
        Some((val, position)) => {
            if !(is_call(cmd.cmd) && !m) {
                let first = appended(st.code, seq![push_immediate(val)], position)->Ok_0;
                lemma_begins_with_more(st.code, seq![push_immediate(val)], position);
                if m {
                    lemma_begins_with_more(first, return_value_push(), cmd.position);
                    lemma_begins_with_chain(st.code, first, arrived.code);
                }
            }
        },
        None => {
            if m {
                lemma_begins_with_more(st.code, return_value_push(), cmd.position);
            }
        },
    }
}

/// Performing a command keeps every call whole and every jump clear of the
/// calls.
proof fn lemma_performed_sites(
    st: GenState,
    callee: Option<u32>,
    cmd: Command,
    index: usize,
    var_count: u16,
    script_start: u32,
    env: HostEnv,
)
    requires
        performed(st, callee, cmd, index, var_count, script_start, env) is Ok,
        performed(st, callee, cmd, index, var_count, script_start, env)->Ok_0.code.len() <= usize::MAX,
        sites_kept(st),
    ensures
        sites_kept(performed(st, callee, cmd, index, var_count, script_start, env)->Ok_0),
{
    reveal(performed);
    let next = performed(st, callee, cmd, index, var_count, script_start, env)->Ok_0;
    let l = lowering(cmd, callee, var_count, script_start, env)->Ok_0;
    if pushed_immediate(cmd) is None {
        let mid = appended(st.code, l.head, cmd.position)->Ok_0;
        let code = appended(mid, l.tail, cmd.position)->Ok_0;
        assert(next == recorded(st, l, mid, code, cmd, index)->Ok_0);
        assert(next.code == code);
        lemma_begins_with_more(st.code, l.head, cmd.position);
        lemma_begins_with_more(mid, l.tail, cmd.position);
        lemma_begins_with_chain(st.code, mid, code);
        lemma_calls_stay(st.code, code, st.relocs);
        lemma_recorded_jumps(st, l, mid, code, cmd, index);
        match l.effect {
            Effect::Call { callee: target } => {
                crate::lower::lemma_call_lowering(cmd, callee, var_count, script_start, env);
                lemma_call_tail(mid, crate::lower::call_arity(cmd.cmd));
                let added = CallReloc {
                    script: index,
                    at: mid.len() as usize,
                    callee: target,
                    source: cmd.position,
                    opcode: opcode_value(cmd.cmd),
                };
                assert(next.relocs == st.relocs.push(added));
                assert(next.jumps == st.jumps);
                assert forall|k: int| 0 <= k < next.relocs.len() implies call_stands(
                    code,
                    (#[trigger] next.relocs[k]).at as int,
                ) by {
                    if k < st.relocs.len() {
                        assert(next.relocs[k] == st.relocs[k]);
                    }
                }
                assert forall|i: int, k: int| 0 <= i < k < next.relocs.len() implies (#[trigger] next.relocs[i]).at
                    + 10 + call_length() <= (#[trigger] next.relocs[k]).at by {
                    assert(next.relocs[i] == st.relocs[i]);
                    assert(call_stands(st.code, st.relocs[i].at as int));
                    if k < st.relocs.len() {
                        assert(next.relocs[k] == st.relocs[k]);
                    }
                }
                assert forall|i: int, k: int| 0 <= i < next.jumps.len() && 0 <= k < next.relocs.len() implies {
                    ||| (#[trigger] next.jumps[i]).at + jump_length(next.jumps[i].kind) <= (
                    #[trigger] next.relocs[k]).at
                    ||| next.relocs[k].at + 10 + call_length() <= next.jumps[i].at
                } by {
                    if k < st.relocs.len() {
                        assert(next.relocs[k] == st.relocs[k]);
                    }
                }
            },
            Effect::Jump { kind, target } => {
                let added = JumpFixup {
                    at: mid.len() as usize,
                    kind,
                    target,
                    source: cmd.position,
                    opcode: opcode_value(cmd.cmd),
                };
                assert(next.jumps == st.jumps.push(added));
                assert(next.relocs == st.relocs);
                assert forall|i: int, k: int| 0 <= i < next.jumps.len() && 0 <= k < next.relocs.len() implies {
                    ||| (#[trigger] next.jumps[i]).at + jump_length(next.jumps[i].kind) <= (
                    #[trigger] next.relocs[k]).at
                    ||| next.relocs[k].at + 10 + call_length() <= next.jumps[i].at
                } by {
                    assert(call_stands(st.code, st.relocs[k].at as int));
                    if i < st.jumps.len() {
                        assert(next.jumps[i] == st.jumps[i]);
                    }
                }
            },
            _ => {
                assert(next.jumps == st.jumps);
                assert(next.relocs == st.relocs);
            },
        }
    }
}

/// A step of the generator keeps every call whole and every jump clear of
/// the calls.
proof fn lemma_stepped_sites(
    st: GenState,
    cmd: Command,
    index: usize,
    var_count: u16,
    script_start: u32,
    env: HostEnv,
)
    requires
        stepped(st, cmd, index, var_count, script_start, env) is Ok,
        stepped(st, cmd, index, var_count, script_start, env)->Ok_0.code.len() <= usize::MAX,
        sites_kept(st),
    ensures
        sites_kept(stepped(st, cmd, index, var_count, script_start, env)->Ok_0),
{
    let (arrived, callee) = arrival(st, cmd, script_start)->Ok_0;
    lemma_arrival_order(st, cmd, script_start);
    lemma_arrival_sites(st, cmd, script_start);
    lemma_calls_stay(st.code, arrived.code, st.relocs);
    lemma_performed_sites(arrived, callee, cmd, index, var_count, script_start, env);
}

/// The generator keeps every call whole and every jump clear of the calls.
proof fn lemma_generated_sites(
    commands: Seq<Command>,
    index: usize,
    arg_count: u16,
    var_count: u16,
    script_start: u32,
    env: HostEnv,
    n: nat,
)
    requires
        generated(commands, index, arg_count, var_count, script_start, env, n) is Ok,
        generated(commands, index, arg_count, var_count, script_start, env, n)->Ok_0.code.len() <= usize::MAX,
    ensures
        sites_kept(generated(commands, index, arg_count, var_count, script_start, env, n)->Ok_0),
    decreases n,
{
    if n > 0 {
        let before = generated(commands, index, arg_count, var_count, script_start, env, (n - 1) as nat)->Ok_0;
        lemma_stepped_order(before, commands[n as int], index, var_count, script_start, env);
        lemma_generated_sites(commands, index, arg_count, var_count, script_start, env, (n - 1) as nat);
        lemma_stepped_sites(before, commands[n as int], index, var_count, script_start, env);
    }
}

/// Resolving jumps leaves every call whole.
proof fn lemma_resolved_sites(
    code: Seq<u8>,
    locations: Map<u32, usize>,
    jumps: Seq<JumpFixup>,
    relocs: Seq<CallReloc>,
    n: nat,
)
    requires
        n <= jumps.len(),
        resolved(code, locations, jumps, n) is Ok,
        calls_stand(code, relocs),
        jumps_clear(jumps, relocs),
    ensures
        calls_stand(resolved(code, locations, jumps, n)->Ok_0, relocs),
    decreases n,
{
    if n > 0 {
        let before = resolved(code, locations, jumps, (n - 1) as nat)->Ok_0;
        let done = resolved(code, locations, jumps, n)->Ok_0;
        let j = jumps[n - 1];
        lemma_resolved_sites(code, locations, jumps, relocs, (n - 1) as nat);
        lemma_patched_jump(before, locations, j);
        assert forall|k: int| 0 <= k < relocs.len() implies call_stands(done, (#[trigger] relocs[k]).at as int) by {
            let at = relocs[k].at as int;
            assert(call_stands(before, at));
            assert(j.at + jump_length(j.kind) <= relocs[k].at || relocs[k].at + 10 + call_length() <= j.at);
            assert(done[at] == before[at]);
            assert(done[at + 1] == before[at + 1]);
            assert(done.subrange(at + 10, at + 10 + call_length()) =~= before.subrange(
                at + 10,
                at + 10 + call_length(),
            ));
        }
    }
}

/// In the code of a compiled script every call stands whole: at the offset
/// recorded for it the two bytes `48 B8` open the address slot, and behind
/// the slot stands `call rax`; no call shares a byte with the next.
pub proof fn lemma_compiled_call_sites(script: Script, index: usize, env: HostEnv)
    requires
        compiled_script(script, index, env) is Ok,
        compiled_script(script, index, env)->Ok_0.code.len() <= usize::MAX,
    ensures
        calls_stand(compiled_script(script, index, env)->Ok_0.code, compiled_script(script, index, env)->Ok_0.relocs),
{
    let commands = script.commands@;
    let (arg_count, var_count) = script_header(commands)->Some_0;
    let n = (commands.len() - 1) as nat;
    let st = generated(commands, index, arg_count, var_count, script.bounds.0, env, n)->Ok_0;
    let flushed_code = flushed(st)->Ok_0;
    let code = closed(flushed_code, commands, var_count)->Ok_0;
    let image = compiled_script(script, index, env)->Ok_0;
    assert(Ok::<Seq<u8>, CompileError>(image.code) == resolved(code, st.locations, st.jumps, st.jumps.len()));
    lemma_resolved_length(code, st.locations, st.jumps, st.jumps.len());
    assert(st.code.subrange(0, st.code.len() as int) =~= st.code);
    if st.pending is Some {
        lemma_begins_with_more(st.code, seq![push_immediate(st.pending->Some_0.0)], st.pending->Some_0.1);
    }
    assert(begins_with(flushed_code, st.code));
    assert(flushed_code.subrange(0, flushed_code.len() as int) =~= flushed_code);
    if commands.len() == 1 {
        lemma_begins_with_more(flushed_code, frame_teardown(var_count as u32), commands[0].position);
    }
    assert(begins_with(code, flushed_code));
    lemma_begins_with_chain(st.code, flushed_code, code);
    lemma_generated_sites(commands, index, arg_count, var_count, script.bounds.0, env, n);
    lemma_calls_stay(st.code, code, st.relocs);
    lemma_resolved_sites(code, st.locations, st.jumps, st.relocs, st.jumps.len());
}

/// The entry holds a 64-bit immediate: the only way in which compiled code
/// names the globals, the string table or a host routine.
pub open spec fn holds_address(item: Item) -> bool {
    match item {
        Item::Op1(_, a) => a is Literal64,
        Item::Op2(_, a, b) => a is Literal64 || b is Literal64,
        _ => false,
    }
}

/// Neither the prologue nor the frame teardown names an address, so neither
/// reaches the globals; and every push of the one is met by a pop of the
/// other.
pub proof fn lemma_frame_is_self_contained(arg_count: u16, var_count: u16)
    ensures
        forall|i: int|
            0 <= i < prologue(arg_count, var_count).len() ==> !holds_address(
                #[trigger] prologue(arg_count, var_count)[i],
            ),
        forall|i: int|
            0 <= i < frame_teardown(var_count as u32).len() ==> !holds_address(
                #[trigger] frame_teardown(var_count as u32)[i],
            ),
{
    let code = prologue(arg_count, var_count);
    let setup = frame_setup(var_count as u32);
    let in_regs: int = if arg_count < 6 {
        arg_count as int
    } else {
        6
    };
    assert forall|i: int| 0 <= i < code.len() implies !holds_address(#[trigger] code[i]) by {
        if i < setup.len() {
            assert(code[i] == setup[i]);
        } else if i < setup.len() + in_regs {
            let k = i - setup.len();
            assert(code[i] == Item::Op2(Mnemonic::MOV, local_slot(k as u16), reg(arg_regs_32()[k])));
        } else {
            let j = i - setup.len() - in_regs;
            assert(code[i] == stack_spill(var_count, j));
        }
    }
}

/// A script with nothing behind `Begin` compiles to its prologue followed
/// at once by the frame teardown: nothing else is emitted and no call is
/// recorded.
pub proof fn lemma_empty_script(script: Script, index: usize, env: HostEnv)
    requires
        script.commands@.len() == 1,
        script_header(script.commands@) is Some,
        compiled_script(script, index, env) is Ok,
    ensures
        ({
            let (arg_count, var_count) = script_header(script.commands@)->Some_0;
            let image = compiled_script(script, index, env)->Ok_0;
            &&& listing_encoding(prologue(arg_count, var_count)) is Ok
            &&& listing_encoding(frame_teardown(var_count as u32)) is Ok
            &&& image.code == listing_encoding(prologue(arg_count, var_count))->Ok_0 + listing_encoding(
                frame_teardown(var_count as u32),
            )->Ok_0
            &&& image.relocs == Seq::<CallReloc>::empty()
        }),
{
    reveal_with_fuel(generated, 1);
    reveal_with_fuel(resolved, 1);
    let commands = script.commands@;
    let (arg_count, var_count) = script_header(commands)->Some_0;
    assert(Seq::<u8>::empty() + listing_encoding(prologue(arg_count, var_count))->Ok_0 =~= listing_encoding(
        prologue(arg_count, var_count),
    )->Ok_0);
}

/// A script of `Begin` and `End` alone compiles to the same: its prologue
/// followed by the frame teardown.
pub proof fn lemma_begin_end_script(script: Script, index: usize, env: HostEnv)
    requires
        script.commands@.len() == 2,
        script_header(script.commands@) is Some,
        script.commands@[1].cmd == Cmd::End,
        compiled_script(script, index, env) is Ok,
    ensures
        ({
            let (arg_count, var_count) = script_header(script.commands@)->Some_0;
            let image = compiled_script(script, index, env)->Ok_0;
            &&& listing_encoding(prologue(arg_count, var_count)) is Ok
            &&& listing_encoding(frame_teardown(var_count as u32)) is Ok
            &&& image.code == listing_encoding(prologue(arg_count, var_count))->Ok_0 + listing_encoding(
                frame_teardown(var_count as u32),
            )->Ok_0
            &&& image.relocs == Seq::<CallReloc>::empty()
        }),
{
    reveal(arrival);
    reveal(performed);
    reveal(lowering);
    reveal_with_fuel(generated, 3);
    reveal_with_fuel(resolved, 2);
    reveal_with_fuel(listing_encoding, 2);
    let commands = script.commands@;
    let (arg_count, var_count) = script_header(commands)->Some_0;
    let begun = generated(commands, index, arg_count, var_count, script.bounds.0, env, 0)->Ok_0;
    let end = commands[1];
    assert(!marked(begun.tries, script.bounds.0, end.position));
    let l = lowering(end, None, var_count, script.bounds.0, env)->Ok_0;
    assert(l.head == Seq::<Item>::empty());
    assert(begun.code + Seq::<u8>::empty() =~= begun.code);
    assert(Seq::<u8>::empty() + listing_encoding(prologue(arg_count, var_count))->Ok_0 =~= listing_encoding(
        prologue(arg_count, var_count),
    )->Ok_0);
}

/// Appends the bytes of a listing to the code. On an error the code holds
/// what it held before, followed by the bytes of the entries before the
/// failing one.
pub fn append_listing(code: &mut Vec<u8>, items: &Vec<Item>, position: u32) -> (r: Result<(), CompileError>)
    ensures
        match appended(old(code)@, items@, position) {
            Ok(c) => r is Ok && final(code)@ == c,
            Err(e) => r == Err::<(), CompileError>(e),
        },
        final(code)@ == old(code)@ + crate::listing::encoded_prefix(items@),
{
    match assemble_into(code, items) {
        Ok(()) => Ok(()),
        Err(_) => Err(CompileError::EncodingFailure { position }),
    }
}

fn check_call(c: Cmd) -> (b: bool)
    ensures
        b == is_call(c),
{
    match c {
        Cmd::CallFunc { arg_count } | Cmd::CallFunc2 { arg_count } | Cmd::CallFunc3 { arg_count } => true,
        _ => false,
    }
}

fn immediate_pushed(cmd: &Command) -> (r: Option<u32>)
    ensures
        r == pushed_immediate(*cmd),
{
    match cmd.cmd {
        Cmd::PushInt { val } => if cmd.push_bit {
            Some(val)
        } else {
            None
        },
        Cmd::PushShort { val } => if cmd.push_bit {
            Some(val as u32)
        } else {
            None
        },
        _ => None,
    }
}

fn check_marked(tries: &HashSet<u32>, script_start: u32, position: u32) -> (b: bool)
    ensures
        b == marked(tries@, script_start, position),
{
    let abs: u64 = script_start as u64 + position as u64;
    if abs <= u32::MAX as u64 {
        let key: u32 = abs as u32;
        tries.contains(&key)
    } else {
        false
    }
}

fn push_item(val: u32) -> (items: Vec<Item>)
    ensures
        items@ == seq![push_immediate(val)],
{
    let mut items = ListingWriter::new();
    emit1(&mut items, Mnemonic::PUSH, val);
    assert(items@ =~= seq![push_immediate(val)]);
    items.items
}

fn arrive(gen: Generator, cmd: &Command, script_start: u32) -> (r: Result<(Generator, Option<u32>), CompileError>)
    ensures
        match arrival(gen@, *cmd, script_start) {
            Ok((st, callee)) => r matches Ok((g, c)) && g@ == st && c == callee,
            Err(e) => r matches Err(e2) && e2 == e,
        },
        r matches Ok((g, _)) ==> g.pending is None,
{
    proof {
        reveal(arrival);
    }
    let Generator { mut code, pending, locations, jumps, tries, relocs } = gen;
    let m = check_marked(&tries, script_start, cmd.position);
    match pending {
        Some((val, position)) => {
            if check_call(cmd.cmd) && !m {
                return Ok((Generator { code, pending: None, locations, jumps, tries, relocs }, Some(val)));
            }
            let items = push_item(val);
            match append_listing(&mut code, &items, position) {
                Err(e) => {
                    return Err(e);
                },
                Ok(()) => {},
            }
        },
        None => {},
    }
    if m {
        let mut items = ListingWriter::new();
        emit1(&mut items, Mnemonic::PUSH, Reg::RAX);
        assert(items@ =~= return_value_push());
        match append_listing(&mut code, &items.items, cmd.position) {
            Err(e) => {
                return Err(e);
            },
            Ok(()) => {},
        }
    }
    Ok((Generator { code, pending: None, locations, jumps, tries, relocs }, None))
}

fn perform(
    gen: Generator,
    callee: Option<u32>,
    cmd: &Command,
    index: usize,
    var_count: u16,
    script_start: u32,
    env: &HostEnv,
) -> (r: Result<Generator, CompileError>)
    requires
        gen.pending is None,
    ensures
        match performed(gen@, callee, *cmd, index, var_count, script_start, *env) {
            Ok(st) => r matches Ok(g) && g@ == st,
            Err(e) => r matches Err(e2) && e2 == e,
        },
{
    proof {
        reveal(performed);
    }
    let low = match lower_command(cmd, callee, var_count, script_start, env) {
        Ok(l) => l,
        Err(e) => {
            return Err(e);
        },
    };
    let Generator { mut code, pending, mut locations, mut jumps, mut tries, mut relocs } = gen;
    let position = cmd.position;
    let start = code.len();
    match immediate_pushed(cmd) {
        Some(val) => {
            locations.insert(position, start);
            return Ok(Generator { code, pending: Some((val, position)), locations, jumps, tries, relocs });
        },
        None => {},
    }
    match append_listing(&mut code, &low.head, position) {
        Err(e) => {
            return Err(e);
        },
        Ok(()) => {},
    }
    let at = code.len();
    match append_listing(&mut code, &low.tail, position) {
        Err(e) => {
            return Err(e);
        },
        Ok(()) => {},
    }
    match low.effect {
        Effect::Plain => {
            locations.insert(position, start);
        },
        Effect::Jump { kind, target } => {
            if code.len() - at != jump_size(kind) {
                return Err(CompileError::EncodingFailure { position });
            }
            locations.insert(position, start);
            jumps.push(JumpFixup { at, kind, target, source: position, opcode: cmd.cmd.value() });
        },
        Effect::Call { callee } => {
            locations.insert(position, at);
            relocs.push(CallReloc { script: index, at, callee, source: position, opcode: cmd.cmd.value() });
        },
        Effect::Try { target } => {
            locations.insert(position, start);
            tries.insert(target);
        },
    }
    Ok(Generator { code, pending: None, locations, jumps, tries, relocs })
}

/// Takes the generator over one command.
pub fn step(
    gen: Generator,
    cmd: &Command,
    index: usize,
    var_count: u16,
    script_start: u32,
    env: &HostEnv,
) -> (r: Result<Generator, CompileError>)
    ensures
        match stepped(gen@, *cmd, index, var_count, script_start, *env) {
            Ok(st) => r matches Ok(g) && g@ == st,
            Err(e) => r matches Err(e2) && e2 == e,
        },
{
    match arrive(gen, cmd, script_start) {
        Err(e) => Err(e),
        Ok((arrived, callee)) => perform(arrived, callee, cmd, index, var_count, script_start, env),
    }
}

fn emit_prologue(out: &mut ListingWriter, arg_count: u16, var_count: u16)
    ensures
        final(out)@ == old(out)@ + prologue(arg_count, var_count),
{
    let in_regs: usize = if arg_count < 6 {
        arg_count as usize
    } else {
        6
    };
    let over: u64 = arg_count as u64 - in_regs as u64;
    let padded: u64 = var_count as u64 + ((4 - (var_count as u64 % 4)) % 4);
    let ghost spills = Seq::new(
        in_regs as nat,
        |i: int| Item::Op2(Mnemonic::MOV, local_slot(i as u16), reg(arg_regs_32()[i])),
    );
    let ghost stack = Seq::new((2 * over) as nat, |j: int| stack_spill(var_count, j));
    out.setup_stack_frame(var_count as u32);
    let ghost base = out@;
    let mut i: usize = 0;
    while i < in_regs
        invariant
            i <= in_regs <= 6,
            spills == Seq::new(
                in_regs as nat,
                |i: int| Item::Op2(Mnemonic::MOV, local_slot(i as u16), reg(arg_regs_32()[i])),
            ),
            out@ == base + spills.take(i as int),
        decreases in_regs - i,
    {
        emit2(out, Mnemonic::MOV, (Reg::RBP, i as u64 * 4, OperandSize::Dword), arg_reg_32(i));
        assert(spills.take(i + 1) =~= spills.take(i as int).push(spills[i as int]));
        i = i + 1;
    }
    assert(spills.take(in_regs as int) =~= spills);
    let ghost base2 = out@;
    let mut k: u64 = 0;
    while k < over
        invariant
            k <= over <= 0xffff - 6,
            padded == padded_locals(var_count as int),
            stack == Seq::new((2 * over) as nat, |j: int| stack_spill(var_count, j)),
            out@ == base2 + stack.take(2 * k),
        decreases over - k,
    {
        emit2(out, Mnemonic::MOV, Reg::EAX, (Reg::RSP, 8 * k + 16 + 4 * padded, OperandSize::Dword));
        emit2(out, Mnemonic::MOV, (Reg::RBP, (k + 6) * 4, OperandSize::Dword), Reg::EAX);
        proof {
            assert((2 * k) % 2 == 0 && (2 * k) / 2 == k);
            assert((2 * k + 1) % 2 == 1 && (2 * k + 1) / 2 == k);
            assert(stack[2 * k] == stack_spill(var_count, 2 * k));
            assert(stack[2 * k + 1] == stack_spill(var_count, 2 * k + 1));
            assert(stack.take(2 * (k + 1)) =~= stack.take(2 * k).push(stack[2 * k]).push(stack[2 * k + 1]));
        }
        k = k + 1;
    }
    assert(stack.take(2 * over) =~= stack);
    assert(out@ =~= old(out)@ + prologue(arg_count, var_count));
}

fn header(script: &Script) -> (r: Option<(u16, u16)>)
    ensures
        r == script_header(script.commands@),
{
    if script.commands.len() > 0 {
        match script.commands[0].cmd {
            Cmd::Begin { arg_count, var_count } => Some((arg_count, var_count)),
            _ => None,
        }
    } else {
        None
    }
}

/// Writes `bytes` over what stands at `at`.
pub fn overwrite(code: &mut Vec<u8>, at: usize, bytes: &Vec<u8>)
    requires
        at + bytes.len() <= old(code).len(),
    ensures
        final(code)@ == overwritten(old(code)@, at as int, bytes@),
{
    let mut i: usize = 0;
    while i < bytes.len()
        invariant
            i <= bytes.len(),
            at + bytes.len() <= code.len(),
            code.len() == old(code).len(),
            code@ == overwritten(old(code)@, at as int, bytes@.take(i as int)),
        decreases bytes.len() - i,
    {
        code.set(at + i, bytes[i]);
        assert(code@ =~= overwritten(old(code)@, at as int, bytes@.take(i + 1)));
        i = i + 1;
    }
    assert(bytes@.take(bytes.len() as int) =~= bytes@);
}

fn displacement(target: usize, at: usize, kind: JumpKind) -> (r: Option<u32>)
    requires
        at + jump_length(kind) <= usize::MAX,
    ensures
        r == jump_displacement(target, at, kind),
{
    let end = at + jump_size(kind);
    if target >= end {
        let d = target - end;
        if d <= 0x7fff_ffff {
            Some(d as u32)
        } else {
            None
        }
    } else {
        let d = end - target;
        if d <= 0x8000_0000 {
            Some((0x1_0000_0000u64 - d as u64) as u32)
        } else {
            None
        }
    }
}

fn patch(code: &mut Vec<u8>, locations: &HashMap<u32, usize>, j: &JumpFixup) -> (r: Result<(), CompileError>)
    ensures
        match patched(old(code)@, locations@, *j) {
            Ok(c) => r is Ok && final(code)@ == c,
            Err(e) => r == Err::<(), CompileError>(e),
        },
{
    proof {
        reveal(patched);
    }
    let target = match locations.get(&j.target) {
        Some(t) => *t,
        None => {
            return Err(
                CompileError::StructuralViolation {
                    position: j.source,
                    opcode: Some(j.opcode),
                    violation: Violation::JumpTarget,
                },
            );
        },
    };
    let size = jump_size(j.kind);
    if size > code.len() || j.at > code.len() - size {
        return Err(CompileError::EncodingFailure { position: j.source });
    }
    let rel = match displacement(target, j.at, j.kind) {
        Some(rel) => rel,
        None => {
            return Err(CompileError::EncodingFailure { position: j.source });
        },
    };
    let item = Item::Op1(jump_opcode(j.kind), Operand::Literal32(rel));
    match encode_item(&item) {
        Err(_) => Err(CompileError::EncodingFailure { position: j.source }),
        Ok(bytes) => {
            if bytes.len() == size {
                overwrite(code, j.at, &bytes);
                Ok(())
            } else {
                Err(CompileError::EncodingFailure { position: j.source })
            }
        },
    }
}

/// Writes the prologue and runs the generator over the commands after `Begin`.
fn run_generator(script: &Script, index: usize, arg_count: u16, var_count: u16, env: &HostEnv) -> (r: Result<
    Generator,
    CompileError,
>)
    requires
        script.commands@.len() > 0,
    ensures
        match generated(
            script.commands@,
            index,
            arg_count,
            var_count,
            script.bounds.0,
            *env,
            (script.commands@.len() - 1) as nat,
        ) {
            Ok(st) => r matches Ok(g) && g@ == st,
            Err(e) => r matches Err(e2) && e2 == e,
        },
{
    let ghost commands = script.commands@;
    let script_start = script.bounds.0;
    let mut items = ListingWriter::new();
    emit_prologue(&mut items, arg_count, var_count);
    assert(items@ =~= prologue(arg_count, var_count));
    let mut code: Vec<u8> = Vec::new();
    match append_listing(&mut code, &items.items, script.commands[0].position) {
        Err(e) => {
            proof {
                lemma_generated_error_sticks(
                    commands,
                    index,
                    arg_count,
                    var_count,
                    script_start,
                    *env,
                    0,
                    (commands.len() - 1) as nat,
                );
            }
            return Err(e);
        },
        Ok(()) => {},
    }
    let mut gen = Generator {
        code,
        pending: None,
        locations: HashMap::new(),
        jumps: Vec::new(),
        tries: HashSet::new(),
        relocs: Vec::new(),
    };
    let mut i: usize = 1;
    while i < script.commands.len()
        invariant
            1 <= i <= script.commands.len(),
            commands == script.commands@,
            script_start == script.bounds.0,
            generated(commands, index, arg_count, var_count, script_start, *env, (i - 1) as nat) == Ok::<
                GenState,
                CompileError,
            >(gen@),
        decreases script.commands.len() - i,
    {
        match step(gen, &script.commands[i], index, var_count, script_start, env) {
            Ok(g) => {
                gen = g;
            },
            Err(e) => {
                proof {
                    lemma_generated_error_sticks(
                        commands,
                        index,
                        arg_count,
                        var_count,
                        script_start,
                        *env,
                        i as nat,
                        (commands.len() - 1) as nat,
                    );
                }
                return Err(e);
            },
        }
        i = i + 1;
    }
    Ok(gen)
}

/// Resolves every jump of the script, in the order they were recorded.
fn resolve_jumps(code: &mut Vec<u8>, locations: &HashMap<u32, usize>, jumps: &Vec<JumpFixup>) -> (r: Result<
    (),
    CompileError,
>)
    ensures
        match resolved(old(code)@, locations@, jumps@, jumps@.len()) {
            Ok(c) => r is Ok && final(code)@ == c,
            Err(e) => r == Err::<(), CompileError>(e),
        },
{
    let ghost begun = code@;
    let mut k: usize = 0;
    while k < jumps.len()
        invariant
            k <= jumps.len(),
            begun == old(code)@,
            resolved(begun, locations@, jumps@, k as nat) == Ok::<Seq<u8>, CompileError>(code@),
        decreases jumps.len() - k,
    {
        match patch(code, locations, &jumps[k]) {
            Ok(()) => {},
            Err(e) => {
                proof {
                    lemma_resolved_error_sticks(begun, locations@, jumps@, (k + 1) as nat, jumps@.len());
                }
                return Err(e);
            },
        }
        k = k + 1;
    }
    Ok(())
}

/// Compiles one script; `index` is its place among the program's scripts.
pub fn compile_script(script: &Script, index: usize, env: &HostEnv) -> (r: Result<CompiledScript, CompileError>)
    ensures
        match compiled_script(*script, index, *env) {
            Ok(image) => r matches Ok(c) && c@ == image,
            Err(e) => r matches Err(e2) && e2 == e,
        },
{
    let (arg_count, var_count) = match header(script) {
        Some(counts) => counts,
        None => {
            if script.commands.len() > 0 {
                return Err(refuse_violating(&script.commands[0], Violation::MissingBegin));
            }
            return Err(
                CompileError::StructuralViolation { position: 0, opcode: None, violation: Violation::MissingBegin },
            );
        },
    };
    let gen = match run_generator(script, index, arg_count, var_count, env) {
        Ok(g) => g,
        Err(e) => {
            return Err(e);
        },
    };
    let Generator { mut code, pending, locations, jumps, tries, relocs } = gen;
    match pending {
        Some((val, position)) => {
            let items = push_item(val);
            match append_listing(&mut code, &items, position) {
                Err(e) => {
                    return Err(e);
                },
                Ok(()) => {},
            }
        },
        None => {},
    }
    if script.commands.len() == 1 {
        let mut items = ListingWriter::new();
        items.write_ret(var_count as u32);
        assert(items@ =~= frame_teardown(var_count as u32));
        match append_listing(&mut code, &items.items, script.commands[0].position) {
            Err(e) => {
                return Err(e);
            },
            Ok(()) => {},
        }
    }
    match resolve_jumps(&mut code, &locations, &jumps) {
        Err(e) => Err(e),
        Ok(()) => Ok(CompiledScript { code, relocs }),
    }
}

} // verus!
