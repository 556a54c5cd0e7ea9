//! The whole-program driver: the string section, one region per script, and
//! the linking of calls between scripts.

use vstd::bytes::{spec_u64_to_le_bytes, u64_to_le_bytes};
use vstd::prelude::*;
use vstd::utf8::encode_utf8;
use msc::{MscsbFile, Script};
use crate::bytecode::{lemma_script_at, script_at};
use crate::lower::{CompileError, HostEnv, Violation};
use crate::listing::item_encoding;
use crate::memory::{lemma_region_image, lock_result, pages_for, region_image, JitMemory, Region, PAGE_SIZE};
use crate::script::{
    call_length, call_rax, call_stands, compile_script, compiled_script, overwritten, CallReloc, CompiledScript,
    ScriptImage,
};

verus! {

/// The number of 32-bit global slots that compiled code addresses.
pub const GLOBAL_COUNT: usize = 0x100;

/// The strings of a program in one buffer, each closed by a NUL byte, and
/// the offset at which each starts.
#[derive(Debug)]
pub struct StringSection {
    pub bytes: Vec<u8>,
    pub offsets: Vec<usize>,
}

/// A string's bytes and the NUL that closes it.
pub open spec fn terminated(s: String) -> Seq<u8> {
    encode_utf8(s@).push(0u8)
}

pub open spec fn section_bytes(strings: Seq<String>) -> Seq<u8>
    decreases strings.len(),
{
    if strings.len() == 0 {
        Seq::<u8>::empty()
    } else {
        section_bytes(strings.drop_last()) + terminated(strings.last())
    }
}

/// Where string `i` starts: behind the strings before it.
pub open spec fn section_offset(strings: Seq<String>, i: int) -> nat {
    section_bytes(strings.take(i)).len()
}

/// The section of the first strings is the beginning of the whole section.
pub proof fn lemma_section_prefix(strings: Seq<String>, k: int)
    requires
        0 <= k <= strings.len(),
    ensures
        section_bytes(strings.take(k)).is_prefix_of(section_bytes(strings)),
    decreases strings.len() - k,
{
    if k == strings.len() {
        assert(strings.take(k) =~= strings);
    } else {
        assert(strings.take(k + 1).drop_last() =~= strings.take(k));
        lemma_section_prefix(strings, k + 1);
    }
}

/// Every string is found at its offset, whole, with a NUL right behind it.
pub proof fn lemma_string_resolves(strings: Seq<String>, i: int)
    requires
        0 <= i < strings.len(),
    ensures
        ({
            let start = section_offset(strings, i) as int;
            let text = encode_utf8(strings[i]@);
            &&& start + text.len() < section_bytes(strings).len()
            &&& section_bytes(strings).subrange(start, start + text.len()) == text
            &&& section_bytes(strings)[start + text.len()] == 0
        }),
{
    let start = section_offset(strings, i) as int;
    let text = encode_utf8(strings[i]@);
    let upto = section_bytes(strings.take(i + 1));
    assert(strings.take(i + 1).drop_last() =~= strings.take(i));
    assert(strings.take(i + 1).last() == strings[i]);
    assert(upto == section_bytes(strings.take(i)) + terminated(strings[i]));
    lemma_section_prefix(strings, i + 1);
    assert(upto.subrange(start, start + text.len()) =~= text);
    assert(section_bytes(strings).subrange(start, start + text.len()) =~= upto.subrange(
        start,
        start + text.len(),
    ));
    assert(section_bytes(strings)[start + text.len()] == upto[start + text.len()]);
}

/// Lays the strings out one after the other.
pub fn string_section(strings: &Vec<String>) -> (r: StringSection)
    ensures
        r.bytes@ == section_bytes(strings@),
        r.offsets@.len() == strings@.len(),
        forall|i: int| 0 <= i < strings@.len() ==> r.offsets@[i] == section_offset(strings@, i),
{
    let mut bytes: Vec<u8> = Vec::new();
    let mut offsets: Vec<usize> = Vec::new();
    let mut i: usize = 0;
    assert(strings@.take(0) =~= Seq::<String>::empty());
    while i < strings.len()
        invariant
            i <= strings.len(),
            bytes@ == section_bytes(strings@.take(i as int)),
            offsets@.len() == i,
            forall|j: int| 0 <= j < i ==> offsets@[j] == section_offset(strings@, j),
        decreases strings.len() - i,
    {
        offsets.push(bytes.len());
        let text = strings[i].as_str().as_bytes();
        let ghost before = bytes@;
        let mut k: usize = 0;
        while k < text.len()
            invariant
                k <= text.len(),
                bytes@ == before + text@.take(k as int),
            decreases text.len() - k,
        {
            bytes.push(text[k]);
            assert(bytes@ =~= before + text@.take(k + 1));
            k = k + 1;
        }
        bytes.push(0);
        proof {
            assert(text@.take(text.len() as int) =~= text@);
            assert(strings@.take(i + 1).drop_last() =~= strings@.take(i as int));
            assert(strings@.take(i + 1).last() == strings@[i as int]);
            assert(bytes@ =~= before + terminated(strings@[i as int]));
        }
        i = i + 1;
    }
    assert(strings@.take(i as int) =~= strings@);
    StringSection { bytes, offsets }
}

/// The address of each string in a section that lies at `base`, or `None`
/// where one is past the end of the address space.
pub fn string_pointers(base: u64, offsets: &Vec<usize>) -> (r: Option<Vec<u64>>)
    ensures
        match r {
            Some(p) => p@.len() == offsets@.len() && forall|i: int|
                0 <= i < offsets@.len() ==> p@[i] == base + offsets@[i],
            None => exists|i: int| 0 <= i < offsets@.len() && base + offsets@[i] > u64::MAX,
        },
{
    let mut pointers: Vec<u64> = Vec::new();
    let mut i: usize = 0;
    while i < offsets.len()
        invariant
            i <= offsets.len(),
            pointers@.len() == i,
            forall|j: int| 0 <= j < i ==> pointers@[j] == base + offsets@[j],
        decreases offsets.len() - i,
    {
        let offset = offsets[i];
        if offset as u64 > u64::MAX - base {
            return None;
        }
        pointers.push(base + offset as u64);
        i = i + 1;
    }
    Some(pointers)
}

/// A call between scripts, both given by their index: the callee's address
/// goes into the slot at `at` of the caller's region.
#[derive(Clone, Copy, Debug, PartialEq, Eq, Structural)]
pub struct Linkage {
    pub script: usize,
    pub at: usize,
    pub callee: usize,
}

/// A compiled program: one region per script, the string section, the calls
/// to link, and the index of the script that runs first. `addresses` holds
/// the address of each region once the program is linked.
#[derive(Debug)]
pub struct CompiledProgram {
    pub mem: Vec<JitMemory>,
    pub string_section: Vec<u8>,
    pub string_offsets: Vec<usize>,
    pub entrypoint_index: usize,
    pub calls: Vec<Linkage>,
    pub addresses: Vec<u64>,
}

pub struct ProgramImage {
    pub regions: Seq<Region>,
    pub string_section: Seq<u8>,
    pub string_offsets: Seq<usize>,
    pub entrypoint_index: usize,
    pub calls: Seq<Linkage>,
    pub addresses: Seq<u64>,
}

pub open spec fn region_views(mem: Seq<JitMemory>) -> Seq<Region> {
    Seq::new(mem.len(), |i: int| mem[i]@)
}

impl View for CompiledProgram {
    type V = ProgramImage;

    open spec fn view(&self) -> ProgramImage {
        ProgramImage {
            regions: region_views(self.mem@),
            string_section: self.string_section@,
            string_offsets: self.string_offsets@,
            entrypoint_index: self.entrypoint_index,
            calls: self.calls@,
            addresses: self.addresses@,
        }
    }
}

/// Why a program could not be linked.
#[derive(Clone, Copy, Debug, PartialEq, Eq, Structural)]
pub enum LinkError {
    /// There is not one address for each region.
    AddressCount,
    /// A region is executable and cannot be written.
    StateViolation,
    /// A call names a region or a slot that does not exist, or the calls
    /// are not in the order of their slots.
    Malformed,
}

/// The images of the first `n` scripts, or the error of the first that has
/// none. A region larger than the address space is a memory failure.
pub open spec fn script_images(scripts: Seq<Script>, env: HostEnv, n: nat) -> Result<
    Seq<ScriptImage>,
    CompileError,
>
    decreases n,
{
    if n == 0 {
        Ok(Seq::<ScriptImage>::empty())
    } else {
        match script_images(scripts, env, (n - 1) as nat) {
            Err(e) => Err(e),
            Ok(images) => match compiled_script(scripts[n - 1], (n - 1) as usize, env) {
                Err(e) => Err(e),
                Ok(image) => if pages_for(image.code.len() as int) * PAGE_SIZE <= usize::MAX {
                    Ok(images.push(image))
                } else {
                    Err(CompileError::MemoryFailure { script: (n - 1) as usize })
                },
            },
        }
    }
}

/// The calls of all scripts, in the order of the scripts.
pub open spec fn pending_calls(images: Seq<ScriptImage>) -> Seq<CallReloc>
    decreases images.len(),
{
    if images.len() == 0 {
        Seq::<CallReloc>::empty()
    } else {
        pending_calls(images.drop_last()) + images.last().relocs
    }
}

/// The first `n` calls with their callees found among the scripts, or the
/// error of the first call to an offset at which no script starts.
pub open spec fn linkages(scripts: Seq<Script>, relocs: Seq<CallReloc>, n: nat) -> Result<
    Seq<Linkage>,
    CompileError,
>
    decreases n,
{
    if n == 0 {
        Ok(Seq::<Linkage>::empty())
    } else {
        match linkages(scripts, relocs, (n - 1) as nat) {
            Err(e) => Err(e),
            Ok(calls) => match script_at(scripts, relocs[n - 1].callee) {
                Some(j) => Ok(
                    calls.push(Linkage { script: relocs[n - 1].script, at: relocs[n - 1].at, callee: j }),
                ),
                None => Err(
                    CompileError::StructuralViolation {
                        position: relocs[n - 1].source,
                        opcode: Some(relocs[n - 1].opcode),
                        violation: Violation::UnknownCallee,
                    },
                ),
            },
        }
    }
}

/// The writable region that holds a script's code.
pub open spec fn fresh_region(image: ScriptImage) -> Region {
    Region { bytes: region_image(image.code), executable: false }
}

/// What a program compiles to. The scripts are compiled in order, then the
/// callee of every call is looked up, then the entrypoint.
pub open spec fn compiled_program(file: MscsbFile, env: HostEnv) -> Result<ProgramImage, CompileError> {
    let scripts = file.scripts@;
    match script_images(scripts, env, scripts.len()) {
        Err(e) => Err(e),
        Ok(images) => match linkages(scripts, pending_calls(images), pending_calls(images).len()) {
            Err(e) => Err(e),
            Ok(calls) => match script_at(scripts, file.entrypoint) {
                None => Err(
                    CompileError::StructuralViolation {
                        position: file.entrypoint,
                        opcode: None,
                        violation: Violation::UnknownEntrypoint,
                    },
                ),
                Some(entry) => Ok(
                    ProgramImage {
                        regions: Seq::new(images.len(), |i: int| fresh_region(images[i])),
                        string_section: section_bytes(file.strings@),
                        string_offsets: Seq::new(
                            file.strings@.len(),
                            |i: int| section_offset(file.strings@, i) as usize,
                        ),
                        entrypoint_index: entry,
                        calls,
                        addresses: Seq::<u64>::empty(),
                    },
                ),
            },
        },
    }
}

pub proof fn lemma_script_images_error_sticks(scripts: Seq<Script>, env: HostEnv, n: nat, m: nat)
    requires
        n <= m,
        script_images(scripts, env, n) is Err,
    ensures
        script_images(scripts, env, m) == script_images(scripts, env, n),
    decreases m - n,
{
    if n < m {
        lemma_script_images_error_sticks(scripts, env, n, (m - 1) as nat);
    }
}

pub proof fn lemma_linkages_error_sticks(scripts: Seq<Script>, relocs: Seq<CallReloc>, n: nat, m: nat)
    requires
        n <= m,
        linkages(scripts, relocs, n) is Err,
    ensures
        linkages(scripts, relocs, m) == linkages(scripts, relocs, n),
    decreases m - n,
{
    if n < m {
        lemma_linkages_error_sticks(scripts, relocs, n, (m - 1) as nat);
    }
}

/// Programs that can be compiled for a host.
pub trait Compilable {
    /// What the program compiles to.
    spec fn compiled(&self, env: HostEnv) -> Result<ProgramImage, CompileError>;

    fn compile(&self, env: &HostEnv) -> (r: Result<CompiledProgram, CompileError>)
        ensures
            match self.compiled(*env) {
                Ok(image) => r matches Ok(p) && p@ == image,
                Err(e) => r matches Err(e2) && e2 == e,
            },
    ;
}

struct Regions {
    mem: Vec<JitMemory>,
    relocs: Vec<CallReloc>,
}

fn compile_scripts(file: &MscsbFile, env: &HostEnv) -> (r: Result<Regions, CompileError>)
    ensures
        match script_images(file.scripts@, *env, file.scripts@.len()) {
            Ok(images) => r matches Ok(regions) && regions.relocs@ == pending_calls(images)
                && region_views(regions.mem@) == Seq::new(images.len(), |i: int| fresh_region(images[i])),
            Err(e) => r matches Err(e2) && e2 == e,
        },
{
    let mut mem: Vec<JitMemory> = Vec::new();
    let mut relocs: Vec<CallReloc> = Vec::new();
    let ghost mut images = Seq::<ScriptImage>::empty();
    let mut i: usize = 0;
    while i < file.scripts.len()
        invariant
            i <= file.scripts.len(),
            script_images(file.scripts@, *env, i as nat) == Ok::<Seq<ScriptImage>, CompileError>(images),
            images.len() == i,
            relocs@ == pending_calls(images),
            mem@.len() == i,
            forall|j: int| 0 <= j < i ==> (#[trigger] mem@[j])@ == fresh_region(images[j]),
        decreases file.scripts.len() - i,
    {
        let compiled = match compile_script(&file.scripts[i], i, env) {
            Ok(c) => c,
            Err(e) => {
                proof {
                    lemma_script_images_error_sticks(file.scripts@, *env, (i + 1) as nat, file.scripts@.len());
                }
                return Err(e);
            },
        };
        let region = match JitMemory::with_code(&compiled.code) {
            Some(m) => m,
            None => {
                proof {
                    lemma_script_images_error_sticks(file.scripts@, *env, (i + 1) as nat, file.scripts@.len());
                }
                return Err(CompileError::MemoryFailure { script: i });
            },
        };
        let CompiledScript { code, relocs: mut more } = compiled;
        proof {
            let next = images.push(compiled@);
            assert(next.drop_last() =~= images);
            assert(relocs@ + more@ == pending_calls(next));
            images = next;
        }
        relocs.append(&mut more);
        mem.push(region);
        i = i + 1;
    }
    assert(region_views(mem@) =~= Seq::new(images.len(), |i: int| fresh_region(images[i])));
    Ok(Regions { mem, relocs })
}

fn find_callees(file: &MscsbFile, relocs: &Vec<CallReloc>) -> (r: Result<Vec<Linkage>, CompileError>)
    ensures
        match linkages(file.scripts@, relocs@, relocs@.len()) {
            Ok(calls) => r matches Ok(found) && found@ == calls,
            Err(e) => r matches Err(e2) && e2 == e,
        },
{
    let mut calls: Vec<Linkage> = Vec::new();
    let mut k: usize = 0;
    while k < relocs.len()
        invariant
            k <= relocs.len(),
            linkages(file.scripts@, relocs@, k as nat) == Ok::<Seq<Linkage>, CompileError>(calls@),
        decreases relocs.len() - k,
    {
        let reloc = relocs[k];
        match file.get_script_from_loc(reloc.callee) {
            Some(j) => {
                calls.push(Linkage { script: reloc.script, at: reloc.at, callee: j });
            },
            None => {
                proof {
                    lemma_linkages_error_sticks(file.scripts@, relocs@, (k + 1) as nat, relocs@.len());
                }
                return Err(
                    CompileError::StructuralViolation {
                        position: reloc.source,
                        opcode: Some(reloc.opcode),
                        violation: Violation::UnknownCallee,
                    },
                );
            },
        }
        k = k + 1;
    }
    Ok(calls)
}

impl Compilable for MscsbFile {
    open spec fn compiled(&self, env: HostEnv) -> Result<ProgramImage, CompileError> {
        compiled_program(*self, env)
    }

    fn compile(&self, env: &HostEnv) -> (r: Result<CompiledProgram, CompileError>) {
        let regions = match compile_scripts(self, env) {
            Ok(regions) => regions,
            Err(e) => {
                return Err(e);
            },
        };
        let Regions { mem, relocs } = regions;
        let calls = match find_callees(self, &relocs) {
            Ok(calls) => calls,
            Err(e) => {
                return Err(e);
            },
        };
        let entrypoint_index = match self.get_script_from_loc(self.entrypoint) {
            Some(entry) => entry,
            None => {
                return Err(
                    CompileError::StructuralViolation {
                        position: self.entrypoint,
                        opcode: None,
                        violation: Violation::UnknownEntrypoint,
                    },
                );
            },
        };
        let StringSection { bytes, offsets } = string_section(&self.strings);
        assert(offsets@ =~= Seq::new(self.strings@.len(), |i: int| section_offset(self.strings@, i) as usize));
        Ok(
            CompiledProgram {
                mem,
                string_section: bytes,
                string_offsets: offsets,
                entrypoint_index,
                calls,
                addresses: Vec::new(),
            },
        )
    }
}

/// The call comes after `before` in the order of slots: in a later region,
/// or in the same region behind the whole slot.
pub open spec fn slot_after(before: Linkage, call: Linkage) -> bool {
    before.script < call.script || (before.script == call.script && before.at + 10 <= call.at)
}

/// The calls name regions and slots that exist, in the order of their slots.
pub open spec fn calls_ordered(calls: Seq<Linkage>, regions: Seq<Region>) -> bool {
    &&& forall|k: int|
        0 <= k < calls.len() ==> {
            &&& (#[trigger] calls[k]).script < regions.len()
            &&& calls[k].callee < regions.len()
            &&& calls[k].at + 10 <= regions[calls[k].script as int].bytes.len()
        }
    &&& forall|i: int, k: int| 0 <= i < k < calls.len() ==> slot_after(#[trigger] calls[i], #[trigger] calls[k])
}

/// The regions with the address of the callee written into the slot of each
/// of the first `n` calls: eight bytes, the low byte first, two bytes into
/// the slot.
pub open spec fn linked(regions: Seq<Region>, calls: Seq<Linkage>, addresses: Seq<u64>, n: nat) -> Seq<Region>
    decreases n,
{
    if n == 0 {
        regions
    } else {
        let before = linked(regions, calls, addresses, (n - 1) as nat);
        let call = calls[n - 1];
        before.update(
            call.script as int,
            Region {
                bytes: overwritten(
                    before[call.script as int].bytes,
                    call.at + 2,
                    spec_u64_to_le_bytes(addresses[call.callee as int]),
                ),
                executable: before[call.script as int].executable,
            },
        )
    }
}

/// Why the program cannot be linked with these addresses, if it cannot.
pub open spec fn link_refusal(p: ProgramImage, addresses: Seq<u64>) -> Option<LinkError> {
    if addresses.len() != p.regions.len() {
        Some(LinkError::AddressCount)
    } else if exists|i: int| 0 <= i < p.regions.len() && p.regions[i].executable {
        Some(LinkError::StateViolation)
    } else if !calls_ordered(p.calls, p.regions) {
        Some(LinkError::Malformed)
    } else {
        None
    }
}

/// Linking keeps the number of regions, the size of each and its state.
pub proof fn lemma_linked_shape(regions: Seq<Region>, calls: Seq<Linkage>, addresses: Seq<u64>, n: nat)
    requires
        calls_ordered(calls, regions),
        addresses.len() == regions.len(),
        n <= calls.len(),
    ensures
        linked(regions, calls, addresses, n).len() == regions.len(),
        forall|r: int|
            0 <= r < regions.len() ==> {
                &&& (#[trigger] linked(regions, calls, addresses, n)[r]).bytes.len() == regions[r].bytes.len()
                &&& linked(regions, calls, addresses, n)[r].executable == regions[r].executable
            },
    decreases n,
{
    if n > 0 {
        lemma_linked_shape(regions, calls, addresses, (n - 1) as nat);
        vstd::bytes::lemma_auto_spec_u64_to_from_le_bytes();
        let call = calls[n - 1];
        assert(call.script < regions.len());
    }
}

/// After linking, the eight bytes behind the first two of every call's slot
/// are the address of the callee's region, the low byte first.
pub proof fn lemma_linked_calls(regions: Seq<Region>, calls: Seq<Linkage>, addresses: Seq<u64>, n: nat, k: int)
    requires
        calls_ordered(calls, regions),
        addresses.len() == regions.len(),
        0 <= k < n <= calls.len(),
    ensures
        linked(regions, calls, addresses, n)[calls[k].script as int].bytes.subrange(
            calls[k].at + 2,
            calls[k].at + 10,
        ) == spec_u64_to_le_bytes(addresses[calls[k].callee as int]),
    decreases n,
{
    vstd::bytes::lemma_auto_spec_u64_to_from_le_bytes();
    lemma_linked_shape(regions, calls, addresses, (n - 1) as nat);
    let before = linked(regions, calls, addresses, (n - 1) as nat);
    let after = linked(regions, calls, addresses, n);
    let call = calls[n - 1];
    let address = spec_u64_to_le_bytes(addresses[call.callee as int]);
    assert(calls[k].script < regions.len());
    assert(call.script < regions.len());
    if k == n - 1 {
        assert(after[call.script as int].bytes.subrange(call.at + 2, call.at + 10) =~= address);
    } else {
        lemma_linked_calls(regions, calls, addresses, (n - 1) as nat, k);
        assert(slot_after(calls[k], calls[n - 1]));
        if calls[k].script == call.script {
            assert(after[call.script as int].bytes.subrange(calls[k].at + 2, calls[k].at + 10)
                =~= before[call.script as int].bytes.subrange(calls[k].at + 2, calls[k].at + 10));
        }
    }
}

/// Each image among the first `n` is what its script compiles to, and its
/// region fits the address space.
pub proof fn lemma_script_images(scripts: Seq<Script>, env: HostEnv, n: nat)
    requires
        n <= scripts.len() <= usize::MAX,
        script_images(scripts, env, n) is Ok,
    ensures
        script_images(scripts, env, n)->Ok_0.len() == n,
        forall|i: int|
            0 <= i < n ==> {
                &&& compiled_script(scripts[i], i as usize, env) == Ok::<ScriptImage, CompileError>(
                    #[trigger] script_images(scripts, env, n)->Ok_0[i],
                )
                &&& script_images(scripts, env, n)->Ok_0[i].code.len() <= usize::MAX
            },
        n > 0 ==> script_images(scripts, env, (n - 1) as nat) == Ok::<Seq<ScriptImage>, CompileError>(
            script_images(scripts, env, n)->Ok_0.drop_last(),
        ),
    decreases n,
{
    if n > 0 {
        lemma_script_images(scripts, env, (n - 1) as nat);
        let before = script_images(scripts, env, (n - 1) as nat)->Ok_0;
        let image = compiled_script(scripts[n - 1], (n - 1) as usize, env)->Ok_0;
        let all = script_images(scripts, env, n)->Ok_0;
        assert(all == before.push(image));
        assert(all.drop_last() =~= before);
        assert(pages_for(image.code.len() as int) * PAGE_SIZE >= image.code.len()) by (nonlinear_arith)
            requires
                pages_for(image.code.len() as int) == (image.code.len() + 4095) / 4096,
                PAGE_SIZE == 4096,
        ;
        assert forall|i: int| 0 <= i < n implies {
            &&& compiled_script(scripts[i], i as usize, env) == Ok::<ScriptImage, CompileError>(#[trigger] all[i])
            &&& all[i].code.len() <= usize::MAX
        } by {
            if i < n - 1 {
                assert(all[i] == before[i]);
            }
        }
    }
}

/// The calls of the compiled scripts name scripts that exist and slots
/// within their code, in the order of scripts and slots.
pub open spec fn pending_ordered(relocs: Seq<CallReloc>, images: Seq<ScriptImage>) -> bool {
    &&& forall|k: int|
        0 <= k < relocs.len() ==> (#[trigger] relocs[k]).script < images.len() && relocs[k].at + 10
            <= images[relocs[k].script as int].code.len()
    &&& forall|i: int, k: int|
        0 <= i < k < relocs.len() ==> (#[trigger] relocs[i]).script < (#[trigger] relocs[k]).script || (
        relocs[i].script == relocs[k].script && relocs[i].at + 10 <= relocs[k].at)
}

/// The calls of compiled scripts lie in the order of scripts and slots.
pub proof fn lemma_pending_calls(scripts: Seq<Script>, env: HostEnv, n: nat)
    requires
        n <= scripts.len() <= usize::MAX,
        script_images(scripts, env, n) is Ok,
    ensures
        pending_ordered(pending_calls(script_images(scripts, env, n)->Ok_0), script_images(scripts, env, n)->Ok_0),
    decreases n,
{
    let images = script_images(scripts, env, n)->Ok_0;
    lemma_script_images(scripts, env, n);
    if n > 0 {
        let before = images.drop_last();
        lemma_pending_calls(scripts, env, (n - 1) as nat);
        lemma_script_images(scripts, env, (n - 1) as nat);
        let last = images.last();
        assert(compiled_script(scripts[n - 1], (n - 1) as usize, env) == Ok::<ScriptImage, CompileError>(last));
        crate::script::lemma_compiled_script_layout(scripts[n - 1], (n - 1) as usize, env);
        let old_calls = pending_calls(before);
        let all = pending_calls(images);
        assert(all == old_calls + last.relocs);
        assert forall|k: int| 0 <= k < all.len() implies (#[trigger] all[k]).script < images.len() && all[k].at
            + 10 <= images[all[k].script as int].code.len() by {
            if k < old_calls.len() {
                assert(all[k] == old_calls[k]);
                assert(images[old_calls[k].script as int] == before[old_calls[k].script as int]);
            } else {
                assert(all[k] == last.relocs[k - old_calls.len()]);
            }
        }
        assert forall|i: int, k: int| 0 <= i < k < all.len() implies (#[trigger] all[i]).script < (
        #[trigger] all[k]).script || (all[i].script == all[k].script && all[i].at + 10 <= all[k].at) by {
            if k < old_calls.len() {
                assert(all[i] == old_calls[i]);
                assert(all[k] == old_calls[k]);
            } else if i < old_calls.len() {
                assert(all[i] == old_calls[i]);
                assert(all[k] == last.relocs[k - old_calls.len()]);
            } else {
                assert(all[i] == last.relocs[i - old_calls.len()]);
                assert(all[k] == last.relocs[k - old_calls.len()]);
            }
        }
    }
}

/// Looking the callees up keeps the caller and the slot of every call.
pub proof fn lemma_linkages(scripts: Seq<Script>, relocs: Seq<CallReloc>, n: nat)
    requires
        n <= relocs.len(),
        scripts.len() <= usize::MAX,
        linkages(scripts, relocs, n) is Ok,
    ensures
        linkages(scripts, relocs, n)->Ok_0.len() == n,
        forall|k: int|
            0 <= k < n ==> {
                let call = #[trigger] linkages(scripts, relocs, n)->Ok_0[k];
                &&& call.script == relocs[k].script
                &&& call.at == relocs[k].at
                &&& script_at(scripts, relocs[k].callee) == Some(call.callee)
                &&& call.callee < scripts.len()
            },
    decreases n,
{
    if n > 0 {
        lemma_linkages(scripts, relocs, (n - 1) as nat);
        lemma_script_at(scripts, relocs[n - 1].callee);
        let before = linkages(scripts, relocs, (n - 1) as nat)->Ok_0;
        let all = linkages(scripts, relocs, n)->Ok_0;
        assert forall|k: int| 0 <= k < n implies {
            let call = #[trigger] all[k];
            &&& call.script == relocs[k].script
            &&& call.at == relocs[k].at
            &&& script_at(scripts, relocs[k].callee) == Some(call.callee)
            &&& call.callee < scripts.len()
        } by {
            if k < n - 1 {
                assert(all[k] == before[k]);
            }
        }
    }
}

/// A compiled program can be linked: its regions are writable and its calls
/// are in order, so linking it with one address per region is not refused.
pub proof fn lemma_compiled_program_links(file: MscsbFile, env: HostEnv, addresses: Seq<u64>)
    requires
        compiled_program(file, env) is Ok,
        addresses.len() == file.scripts@.len(),
    ensures
        link_refusal(compiled_program(file, env)->Ok_0, addresses) is None,
{
    let scripts = file.scripts@;
    assert(scripts.len() == file.scripts.len());
    let p = compiled_program(file, env)->Ok_0;
    let images = script_images(scripts, env, scripts.len())->Ok_0;
    let relocs = pending_calls(images);
    lemma_script_images(scripts, env, scripts.len());
    lemma_pending_calls(scripts, env, scripts.len());
    lemma_linkages(scripts, relocs, relocs.len());
    assert(p.regions.len() == scripts.len());
    assert forall|k: int| 0 <= k < p.calls.len() implies {
        &&& (#[trigger] p.calls[k]).script < p.regions.len()
        &&& p.calls[k].callee < p.regions.len()
        &&& p.calls[k].at + 10 <= p.regions[p.calls[k].script as int].bytes.len()
    } by {
        let r = relocs[k];
        assert(p.calls[k].script == r.script);
        assert(p.regions[r.script as int] == fresh_region(images[r.script as int]));
    }
    assert forall|i: int, k: int| 0 <= i < k < p.calls.len() implies slot_after(
        #[trigger] p.calls[i],
        #[trigger] p.calls[k],
    ) by {
        assert(p.calls[i].script == relocs[i].script);
        assert(p.calls[k].script == relocs[k].script);
    }
}

/// Compilation is a function of the program and the host: whatever two
/// runs on the same input hand back is the same, region for region and byte
/// for byte. What linking adds depends on the addresses alone, and only in
/// the slots of the calls (`lemma_linked_elsewhere`). What another host
/// changes is stated in `addresses`.
pub proof fn lemma_compile_deterministic(file: MscsbFile, env: HostEnv, first: ProgramImage, second: ProgramImage)
    requires
        compiled_program(file, env) == Ok::<ProgramImage, CompileError>(first),
        compiled_program(file, env) == Ok::<ProgramImage, CompileError>(second),
    ensures
        first == second,
        first.regions.len() == second.regions.len(),
        forall|i: int| 0 <= i < first.regions.len() ==> first.regions[i].bytes == second.regions[i].bytes,
{
}

/// The first status that is not zero, or zero.
pub open spec fn first_failure(statuses: Seq<i32>) -> i32
    decreases statuses.len(),
{
    if statuses.len() == 0 {
        0
    } else if first_failure(statuses.drop_last()) != 0 {
        first_failure(statuses.drop_last())
    } else {
        statuses.last()
    }
}

/// Where no status reports a failure, all of them are zero.
pub proof fn lemma_no_failure(statuses: Seq<i32>)
    ensures
        first_failure(statuses) == 0 <==> forall|i: int| 0 <= i < statuses.len() ==> statuses[i] == 0,
    decreases statuses.len(),
{
    if statuses.len() > 0 {
        lemma_no_failure(statuses.drop_last());
        assert forall|i: int| 0 <= i < statuses.len() - 1 implies statuses.drop_last()[i] == statuses[i] by {}
        if first_failure(statuses) == 0 {
            assert forall|i: int| 0 <= i < statuses.len() implies statuses[i] == 0 by {
                if i < statuses.len() - 1 {
                    assert(statuses.drop_last()[i] == statuses[i]);
                }
            }
        } else {
            if first_failure(statuses.drop_last()) == 0 {
                assert(statuses[statuses.len() - 1] != 0);
            } else {
                let i = choose|i: int| 0 <= i < statuses.len() - 1 && statuses.drop_last()[i] != 0;
                assert(statuses[i] != 0);
            }
        }
    }
}

/// Where every request was granted, every region is executable afterwards
/// and holds the bytes it held.
pub proof fn lemma_lock_all_executable(regions: Seq<Region>, statuses: Seq<i32>, i: int)
    requires
        regions.len() == statuses.len(),
        first_failure(statuses) == 0,
        0 <= i < regions.len(),
    ensures
        lock_result(regions[i], statuses[i]).executable,
        lock_result(regions[i], statuses[i]).bytes == regions[i].bytes,
{
    lemma_no_failure(statuses);
}

/// Whether byte `x` of region `r` belongs to the address of one of the
/// first `n` calls.
pub open spec fn in_call_slot(calls: Seq<Linkage>, n: nat, r: int, x: int) -> bool {
    exists|k: int| 0 <= k < n && (#[trigger] calls[k]).script == r && calls[k].at + 2 <= x < calls[k].at + 10
}

/// Linking writes the callee addresses and nothing else: every byte outside
/// the address of a call is what it was, whatever the addresses are.
pub proof fn lemma_linked_elsewhere(
    regions: Seq<Region>,
    calls: Seq<Linkage>,
    addresses: Seq<u64>,
    n: nat,
    r: int,
    x: int,
)
    requires
        calls_ordered(calls, regions),
        addresses.len() == regions.len(),
        n <= calls.len(),
        0 <= r < regions.len(),
        0 <= x < regions[r].bytes.len(),
        !in_call_slot(calls, n, r, x),
    ensures
        linked(regions, calls, addresses, n)[r].bytes[x] == regions[r].bytes[x],
    decreases n,
{
    if n > 0 {
        vstd::bytes::lemma_auto_spec_u64_to_from_le_bytes();
        lemma_linked_shape(regions, calls, addresses, (n - 1) as nat);
        let call = calls[n - 1];
        assert(call.script < regions.len());
        assert(!in_call_slot(calls, (n - 1) as nat, r, x)) by {
            if in_call_slot(calls, (n - 1) as nat, r, x) {
                let k = choose|k: int|
                    0 <= k < n - 1 && (#[trigger] calls[k]).script == r && calls[k].at + 2 <= x < calls[k].at + 10;
                assert(0 <= k < n && calls[k].script == r && calls[k].at + 2 <= x < calls[k].at + 10);
            }
        }
        lemma_linked_elsewhere(regions, calls, addresses, (n - 1) as nat, r, x);
        if call.script == r {
            assert(!(call.at + 2 <= x < call.at + 10)) by {
                if call.at + 2 <= x < call.at + 10 {
                    assert(0 <= n - 1 < n && calls[n - 1].script == r);
                }
            }
        }
    }
}

/// The calls of compiled scripts stand whole in the code of their scripts,
/// and of two calls of one script the later begins behind the whole of the
/// earlier.
proof fn lemma_pending_call_sites(scripts: Seq<Script>, env: HostEnv, n: nat)
    requires
        n <= scripts.len() <= usize::MAX,
        script_images(scripts, env, n) is Ok,
    ensures
        ({
            let images = script_images(scripts, env, n)->Ok_0;
            let relocs = pending_calls(images);
            &&& forall|k: int|
                0 <= k < relocs.len() ==> (#[trigger] relocs[k]).script < images.len() && call_stands(
                    images[relocs[k].script as int].code,
                    relocs[k].at as int,
                )
            &&& forall|i: int, k: int|
                0 <= i < k < relocs.len() && (#[trigger] relocs[i]).script == (#[trigger] relocs[k]).script
                    ==> relocs[i].at + 10 + call_length() <= relocs[k].at
        }),
    decreases n,
{
    let images = script_images(scripts, env, n)->Ok_0;
    lemma_script_images(scripts, env, n);
    lemma_pending_calls(scripts, env, n);
    if n > 0 {
        let before = images.drop_last();
        lemma_pending_call_sites(scripts, env, (n - 1) as nat);
        lemma_script_images(scripts, env, (n - 1) as nat);
        lemma_pending_calls(scripts, env, (n - 1) as nat);
        let last = images.last();
        assert(compiled_script(scripts[n - 1], (n - 1) as usize, env) == Ok::<ScriptImage, CompileError>(last));
        crate::script::lemma_compiled_script_layout(scripts[n - 1], (n - 1) as usize, env);
        crate::script::lemma_compiled_call_sites(scripts[n - 1], (n - 1) as usize, env);
        let old_calls = pending_calls(before);
        let all = pending_calls(images);
        assert(all == old_calls + last.relocs);
        assert forall|k: int| 0 <= k < all.len() implies (#[trigger] all[k]).script < images.len() && call_stands(
            images[all[k].script as int].code,
            all[k].at as int,
        ) by {
            if k < old_calls.len() {
                assert(all[k] == old_calls[k]);
                assert(images[old_calls[k].script as int] == before[old_calls[k].script as int]);
            } else {
                assert(all[k] == last.relocs[k - old_calls.len()]);
                assert(all[k].script == n - 1);
            }
        }
        assert forall|i: int, k: int|
            0 <= i < k < all.len() && (#[trigger] all[i]).script == (#[trigger] all[k]).script implies all[i].at + 10
            + call_length() <= all[k].at by {
            if k < old_calls.len() {
                assert(all[i] == old_calls[i]);
                assert(all[k] == old_calls[k]);
            } else if i < old_calls.len() {
                assert(all[i] == old_calls[i]);
                assert(all[k] == last.relocs[k - old_calls.len()]);
                assert(old_calls[i].script < before.len());
            } else {
                assert(all[i] == last.relocs[i - old_calls.len()]);
                assert(all[k] == last.relocs[k - old_calls.len()]);
            }
        }
    }
}

/// In a linked program every call stands whole. Where a call was recorded,
/// the caller's region holds the two bytes `48 B8` that open
/// `mov rax, imm64`, then the address of the callee's region, the low byte
/// first, then `call rax` as the assembler has it.
pub proof fn lemma_linked_call_sites(file: MscsbFile, env: HostEnv, addresses: Seq<u64>, k: int)
    requires
        compiled_program(file, env) is Ok,
        addresses.len() == file.scripts@.len(),
        0 <= k < compiled_program(file, env)->Ok_0.calls.len(),
    ensures
        ({
            let p = compiled_program(file, env)->Ok_0;
            let call = p.calls[k];
            let bytes = linked(p.regions, p.calls, addresses, p.calls.len())[call.script as int].bytes;
            &&& item_encoding(call_rax()) is Ok
            &&& call.at + 10 + call_length() <= bytes.len()
            &&& bytes[call.at as int] == 0x48u8
            &&& bytes[call.at + 1] == 0xb8u8
            &&& bytes.subrange(call.at + 2, call.at + 10) == spec_u64_to_le_bytes(addresses[call.callee as int])
            &&& bytes.subrange(call.at + 10, call.at + 10 + call_length()) == item_encoding(call_rax())->Ok_0
        }),
{
    let scripts = file.scripts@;
    assert(scripts.len() == file.scripts.len());
    let p = compiled_program(file, env)->Ok_0;
    let images = script_images(scripts, env, scripts.len())->Ok_0;
    let relocs = pending_calls(images);
    let n = p.calls.len();
    lemma_script_images(scripts, env, scripts.len());
    lemma_pending_call_sites(scripts, env, scripts.len());
    lemma_linkages(scripts, relocs, relocs.len());
    lemma_compiled_program_links(file, env, addresses);
    lemma_linked_shape(p.regions, p.calls, addresses, n);
    lemma_linked_calls(p.regions, p.calls, addresses, n, k);
    let call = p.calls[k];
    let r = call.script as int;
    let at = call.at as int;
    let code = images[r].code;
    assert(call.script == relocs[k].script && call.at == relocs[k].at);
    assert(call_stands(code, at));
    assert(p.regions[r] == fresh_region(images[r]));
    lemma_region_image(code);
    let old_bytes = p.regions[r].bytes;
    let bytes = linked(p.regions, p.calls, addresses, n)[r].bytes;
    assert forall|x: int| (at <= x < at + 2 || at + 10 <= x < at + 10 + call_length()) implies bytes[x] == code[x] by {
        assert(!in_call_slot(p.calls, n, r, x)) by {
            if in_call_slot(p.calls, n, r, x) {
                let other = choose|other: int|
                    0 <= other < n && (#[trigger] p.calls[other]).script == r && p.calls[other].at + 2 <= x
                        < p.calls[other].at + 10;
                assert(p.calls[other].script == relocs[other].script && p.calls[other].at == relocs[other].at);
                if other < k {
                    assert(relocs[other].at + 10 + call_length() <= relocs[k].at);
                } else if other > k {
                    assert(relocs[k].at + 10 + call_length() <= relocs[other].at);
                }
            }
        }
        lemma_linked_elsewhere(p.regions, p.calls, addresses, n, r, x);
        assert(old_bytes.subrange(0, code.len() as int)[x] == old_bytes[x]);
    }
    assert(bytes.subrange(at + 10, at + 10 + call_length()) =~= code.subrange(at + 10, at + 10 + call_length()));
}

impl CompiledProgram {
    fn any_locked(&self) -> (b: bool)
        ensures
            b == exists|i: int| 0 <= i < self@.regions.len() && self@.regions[i].executable,
    {
        let mut i: usize = 0;
        while i < self.mem.len()
            invariant
                i <= self.mem.len(),
                forall|j: int| 0 <= j < i ==> !self@.regions[j].executable,
            decreases self.mem.len() - i,
        {
            if self.mem[i].is_locked() {
                assert(self@.regions[i as int].executable);
                return true;
            }
            i = i + 1;
        }
        false
    }

    fn check_calls(&self) -> (b: bool)
        ensures
            b == calls_ordered(self@.calls, self@.regions),
    {
        let mut k: usize = 0;
        while k < self.calls.len()
            invariant
                k <= self.calls.len(),
                calls_ordered(self@.calls.take(k as int), self@.regions),
            decreases self.calls.len() - k,
        {
            let call = self.calls[k];
            let ghost calls = self@.calls;
            if call.script >= self.mem.len() || call.callee >= self.mem.len() {
                assert(!calls_ordered(calls, self@.regions)) by {
                    assert(calls[k as int] == call);
                }
                return false;
            }
            let size = self.mem[call.script].as_slice().len();
            if size < 10 || call.at > size - 10 {
                assert(!calls_ordered(calls, self@.regions)) by {
                    assert(calls[k as int] == call);
                }
                return false;
            }
            if k > 0 {
                let before = self.calls[k - 1];
                let apart = before.script < call.script || (before.script == call.script && call.at >= 10
                    && before.at <= call.at - 10);
                if !apart {
                    assert(!calls_ordered(calls, self@.regions)) by {
                        assert(calls[k as int] == call);
                        assert(calls[k - 1] == before);
                    }
                    return false;
                }
            }
            proof {
                let next = calls.take(k + 1);
                assert forall|j: int| 0 <= j < next.len() implies {
                    &&& (#[trigger] next[j]).script < self@.regions.len()
                    &&& next[j].callee < self@.regions.len()
                    &&& next[j].at + 10 <= self@.regions[next[j].script as int].bytes.len()
                } by {
                    if j < k {
                        assert(calls.take(k as int)[j] == next[j]);
                    }
                }
                assert forall|i: int, j: int| 0 <= i < j < next.len() implies slot_after(
                    #[trigger] next[i],
                    #[trigger] next[j],
                ) by {
                    assert(calls.take(k as int)[i] == next[i]);
                    if j < k {
                        assert(calls.take(k as int)[j] == next[j]);
                    } else if i < k - 1 {
                        assert(calls.take(k as int)[k - 1] == next[k - 1]);
                        assert(slot_after(next[i], next[k - 1]));
                    }
                }
            }
            k = k + 1;
        }
        assert(self@.calls.take(k as int) =~= self@.calls);
        true
    }

    /// Writes the address of each callee into the slot of each call. The
    /// regions must all be writable; `addresses` gives the address at which
    /// each region lies. A program that cannot be linked is left as it is.
    pub fn link(&mut self, addresses: Vec<u64>) -> (r: Result<(), LinkError>)
        ensures
            match link_refusal(old(self)@, addresses@) {
                Some(e) => r == Err::<(), LinkError>(e) && *final(self) == *old(self),
                None => {
                    &&& r is Ok
                    &&& final(self)@.regions == linked(
                        old(self)@.regions,
                        old(self)@.calls,
                        addresses@,
                        old(self)@.calls.len(),
                    )
                    &&& final(self)@.addresses == addresses@
                    &&& final(self)@.calls == old(self)@.calls
                    &&& final(self)@.entrypoint_index == old(self)@.entrypoint_index
                    &&& final(self)@.string_section == old(self)@.string_section
                    &&& final(self)@.string_offsets == old(self)@.string_offsets
                },
            },
    {
        if addresses.len() != self.mem.len() {
            return Err(LinkError::AddressCount);
        }
        if self.any_locked() {
            return Err(LinkError::StateViolation);
        }
        if !self.check_calls() {
            return Err(LinkError::Malformed);
        }
        let ghost regions = self@.regions;
        let ghost calls = self@.calls;
        let mut k: usize = 0;
        while k < self.calls.len()
            invariant
                k <= self.calls.len(),
                self.calls@ == calls,
                calls == old(self)@.calls,
                regions == old(self)@.regions,
                calls_ordered(calls, regions),
                addresses@.len() == regions.len(),
                forall|i: int| 0 <= i < regions.len() ==> !regions[i].executable,
                self@.regions == linked(regions, calls, addresses@, k as nat),
                self.addresses == old(self).addresses,
                self.entrypoint_index == old(self).entrypoint_index,
                self.string_section == old(self).string_section,
                self.string_offsets == old(self).string_offsets,
            decreases self.calls.len() - k,
        {
            let call = self.calls[k];
            proof {
                lemma_linked_shape(regions, calls, addresses@, k as nat);
                assert(calls[k as int] == call);
                assert(self@.regions[call.script as int] == self.mem@[call.script as int]@);
            }
            let size = self.mem[call.script].as_slice().len();
            assert(call.at + 10 <= size);
            let bytes = u64_to_le_bytes(addresses[call.callee]);
            let ghost before = self@.regions;
            let done = self.mem[call.script].store(call.at + 2, &bytes);
            proof {
                assert(done);
                assert(self@.regions =~= before.update(
                    call.script as int,
                    Region {
                        bytes: overwritten(before[call.script as int].bytes, call.at + 2, bytes@),
                        executable: before[call.script as int].executable,
                    },
                ));
            }
            k = k + 1;
        }
        self.addresses = addresses;
        Ok(())
    }

    /// Records the answers to the requests to make each region executable,
    /// one status per region, and hands back the first that reports a
    /// failure, or zero.
    pub fn lock_all(&mut self, statuses: &Vec<i32>) -> (ret: i32)
        requires
            statuses@.len() == old(self).mem@.len(),
        ensures
            ret == first_failure(statuses@),
            final(self)@.regions == Seq::new(
                old(self)@.regions.len(),
                |i: int| lock_result(old(self)@.regions[i], statuses@[i]),
            ),
            final(self)@.addresses == old(self)@.addresses,
            final(self)@.calls == old(self)@.calls,
            final(self)@.entrypoint_index == old(self)@.entrypoint_index,
            final(self)@.string_section == old(self)@.string_section,
            final(self)@.string_offsets == old(self)@.string_offsets,
    {
        let mut ret: i32 = 0;
        let mut i: usize = 0;
        assert(statuses@.take(0) =~= Seq::<i32>::empty());
        while i < self.mem.len()
            invariant
                i <= self.mem.len(),
                self.mem@.len() == old(self).mem@.len(),
                statuses@.len() == self.mem@.len(),
                ret == first_failure(statuses@.take(i as int)),
                forall|j: int| 0 <= j < i ==> self.mem@[j]@ == lock_result(old(self).mem@[j]@, statuses@[j]),
                forall|j: int| i <= j < self.mem@.len() ==> self.mem@[j] == old(self).mem@[j],
                self.addresses == old(self).addresses,
                self.calls == old(self).calls,
                self.entrypoint_index == old(self).entrypoint_index,
                self.string_section == old(self).string_section,
                self.string_offsets == old(self).string_offsets,
            decreases self.mem.len() - i,
        {
            let status = self.mem[i].lock(statuses[i]);
            proof {
                assert(statuses@.take(i + 1).drop_last() =~= statuses@.take(i as int));
                assert(statuses@.take(i + 1).last() == statuses@[i as int]);
            }
            if ret == 0 {
                ret = status;
            }
            i = i + 1;
        }
        assert(statuses@.take(i as int) =~= statuses@);
        assert(self@.regions =~= Seq::new(
            old(self)@.regions.len(),
            |i: int| lock_result(old(self)@.regions[i], statuses@[i]),
        ));
        ret
    }

    /// Whether the program may be entered: the entrypoint names a region
    /// and that region is executable.
    pub fn runnable(&self) -> (b: bool)
        ensures
            b == (self@.entrypoint_index < self@.regions.len()
                && self@.regions[self@.entrypoint_index as int].executable),
    {
        if self.entrypoint_index < self.mem.len() {
            self.mem[self.entrypoint_index].is_locked()
        } else {
            false
        }
    }

    /// The address of the region that runs first, in a linked program.
    pub fn get_entrypoint_address(&self) -> (address: u64)
        requires
            self@.entrypoint_index < self@.addresses.len(),
        ensures
            address == self@.addresses[self@.entrypoint_index as int],
    {
        self.addresses[self.entrypoint_index]
    }
}

} // verus!
