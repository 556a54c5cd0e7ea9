use msc::{Cmd, Command, MscsbFile, Script};
use msc_jit::lower::{CompileError, HostEnv, Violation};
use msc_jit::memory::JitMemory;
use msc_jit::program::{string_pointers, string_section, Compilable, CompiledProgram, LinkError, Linkage};

fn env() -> HostEnv {
    HostEnv { globals: 0x1000, string_table: 0x2000, printf: 0x3000, syscalls: vec![0x4000; 256] }
}

fn script(start: u32, cmds: Vec<(Cmd, bool)>) -> Script {
    let mut commands = Vec::new();
    let mut position = 0u32;
    for (cmd, push_bit) in cmds {
        commands.push(Command { cmd, push_bit, position });
        position += 4;
    }
    Script { commands, bounds: (start, start + position) }
}

fn caller(start: u32, callees: &[u32]) -> Script {
    let mut cmds = vec![(Cmd::Begin { arg_count: 0, var_count: 0 }, false)];
    for callee in callees {
        cmds.push((Cmd::PushShort { val: 7 }, true));
        cmds.push((Cmd::PushInt { val: *callee }, true));
        cmds.push((Cmd::CallFunc { arg_count: 1 }, false));
    }
    cmds.push((Cmd::End, false));
    script(start, cmds)
}

fn leaf(start: u32) -> Script {
    script(start, vec![(Cmd::Begin { arg_count: 1, var_count: 0 }, false), (Cmd::End, false)])
}

fn program() -> MscsbFile {
    MscsbFile {
        scripts: vec![caller(0x10, &[0x40, 0x10]), leaf(0x40), caller(0x80, &[0x40])],
        strings: vec!["Hello, world!\n".to_string(), "x=%d".to_string()],
        entrypoint: 0x40,
    }
}

#[test]
fn program_has_one_region_per_script() {
    let compiled = program().compile(&env()).unwrap();
    assert_eq!(compiled.mem.len(), 3);
    assert_eq!(compiled.entrypoint_index, 1);
    assert!(compiled.addresses.is_empty());
    for region in &compiled.mem {
        assert_eq!(region.pages(), 1);
        assert_eq!(region.as_slice().len(), 4096);
        assert!(!region.is_locked());
    }
    let leaf_code = [0x55, 0x48, 0x89, 0xe5, 0x89, 0x7d, 0x00, 0x48, 0x89, 0xec, 0x5d, 0xc3];
    assert_eq!(&compiled.mem[1].as_slice()[..12], &leaf_code);
    assert!(compiled.mem[1].as_slice()[12..].iter().all(|b| *b == 0xc3));
}

#[test]
fn script_of_begin_alone_returns_at_once() {
    let lone = script(0x20, vec![(Cmd::Begin { arg_count: 0, var_count: 0 }, false)]);
    let file = MscsbFile { scripts: vec![lone], strings: vec![], entrypoint: 0x20 };
    let compiled = file.compile(&env()).unwrap();
    let bytes = compiled.mem[0].as_slice();
    // push rbp; mov rbp, rsp; mov rsp, rbp; pop rbp; ret
    assert_eq!(&bytes[..9], &[0x55, 0x48, 0x89, 0xe5, 0x48, 0x89, 0xec, 0x5d, 0xc3]);
    assert!(bytes[9..].iter().all(|b| *b == 0xc3));
    assert_eq!(bytes.len(), 4096);
    assert!(compiled.calls.is_empty());
}

#[test]
fn calls_name_their_callee_by_index() {
    let compiled = program().compile(&env()).unwrap();
    assert_eq!(
        compiled.calls,
        vec![
            Linkage { script: 0, at: 10, callee: 1 },
            Linkage { script: 0, at: 28, callee: 0 },
            Linkage { script: 2, at: 10, callee: 1 },
        ]
    );
}

#[test]
fn program_carries_its_string_section() {
    let compiled = program().compile(&env()).unwrap();
    assert_eq!(compiled.string_section, b"Hello, world!\n\0x=%d\0".to_vec());
    assert_eq!(compiled.string_offsets, vec![0, 15]);
}

#[test]
fn linking_writes_the_callee_addresses() {
    let mut compiled = program().compile(&env()).unwrap();
    let before: Vec<Vec<u8>> = compiled.mem.iter().map(|m| m.as_slice().to_vec()).collect();
    let addresses = vec![0x7f00_0000_1000u64, 0x7f00_0000_2000, 0x1122_3344_5566_7788];
    assert_eq!(compiled.link(addresses.clone()), Ok(()));
    assert_eq!(compiled.addresses, addresses);
    let first = compiled.mem[0].as_slice();
    assert_eq!(&first[10..12], &[0x48, 0xb8]);
    assert_eq!(&first[12..20], &0x7f00_0000_2000u64.to_le_bytes());
    assert_eq!(&first[28..30], &[0x48, 0xb8]);
    assert_eq!(&first[30..38], &0x7f00_0000_1000u64.to_le_bytes());
    let third = compiled.mem[2].as_slice();
    assert_eq!(&third[12..20], &0x7f00_0000_2000u64.to_le_bytes());
    // every call stands whole: mov rax, imm64; call rax
    for call in compiled.calls.iter() {
        let bytes = compiled.mem[call.script].as_slice();
        assert_eq!(&bytes[call.at..call.at + 2], &[0x48, 0xb8]);
        assert_eq!(&bytes[call.at + 2..call.at + 10], &addresses[call.callee].to_le_bytes());
        assert_eq!(&bytes[call.at + 10..call.at + 12], &[0xff, 0xd0]);
    }
    // nothing else has changed
    for (r, old) in before.iter().enumerate() {
        for (x, byte) in old.iter().enumerate() {
            let in_slot = compiled.calls.iter().any(|c| c.script == r && c.at + 2 <= x && x < c.at + 10);
            if !in_slot {
                assert_eq!(compiled.mem[r].as_slice()[x], *byte);
            }
        }
    }
    assert_eq!(compiled.get_entrypoint_address(), 0x7f00_0000_2000);
}

#[test]
fn linking_needs_one_address_per_region() {
    let mut compiled = program().compile(&env()).unwrap();
    assert_eq!(compiled.link(vec![1, 2]), Err(LinkError::AddressCount));
    assert_eq!(compiled.link(vec![1, 2, 3, 4]), Err(LinkError::AddressCount));
    assert!(compiled.addresses.is_empty());
    assert_eq!(&compiled.mem[0].as_slice()[12..20], &[0xf8, 0xff, 0xff, 0xff, 0xff, 0xff, 0xff, 0xf8]);
}

#[test]
fn linking_needs_writable_regions() {
    let mut compiled = program().compile(&env()).unwrap();
    assert_eq!(compiled.mem[2].lock(0), 0);
    assert_eq!(compiled.link(vec![1, 2, 3]), Err(LinkError::StateViolation));
    assert_eq!(compiled.mem[2].unlock(0), 0);
    assert_eq!(compiled.link(vec![1, 2, 3]), Ok(()));
}

fn handmade(calls: Vec<Linkage>) -> CompiledProgram {
    CompiledProgram {
        mem: vec![JitMemory::new(1), JitMemory::new(1)],
        string_section: vec![],
        string_offsets: vec![],
        entrypoint_index: 0,
        calls,
        addresses: vec![],
    }
}

#[test]
fn linking_refuses_calls_out_of_order_or_out_of_range() {
    let call = |script, at, callee| Linkage { script, at, callee };
    assert_eq!(handmade(vec![call(0, 0, 1), call(0, 10, 0), call(1, 4086, 1)]).link(vec![1, 2]), Ok(()));
    assert_eq!(handmade(vec![call(0, 0, 1), call(0, 9, 0)]).link(vec![1, 2]), Err(LinkError::Malformed));
    assert_eq!(handmade(vec![call(1, 0, 1), call(0, 20, 0)]).link(vec![1, 2]), Err(LinkError::Malformed));
    assert_eq!(handmade(vec![call(0, 4087, 1)]).link(vec![1, 2]), Err(LinkError::Malformed));
    assert_eq!(handmade(vec![call(2, 0, 1)]).link(vec![1, 2]), Err(LinkError::Malformed));
    assert_eq!(handmade(vec![call(0, 0, 2)]).link(vec![1, 2]), Err(LinkError::Malformed));
    assert_eq!(handmade(vec![call(0, usize::MAX, 0)]).link(vec![1, 2]), Err(LinkError::Malformed));
}

#[test]
fn lock_all_reports_the_first_failure() {
    let mut compiled = program().compile(&env()).unwrap();
    assert!(!compiled.runnable());
    assert_eq!(compiled.lock_all(&vec![0, -1, 12]), -1);
    assert!(compiled.mem[0].is_locked());
    assert!(!compiled.mem[1].is_locked());
    assert!(!compiled.mem[2].is_locked());
    assert!(!compiled.runnable());
    assert_eq!(compiled.lock_all(&vec![0, 0, 0]), 0);
    assert!(compiled.mem.iter().all(|m| m.is_locked()));
    assert!(compiled.runnable());
}

#[test]
fn program_with_entrypoint_out_of_range_is_not_runnable() {
    let mut broken = handmade(vec![]);
    broken.entrypoint_index = 2;
    assert_eq!(broken.lock_all(&vec![0, 0]), 0);
    assert!(!broken.runnable());
}

#[test]
fn unknown_entrypoint_is_refused() {
    let mut file = program();
    file.entrypoint = 0x44;
    assert_eq!(
        file.compile(&env()).unwrap_err(),
        CompileError::StructuralViolation { position: 0x44, opcode: None, violation: Violation::UnknownEntrypoint }
    );
}

#[test]
fn call_to_no_script_is_refused() {
    let file = MscsbFile { scripts: vec![caller(0x10, &[0x10, 0x14]), leaf(0x40)], strings: vec![], entrypoint: 0x10 };
    assert_eq!(
        file.compile(&env()).unwrap_err(),
        CompileError::StructuralViolation { position: 24, opcode: Some(0x2f), violation: Violation::UnknownCallee }
    );
}

#[test]
fn script_errors_come_before_link_errors() {
    let bad = script(0x90, vec![(Cmd::Begin { arg_count: 0, var_count: 0 }, false), (Cmd::ErrorC, false)]);
    let file = MscsbFile { scripts: vec![caller(0x10, &[0x14]), bad], strings: vec![], entrypoint: 0 };
    assert_eq!(file.compile(&env()).unwrap_err(), CompileError::UnsupportedOpcode { position: 4, opcode: 0xc });
}

#[test]
fn scripts_are_found_by_their_start_and_the_first_wins() {
    let file = MscsbFile { scripts: vec![leaf(0x40), caller(0x40, &[0x40])], strings: vec![], entrypoint: 0x40 };
    let compiled = file.compile(&env()).unwrap();
    assert_eq!(compiled.entrypoint_index, 0);
    assert_eq!(compiled.calls, vec![Linkage { script: 1, at: 10, callee: 0 }]);
}

#[test]
fn program_without_scripts_has_no_entrypoint() {
    let file = MscsbFile { scripts: vec![], strings: vec![], entrypoint: 0 };
    assert_eq!(
        file.compile(&env()).unwrap_err(),
        CompileError::StructuralViolation { position: 0, opcode: None, violation: Violation::UnknownEntrypoint }
    );
}

#[test]
fn large_script_takes_more_pages() {
    let mut cmds = vec![(Cmd::Begin { arg_count: 0, var_count: 0 }, false)];
    for _ in 0..1000 {
        cmds.push((Cmd::PushShort { val: 1 }, true));
    }
    cmds.push((Cmd::End, false));
    let file = MscsbFile { scripts: vec![script(0, cmds)], strings: vec![], entrypoint: 0 };
    let compiled = file.compile(&env()).unwrap();
    assert_eq!(compiled.mem[0].pages(), 2);
    let bytes = compiled.mem[0].as_slice();
    assert_eq!(bytes.len(), 8192);
    assert_eq!(&bytes[4 + 5000..4 + 5005], &[0x48, 0x89, 0xec, 0x5d, 0xc3]);
    assert!(bytes[5009..].iter().all(|b| *b == 0xc3));
}

#[test]
fn compiling_twice_gives_the_same_regions() {
    let first = program().compile(&env()).unwrap();
    let second = program().compile(&env()).unwrap();
    assert_eq!(first.mem.len(), second.mem.len());
    for (a, b) in first.mem.iter().zip(second.mem.iter()) {
        assert_eq!(a.as_slice(), b.as_slice());
    }
    assert_eq!(first.calls, second.calls);
}

#[test]
fn strings_are_laid_out_with_terminators() {
    let section = string_section(&vec!["ab".to_string(), String::new(), "c\u{e9}".to_string()]);
    assert_eq!(section.bytes, vec![b'a', b'b', 0, 0, b'c', 0xc3, 0xa9, 0]);
    assert_eq!(section.offsets, vec![0, 3, 4]);
    let empty = string_section(&vec![]);
    assert!(empty.bytes.is_empty() && empty.offsets.is_empty());
}

#[test]
fn every_string_ends_at_a_terminator() {
    let strings = vec!["x=%d y=%d\n".to_string(), "%s".to_string(), "tail".to_string()];
    let section = string_section(&strings);
    for (i, s) in strings.iter().enumerate() {
        let start = section.offsets[i];
        assert_eq!(&section.bytes[start..start + s.len()], s.as_bytes());
        assert_eq!(section.bytes[start + s.len()], 0);
    }
}

#[test]
fn string_pointers_add_the_base() {
    assert_eq!(string_pointers(0x5000, &vec![0, 15, 20]), Some(vec![0x5000, 0x500f, 0x5014]));
    assert_eq!(string_pointers(0x5000, &vec![]), Some(vec![]));
    assert_eq!(string_pointers(u64::MAX - 4, &vec![0, 4]), Some(vec![u64::MAX - 4, u64::MAX]));
    assert_eq!(string_pointers(u64::MAX - 4, &vec![0, 5]), None);
}

/// Whether byte `x` lies within the eight bytes behind the two with which
/// `mov r64, imm64` begins.
fn in_immediate(code: &[u8], x: usize) -> bool {
    (2..=x).any(|s| {
        x < s + 8
            && s + 8 <= code.len()
            && (code[s - 2] == 0x48 || code[s - 2] == 0x49)
            && (0xb8..=0xbf).contains(&code[s - 1])
    })
}

#[test]
fn another_host_changes_only_the_addresses() {
    let busy = script(
        0x100,
        vec![
            (Cmd::Begin { arg_count: 0, var_count: 4 }, false),
            (Cmd::PushVar { var_type: 1, var_num: 3 }, true),
            (Cmd::SetVar { var_type: 1, var_num: 5 }, false),
            (Cmd::IncI { var_type: 1, var_num: 2 }, false),
            (Cmd::DecF { var_type: 1, var_num: 32 }, false),
            (Cmd::PushShort { val: 1 }, true),
            (Cmd::AddVarBy { var_type: 1, var_num: 7 }, false),
            (Cmd::PushShort { val: 0 }, true),
            (Cmd::If { loc: 0x100 + 48 }, false),
            (Cmd::PushShort { val: 0 }, true),
            (Cmd::PrintF { arg_count: 1 }, false),
            (Cmd::Sys { arg_count: 0, sys_num: 9 }, true),
            (Cmd::Return6, false),
            (Cmd::End, false),
        ],
    );
    let file = MscsbFile {
        scripts: vec![caller(0x10, &[0x40, 0x100]), leaf(0x40), busy],
        strings: vec!["Hello, world!\n".to_string()],
        entrypoint: 0x100,
    };
    let here = file.compile(&env()).unwrap();
    let mut adapters = vec![0xffff_8000_0000_0000u64; 300];
    adapters[9] = 0x1234_5678_9abc_def0;
    let other = HostEnv {
        globals: 0x7fff_0000_1000,
        string_table: 0x5555_0000_0000_2000,
        printf: 0xffff_ffff_ffff_fff0,
        syscalls: adapters,
    };
    let there = file.compile(&other).unwrap();
    assert_eq!(here.mem.len(), there.mem.len());
    assert_eq!(here.string_section, there.string_section);
    assert_eq!(here.string_offsets, there.string_offsets);
    assert_eq!(here.entrypoint_index, there.entrypoint_index);
    assert_eq!(here.calls, there.calls);
    let mut changed = 0;
    for (a, b) in here.mem.iter().zip(there.mem.iter()) {
        let (a, b) = (a.as_slice(), b.as_slice());
        assert_eq!(a.len(), b.len());
        for x in 0..a.len() {
            if a[x] != b[x] {
                changed += 1;
                assert!(in_immediate(a, x) && in_immediate(b, x), "byte {}", x);
            }
        }
    }
    assert!(changed > 0);
    // the scripts that name no address are the same for both hosts
    assert_eq!(here.mem[0].as_slice(), there.mem[0].as_slice());
    assert_eq!(here.mem[1].as_slice(), there.mem[1].as_slice());
}
