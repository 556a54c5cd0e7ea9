//! The script bytecode as the `msc` crate models it.

use vstd::prelude::*;
use msc::{Cmd, Command, MscsbFile, Script};

verus! {

// The bytecode model of `msc`, declared with its fields and variants: Verus
// holds each declaration against the type that `msc` defines.
#[verifier::external_type_specification]
pub struct ExCmd(Cmd);

#[verifier::external_type_specification]
pub struct ExCommand(Command);

#[verifier::external_type_specification]
pub struct ExScript(Script);

#[verifier::external_type_specification]
pub struct ExMscsbFile(MscsbFile);

/// The number of a command's opcode, as `msc` writes it into a container.
pub uninterp spec fn opcode_value(c: Cmd) -> u8;

/// `Cmd::value` matches on the command and returns the number of its
/// opcode; it depends on the variant alone.
pub assume_specification[ msc::Cmd::value ](c: &msc::Cmd) -> (r: u8)
    ensures
        r == opcode_value(*c),
;

/// The index of the first script that starts at `loc`.
pub open spec fn script_at(scripts: Seq<Script>, loc: u32) -> Option<usize>
    decreases scripts.len(),
{
    if scripts.len() == 0 {
        None
    } else {
        match script_at(scripts.drop_last(), loc) {
            Some(i) => Some(i),
            None => if scripts.last().bounds.0 == loc {
                Some((scripts.len() - 1) as usize)
            } else {
                None
            },
        }
    }
}

/// `MscsbFile::get_script_from_loc` walks the scripts in order and returns
/// the index of the first whose range starts at `loc`.
pub assume_specification[ MscsbFile::get_script_from_loc ](file: &MscsbFile, loc: u32) -> (r: Option<usize>)
    ensures
        r == script_at(file.scripts@, loc),
;

/// What `script_at` finds is a script that starts at `loc`, and none before it does.
pub proof fn lemma_script_at(scripts: Seq<Script>, loc: u32)
    requires
        scripts.len() <= usize::MAX,
    ensures
        match script_at(scripts, loc) {
            Some(i) => i < scripts.len() && scripts[i as int].bounds.0 == loc && forall|j: int|
                0 <= j < i ==> scripts[j].bounds.0 != loc,
            None => forall|j: int| 0 <= j < scripts.len() ==> scripts[j].bounds.0 != loc,
        },
    decreases scripts.len(),
{
    if scripts.len() > 0 {
        let before = scripts.drop_last();
        lemma_script_at(before, loc);
        assert forall|j: int| 0 <= j < before.len() implies (scripts[j].bounds.0 != loc) == (
        before[j].bounds.0 != loc) by {
            assert(before[j] == scripts[j]);
        }
    }
}

} // verus!
