//! The thin command layer over the machine: the parsed command set of the
//! interactive shell, program selection, and the bounded execution entry
//! points.  Reading commands and printing dumps is I/O and lives outside
//! the library.

use vstd::prelude::*;

use crate::cpu::hardware::{prog_lookup, HwV, Sc0Hardware};
use crate::simulator::{run_machine, run_spec, RunOutcome};

verus! {

/// One parsed shell command.
#[allow(non_camel_case_types)]
pub enum Inputs {
    Help,
    Load(String),
    Select(String),
    Memdump(u32, u32),
    Regdump,
    Execute,
    Run(u16),
    Debug,
    Exit,
    NULL,
    Error,
}

/// Select the loaded program of the given name as the target of execution.
/// When no program of that name is loaded, the selection is cleared.
pub fn select(hw: &mut Sc0Hardware, pname: String) -> (found: bool)
    ensures
        found == (prog_lookup(old(hw)@.progs, pname@) is Some),
        found ==> final(hw)@ == (HwV { selected: pname@, ..old(hw)@ }),
        !found ==> final(hw)@ == (HwV { selected: Seq::<char>::empty(), ..old(hw)@ }),
{
    let name_opt: Option<String> = match hw.get_prog(pname.clone()) {
        Some(resulting_prog) => Some(resulting_prog.name.clone()),
        None => None,
    };
    match name_opt {
        Some(nm) => {
            proof {
                crate::cpu::hardware::lemma_prog_lookup_name(hw@.progs, pname@);
                assert(nm@ == pname@);
            }
            hw.selected = nm;
            true
        },
        None => {
            hw.selected = String::new();
            false
        },
    }
}

/// Run the selected program to halt, fault, or the standard instruction
/// budget, from its starting address, with no input available.  None when
/// no program of the selected name is loaded.
pub fn execute(hw: &mut Sc0Hardware) -> (r: Option<RunOutcome>)
    requires
        old(hw).wf(),
    ensures
        final(hw).wf(),
        (r is None) == (prog_lookup(old(hw)@.progs, old(hw)@.selected) is None),
        r is None ==> final(hw)@ == old(hw)@,
        r is Some ==> ({
            let start = prog_lookup(old(hw)@.progs, old(hw)@.selected)->0.start_pc;
            let regs1 = old(hw)@.regs.update(14, start);
            let rr = run_spec(regs1, old(hw)@.mem, Seq::<u8>::empty(), 0xFFFF);
            &&& final(hw)@.regs == rr.regs
            &&& final(hw)@.mem == rr.mem
            &&& final(hw)@.limit == old(hw)@.limit
            &&& final(hw)@.progs == old(hw)@.progs
            &&& final(hw)@.selected == old(hw)@.selected
            &&& r->0.output@ == rr.outputs
            &&& r->0.stop == rr.stop
        }),
{
    run(hw, String::new(), 0xFFFF)
}

/// Run the selected program for at most `count` instructions from its
/// starting address, with no input available.  The first argument names
/// nothing: the target is always the selected program.
pub fn run(hw: &mut Sc0Hardware, _p: String, count: u16) -> (r: Option<RunOutcome>)
    requires
        old(hw).wf(),
    ensures
        final(hw).wf(),
        (r is None) == (prog_lookup(old(hw)@.progs, old(hw)@.selected) is None),
        r is None ==> final(hw)@ == old(hw)@,
        r is Some ==> ({
            let start = prog_lookup(old(hw)@.progs, old(hw)@.selected)->0.start_pc;
            let regs1 = old(hw)@.regs.update(14, start);
            let rr = run_spec(regs1, old(hw)@.mem, Seq::<u8>::empty(), count as nat);
            &&& final(hw)@.regs == rr.regs
            &&& final(hw)@.mem == rr.mem
            &&& final(hw)@.limit == old(hw)@.limit
            &&& final(hw)@.progs == old(hw)@.progs
            &&& final(hw)@.selected == old(hw)@.selected
            &&& r->0.output@ == rr.outputs
            &&& r->0.stop == rr.stop
        }),
{
    let sel = hw.selected.clone();
    let start_opt: Option<u32> = match hw.get_prog(sel) {
        Some(prog_ref) => Some(prog_ref.start_pc),
        None => None,
    };
    match start_opt {
        None => None,
        Some(start) => {
            hw.set_reg(14, start);
            let no_input: Vec<u8> = Vec::new();
            let outcome = run_machine(hw, count as u32, &no_input);
            Some(outcome)
        },
    }
}

} // verus!
