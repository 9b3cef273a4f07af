//! The diagnostic program: feed one system identifier, then collect the
//! outputs the program produces until it halts.

use vstd::prelude::*;

verus! {

use crate::intcode::{
    Intcode,
    IntcodeError,
    Process,
    ProcessStatus,
    VmState,
    spec_feed,
    spec_resume,
};

/// Bound on how many outputs one drain collects.
pub const DRAIN_FUEL: u64 = 0x1000_0000;

/// Draining a machine: resume repeatedly, remembering the latest output, and
/// stop at the first report that is not an output.
pub open spec fn spec_drain(s: VmState, last: i32, rounds: nat) -> i32
    decreases rounds,
{
    if rounds == 0 {
        last
    } else {
        let (s1, r1) = spec_resume(s);
        match r1 {
            Ok(ProcessStatus::Outputting(x)) => spec_drain(s1, x, (rounds - 1) as nat),
            _ => last,
        }
    }
}

/// The machine state right after the boot sequence: one resume up to the
/// first input request, then the identifier fed into it.
pub open spec fn booted(code: Seq<i32>, id: i32) -> VmState {
    spec_feed(spec_resume(fresh(code)).0, id).0
}

/// A fresh machine over `code`.
pub open spec fn fresh(code: Seq<i32>) -> VmState {
    VmState { mem: code, pc: 0, status: ProcessStatus::Paused }
}

/// Feed the identifier 1 and return the last output before the program
/// halts: the diagnostic code.
pub fn part1(input: &Intcode) -> (r: i32)
    requires
        spec_resume(fresh(input@)).1 matches Ok(st) && st is Awaiting,
    ensures
        r == spec_drain(booted(input@, 1), 0, DRAIN_FUEL as nat),
{
    let mut p = Process::new(input.duplicate());
    let boot = p.resume();
    proof {
        assert(boot is Ok);
        crate::intcode::lemma_resume_awaiting(fresh(input@));
    }
    let r2 = p.feed(1);
    proof {
        assert(r2 is Ok);
    }
    let mut last: i32 = 0;
    let mut rounds: u64 = DRAIN_FUEL;
    let ghost s0 = p@;
    loop
        invariant
            s0 == booted(input@, 1),
            rounds <= DRAIN_FUEL,
            spec_drain(s0, 0, DRAIN_FUEL as nat) == spec_drain(p@, last, rounds as nat),
        decreases rounds,
    {
        if rounds == 0 {
            return last;
        }
        let ghost pre = p@;
        let ghost last_b = last;
        let ghost rounds_b = rounds;
        match p.resume() {
            Ok(ProcessStatus::Outputting(x)) => {
                last = x;
                rounds = rounds - 1;
                proof {
                    assert(spec_drain(pre, last_b, rounds_b as nat) == spec_drain(
                        p@,
                        last,
                        rounds as nat,
                    ));
                }
            },
            _ => {
                return last;
            },
        }
    }
}

/// Feed the identifier 5 and return the single output the program produces.
pub fn part2(input: &Intcode) -> (r: i32)
    requires
        spec_resume(fresh(input@)).1 matches Ok(st) && st is Awaiting,
        spec_resume(booted(input@, 5)).1 matches Ok(st) && st is Outputting,
    ensures
        Ok::<ProcessStatus, IntcodeError>(ProcessStatus::Outputting(r)) == spec_resume(
            booted(input@, 5),
        ).1,
{
    let mut p = Process::new(input.duplicate());
    let boot = p.resume();
    proof {
        assert(boot is Ok);
        crate::intcode::lemma_resume_awaiting(fresh(input@));
    }
    let r2 = p.feed(5);
    proof {
        assert(r2 is Ok);
    }
    match p.resume() {
        Ok(ProcessStatus::Outputting(x)) => x,
        _ => {
            proof {
                assert(false);
            }
            vstd::pervasive::unreached()
        },
    }
}

} // verus!
