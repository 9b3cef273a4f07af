//! The gravity-assist program: run self-modifying arithmetic code with two
//! patched cells and read the result back from cell 0.

use vstd::prelude::*;

verus! {

use crate::intcode::{
    Intcode,
    IntcodeError,
    Process,
    ProcessStatus,
    VmState,
    lemma_resume_mem_len,
    spec_resume,
};

/// The machine after one full run of `code` with cells 1 and 2 replaced by
/// `noun` and `verb`, together with what `resume` reported.
pub open spec fn spec_run_replaced(code: Seq<i32>, noun: i32, verb: i32) -> (
    VmState,
    Result<ProcessStatus, IntcodeError>,
) {
    spec_resume(
        VmState {
            mem: code.update(1, noun).update(2, verb),
            pc: 0,
            status: ProcessStatus::Paused,
        },
    )
}

/// Whether the run with the given patch leaves the target value in cell 0.
pub open spec fn hits_target(code: Seq<i32>, noun: i32, verb: i32) -> bool {
    spec_run_replaced(code, noun, verb).0.mem[0] == 19690720
}

/// Whether the pair `(n2, v2)` is tried before `(n, v)` in the noun-major
/// search order.
pub open spec fn earlier_pair(n2: int, v2: int, n: int, v: int) -> bool {
    n2 < n || (n2 == n && v2 < v)
}

/// Every pair the search tries up to and including `(n, v)` runs to its
/// terminal state, so the search can reach `(n, v)` without stalling.
pub open spec fn halts_through(code: Seq<i32>, n: int, v: int) -> bool {
    forall|n2: i32, v2: i32|
        1 <= n2 <= 99 && 1 <= v2 <= 99 && (earlier_pair(n2 as int, v2 as int, n, v) || (n2 == n
            && v2 == v)) ==> (#[trigger] spec_run_replaced(code, n2, v2)).0.status is Exit
}

/// Cell 0 after running the program with cells 1 and 2 set to 12 and 2.
pub fn part1(input: &Intcode) -> (r: i32)
    requires
        input@.len() >= 3,
        spec_run_replaced(input@, 12, 2).0.status is Exit,
    ensures
        r == spec_run_replaced(input@, 12, 2).0.mem[0],
{
    let mut p = Process::new(input.replace(12, 2));
    let res = p.resume();
    proof {
        lemma_resume_mem_len(
            VmState { mem: input@.update(1, 12).update(2, 2), pc: 0, status: ProcessStatus::Paused },
        );
    }
    match res {
        Ok(ProcessStatus::Exit) => p.head(),
        Err(_) => p.head(),
        _ => {
            proof {
                assert(false);
            }
            vstd::pervasive::unreached()
        },
    }
}

/// Search nouns and verbs from 1 to 99, noun-major, for the first pair whose
/// run leaves 19690720 in cell 0; the result encodes it as `100 * noun +
/// verb`.
pub fn part2(input: &Intcode) -> (r: i32)
    requires
        input@.len() >= 3,
        exists|n: i32, v: i32|
            {
                &&& 1 <= n <= 99 && 1 <= v <= 99
                &&& #[trigger] hits_target(input@, n, v)
                &&& halts_through(input@, n as int, v as int)
            },
    ensures
        exists|n: i32, v: i32|
            {
                &&& 1 <= n <= 99 && 1 <= v <= 99
                &&& #[trigger] hits_target(input@, n, v)
                &&& r == 100 * n + v
                &&& forall|n2: i32, v2: i32|
                    1 <= n2 <= 99 && 1 <= v2 <= 99 && earlier_pair(n2 as int, v2 as int, n as int, v as int)
                        ==> !(#[trigger] hits_target(input@, n2, v2))
            },
{
    let mut n: i32 = 1;
    while n <= 99
        invariant
            1 <= n <= 100,
            input@.len() >= 3,
            exists|a: i32, b: i32|
                {
                    &&& 1 <= a <= 99 && 1 <= b <= 99
                    &&& #[trigger] hits_target(input@, a, b)
                    &&& halts_through(input@, a as int, b as int)
                },
            forall|a: i32, b: i32|
                1 <= a < n && 1 <= b <= 99 ==> !(#[trigger] hits_target(input@, a, b)),
        decreases 100 - n,
    {
        let mut v: i32 = 1;
        while v <= 99
            invariant
                1 <= n <= 99,
                1 <= v <= 100,
                input@.len() >= 3,
                exists|a: i32, b: i32|
                    {
                        &&& 1 <= a <= 99 && 1 <= b <= 99
                        &&& #[trigger] hits_target(input@, a, b)
                        &&& halts_through(input@, a as int, b as int)
                    },
                forall|a: i32, b: i32|
                    1 <= a < n && 1 <= b <= 99 ==> !(#[trigger] hits_target(input@, a, b)),
                forall|b: i32| 1 <= b < v ==> !(#[trigger] hits_target(input@, n, b)),
            decreases 100 - v,
        {
            let mut p = Process::new(input.replace(n, v));
            let res = p.resume();
            proof {
                lemma_resume_mem_len(
                    VmState {
                        mem: input@.update(1, n).update(2, v),
                        pc: 0,
                        status: ProcessStatus::Paused,
                    },
                );
                let (wn, wv) = choose|a: i32, b: i32|
                    {
                        &&& 1 <= a <= 99 && 1 <= b <= 99
                        &&& #[trigger] hits_target(input@, a, b)
                        &&& halts_through(input@, a as int, b as int)
                    };
                if earlier_pair(n as int, v as int, wn as int, wv as int) || (n == wn && v == wv) {
                    assert((spec_run_replaced(input@, n, v)).0.status is Exit);
                } else {
                    assert(earlier_pair(wn as int, wv as int, n as int, v as int));
                    assert(!hits_target(input@, wn, wv));
                    assert(false);
                }
                match res {
                    Ok(ProcessStatus::Exit) => {},
                    Err(_) => {},
                    _ => {
                        assert(false);
                    },
                }
            }
            let h = p.head();
            if h == 19690720 {
                proof {
                    assert(hits_target(input@, n, v));
                }
                return 100 * n + v;
            }
            v = v + 1;
        }
        n = n + 1;
    }
    proof {
        let (wn, wv) = choose|a: i32, b: i32|
            {
                &&& 1 <= a <= 99 && 1 <= b <= 99
                &&& #[trigger] hits_target(input@, a, b)
                &&& halts_through(input@, a as int, b as int)
            };
        assert(false);
    }
    vstd::pervasive::unreached()
}

} // verus!
