//! The process pipeline: an ordered chain of interpreter instances through
//! which a single integer token flows, in one pass or in a feedback loop.

use itertools::Itertools;
use vstd::prelude::*;

verus! {

use crate::intcode::{
    Intcode,
    IntcodeError,
    Process,
    ProcessStatus,
    VmState,
    spec_feed,
    spec_resume,
};

/// Bound on the number of full feedback passes one `do_loop` call makes.
pub const CHAIN_FUEL: u64 = 0x1000_0000;

/// The machine state a fresh process over `code` starts in.
pub open spec fn fresh_state(code: Seq<i32>) -> VmState {
    VmState { mem: code, pc: 0, status: ProcessStatus::Paused }
}

/// A chain of `n` fresh machine states over `code`.
pub open spec fn fresh_chain(code: Seq<i32>, n: nat) -> Seq<VmState> {
    Seq::new(n, |j: int| fresh_state(code))
}

/// `n` copies of the token `v`, the initial outputs table of a feedback run.
pub open spec fn const_tokens(n: nat, v: i32) -> Seq<i32> {
    Seq::new(n, |j: int| v)
}

/// Initialization never adds or removes chain members.
pub proof fn lemma_init_from_len(states: Seq<VmState>, phases: Seq<i32>, i: nat)
    ensures
        spec_init_from(states, phases, i).0.len() == states.len(),
    decreases states.len() - i,
{
    if i < states.len() {
        let (s1, r1) = spec_resume(states[i as int]);
        if r1 is Ok {
            let (s2, r2) = spec_feed(s1, phases[i as int]);
            if r2 is Ok {
                lemma_init_from_len(states.update(i as int, s2), phases, i + 1);
            }
        }
    }
}

/// Effect of `init` on the states from index `i` on: each process in order is
/// resumed up to its first input request and fed its phase value.  On an
/// error the walk stops; later states are untouched.
pub open spec fn spec_init_from(states: Seq<VmState>, phases: Seq<i32>, i: nat) -> (Seq<
    VmState,
>, Result<(), IntcodeError>)
    decreases states.len() - i,
{
    if i >= states.len() {
        (states, Ok(()))
    } else {
        let (s1, r1) = spec_resume(states[i as int]);
        match r1 {
            Err(e) => (states.update(i as int, s1), Err(e)),
            Ok(_) => {
                let (s2, r2) = spec_feed(s1, phases[i as int]);
                match r2 {
                    Err(e) => (states.update(i as int, s2), Err(e)),
                    Ok(_) => spec_init_from(states.update(i as int, s2), phases, i + 1),
                }
            },
        }
    }
}

/// Effect of one left-to-right pass from index `i` on: each process is
/// resumed to its input request, fed the token, and resumed again to collect
/// the output, which becomes the token handed to the next process.
pub open spec fn spec_pass_from(states: Seq<VmState>, value: i32, i: nat) -> (Seq<
    VmState,
>, Result<i32, IntcodeError>)
    decreases states.len() - i,
{
    if i >= states.len() {
        (states, Ok(value))
    } else {
        let (s1, r1) = spec_resume(states[i as int]);
        match r1 {
            Err(e) => (states.update(i as int, s1), Err(e)),
            Ok(st1) => if !(st1 is Awaiting) {
                (states.update(i as int, s1), Err(IntcodeError::ContractViolation))
            } else {
                let (s2, r2) = spec_feed(s1, value);
                match r2 {
                    Err(e) => (states.update(i as int, s2), Err(e)),
                    Ok(_) => {
                        let (s3, r3) = spec_resume(s2);
                        match r3 {
                            Err(e) => (states.update(i as int, s3), Err(e)),
                            Ok(st3) => match st3 {
                                ProcessStatus::Outputting(x) => spec_pass_from(
                                    states.update(i as int, s3),
                                    x,
                                    i + 1,
                                ),
                                _ => (states.update(i as int, s3), Err(
                                    IntcodeError::ContractViolation,
                                )),
                            },
                        }
                    },
                }
            },
        }
    }
}

/// Whether every process in the chain has reached its terminal state.
pub open spec fn all_exited(states: Seq<VmState>) -> bool {
    forall|j: int| 0 <= j < states.len() ==> (#[trigger] states[j].status) is Exit
}

/// The index whose last output feeds process `i` in the feedback topology:
/// its left neighbour, wrapping around at the front.
pub open spec fn prev_index(i: int, n: int) -> int {
    if i == 0 {
        n - 1
    } else {
        i - 1
    }
}

/// Effect of one feedback pass from index `i` on.  Each process is resumed;
/// if it requests input it is fed the last output of its left neighbour; a
/// second resume collects its output into the outputs table.  An exited
/// process is left alone and its recorded output is simply reused.
pub open spec fn spec_cycle_from(states: Seq<VmState>, outputs: Seq<i32>, i: nat) -> (Seq<
    VmState,
>, Seq<i32>, Result<(), IntcodeError>)
    decreases states.len() - i,
{
    if i >= states.len() {
        (states, outputs, Ok(()))
    } else {
        let (s1, r1) = spec_resume(states[i as int]);
        match r1 {
            Err(e) => (states.update(i as int, s1), outputs, Err(e)),
            Ok(st1) => if st1 is Awaiting {
                let prev = outputs[prev_index(i as int, states.len() as int)];
                let (s2, r2) = spec_feed(s1, prev);
                match r2 {
                    Err(e) => (states.update(i as int, s2), outputs, Err(e)),
                    Ok(_) => {
                        let (s3, r3) = spec_resume(s2);
                        match r3 {
                            Err(e) => (states.update(i as int, s3), outputs, Err(e)),
                            Ok(st3) => {
                                let outs2 = match st3 {
                                    ProcessStatus::Outputting(x) => outputs.update(i as int, x),
                                    _ => outputs,
                                };
                                spec_cycle_from(states.update(i as int, s3), outs2, i + 1)
                            },
                        }
                    },
                }
            } else {
                let (s3, r3) = spec_resume(s1);
                match r3 {
                    Err(e) => (states.update(i as int, s3), outputs, Err(e)),
                    Ok(st3) => {
                        let outs2 = match st3 {
                            ProcessStatus::Outputting(x) => outputs.update(i as int, x),
                            _ => outputs,
                        };
                        spec_cycle_from(states.update(i as int, s3), outs2, i + 1)
                    },
                }
            },
        }
    }
}

/// Effect of the whole feedback loop: feedback passes repeat until every
/// process has exited (or the pass budget is spent); the result is the last
/// recorded output of the final process.
pub open spec fn spec_cycle_loop(states: Seq<VmState>, outputs: Seq<i32>, fuel: nat) -> (Seq<
    VmState,
>, Seq<i32>, Result<i32, IntcodeError>)
    decreases fuel,
{
    if all_exited(states) || fuel == 0 {
        (states, outputs, Ok(outputs.last()))
    } else {
        let (s2, o2, r) = spec_cycle_from(states, outputs, 0);
        match r {
            Err(e) => (s2, o2, Err(e)),
            Ok(_) => spec_cycle_loop(s2, o2, (fuel - 1) as nat),
        }
    }
}

/// An ordered chain of processes; the token visits them strictly in the
/// order given at construction.
#[derive(Debug)]
pub struct ProcessChain(Vec<Process>);

impl View for ProcessChain {
    type V = Seq<VmState>;

    closed spec fn view(&self) -> Seq<VmState> {
        self.0@.map_values(|p: Process| p@)
    }
}

impl ProcessChain {
    /// Chain the given processes, in order.
    pub fn new(processes: Vec<Process>) -> (r: ProcessChain)
        ensures
            r@ == processes@.map_values(|p: Process| p@),
    {
        ProcessChain(processes)
    }

    /// A chain of `n` fresh processes, each over its own copy of `code`.
    pub fn replicate(code: &Intcode, n: usize) -> (r: ProcessChain)
        ensures
            r@ == fresh_chain(code@, n as nat),
    {
        let mut v: Vec<Process> = Vec::new();
        let mut i: usize = 0;
        while i < n
            invariant
                i <= n,
                v@.len() == i,
                forall|j: int| 0 <= j < i ==> (#[trigger] v@[j])@ == fresh_state(code@),
            decreases n - i,
        {
            v.push(Process::new(code.duplicate()));
            i = i + 1;
        }
        let r = ProcessChain(v);
        proof {
            assert(r@ =~= fresh_chain(code@, n as nat));
        }
        r
    }

    /// How many processes the chain holds.
    pub fn len(&self) -> (n: usize)
        ensures
            n == self@.len(),
    {
        self.0.len()
    }

    /// One-time configuration: run each process to its first input request
    /// and feed it its phase value, in chain order.
    #[verifier::rlimit(60)]
    pub fn init(&mut self, phases: &Vec<i32>) -> (r: Result<(), IntcodeError>)
        requires
            phases@.len() >= old(self)@.len(),
        ensures
            final(self)@ == spec_init_from(old(self)@, phases@, 0).0,
            r == spec_init_from(old(self)@, phases@, 0).1,
    {
        let ghost states0 = self@;
        let n = self.0.len();
        proof {
            assert(self@.len() == n);
        }
        let mut i: usize = 0;
        while i < n
            invariant
                i <= n,
                self.0@.len() == n,
                self@.len() == n,
                phases@.len() >= n,
                states0 == old(self)@,
                spec_init_from(states0, phases@, 0) == spec_init_from(self@, phases@, i as nat),
            decreases n - i,
        {
            let ghost pre = self@;
            let phase = phases[i];
            let p = &mut self.0[i];
            let r1 = p.resume();
            proof {
                assert(self@ =~= pre.update(i as int, self.0@[i as int]@));
            }
            if let Err(e) = r1 {
                proof {
                    assert(spec_init_from(pre, phases@, i as nat) == (
                        pre.update(i as int, spec_resume(pre[i as int]).0),
                        Err::<(), IntcodeError>(e),
                    ));
                }
                return Err(e);
            }
            let p = &mut self.0[i];
            let r2 = p.feed(phase);
            proof {
                assert(self@ =~= pre.update(i as int, self.0@[i as int]@));
            }
            if let Err(e) = r2 {
                proof {
                    let s1 = spec_resume(pre[i as int]).0;
                    assert(spec_init_from(pre, phases@, i as nat) == (
                        pre.update(i as int, spec_feed(s1, phases@[i as int]).0),
                        Err::<(), IntcodeError>(e),
                    ));
                }
                return Err(e);
            }
            proof {
                let s1 = spec_resume(pre[i as int]).0;
                let s2 = spec_feed(s1, phases@[i as int]).0;
                assert(spec_init_from(pre, phases@, i as nat) == spec_init_from(
                    pre.update(i as int, s2),
                    phases@,
                    (i + 1) as nat,
                ));
                assert(self@ == pre.update(i as int, s2));
            }
            i = i + 1;
        }
        Ok(())
    }

    /// One left-to-right pass: each process in order is run to its input
    /// request, fed the current token, and run again to collect its output,
    /// which becomes the token for the next process.
    #[verifier::rlimit(60)]
    pub fn feed(&mut self, value: i32) -> (r: Result<i32, IntcodeError>)
        ensures
            final(self)@ == spec_pass_from(old(self)@, value, 0).0,
            r == spec_pass_from(old(self)@, value, 0).1,
    {
        let ghost states0 = self@;
        let n = self.0.len();
        proof {
            assert(self@.len() == n);
        }
        let mut last = value;
        let mut i: usize = 0;
        while i < n
            invariant
                i <= n,
                self.0@.len() == n,
                self@.len() == n,
                states0 == old(self)@,
                spec_pass_from(states0, value, 0) == spec_pass_from(self@, last, i as nat),
            decreases n - i,
        {
            let ghost pre = self@;
            let ghost last0 = last;
            let p = &mut self.0[i];
            let r1 = p.resume();
            proof {
                assert(self@ =~= pre.update(i as int, self.0@[i as int]@));
            }
            let st1 = match r1 {
                Err(e) => {
                    return Err(e);
                },
                Ok(st) => st,
            };
            match st1 {
                ProcessStatus::Awaiting(_) => {},
                _ => {
                    return Err(IntcodeError::ContractViolation);
                },
            }
            let p = &mut self.0[i];
            let r2 = p.feed(last);
            proof {
                assert(self@ =~= pre.update(i as int, self.0@[i as int]@));
            }
            if let Err(e) = r2 {
                return Err(e);
            }
            let p = &mut self.0[i];
            let r3 = p.resume();
            proof {
                assert(self@ =~= pre.update(i as int, self.0@[i as int]@));
            }
            let st3 = match r3 {
                Err(e) => {
                    return Err(e);
                },
                Ok(st) => st,
            };
            match st3 {
                ProcessStatus::Outputting(x) => {
                    last = x;
                    proof {
                        let s1 = spec_resume(pre[i as int]).0;
                        let s2 = spec_feed(s1, last0).0;
                        let s3 = spec_resume(s2).0;
                        assert(spec_pass_from(pre, last0, i as nat) == spec_pass_from(
                            pre.update(i as int, s3),
                            x,
                            (i + 1) as nat,
                        ));
                        assert(self@ == pre.update(i as int, s3));
                    }
                },
                _ => {
                    return Err(IntcodeError::ContractViolation);
                },
            }
            i = i + 1;
        }
        Ok(last)
    }

    /// Whether some process in the chain has not yet exited.
    fn any_running(&self) -> (r: bool)
        ensures
            r == !all_exited(self@),
    {
        let n = self.0.len();
        proof {
            assert(self@.len() == n);
        }
        let mut i: usize = 0;
        while i < n
            invariant
                i <= n,
                self.0@.len() == n,
                self@.len() == n,
                forall|j: int| 0 <= j < i ==> (#[trigger] self@[j].status) is Exit,
            decreases n - i,
        {
            let st = self.0[i].status();
            proof {
                assert(self@[i as int].status == st);
            }
            match st {
                ProcessStatus::Exit => {
                    i = i + 1;
                },
                _ => {
                    return true;
                },
            }
        }
        false
    }

    /// Run feedback passes until every process has exited: the token of each
    /// process comes from the last output of its left neighbour, wrapping
    /// from the first process back to the last.  Returns the last output of
    /// the final process.
    #[verifier::rlimit(100)]
    pub fn do_loop(&mut self, initial: i32) -> (r: Result<i32, IntcodeError>)
        requires
            old(self)@.len() > 0,
        ensures
            final(self)@ == spec_cycle_loop(
                old(self)@,
                const_tokens(old(self)@.len(), initial),
                CHAIN_FUEL as nat,
            ).0,
            r == spec_cycle_loop(
                old(self)@,
                const_tokens(old(self)@.len(), initial),
                CHAIN_FUEL as nat,
            ).2,
    {
        let ghost states0 = self@;
        let ghost outs0 = const_tokens(self@.len(), initial);
        let n = self.0.len();
        proof {
            assert(self@.len() == n);
        }
        let mut outputs: Vec<i32> = vec![initial; n];
        proof {
            assert(outputs@ =~= outs0);
        }
        let mut fuel: u64 = CHAIN_FUEL;
        let mut running = self.any_running();
        while running && fuel > 0
            invariant
                self.0@.len() == n,
                self@.len() == n,
                outputs@.len() == n,
                n > 0,
                fuel <= CHAIN_FUEL,
                states0 == old(self)@,
                outs0 == const_tokens(states0.len(), initial),
                running == !all_exited(self@),
                spec_cycle_loop(states0, outs0, CHAIN_FUEL as nat) == spec_cycle_loop(
                    self@,
                    outputs@,
                    fuel as nat,
                ),
            decreases fuel,
        {
            let ghost pass0s = self@;
            let ghost pass0o = outputs@;
            let mut i: usize = 0;
            while i < n
                invariant
                    i <= n,
                    self.0@.len() == n,
                    self@.len() == n,
                    outputs@.len() == n,
                    n > 0,
                    fuel <= CHAIN_FUEL,
                    fuel > 0,
                    states0 == old(self)@,
                    outs0 == const_tokens(states0.len(), initial),
                    !all_exited(pass0s),
                    spec_cycle_loop(states0, outs0, CHAIN_FUEL as nat) == spec_cycle_loop(
                        pass0s,
                        pass0o,
                        fuel as nat,
                    ),
                    spec_cycle_from(pass0s, pass0o, 0) == spec_cycle_from(
                        self@,
                        outputs@,
                        i as nat,
                    ),
                decreases n - i,
            {
                let ghost pre = self@;
                let ghost preo = outputs@;
                let prev_i: usize = if i == 0 {
                    n - 1
                } else {
                    i - 1
                };
                proof {
                    assert(prev_i as int == prev_index(i as int, n as int));
                }
                let prev = outputs[prev_i];
                let p = &mut self.0[i];
                let r1 = p.resume();
                proof {
                    assert(self@ =~= pre.update(i as int, self.0@[i as int]@));
                }
                let st1 = match r1 {
                    Err(e) => {
                        return Err(e);
                    },
                    Ok(st) => st,
                };
                let awaiting = match st1 {
                    ProcessStatus::Awaiting(_) => true,
                    _ => false,
                };
                if awaiting {
                    let p = &mut self.0[i];
                    let r2 = p.feed(prev);
                    proof {
                        assert(self@ =~= pre.update(i as int, self.0@[i as int]@));
                    }
                    if let Err(e) = r2 {
                        return Err(e);
                    }
                }
                let p = &mut self.0[i];
                let r3 = p.resume();
                proof {
                    assert(self@ =~= pre.update(i as int, self.0@[i as int]@));
                }
                let st3 = match r3 {
                    Err(e) => {
                        return Err(e);
                    },
                    Ok(st) => st,
                };
                if let ProcessStatus::Outputting(x) = st3 {
                    outputs[i] = x;
                }
                proof {
                    let s1 = spec_resume(pre[i as int]).0;
                    let s_mid = if awaiting {
                        spec_feed(s1, preo[prev_index(i as int, n as int)]).0
                    } else {
                        s1
                    };
                    let s3 = spec_resume(s_mid).0;
                    assert(self@ == pre.update(i as int, s3));
                    assert(spec_cycle_from(pre, preo, i as nat) == spec_cycle_from(
                        self@,
                        outputs@,
                        (i + 1) as nat,
                    ));
                }
                i = i + 1;
            }
            fuel = fuel - 1;
            proof {
                assert(spec_cycle_loop(pass0s, pass0o, (fuel + 1) as nat) == spec_cycle_loop(
                    self@,
                    outputs@,
                    fuel as nat,
                ));
            }
            running = self.any_running();
        }
        let result = outputs[n - 1];
        proof {
            assert(outputs@.last() == outputs@[n - 1]);
        }
        Ok(result)
    }
}

/// Whether `p` lists exactly the elements of `base`, in some order.
pub open spec fn is_reordering(p: Seq<i32>, base: Seq<i32>) -> bool {
    p.to_multiset() == base.to_multiset()
}

/// The k-permutations of a word list, in the order itertools enumerates
/// them.
pub uninterp spec fn perms_of(s: Seq<i32>, k: nat) -> Seq<Seq<i32>>;

/// Relies on itertools' `permutations` adaptor: it yields every
/// `k`-permutation of the input, each a list of length `k`; for `k` equal to
/// the input length these are exactly the reorderings of the input, and
/// every reordering occurs.
#[verifier::external_body]
fn permutations_of(v: &Vec<i32>, k: usize) -> (r: Vec<Vec<i32>>)
    ensures
        r.deep_view() == perms_of(v@, k as nat),
        forall|i: int|
            0 <= i < r.deep_view().len() ==> (#[trigger] r.deep_view()[i]).len() == k,
        k == v@.len() ==> forall|i: int|
            0 <= i < r.deep_view().len() ==> is_reordering(#[trigger] r.deep_view()[i], v@),
        k == v@.len() ==> forall|p: Seq<i32>|
            is_reordering(p, v@) ==> #[trigger] r.deep_view().contains(p),
{
    v.iter().cloned().permutations(k).collect()
}

/// The value a single pass of five fresh amplifiers produces for one phase
/// setting: initialize with the phases, then push the token 0 through once.
pub open spec fn spec_signal(code: Seq<i32>, phases: Seq<i32>) -> Result<i32, IntcodeError> {
    let (st, r) = spec_init_from(fresh_chain(code, 5), phases, 0);
    match r {
        Err(e) => Err(e),
        Ok(_) => spec_pass_from(st, 0, 0).1,
    }
}

/// The value the feedback loop of five fresh amplifiers produces for one
/// phase setting: initialize with the phases, then loop from token 0.
pub open spec fn spec_feedback_signal(code: Seq<i32>, phases: Seq<i32>) -> Result<
    i32,
    IntcodeError,
> {
    let (st, r) = spec_init_from(fresh_chain(code, 5), phases, 0);
    match r {
        Err(e) => Err(e),
        Ok(_) => spec_cycle_loop(st, const_tokens(5, 0), CHAIN_FUEL as nat).2,
    }
}

/// The largest single-pass signal over all orderings of the phases 0 to 4.
pub fn part1(input: &Intcode) -> (r: i32)
    requires
        forall|p: Seq<i32>|
            is_reordering(p, seq![0i32, 1, 2, 3, 4]) ==> (#[trigger] spec_signal(input@, p)) is Ok,
    ensures
        exists|p: Seq<i32>|
            is_reordering(p, seq![0i32, 1, 2, 3, 4]) && #[trigger] spec_signal(input@, p) == Ok::<
                i32,
                IntcodeError,
            >(r),
        forall|p: Seq<i32>|
            is_reordering(p, seq![0i32, 1, 2, 3, 4]) ==> ((#[trigger] spec_signal(input@, p))
                matches Ok(v) && v <= r),
{
    let mut phases: Vec<i32> = Vec::new();
    phases.push(0);
    phases.push(1);
    phases.push(2);
    phases.push(3);
    phases.push(4);
    proof {
        assert(phases@ =~= seq![0i32, 1, 2, 3, 4]);
        assert forall|p: Seq<i32>| is_reordering(p, phases@) implies (#[trigger] setting_signal(
            input@,
            p,
            false,
        )) is Ok by {
            assert(spec_signal(input@, p) is Ok);
        }
    }
    let ghost base = phases@;
    let r = run_settings(input, phases, false);
    proof {
        assert forall|p: Seq<i32>| is_reordering(p, seq![0i32, 1, 2, 3, 4]) implies ((
        #[trigger] spec_signal(input@, p)) matches Ok(v) && v <= r) by {
            assert((setting_signal(input@, p, false)) matches Ok(v) && v <= r);
        }
        let wp = choose|p: Seq<i32>|
            is_reordering(p, base) && #[trigger] setting_signal(input@, p, false) == Ok::<
                i32,
                IntcodeError,
            >(r);
        assert(is_reordering(wp, seq![0i32, 1, 2, 3, 4]) && spec_signal(input@, wp) == Ok::<
            i32,
            IntcodeError,
        >(r));
    }
    r
}

/// The largest feedback-loop signal over all orderings of the phases 5 to 9.
pub fn part2(input: &Intcode) -> (r: i32)
    requires
        forall|p: Seq<i32>|
            is_reordering(p, seq![5i32, 6, 7, 8, 9]) ==> (#[trigger] spec_feedback_signal(
                input@,
                p,
            )) is Ok,
    ensures
        exists|p: Seq<i32>|
            is_reordering(p, seq![5i32, 6, 7, 8, 9]) && #[trigger] spec_feedback_signal(input@, p)
                == Ok::<i32, IntcodeError>(r),
        forall|p: Seq<i32>|
            is_reordering(p, seq![5i32, 6, 7, 8, 9]) ==> ((#[trigger] spec_feedback_signal(
                input@,
                p,
            )) matches Ok(v) && v <= r),
{
    let mut phases: Vec<i32> = Vec::new();
    phases.push(5);
    phases.push(6);
    phases.push(7);
    phases.push(8);
    phases.push(9);
    proof {
        assert(phases@ =~= seq![5i32, 6, 7, 8, 9]);
        assert forall|p: Seq<i32>| is_reordering(p, phases@) implies (#[trigger] setting_signal(
            input@,
            p,
            true,
        )) is Ok by {
            assert(spec_feedback_signal(input@, p) is Ok);
        }
    }
    let ghost base = phases@;
    let r = run_settings(input, phases, true);
    proof {
        assert forall|p: Seq<i32>| is_reordering(p, seq![5i32, 6, 7, 8, 9]) implies ((
        #[trigger] spec_feedback_signal(input@, p)) matches Ok(v) && v <= r) by {
            assert((setting_signal(input@, p, true)) matches Ok(v) && v <= r);
        }
        let wp = choose|p: Seq<i32>|
            is_reordering(p, base) && #[trigger] setting_signal(input@, p, true) == Ok::<
                i32,
                IntcodeError,
            >(r);
        assert(is_reordering(wp, seq![5i32, 6, 7, 8, 9]) && spec_feedback_signal(input@, wp)
            == Ok::<i32, IntcodeError>(r));
    }
    r
}

/// The signal one ordering produces: a single pass, or the feedback loop.
pub open spec fn setting_signal(code: Seq<i32>, p: Seq<i32>, feedback: bool) -> Result<
    i32,
    IntcodeError,
> {
    if feedback {
        spec_feedback_signal(code, p)
    } else {
        spec_signal(code, p)
    }
}

/// Try every ordering of the given phases on a chain of five fresh
/// amplifiers and return the largest signal.
#[verifier::rlimit(60)]
fn run_settings(input: &Intcode, phases: Vec<i32>, feedback: bool) -> (r: i32)
    requires
        phases@.len() == 5,
        forall|p: Seq<i32>|
            is_reordering(p, phases@) ==> (#[trigger] setting_signal(input@, p, feedback)) is Ok,
    ensures
        exists|p: Seq<i32>|
            is_reordering(p, phases@) && #[trigger] setting_signal(input@, p, feedback) == Ok::<
                i32,
                IntcodeError,
            >(r),
        forall|p: Seq<i32>|
            is_reordering(p, phases@) ==> ((#[trigger] setting_signal(input@, p, feedback))
                matches Ok(v) && v <= r),
{
    let perms = permutations_of(&phases, 5);
    proof {
        assert(is_reordering(phases@, phases@));
        assert(perms.deep_view().contains(phases@));
        assert(perms.deep_view().len() == perms@.len());
        assert(perms@.len() > 0);
    }
    let mut best: i32 = 0;
    let mut idx: usize = 0;
    while idx < perms.len()
        invariant
            idx <= perms@.len(),
            perms@.len() > 0,
            phases@.len() == 5,
            perms.deep_view() == perms_of(phases@, 5),
            forall|i: int|
                0 <= i < perms_of(phases@, 5).len() ==> (#[trigger] perms_of(phases@, 5)[i]).len()
                    == 5,
            forall|i: int|
                0 <= i < perms_of(phases@, 5).len() ==> is_reordering(
                    #[trigger] perms_of(phases@, 5)[i],
                    phases@,
                ),
            forall|p: Seq<i32>|
                is_reordering(p, phases@) ==> (#[trigger] setting_signal(input@, p, feedback))
                    is Ok,
            idx > 0 ==> exists|p: Seq<i32>|
                is_reordering(p, phases@) && #[trigger] setting_signal(input@, p, feedback) == Ok::<
                    i32,
                    IntcodeError,
                >(best),
            forall|j: int|
                0 <= j < idx ==> ((#[trigger] setting_signal(
                    input@,
                    perms.deep_view()[j],
                    feedback,
                )) matches Ok(v) && v <= best),
        decreases perms@.len() - idx,
    {
        let perm = &perms[idx];
        let ghost pseq = perms.deep_view()[idx as int];
        proof {
            assert(perm@ =~= pseq);
            assert(is_reordering(pseq, phases@));
            assert(setting_signal(input@, pseq, feedback) is Ok);
        }
        let mut chain = ProcessChain::replicate(input, 5);
        let ghost inited = spec_init_from(fresh_chain(input@, 5), pseq, 0);
        let ir = chain.init(perm);
        proof {
            lemma_init_from_len(fresh_chain(input@, 5), pseq, 0);
            assert(chain@ == inited.0);
            assert(chain@.len() == 5);
        }
        if ir.is_err() {
            proof {
                assert(false);
            }
            return vstd::pervasive::unreached();
        }
        let candidate: i32;
        if feedback {
            match chain.do_loop(0) {
                Ok(x) => {
                    candidate = x;
                    proof {
                        assert(setting_signal(input@, pseq, feedback) == Ok::<i32, IntcodeError>(
                            x,
                        ));
                    }
                },
                Err(_) => {
                    proof {
                        assert(false);
                    }
                    return vstd::pervasive::unreached();
                },
            }
        } else {
            match chain.feed(0) {
                Ok(x) => {
                    candidate = x;
                    proof {
                        assert(setting_signal(input@, pseq, feedback) == Ok::<i32, IntcodeError>(
                            x,
                        ));
                    }
                },
                Err(_) => {
                    proof {
                        assert(false);
                    }
                    return vstd::pervasive::unreached();
                },
            }
        }
        if idx == 0 || candidate > best {
            best = candidate;
        }
        idx = idx + 1;
    }
    proof {
        let base = phases@;
        assert forall|p: Seq<i32>| is_reordering(p, base) implies ((#[trigger] setting_signal(
            input@,
            p,
            feedback,
        )) matches Ok(v) && v <= best) by {
            assert(perms_of(base, 5).contains(p));
            let j = choose|j: int| 0 <= j < perms.deep_view().len() && perms.deep_view()[j] == p;
            assert((setting_signal(input@, perms.deep_view()[j], feedback)) matches Ok(v) && v
                <= best);
        }
    }
    best
}

} // verus!
