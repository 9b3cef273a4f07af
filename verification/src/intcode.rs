//! The interpreter core: instruction decoding, the small-step semantics the
//! contracts are stated over, and the resumable `Process` built on them.

pub mod program;

pub use program::Intcode;

use vstd::prelude::*;

verus! {

/// Step budget that one `resume` call may spend before reporting `Paused`.
/// Large enough that no terminating program of practical size ever hits it.
pub const RESUME_FUEL: u64 = 0x1000_0000_0000_0000;

/// How an operand of an instruction is to be interpreted: as an address into
/// program memory, or as the literal value itself.
#[derive(Debug, PartialEq, Eq, Structural, Clone, Copy)]
pub enum Parameter<A> {
    Pos(A),
    Imm(A),
}

/// A decoded instruction, carrying one `Parameter` per operand.
#[derive(Debug, PartialEq, Eq, Structural, Clone, Copy)]
pub enum Opcode<A> {
    Add(A, A, A),
    Mul(A, A, A),
    Inp(A),
    Out(A),
    Jnz(A, A),
    Jz(A, A),
    Lt(A, A, A),
    Equ(A, A, A),
    Hlt,
}

/// Everything that can go wrong while loading or running a program.
#[derive(Debug, PartialEq, Eq, Structural, Clone, Copy)]
pub enum IntcodeError {
    /// Malformed program text: a non-integer token, or empty input.
    ParseError,
    /// Unknown opcode or unknown addressing-mode digit; carries the value.
    DecodeError(i32),
    /// A resolved address is negative or outside program memory.
    AddressError,
    /// An instruction tried to write through an immediate parameter.
    InvalidWriteTarget,
    /// A caller drove the state machine illegally, e.g. `feed` while not
    /// awaiting input.
    ContractViolation,
}

/// The externally observable state of a `Process`.
#[derive(Debug, PartialEq, Eq, Structural, Clone, Copy)]
pub enum ProcessStatus {
    /// Ready to keep executing.
    Paused,
    /// Produced a value; the caller should consume it before resuming.
    Outputting(i32),
    /// Blocked: needs one input value, to be written to the carried address.
    Awaiting(Parameter<usize>),
    /// Halted; terminal.
    Exit,
}

impl ProcessStatus {
    /// The produced value, if the process is currently outputting one.
    pub fn out(&self) -> (r: Option<i32>)
        ensures
            r == (match *self {
                ProcessStatus::Outputting(x) => Some(x),
                _ => None::<i32>,
            }),
    {
        match *self {
            ProcessStatus::Outputting(x) => Some(x),
            _ => None,
        }
    }
}

/// The mathematical state of one machine: its memory, program counter and
/// suspension status.
pub ghost struct VmState {
    pub mem: Seq<i32>,
    pub pc: nat,
    pub status: ProcessStatus,
}

/// What executing a single instruction does.
pub ghost enum StepOut {
    /// Execution continues at `pc` with memory `mem`.
    Run { mem: Seq<i32>, pc: nat },
    /// Suspend with an output value; memory unchanged, counter advanced.
    Output { pc: nat, value: i32 },
    /// Suspend awaiting input for cell `dest`; memory unchanged.
    Await { pc: nat, dest: usize },
    /// A halt instruction; state unchanged.
    Halted,
    /// A decode or execution error; state unchanged.
    Failed { err: IntcodeError },
}

/// Where one run of the machine ended.
pub ghost struct RunEnd {
    pub mem: Seq<i32>,
    pub pc: nat,
    pub status: ProcessStatus,
    pub err: Option<IntcodeError>,
}

/// The addressing-mode digit for operand `i`: digit `i` (ones place first) of
/// the instruction word divided by 100.
pub open spec fn mode_digit(w: int, i: nat) -> int {
    if i == 0 {
        (w / 100) % 10
    } else if i == 1 {
        (w / 1000) % 10
    } else {
        (w / 10000) % 10
    }
}

/// Decode the parameter for operand `i` of the instruction at `pc`: the raw
/// operand is the cell at `pc + 1 + i`, its interpretation the mode digit.
pub open spec fn spec_param(mem: Seq<i32>, pc: nat, i: nat) -> Result<Parameter<i32>, IntcodeError> {
    if pc + 1 + i >= mem.len() {
        Err(IntcodeError::AddressError)
    } else {
        let d = mode_digit(mem[pc as int] as int, i);
        let v = mem[(pc + 1 + i) as int];
        if d == 0 {
            Ok(Parameter::Pos(v))
        } else if d == 1 {
            Ok(Parameter::Imm(v))
        } else {
            Err(IntcodeError::DecodeError(d as i32))
        }
    }
}

/// Decode the instruction at `pc`: opcode is the instruction word mod 100,
/// then exactly as many parameters as that opcode takes.
pub open spec fn spec_decode(mem: Seq<i32>, pc: nat) -> Result<Opcode<Parameter<i32>>, IntcodeError> {
    if pc >= mem.len() {
        Err(IntcodeError::AddressError)
    } else if mem[pc as int] < 0 {
        Err(IntcodeError::DecodeError(mem[pc as int]))
    } else {
        let w = mem[pc as int] as int;
        let op = w % 100;
        if op == 1 || op == 2 || op == 7 || op == 8 {
            match spec_param(mem, pc, 0) {
                Err(e) => Err(e),
                Ok(a) => match spec_param(mem, pc, 1) {
                    Err(e) => Err(e),
                    Ok(b) => match spec_param(mem, pc, 2) {
                        Err(e) => Err(e),
                        Ok(c) => Ok(
                            if op == 1 {
                                Opcode::Add(a, b, c)
                            } else if op == 2 {
                                Opcode::Mul(a, b, c)
                            } else if op == 7 {
                                Opcode::Lt(a, b, c)
                            } else {
                                Opcode::Equ(a, b, c)
                            },
                        ),
                    },
                },
            }
        } else if op == 5 || op == 6 {
            match spec_param(mem, pc, 0) {
                Err(e) => Err(e),
                Ok(a) => match spec_param(mem, pc, 1) {
                    Err(e) => Err(e),
                    Ok(b) => Ok(if op == 5 { Opcode::Jnz(a, b) } else { Opcode::Jz(a, b) }),
                },
            }
        } else if op == 3 || op == 4 {
            match spec_param(mem, pc, 0) {
                Err(e) => Err(e),
                Ok(a) => Ok(if op == 3 { Opcode::Inp(a) } else { Opcode::Out(a) }),
            }
        } else if op == 99 {
            Ok(Opcode::Hlt)
        } else {
            Err(IntcodeError::DecodeError(op as i32))
        }
    }
}

/// Resolve a parameter to the value it stands for.
pub open spec fn spec_get(mem: Seq<i32>, p: Parameter<i32>) -> Result<i32, IntcodeError> {
    match p {
        Parameter::Imm(v) => Ok(v),
        Parameter::Pos(a) => if 0 <= a && a < mem.len() {
            Ok(mem[a as int])
        } else {
            Err(IntcodeError::AddressError)
        },
    }
}

/// Resolve a parameter to a writable address.
pub open spec fn spec_dest(mem: Seq<i32>, p: Parameter<i32>) -> Result<usize, IntcodeError> {
    match p {
        Parameter::Imm(_) => Err(IntcodeError::InvalidWriteTarget),
        Parameter::Pos(a) => if 0 <= a && a < mem.len() {
            Ok(a as usize)
        } else {
            Err(IntcodeError::AddressError)
        },
    }
}

/// Evaluate a three-operand instruction: read both sources, resolve the
/// destination, store `f` of the values, and advance the counter by 4.
pub open spec fn spec_binop(
    mem: Seq<i32>,
    pc: nat,
    a: Parameter<i32>,
    b: Parameter<i32>,
    c: Parameter<i32>,
    f: spec_fn(i32, i32) -> i32,
) -> StepOut {
    match spec_get(mem, a) {
        Err(e) => StepOut::Failed { err: e },
        Ok(x) => match spec_get(mem, b) {
            Err(e) => StepOut::Failed { err: e },
            Ok(y) => match spec_dest(mem, c) {
                Err(e) => StepOut::Failed { err: e },
                Ok(d) => StepOut::Run { mem: mem.update(d as int, f(x, y)), pc: pc + 4 },
            },
        },
    }
}

/// Evaluate a jump: if `cond` holds of the first operand's value, the counter
/// becomes the second operand's value; otherwise it advances by 3.
pub open spec fn spec_jump(
    mem: Seq<i32>,
    pc: nat,
    a: Parameter<i32>,
    b: Parameter<i32>,
    jump_if_nonzero: bool,
) -> StepOut {
    match spec_get(mem, a) {
        Err(e) => StepOut::Failed { err: e },
        Ok(x) => if (x != 0) == jump_if_nonzero {
            match spec_get(mem, b) {
                Err(e) => StepOut::Failed { err: e },
                Ok(t) => if t < 0 {
                    StepOut::Failed { err: IntcodeError::AddressError }
                } else {
                    StepOut::Run { mem, pc: t as nat }
                },
            }
        } else {
            StepOut::Run { mem, pc: pc + 3 }
        },
    }
}

/// Execute the single instruction at `pc`.
#[verifier::opaque]
pub open spec fn spec_step(mem: Seq<i32>, pc: nat) -> StepOut {
    match spec_decode(mem, pc) {
        Err(e) => StepOut::Failed { err: e },
        Ok(op) => match op {
            Opcode::Add(a, b, c) => spec_binop(
                mem,
                pc,
                a,
                b,
                c,
                |x: i32, y: i32| vstd::wrapping::i32_specs::wrapping_add(x, y),
            ),
            Opcode::Mul(a, b, c) => spec_binop(
                mem,
                pc,
                a,
                b,
                c,
                |x: i32, y: i32| vstd::wrapping::i32_specs::wrapping_mul(x, y),
            ),
            Opcode::Lt(a, b, c) => spec_binop(
                mem,
                pc,
                a,
                b,
                c,
                |x: i32, y: i32| if x < y { 1i32 } else { 0i32 },
            ),
            Opcode::Equ(a, b, c) => spec_binop(
                mem,
                pc,
                a,
                b,
                c,
                |x: i32, y: i32| if x == y { 1i32 } else { 0i32 },
            ),
            Opcode::Jnz(a, b) => spec_jump(mem, pc, a, b, true),
            Opcode::Jz(a, b) => spec_jump(mem, pc, a, b, false),
            Opcode::Out(a) => match spec_get(mem, a) {
                Err(e) => StepOut::Failed { err: e },
                Ok(v) => StepOut::Output { pc: pc + 2, value: v },
            },
            Opcode::Inp(a) => match spec_dest(mem, a) {
                Err(e) => StepOut::Failed { err: e },
                Ok(d) => StepOut::Await { pc: pc + 2, dest: d },
            },
            Opcode::Hlt => StepOut::Halted,
        },
    }
}

/// Run from `pc` until the machine suspends, halts, fails, or `fuel` single
/// steps have been spent; spent fuel with no suspension ends as `Paused`.
pub open spec fn spec_run(mem: Seq<i32>, pc: nat, fuel: nat) -> RunEnd
    decreases fuel,
{
    if fuel == 0 {
        RunEnd { mem, pc, status: ProcessStatus::Paused, err: None }
    } else {
        match spec_step(mem, pc) {
            StepOut::Run { mem: m2, pc: p2 } => spec_run(m2, p2, (fuel - 1) as nat),
            StepOut::Output { pc: p2, value } => RunEnd {
                mem,
                pc: p2,
                status: ProcessStatus::Outputting(value),
                err: None,
            },
            StepOut::Await { pc: p2, dest } => RunEnd {
                mem,
                pc: p2,
                status: ProcessStatus::Awaiting(Parameter::Pos(dest)),
                err: None,
            },
            StepOut::Halted => RunEnd { mem, pc, status: ProcessStatus::Exit, err: None },
            StepOut::Failed { err } => RunEnd { mem, pc, status: ProcessStatus::Exit, err: Some(err) },
        }
    }
}

/// The full effect of one `resume` call on a machine state: run from the
/// current counter when ready, a no-op when awaiting input or exited.
pub open spec fn spec_resume(s: VmState) -> (VmState, Result<ProcessStatus, IntcodeError>) {
    match s.status {
        ProcessStatus::Paused | ProcessStatus::Outputting(_) => {
            let end = spec_run(s.mem, s.pc, RESUME_FUEL as nat);
            (
                VmState { mem: end.mem, pc: end.pc, status: end.status },
                match end.err {
                    Some(e) => Err(e),
                    None => Ok(end.status),
                },
            )
        },
        _ => (s, Ok(s.status)),
    }
}

/// The full effect of one `feed` call: write the value to the awaited cell
/// and return to `Paused`, or reject the call and leave the state alone.
pub open spec fn spec_feed(s: VmState, input: i32) -> (VmState, Result<ProcessStatus, IntcodeError>) {
    match s.status {
        ProcessStatus::Awaiting(Parameter::Pos(d)) => (
            VmState {
                mem: s.mem.update(d as int, input),
                pc: s.pc,
                status: ProcessStatus::Paused,
            },
            Ok(ProcessStatus::Paused),
        ),
        _ => (s, Err(IntcodeError::ContractViolation)),
    }
}

/// Bound on the resume/feed rounds one `run_with` call makes.
pub const DRIVE_FUEL: u64 = 0x1000_0000;

/// The result of driving a machine to completion while answering every input
/// request with `input`: the last output seen before a clean exit, `None` on
/// an error, a stall, or when no output was ever produced.
pub open spec fn spec_drive(s: VmState, input: i32, last: Option<i32>, rounds: nat) -> Option<i32>
    decreases rounds,
{
    if rounds == 0 {
        None
    } else {
        match s.status {
            ProcessStatus::Exit => last,
            ProcessStatus::Awaiting(_) => {
                let (s2, r2) = spec_feed(s, input);
                match r2 {
                    Err(_) => None,
                    Ok(_) => spec_drive(s2, input, last, (rounds - 1) as nat),
                }
            },
            _ => {
                let (s1, r1) = spec_resume(s);
                match r1 {
                    Err(_) => None,
                    Ok(st) => match st {
                        ProcessStatus::Outputting(v) => spec_drive(
                            s1,
                            input,
                            Some(v),
                            (rounds - 1) as nat,
                        ),
                        ProcessStatus::Awaiting(_) => spec_drive(
                            s1,
                            input,
                            last,
                            (rounds - 1) as nat,
                        ),
                        ProcessStatus::Exit => last,
                        ProcessStatus::Paused => None,
                    },
                }
            },
        }
    }
}

/// Running never changes how much memory the machine has: writes stay in
/// place and nothing grows or shrinks.
pub proof fn lemma_run_mem_len(mem: Seq<i32>, pc: nat, fuel: nat)
    ensures
        spec_run(mem, pc, fuel).mem.len() == mem.len(),
    decreases fuel,
{
    reveal(spec_step);
    if fuel > 0 {
        match spec_step(mem, pc) {
            StepOut::Run { mem: m2, pc: p2 } => {
                lemma_run_mem_len(m2, p2, (fuel - 1) as nat);
            },
            _ => {},
        }
    }
}

/// When a run suspends awaiting input, the awaited destination is always a
/// valid cell of the machine's memory.
pub proof fn lemma_run_awaiting(mem: Seq<i32>, pc: nat, fuel: nat)
    ensures
        spec_run(mem, pc, fuel).status matches ProcessStatus::Awaiting(p) ==> (p matches
            Parameter::Pos(d) && (d as int) < spec_run(mem, pc, fuel).mem.len()),
    decreases fuel,
{
    reveal(spec_step);
    if fuel > 0 {
        match spec_step(mem, pc) {
            StepOut::Run { mem: m2, pc: p2 } => {
                lemma_run_awaiting(m2, p2, (fuel - 1) as nat);
            },
            _ => {},
        }
    }
}

/// When `resume` leaves a ready machine awaiting input, the awaited
/// destination is a valid cell.
pub proof fn lemma_resume_awaiting(s: VmState)
    requires
        s.status is Paused || s.status is Outputting,
    ensures
        spec_resume(s).0.status matches ProcessStatus::Awaiting(p) ==> (p matches Parameter::Pos(d)
            && (d as int) < spec_resume(s).0.mem.len()),
{
    lemma_run_awaiting(s.mem, s.pc, RESUME_FUEL as nat);
}

/// One `resume` call never changes how much memory the machine has.
pub proof fn lemma_resume_mem_len(s: VmState)
    ensures
        spec_resume(s).0.mem.len() == s.mem.len(),
{
    match s.status {
        ProcessStatus::Paused | ProcessStatus::Outputting(_) => {
            lemma_run_mem_len(s.mem, s.pc, RESUME_FUEL as nat);
        },
        _ => {},
    }
}

/// What one `resume` call may announce when it stops executing.
#[derive(Debug, PartialEq, Eq, Structural, Clone, Copy)]
pub enum Evaluation {
    Input(Parameter<usize>),
    Output(i32),
    Halt,
    EvaluationError(IntcodeError),
}

/// The status a process enters when a run ends with this evaluation.
pub open spec fn eval_status(ev: Evaluation) -> ProcessStatus {
    match ev {
        Evaluation::Input(p) => ProcessStatus::Awaiting(p),
        Evaluation::Output(v) => ProcessStatus::Outputting(v),
        Evaluation::Halt => ProcessStatus::Exit,
        Evaluation::EvaluationError(_) => ProcessStatus::Exit,
    }
}

/// The error a run ended with, if any.
pub open spec fn eval_err(ev: Evaluation) -> Option<IntcodeError> {
    match ev {
        Evaluation::EvaluationError(e) => Some(e),
        _ => None,
    }
}

/// Whether the instruction stepped through was an internal one (execution
/// goes on) or a suspension point.
enum Flow {
    More,
    Stop(Evaluation),
}

/// One independent, resumable instance of the interpreter: it owns its memory
/// and program counter and suspends at input, output and halt instructions.
#[derive(Debug)]
pub struct Process {
    pc: usize,
    intcode: Vec<i32>,
    status: ProcessStatus,
}

impl View for Process {
    type V = VmState;

    closed spec fn view(&self) -> VmState {
        VmState { mem: self.intcode@, pc: self.pc as nat, status: self.status }
    }
}

impl Process {
    /// While suspended for input, the awaited destination is a valid cell, so
    /// feeding a value cannot fail.
    #[verifier::type_invariant]
    closed spec fn wf(self) -> bool {
        self.status matches ProcessStatus::Awaiting(p) ==> (p matches Parameter::Pos(d)
            && (d as int) < self.intcode@.len())
    }

    /// A fresh process over the given program, ready to run from cell 0.
    pub fn new(code: Intcode) -> (r: Process)
        ensures
            r@ == (VmState { mem: code@, pc: 0, status: ProcessStatus::Paused }),
    {
        Process { pc: 0, intcode: code.into_words(), status: ProcessStatus::Paused }
    }

    /// Decode the parameter for operand `i` of the current instruction.
    fn param(&self, i: usize) -> (r: Result<Parameter<i32>, IntcodeError>)
        requires
            i <= 2,
            self@.pc < self@.mem.len(),
            self@.mem[self@.pc as int] >= 0,
        ensures
            r == spec_param(self@.mem, self@.pc, i as nat),
    {
        let pc = self.pc;
        let len = self.intcode.len();
        if i + 1 >= len - pc {
            Err(IntcodeError::AddressError)
        } else {
            let w = self.intcode[pc] as u32;
            let d: u32 = if i == 0 {
                (w / 100) % 10
            } else if i == 1 {
                (w / 1000) % 10
            } else {
                (w / 10000) % 10
            };
            let v = self.intcode[pc + 1 + i];
            if d == 0 {
                Ok(Parameter::Pos(v))
            } else if d == 1 {
                Ok(Parameter::Imm(v))
            } else {
                Err(IntcodeError::DecodeError(d as i32))
            }
        }
    }

    /// Resolve a parameter to the value it stands for.
    fn get(&self, p: Parameter<i32>) -> (r: Result<i32, IntcodeError>)
        ensures
            r == spec_get(self@.mem, p),
    {
        match p {
            Parameter::Imm(v) => Ok(v),
            Parameter::Pos(a) => {
                if a < 0 {
                    Err(IntcodeError::AddressError)
                } else {
                    let idx = a as usize;
                    if idx < self.intcode.len() {
                        Ok(self.intcode[idx])
                    } else {
                        Err(IntcodeError::AddressError)
                    }
                }
            },
        }
    }

    /// Resolve a parameter to a writable address.
    fn dest(&self, p: Parameter<i32>) -> (r: Result<usize, IntcodeError>)
        ensures
            r == spec_dest(self@.mem, p),
    {
        match p {
            Parameter::Imm(_) => Err(IntcodeError::InvalidWriteTarget),
            Parameter::Pos(a) => {
                if a < 0 {
                    Err(IntcodeError::AddressError)
                } else {
                    let idx = a as usize;
                    if idx < self.intcode.len() {
                        Ok(idx)
                    } else {
                        Err(IntcodeError::AddressError)
                    }
                }
            },
        }
    }

    /// Execute the single instruction at the current program counter.
    fn step_instr(&mut self) -> (flow: Flow)
        ensures
            final(self)@.status == old(self)@.status,
            final(self)@.mem.len() == old(self)@.mem.len(),
            (match spec_step(old(self)@.mem, old(self)@.pc) {
                StepOut::Run { mem, pc } => {
                    &&& flow is More
                    &&& final(self)@.mem == mem
                    &&& final(self)@.pc == pc
                },
                StepOut::Output { pc, value } => {
                    &&& flow == Flow::Stop(Evaluation::Output(value))
                    &&& final(self)@.mem == old(self)@.mem
                    &&& final(self)@.pc == pc
                },
                StepOut::Await { pc, dest } => {
                    &&& flow == Flow::Stop(Evaluation::Input(Parameter::Pos(dest)))
                    &&& final(self)@.mem == old(self)@.mem
                    &&& final(self)@.pc == pc
                    &&& (dest as int) < old(self)@.mem.len()
                },
                StepOut::Halted => {
                    &&& flow == Flow::Stop(Evaluation::Halt)
                    &&& final(self)@.mem == old(self)@.mem
                    &&& final(self)@.pc == old(self)@.pc
                },
                StepOut::Failed { err } => {
                    &&& flow == Flow::Stop(Evaluation::EvaluationError(err))
                    &&& final(self)@.mem == old(self)@.mem
                    &&& final(self)@.pc == old(self)@.pc
                },
            }),
    {
        proof {
            use_type_invariant(&*self);
            reveal(spec_step);
        }
        let pc = self.pc;
        if pc >= self.intcode.len() {
            return Flow::Stop(Evaluation::EvaluationError(IntcodeError::AddressError));
        }
        let w = self.intcode[pc];
        if w < 0 {
            return Flow::Stop(Evaluation::EvaluationError(IntcodeError::DecodeError(w)));
        }
        let op = (w as u32) % 100;
        if op == 1 || op == 2 || op == 7 || op == 8 {
            let a = match self.param(0) {
                Ok(p) => p,
                Err(e) => return Flow::Stop(Evaluation::EvaluationError(e)),
            };
            let b = match self.param(1) {
                Ok(p) => p,
                Err(e) => return Flow::Stop(Evaluation::EvaluationError(e)),
            };
            let c = match self.param(2) {
                Ok(p) => p,
                Err(e) => return Flow::Stop(Evaluation::EvaluationError(e)),
            };
            let x = match self.get(a) {
                Ok(v) => v,
                Err(e) => return Flow::Stop(Evaluation::EvaluationError(e)),
            };
            let y = match self.get(b) {
                Ok(v) => v,
                Err(e) => return Flow::Stop(Evaluation::EvaluationError(e)),
            };
            let d = match self.dest(c) {
                Ok(v) => v,
                Err(e) => return Flow::Stop(Evaluation::EvaluationError(e)),
            };
            let value: i32 = if op == 1 {
                x.wrapping_add(y)
            } else if op == 2 {
                x.wrapping_mul(y)
            } else if op == 7 {
                if x < y {
                    1
                } else {
                    0
                }
            } else {
                if x == y {
                    1
                } else {
                    0
                }
            };
            self.intcode[d] = value;
            self.pc = pc + 4;
            Flow::More
        } else if op == 5 || op == 6 {
            let a = match self.param(0) {
                Ok(p) => p,
                Err(e) => return Flow::Stop(Evaluation::EvaluationError(e)),
            };
            let b = match self.param(1) {
                Ok(p) => p,
                Err(e) => return Flow::Stop(Evaluation::EvaluationError(e)),
            };
            let x = match self.get(a) {
                Ok(v) => v,
                Err(e) => return Flow::Stop(Evaluation::EvaluationError(e)),
            };
            if (x != 0) == (op == 5) {
                let t = match self.get(b) {
                    Ok(v) => v,
                    Err(e) => return Flow::Stop(Evaluation::EvaluationError(e)),
                };
                if t < 0 {
                    return Flow::Stop(Evaluation::EvaluationError(IntcodeError::AddressError));
                }
                self.pc = t as usize;
            } else {
                self.pc = pc + 3;
            }
            Flow::More
        } else if op == 3 {
            let a = match self.param(0) {
                Ok(p) => p,
                Err(e) => return Flow::Stop(Evaluation::EvaluationError(e)),
            };
            let d = match self.dest(a) {
                Ok(v) => v,
                Err(e) => return Flow::Stop(Evaluation::EvaluationError(e)),
            };
            self.pc = pc + 2;
            Flow::Stop(Evaluation::Input(Parameter::Pos(d)))
        } else if op == 4 {
            let a = match self.param(0) {
                Ok(p) => p,
                Err(e) => return Flow::Stop(Evaluation::EvaluationError(e)),
            };
            let v = match self.get(a) {
                Ok(v) => v,
                Err(e) => return Flow::Stop(Evaluation::EvaluationError(e)),
            };
            self.pc = pc + 2;
            Flow::Stop(Evaluation::Output(v))
        } else if op == 99 {
            Flow::Stop(Evaluation::Halt)
        } else {
            Flow::Stop(Evaluation::EvaluationError(IntcodeError::DecodeError(op as i32)))
        }
    }

    /// Execute instructions until the process needs input, has produced
    /// output, halts, or fails.  A no-op while awaiting input or exited.  On
    /// an execution error the process exits and the error is surfaced.
    pub fn resume(&mut self) -> (r: Result<ProcessStatus, IntcodeError>)
        ensures
            final(self)@ == spec_resume(old(self)@).0,
            r == spec_resume(old(self)@).1,
    {
        match self.status {
            ProcessStatus::Paused | ProcessStatus::Outputting(_) => {},
            _ => {
                return Ok(self.status);
            },
        }
        let ghost m0 = self@.mem;
        let ghost p0 = self@.pc;
        let ghost st0 = self@.status;
        let mut fuel: u64 = RESUME_FUEL;
        let mut outcome: Option<Evaluation> = None;
        while outcome.is_none() && fuel > 0
            invariant
                self@.status == st0,
                st0 is Paused || st0 is Outputting,
                fuel <= RESUME_FUEL,
                outcome is None ==> spec_run(m0, p0, RESUME_FUEL as nat) == spec_run(
                    self@.mem,
                    self@.pc,
                    fuel as nat,
                ),
                (match outcome {
                    Some(ev) => ({
                        let end = spec_run(m0, p0, RESUME_FUEL as nat);
                        &&& self@.mem == end.mem
                        &&& self@.pc == end.pc
                        &&& end.status == eval_status(ev)
                        &&& end.err == eval_err(ev)
                        &&& (ev matches Evaluation::Input(p) ==> (p matches Parameter::Pos(d) && (
                        d as int) < self@.mem.len()))
                    }),
                    None => true,
                }),
            decreases fuel, (if outcome is None { 1int } else { 0int }),
        {
            let ghost mem_b = self@.mem;
            let ghost pc_b = self@.pc;
            let ghost fuel_b = fuel;
            match self.step_instr() {
                Flow::More => {
                    fuel = fuel - 1;
                    proof {
                        assert(spec_run(mem_b, pc_b, fuel_b as nat) == spec_run(
                            self@.mem,
                            self@.pc,
                            fuel as nat,
                        ));
                    }
                },
                Flow::Stop(ev) => {
                    outcome = Some(ev);
                },
            }
        }
        match outcome {
            None => {
                proof {
                    assert(spec_run(self@.mem, self@.pc, 0nat) == RunEnd {
                        mem: self@.mem,
                        pc: self@.pc,
                        status: ProcessStatus::Paused,
                        err: None,
                    });
                }
                self.status = ProcessStatus::Paused;
                Ok(ProcessStatus::Paused)
            },
            Some(Evaluation::Input(p)) => {
                self.status = ProcessStatus::Awaiting(p);
                Ok(self.status)
            },
            Some(Evaluation::Output(v)) => {
                self.status = ProcessStatus::Outputting(v);
                Ok(self.status)
            },
            Some(Evaluation::Halt) => {
                self.status = ProcessStatus::Exit;
                Ok(ProcessStatus::Exit)
            },
            Some(Evaluation::EvaluationError(e)) => {
                self.status = ProcessStatus::Exit;
                Err(e)
            },
        }
    }

    /// Supply the one input value the process is waiting for; it is written
    /// to the awaited cell and the process is ready to run again.  Calling
    /// this in any other state is rejected as a contract violation.
    pub fn feed(&mut self, input: i32) -> (r: Result<ProcessStatus, IntcodeError>)
        ensures
            final(self)@ == spec_feed(old(self)@, input).0,
            r == spec_feed(old(self)@, input).1,
    {
        proof {
            use_type_invariant(&*self);
        }
        match self.status {
            ProcessStatus::Awaiting(p) => match p {
                Parameter::Pos(d) => {
                    self.intcode[d] = input;
                    self.status = ProcessStatus::Paused;
                    Ok(ProcessStatus::Paused)
                },
                Parameter::Imm(_) => {
                    proof {
                        assert(false);
                    }
                    vstd::pervasive::unreached()
                },
            },
            _ => Err(IntcodeError::ContractViolation),
        }
    }

    /// Read memory cell 0, which callers often treat as a result register.
    pub fn head(&self) -> (r: i32)
        requires
            self@.mem.len() > 0,
        ensures
            r == self@.mem[0],
    {
        self.intcode[0]
    }

    /// The current suspension status; no side effect.
    pub fn status(&self) -> (r: ProcessStatus)
        ensures
            r == self@.status,
    {
        self.status
    }

    /// Drive the process to completion, answering every input request with
    /// `input`.  Returns the last output produced before a clean exit, and
    /// `None` on an execution error or when no output was ever produced.
    pub fn run_with(&mut self, input: i32) -> (r: Option<i32>)
        ensures
            r == spec_drive(old(self)@, input, None, DRIVE_FUEL as nat),
    {
        let ghost s0 = self@;
        let mut last: Option<i32> = None;
        let mut rounds: u64 = DRIVE_FUEL;
        loop
            invariant
                s0 == old(self)@,
                rounds <= DRIVE_FUEL,
                spec_drive(s0, input, None, DRIVE_FUEL as nat) == spec_drive(
                    self@,
                    input,
                    last,
                    rounds as nat,
                ),
            decreases rounds,
        {
            if rounds == 0 {
                return None;
            }
            let ghost pre = self@;
            let ghost last_b = last;
            let ghost rounds_b = rounds;
            match self.status() {
                ProcessStatus::Exit => {
                    return last;
                },
                ProcessStatus::Awaiting(_) => {
                    let fr = self.feed(input);
                    if fr.is_err() {
                        return None;
                    }
                    rounds = rounds - 1;
                    proof {
                        assert(spec_drive(pre, input, last_b, rounds_b as nat) == spec_drive(
                            self@,
                            input,
                            last,
                            rounds as nat,
                        ));
                    }
                },
                _ => {
                    match self.resume() {
                        Err(_) => {
                            return None;
                        },
                        Ok(st) => {
                            match st {
                                ProcessStatus::Outputting(v) => {
                                    last = Some(v);
                                    rounds = rounds - 1;
                                },
                                ProcessStatus::Awaiting(_) => {
                                    rounds = rounds - 1;
                                },
                                ProcessStatus::Exit => {
                                    return last;
                                },
                                ProcessStatus::Paused => {
                                    return None;
                                },
                            }
                            proof {
                                assert(spec_drive(pre, input, last_b, rounds_b as nat)
                                    == spec_drive(self@, input, last, rounds as nat));
                            }
                        },
                    }
                },
            }
        }
    }
}

/// Law: `resume` on a process that has exited, or that is waiting for
/// input, is a no-op: it neither advances execution nor touches memory, and
/// it reports the unchanged status.
pub proof fn lemma_resume_noop(s: VmState)
    requires
        s.status is Exit || s.status is Awaiting,
    ensures
        spec_resume(s).0 == s,
        spec_resume(s).1 == Ok::<ProcessStatus, IntcodeError>(s.status),
{
}

/// Law: `resume` on a process that is announcing an output continues right
/// after the output instruction: the produced value plays no further part,
/// and the instruction that produced it is not executed again.
pub proof fn lemma_resume_outputting_continues(mem: Seq<i32>, pc: nat, value: i32)
    ensures
        spec_resume(VmState { mem, pc, status: ProcessStatus::Outputting(value) }) == spec_resume(
            VmState { mem, pc, status: ProcessStatus::Paused },
        ),
{
}

/// Law: `feed` on a process that is not awaiting input is rejected as a
/// contract violation and changes nothing.
pub proof fn lemma_feed_rejected(s: VmState, input: i32)
    requires
        !(s.status is Awaiting),
    ensures
        spec_feed(s, input).0 == s,
        spec_feed(s, input).1 == Err::<ProcessStatus, IntcodeError>(
            IntcodeError::ContractViolation,
        ),
{
}

/// Law: a write one instruction makes is visible to everything that
/// follows, the fetch of later instructions included: after an internal
/// step, the run goes on in the updated memory and at the new counter, and
/// in nothing else.
pub proof fn lemma_write_then_execute(mem: Seq<i32>, pc: nat, fuel: nat)
    requires
        fuel > 0,
    ensures
        spec_step(mem, pc) matches StepOut::Run { mem: m2, pc: p2 } ==> spec_run(mem, pc, fuel)
            == spec_run(m2, p2, (fuel - 1) as nat),
{
}

/// Whether the instruction at `pc` is a well-formed position-mode add or
/// multiply: opcode word exactly 1 or 2, with all three operand cells
/// present and naming valid addresses.
pub open spec fn arith_instr_ok(mem: Seq<i32>, pc: nat) -> bool {
    &&& pc + 4 <= mem.len()
    &&& (mem[pc as int] == 1 || mem[pc as int] == 2)
    &&& 0 <= mem[(pc + 1) as int] < mem.len()
    &&& 0 <= mem[(pc + 2) as int] < mem.len()
    &&& 0 <= mem[(pc + 3) as int] < mem.len()
}

/// The memory after the position-mode add or multiply at `pc`: the
/// operation of the two operands, resolved in the current memory, stored at
/// the destination.
pub open spec fn arith_next(mem: Seq<i32>, pc: nat) -> Seq<i32> {
    let x = mem[mem[(pc + 1) as int] as int];
    let y = mem[mem[(pc + 2) as int] as int];
    mem.update(
        mem[(pc + 3) as int] as int,
        if mem[pc as int] == 1 {
            vstd::wrapping::i32_specs::wrapping_add(x, y)
        } else {
            vstd::wrapping::i32_specs::wrapping_mul(x, y)
        },
    )
}

/// Whether `k` consecutive arithmetic instructions starting at `pc` are each
/// well formed at their turn, in the memory as the ones before them left it.
pub open spec fn arith_block_ok(mem: Seq<i32>, pc: nat, k: nat) -> bool
    decreases k,
{
    if k == 0 {
        true
    } else {
        arith_instr_ok(mem, pc) && arith_block_ok(arith_next(mem, pc), pc + 4, (k - 1) as nat)
    }
}

/// The memory after `k` consecutive arithmetic instructions starting at
/// `pc`, each resolved in the memory the ones before it left.
pub open spec fn arith_block_run(mem: Seq<i32>, pc: nat, k: nat) -> Seq<i32>
    decreases k,
{
    if k == 0 {
        mem
    } else {
        arith_block_run(arith_next(mem, pc), pc + 4, (k - 1) as nat)
    }
}

/// A run through a well-formed arithmetic block executes each instruction
/// in turn and stops at the halt word that follows it.
proof fn lemma_arith_block_steps(mem: Seq<i32>, pc: nat, k: nat, fuel: nat)
    requires
        arith_block_ok(mem, pc, k),
        fuel > k,
        pc + 4 * k < mem.len(),
        arith_block_run(mem, pc, k)[(pc + 4 * k) as int] == 99,
    ensures
        spec_run(mem, pc, fuel) == (RunEnd {
            mem: arith_block_run(mem, pc, k),
            pc: pc + 4 * k,
            status: ProcessStatus::Exit,
            err: None,
        }),
    decreases k,
{
    reveal(spec_step);
    if k == 0 {
        assert(spec_step(mem, pc) == StepOut::Halted);
    } else {
        let next = arith_next(mem, pc);
        assert(spec_step(mem, pc) == (StepOut::Run { mem: next, pc: pc + 4 }));
        assert(arith_block_run(next, pc + 4, (k - 1) as nat) == arith_block_run(mem, pc, k));
        lemma_arith_block_steps(next, pc + 4, (k - 1) as nat, (fuel - 1) as nat);
    }
}

/// Law: a program of `k` well-formed position-mode add and multiply
/// instructions followed by a halt word runs in one `resume` to a clean
/// exit; each instruction stored the operation of its operands as resolved
/// at its moment of execution, and the final memory is exactly that fold —
/// no other cell was touched.
pub proof fn lemma_arithmetic_block_program(mem: Seq<i32>, k: nat)
    requires
        arith_block_ok(mem, 0, k),
        4 * k < mem.len(),
        arith_block_run(mem, 0, k)[4 * k as int] == 99,
        k < RESUME_FUEL,
    ensures
        ({
            let end = spec_resume(VmState { mem, pc: 0, status: ProcessStatus::Paused });
            &&& end.1 == Ok::<ProcessStatus, IntcodeError>(ProcessStatus::Exit)
            &&& end.0.status is Exit
            &&& end.0.mem == arith_block_run(mem, 0, k)
        }),
{
    lemma_arith_block_steps(mem, 0, k, RESUME_FUEL as nat);
}

/// Law: a two-operand arithmetic program in position mode — an add or
/// multiply instruction followed by a halt — runs to a clean exit with the
/// operation's result in the destination cell and every other cell
/// untouched.  When the exact sum or product fits in 32 bits, that exact
/// value is what the destination holds.
pub proof fn lemma_two_op_arithmetic(mem: Seq<i32>)
    requires
        mem.len() >= 5,
        mem[0] == 1 || mem[0] == 2,
        0 <= mem[1] < mem.len(),
        0 <= mem[2] < mem.len(),
        0 <= mem[3] < mem.len(),
        mem[3] != 4,
        mem[4] == 99,
    ensures
        ({
            let end = spec_resume(VmState { mem, pc: 0, status: ProcessStatus::Paused });
            let x = mem[mem[1] as int];
            let y = mem[mem[2] as int];
            let value = if mem[0] == 1 {
                vstd::wrapping::i32_specs::wrapping_add(x, y)
            } else {
                vstd::wrapping::i32_specs::wrapping_mul(x, y)
            };
            &&& end.1 == Ok::<ProcessStatus, IntcodeError>(ProcessStatus::Exit)
            &&& end.0.status is Exit
            &&& end.0.mem == mem.update(mem[3] as int, value)
            &&& (mem[0] == 1 && -0x8000_0000 <= x + y < 0x8000_0000 ==> end.0.mem[mem[3] as int]
                == x + y)
            &&& (mem[0] == 2 && -0x8000_0000 <= x * y < 0x8000_0000 ==> end.0.mem[mem[3] as int]
                == x * y)
        }),
{
    reveal(spec_step);
    let m2 = mem.update(
        mem[3] as int,
        if mem[0] == 1 {
            vstd::wrapping::i32_specs::wrapping_add(mem[mem[1] as int], mem[mem[2] as int])
        } else {
            vstd::wrapping::i32_specs::wrapping_mul(mem[mem[1] as int], mem[mem[2] as int])
        },
    );
    assert(spec_step(mem, 0) == (StepOut::Run { mem: m2, pc: 4nat }));
    assert(m2[4] == 99);
    assert(spec_step(m2, 4) == StepOut::Halted);
    reveal_with_fuel(spec_run, 3);
    assert(spec_run(mem, 0, RESUME_FUEL as nat) == spec_run(m2, 4, (RESUME_FUEL - 1) as nat));
}

/// Law: the canonical immediate-mode Equals program, for every fed input.
/// It boots to a request for one input; feeding any value `x` and resuming
/// emits exactly one comparison bit: 1 when `x` is 8, else 0.
pub proof fn lemma_equals_eight_program(x: i32)
    ensures
        ({
            let prog = seq![3i32, 3i32, 1108i32, (-1i32), 8i32, 3i32, 4i32, 3i32, 99i32];
            let s0 = VmState { mem: prog, pc: 0, status: ProcessStatus::Paused };
            let (s1, r1) = spec_resume(s0);
            let (s2, r2) = spec_feed(s1, x);
            let (s3, r3) = spec_resume(s2);
            &&& r1 == Ok::<ProcessStatus, IntcodeError>(
                ProcessStatus::Awaiting(Parameter::Pos(3usize)),
            )
            &&& r2 == Ok::<ProcessStatus, IntcodeError>(ProcessStatus::Paused)
            &&& r3 == Ok::<ProcessStatus, IntcodeError>(
                ProcessStatus::Outputting(
                    if x == 8 {
                        1i32
                    } else {
                        0i32
                    },
                ),
            )
        }),
{
    reveal(spec_step);
    reveal_with_fuel(spec_run, 3);
    let prog = seq![3i32, 3i32, 1108i32, (-1i32), 8i32, 3i32, 4i32, 3i32, 99i32];
    assert(spec_step(prog, 0) == (StepOut::Await { pc: 2, dest: 3usize }));
    let s1 = spec_resume(VmState { mem: prog, pc: 0, status: ProcessStatus::Paused }).0;
    assert(s1.mem == prog && s1.pc == 2);
    let fed = prog.update(3, x);
    let bit: i32 = if x == 8 {
        1
    } else {
        0
    };
    let compared = fed.update(3, bit);
    assert(spec_step(fed, 2) == (StepOut::Run { mem: compared, pc: 6nat }));
    assert(compared[7] == 3 && compared[3] == bit);
    assert(spec_step(compared, 6) == (StepOut::Output { pc: 8nat, value: bit }));
}

/// A driver that runs a machine to completion on one fixed input value.
pub trait Runnable {
    fn run(&mut self, input: i32) -> Option<i32>;
}

impl Runnable for Process {
    fn run(&mut self, input: i32) -> (r: Option<i32>)
        ensures
            r == spec_drive(old(self)@, input, None, DRIVE_FUEL as nat),
    {
        self.run_with(input)
    }
}

} // verus!
