//! The mathematical semantics of the machine.
//!
//! A [`VmState`] is the abstract view of one machine instance: a sparse
//! memory mapping addresses to signed values, an instruction pointer, a
//! relative base, the queue of pending input values, the log of emitted
//! output values, and the flag that records whether the halt instruction
//! has been reached.
//!
//! [`step`] gives the meaning of executing one instruction. Iterating it
//! with [`steps`] gives the meaning of a whole run; [`run_post`] is the
//! contract that the executable run methods are proved to satisfy.

use vstd::prelude::*;

verus! {

/// Fatal conditions raised while loading or running a program.
///
/// `StepLimitExceeded` is not part of the instruction semantics: the
/// executable run methods give up after a very large fixed number of steps
/// (see [`STEP_LIMIT`]), since a program that never reaches the halt
/// instruction would otherwise run forever. They report it exactly when
/// the machine does not stop within that budget (see
/// [`stops_within_budget`]).
#[derive(Clone, Copy, Debug, PartialEq, Eq, Structural)]
pub enum VmError {
    /// The decoded opcode is not one of the defined operation codes.
    InvalidOpcode,
    /// A mode digit outside {0, 1, 2}, or an immediate mode where a store
    /// address was required.
    UnrecognizedParameterMode,
    /// An effective address was negative or did not fit the address space.
    AddressOutOfRange,
    /// An arithmetic result or the relative base left the 64-bit range.
    ArithmeticOverflow,
    /// A token of the program text is not a signed decimal integer.
    MalformedProgramText,
    /// The fixed step (or round) budget ran out before the machine stopped.
    StepLimitExceeded,
    /// A feedback-network instance stopped without ever emitting a value.
    MissingOutput,
}

/// Upper bound on the number of instructions one run method executes.
pub const STEP_LIMIT: u64 = 0xffff_ffff_ffff_ffff;

/// The abstract state of one machine instance.
#[verifier::ext_equal]
pub ghost struct VmState {
    /// Sparse memory; addresses absent from the map read as zero.
    pub mem: Map<u64, i64>,
    /// Address of the next instruction to execute.
    pub ip: u64,
    /// Offset added to relative-mode operands.
    pub rel_base: i64,
    /// Input values awaiting consumption, oldest first.
    pub input: Seq<i64>,
    /// Output values emitted so far, oldest first.
    pub output: Seq<i64>,
    /// False once the halt instruction has been reached.
    pub active: bool,
}

/// Value stored in sparse memory at `addr`; unset addresses read as zero.
pub open spec fn mem_read(mem: Map<u64, i64>, addr: u64) -> i64 {
    if mem.dom().contains(addr) {
        mem[addr]
    } else {
        0
    }
}

/// The opcode of an instruction value: its low two decimal digits.
pub open spec fn opcode_of(instr: i64) -> int {
    (instr as int) % 100
}

/// The addressing-mode digit of parameter `p` (1-based) of an instruction.
pub open spec fn mode_of(instr: i64, p: int) -> int {
    if p == 1 {
        (instr as int / 100) % 10
    } else if p == 2 {
        (instr as int / 1000) % 10
    } else {
        (instr as int / 10000) % 10
    }
}

/// Whether `op` selects a defined operation.
pub open spec fn valid_opcode(op: int) -> bool {
    (1 <= op <= 9) || op == 99
}

/// Number of memory cells an instruction occupies, its opcode cell included.
pub open spec fn op_length(op: int) -> int {
    if op == 1 || op == 2 || op == 7 || op == 8 {
        4
    } else if op == 5 || op == 6 {
        3
    } else if op == 3 || op == 4 || op == 9 {
        2
    } else {
        1
    }
}

/// The value of source parameter `p` of the current instruction of `s`,
/// resolved according to its addressing mode.
pub open spec fn read_param(s: VmState, p: int) -> Result<i64, VmError> {
    if s.ip + p > u64::MAX {
        Err(VmError::AddressOutOfRange)
    } else {
        let instr = mem_read(s.mem, s.ip);
        let operand = mem_read(s.mem, (s.ip + p) as u64);
        let m = mode_of(instr, p);
        if m == 0 {
            if operand < 0 {
                Err(VmError::AddressOutOfRange)
            } else {
                Ok(mem_read(s.mem, operand as u64))
            }
        } else if m == 1 {
            Ok(operand)
        } else if m == 2 {
            let ea = s.rel_base + operand;
            if 0 <= ea <= u64::MAX {
                Ok(mem_read(s.mem, ea as u64))
            } else {
                Err(VmError::AddressOutOfRange)
            }
        } else {
            Err(VmError::UnrecognizedParameterMode)
        }
    }
}

/// The store address named by parameter `p` of the current instruction of
/// `s`. Immediate mode is never a valid store destination.
pub open spec fn write_param(s: VmState, p: int) -> Result<u64, VmError> {
    if s.ip + p > u64::MAX {
        Err(VmError::AddressOutOfRange)
    } else {
        let instr = mem_read(s.mem, s.ip);
        let operand = mem_read(s.mem, (s.ip + p) as u64);
        let m = mode_of(instr, p);
        if m == 0 {
            if operand < 0 {
                Err(VmError::AddressOutOfRange)
            } else {
                Ok(operand as u64)
            }
        } else if m == 2 {
            let ea = s.rel_base + operand;
            if 0 <= ea <= u64::MAX {
                Ok(ea as u64)
            } else {
                Err(VmError::AddressOutOfRange)
            }
        } else {
            Err(VmError::UnrecognizedParameterMode)
        }
    }
}

/// The instruction pointer advanced past an instruction of length `len`.
pub open spec fn advanced(s: VmState, len: int) -> Result<u64, VmError> {
    if s.ip + len > u64::MAX {
        Err(VmError::AddressOutOfRange)
    } else {
        Ok((s.ip + len) as u64)
    }
}

/// What executing one instruction of `s` yields.
pub ghost enum StepOutcome {
    /// The instruction executed; this is the state after it.
    Progress(VmState),
    /// The machine had already reached the halt instruction; it is terminal.
    Halted,
    /// The current instruction needs input and the input queue is empty:
    /// the machine suspends without changing state.
    NeedInput,
    /// The current instruction is faulty; the state is left as it is.
    Fail(VmError),
}

/// Add or multiply (opcodes 1 and 2).
pub open spec fn step_arith(s: VmState, op: int) -> StepOutcome {
    match read_param(s, 1) {
        Err(e) => StepOutcome::Fail(e),
        Ok(a) => match read_param(s, 2) {
            Err(e) => StepOutcome::Fail(e),
            Ok(b) => match write_param(s, 3) {
                Err(e) => StepOutcome::Fail(e),
                Ok(d) => {
                    let v = if op == 1 {
                        a + b
                    } else {
                        a * b
                    };
                    if v < i64::MIN || v > i64::MAX {
                        StepOutcome::Fail(VmError::ArithmeticOverflow)
                    } else {
                        match advanced(s, 4) {
                            Err(e) => StepOutcome::Fail(e),
                            Ok(ip2) => StepOutcome::Progress(
                                VmState { mem: s.mem.insert(d, v as i64), ip: ip2, ..s },
                            ),
                        }
                    }
                },
            },
        },
    }
}

/// Consume the next input value (opcode 3). Only defined for a non-empty
/// input queue; an empty queue suspends instead (see [`step`]).
pub open spec fn step_input(s: VmState) -> StepOutcome {
    match write_param(s, 1) {
        Err(e) => StepOutcome::Fail(e),
        Ok(d) => match advanced(s, 2) {
            Err(e) => StepOutcome::Fail(e),
            Ok(ip2) => StepOutcome::Progress(
                VmState {
                    mem: s.mem.insert(d, s.input[0]),
                    ip: ip2,
                    input: s.input.subrange(1, s.input.len() as int),
                    ..s
                },
            ),
        },
    }
}

/// Emit a value to the output log (opcode 4).
pub open spec fn step_output(s: VmState) -> StepOutcome {
    match read_param(s, 1) {
        Err(e) => StepOutcome::Fail(e),
        Ok(v) => match advanced(s, 2) {
            Err(e) => StepOutcome::Fail(e),
            Ok(ip2) => StepOutcome::Progress(VmState { ip: ip2, output: s.output.push(v), ..s }),
        },
    }
}

/// Jump if true or jump if false (opcodes 5 and 6).
pub open spec fn step_jump(s: VmState, op: int) -> StepOutcome {
    match read_param(s, 1) {
        Err(e) => StepOutcome::Fail(e),
        Ok(c) => match read_param(s, 2) {
            Err(e) => StepOutcome::Fail(e),
            Ok(t) => {
                let taken = if op == 5 {
                    c != 0
                } else {
                    c == 0
                };
                if taken {
                    if t < 0 {
                        StepOutcome::Fail(VmError::AddressOutOfRange)
                    } else {
                        StepOutcome::Progress(VmState { ip: t as u64, ..s })
                    }
                } else {
                    match advanced(s, 3) {
                        Err(e) => StepOutcome::Fail(e),
                        Ok(ip2) => StepOutcome::Progress(VmState { ip: ip2, ..s }),
                    }
                }
            },
        },
    }
}

/// Less-than or equals comparison (opcodes 7 and 8).
pub open spec fn step_compare(s: VmState, op: int) -> StepOutcome {
    match read_param(s, 1) {
        Err(e) => StepOutcome::Fail(e),
        Ok(a) => match read_param(s, 2) {
            Err(e) => StepOutcome::Fail(e),
            Ok(b) => match write_param(s, 3) {
                Err(e) => StepOutcome::Fail(e),
                Ok(d) => {
                    let hit = if op == 7 {
                        a < b
                    } else {
                        a == b
                    };
                    let v: i64 = if hit {
                        1
                    } else {
                        0
                    };
                    match advanced(s, 4) {
                        Err(e) => StepOutcome::Fail(e),
                        Ok(ip2) => StepOutcome::Progress(
                            VmState { mem: s.mem.insert(d, v), ip: ip2, ..s },
                        ),
                    }
                },
            },
        },
    }
}

/// Adjust the relative base (opcode 9).
pub open spec fn step_adjust(s: VmState) -> StepOutcome {
    match read_param(s, 1) {
        Err(e) => StepOutcome::Fail(e),
        Ok(v) => {
            let rb = s.rel_base + v;
            if rb < i64::MIN || rb > i64::MAX {
                StepOutcome::Fail(VmError::ArithmeticOverflow)
            } else {
                match advanced(s, 2) {
                    Err(e) => StepOutcome::Fail(e),
                    Ok(ip2) => StepOutcome::Progress(
                        VmState { ip: ip2, rel_base: rb as i64, ..s },
                    ),
                }
            }
        },
    }
}

/// The meaning of executing one instruction in state `s`.
///
/// A machine whose halt flag is already cleared is terminal. Reaching the
/// halt instruction (opcode 99) is itself a step: it clears the flag.
/// An input instruction with an empty input queue suspends the machine.
/// Every fault leaves the state exactly as it was.
pub open spec fn step(s: VmState) -> StepOutcome {
    if !s.active {
        StepOutcome::Halted
    } else {
        let instr = mem_read(s.mem, s.ip);
        if instr < 0 || !valid_opcode(opcode_of(instr)) {
            StepOutcome::Fail(VmError::InvalidOpcode)
        } else {
            let op = opcode_of(instr);
            if op == 99 {
                StepOutcome::Progress(VmState { active: false, ..s })
            } else if op == 1 || op == 2 {
                step_arith(s, op)
            } else if op == 3 {
                if s.input.len() == 0 {
                    StepOutcome::NeedInput
                } else {
                    step_input(s)
                }
            } else if op == 4 {
                step_output(s)
            } else if op == 5 || op == 6 {
                step_jump(s, op)
            } else if op == 7 || op == 8 {
                step_compare(s, op)
            } else {
                step_adjust(s)
            }
        }
    }
}

/// A state that cannot make progress: halted, suspended on input, or faulty.
pub open spec fn stopped(s: VmState) -> bool {
    !(step(s) is Progress)
}

/// The state after one instruction; stopped states stay where they are.
pub open spec fn next_state(s: VmState) -> VmState {
    match step(s) {
        StepOutcome::Progress(t) => t,
        _ => s,
    }
}

/// The state after `n` instructions.
pub open spec fn steps(s: VmState, n: nat) -> VmState
    decreases n,
{
    if n == 0 {
        s
    } else {
        next_state(steps(s, (n - 1) as nat))
    }
}

/// Whether `s` eventually reaches a stopped state.
pub open spec fn halts(s: VmState) -> bool {
    exists|n: nat| stopped(steps(s, n))
}

/// The stopped state that `s` reaches; meaningful whenever `halts(s)`.
pub open spec fn settled(s: VmState) -> VmState {
    steps(s, choose|n: nat| stopped(steps(s, n)))
}

/// The memory image of a program given as its list of values: value `k`
/// sits at address `k`.
pub open spec fn initial_memory(values: Seq<i64>) -> Map<u64, i64> {
    Map::new(|a: u64| (a as int) < values.len(), |a: u64| values[a as int])
}

/// A freshly loaded machine: memory from `values`, instruction pointer and
/// relative base zero, input queue `input`, no output, not yet halted.
pub open spec fn loaded(values: Seq<i64>, input: Seq<i64>) -> VmState {
    VmState {
        mem: initial_memory(values),
        ip: 0,
        rel_base: 0,
        input: input,
        output: Seq::empty(),
        active: true,
    }
}

/// One possible complete trace of a run method: `post` is reached from
/// `pre` in exactly `n` instructions, none of the intermediate states was
/// already stopped, and the result classifies how the run ended. The
/// budget error is returned exactly when even the state reached after
/// spending the whole budget can still make progress.
pub open spec fn run_trace(pre: VmState, post: VmState, r: Result<(), VmError>, n: nat) -> bool {
    &&& n <= STEP_LIMIT as nat
    &&& post == steps(pre, n)
    &&& forall|m: nat| m < n ==> !stopped(#[trigger] steps(pre, m))
    &&& match r {
        Ok(_) => step(post) is Halted || step(post) is NeedInput,
        Err(e) => if e == VmError::StepLimitExceeded {
            n == STEP_LIMIT as nat && !stopped(post)
        } else {
            step(post) == StepOutcome::Fail(e)
        },
    }
}

/// The machine, started in `s`, reaches a stopped state within the step
/// budget of one run method.
pub open spec fn stops_within_budget(s: VmState) -> bool {
    exists|n: nat| n <= STEP_LIMIT as nat && stopped(#[trigger] steps(s, n))
}

/// Contract of the run methods: the machine advances step by step from
/// `pre` until the first stopped state (or until the step budget runs out),
/// and the result says how it stopped: `Ok` for halting or suspending on
/// input, `Err` for the first fault encountered.
pub open spec fn run_post(pre: VmState, post: VmState, r: Result<(), VmError>) -> bool {
    exists|n: nat| run_trace(pre, post, r, n)
}

/// Running is additive: `m + n` instructions from `s` land where `n`
/// instructions from the `m`-instruction point land.
pub proof fn lemma_steps_add(s: VmState, m: nat, n: nat)
    ensures
        steps(s, m + n) == steps(steps(s, m), n),
    decreases n,
{
    if n > 0 {
        lemma_steps_add(s, m, (n - 1) as nat);
    }
}

/// A stopped state never changes again, however long the machine runs.
pub proof fn lemma_stopped_stable(s: VmState, n: nat)
    requires
        stopped(s),
    ensures
        steps(s, n) == s,
    decreases n,
{
    if n > 0 {
        lemma_stopped_stable(s, (n - 1) as nat);
    }
}

/// The stopped state reached from `s` is unique: whichever step counts
/// witness a stop, they name the same state.
pub proof fn lemma_stopped_unique(s: VmState, n1: nat, n2: nat)
    requires
        stopped(steps(s, n1)),
        stopped(steps(s, n2)),
    ensures
        steps(s, n1) == steps(s, n2),
{
    if n1 <= n2 {
        lemma_steps_add(s, n1, (n2 - n1) as nat);
        lemma_stopped_stable(steps(s, n1), (n2 - n1) as nat);
    } else {
        lemma_steps_add(s, n2, (n1 - n2) as nat);
        lemma_stopped_stable(steps(s, n2), (n1 - n2) as nat);
    }
}

/// Any stop witness pins down `settled(s)`.
pub proof fn lemma_settled(s: VmState, n: nat)
    requires
        stopped(steps(s, n)),
    ensures
        halts(s),
        settled(s) == steps(s, n),
        stopped(settled(s)),
{
    assert(halts(s));
    let n0 = choose|k: nat| stopped(steps(s, k));
    lemma_stopped_unique(s, n0, n);
}

/// A run reports an exhausted budget exactly on the machines that do not
/// stop within it.
pub proof fn lemma_run_post_budget(pre: VmState, post: VmState, r: Result<(), VmError>)
    requires
        run_post(pre, post, r),
    ensures
        (r == Result::<(), VmError>::Err(VmError::StepLimitExceeded)) <==> !stops_within_budget(
            pre,
        ),
{
    let n = choose|n: nat| run_trace(pre, post, r, n);
    if r == Result::<(), VmError>::Err(VmError::StepLimitExceeded) {
        assert forall|k: nat| k <= STEP_LIMIT as nat implies !stopped(#[trigger] steps(pre, k)) by {
            if k == STEP_LIMIT as nat {
                assert(steps(pre, k) == post);
            }
        }
    } else {
        match r {
            Ok(_) => {},
            Err(e) => {},
        }
        assert(stopped(steps(pre, n)));
    }
}

/// A run that ended within the step budget landed exactly on the settled
/// state of its starting point, and its result classifies that state.
pub proof fn lemma_run_post_settles(pre: VmState, post: VmState, r: Result<(), VmError>)
    requires
        run_post(pre, post, r),
        r != Result::<(), VmError>::Err(VmError::StepLimitExceeded),
    ensures
        halts(pre),
        post == settled(pre),
        stopped(post),
        r is Ok ==> (step(post) is Halted || step(post) is NeedInput),
        r matches Err(e) ==> step(post) == StepOutcome::Fail(e),
{
    let n = choose|n: nat| run_trace(pre, post, r, n);
    assert(stopped(steps(pre, n)));
    lemma_settled(pre, n);
}

/// A single run from a fixed starting state is deterministic: two runs
/// from the same state reach the same state and return the same result,
/// the budget error included. (Running a machine again after it halted is
/// outside the instruction semantics; a halted state is terminal.)
pub proof fn lemma_run_deterministic(
    pre: VmState,
    post1: VmState,
    post2: VmState,
    r1: Result<(), VmError>,
    r2: Result<(), VmError>,
)
    requires
        run_post(pre, post1, r1),
        run_post(pre, post2, r2),
    ensures
        post1 == post2,
        r1 == r2,
{
    let limit_err = Result::<(), VmError>::Err(VmError::StepLimitExceeded);
    let n1 = choose|n: nat| run_trace(pre, post1, r1, n);
    let n2 = choose|n: nat| run_trace(pre, post2, r2, n);
    if r1 == limit_err && r2 == limit_err {
        assert(post1 == steps(pre, STEP_LIMIT as nat));
        assert(post2 == steps(pre, STEP_LIMIT as nat));
    } else if r1 == limit_err {
        lemma_run_post_budget(pre, post1, r1);
        lemma_run_post_budget(pre, post2, r2);
        assert(false);
    } else if r2 == limit_err {
        lemma_run_post_budget(pre, post1, r1);
        lemma_run_post_budget(pre, post2, r2);
        assert(false);
    } else {
        lemma_stopped_unique(pre, n1, n2);
        match (r1, r2) {
            (Ok(u1), Ok(u2)) => {
                assert(u1 == u2);
            },
            (Err(e1), Err(e2)) => {
                assert(StepOutcome::Fail(e1) == StepOutcome::Fail(e2));
            },
            (Ok(_), Err(e2)) => {
                assert(step(post2) == StepOutcome::Fail(e2));
            },
            (Err(e1), Ok(_)) => {
                assert(step(post1) == StepOutcome::Fail(e1));
            },
        }
    }
}

/// The memory values of the position-mode equality-test program
/// `3,9,8,9,10,9,4,9,99,-1,8`: read one value, compare it to 8, emit the
/// comparison result, halt.
pub open spec fn equals_program() -> Seq<i64> {
    seq![3i64, 9i64, 8i64, 9i64, 10i64, 9i64, 4i64, 9i64, 99i64, -1i64, 8i64]
}

/// For every input value: the equality-test program, run with that single
/// input, halts after four instructions with exactly one output — 1 if
/// the input equals 8, and 0 for any other input.
pub proof fn lemma_equals_program_classifies_input(x: i64)
    ensures
        step(steps(loaded(equals_program(), seq![x]), 4)) is Halted,
        steps(loaded(equals_program(), seq![x]), 4).output == seq![
            if x == 8 {
                1i64
            } else {
                0i64
            },
        ],
{
    reveal_with_fuel(steps, 6);
    let v: i64 = if x == 8 {
        1i64
    } else {
        0i64
    };
    let m0 = initial_memory(equals_program());
    let s0 = loaded(equals_program(), seq![x]);
    let s1 = VmState {
        mem: m0.insert(9u64, x),
        ip: 2,
        rel_base: 0,
        input: Seq::empty(),
        output: Seq::empty(),
        active: true,
    };
    let s2 = VmState { mem: m0.insert(9u64, x).insert(9u64, v), ip: 6, ..s1 };
    let s3 = VmState { output: seq![v], ip: 8, ..s2 };
    let s4 = VmState { active: false, ..s3 };
    assert(seq![x].subrange(1, 1) =~= Seq::<i64>::empty());
    assert(step(s0) == StepOutcome::Progress(s1));
    assert(steps(s0, 1) == s1);
    assert(step(s1) == StepOutcome::Progress(s2));
    assert(steps(s0, 2) == s2);
    assert(Seq::<i64>::empty().push(v) =~= seq![v]);
    assert(step(s2) == StepOutcome::Progress(s3));
    assert(steps(s0, 3) == s3);
    assert(step(s3) == StepOutcome::Progress(s4));
    assert(steps(s0, 4) == s4);
}

} // verus!
