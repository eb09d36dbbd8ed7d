//! The feedback network: several machine instances over one program,
//! wired in a cycle. Each instance first receives its phase setting; then,
//! round after round in fixed order, each instance receives the latest
//! output of its predecessor and runs until it suspends or halts. The
//! network ends when the last instance halts; its result is the value most
//! recently handed around the cycle.

use vstd::prelude::*;

use crate::model::{
    lemma_run_post_budget, lemma_run_post_settles, loaded, settled, step, stops_within_budget,
    StepOutcome, VmError, VmState, STEP_LIMIT,
};
use crate::vm::IntcodeProgram;
use crate::perm::{is_phase_permutation, lists_ordering, PhaseSettingPermutation};

verus! {

/// A machine state with one more input value enqueued.
pub open spec fn feed(s: VmState, sig: i64) -> VmState {
    VmState { input: s.input.push(sig), ..s }
}

/// Initialize one instance: load the program, enqueue its phase setting,
/// and run it to its first stop. The result is that stopped state, or the
/// fault it stopped on; an instance that does not stop within the step
/// budget fails with `StepLimitExceeded`.
#[verifier::opaque]
pub open spec fn init_amp(vals: Seq<i64>, phase: i64) -> Result<VmState, VmError> {
    let s0 = feed(loaded(vals, Seq::empty()), phase);
    if !stops_within_budget(s0) {
        Err(VmError::StepLimitExceeded)
    } else {
        let s1 = settled(s0);
        match step(s1) {
            StepOutcome::Fail(e) => Err(e),
            _ => Ok(s1),
        }
    }
}

/// Initialize the instances for `phases[i..]`, in order; the first fault
/// aborts the whole network.
#[verifier::opaque]
pub open spec fn init_amps_from(vals: Seq<i64>, phases: Seq<i64>, i: int) -> Result<
    Seq<VmState>,
    VmError,
>
    decreases phases.len() - i,
{
    if i < 0 || i >= phases.len() {
        Ok(Seq::empty())
    } else {
        match init_amp(vals, phases[i]) {
            Err(e) => Err(e),
            Ok(s) => match init_amps_from(vals, phases, i + 1) {
                Err(e) => Err(e),
                Ok(rest) => Ok(seq![s] + rest),
            },
        }
    }
}

/// Initialize one instance per phase setting, in order.
pub open spec fn init_amps(vals: Seq<i64>, phases: Seq<i64>) -> Result<Seq<VmState>, VmError> {
    init_amps_from(vals, phases, 0)
}

/// Prepend already-initialized instances to the outcome of the rest.
pub open spec fn with_prefix(pre: Seq<VmState>, r: Result<Seq<VmState>, VmError>) -> Result<
    Seq<VmState>,
    VmError,
> {
    match r {
        Err(e) => Err(e),
        Ok(rest) => Ok(pre + rest),
    }
}

/// One round: feed `sig` to the first instance, run it to its next stop,
/// hand its latest output on to the next instance, and so on through all
/// of them; the returned value is the last hand-off. A faulty instance,
/// one that stops without ever having emitted a value, or one that does
/// not stop within the step budget aborts the round.
#[verifier::opaque]
pub open spec fn run_round(amps: Seq<VmState>, sig: i64) -> Result<(Seq<VmState>, i64), VmError>
    decreases amps.len(),
{
    if amps.len() == 0 {
        Ok((Seq::empty(), sig))
    } else {
        let fed = feed(amps[0], sig);
        if !stops_within_budget(fed) {
            Err(VmError::StepLimitExceeded)
        } else {
            let s1 = settled(fed);
            match step(s1) {
                StepOutcome::Fail(e) => Err(e),
                _ => {
                    if s1.output.len() == 0 {
                        Err(VmError::MissingOutput)
                    } else {
                        match run_round(amps.subrange(1, amps.len() as int), s1.output.last()) {
                            Err(e) => Err(e),
                            Ok((rest, out)) => Ok((seq![s1] + rest, out)),
                        }
                    }
                },
            }
        }
    }
}

/// Prepend already-run instances to the outcome of the rest of a round.
pub open spec fn with_round_prefix(
    pre: Seq<VmState>,
    r: Result<(Seq<VmState>, i64), VmError>,
) -> Result<(Seq<VmState>, i64), VmError> {
    match r {
        Err(e) => Err(e),
        Ok((rest, out)) => Ok((pre + rest, out)),
    }
}

/// The whole network between rounds: its instances and the value most
/// recently handed around the cycle.
#[verifier::ext_equal]
pub ghost struct NetState {
    /// The instances, in cycle order.
    pub amps: Seq<VmState>,
    /// The latest hand-off value; 0 before the first round.
    pub signal: i64,
}

/// What one more round of the network yields.
pub ghost enum NetOutcome {
    /// The round ran; this is the network after it.
    Progress(NetState),
    /// The last instance has halted: the network is finished.
    Done,
    /// The round aborted on the given fault.
    Fail(VmError),
}

/// The network is finished once its last instance has halted.
pub open spec fn net_done(ns: NetState) -> bool {
    ns.amps.len() > 0 && !ns.amps.last().active
}

/// The meaning of driving the network through one more round.
pub open spec fn net_step(ns: NetState) -> NetOutcome {
    if net_done(ns) {
        NetOutcome::Done
    } else {
        match run_round(ns.amps, ns.signal) {
            Err(e) => NetOutcome::Fail(e),
            Ok((amps2, sig2)) => NetOutcome::Progress(NetState { amps: amps2, signal: sig2 }),
        }
    }
}

/// The network after one round; finished or faulty networks stay put.
pub open spec fn net_next(ns: NetState) -> NetState {
    match net_step(ns) {
        NetOutcome::Progress(t) => t,
        _ => ns,
    }
}

/// The network after `n` rounds.
pub open spec fn net_steps(ns: NetState, n: nat) -> NetState
    decreases n,
{
    if n == 0 {
        ns
    } else {
        net_next(net_steps(ns, (n - 1) as nat))
    }
}

/// A network that cannot run another round: finished or faulty.
pub open spec fn net_stopped(ns: NetState) -> bool {
    !(net_step(ns) is Progress)
}

/// The network of freshly initialized instances, seeded with 0.
pub open spec fn net_initial(amps0: Seq<VmState>) -> NetState {
    NetState { amps: amps0, signal: 0 }
}

/// One possible complete trace of the feedback loop from the initialized
/// instances `amps0`: `n` rounds ran, none of the networks before round
/// `n` was already stopped, and the result says how the network stopped.
pub open spec fn feedback_trace(amps0: Seq<VmState>, r: Result<i64, VmError>, n: nat) -> bool {
    let nsf = net_steps(net_initial(amps0), n);
    &&& forall|m: nat| m < n ==> !net_stopped(#[trigger] net_steps(net_initial(amps0), m))
    &&& match r {
        Ok(v) => net_step(nsf) is Done && v == nsf.signal,
        Err(e) => net_step(nsf) == NetOutcome::Fail(e),
    }
}

/// Contract of the feedback loop: exactly what the network semantics
/// assigns. The result is the first fault of initialization, or the trace
/// of rounds up to the first stop (an instance that does not stop within
/// its step budget is itself a `StepLimitExceeded` fault of its round);
/// the bare round budget is exhausted only by a network that still makes
/// progress after as many whole rounds.
pub open spec fn feedback_post(vals: Seq<i64>, phases: Seq<i64>, r: Result<i64, VmError>) -> bool {
    match init_amps(vals, phases) {
        Err(e) => r == Err::<i64, VmError>(e),
        Ok(amps0) => {
            ||| exists|n: nat| n <= STEP_LIMIT as nat && feedback_trace(amps0, r, n)
            ||| (r == Err::<i64, VmError>(VmError::StepLimitExceeded) && forall|m: nat|
                m <= STEP_LIMIT as nat ==> !net_stopped(
                    #[trigger] net_steps(net_initial(amps0), m),
                ))
        },
    }
}

/// Rounds are additive, as machine steps are.
pub proof fn lemma_net_steps_add(ns: NetState, m: nat, n: nat)
    ensures
        net_steps(ns, m + n) == net_steps(net_steps(ns, m), n),
    decreases n,
{
    if n > 0 {
        lemma_net_steps_add(ns, m, (n - 1) as nat);
    }
}

/// A stopped network never changes again.
pub proof fn lemma_net_stopped_stable(ns: NetState, n: nat)
    requires
        net_stopped(ns),
    ensures
        net_steps(ns, n) == ns,
    decreases n,
{
    if n > 0 {
        lemma_net_stopped_stable(ns, (n - 1) as nat);
    }
}

/// The stopped network reached from `ns` is unique.
pub proof fn lemma_net_stopped_unique(ns: NetState, n1: nat, n2: nat)
    requires
        net_stopped(net_steps(ns, n1)),
        net_stopped(net_steps(ns, n2)),
    ensures
        net_steps(ns, n1) == net_steps(ns, n2),
{
    if n1 <= n2 {
        lemma_net_steps_add(ns, n1, (n2 - n1) as nat);
        lemma_net_stopped_stable(net_steps(ns, n1), (n2 - n1) as nat);
    } else {
        lemma_net_steps_add(ns, n2, (n1 - n2) as nat);
        lemma_net_stopped_stable(net_steps(ns, n2), (n1 - n2) as nat);
    }
}

/// Evaluating the network twice over the same program and the same phase
/// permutation gives the same result: the feedback loop is deterministic,
/// budget errors included.
pub proof fn lemma_feedback_deterministic(
    vals: Seq<i64>,
    phases: Seq<i64>,
    r1: Result<i64, VmError>,
    r2: Result<i64, VmError>,
)
    requires
        feedback_post(vals, phases, r1),
        feedback_post(vals, phases, r2),
    ensures
        r1 == r2,
{
    match init_amps(vals, phases) {
        Err(e) => {},
        Ok(amps0) => {
            let ns0 = net_initial(amps0);
            let has1 = exists|n: nat| n <= STEP_LIMIT as nat && feedback_trace(amps0, r1, n);
            let has2 = exists|n: nat| n <= STEP_LIMIT as nat && feedback_trace(amps0, r2, n);
            if has1 && has2 {
                let n1 = choose|n: nat| n <= STEP_LIMIT as nat && feedback_trace(amps0, r1, n);
                let n2 = choose|n: nat| n <= STEP_LIMIT as nat && feedback_trace(amps0, r2, n);
                lemma_net_stopped_unique(ns0, n1, n2);
                match (r1, r2) {
                    (Ok(v1), Ok(v2)) => {},
                    (Err(e1), Err(e2)) => {
                        assert(NetOutcome::Fail(e1) == NetOutcome::Fail(e2));
                    },
                    (Ok(v1), Err(e2)) => {
                        assert(net_step(net_steps(ns0, n2)) == NetOutcome::Fail(e2));
                    },
                    (Err(e1), Ok(v2)) => {
                        assert(net_step(net_steps(ns0, n1)) == NetOutcome::Fail(e1));
                    },
                }
            } else if has1 {
                let n1 = choose|n: nat| n <= STEP_LIMIT as nat && feedback_trace(amps0, r1, n);
                assert(net_stopped(net_steps(ns0, n1)));
                assert(false);
            } else if has2 {
                let n2 = choose|n: nat| n <= STEP_LIMIT as nat && feedback_trace(amps0, r2, n);
                assert(net_stopped(net_steps(ns0, n2)));
                assert(false);
            } else {
            }
        },
    }
}



/// The abstract states of a vector of machine instances, in order.
pub open spec fn amp_views(s: Seq<IntcodeProgram>) -> Seq<VmState> {
    Seq::new(s.len(), |k: int| s[k]@)
}

/// Build one instance per phase setting: load the program, enqueue the
/// phase, and run the instance to its first stop.
#[verifier::loop_isolation(false)]
#[verifier::rlimit(100)]
fn init_network(values: &Vec<i64>, phases: &Vec<i64>) -> (r: Result<Vec<IntcodeProgram>, VmError>)
    ensures
        match r {
            Ok(amps) => {
                &&& amps@.len() == phases@.len()
                &&& init_amps(values@, phases@) == Ok::<Seq<VmState>, VmError>(amp_views(amps@))
            },
            Err(e) => init_amps(values@, phases@) == Err::<Seq<VmState>, VmError>(e),
        },
{
    let count = phases.len();
    let mut amps: Vec<IntcodeProgram> = Vec::new();
    proof {
        assert(amp_views(amps@).len() == 0);
        match init_amps_from(values@, phases@, 0) {
            Err(e) => {},
            Ok(rest) => {
                assert(amp_views(amps@) + rest =~= rest);
            },
        }
    }
    let mut i: usize = 0;
    while i < count
        invariant
            i <= count,
            amps@.len() == i,
            init_amps(values@, phases@) == with_prefix(
                amp_views(amps@),
                init_amps_from(values@, phases@, i as int),
            ),
        decreases count - i,
    {
        let mut amp = IntcodeProgram::from_values(values);
        amp.inject_input(phases[i]);
        let ghost fed = feed(loaded(values@, Seq::empty()), phases@[i as int]);
        proof {
            assert(amp@ =~= fed);
        }
        let res = amp.run_until_input();
        match res {
            Ok(_) => {},
            Err(e) => {
                proof {
                    reveal(init_amp);
                    reveal(init_amps_from);
                    lemma_run_post_budget(fed, amp@, res);
                    if e != VmError::StepLimitExceeded {
                        lemma_run_post_settles(fed, amp@, res);
                    }
                    assert(init_amp(values@, phases@[i as int]) == Err::<VmState, VmError>(e));
                    assert(init_amps_from(values@, phases@, i as int) == Err::<
                        Seq<VmState>,
                        VmError,
                    >(e));
                }
                return Err(e);
            },
        }
        proof {
            reveal(init_amp);
            lemma_run_post_budget(fed, amp@, res);
            lemma_run_post_settles(fed, amp@, res);
            assert(init_amp(values@, phases@[i as int]) == Ok::<VmState, VmError>(amp@));
        }
        let ghost old_views = amp_views(amps@);
        let ghost new_amp = amp@;
        amps.push(amp);
        i = i + 1;
        proof {
            reveal(init_amps_from);
            assert(amp_views(amps@) =~= old_views.push(new_amp));
            match init_amps_from(values@, phases@, i as int) {
                Err(e) => {
                    assert(init_amps_from(values@, phases@, i - 1) == Err::<
                        Seq<VmState>,
                        VmError,
                    >(e));
                },
                Ok(rest) => {
                    assert(init_amps_from(values@, phases@, i - 1) == Ok::<Seq<VmState>, VmError>(
                        seq![new_amp] + rest,
                    ));
                    assert(old_views + (seq![new_amp] + rest) =~= amp_views(amps@) + rest);
                },
            }
        }
    }
    proof {
        reveal(init_amps_from);
        assert(init_amps_from(values@, phases@, count as int) == Ok::<Seq<VmState>, VmError>(
            Seq::empty(),
        ));
        assert(amp_views(amps@) + Seq::<VmState>::empty() =~= amp_views(amps@));
    }
    Ok(amps)
}

/// Drive one round: feed `signal` to the first instance, run it to its
/// next stop, hand its latest output to the next instance, and so on
/// through the whole cycle. Returns the last hand-off value.
#[verifier::loop_isolation(false)]
#[verifier::rlimit(100)]
fn run_one_round(amps: &mut Vec<IntcodeProgram>, signal: i64) -> (r: Result<i64, VmError>)
    ensures
        match r {
            Ok(out) => {
                &&& final(amps)@.len() == old(amps)@.len()
                &&& run_round(amp_views(old(amps)@), signal) == Ok::<(Seq<VmState>, i64), VmError>(
                    (amp_views(final(amps)@), out),
                )
            },
            Err(e) => run_round(amp_views(old(amps)@), signal) == Err::<
                (Seq<VmState>, i64),
                VmError,
            >(e),
        },
{
    let count = amps.len();
    let ghost pre_amps = amp_views(old(amps)@);
    let mut sig = signal;
    let mut j: usize = 0;
    proof {
        reveal(run_round);
        assert(pre_amps.subrange(0, count as int) =~= pre_amps);
        match run_round(pre_amps, signal) {
            Err(e) => {},
            Ok(p) => {
                assert(amp_views(amps@).subrange(0, 0) + p.0 =~= p.0);
            },
        }
    }
    while j < count
        invariant
            j <= count,
            amps@.len() == count,
            forall|k: int| j <= k < count ==> amps@[k]@ == pre_amps[k],
            run_round(pre_amps, signal) == with_round_prefix(
                amp_views(amps@).subrange(0, j as int),
                run_round(pre_amps.subrange(j as int, count as int), sig),
            ),
        decreases count - j,
    {
        let ghost remaining = pre_amps.subrange(j as int, count as int);
        let ghost fed = feed(pre_amps[j as int], sig);
        let ghost sig_in = sig;
        let ghost views_at_head = amp_views(amps@);
        amps[j].inject_input(sig);
        proof {
            assert(amps@[j as int]@ =~= fed);
        }
        let res = amps[j].run_until_input();
        let ghost s1 = amps@[j as int]@;
        proof {
            assert(amp_views(amps@).subrange(0, j as int) =~= views_at_head.subrange(0, j as int));
            assert(remaining[0] == pre_amps[j as int]);
            assert(remaining.subrange(1, remaining.len() as int) =~= pre_amps.subrange(
                j + 1,
                count as int,
            ));
        }
        match res {
            Ok(()) => {},
            Err(e) => {
                proof {
                    reveal(run_round);
                    lemma_run_post_budget(fed, s1, res);
                    if e != VmError::StepLimitExceeded {
                        lemma_run_post_settles(fed, s1, res);
                    }
                    assert(run_round(remaining, sig_in) == Err::<(Seq<VmState>, i64), VmError>(e));
                }
                return Err(e);
            },
        }
        proof {
            lemma_run_post_budget(fed, s1, res);
            lemma_run_post_settles(fed, s1, res);
        }
        let olen = amps[j].output.len();
        if olen == 0 {
            proof {
                reveal(run_round);
                assert(s1.output.len() == 0);
                assert(run_round(remaining, sig_in) == Err::<(Seq<VmState>, i64), VmError>(
                    VmError::MissingOutput,
                ));
            }
            return Err(VmError::MissingOutput);
        }
        let out = amps[j].output[olen - 1];
        proof {
            reveal(run_round);
            assert(out == s1.output.last());
            assert(run_round(remaining, sig_in) == (match run_round(
                pre_amps.subrange(j + 1, count as int),
                out,
            ) {
                Err(e) => Err::<(Seq<VmState>, i64), VmError>(e),
                Ok(p) => Ok::<(Seq<VmState>, i64), VmError>((seq![s1] + p.0, p.1)),
            }));
            assert(amp_views(amps@).subrange(0, j + 1) =~= amp_views(amps@).subrange(
                0,
                j as int,
            ).push(s1));
            match run_round(pre_amps.subrange(j + 1, count as int), out) {
                Err(e) => {},
                Ok(p) => {
                    assert(amp_views(amps@).subrange(0, j as int) + (seq![s1] + p.0) =~= amp_views(
                        amps@,
                    ).subrange(0, j + 1) + p.0);
                },
            }
        }
        sig = out;
        j = j + 1;
    }
    proof {
        reveal(run_round);
        assert(pre_amps.subrange(count as int, count as int) =~= Seq::<VmState>::empty());
        assert(run_round(Seq::<VmState>::empty(), sig) == Ok::<(Seq<VmState>, i64), VmError>((
            Seq::empty(),
            sig,
        )));
        assert(amp_views(amps@).subrange(0, count as int) =~= amp_views(amps@));
        assert(amp_views(amps@) + Seq::<VmState>::empty() =~= amp_views(amps@));
    }
    Ok(sig)
}

/// Run the feedback network over the program `values` with one instance
/// per phase setting: initialize every instance with its phase, then hand
/// the signal around the cycle, starting from 0, until the last instance
/// halts. Returns the final hand-off value.
///
/// The result is exactly what the network semantics assigns (see
/// [`feedback_post`]): the first fault aborts the evaluation, and
/// `StepLimitExceeded` comes back exactly when a budget genuinely runs
/// out — an instance outlives its step budget, or the network is still
/// making progress when the round budget is spent.
#[verifier::loop_isolation(false)]
#[verifier::rlimit(100)]
pub fn run_feedback_loop(values: &Vec<i64>, phases: &Vec<i64>) -> (r: Result<i64, VmError>)
    ensures
        feedback_post(values@, phases@, r),
{
    let count = phases.len();
    let mut amps = match init_network(values, phases) {
        Ok(a) => a,
        Err(e) => {
            return Err(e);
        },
    };
    let ghost amps0 = amp_views(amps@);
    let ghost ns0 = net_initial(amps0);
    let mut signal: i64 = 0;
    let ghost mut rounds_n: nat = 0;
    let mut fuel: u64 = STEP_LIMIT;
    while fuel > 0
        invariant
            amps@.len() == count,
            init_amps(values@, phases@) == Ok::<Seq<VmState>, VmError>(amps0),
            ns0 == net_initial(amps0),
            rounds_n + fuel == STEP_LIMIT as nat,
            net_steps(ns0, rounds_n) == (NetState { amps: amp_views(amps@), signal: signal }),
            forall|m: nat| m < rounds_n ==> !net_stopped(#[trigger] net_steps(ns0, m)),
        decreases fuel,
    {
        let ghost cur = NetState { amps: amp_views(amps@), signal: signal };
        if count > 0 && !amps[count - 1].active {
            proof {
                assert(amp_views(amps@).last() == amps@[count - 1]@);
                assert(net_done(cur));
                assert(feedback_trace(amps0, Ok::<i64, VmError>(signal), rounds_n));
                match init_amps(values@, phases@) {
                    Ok(a0) => {
                        assert(a0 == amps0);
                        assert(feedback_trace(a0, Ok::<i64, VmError>(signal), rounds_n));
                    },
                    Err(_) => {
                        assert(false);
                    },
                }
                assert(feedback_post(values@, phases@, Ok::<i64, VmError>(signal)));
            }
            return Ok(signal);
        }
        proof {
            if count > 0 {
                assert(amp_views(amps@).last() == amps@[count - 1]@);
            }
            assert(!net_done(cur));
        }
        match run_one_round(&mut amps, signal) {
            Ok(out) => {
                proof {
                    assert(net_step(cur) == NetOutcome::Progress(
                        NetState { amps: amp_views(amps@), signal: out },
                    ));
                    rounds_n = rounds_n + 1;
                }
                signal = out;
            },
            Err(e) => {
                proof {
                    assert(net_step(cur) == NetOutcome::Fail(e));
                    assert(feedback_trace(amps0, Err::<i64, VmError>(e), rounds_n));
                    match init_amps(values@, phases@) {
                        Ok(a0) => {
                            assert(a0 == amps0);
                            assert(feedback_trace(a0, Err::<i64, VmError>(e), rounds_n));
                        },
                        Err(_) => {
                            assert(false);
                        },
                    }
                    assert(feedback_post(values@, phases@, Err::<i64, VmError>(e)));
                }
                return Err(e);
            },
        }
        fuel = fuel - 1;
    }
    // the round budget is spent: classify the network state it reached
    let ghost cur = NetState { amps: amp_views(amps@), signal: signal };
    if count > 0 && !amps[count - 1].active {
        proof {
            assert(amp_views(amps@).last() == amps@[count - 1]@);
            assert(net_done(cur));
            assert(feedback_trace(amps0, Ok::<i64, VmError>(signal), rounds_n));
            match init_amps(values@, phases@) {
                Ok(a0) => {
                    assert(a0 == amps0);
                    assert(feedback_trace(a0, Ok::<i64, VmError>(signal), rounds_n));
                },
                Err(_) => {
                    assert(false);
                },
            }
            assert(feedback_post(values@, phases@, Ok::<i64, VmError>(signal)));
        }
        return Ok(signal);
    }
    proof {
        if count > 0 {
            assert(amp_views(amps@).last() == amps@[count - 1]@);
        }
        assert(!net_done(cur));
    }
    match run_one_round(&mut amps, signal) {
        Ok(out) => {
            proof {
                assert(net_step(cur) == NetOutcome::Progress(
                    NetState { amps: amp_views(amps@), signal: out },
                ));
                assert forall|m: nat| m <= STEP_LIMIT as nat implies !net_stopped(
                    #[trigger] net_steps(ns0, m),
                ) by {
                    if m == STEP_LIMIT as nat {
                        assert(net_steps(ns0, m) == cur);
                    }
                }
                match init_amps(values@, phases@) {
                    Ok(a0) => {
                        assert(a0 == amps0);
                    },
                    Err(_) => {
                        assert(false);
                    },
                }
                assert(feedback_post(
                    values@,
                    phases@,
                    Err::<i64, VmError>(VmError::StepLimitExceeded),
                ));
            }
            Err(VmError::StepLimitExceeded)
        },
        Err(e) => {
            proof {
                assert(net_step(cur) == NetOutcome::Fail(e));
                assert(feedback_trace(amps0, Err::<i64, VmError>(e), rounds_n));
                match init_amps(values@, phases@) {
                    Ok(a0) => {
                        assert(a0 == amps0);
                        assert(feedback_trace(a0, Err::<i64, VmError>(e), rounds_n));
                    },
                    Err(_) => {
                        assert(false);
                    },
                }
                assert(feedback_post(values@, phases@, Err::<i64, VmError>(e)));
            }
            Err(e)
        },
    }
}

/// The result the network determines: the first error of initialization,
/// the final hand-off value if the network finishes, the first fault of
/// its rounds otherwise — or `StepLimitExceeded` for a network that does
/// not stop within the round budget.
pub open spec fn net_result(vals: Seq<i64>, phases: Seq<i64>) -> Result<i64, VmError> {
    match init_amps(vals, phases) {
        Err(e) => Err(e),
        Ok(amps0) => {
            let ns0 = net_initial(amps0);
            if exists|k: nat| k <= STEP_LIMIT as nat && net_stopped(#[trigger] net_steps(ns0, k)) {
                let k = choose|k: nat|
                    k <= STEP_LIMIT as nat && net_stopped(#[trigger] net_steps(ns0, k));
                let nsf = net_steps(ns0, k);
                match net_step(nsf) {
                    NetOutcome::Done => Ok(nsf.signal),
                    NetOutcome::Fail(e) => Err(e),
                    NetOutcome::Progress(_) => Err(VmError::StepLimitExceeded),
                }
            } else {
                Err(VmError::StepLimitExceeded)
            }
        },
    }
}

/// Every run of the feedback loop returns exactly the result the network
/// semantics determines.
pub proof fn lemma_feedback_result(vals: Seq<i64>, phases: Seq<i64>, r: Result<i64, VmError>)
    requires
        feedback_post(vals, phases, r),
    ensures
        r == net_result(vals, phases),
{
    match init_amps(vals, phases) {
        Err(e) => {},
        Ok(amps0) => {
            let ns0 = net_initial(amps0);
            let has = exists|n: nat| n <= STEP_LIMIT as nat && feedback_trace(amps0, r, n);
            if has {
                let n = choose|n: nat| n <= STEP_LIMIT as nat && feedback_trace(amps0, r, n);
                assert(net_stopped(net_steps(ns0, n)));
                let k = choose|k: nat|
                    k <= STEP_LIMIT as nat && net_stopped(#[trigger] net_steps(ns0, k));
                lemma_net_stopped_unique(ns0, n, k);
            } else {
                assert(r == Err::<i64, VmError>(VmError::StepLimitExceeded));
                assert forall|k: nat|
                    !(k <= STEP_LIMIT as nat && net_stopped(#[trigger] net_steps(ns0, k))) by {
                    if k <= STEP_LIMIT as nat {
                        assert(!net_stopped(net_steps(ns0, k)));
                    }
                }
            }
        },
    }
}

/// The phase sequences of a vector of permutations, in order.
pub open spec fn perm_views(s: Seq<PhaseSettingPermutation>) -> Seq<Seq<i64>> {
    Seq::new(s.len(), |k: int| s[k].elements@)
}

/// The running maximum of the network results of the first `i`
/// permutations, paired with the index that attained it; the search is
/// seeded with value 0 at index 0, and permutations whose evaluation
/// fails — on a fault or on an exhausted budget — are passed over.
pub open spec fn best_signal(vals: Seq<i64>, perms: Seq<Seq<i64>>, i: int) -> (i64, int)
    decreases i,
{
    if i <= 0 {
        (0, 0)
    } else {
        let prev = best_signal(vals, perms, i - 1);
        match net_result(vals, perms[i - 1]) {
            Ok(v) => if v > prev.0 {
                (v, i - 1)
            } else {
                prev
            },
            Err(_) => prev,
        }
    }
}

/// The retained value is the maximum: it is never below the seed 0, no
/// permutation's successful network value exceeds it, and unless it is
/// the seed it is attained at the retained index.
pub proof fn lemma_best_signal_is_max(vals: Seq<i64>, perms: Seq<Seq<i64>>, i: int)
    requires
        0 <= i <= perms.len(),
    ensures
        best_signal(vals, perms, i).0 >= 0,
        forall|k: int|
            0 <= k < i ==> (net_result(vals, #[trigger] perms[k]) matches Ok(v) ==> v
                <= best_signal(vals, perms, i).0),
        best_signal(vals, perms, i).0 > 0 ==> {
            &&& 0 <= best_signal(vals, perms, i).1 < i
            &&& net_result(vals, perms[best_signal(vals, perms, i).1]) == Ok::<i64, VmError>(
                best_signal(vals, perms, i).0,
            )
        },
    decreases i,
{
    if i > 0 {
        lemma_best_signal_is_max(vals, perms, i - 1);
    }
}

/// Over a list that contains every ordering of the phase values — as
/// `johnson_trotter` guarantees of its result — the retained maximum
/// dominates the network result of every permutation: it is the true
/// maximum over the full permutation set.
pub proof fn lemma_max_over_all_orderings(
    vals: Seq<i64>,
    perms: Seq<PhaseSettingPermutation>,
    q: Seq<i64>,
)
    requires
        forall|p: Seq<i64>| #[trigger] is_phase_permutation(p) ==> lists_ordering(perms, p),
        is_phase_permutation(q),
        net_result(vals, q) is Ok,
    ensures
        net_result(vals, q)->Ok_0 <= best_signal(vals, perm_views(perms), perms.len() as int).0,
{
    assert(lists_ordering(perms, q));
    let m = choose|m: int| 0 <= m < perms.len() && perms[m].elements@ == q;
    assert(perm_views(perms)[m] == q);
    lemma_best_signal_is_max(vals, perm_views(perms), perms.len() as int);
    assert(net_result(vals, perm_views(perms)[m]) is Ok);
}

/// Evaluate the feedback network once per phase permutation and retain
/// the maximum final output together with the index of the permutation
/// that produced it. A permutation whose evaluation fails — on a fault or
/// on an exhausted budget — is passed over, as [`best_signal`] says.
#[verifier::loop_isolation(false)]
#[verifier::rlimit(100)]
pub fn find_max_thruster_signal(values: &Vec<i64>, perms: &Vec<PhaseSettingPermutation>) -> (best:
    (i64, usize))
    ensures
        best.0 == best_signal(values@, perm_views(perms@), perms@.len() as int).0,
        best.1 as int == best_signal(values@, perm_views(perms@), perms@.len() as int).1,
{
    let mut max_final: i64 = 0;
    let mut max_ind: usize = 0;
    let mut i: usize = 0;
    while i < perms.len()
        invariant
            i <= perms@.len(),
            max_final == best_signal(values@, perm_views(perms@), i as int).0,
            max_ind as int == best_signal(values@, perm_views(perms@), i as int).1,
        decreases perms@.len() - i,
    {
        let res = run_feedback_loop(values, &perms[i].elements);
        proof {
            assert(perm_views(perms@)[i as int] == perms@[i as int].elements@);
        }
        match res {
            Ok(v) => {
                proof {
                    lemma_feedback_result(values@, perms@[i as int].elements@, res);
                }
                if v > max_final {
                    max_final = v;
                    max_ind = i;
                }
            },
            Err(e) => {
                proof {
                    lemma_feedback_result(values@, perms@[i as int].elements@, res);
                }
            },
        }
        i = i + 1;
    }
    (max_final, max_ind)
}

} // verus!
