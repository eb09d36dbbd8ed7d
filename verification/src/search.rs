//! The noun-verb search: run the program once for every pair of values
//! written into memory cells 1 and 2, looking for the first pair that
//! makes the program halt with a fixed target value in cell 0.

use vstd::prelude::*;

use crate::model::{
    halts, lemma_run_post_budget, lemma_run_post_settles, loaded, mem_read, settled, step,
    stops_within_budget, VmError, VmState,
};
use crate::vm::IntcodeProgram;

verus! {

/// The cell-0 value the noun-verb search looks for.
pub const SEARCH_TARGET: i64 = 19690720;

/// The machine a noun-verb trial runs: `values` with cell 1 replaced by
/// `noun` and cell 2 by `verb`, and an empty input queue.
pub open spec fn noun_verb_trial(values: Seq<i64>, noun: i64, verb: i64) -> VmState {
    loaded(values.update(1, noun).update(2, verb), Seq::empty())
}

/// The noun-verb trial halts with `target` in cell 0.
pub open spec fn noun_verb_matches(values: Seq<i64>, noun: i64, verb: i64, target: i64) -> bool {
    let s0 = noun_verb_trial(values, noun, verb);
    &&& halts(s0)
    &&& step(settled(s0)) is Halted
    &&& mem_read(settled(s0).mem, 0) == target
}

/// The trial of the pair `(a, b)` outlived the step budget, and no pair
/// tried before it — in row-major order — matches: how the search comes
/// to be abandoned.
pub open spec fn search_exhausted(values: Seq<i64>, a: i64, b: i64) -> bool {
    &&& 0 <= a < 100
    &&& 0 <= b < 100
    &&& !stops_within_budget(noun_verb_trial(values, a, b))
    &&& forall|c: i64, d: i64|
        0 <= c < 100 && 0 <= d < 100 && (c < a || (c == a && d < b)) ==> !noun_verb_matches(
            values,
            c,
            d,
            SEARCH_TARGET,
        )
}

/// Run the program once with the given noun and verb and report whether
/// it halted with the target in cell 0.
fn try_noun_verb(values: &Vec<i64>, noun: i64, verb: i64) -> (r: Result<bool, VmError>)
    requires
        values@.len() >= 3,
    ensures
        match r {
            Ok(hit) => hit == noun_verb_matches(values@, noun, verb, SEARCH_TARGET),
            Err(e) => {
                &&& e == VmError::StepLimitExceeded
                &&& !stops_within_budget(noun_verb_trial(values@, noun, verb))
            },
        },
{
    let ghost target_mem = values@.update(1, noun).update(2, verb);
    let mut patched: Vec<i64> = Vec::new();
    let mut k: usize = 0;
    while k < values.len()
        invariant
            k <= values@.len(),
            values@.len() >= 3,
            patched@ == target_mem.subrange(0, k as int),
            target_mem == values@.update(1, noun).update(2, verb),
        decreases values@.len() - k,
    {
        let v = if k == 1 {
            noun
        } else if k == 2 {
            verb
        } else {
            values[k]
        };
        patched.push(v);
        proof {
            assert(target_mem.subrange(0, k + 1).drop_last() =~= target_mem.subrange(0, k as int));
            assert(patched@ =~= target_mem.subrange(0, k + 1));
        }
        k = k + 1;
    }
    proof {
        assert(target_mem.subrange(0, target_mem.len() as int) =~= target_mem);
    }
    let mut prg = IntcodeProgram::from_values(&patched);
    let ghost s0 = loaded(target_mem, Seq::empty());
    let res = prg.run();
    match res {
        Ok(_) => {
            proof {
                lemma_run_post_settles(s0, prg@, res);
            }
            if !prg.active {
                let out = prg.get_value(0);
                Ok(out == SEARCH_TARGET)
            } else {
                Ok(false)
            }
        },
        Err(e) => {
            if e == VmError::StepLimitExceeded {
                proof {
                    lemma_run_post_budget(s0, prg@, res);
                }
                Err(e)
            } else {
                proof {
                    lemma_run_post_settles(s0, prg@, res);
                }
                Ok(false)
            }
        },
    }
}

/// Search the noun-verb pairs from (0, 0) to (99, 99), row by row, for
/// the first one that makes the program halt with [`SEARCH_TARGET`] in
/// cell 0. Returns that pair, or (0, 0) when no pair matches. The search
/// is abandoned only when some trial genuinely outlives the step budget;
/// whenever every trial stops within it, a result is owed.
#[verifier::loop_isolation(false)]
pub fn find_input(values: &Vec<i64>) -> (r: Result<(i64, i64), VmError>)
    requires
        values@.len() >= 3,
    ensures
        match r {
            Ok(p) => {
                &&& 0 <= p.0 < 100
                &&& 0 <= p.1 < 100
                &&& (noun_verb_matches(values@, p.0, p.1, SEARCH_TARGET) || (p == (0i64, 0i64)
                    && forall|a: i64, b: i64|
                    0 <= a < 100 && 0 <= b < 100 ==> !noun_verb_matches(
                        values@,
                        a,
                        b,
                        SEARCH_TARGET,
                    )))
                &&& forall|a: i64, b: i64|
                    0 <= a < 100 && 0 <= b < 100 && (a < p.0 || (a == p.0 && b < p.1))
                        ==> !noun_verb_matches(values@, a, b, SEARCH_TARGET)
            },
            Err(e) => {
                &&& e == VmError::StepLimitExceeded
                &&& exists|a: i64, b: i64| search_exhausted(values@, a, b)
            },
        },
{
    let mut i: i64 = 0;
    while i < 100
        invariant
            0 <= i <= 100,
            forall|a: i64, b: i64|
                0 <= a < i && 0 <= b < 100 ==> !noun_verb_matches(values@, a, b, SEARCH_TARGET),
        decreases 100 - i,
    {
        let mut j: i64 = 0;
        while j < 100
            invariant
                0 <= j <= 100,
                0 <= i < 100,
                forall|a: i64, b: i64|
                    0 <= a < i && 0 <= b < 100 ==> !noun_verb_matches(values@, a, b, SEARCH_TARGET),
                forall|b: i64|
                    0 <= b < j ==> !noun_verb_matches(values@, i, b, SEARCH_TARGET),
            decreases 100 - j,
        {
            match try_noun_verb(values, i, j) {
                Ok(true) => {
                    return Ok((i, j));
                },
                Ok(false) => {},
                Err(e) => {
                    proof {
                        assert(search_exhausted(values@, i, j));
                    }
                    return Err(e);
                },
            }
            j = j + 1;
        }
        i = i + 1;
    }
    Ok((0, 0))
}

} // verus!
