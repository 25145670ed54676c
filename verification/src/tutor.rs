//! The tutor loop: the compile-test-refine cycle that checks each output
//! against the assertions of a specification.
use vstd::prelude::*;

use crate::assertions::{
    extract_assertions, payload_violations, spec_extract_assertions, summary_text,
    validate_payload,
};

verus! {

/// The tutor loop executor — wraps execution in assertion-checked cycles.
pub struct TutorLoop {
    pub max_iterations: usize,
    pub iteration: usize,
}

/// The outcome of one tutor cycle.
#[derive(Debug, Clone)]
pub struct TutorCycleResult {
    pub iteration: usize,
    pub passed: bool,
    pub violations: Vec<String>,
    pub should_continue: bool,
    pub summary: String,
}

/// The violations that `output` has against the assertions of `spec`.
pub open spec fn cycle_violations(output: Seq<char>, spec: Seq<char>) -> Seq<Seq<char>> {
    payload_violations(output, spec_extract_assertions(spec))
}

/// What one cycle does to the loop's counters and what it reports of them:
/// the counter goes up by one, the limit stays, and the cycle asks to
/// continue when it failed and the counter is still under the limit.
pub open spec fn cycle_step(before: TutorLoop, after: TutorLoop, r: TutorCycleResult) -> bool {
    &&& after.iteration == before.iteration + 1
    &&& after.max_iterations == before.max_iterations
    &&& r.iteration == after.iteration
    &&& r.passed == (r.violations@.len() == 0)
    &&& r.should_continue == (!r.passed && after.iteration < after.max_iterations)
}

impl TutorLoop {
    /// A loop that allows `max_iterations` cycles and has run none.
    pub fn new(max_iterations: usize) -> (r: Self)
        ensures
            r.max_iterations == max_iterations,
            r.iteration == 0,
    {
        TutorLoop { max_iterations, iteration: 0 }
    }

    /// Execute one cycle: validate `output` against the assertions of `spec`
    /// and count the cycle.
    pub fn cycle(&mut self, output: &str, spec: &str) -> (r: TutorCycleResult)
        requires
            old(self).iteration < usize::MAX,
        ensures
            final(self).iteration == old(self).iteration + 1,
            final(self).max_iterations == old(self).max_iterations,
            r.iteration == final(self).iteration,
            r.violations.deep_view() == cycle_violations(output@, spec@),
            r.passed == (r.violations@.len() == 0),
            r.should_continue == (!r.passed && final(self).iteration < final(self).max_iterations),
            r.summary@ == summary_text(r.violations.deep_view()),
            cycle_step(*old(self), *final(self), r),
    {
        self.iteration = self.iteration + 1;
        let assertions = extract_assertions(spec);
        let result = validate_payload(output, assertions.as_slice());
        let should_continue = !result.passed && self.iteration < self.max_iterations;
        TutorCycleResult {
            iteration: self.iteration,
            passed: result.passed,
            violations: result.violations,
            should_continue,
            summary: result.summary,
        }
    }
}

proof fn lemma_counters_after(states: Seq<TutorLoop>, results: Seq<TutorCycleResult>, n: int)
    requires
        states.len() == results.len() + 1,
        states[0].iteration == 0,
        forall|i: int|
            0 <= i < results.len() ==> cycle_step(states[i], states[i + 1], #[trigger] results[i]),
        0 <= n < states.len(),
    ensures
        states[n].iteration == n,
        states[n].max_iterations == states[0].max_iterations,
    decreases n,
{
    if n > 0 {
        lemma_counters_after(states, results, n - 1);
        assert(cycle_step(states[n - 1], states[n], results[n - 1]));
    }
}

/// Successive cycles of a loop that starts with no cycles run, as `new`
/// makes it: the i-th cycle (counting from 1) reports iteration i; a cycle
/// that asks to continue has not passed; no cycle from the limit on asks to
/// continue; so a driver that stops at the first cycle that does not ask to
/// continue runs at most the larger of the limit and 1 cycles.
pub proof fn lemma_successive_cycles(states: Seq<TutorLoop>, results: Seq<TutorCycleResult>)
    requires
        states.len() == results.len() + 1,
        states[0].iteration == 0,
        forall|i: int|
            0 <= i < results.len() ==> cycle_step(states[i], states[i + 1], #[trigger] results[i]),
    ensures
        forall|i: int| 0 <= i < results.len() ==> #[trigger] results[i].iteration == i + 1,
        forall|i: int|
            0 <= i < results.len() ==> (#[trigger] results[i].should_continue ==> !results[i].passed),
        forall|i: int|
            0 <= i < results.len() && i + 1 >= states[0].max_iterations
                ==> !(#[trigger] results[i].should_continue),
        forall|i: int|
            0 <= i < results.len() && (forall|j: int| 0 <= j < i ==> #[trigger] results[j].should_continue)
                ==> #[trigger] results[i].iteration <= if states[0].max_iterations >= 1 {
                states[0].max_iterations as int
            } else {
                1int
            },
{
    assert forall|i: int| 0 <= i < results.len() implies #[trigger] results[i].iteration == i + 1
        && (results[i].should_continue ==> !results[i].passed)
        && (i + 1 >= states[0].max_iterations ==> !results[i].should_continue) by {
        lemma_counters_after(states, results, i + 1);
        assert(cycle_step(states[i], states[i + 1], results[i]));
    }
    assert forall|i: int|
        0 <= i < results.len() && (forall|j: int| 0 <= j < i ==> #[trigger] results[j].should_continue)
        implies #[trigger] results[i].iteration <= if states[0].max_iterations >= 1 {
        states[0].max_iterations as int
    } else {
        1int
    } by {
        lemma_counters_after(states, results, i + 1);
        assert(cycle_step(states[i], states[i + 1], results[i]));
        if i > 0 {
            assert(results[i - 1].should_continue);
            lemma_counters_after(states, results, i);
            assert(cycle_step(states[i - 1], states[i], results[i - 1]));
        }
    }
}

} // verus!
