//! The scheduler's cycle as a state machine: promotion, matching, release,
//! then the fixed wait, whatever each stage reported.
use vstd::prelude::*;

verus! {

/// Where the scheduler stands in its cycle.
#[derive(Debug, Clone, Copy, PartialEq, Eq, Structural)]
pub enum CycleStep {
    Promote,
    Match,
    Release,
    /// The fixed pause between two cycles.
    Wait,
}

/// How the step that just ran ended.
#[derive(Debug, Clone, Copy, PartialEq, Eq, Structural)]
pub enum StepOutcome {
    /// The stage ran, with `n` items handled.
    Done { n: usize },
    /// The stage failed as a whole (store or ledger unreachable, missing
    /// configuration): logged, and the cycle goes on.
    Failed,
}

/// The step after `step`; how it ended is logged, and does not change the
/// order of the cycle.
pub open spec fn step_after(step: CycleStep, outcome: StepOutcome) -> CycleStep {
    match step {
        CycleStep::Promote => CycleStep::Match,
        CycleStep::Match => CycleStep::Release,
        CycleStep::Release => CycleStep::Wait,
        CycleStep::Wait => CycleStep::Promote,
    }
}

/// The step that follows `step`, given how it ended. A failed stage never
/// ends the cycle early and never skips the wait.
pub fn next_step(step: CycleStep, outcome: StepOutcome) -> (r: CycleStep)
    ensures
        r == step_after(step, outcome),
{
    match step {
        CycleStep::Promote => CycleStep::Match,
        CycleStep::Match => CycleStep::Release,
        CycleStep::Release => CycleStep::Wait,
        CycleStep::Wait => CycleStep::Promote,
    }
}

/// Whatever promotion, matching and release report, a cycle that starts
/// with promotion runs matching, then release, then waits, and only then
/// starts again: a failure never makes the loop spin without its pause.
pub proof fn lemma_cycle_liveness(o1: StepOutcome, o2: StepOutcome, o3: StepOutcome)
    ensures
        step_after(CycleStep::Promote, o1) == CycleStep::Match,
        step_after(step_after(CycleStep::Promote, o1), o2) == CycleStep::Release,
        step_after(step_after(step_after(CycleStep::Promote, o1), o2), o3) == CycleStep::Wait,
        forall|s: CycleStep, o: StepOutcome| step_after(s, o) == CycleStep::Promote ==> s == CycleStep::Wait,
{
}

} // verus!
