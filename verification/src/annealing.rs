//! When the parallel solvers stop: after the last step, or when too many
//! configurations were rejected in a row.

use vstd::prelude::*;
use crate::sequential::StepOutcome;

verus! {

/// Rejections in a row after which the recombinative solver stops.
pub const PRSA_REJECT_LIMIT: usize = 200;

/// Rejections in a row after which the periodically interacting solver of
/// the XML-driven tuner stops.
pub const SPIS_REJECT_LIMIT: usize = 400;

/// Rejections in a row after which the periodically interacting solver of
/// the container-driven tuner stops.
pub const SPISA_REJECT_LIMIT: usize = 300;

/// Why a solver stops.
#[derive(Debug, Clone, Copy)]
pub enum Termination {
    /// The steps are used up.
    MaxSteps,
    /// Too many configurations were rejected in a row.
    Converged,
}

/// Whether a solver stops before its next round: `MaxSteps` once more than
/// `max_steps` steps are done, else `Converged` once more than
/// `reject_limit` configurations were rejected in a row.
pub fn termination(elapsed_steps: usize, max_steps: usize, subsequent_rejected: usize, reject_limit: usize) -> (r: Option<Termination>)
    ensures
        elapsed_steps > max_steps ==> r == Some(Termination::MaxSteps),
        elapsed_steps <= max_steps && subsequent_rejected > reject_limit ==> r == Some(Termination::Converged),
        elapsed_steps <= max_steps && subsequent_rejected <= reject_limit ==> r is None,
{
    if elapsed_steps > max_steps {
        Some(Termination::MaxSteps)
    } else if subsequent_rejected > reject_limit {
        Some(Termination::Converged)
    } else {
        None
    }
}

/// Rejections in a row after which a worker of the multi-start solver
/// stops.
pub const MIPS_REJECT_LIMIT: usize = 100;

/// The counters of one worker of the multi-start solver.
#[derive(Debug, Clone, Copy)]
pub struct MipsWorker {
    /// Steps done.
    pub steps: usize,
    /// Configurations accepted.
    pub accepted: usize,
    /// Configurations rejected in a row.
    pub rejected: usize,
    /// Accepted configurations that improved the energy.
    pub total_improves: usize,
}

impl MipsWorker {
    /// All counters at zero.
    pub fn new() -> (r: MipsWorker)
        ensures
            r.steps == 0 && r.accepted == 0 && r.rejected == 0 && r.total_improves == 0,
    {
        MipsWorker { steps: 0, accepted: 0, rejected: 0, total_improves: 0 }
    }

    /// Whether the worker has used up its share of the steps: more than
    /// `max_steps / workers` of them.
    pub fn budget_spent(&self, max_steps: usize, workers: usize) -> (r: bool)
        requires
            workers > 0,
        ensures
            r == (self.steps > max_steps / workers),
    {
        self.steps > max_steps / workers
    }

    /// Records the outcome of a step and tells whether the worker stops at
    /// once: on its `MIPS_REJECT_LIMIT`-th rejection in a row, which does not
    /// count as a step. Any other step counts; an acceptance clears the
    /// rejections.
    pub fn after_step(&mut self, outcome: StepOutcome) -> (stop: bool)
        requires
            old(self).steps < usize::MAX,
            old(self).accepted < usize::MAX,
            old(self).rejected < usize::MAX,
            old(self).total_improves < usize::MAX,
        ensures
            stop == (outcome is Rejected && old(self).rejected + 1 == MIPS_REJECT_LIMIT),
            final(self).steps == if stop { old(self).steps as int } else { old(self).steps + 1 },
            final(self).accepted == if outcome is Accepted { old(self).accepted + 1 } else { old(self).accepted as int },
            final(self).rejected == match outcome {
                StepOutcome::Accepted { .. } => 0,
                StepOutcome::Rejected => old(self).rejected + 1,
                StepOutcome::Skipped => old(self).rejected as int,
            },
            final(self).total_improves == if outcome matches StepOutcome::Accepted { improved } && improved {
                old(self).total_improves + 1
            } else {
                old(self).total_improves as int
            },
    {
        match outcome {
            StepOutcome::Skipped => {},
            StepOutcome::Rejected => {
                self.rejected = self.rejected + 1;
                if self.rejected == MIPS_REJECT_LIMIT {
                    return true;
                }
            },
            StepOutcome::Accepted { improved } => {
                self.accepted = self.accepted + 1;
                self.rejected = 0;
                if improved {
                    self.total_improves = self.total_improves + 1;
                }
            },
        }
        self.steps = self.steps + 1;
        false
    }
}

} // verus!
