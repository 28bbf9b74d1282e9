//! The sequential tuner: its options and the bookkeeping of the annealing
//! stages (attempts, acceptances and rejections between two coolings).

use vstd::prelude::*;

verus! {

#[allow(non_camel_case_types)]
#[derive(Debug, Clone, Copy)]
pub enum CoolingSchedule {
    linear,
    exponential,
    adaptive,
}

#[allow(non_camel_case_types)]
#[derive(Debug, Clone, Copy)]
pub enum EnergyType {
    throughput,
    latency,
}

/// When the annealing ends: after a number of steps or of seconds.
#[allow(non_camel_case_types)]
#[derive(Debug, Clone, Copy)]
pub enum TerminationCriteria {
    Max_Steps(u64),
    Max_Time_Seconds(u64),
}

impl CoolingSchedule {
    /// The variant named by `s`, if any.
    pub open spec fn spec_from_name(s: Seq<char>) -> Option<CoolingSchedule> {
        if s == "linear"@ {
            Some(CoolingSchedule::linear)
        } else if s == "exponential"@ {
            Some(CoolingSchedule::exponential)
        } else if s == "adaptive"@ {
            Some(CoolingSchedule::adaptive)
        } else {
            None
        }
    }

    pub fn from_name(s: &str) -> (r: Option<CoolingSchedule>)
        ensures
            r == Self::spec_from_name(s@),
    {
        if crate::text::str_eq(s, "linear") {
            Some(CoolingSchedule::linear)
        } else if crate::text::str_eq(s, "exponential") {
            Some(CoolingSchedule::exponential)
        } else if crate::text::str_eq(s, "adaptive") {
            Some(CoolingSchedule::adaptive)
        } else {
            None
        }
    }
}

impl EnergyType {
    /// The variant named by `s`, if any.
    pub open spec fn spec_from_name(s: Seq<char>) -> Option<EnergyType> {
        if s == "throughput"@ {
            Some(EnergyType::throughput)
        } else if s == "latency"@ {
            Some(EnergyType::latency)
        } else {
            None
        }
    }

    pub fn from_name(s: &str) -> (r: Option<EnergyType>)
        ensures
            r == Self::spec_from_name(s@),
    {
        if crate::text::str_eq(s, "throughput") {
            Some(EnergyType::throughput)
        } else if crate::text::str_eq(s, "latency") {
            Some(EnergyType::latency)
        } else {
            None
        }
    }
}

/// The limits of a stage of the sequential annealing.
#[derive(Debug, Clone, Copy)]
pub struct StageLimits {
    /// Attempts after which the stage ends.
    pub max_attempts: u64,
    /// Acceptances after which the stage ends.
    pub max_accepts: u64,
    /// Stages in a row without acceptance after which the annealing ends.
    pub max_rejects: u64,
}

impl StageLimits {
    /// The limits of the default solver: 50 attempts, 10 acceptances, 4
    /// fruitless stages.
    pub fn new() -> (r: StageLimits)
        ensures
            r.max_attempts == 50,
            r.max_accepts == 10,
            r.max_rejects == 4,
    {
        StageLimits { max_attempts: 50, max_accepts: 10, max_rejects: 4 }
    }
}

/// The counters of the sequential annealing.
#[derive(Debug, Clone, Copy)]
pub struct StageCounters {
    /// Configurations evaluated in this stage.
    pub attempted: u64,
    /// Configurations accepted in this stage.
    pub accepted: u64,
    /// Stages in a row that ended without acceptance.
    pub rejected: u64,
    /// Improvements found so far.
    pub total_improves: u64,
    /// Improvements found since the last rejection.
    pub subsequent_improves: u64,
}

/// What became of the configuration examined in a step.
#[derive(Debug, Clone, Copy)]
pub enum StepOutcome {
    /// Its energy could not be evaluated.
    Skipped,
    /// It was evaluated and rejected.
    Rejected,
    /// It was evaluated and accepted; `improved` when its energy was better.
    Accepted { improved: bool },
}

impl StageCounters {
    /// All counters at zero.
    pub fn new() -> (r: StageCounters)
        ensures
            r.attempted == 0 && r.accepted == 0 && r.rejected == 0 && r.total_improves == 0
                && r.subsequent_improves == 0,
    {
        StageCounters { attempted: 0, accepted: 0, rejected: 0, total_improves: 0, subsequent_improves: 0 }
    }

    /// Records the outcome of a step, closes the stage when it reached its
    /// attempts or its acceptances, and tells whether the annealing ends
    /// (`max_rejects` stages in a row without acceptance).
    pub fn after_step(&mut self, outcome: StepOutcome, limits: &StageLimits) -> (stop: bool)
        requires
            old(self).attempted < u64::MAX,
            old(self).accepted < u64::MAX,
            old(self).rejected < u64::MAX,
            old(self).total_improves < u64::MAX,
            old(self).subsequent_improves < u64::MAX,
        ensures
            ({
                let o = *old(self);
                let attempted: int = if outcome is Skipped { o.attempted as int } else { o.attempted + 1 };
                let accepted: int = if outcome is Accepted { o.accepted + 1 } else { o.accepted as int };
                let improved = outcome matches StepOutcome::Accepted { improved } && improved;
                let stage_over = attempted >= limits.max_attempts || accepted >= limits.max_accepts;
                let rejected = if !stage_over {
                    o.rejected as int
                } else if accepted == 0 {
                    o.rejected + 1
                } else {
                    0
                };
                &&& final(self).total_improves == if improved { o.total_improves + 1 } else { o.total_improves as int }
                &&& final(self).subsequent_improves == if improved {
                    o.subsequent_improves + 1
                } else if outcome is Rejected {
                    0
                } else {
                    o.subsequent_improves as int
                }
                &&& final(self).attempted == if stage_over { 0 } else { attempted }
                &&& final(self).accepted == if stage_over { 0 } else { accepted }
                &&& final(self).rejected == rejected
                &&& stop == (stage_over && rejected >= limits.max_rejects)
            }),
    {
        match outcome {
            StepOutcome::Skipped => {},
            StepOutcome::Rejected => {
                self.attempted = self.attempted + 1;
                self.subsequent_improves = 0;
            },
            StepOutcome::Accepted { improved } => {
                self.attempted = self.attempted + 1;
                self.accepted = self.accepted + 1;
                if improved {
                    self.total_improves = self.total_improves + 1;
                    self.subsequent_improves = self.subsequent_improves + 1;
                }
            },
        }
        if self.attempted >= limits.max_attempts || self.accepted >= limits.max_accepts {
            if self.accepted == 0 {
                self.rejected = self.rejected + 1;
            } else {
                self.rejected = 0;
            }
            self.attempted = 0;
            self.accepted = 0;
            self.rejected >= limits.max_rejects
        } else {
            false
        }
    }
}

} // verus!
