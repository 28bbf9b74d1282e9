use vstd::prelude::*;

verus! {

/// Counter values at the start or the end of a measured run.
#[derive(Debug, Clone, Copy)]
pub struct MeasuredCounters {
    pub value_unhalted_core: u64,
    pub value_ret_instructions: u64,
}

/// The counter values taken at the start and at the end of a run.
pub struct PerfMetrics {
    pub initial_values: Option<MeasuredCounters>,
    pub final_values: Option<MeasuredCounters>,
}

impl PerfMetrics {
    pub fn new() -> (r: PerfMetrics)
        ensures
            r.initial_values is None,
            r.final_values is None,
    {
        PerfMetrics { initial_values: None, final_values: None }
    }

    /// Records the values read when the counters start.
    #[allow(non_snake_case)]
    pub fn StartCounters_4_CPI(&mut self, initial: MeasuredCounters)
        ensures
            final(self).initial_values == Some(initial),
            final(self).final_values == old(self).final_values,
    {
        self.initial_values = Some(initial);
    }

    /// Records the values read when the counters stop; the counters must
    /// have been started.
    #[allow(non_snake_case)]
    pub fn StopCounters_4_CPI(&mut self, last: MeasuredCounters)
        requires
            old(self).initial_values is Some,
        ensures
            final(self).final_values == Some(last),
            final(self).initial_values == old(self).initial_values,
    {
        self.final_values = Some(last);
    }

    /// Cycles per instruction over the run, in whole cycles (the quotient of
    /// the counted cycles by the counted instructions, rounded down).
    #[allow(non_snake_case)]
    pub fn get_CPI(&self) -> (r: u64)
        requires
            self.initial_values is Some,
            self.final_values is Some,
            self.final_values->0.value_unhalted_core >= self.initial_values->0.value_unhalted_core,
            self.final_values->0.value_ret_instructions
                > self.initial_values->0.value_ret_instructions,
        ensures
            r == (self.final_values->0.value_unhalted_core - self.initial_values->0.value_unhalted_core)
                / (self.final_values->0.value_ret_instructions
                - self.initial_values->0.value_ret_instructions) as int,
    {
        match (self.initial_values, self.final_values) {
            (Some(i), Some(f)) => (f.value_unhalted_core - i.value_unhalted_core) / (
            f.value_ret_instructions - i.value_ret_instructions),
            _ => unreached(),
        }
    }
}

} // verus!
