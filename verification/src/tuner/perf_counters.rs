use vstd::prelude::*;

verus! {

/// Hardware counter values read at one moment.
pub struct MeasuredCounters {
    pub val_unhalted_rtsc: u64,
    pub val_unhalted_thr: u64,
    pub val_inst_ret: u64,
}

/// The latest readings of the counters that a producer keeps up to date.
#[allow(non_camel_case_types)]
#[derive(Debug, Clone, Copy)]
pub struct PCM_Counters {
    pub inst_retired_any: u64,
    pub cpu_clk_unhalted_thread: u64,
    pub cpu_clk_unhalted_ref: u64,
}

impl PCM_Counters {
    pub fn new() -> (r: Self)
        ensures
            r.inst_retired_any == 0,
            r.cpu_clk_unhalted_thread == 0,
            r.cpu_clk_unhalted_ref == 0,
    {
        PCM_Counters { inst_retired_any: 0, cpu_clk_unhalted_thread: 0, cpu_clk_unhalted_ref: 0 }
    }

    pub fn set_inst_ret(&mut self, val: u64)
        ensures
            final(self).inst_retired_any == val,
            final(self).cpu_clk_unhalted_thread == old(self).cpu_clk_unhalted_thread,
            final(self).cpu_clk_unhalted_ref == old(self).cpu_clk_unhalted_ref,
    {
        self.inst_retired_any = val;
    }

    pub fn set_clk_un_th(&mut self, val: u64)
        ensures
            final(self).cpu_clk_unhalted_thread == val,
            final(self).inst_retired_any == old(self).inst_retired_any,
            final(self).cpu_clk_unhalted_ref == old(self).cpu_clk_unhalted_ref,
    {
        self.cpu_clk_unhalted_thread = val;
    }

    pub fn set_clk_ref(&mut self, val: u64)
        ensures
            final(self).cpu_clk_unhalted_ref == val,
            final(self).inst_retired_any == old(self).inst_retired_any,
            final(self).cpu_clk_unhalted_thread == old(self).cpu_clk_unhalted_thread,
    {
        self.cpu_clk_unhalted_ref = val;
    }

    pub fn get_inst_ret(&self) -> (r: u64)
        ensures
            r == self.inst_retired_any,
    {
        self.inst_retired_any
    }

    pub fn get_clk_un_th(&self) -> (r: u64)
        ensures
            r == self.cpu_clk_unhalted_thread,
    {
        self.cpu_clk_unhalted_thread
    }

    pub fn get_clk_ref(&self) -> (r: u64)
        ensures
            r == self.cpu_clk_unhalted_ref,
    {
        self.cpu_clk_unhalted_ref
    }
}

/// A snapshot of the counters.
#[derive(Debug, Clone, Copy)]
pub struct CntMeasurement {
    pub inst_retired_any: u64,
    pub cpu_clk_unhalted_thread: u64,
    pub cpu_clk_unhalted_ref: u64,
}

/// Keeps the counters that a producer updates.
pub struct CountersProducer {
    pub counters: PCM_Counters,
}

/// Reads snapshots of the counters.
pub struct CountersConsumer {
    pub counters: PCM_Counters,
}

impl CountersConsumer {
    /// A consumer of the counters that `producer` keeps.
    pub fn new(producer: CountersProducer) -> (r: CountersConsumer)
        ensures
            r.counters == producer.counters,
    {
        CountersConsumer { counters: producer.counters }
    }

    pub fn get_current_counters(&self) -> (r: CntMeasurement)
        ensures
            r.inst_retired_any == self.counters.inst_retired_any,
            r.cpu_clk_unhalted_thread == self.counters.cpu_clk_unhalted_thread,
            r.cpu_clk_unhalted_ref == self.counters.cpu_clk_unhalted_ref,
    {
        CntMeasurement {
            inst_retired_any: self.counters.get_inst_ret(),
            cpu_clk_unhalted_thread: self.counters.get_clk_un_th(),
            cpu_clk_unhalted_ref: self.counters.get_clk_ref(),
        }
    }
}

/// The number of hardware threads per core assumed by the utilisation figures.
pub fn get_max_th_core() -> (r: u8)
    ensures
        r == 2,
{
    2
}

} // verus!
