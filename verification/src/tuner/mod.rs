//! The tuner driven by an XML configuration (targets, benchmarks, annealing
//! parameters and the sgx-musl parameters to explore).

pub mod shared;
pub mod xml_reader;
pub mod states_gen;
pub mod common;
pub mod problem;
pub mod prsa;
pub mod output_parser;
pub mod energy_eval;
pub mod meter_proxy;
pub mod perf_counters;
pub mod perf_metrics;
pub mod results_emitter;
pub mod updater;

use vstd::prelude::*;

verus! {

#[allow(non_camel_case_types)]
#[derive(Debug, Clone, Copy)]
pub enum ProblemType {
    default,
    rastr,
    griew,
}

#[allow(non_camel_case_types)]
#[derive(Debug, Clone, Copy)]
pub enum CoolingSchedule {
    linear,
    exponential,
    basic_exp_cooling,
}

#[allow(non_camel_case_types)]
#[derive(Debug, Clone, Copy)]
pub enum SolverVersion {
    seqsea,
    spis,
    mips,
    prsa,
}

#[allow(non_camel_case_types)]
#[derive(Debug, Clone, Copy)]
pub enum EnergyType {
    throughput,
    latency,
}

#[allow(non_camel_case_types)]
#[derive(Debug, Clone, Copy)]
pub enum ExecutionType {
    local,
    remote,
}

impl ProblemType {
    /// The variant named by `s`, if any.
    pub open spec fn spec_from_name(s: Seq<char>) -> Option<ProblemType> {
        if s == "default"@ {
            Some(ProblemType::default)
        } else if s == "rastr"@ {
            Some(ProblemType::rastr)
        } else if s == "griew"@ {
            Some(ProblemType::griew)
        } else {
            None
        }
    }

    pub fn from_name(s: &str) -> (r: Option<ProblemType>)
        ensures
            r == Self::spec_from_name(s@),
    {
        if crate::text::str_eq(s, "default") {
            Some(ProblemType::default)
        } else if crate::text::str_eq(s, "rastr") {
            Some(ProblemType::rastr)
        } else if crate::text::str_eq(s, "griew") {
            Some(ProblemType::griew)
        } else {
            None
        }
    }
}

impl CoolingSchedule {
    /// The variant named by `s`, if any.
    pub open spec fn spec_from_name(s: Seq<char>) -> Option<CoolingSchedule> {
        if s == "linear"@ {
            Some(CoolingSchedule::linear)
        } else if s == "exponential"@ {
            Some(CoolingSchedule::exponential)
        } else if s == "basic_exp_cooling"@ {
            Some(CoolingSchedule::basic_exp_cooling)
        } else {
            None
        }
    }

    pub fn from_name(s: &str) -> (r: Option<CoolingSchedule>)
        ensures
            r == Self::spec_from_name(s@),
    {
        if crate::text::str_eq(s, "linear") {
            Some(CoolingSchedule::linear)
        } else if crate::text::str_eq(s, "exponential") {
            Some(CoolingSchedule::exponential)
        } else if crate::text::str_eq(s, "basic_exp_cooling") {
            Some(CoolingSchedule::basic_exp_cooling)
        } else {
            None
        }
    }
}

impl SolverVersion {
    /// The variant named by `s`, if any: the documented names `seqsa`,
    /// `spisa`, `mir` and `prsa`, or the variants' own names.
    pub open spec fn spec_from_name(s: Seq<char>) -> Option<SolverVersion> {
        if s == "seqsa"@ || s == "seqsea"@ {
            Some(SolverVersion::seqsea)
        } else if s == "spisa"@ || s == "spis"@ {
            Some(SolverVersion::spis)
        } else if s == "mir"@ || s == "mips"@ {
            Some(SolverVersion::mips)
        } else if s == "prsa"@ {
            Some(SolverVersion::prsa)
        } else {
            None
        }
    }

    pub fn from_name(s: &str) -> (r: Option<SolverVersion>)
        ensures
            r == Self::spec_from_name(s@),
    {
        if crate::text::str_eq(s, "seqsa") || crate::text::str_eq(s, "seqsea") {
            Some(SolverVersion::seqsea)
        } else if crate::text::str_eq(s, "spisa") || crate::text::str_eq(s, "spis") {
            Some(SolverVersion::spis)
        } else if crate::text::str_eq(s, "mir") || crate::text::str_eq(s, "mips") {
            Some(SolverVersion::mips)
        } else if crate::text::str_eq(s, "prsa") {
            Some(SolverVersion::prsa)
        } else {
            None
        }
    }
}

impl EnergyType {
    /// The variant named by `s`, if any.
    pub open spec fn spec_from_name(s: Seq<char>) -> Option<EnergyType> {
        if s == "throughput"@ {
            Some(EnergyType::throughput)
        } else if s == "latency"@ {
            Some(EnergyType::latency)
        } else {
            None
        }
    }

    pub fn from_name(s: &str) -> (r: Option<EnergyType>)
        ensures
            r == Self::spec_from_name(s@),
    {
        if crate::text::str_eq(s, "throughput") {
            Some(EnergyType::throughput)
        } else if crate::text::str_eq(s, "latency") {
            Some(EnergyType::latency)
        } else {
            None
        }
    }
}

impl ExecutionType {
    /// The variant named by `s`, if any.
    pub open spec fn spec_from_name(s: Seq<char>) -> Option<ExecutionType> {
        if s == "local"@ {
            Some(ExecutionType::local)
        } else if s == "remote"@ {
            Some(ExecutionType::remote)
        } else {
            None
        }
    }

    pub fn from_name(s: &str) -> (r: Option<ExecutionType>)
        ensures
            r == Self::spec_from_name(s@),
    {
        if crate::text::str_eq(s, "local") {
            Some(ExecutionType::local)
        } else if crate::text::str_eq(s, "remote") {
            Some(ExecutionType::remote)
        } else {
            None
        }
    }
}

} // verus!
