//! The tuner that drives target and benchmark agents deployed as containers.

pub mod shared;
pub mod xml_parser;
pub mod states_gen;
pub mod energy_eval;
pub mod res_emitters;
pub mod yml_parser;

use vstd::prelude::*;

verus! {

#[allow(non_camel_case_types)]
#[derive(Debug, Clone, Copy)]
pub enum CoolingSchedule {
    linear,
    exponential,
    basic_exp_cooling,
}

impl CoolingSchedule {
    /// The variant named by `s`, if any.
    pub open spec fn spec_from_name(s: Seq<char>) -> Option<CoolingSchedule> {
        if s == "linear"@ {
            Some(CoolingSchedule::linear)
        } else if s == "exponential"@ {
            Some(CoolingSchedule::exponential)
        } else if s == "basic_exp_cooling"@ {
            Some(CoolingSchedule::basic_exp_cooling)
        } else {
            None
        }
    }

    pub fn from_name(s: &str) -> (r: Option<CoolingSchedule>)
        ensures
            r == Self::spec_from_name(s@),
    {
        if crate::text::str_eq(s, "linear") {
            Some(CoolingSchedule::linear)
        } else if crate::text::str_eq(s, "exponential") {
            Some(CoolingSchedule::exponential)
        } else if crate::text::str_eq(s, "basic_exp_cooling") {
            Some(CoolingSchedule::basic_exp_cooling)
        } else {
            None
        }
    }
}

impl std::str::FromStr for CoolingSchedule {
    type Err = &'static str;

    fn from_str(s: &str) -> (r: Result<Self, Self::Err>)
        ensures
            match CoolingSchedule::spec_from_name(s@) {
                Some(v) => r == Ok::<CoolingSchedule, &'static str>(v),
                None => r matches Err(e) && e@ == "Cooling Schedule - not a valid value"@,
            },
    {
        match CoolingSchedule::from_name(s) {
            Some(v) => Ok(v),
            None => Err("Cooling Schedule - not a valid value"),
        }
    }
}

#[allow(non_camel_case_types)]
#[derive(Debug, Clone, Copy)]
pub enum SolverVersion {
    seqsa,
    spisa,
    mir,
    prsa,
}

impl SolverVersion {
    /// The variant named by `s`, if any.
    pub open spec fn spec_from_name(s: Seq<char>) -> Option<SolverVersion> {
        if s == "seqsa"@ {
            Some(SolverVersion::seqsa)
        } else if s == "spisa"@ {
            Some(SolverVersion::spisa)
        } else if s == "mir"@ {
            Some(SolverVersion::mir)
        } else if s == "prsa"@ {
            Some(SolverVersion::prsa)
        } else {
            None
        }
    }

    pub fn from_name(s: &str) -> (r: Option<SolverVersion>)
        ensures
            r == Self::spec_from_name(s@),
    {
        if crate::text::str_eq(s, "seqsa") {
            Some(SolverVersion::seqsa)
        } else if crate::text::str_eq(s, "spisa") {
            Some(SolverVersion::spisa)
        } else if crate::text::str_eq(s, "mir") {
            Some(SolverVersion::mir)
        } else if crate::text::str_eq(s, "prsa") {
            Some(SolverVersion::prsa)
        } else {
            None
        }
    }
}

impl std::str::FromStr for SolverVersion {
    type Err = &'static str;

    fn from_str(s: &str) -> (r: Result<Self, Self::Err>)
        ensures
            match SolverVersion::spec_from_name(s@) {
                Some(v) => r == Ok::<SolverVersion, &'static str>(v),
                None => r matches Err(e) && e@ == "Solver Version - not a valid value"@,
            },
    {
        match SolverVersion::from_name(s) {
            Some(v) => Ok(v),
            None => Err("Solver Version - not a valid value"),
        }
    }
}

#[allow(non_camel_case_types)]
#[derive(Debug, Clone, Copy)]
pub enum EnergyType {
    throughput,
    latency,
}

impl EnergyType {
    /// The variant named by `s`, if any.
    pub open spec fn spec_from_name(s: Seq<char>) -> Option<EnergyType> {
        if s == "throughput"@ {
            Some(EnergyType::throughput)
        } else if s == "latency"@ {
            Some(EnergyType::latency)
        } else {
            None
        }
    }

    pub fn from_name(s: &str) -> (r: Option<EnergyType>)
        ensures
            r == Self::spec_from_name(s@),
    {
        if crate::text::str_eq(s, "throughput") {
            Some(EnergyType::throughput)
        } else if crate::text::str_eq(s, "latency") {
            Some(EnergyType::latency)
        } else {
            None
        }
    }
}

impl std::str::FromStr for EnergyType {
    type Err = &'static str;

    fn from_str(s: &str) -> (r: Result<Self, Self::Err>)
        ensures
            match EnergyType::spec_from_name(s@) {
                Some(v) => r == Ok::<EnergyType, &'static str>(v),
                None => r matches Err(e) && e@ == "Energy Type - not a valid value"@,
            },
    {
        match EnergyType::from_name(s) {
            Some(v) => Ok(v),
            None => Err("Energy Type - not a valid value"),
        }
    }
}

#[allow(non_camel_case_types)]
#[derive(Debug, Clone, Copy)]
pub enum ExecutionType {
    local,
    remote,
}

impl ExecutionType {
    /// The variant named by `s`, if any.
    pub open spec fn spec_from_name(s: Seq<char>) -> Option<ExecutionType> {
        if s == "local"@ {
            Some(ExecutionType::local)
        } else if s == "remote"@ {
            Some(ExecutionType::remote)
        } else {
            None
        }
    }

    pub fn from_name(s: &str) -> (r: Option<ExecutionType>)
        ensures
            r == Self::spec_from_name(s@),
    {
        if crate::text::str_eq(s, "local") {
            Some(ExecutionType::local)
        } else if crate::text::str_eq(s, "remote") {
            Some(ExecutionType::remote)
        } else {
            None
        }
    }
}

impl std::str::FromStr for ExecutionType {
    type Err = &'static str;

    fn from_str(s: &str) -> (r: Result<Self, Self::Err>)
        ensures
            match ExecutionType::spec_from_name(s@) {
                Some(v) => r == Ok::<ExecutionType, &'static str>(v),
                None => r matches Err(e) && e@ == "Execution Type - not a valid value"@,
            },
    {
        match ExecutionType::from_name(s) {
            Some(v) => Ok(v),
            None => Err("Execution Type - not a valid value"),
        }
    }
}

#[allow(non_camel_case_types)]
#[derive(Debug, Clone, Copy)]
pub enum ParameterLevel {
    runtime,
    service_config,
    compile,
}

impl ParameterLevel {
    /// The variant named by `s`, if any.
    pub open spec fn spec_from_name(s: Seq<char>) -> Option<ParameterLevel> {
        if s == "runtime"@ {
            Some(ParameterLevel::runtime)
        } else if s == "service-config"@ {
            Some(ParameterLevel::service_config)
        } else if s == "compile"@ {
            Some(ParameterLevel::compile)
        } else {
            None
        }
    }

    pub fn from_name(s: &str) -> (r: Option<ParameterLevel>)
        ensures
            r == Self::spec_from_name(s@),
    {
        if crate::text::str_eq(s, "runtime") {
            Some(ParameterLevel::runtime)
        } else if crate::text::str_eq(s, "service-config") {
            Some(ParameterLevel::service_config)
        } else if crate::text::str_eq(s, "compile") {
            Some(ParameterLevel::compile)
        } else {
            None
        }
    }
}

impl std::str::FromStr for ParameterLevel {
    type Err = &'static str;

    fn from_str(s: &str) -> (r: Result<Self, Self::Err>)
        ensures
            match ParameterLevel::spec_from_name(s@) {
                Some(v) => r == Ok::<ParameterLevel, &'static str>(v),
                None => r matches Err(e) && e@ == "Parameter Level - not a valid value"@,
            },
    {
        match ParameterLevel::from_name(s) {
            Some(v) => Ok(v),
            None => Err("Parameter Level - not a valid value"),
        }
    }
}

} // verus!
