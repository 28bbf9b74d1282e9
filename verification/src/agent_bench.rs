//! The benchmark agent: it runs a benchmark on request and reports the
//! measurement.

use vstd::prelude::*;

verus! {

/// The benchmarks whose output can be read.
#[derive(Debug, Clone, Copy)]
pub enum BenchmarkName {
    Wrk,
    Ycsb,
    Memaslap,
}

impl BenchmarkName {
    pub open spec fn spec_from_name(s: Seq<char>) -> Option<BenchmarkName> {
        if s == "wrk"@ {
            Some(BenchmarkName::Wrk)
        } else if s == "ycsb"@ {
            Some(BenchmarkName::Ycsb)
        } else if s == "memaslap"@ {
            Some(BenchmarkName::Memaslap)
        } else {
            None
        }
    }

    pub fn from_name(s: &str) -> (r: Option<BenchmarkName>)
        ensures
            r == Self::spec_from_name(s@),
    {
        if crate::text::str_eq(s, "wrk") {
            Some(BenchmarkName::Wrk)
        } else if crate::text::str_eq(s, "ycsb") {
            Some(BenchmarkName::Ycsb)
        } else if crate::text::str_eq(s, "memaslap") {
            Some(BenchmarkName::Memaslap)
        } else {
            None
        }
    }
}

impl std::str::FromStr for BenchmarkName {
    type Err = &'static str;

    fn from_str(s: &str) -> (r: Result<Self, Self::Err>)
        ensures
            match BenchmarkName::spec_from_name(s@) {
                Some(v) => r == Ok::<BenchmarkName, &'static str>(v),
                None => r matches Err(e) && e@ == "Benchmark Name - not a valid value"@,
            },
    {
        match BenchmarkName::from_name(s) {
            Some(b) => Ok(b),
            None => Err("Benchmark Name - not a valid value"),
        }
    }
}

/// The measure that the agent reports for every run of the benchmark.
pub open spec fn reported_measure() -> Seq<char> {
    "45.6"@
}

/// The agent's answer to the request `msg`: a start request (`start_bench`)
/// is answered with the measure; any other request gets no answer.
pub fn reply_to(msg: &str) -> (r: Option<String>)
    ensures
        msg@ == "start_bench"@ ==> (r matches Some(s) && s@ == reported_measure()),
        msg@ != "start_bench"@ ==> r is None,
{
    if crate::text::str_eq(msg, "start_bench") {
        Some("45.6".to_owned())
    } else {
        None
    }
}

} // verus!
