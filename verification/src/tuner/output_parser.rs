use vstd::prelude::*;
use crate::agent_bench::BenchmarkName;
use crate::text::{split_whitespace, split_ws, views};

verus! {

/// The position of the last token equal to `kw`; 0 when there is none.
pub open spec fn keyword_base(toks: Seq<Seq<char>>, kw: Seq<char>) -> nat
    decreases toks.len(),
{
    if toks.len() == 0 {
        0
    } else if toks.last() == kw {
        (toks.len() - 1) as nat
    } else {
        keyword_base(toks.drop_last(), kw)
    }
}

/// The token `offset` places after the last occurrence of `kw` among the
/// whitespace-separated tokens of `text` (counted from the first token when
/// `kw` does not occur).
pub open spec fn token_after(text: Seq<char>, kw: Seq<char>, offset: nat) -> Option<Seq<char>> {
    let toks = split_ws(text);
    let i = keyword_base(toks, kw) + offset;
    if i < toks.len() {
        Some(toks[i as int])
    } else {
        None
    }
}

/// Reads the measurement of a benchmark from its output.
#[derive(Debug, Clone, Copy)]
pub struct Parser {
    pub benchmark_name: BenchmarkName,
}

impl Parser {
    /// The marker that precedes the measurement in the output, and how many
    /// tokens after it the measurement stands.
    pub open spec fn marker(self) -> (Seq<char>, nat) {
        match self.benchmark_name {
            BenchmarkName::Ycsb => ("Throughput(ops/sec),"@, 1),
            BenchmarkName::Wrk => ("Requests/sec:"@, 1),
            BenchmarkName::Memaslap => ("TPS:"@, 1),
        }
    }

    /// The text of the measurement in the benchmark's output `output`.
    pub fn parse(&self, output: &str) -> (r: Option<String>)
        ensures
            match r {
                Some(t) => token_after(output@, self.marker().0, self.marker().1) == Some(t@),
                None => token_after(output@, self.marker().0, self.marker().1) is None,
            },
    {
        match self.benchmark_name {
            BenchmarkName::Ycsb => Self::parse_ycsb(output),
            BenchmarkName::Wrk => Self::parse_wrk(output),
            BenchmarkName::Memaslap => Self::parse_memaslap(output),
        }
    }

    fn parse_ycsb(output: &str) -> (r: Option<String>)
        ensures
            match r {
                Some(t) => token_after(output@, "Throughput(ops/sec),"@, 1) == Some(t@),
                None => token_after(output@, "Throughput(ops/sec),"@, 1) is None,
            },
    {
        token_after_marker(output, "Throughput(ops/sec),", 1)
    }

    fn parse_wrk(output: &str) -> (r: Option<String>)
        ensures
            match r {
                Some(t) => token_after(output@, "Requests/sec:"@, 1) == Some(t@),
                None => token_after(output@, "Requests/sec:"@, 1) is None,
            },
    {
        token_after_marker(output, "Requests/sec:", 1)
    }

    fn parse_memaslap(output: &str) -> (r: Option<String>)
        ensures
            match r {
                Some(t) => token_after(output@, "TPS:"@, 1) == Some(t@),
                None => token_after(output@, "TPS:"@, 1) is None,
            },
    {
        token_after_marker(output, "TPS:", 1)
    }
}

/// The token `offset` places after the last occurrence of `marker`.
pub fn token_after_marker(output: &str, marker: &str, offset: usize) -> (r: Option<String>)
    ensures
        match r {
            Some(t) => token_after(output@, marker@, offset as nat) == Some(t@),
            None => token_after(output@, marker@, offset as nat) is None,
        },
{
    let toks = split_whitespace(output);
    let ghost ts = views(toks@);
    let mut base: usize = 0;
    let mut index: usize = 0;
    assert(ts.take(0) =~= Seq::<Seq<char>>::empty());
    while index < toks.len()
        invariant
            ts == views(toks@),
            ts.len() == toks@.len(),
            index <= toks@.len(),
            base == keyword_base(ts.take(index as int), marker@),
            base <= index,
        decreases toks@.len() - index,
    {
        assert(ts.take(index + 1).drop_last() =~= ts.take(index as int));
        assert(ts.take(index + 1).last() == toks@[index as int]@);
        if crate::text::str_eq(toks[index].as_str(), marker) {
            base = index;
        }
        index = index + 1;
    }
    assert(ts.take(toks@.len() as int) =~= ts);
    if offset < toks.len() && base < toks.len() - offset {
        Some(toks[base + offset].clone())
    } else {
        None
    }
}

} // verus!
