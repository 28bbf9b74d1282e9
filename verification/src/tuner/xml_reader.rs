use vstd::prelude::*;
use crate::keyed::KeyedVec;
use crate::text::{parse_decimal, parse_unsigned, str_eq, usize_to_string, decimal, decimals_below, lemma_decimals_below};
use crate::xml_events::{XmlEvent, parse_xml_events, xml_events_of};
use super::shared::{Process2Spawn, Process2SpawnView, Parameter, ParameterView, ProcessPool};
use super::{ExecutionType, EnergyType, CoolingSchedule, ProblemType, SolverVersion};

verus! {

/// The configuration entries that the reader interprets.
#[derive(Debug, Clone, Copy)]
pub enum Field {
    Execution,
    Host,
    User,
    Bin,
    Path,
    Args,
    Address,
    Port,
    Name,
    Minimum,
    Maximum,
    Step,
    Default,
    Version,
    Workers,
    MaxStep,
    NumIter,
    Energy,
    Cooling,
    Problem,
}

impl Field {
    /// The element name under which the entry is written.
    pub open spec fn key(self) -> Seq<char> {
        match self {
            Field::Execution => "execution"@,
            Field::Host => "host"@,
            Field::User => "user"@,
            Field::Bin => "bin"@,
            Field::Path => "path"@,
            Field::Args => "args"@,
            Field::Address => "address"@,
            Field::Port => "port"@,
            Field::Name => "name"@,
            Field::Minimum => "minimum"@,
            Field::Maximum => "maximum"@,
            Field::Step => "step"@,
            Field::Default => "default"@,
            Field::Version => "version"@,
            Field::Workers => "workers"@,
            Field::MaxStep => "max_step"@,
            Field::NumIter => "num_iter"@,
            Field::Energy => "energy"@,
            Field::Cooling => "cooling"@,
            Field::Problem => "problem"@,
        }
    }

    pub fn key_str(&self) -> (r: &'static str)
        ensures
            r@ == self.key(),
    {
        match self {
            Field::Execution => "execution",
            Field::Host => "host",
            Field::User => "user",
            Field::Bin => "bin",
            Field::Path => "path",
            Field::Args => "args",
            Field::Address => "address",
            Field::Port => "port",
            Field::Name => "name",
            Field::Minimum => "minimum",
            Field::Maximum => "maximum",
            Field::Step => "step",
            Field::Default => "default",
            Field::Version => "version",
            Field::Workers => "workers",
            Field::MaxStep => "max_step",
            Field::NumIter => "num_iter",
            Field::Energy => "energy",
            Field::Cooling => "cooling",
            Field::Problem => "problem",
        }
    }
}

/// Why a configuration document cannot be read.
#[derive(Debug, Clone, Copy)]
pub enum ConfigError {
    /// A required entry is absent.
    Missing(Field),
    /// An entry does not hold a value of its kind.
    Invalid(Field),
    /// Fewer processes than workers are described, and none to copy.
    NoProcessToCopy,
    /// More processes than workers are described.
    MoreProcessesThanWorkers,
}

pub open spec fn strings_view(m: Map<Seq<char>, String>) -> Map<Seq<char>, Seq<char>> {
    m.map_values(|s: String| s@)
}

/// The state of the reader after a prefix of the events: the section that is
/// open, the last element started, the entries read in each section, the
/// processes and parameters completed so far.
pub struct Scan {
    pub found_targ: bool,
    pub found_bench: bool,
    pub found_ann: bool,
    pub found_muslp: bool,
    pub tag: Seq<char>,
    pub ann: Map<Seq<char>, Seq<char>>,
    pub targ_x: Map<Seq<char>, Seq<char>>,
    pub bench_x: Map<Seq<char>, Seq<char>>,
    pub musl_x: Map<Seq<char>, Seq<char>>,
    pub targets: Map<Seq<char>, Process2SpawnView>,
    pub benchs: Map<Seq<char>, Process2SpawnView>,
    pub musl: Seq<ParameterView>,
    pub index_targs: nat,
    pub index_bench: nat,
    pub stopped: bool,
}

pub open spec fn initial_scan() -> Scan {
    Scan {
        found_targ: false,
        found_bench: false,
        found_ann: false,
        found_muslp: false,
        tag: seq![],
        ann: Map::empty(),
        targ_x: Map::empty(),
        bench_x: Map::empty(),
        musl_x: Map::empty(),
        targets: Map::empty(),
        benchs: Map::empty(),
        musl: seq![],
        index_targs: 0,
        index_bench: 0,
        stopped: false,
    }
}

/// An element starts: it becomes the current tag, and a section element
/// opens its section (closing the others).
pub open spec fn scan_start(sc: Scan, name: Seq<char>) -> Scan {
    let sc = Scan { tag: name, ..sc };
    if name == "bench"@ {
        Scan { found_ann: false, found_bench: true, found_targ: false, found_muslp: false, ..sc }
    } else if name == "target"@ {
        Scan { found_ann: false, found_bench: false, found_targ: true, found_muslp: false, ..sc }
    } else if name == "annealing"@ {
        Scan { found_ann: true, found_bench: false, found_targ: false, found_muslp: false, ..sc }
    } else if name == "musl-params"@ {
        Scan { found_ann: false, found_bench: false, found_targ: false, found_muslp: true, ..sc }
    } else {
        sc
    }
}

/// Text is recorded under the current tag in the open section.
pub open spec fn scan_chars(sc: Scan, val: Seq<char>) -> Scan {
    if sc.found_bench {
        Scan { bench_x: sc.bench_x.insert(sc.tag, val), ..sc }
    } else if sc.found_targ {
        Scan { targ_x: sc.targ_x.insert(sc.tag, val), ..sc }
    } else if sc.found_ann {
        Scan { ann: sc.ann.insert(sc.tag, val), ..sc }
    } else if sc.found_muslp {
        Scan { musl_x: sc.musl_x.insert(sc.tag, val), ..sc }
    } else {
        sc
    }
}

pub open spec fn usize_field(x: Map<Seq<char>, Seq<char>>, f: Field) -> Result<usize, ConfigError> {
    if !x.contains_key(f.key()) {
        Err(ConfigError::Missing(f))
    } else {
        match parse_unsigned(x[f.key()], usize::MAX as nat) {
            Some(n) => Ok(n as usize),
            None => Err(ConfigError::Invalid(f)),
        }
    }
}

/// The process described by the entries `x`.
pub open spec fn process_from(x: Map<Seq<char>, Seq<char>>) -> Result<
    Process2SpawnView,
    ConfigError,
> {
    if !x.contains_key(Field::Execution.key()) {
        Err(ConfigError::Missing(Field::Execution))
    } else if ExecutionType::spec_from_name(x[Field::Execution.key()]) is None {
        Err(ConfigError::Invalid(Field::Execution))
    } else {
        let et = ExecutionType::spec_from_name(x[Field::Execution.key()])->0;
        let remote = et is remote;
        if remote && !x.contains_key(Field::Host.key()) {
            Err(ConfigError::Missing(Field::Host))
        } else if remote && !x.contains_key(Field::User.key()) {
            Err(ConfigError::Missing(Field::User))
        } else if !x.contains_key(Field::Bin.key()) {
            Err(ConfigError::Missing(Field::Bin))
        } else if !x.contains_key(Field::Path.key()) {
            Err(ConfigError::Missing(Field::Path))
        } else if !x.contains_key(Field::Args.key()) {
            Err(ConfigError::Missing(Field::Args))
        } else if !x.contains_key(Field::Address.key()) {
            Err(ConfigError::Missing(Field::Address))
        } else if !x.contains_key(Field::Port.key()) {
            Err(ConfigError::Missing(Field::Port))
        } else {
            Ok(
                Process2SpawnView {
                    execution_type: et,
                    host: if remote {
                        x[Field::Host.key()]
                    } else {
                        seq![]
                    },
                    user: if remote {
                        x[Field::User.key()]
                    } else {
                        seq![]
                    },
                    bin: x[Field::Bin.key()],
                    path: x[Field::Path.key()],
                    args: x[Field::Args.key()],
                    address: x[Field::Address.key()],
                    port: x[Field::Port.key()],
                },
            )
        }
    }
}

/// The parameter described by the entries `x`.
pub open spec fn parameter_from(x: Map<Seq<char>, Seq<char>>) -> Result<ParameterView, ConfigError> {
    if !x.contains_key(Field::Name.key()) {
        Err(ConfigError::Missing(Field::Name))
    } else {
        match usize_field(x, Field::Minimum) {
            Err(e) => Err(e),
            Ok(mn) => match usize_field(x, Field::Maximum) {
                Err(e) => Err(e),
                Ok(mx) => match usize_field(x, Field::Step) {
                    Err(e) => Err(e),
                    Ok(st) => match usize_field(x, Field::Default) {
                        Err(e) => Err(e),
                        Ok(df) => Ok(
                            ParameterView {
                                name: x[Field::Name.key()],
                                min: mn,
                                max: mx,
                                step: st,
                                default: df,
                            },
                        ),
                    },
                },
            },
        }
    }
}

/// Closing a section element closes the section.
pub open spec fn scan_end_flags(sc: Scan, name: Seq<char>) -> Scan {
    if name == "bench"@ {
        Scan { found_bench: false, ..sc }
    } else if name == "target"@ {
        Scan { found_targ: false, ..sc }
    } else if name == "musl-params"@ {
        Scan { found_muslp: false, ..sc }
    } else {
        sc
    }
}

/// Closing an element other than the current tag inside the benchmarks
/// section completes a benchmark, recorded under the next index.
pub open spec fn scan_end_bench(sc: Scan, name: Seq<char>) -> Result<Scan, ConfigError> {
    if sc.found_bench && name != sc.tag {
        match process_from(sc.bench_x) {
            Ok(p) => Ok(
                Scan {
                    benchs: sc.benchs.insert(decimal(sc.index_bench), p),
                    index_bench: sc.index_bench + 1,
                    ..sc
                },
            ),
            Err(e) => Err(e),
        }
    } else {
        Ok(sc)
    }
}

/// The same for targets.
pub open spec fn scan_end_targ(sc: Scan, name: Seq<char>) -> Result<Scan, ConfigError> {
    if sc.found_targ && name != sc.tag {
        match process_from(sc.targ_x) {
            Ok(p) => Ok(
                Scan {
                    targets: sc.targets.insert(decimal(sc.index_targs), p),
                    index_targs: sc.index_targs + 1,
                    ..sc
                },
            ),
            Err(e) => Err(e),
        }
    } else {
        Ok(sc)
    }
}

/// The same for the parameters to tune.
pub open spec fn scan_end_musl(sc: Scan, name: Seq<char>) -> Result<Scan, ConfigError> {
    if sc.found_muslp && name != sc.tag {
        match parameter_from(sc.musl_x) {
            Ok(p) => Ok(Scan { musl: sc.musl.push(p), ..sc }),
            Err(e) => Err(e),
        }
    } else {
        Ok(sc)
    }
}

pub open spec fn scan_end(sc: Scan, name: Seq<char>) -> Result<Scan, ConfigError> {
    match scan_end_bench(scan_end_flags(sc, name), name) {
        Err(e) => Err(e),
        Ok(sc2) => match scan_end_targ(sc2, name) {
            Err(e) => Err(e),
            Ok(sc3) => scan_end_musl(sc3, name),
        },
    }
}

/// One event; after a parser failure the remaining events are ignored.
pub open spec fn scan_step(sc: Scan, ev: XmlEvent) -> Result<Scan, ConfigError> {
    if sc.stopped {
        Ok(sc)
    } else {
        match ev {
            XmlEvent::StartElement(n) => Ok(scan_start(sc, n@)),
            XmlEvent::Characters(v) => Ok(scan_chars(sc, v@)),
            XmlEvent::EndElement(n) => scan_end(sc, n@),
            XmlEvent::Failure => Ok(Scan { stopped: true, ..sc }),
            XmlEvent::Other => Ok(sc),
        }
    }
}

pub open spec fn scan(evs: Seq<XmlEvent>) -> Result<Scan, ConfigError>
    decreases evs.len(),
{
    if evs.len() == 0 {
        Ok(initial_scan())
    } else {
        match scan(evs.drop_last()) {
            Ok(sc) => scan_step(sc, evs.last()),
            Err(e) => Err(e),
        }
    }
}

/// `pool` completed with copies of the process under "0" up to `workers`
/// processes, under the next indices.
pub open spec fn padded(pool: Map<Seq<char>, Process2SpawnView>, size: nat, workers: nat) -> Result<
    Map<Seq<char>, Process2SpawnView>,
    ConfigError,
> {
    if size == workers {
        Ok(pool)
    } else if size > workers {
        Err(ConfigError::MoreProcessesThanWorkers)
    } else if !pool.contains_key(decimal(0)) {
        Err(ConfigError::NoProcessToCopy)
    } else {
        Ok(
            Map::new(
                |k: Seq<char>| pool.contains_key(k) || decimals_below(workers).contains(k),
                |k: Seq<char>|
                    if pool.contains_key(k) {
                        pool[k]
                    } else {
                        pool[decimal(0)]
                    },
            ),
        )
    }
}

/// What a configuration reader holds.
pub struct XMLReaderView {
    pub targets: Map<Seq<char>, Process2SpawnView>,
    pub benchs: Map<Seq<char>, Process2SpawnView>,
    pub ann: Map<Seq<char>, Seq<char>>,
    pub musl: Seq<ParameterView>,
}

/// The reader that the events `evs` describe: unless the solver version is
/// "seqsea", each pool holds as many processes as there are workers.
pub open spec fn reader_of(evs: Seq<XmlEvent>) -> Result<XMLReaderView, ConfigError> {
    match scan(evs) {
        Err(e) => Err(e),
        Ok(sc) => if !sc.ann.contains_key(Field::Version.key()) {
            Err(ConfigError::Missing(Field::Version))
        } else if sc.ann[Field::Version.key()] == "seqsea"@ {
            Ok(XMLReaderView { targets: sc.targets, benchs: sc.benchs, ann: sc.ann, musl: sc.musl })
        } else {
            match usize_field(sc.ann, Field::Workers) {
                Err(e) => Err(e),
                Ok(w) => match padded(sc.targets, sc.index_targs, w as nat) {
                    Err(e) => Err(e),
                    Ok(t) => match padded(sc.benchs, sc.index_bench, w as nat) {
                        Err(e) => Err(e),
                        Ok(b) => Ok(XMLReaderView { targets: t, benchs: b, ann: sc.ann, musl: sc.musl }),
                    },
                },
            }
        },
    }
}

pub open spec fn params_view(v: Seq<Parameter>) -> Seq<ParameterView> {
    v.map_values(|p: Parameter| p@)
}

struct ScanState {
    found_targ: bool,
    found_bench: bool,
    found_ann: bool,
    found_muslp: bool,
    tag: String,
    ann: KeyedVec<String>,
    targ_x: KeyedVec<String>,
    bench_x: KeyedVec<String>,
    musl_x: KeyedVec<String>,
    targets: ProcessPool,
    benchs: ProcessPool,
    musl: Vec<Parameter>,
    index_targs: usize,
    index_bench: usize,
    stopped: bool,
}

impl ScanState {
    spec fn model(&self) -> Scan {
        Scan {
            found_targ: self.found_targ,
            found_bench: self.found_bench,
            found_ann: self.found_ann,
            found_muslp: self.found_muslp,
            tag: self.tag@,
            ann: strings_view(self.ann@),
            targ_x: strings_view(self.targ_x@),
            bench_x: strings_view(self.bench_x@),
            musl_x: strings_view(self.musl_x@),
            targets: self.targets@,
            benchs: self.benchs@,
            musl: params_view(self.musl@),
            index_targs: self.index_targs as nat,
            index_bench: self.index_bench as nat,
            stopped: self.stopped,
        }
    }

    spec fn pools_indexed(&self) -> bool {
        &&& self.targets@.dom() == decimals_below(self.index_targs as nat)
        &&& self.benchs@.dom() == decimals_below(self.index_bench as nat)
    }
}

fn field_text(x: &KeyedVec<String>, f: Field) -> (r: Option<String>)
    ensures
        match r {
            Some(v) => strings_view(x@).contains_key(f.key()) && v@ == strings_view(x@)[f.key()],
            None => !strings_view(x@).contains_key(f.key()),
        },
{
    match x.get(f.key_str()) {
        Some(v) => Some(v.clone()),
        None => None,
    }
}

fn field_usize(x: &KeyedVec<String>, f: Field) -> (r: Result<usize, ConfigError>)
    ensures
        r == usize_field(strings_view(x@), f),
{
    match x.get(f.key_str()) {
        None => Err(ConfigError::Missing(f)),
        Some(v) => match parse_decimal(v.as_str(), usize::MAX as u64) {
            Some(n) => Ok(n as usize),
            None => Err(ConfigError::Invalid(f)),
        },
    }
}

fn build_process(x: &KeyedVec<String>) -> (r: Result<Process2Spawn, ConfigError>)
    ensures
        match r {
            Ok(p) => process_from(strings_view(x@)) == Ok::<Process2SpawnView, ConfigError>(p@),
            Err(e) => process_from(strings_view(x@)) == Err::<Process2SpawnView, ConfigError>(e),
        },
{
    let ex = match field_text(x, Field::Execution) {
        Some(v) => v,
        None => return Err(ConfigError::Missing(Field::Execution)),
    };
    let et = match ExecutionType::from_name(ex.as_str()) {
        Some(et) => et,
        None => return Err(ConfigError::Invalid(Field::Execution)),
    };
    let (host, user) = match et {
        ExecutionType::local => (String::new(), String::new()),
        ExecutionType::remote => {
            let h = match field_text(x, Field::Host) {
                Some(v) => v,
                None => return Err(ConfigError::Missing(Field::Host)),
            };
            let u = match field_text(x, Field::User) {
                Some(v) => v,
                None => return Err(ConfigError::Missing(Field::User)),
            };
            (h, u)
        },
    };
    let bin = match field_text(x, Field::Bin) {
        Some(v) => v,
        None => return Err(ConfigError::Missing(Field::Bin)),
    };
    let path = match field_text(x, Field::Path) {
        Some(v) => v,
        None => return Err(ConfigError::Missing(Field::Path)),
    };
    let args = match field_text(x, Field::Args) {
        Some(v) => v,
        None => return Err(ConfigError::Missing(Field::Args)),
    };
    let address = match field_text(x, Field::Address) {
        Some(v) => v,
        None => return Err(ConfigError::Missing(Field::Address)),
    };
    let port = match field_text(x, Field::Port) {
        Some(v) => v,
        None => return Err(ConfigError::Missing(Field::Port)),
    };
    let p = Process2Spawn {
        execution_type: et,
        host: host,
        user: user,
        bin: bin,
        path: path,
        args: args,
        address: address,
        port: port,
    };
    Ok(p)
}

fn build_parameter(x: &KeyedVec<String>) -> (r: Result<Parameter, ConfigError>)
    ensures
        match r {
            Ok(p) => parameter_from(strings_view(x@)) == Ok::<ParameterView, ConfigError>(p@),
            Err(e) => parameter_from(strings_view(x@)) == Err::<ParameterView, ConfigError>(e),
        },
{
    let name = match field_text(x, Field::Name) {
        Some(v) => v,
        None => return Err(ConfigError::Missing(Field::Name)),
    };
    let min = field_usize(x, Field::Minimum)?;
    let max = field_usize(x, Field::Maximum)?;
    let step = field_usize(x, Field::Step)?;
    let default = field_usize(x, Field::Default)?;
    Ok(Parameter { name, min, max, step, default })
}


proof fn lemma_scan_err_extends(evs: Seq<XmlEvent>, k: int)
    requires
        0 <= k <= evs.len(),
        scan(evs.take(k)) is Err,
    ensures
        scan(evs) == scan(evs.take(k)),
    decreases evs.len() - k,
{
    if k < evs.len() {
        assert(evs.take(k + 1).drop_last() =~= evs.take(k));
        lemma_scan_err_extends(evs, k + 1);
    } else {
        assert(evs.take(k) =~= evs);
    }
}

proof fn lemma_strings_insert(m: Map<Seq<char>, String>, k: Seq<char>, v: String)
    ensures
        strings_view(m.insert(k, v)) == strings_view(m).insert(k, v@),
{
    assert(strings_view(m.insert(k, v)) =~= strings_view(m).insert(k, v@));
}

fn start_element(st: &mut ScanState, name: String)
    ensures
        final(st).model() == scan_start(old(st).model(), name@),
        final(st).targets@ == old(st).targets@,
        final(st).benchs@ == old(st).benchs@,
        final(st).index_targs == old(st).index_targs,
        final(st).index_bench == old(st).index_bench,
{
    let is_bench = str_eq(name.as_str(), "bench");
    let is_targ = str_eq(name.as_str(), "target");
    let is_ann = str_eq(name.as_str(), "annealing");
    let is_musl = str_eq(name.as_str(), "musl-params");
    st.tag = name;
    if is_bench {
        st.found_ann = false;
        st.found_bench = true;
        st.found_targ = false;
        st.found_muslp = false;
    } else if is_targ {
        st.found_ann = false;
        st.found_bench = false;
        st.found_targ = true;
        st.found_muslp = false;
    } else if is_ann {
        st.found_ann = true;
        st.found_bench = false;
        st.found_targ = false;
        st.found_muslp = false;
    } else if is_musl {
        st.found_ann = false;
        st.found_bench = false;
        st.found_targ = false;
        st.found_muslp = true;
    }
}

fn characters(st: &mut ScanState, val: String)
    ensures
        final(st).model() == scan_chars(old(st).model(), val@),
        final(st).targets@ == old(st).targets@,
        final(st).benchs@ == old(st).benchs@,
        final(st).index_targs == old(st).index_targs,
        final(st).index_bench == old(st).index_bench,
{
    let key = st.tag.clone();
    proof {
        lemma_strings_insert(st.bench_x@, key@, val);
        lemma_strings_insert(st.targ_x@, key@, val);
        lemma_strings_insert(st.ann@, key@, val);
        lemma_strings_insert(st.musl_x@, key@, val);
    }
    if st.found_bench {
        st.bench_x.insert(key, val);
    } else if st.found_targ {
        st.targ_x.insert(key, val);
    } else if st.found_ann {
        st.ann.insert(key, val);
    } else if st.found_muslp {
        st.musl_x.insert(key, val);
    }
}

fn end_element(st: &mut ScanState, name: &String) -> (r: Result<(), ConfigError>)
    requires
        old(st).pools_indexed(),
        old(st).index_targs < usize::MAX,
        old(st).index_bench < usize::MAX,
    ensures
        match r {
            Ok(_) => {
                &&& scan_end(old(st).model(), name@) == Ok::<Scan, ConfigError>(final(st).model())
                &&& final(st).pools_indexed()
                &&& final(st).index_targs <= old(st).index_targs + 1
                &&& final(st).index_bench <= old(st).index_bench + 1
            },
            Err(e) => scan_end(old(st).model(), name@) == Err::<Scan, ConfigError>(e),
        },
{
    if str_eq(name.as_str(), "bench") {
        st.found_bench = false;
    } else if str_eq(name.as_str(), "target") {
        st.found_targ = false;
    } else if str_eq(name.as_str(), "musl-params") {
        st.found_muslp = false;
    }
    let ghost sc1 = st.model();
    assert(sc1 == scan_end_flags(old(st).model(), name@));
    let differs = !(*name == st.tag);
    if st.found_bench && differs {
        let p = build_process(&st.bench_x)?;
        let id = usize_to_string(st.index_bench);
        proof {
            lemma_decimals_below(st.index_bench as nat);
        }
        st.benchs.push(p, id);
        st.index_bench = st.index_bench + 1;
    }
    let ghost sc2 = st.model();
    assert(scan_end_bench(sc1, name@) == Ok::<Scan, ConfigError>(sc2));
    if st.found_targ && differs {
        let p = build_process(&st.targ_x)?;
        let id = usize_to_string(st.index_targs);
        proof {
            lemma_decimals_below(st.index_targs as nat);
        }
        st.targets.push(p, id);
        st.index_targs = st.index_targs + 1;
    }
    let ghost sc3 = st.model();
    assert(scan_end_targ(sc2, name@) == Ok::<Scan, ConfigError>(sc3));
    if st.found_muslp && differs {
        let p = build_parameter(&st.musl_x)?;
        st.musl.push(p);
        assert(params_view(st.musl@) =~= sc3.musl.push(p@));
    }
    Ok(())
}

/// Completes `pool` with copies of the process under "0" until it holds
/// `workers` processes.
fn pad_pool(pool: &mut ProcessPool, size: usize, workers: usize) -> (r: Result<(), ConfigError>)
    requires
        old(pool)@.dom() == decimals_below(size as nat),
    ensures
        match r {
            Ok(_) => padded(old(pool)@, size as nat, workers as nat) == Ok::<
                Map<Seq<char>, Process2SpawnView>,
                ConfigError,
            >(final(pool)@),
            Err(e) => padded(old(pool)@, size as nat, workers as nat) == Err::<
                Map<Seq<char>, Process2SpawnView>,
                ConfigError,
            >(e),
        },
{
    if size == workers {
        return Ok(());
    }
    if size > workers {
        return Err(ConfigError::MoreProcessesThanWorkers);
    }
    let first = match pool.get("0") {
        Some(p) => p,
        None => {
            proof {
                reveal_strlit("0");
                assert("0"@ =~= decimal(0));
            }
            return Err(ConfigError::NoProcessToCopy);
        },
    };
    proof {
        reveal_strlit("0");
        assert("0"@ =~= decimal(0));
    }
    let ghost orig = pool@;
    let mut n = size;
    while n < workers
        invariant
            size <= n <= workers,
            orig.dom() == decimals_below(size as nat),
            orig.contains_key(decimal(0)),
            first@ == orig[decimal(0)],
            pool@.dom() == decimals_below(n as nat),
            pool@ == Map::new(
                |k: Seq<char>| orig.contains_key(k) || decimals_below(n as nat).contains(k),
                |k: Seq<char>|
                    if orig.contains_key(k) {
                        orig[k]
                    } else {
                        orig[decimal(0)]
                    },
            ),
        decreases workers - n,
    {
        let id = usize_to_string(n);
        proof {
            lemma_decimals_below(n as nat);
        }
        pool.push(first.clone(), id);
        n = n + 1;
        proof {
            assert(pool@ =~= Map::new(
                |k: Seq<char>| orig.contains_key(k) || decimals_below(n as nat).contains(k),
                |k: Seq<char>|
                    if orig.contains_key(k) {
                        orig[k]
                    } else {
                        orig[decimal(0)]
                    },
            ));
        }
    }
    Ok(())
}

/// The configuration of the tuner: the target and benchmark processes, the
/// annealing parameters and the parameters to tune.
pub struct XMLReader {
    targets_collection: ProcessPool,
    benchs_collection: ProcessPool,
    ann_params: KeyedVec<String>,
    musl_params: Vec<Parameter>,
}

impl View for XMLReader {
    type V = XMLReaderView;

    closed spec fn view(&self) -> XMLReaderView {
        XMLReaderView {
            targets: self.targets_collection@,
            benchs: self.benchs_collection@,
            ann: strings_view(self.ann_params@),
            musl: params_view(self.musl_params@),
        }
    }
}

impl XMLReader {
    /// Reads the configuration document `doc`.
    pub fn new(doc: &[u8]) -> (r: Result<XMLReader, ConfigError>)
        ensures
            match r {
                Ok(x) => reader_of(xml_events_of(doc@)) == Ok::<XMLReaderView, ConfigError>(x@),
                Err(e) => reader_of(xml_events_of(doc@)) == Err::<XMLReaderView, ConfigError>(e),
            },
    {
        let events = parse_xml_events(doc);
        Self::from_events(events)
    }

    /// Reads a configuration from the events of its XML document.
    pub fn from_events(events: Vec<XmlEvent>) -> (r: Result<XMLReader, ConfigError>)
        ensures
            match r {
                Ok(x) => reader_of(events@) == Ok::<XMLReaderView, ConfigError>(x@),
                Err(e) => reader_of(events@) == Err::<XMLReaderView, ConfigError>(e),
            },
    {
        let mut st = ScanState {
            found_targ: false,
            found_bench: false,
            found_ann: false,
            found_muslp: false,
            tag: String::new(),
            ann: KeyedVec::new(),
            targ_x: KeyedVec::new(),
            bench_x: KeyedVec::new(),
            musl_x: KeyedVec::new(),
            targets: ProcessPool::new(),
            benchs: ProcessPool::new(),
            musl: Vec::new(),
            index_targs: 0,
            index_bench: 0,
            stopped: false,
        };
        proof {
            assert(strings_view(Map::<Seq<char>, String>::empty()) =~= Map::empty());
            assert(params_view(Seq::<Parameter>::empty()) =~= seq![]);
            assert(decimals_below(0) =~= Set::empty());
            assert(st.model() == initial_scan());
            assert(events@.take(0) =~= Seq::<XmlEvent>::empty());
        }
        let n = events.len();
        let ghost evs = events@;
        let mut queue = events;
        let mut rest: Vec<XmlEvent> = Vec::new();
        // Events are consumed from the front; reverse so that `pop` yields them in order.
        while queue.len() > 0
            invariant
                evs.len() == n,
                queue@.len() + rest@.len() == n,
                forall|j: int| 0 <= j < queue@.len() ==> queue@[j] == evs[j],
                forall|j: int| 0 <= j < rest@.len() ==> rest@[j] == evs[n - 1 - j],
            decreases queue@.len(),
        {
            let e = queue.pop().unwrap();
            rest.push(e);
        }
        let mut i: usize = 0;
        while i < n
            invariant
                i <= n,
                evs == events@,
                evs.len() == n,
                rest@.len() == n - i,
                forall|j: int| 0 <= j < rest@.len() ==> rest@[j] == evs[n - 1 - j],
                scan(evs.take(i as int)) == Ok::<Scan, ConfigError>(st.model()),
                st.pools_indexed(),
                st.index_targs <= i,
                st.index_bench <= i,
            decreases n - i,
        {
            let e = rest.pop().unwrap();
            assert(e == evs[i as int]);
            assert(evs.take(i + 1).drop_last() =~= evs.take(i as int));
            if !st.stopped {
                match e {
                    XmlEvent::StartElement(name) => start_element(&mut st, name),
                    XmlEvent::Characters(val) => characters(&mut st, val),
                    XmlEvent::EndElement(name) => {
                        let r = end_element(&mut st, &name);
                        if let Err(err) = r {
                            proof {
                                assert(evs[i as int] == XmlEvent::EndElement(name));
                                assert(scan(evs.take(i + 1)) == Err::<Scan, ConfigError>(err));
                                lemma_scan_err_extends(evs, i + 1);
                                assert(scan(evs) == Err::<Scan, ConfigError>(err));
                                assert(reader_of(evs) == Err::<XMLReaderView, ConfigError>(err));
                            }
                            return Err(err);
                        }
                    },
                    XmlEvent::Failure => {
                        st.stopped = true;
                    },
                    XmlEvent::Other => {},
                }
            }
            i = i + 1;
        }
        assert(evs.take(n as int) =~= evs);
        let version = match st.ann.get(Field::Version.key_str()) {
            Some(v) => v,
            None => return Err(ConfigError::Missing(Field::Version)),
        };
        if !str_eq(version.as_str(), "seqsea") {
            let workers = field_usize(&st.ann, Field::Workers)?;
            let nt = st.index_targs;
            pad_pool(&mut st.targets, nt, workers)?;
            let nb = st.index_bench;
            pad_pool(&mut st.benchs, nb, workers)?;
        }
        let r = XMLReader {
            targets_collection: st.targets,
            benchs_collection: st.benchs,
            ann_params: st.ann,
            musl_params: st.musl,
        };
        Ok(r)
    }
}


impl XMLReader {
    /// The annealing entry `key`, as written.
    pub fn ann_param(&self, key: &str) -> (r: Option<&String>)
        ensures
            match r {
                Some(v) => self@.ann.contains_key(key@) && v@ == self@.ann[key@],
                None => !self@.ann.contains_key(key@),
            },
    {
        self.ann_params.get(key)
    }

    /// The annealing entry `f` as an unsigned integer.
    pub fn ann_usize(&self, f: Field) -> (r: Result<usize, ConfigError>)
        ensures
            r == usize_field(self@.ann, f),
    {
        field_usize(&self.ann_params, f)
    }

    /// The parameters to tune, in the order of the document.
    pub fn get_musl_params(&self) -> (r: Vec<Parameter>)
        ensures
            params_view(r@) == self@.musl,
    {
        let mut r: Vec<Parameter> = Vec::new();
        let mut i: usize = 0;
        while i < self.musl_params.len()
            invariant
                i <= self.musl_params@.len(),
                params_view(r@) == params_view(self.musl_params@.take(i as int)),
            decreases self.musl_params@.len() - i,
        {
            let p = self.musl_params[i].clone();
            let ghost before = r@;
            r.push(p);
            proof {
                assert(params_view(r@) =~= params_view(before).push(p@));
                assert(self.musl_params@.take(i + 1) =~= self.musl_params@.take(i as int).push(
                    self.musl_params@[i as int],
                ));
                assert(params_view(r@) =~= params_view(self.musl_params@.take(i + 1)));
            }
            i = i + 1;
        }
        assert(self.musl_params@.take(i as int) =~= self.musl_params@);
        r
    }

    /// The target processes by index.
    pub fn get_targs_pool(&self) -> (r: ProcessPool)
        ensures
            r@ == self@.targets,
    {
        self.targets_collection.clone()
    }

    /// The benchmark processes by index.
    pub fn get_bench_pool(&self) -> (r: ProcessPool)
        ensures
            r@ == self@.benchs,
    {
        self.benchs_collection.clone()
    }

    pub fn ann_max_steps(&self) -> (r: usize)
        requires
            usize_field(self@.ann, Field::MaxStep) is Ok,
        ensures
            usize_field(self@.ann, Field::MaxStep) == Ok::<usize, ConfigError>(r),
    {
        match self.ann_usize(Field::MaxStep) {
            Ok(v) => v,
            Err(_) => unreached(),
        }
    }

    pub fn ann_num_iter(&self) -> (r: usize)
        requires
            usize_field(self@.ann, Field::NumIter) is Ok,
        ensures
            usize_field(self@.ann, Field::NumIter) == Ok::<usize, ConfigError>(r),
    {
        match self.ann_usize(Field::NumIter) {
            Ok(v) => v,
            Err(_) => unreached(),
        }
    }

    pub fn ann_workers(&self) -> (r: usize)
        requires
            usize_field(self@.ann, Field::Workers) is Ok,
        ensures
            usize_field(self@.ann, Field::Workers) == Ok::<usize, ConfigError>(r),
    {
        match self.ann_usize(Field::Workers) {
            Ok(v) => v,
            Err(_) => unreached(),
        }
    }

    pub fn ann_energy(&self) -> (r: EnergyType)
        requires
            self@.ann.contains_key(Field::Energy.key()),
            EnergyType::spec_from_name(self@.ann[Field::Energy.key()]) is Some,
        ensures
            EnergyType::spec_from_name(self@.ann[Field::Energy.key()]) == Some(r),
    {
        match self.ann_params.get(Field::Energy.key_str()) {
            Some(v) => match EnergyType::from_name(v.as_str()) {
                Some(e) => e,
                None => unreached(),
            },
            None => unreached(),
        }
    }

    pub fn ann_cooling(&self) -> (r: CoolingSchedule)
        requires
            self@.ann.contains_key(Field::Cooling.key()),
            CoolingSchedule::spec_from_name(self@.ann[Field::Cooling.key()]) is Some,
        ensures
            CoolingSchedule::spec_from_name(self@.ann[Field::Cooling.key()]) == Some(r),
    {
        match self.ann_params.get(Field::Cooling.key_str()) {
            Some(v) => match CoolingSchedule::from_name(v.as_str()) {
                Some(e) => e,
                None => unreached(),
            },
            None => unreached(),
        }
    }

    pub fn ann_problem(&self) -> (r: ProblemType)
        requires
            self@.ann.contains_key(Field::Problem.key()),
            ProblemType::spec_from_name(self@.ann[Field::Problem.key()]) is Some,
        ensures
            ProblemType::spec_from_name(self@.ann[Field::Problem.key()]) == Some(r),
    {
        match self.ann_params.get(Field::Problem.key_str()) {
            Some(v) => match ProblemType::from_name(v.as_str()) {
                Some(e) => e,
                None => unreached(),
            },
            None => unreached(),
        }
    }

    pub fn ann_version(&self) -> (r: SolverVersion)
        requires
            self@.ann.contains_key(Field::Version.key()),
            SolverVersion::spec_from_name(self@.ann[Field::Version.key()]) is Some,
        ensures
            SolverVersion::spec_from_name(self@.ann[Field::Version.key()]) == Some(r),
    {
        match self.ann_params.get(Field::Version.key_str()) {
            Some(v) => match SolverVersion::from_name(v.as_str()) {
                Some(e) => e,
                None => unreached(),
            },
            None => unreached(),
        }
    }
}

/// The processes read so far are numbered from 0 without gaps.
proof fn lemma_scan_numbering(evs: Seq<XmlEvent>)
    ensures
        scan(evs) matches Ok(sc) ==> sc.targets.dom() == decimals_below(sc.index_targs)
            && sc.benchs.dom() == decimals_below(sc.index_bench),
    decreases evs.len(),
{
    if evs.len() == 0 {
        assert(decimals_below(0) =~= Set::<Seq<char>>::empty());
    } else {
        lemma_scan_numbering(evs.drop_last());
        if let Ok(sc) = scan(evs.drop_last()) {
            lemma_decimals_below(sc.index_targs);
            lemma_decimals_below(sc.index_bench);
            if !sc.stopped {
                if let XmlEvent::EndElement(n) = evs.last() {
                    let sc1 = scan_end_flags(sc, n@);
                    if let Ok(sc2) = scan_end_bench(sc1, n@) {
                        lemma_decimals_below(sc2.index_targs);
                        assert(sc2.targets.dom() == decimals_below(sc2.index_targs));
                        assert(sc2.benchs.dom() =~= decimals_below(sc2.index_bench));
                        if let Ok(sc3) = scan_end_targ(sc2, n@) {
                            assert(sc3.targets.dom() =~= decimals_below(sc3.index_targs));
                            assert(sc3.benchs.dom() == decimals_below(sc3.index_bench));
                        }
                    }
                }
            }
        }
    }
}

/// Unless the solver is the sequential one, every worker `0, 1, ...,
/// workers - 1` has a target and a benchmark in the configuration read.
pub proof fn lemma_every_worker_has_processes(evs: Seq<XmlEvent>, i: nat)
    requires
        reader_of(evs) is Ok,
        reader_of(evs)->Ok_0.ann[Field::Version.key()] != "seqsea"@,
        usize_field(reader_of(evs)->Ok_0.ann, Field::Workers) matches Ok(w) && i < w,
    ensures
        reader_of(evs)->Ok_0.targets.contains_key(decimal(i)),
        reader_of(evs)->Ok_0.benchs.contains_key(decimal(i)),
{
    lemma_scan_numbering(evs);
    let sc = scan(evs)->Ok_0;
    let w = usize_field(sc.ann, Field::Workers)->Ok_0;
    assert(decimals_below(w as nat).contains(decimal(i)));
    if sc.index_targs == w as nat {
        assert(padded(sc.targets, sc.index_targs, w as nat) == Ok::<Map<Seq<char>, Process2SpawnView>, ConfigError>(sc.targets));
    }
    if sc.index_bench == w as nat {
        assert(padded(sc.benchs, sc.index_bench, w as nat) == Ok::<Map<Seq<char>, Process2SpawnView>, ConfigError>(sc.benchs));
    }
}


/// A section element: it opens or closes a section of the configuration.
pub open spec fn is_section(n: Seq<char>) -> bool {
    n == "bench"@ || n == "target"@ || n == "annealing"@ || n == "musl-params"@
}

/// `evs` are the events of an element `<m>` whose children are the text
/// elements `<kids[i].0>kids[i].1</kids[i].0>`, in order.
pub open spec fn text_element(evs: Seq<XmlEvent>, m: Seq<char>, kids: Seq<(Seq<char>, Seq<char>)>) -> bool {
    &&& evs.len() == 3 * kids.len() + 2
    &&& evs[0] matches XmlEvent::StartElement(n) && n@ == m
    &&& evs[evs.len() - 1] matches XmlEvent::EndElement(n) && n@ == m
    &&& forall|i: int|
        0 <= i < kids.len() ==> {
            &&& (#[trigger] evs[1 + 3 * i]) matches XmlEvent::StartElement(n) && n@ == kids[i].0
            &&& evs[2 + 3 * i] matches XmlEvent::Characters(v) && v@ == kids[i].1
            &&& evs[3 + 3 * i] matches XmlEvent::EndElement(n) && n@ == kids[i].0
        }
}

/// The text of the last child named `name`, if there is one.
pub open spec fn last_text(kids: Seq<(Seq<char>, Seq<char>)>, name: Seq<char>) -> Option<Seq<char>>
    decreases kids.len(),
{
    if kids.len() == 0 {
        None
    } else if kids.last().0 == name {
        Some(kids.last().1)
    } else {
        last_text(kids.drop_last(), name)
    }
}

/// `x` with the text of each child written under its name, in order.
pub open spec fn with_texts(x: Map<Seq<char>, Seq<char>>, kids: Seq<(Seq<char>, Seq<char>)>) -> Map<Seq<char>, Seq<char>>
    decreases kids.len(),
{
    if kids.len() == 0 {
        x
    } else {
        with_texts(x, kids.drop_last()).insert(kids.last().0, kids.last().1)
    }
}

proof fn lemma_with_texts_last(x: Map<Seq<char>, Seq<char>>, kids: Seq<(Seq<char>, Seq<char>)>, name: Seq<char>)
    ensures
        last_text(kids, name) matches Some(t) ==> with_texts(x, kids).contains_key(name) && with_texts(x, kids)[name] == t,
    decreases kids.len(),
{
    if kids.len() > 0 {
        lemma_with_texts_last(x, kids.drop_last(), name);
    }
}

proof fn lemma_scan_snoc(a: Seq<XmlEvent>, b: Seq<XmlEvent>, n: int)
    requires
        0 <= n < b.len(),
    ensures
        scan(a + b.take(n + 1)) == match scan(a + b.take(n)) {
            Ok(s) => scan_step(s, b[n]),
            Err(e) => Err(e),
        },
{
    assert((a + b.take(n + 1)).drop_last() =~= a + b.take(n));
    assert((a + b.take(n + 1)).last() == b[n]);
}

/// The state inside the element after its first `i` children.
pub open spec fn inside(sc: Scan, m: Seq<char>, kids: Seq<(Seq<char>, Seq<char>)>, i: int) -> Scan {
    Scan { tag: if i == 0 { m } else { kids[i - 1].0 }, targ_x: with_texts(sc.targ_x, kids.take(i)), ..sc }
}

proof fn lemma_children(
    pre: Seq<XmlEvent>,
    elem: Seq<XmlEvent>,
    m: Seq<char>,
    kids: Seq<(Seq<char>, Seq<char>)>,
    i: int,
)
    requires
        scan(pre) matches Ok(sc) && sc.found_targ && !sc.found_bench && !sc.found_muslp && !sc.stopped,
        text_element(elem, m, kids),
        !is_section(m),
        forall|j: int| 0 <= j < kids.len() ==> !is_section(#[trigger] kids[j].0),
        0 <= i <= kids.len(),
    ensures
        scan(pre + elem.take(1 + 3 * i)) == Ok::<Scan, ConfigError>(inside(scan(pre)->Ok_0, m, kids, i)),
    decreases i,
{
    let sc = scan(pre)->Ok_0;
    if i == 0 {
        lemma_scan_snoc(pre, elem, 0);
        assert(pre + elem.take(0) =~= pre);
        assert(kids.take(0) =~= Seq::<(Seq<char>, Seq<char>)>::empty());
        assert(inside(sc, m, kids, 0) == scan_start(sc, m));
    } else {
        let j = i - 1;
        lemma_children(pre, elem, m, kids, j);
        assert(elem[1 + 3 * j] matches XmlEvent::StartElement(n) && n@ == kids[j].0);
        assert(!is_section(kids[j].0));
        let s0 = inside(sc, m, kids, j);
        lemma_scan_snoc(pre, elem, 1 + 3 * j);
        let s1 = Scan { tag: kids[j].0, ..s0 };
        assert(scan(pre + elem.take(2 + 3 * j)) == Ok::<Scan, ConfigError>(s1));
        lemma_scan_snoc(pre, elem, 2 + 3 * j);
        let s2 = Scan { targ_x: s1.targ_x.insert(kids[j].0, kids[j].1), ..s1 };
        assert(scan(pre + elem.take(3 + 3 * j)) == Ok::<Scan, ConfigError>(s2));
        lemma_scan_snoc(pre, elem, 3 + 3 * j);
        assert(scan_end(s2, kids[j].0) == Ok::<Scan, ConfigError>(s2));
        assert(kids.take(i).drop_last() =~= kids.take(j));
        assert(kids.take(i).last() == kids[j]);
        assert(s2 == inside(sc, m, kids, i));
    }
}

/// A process element read in the targets section gives the next target:
/// its address is the text of its last `<address>` child, its port that of
/// its last `<port>` child, and likewise its binary, path and arguments.
pub proof fn lemma_target_from_its_element(
    pre: Seq<XmlEvent>,
    elem: Seq<XmlEvent>,
    m: Seq<char>,
    kids: Seq<(Seq<char>, Seq<char>)>,
)
    requires
        scan(pre) matches Ok(sc) && sc.found_targ && !sc.found_bench && !sc.found_muslp && !sc.stopped,
        text_element(elem, m, kids),
        kids.len() > 0,
        !is_section(m),
        forall|j: int| 0 <= j < kids.len() ==> !is_section(#[trigger] kids[j].0) && kids[j].0 != m,
        scan(pre + elem) is Ok,
    ensures
        ({
            let sc = scan(pre)->Ok_0;
            let sc2 = scan(pre + elem)->Ok_0;
            let p = sc2.targets[decimal(sc.index_targs)];
            &&& sc2.index_targs == sc.index_targs + 1
            &&& sc2.found_targ && !sc2.found_bench && !sc2.found_muslp && !sc2.stopped
            &&& sc2.targets.contains_key(decimal(sc.index_targs))
            &&& (last_text(kids, "address"@) matches Some(t) ==> p.address == t)
            &&& (last_text(kids, "port"@) matches Some(t) ==> p.port == t)
            &&& (last_text(kids, "bin"@) matches Some(t) ==> p.bin == t)
            &&& (last_text(kids, "path"@) matches Some(t) ==> p.path == t)
            &&& (last_text(kids, "args"@) matches Some(t) ==> p.args == t)
            &&& forall|k: Seq<char>| #[trigger] sc.targets.contains_key(k) ==> sc2.targets.contains_key(k) && sc2.targets[k] == sc.targets[k]
        }),
{
    let sc = scan(pre)->Ok_0;
    let n = kids.len() as int;
    lemma_children(pre, elem, m, kids, n);
    let s = inside(sc, m, kids, n);
    assert(elem.take(1 + 3 * n) =~= elem.drop_last());
    lemma_scan_snoc(pre, elem, 1 + 3 * n);
    assert(elem.take(2 + 3 * n) =~= elem);
    assert(elem[1 + 3 * n] matches XmlEvent::EndElement(e) && e@ == m);
    assert(kids[n - 1].0 != m);
    assert(s.tag == kids[n - 1].0);
    assert(kids.take(n) =~= kids);
    let x = with_texts(sc.targ_x, kids);
    assert(s.targ_x == x);
    lemma_with_texts_last(sc.targ_x, kids, "address"@);
    lemma_with_texts_last(sc.targ_x, kids, "port"@);
    lemma_with_texts_last(sc.targ_x, kids, "bin"@);
    lemma_with_texts_last(sc.targ_x, kids, "path"@);
    lemma_with_texts_last(sc.targ_x, kids, "args"@);
    lemma_scan_numbering(pre);
    lemma_decimals_below(sc.index_targs);
    let p = process_from(x)->Ok_0;
    assert(process_from(x) is Ok);
}


proof fn lemma_targets_kept(evs: Seq<XmlEvent>, k: int)
    requires
        0 <= k <= evs.len(),
        scan(evs) is Ok,
    ensures
        scan(evs.take(k)) is Ok,
        forall|key: Seq<char>|
            #[trigger] scan(evs.take(k))->Ok_0.targets.contains_key(key) ==> scan(evs)->Ok_0.targets.contains_key(key)
                && scan(evs)->Ok_0.targets[key] == scan(evs.take(k))->Ok_0.targets[key],
    decreases evs.len() - k,
{
    if scan(evs.take(k)) is Err {
        lemma_scan_err_extends(evs, k);
    }
    if k == evs.len() {
        assert(evs.take(k) =~= evs);
    } else {
        lemma_targets_kept(evs, k + 1);
        let s = scan(evs.take(k))->Ok_0;
        let s2 = scan(evs.take(k + 1))->Ok_0;
        lemma_scan_numbering(evs.take(k));
        lemma_decimals_below(s.index_targs);
        assert(evs.take(k + 1).drop_last() =~= evs.take(k));
        assert(evs.take(k + 1).last() == evs[k]);
        assert forall|key: Seq<char>| #[trigger] s.targets.contains_key(key) implies s2.targets.contains_key(key)
            && s2.targets[key] == s.targets[key] by {
            assert(key != decimal(s.index_targs));
        }
    }
}

/// The reader returns every target read from the document as it was read.
pub proof fn lemma_reader_keeps_targets(evs: Seq<XmlEvent>)
    requires
        reader_of(evs) is Ok,
    ensures
        scan(evs) is Ok,
        forall|key: Seq<char>|
            #[trigger] scan(evs)->Ok_0.targets.contains_key(key) ==> reader_of(evs)->Ok_0.targets.contains_key(key)
                && reader_of(evs)->Ok_0.targets[key] == scan(evs)->Ok_0.targets[key],
{
}

/// In the configuration read from a document, the target described by a
/// process element of the targets section (numbered by the targets before
/// it) has the address written in its `<address>` child, the port written
/// in its `<port>` child, and the binary, path and arguments of its
/// `<bin>`, `<path>` and `<args>` children.
pub proof fn lemma_document_target_fields(
    pre: Seq<XmlEvent>,
    elem: Seq<XmlEvent>,
    post: Seq<XmlEvent>,
    m: Seq<char>,
    kids: Seq<(Seq<char>, Seq<char>)>,
)
    requires
        scan(pre) matches Ok(sc) && sc.found_targ && !sc.found_bench && !sc.found_muslp && !sc.stopped,
        text_element(elem, m, kids),
        kids.len() > 0,
        !is_section(m),
        forall|j: int| 0 <= j < kids.len() ==> !is_section(#[trigger] kids[j].0) && kids[j].0 != m,
        reader_of(pre + elem + post) is Ok,
    ensures
        ({
            let r = reader_of(pre + elem + post)->Ok_0;
            let key = decimal(scan(pre)->Ok_0.index_targs);
            &&& r.targets.contains_key(key)
            &&& (last_text(kids, "address"@) matches Some(t) ==> r.targets[key].address == t)
            &&& (last_text(kids, "port"@) matches Some(t) ==> r.targets[key].port == t)
            &&& (last_text(kids, "bin"@) matches Some(t) ==> r.targets[key].bin == t)
            &&& (last_text(kids, "path"@) matches Some(t) ==> r.targets[key].path == t)
            &&& (last_text(kids, "args"@) matches Some(t) ==> r.targets[key].args == t)
        }),
{
    let doc = pre + elem + post;
    lemma_reader_keeps_targets(doc);
    let n = (pre + elem).len() as int;
    assert(doc.take(n) =~= pre + elem);
    lemma_targets_kept(doc, n);
    lemma_target_from_its_element(pre, elem, m, kids);
    let key = decimal(scan(pre)->Ok_0.index_targs);
    assert(scan(doc.take(n))->Ok_0.targets.contains_key(key));
    assert(scan(doc)->Ok_0.targets.contains_key(key));
}

} // verus!
