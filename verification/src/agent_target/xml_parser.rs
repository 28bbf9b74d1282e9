use vstd::prelude::*;
use crate::keyed::KeyedVec;
use crate::text::{parse_bool, parse_bool_spec, parse_decimal, parse_unsigned, str_eq};
use crate::xml_events::{XmlEvent, parse_xml_events, xml_events_of};
use super::shared::{BoolParameter, BoolParameterView, IntParameter, IntParameterView, ScriptInfo};
use super::ParameterLevel;

verus! {

/// The configuration entries that the reader interprets.
#[derive(Debug, Clone, Copy)]
pub enum Field {
    Name,
    Minimum,
    Maximum,
    Step,
    Default,
    Level,
    True,
    False,
    Fulltag,
    Envfile,
}

impl Field {
    /// The element name under which the entry is written.
    pub open spec fn key(self) -> Seq<char> {
        match self {
            Field::Name => "name"@,
            Field::Minimum => "minimum"@,
            Field::Maximum => "maximum"@,
            Field::Step => "step"@,
            Field::Default => "default"@,
            Field::Level => "level"@,
            Field::True => "true"@,
            Field::False => "false"@,
            Field::Fulltag => "fulltag"@,
            Field::Envfile => "envfile"@,
        }
    }

    pub fn key_str(&self) -> (r: &'static str)
        ensures
            r@ == self.key(),
    {
        match self {
            Field::Name => "name",
            Field::Minimum => "minimum",
            Field::Maximum => "maximum",
            Field::Step => "step",
            Field::Default => "default",
            Field::Level => "level",
            Field::True => "true",
            Field::False => "false",
            Field::Fulltag => "fulltag",
            Field::Envfile => "envfile",
        }
    }
}

/// Why a configuration document cannot be read.
#[derive(Debug, Clone, Copy)]
pub enum ConfigError {
    /// A required entry is absent.
    Missing(Field),
    /// An entry does not hold a value of its kind.
    Invalid(Field),
}

pub open spec fn strings_view(m: Map<Seq<char>, String>) -> Map<Seq<char>, Seq<char>> {
    m.map_values(|s: String| s@)
}

/// The state of the reader after a prefix of the events.
pub struct Scan {
    pub found_int_targ: bool,
    pub found_bool_targ: bool,
    pub found_script: bool,
    pub tag: Seq<char>,
    pub hm_int_targ: Map<Seq<char>, Seq<char>>,
    pub hm_bool_targ: Map<Seq<char>, Seq<char>>,
    pub hm_script: Map<Seq<char>, Seq<char>>,
    pub int_params: Seq<IntParameterView>,
    pub bool_params: Seq<BoolParameterView>,
    pub stopped: bool,
}

pub open spec fn initial_scan() -> Scan {
    Scan {
        found_int_targ: false,
        found_bool_targ: false,
        found_script: false,
        tag: seq![],
        hm_int_targ: Map::empty(),
        hm_bool_targ: Map::empty(),
        hm_script: Map::empty(),
        int_params: seq![],
        bool_params: seq![],
        stopped: false,
    }
}

/// An element starts: it becomes the current tag, and a section element
/// opens its section (closing the others).
pub open spec fn scan_start(sc: Scan, name: Seq<char>) -> Scan {
    let sc = Scan { tag: name, ..sc };
    if name == "int-parameter"@ {
        Scan { found_int_targ: true, found_bool_targ: false, found_script: false, ..sc }
    } else if name == "bool-parameter"@ {
        Scan { found_int_targ: false, found_bool_targ: true, found_script: false, ..sc }
    } else if name == "builder-script"@ {
        Scan { found_int_targ: false, found_bool_targ: false, found_script: true, ..sc }
    } else {
        sc
    }
}

/// Text is recorded under the current tag in the open section.
pub open spec fn scan_chars(sc: Scan, val: Seq<char>) -> Scan {
    if sc.found_int_targ {
        Scan { hm_int_targ: sc.hm_int_targ.insert(sc.tag, val), ..sc }
    } else if sc.found_bool_targ {
        Scan { hm_bool_targ: sc.hm_bool_targ.insert(sc.tag, val), ..sc }
    } else if sc.found_script {
        Scan { hm_script: sc.hm_script.insert(sc.tag, val), ..sc }
    } else {
        sc
    }
}

pub open spec fn usize_field(x: Map<Seq<char>, Seq<char>>, f: Field) -> Result<usize, ConfigError> {
    if !x.contains_key(f.key()) {
        Err(ConfigError::Missing(f))
    } else {
        match parse_unsigned(x[f.key()], usize::MAX as nat) {
            Some(n) => Ok(n as usize),
            None => Err(ConfigError::Invalid(f)),
        }
    }
}

pub open spec fn level_field(x: Map<Seq<char>, Seq<char>>) -> Result<ParameterLevel, ConfigError> {
    if !x.contains_key(Field::Level.key()) {
        Err(ConfigError::Missing(Field::Level))
    } else {
        match ParameterLevel::spec_from_name(x[Field::Level.key()]) {
            Some(l) => Ok(l),
            None => Err(ConfigError::Invalid(Field::Level)),
        }
    }
}

/// The integer parameter described by the entries `x`.
pub open spec fn int_parameter_from(x: Map<Seq<char>, Seq<char>>) -> Result<IntParameterView, ConfigError> {
    if !x.contains_key(Field::Name.key()) {
        Err(ConfigError::Missing(Field::Name))
    } else {
        match usize_field(x, Field::Minimum) {
            Err(e) => Err(e),
            Ok(mn) => match usize_field(x, Field::Maximum) {
                Err(e) => Err(e),
                Ok(mx) => match usize_field(x, Field::Step) {
                    Err(e) => Err(e),
                    Ok(st) => match usize_field(x, Field::Default) {
                        Err(e) => Err(e),
                        Ok(df) => match level_field(x) {
                            Err(e) => Err(e),
                            Ok(lv) => Ok(
                                IntParameterView {
                                    name: x[Field::Name.key()],
                                    min: mn,
                                    max: mx,
                                    step: st,
                                    default: df,
                                    level: lv,
                                },
                            ),
                        },
                    },
                },
            },
        }
    }
}

/// The switch described by the entries `x`.
pub open spec fn bool_parameter_from(x: Map<Seq<char>, Seq<char>>) -> Result<BoolParameterView, ConfigError> {
    if !x.contains_key(Field::Name.key()) {
        Err(ConfigError::Missing(Field::Name))
    } else if !x.contains_key(Field::True.key()) {
        Err(ConfigError::Missing(Field::True))
    } else if !x.contains_key(Field::False.key()) {
        Err(ConfigError::Missing(Field::False))
    } else if !x.contains_key(Field::Default.key()) {
        Err(ConfigError::Missing(Field::Default))
    } else if parse_bool_spec(x[Field::Default.key()]) is None {
        Err(ConfigError::Invalid(Field::Default))
    } else {
        match level_field(x) {
            Err(e) => Err(e),
            Ok(lv) => Ok(
                BoolParameterView {
                    name: x[Field::Name.key()],
                    true_val: x[Field::True.key()],
                    false_val: x[Field::False.key()],
                    default: parse_bool_spec(x[Field::Default.key()])->0,
                    level: lv,
                },
            ),
        }
    }
}

/// An element ends: closing a parameter element closes its section and adds
/// the parameter described so far.
pub open spec fn scan_end(sc: Scan, name: Seq<char>) -> Result<Scan, ConfigError> {
    if name == "int-parameter"@ {
        match int_parameter_from(sc.hm_int_targ) {
            Ok(p) => Ok(Scan { found_int_targ: false, int_params: sc.int_params.push(p), ..sc }),
            Err(e) => Err(e),
        }
    } else if name == "bool-parameter"@ {
        match bool_parameter_from(sc.hm_bool_targ) {
            Ok(p) => Ok(Scan { found_bool_targ: false, bool_params: sc.bool_params.push(p), ..sc }),
            Err(e) => Err(e),
        }
    } else {
        Ok(sc)
    }
}

/// One event; after a parser failure the remaining events are ignored.
pub open spec fn scan_step(sc: Scan, ev: XmlEvent) -> Result<Scan, ConfigError> {
    if sc.stopped {
        Ok(sc)
    } else {
        match ev {
            XmlEvent::StartElement(n) => Ok(scan_start(sc, n@)),
            XmlEvent::Characters(v) => Ok(scan_chars(sc, v@)),
            XmlEvent::EndElement(n) => scan_end(sc, n@),
            XmlEvent::Failure => Ok(Scan { stopped: true, ..sc }),
            XmlEvent::Other => Ok(sc),
        }
    }
}

pub open spec fn scan(evs: Seq<XmlEvent>) -> Result<Scan, ConfigError>
    decreases evs.len(),
{
    if evs.len() == 0 {
        Ok(initial_scan())
    } else {
        match scan(evs.drop_last()) {
            Ok(sc) => scan_step(sc, evs.last()),
            Err(e) => Err(e),
        }
    }
}

proof fn lemma_scan_err_extends(evs: Seq<XmlEvent>, k: int)
    requires
        0 <= k <= evs.len(),
        scan(evs.take(k)) is Err,
    ensures
        scan(evs) == scan(evs.take(k)),
    decreases evs.len() - k,
{
    if k < evs.len() {
        assert(evs.take(k + 1).drop_last() =~= evs.take(k));
        lemma_scan_err_extends(evs, k + 1);
    } else {
        assert(evs.take(k) =~= evs);
    }
}

proof fn lemma_strings_insert(m: Map<Seq<char>, String>, k: Seq<char>, v: String)
    ensures
        strings_view(m.insert(k, v)) == strings_view(m).insert(k, v@),
{
    assert(strings_view(m.insert(k, v)) =~= strings_view(m).insert(k, v@));
}

/// What a configuration reader holds.
pub struct XMLReaderView {
    pub targ_int_param: Seq<IntParameterView>,
    pub targ_bool_param: Seq<BoolParameterView>,
    pub hm_script: Map<Seq<char>, Seq<char>>,
}

/// The reader that the events `evs` describe.
pub open spec fn reader_of(evs: Seq<XmlEvent>) -> Result<XMLReaderView, ConfigError> {
    match scan(evs) {
        Err(e) => Err(e),
        Ok(sc) => Ok(
            XMLReaderView {
                targ_int_param: sc.int_params,
                targ_bool_param: sc.bool_params,
                hm_script: sc.hm_script,
            },
        ),
    }
}

pub open spec fn int_params_view(v: Seq<IntParameter>) -> Seq<IntParameterView> {
    v.map_values(|p: IntParameter| p@)
}

pub open spec fn bool_params_view(v: Seq<BoolParameter>) -> Seq<BoolParameterView> {
    v.map_values(|p: BoolParameter| p@)
}

struct ScanState {
    found_int_targ: bool,
    found_bool_targ: bool,
    found_script: bool,
    tag: String,
    hm_int_targ: KeyedVec<String>,
    hm_bool_targ: KeyedVec<String>,
    hm_script: KeyedVec<String>,
    int_params: Vec<IntParameter>,
    bool_params: Vec<BoolParameter>,
    stopped: bool,
}

impl ScanState {
    spec fn model(&self) -> Scan {
        Scan {
            found_int_targ: self.found_int_targ,
            found_bool_targ: self.found_bool_targ,
            found_script: self.found_script,
            tag: self.tag@,
            hm_int_targ: strings_view(self.hm_int_targ@),
            hm_bool_targ: strings_view(self.hm_bool_targ@),
            hm_script: strings_view(self.hm_script@),
            int_params: int_params_view(self.int_params@),
            bool_params: bool_params_view(self.bool_params@),
            stopped: self.stopped,
        }
    }
}

fn field_text(x: &KeyedVec<String>, f: Field) -> (r: Option<String>)
    ensures
        match r {
            Some(v) => strings_view(x@).contains_key(f.key()) && v@ == strings_view(x@)[f.key()],
            None => !strings_view(x@).contains_key(f.key()),
        },
{
    match x.get(f.key_str()) {
        Some(v) => Some(v.clone()),
        None => None,
    }
}

fn field_usize(x: &KeyedVec<String>, f: Field) -> (r: Result<usize, ConfigError>)
    ensures
        r == usize_field(strings_view(x@), f),
{
    match x.get(f.key_str()) {
        None => Err(ConfigError::Missing(f)),
        Some(v) => match parse_decimal(v.as_str(), usize::MAX as u64) {
            Some(n) => Ok(n as usize),
            None => Err(ConfigError::Invalid(f)),
        },
    }
}

fn field_level(x: &KeyedVec<String>) -> (r: Result<ParameterLevel, ConfigError>)
    ensures
        r == level_field(strings_view(x@)),
{
    match x.get(Field::Level.key_str()) {
        None => Err(ConfigError::Missing(Field::Level)),
        Some(v) => match ParameterLevel::from_name(v.as_str()) {
            Some(l) => Ok(l),
            None => Err(ConfigError::Invalid(Field::Level)),
        },
    }
}

fn build_int_parameter(x: &KeyedVec<String>) -> (r: Result<IntParameter, ConfigError>)
    ensures
        match r {
            Ok(p) => int_parameter_from(strings_view(x@)) == Ok::<IntParameterView, ConfigError>(p@),
            Err(e) => int_parameter_from(strings_view(x@)) == Err::<IntParameterView, ConfigError>(e),
        },
{
    let name = match field_text(x, Field::Name) {
        Some(v) => v,
        None => return Err(ConfigError::Missing(Field::Name)),
    };
    let min = field_usize(x, Field::Minimum)?;
    let max = field_usize(x, Field::Maximum)?;
    let step = field_usize(x, Field::Step)?;
    let default = field_usize(x, Field::Default)?;
    let level = field_level(x)?;
    Ok(IntParameter { name, min, max, step, default, level })
}

fn build_bool_parameter(x: &KeyedVec<String>) -> (r: Result<BoolParameter, ConfigError>)
    ensures
        match r {
            Ok(p) => bool_parameter_from(strings_view(x@)) == Ok::<BoolParameterView, ConfigError>(p@),
            Err(e) => bool_parameter_from(strings_view(x@)) == Err::<BoolParameterView, ConfigError>(e),
        },
{
    let name = match field_text(x, Field::Name) {
        Some(v) => v,
        None => return Err(ConfigError::Missing(Field::Name)),
    };
    let true_val = match field_text(x, Field::True) {
        Some(v) => v,
        None => return Err(ConfigError::Missing(Field::True)),
    };
    let false_val = match field_text(x, Field::False) {
        Some(v) => v,
        None => return Err(ConfigError::Missing(Field::False)),
    };
    let default_text = match field_text(x, Field::Default) {
        Some(v) => v,
        None => return Err(ConfigError::Missing(Field::Default)),
    };
    let default = match parse_bool(default_text.as_str()) {
        Some(b) => b,
        None => return Err(ConfigError::Invalid(Field::Default)),
    };
    let level = field_level(x)?;
    Ok(BoolParameter { name, true_val, false_val, default, level })
}

fn start_element(st: &mut ScanState, name: String)
    ensures
        final(st).model() == scan_start(old(st).model(), name@),
{
    let is_int = str_eq(name.as_str(), "int-parameter");
    let is_bool = str_eq(name.as_str(), "bool-parameter");
    let is_script = str_eq(name.as_str(), "builder-script");
    st.tag = name;
    if is_int {
        st.found_int_targ = true;
        st.found_bool_targ = false;
        st.found_script = false;
    } else if is_bool {
        st.found_int_targ = false;
        st.found_bool_targ = true;
        st.found_script = false;
    } else if is_script {
        st.found_int_targ = false;
        st.found_bool_targ = false;
        st.found_script = true;
    }
}

fn characters(st: &mut ScanState, val: String)
    ensures
        final(st).model() == scan_chars(old(st).model(), val@),
{
    let key = st.tag.clone();
    proof {
        lemma_strings_insert(st.hm_int_targ@, key@, val);
        lemma_strings_insert(st.hm_bool_targ@, key@, val);
        lemma_strings_insert(st.hm_script@, key@, val);
    }
    if st.found_int_targ {
        st.hm_int_targ.insert(key, val);
    } else if st.found_bool_targ {
        st.hm_bool_targ.insert(key, val);
    } else if st.found_script {
        st.hm_script.insert(key, val);
    }
}

fn end_element(st: &mut ScanState, name: &String) -> (r: Result<(), ConfigError>)
    ensures
        match r {
            Ok(_) => scan_end(old(st).model(), name@) == Ok::<Scan, ConfigError>(final(st).model()),
            Err(e) => scan_end(old(st).model(), name@) == Err::<Scan, ConfigError>(e),
        },
{
    if str_eq(name.as_str(), "int-parameter") {
        let p = build_int_parameter(&st.hm_int_targ)?;
        st.found_int_targ = false;
        let ghost before = st.int_params@;
        st.int_params.push(p);
        assert(int_params_view(st.int_params@) =~= int_params_view(before).push(p@));
    } else if str_eq(name.as_str(), "bool-parameter") {
        let p = build_bool_parameter(&st.hm_bool_targ)?;
        st.found_bool_targ = false;
        let ghost before = st.bool_params@;
        st.bool_params.push(p);
        assert(bool_params_view(st.bool_params@) =~= bool_params_view(before).push(p@));
    }
    Ok(())
}

/// The part of the configuration that the target agent reads: the
/// parameters of the target and the script that builds it.
pub struct XMLReader {
    targ_int_param: Vec<IntParameter>,
    targ_bool_param: Vec<BoolParameter>,
    hm_script: KeyedVec<String>,
}

impl View for XMLReader {
    type V = XMLReaderView;

    closed spec fn view(&self) -> XMLReaderView {
        XMLReaderView {
            targ_int_param: int_params_view(self.targ_int_param@),
            targ_bool_param: bool_params_view(self.targ_bool_param@),
            hm_script: strings_view(self.hm_script@),
        }
    }
}

impl XMLReader {
    /// Reads the configuration document `doc`.
    pub fn new(doc: &[u8]) -> (r: Result<XMLReader, ConfigError>)
        ensures
            match r {
                Ok(x) => reader_of(xml_events_of(doc@)) == Ok::<XMLReaderView, ConfigError>(x@),
                Err(e) => reader_of(xml_events_of(doc@)) == Err::<XMLReaderView, ConfigError>(e),
            },
    {
        let events = parse_xml_events(doc);
        Self::from_events(events)
    }

    /// Reads a configuration from the events of its XML document.
    pub fn from_events(events: Vec<XmlEvent>) -> (r: Result<XMLReader, ConfigError>)
        ensures
            match r {
                Ok(x) => reader_of(events@) == Ok::<XMLReaderView, ConfigError>(x@),
                Err(e) => reader_of(events@) == Err::<XMLReaderView, ConfigError>(e),
            },
    {
        let mut st = ScanState {
                found_int_targ: false,
            found_bool_targ: false,
            found_script: false,
            tag: String::new(),
            hm_int_targ: KeyedVec::new(),
            hm_bool_targ: KeyedVec::new(),
            hm_script: KeyedVec::new(),
            int_params: Vec::new(),
            bool_params: Vec::new(),
            stopped: false,
        };
        proof {
            assert(strings_view(Map::<Seq<char>, String>::empty()) =~= Map::empty());
            assert(int_params_view(Seq::<IntParameter>::empty()) =~= seq![]);
            assert(bool_params_view(Seq::<BoolParameter>::empty()) =~= seq![]);
            assert(st.model() == initial_scan());
            assert(events@.take(0) =~= Seq::<XmlEvent>::empty());
        }
        let n = events.len();
        let ghost evs = events@;
        let mut queue = events;
        let mut rest: Vec<XmlEvent> = Vec::new();
        while queue.len() > 0
            invariant
                evs.len() == n,
                queue@.len() + rest@.len() == n,
                forall|j: int| 0 <= j < queue@.len() ==> queue@[j] == evs[j],
                forall|j: int| 0 <= j < rest@.len() ==> rest@[j] == evs[n - 1 - j],
            decreases queue@.len(),
        {
            let e = queue.pop().unwrap();
            rest.push(e);
        }
        let mut i: usize = 0;
        while i < n
            invariant
                i <= n,
                evs == events@,
                evs.len() == n,
                rest@.len() == n - i,
                forall|j: int| 0 <= j < rest@.len() ==> rest@[j] == evs[n - 1 - j],
                scan(evs.take(i as int)) == Ok::<Scan, ConfigError>(st.model()),
            decreases n - i,
        {
            let e = rest.pop().unwrap();
            assert(e == evs[i as int]);
            assert(evs.take(i + 1).drop_last() =~= evs.take(i as int));
            if !st.stopped {
                match e {
                    XmlEvent::StartElement(name) => start_element(&mut st, name),
                    XmlEvent::Characters(val) => characters(&mut st, val),
                    XmlEvent::EndElement(name) => {
                        let r = end_element(&mut st, &name);
                        if let Err(err) = r {
                            proof {
                                lemma_scan_err_extends(evs, i + 1);
                            }
                            return Err(err);
                        }
                    },
                    XmlEvent::Failure => {
                        st.stopped = true;
                    },
                    XmlEvent::Other => {},
                }
            }
            i = i + 1;
        }
        assert(evs.take(n as int) =~= evs);
        Ok(
            XMLReader {
                targ_int_param: st.int_params,
                targ_bool_param: st.bool_params,
                hm_script: st.hm_script,
            },
        )
    }

    /// The switches of the target, in the order of the document.
    pub fn get_target_bool_params(&self) -> (r: Vec<BoolParameter>)
        ensures
            bool_params_view(r@) == self@.targ_bool_param,
    {
        let mut r: Vec<BoolParameter> = Vec::new();
        let mut i: usize = 0;
        while i < self.targ_bool_param.len()
            invariant
                i <= self.targ_bool_param@.len(),
                bool_params_view(r@) == bool_params_view(self.targ_bool_param@.take(i as int)),
            decreases self.targ_bool_param@.len() - i,
        {
            let p = self.targ_bool_param[i].clone();
            let ghost before = r@;
            r.push(p);
            proof {
                assert(bool_params_view(r@) =~= bool_params_view(before).push(p@));
                assert(self.targ_bool_param@.take(i + 1) =~= self.targ_bool_param@.take(i as int).push(
                    self.targ_bool_param@[i as int],
                ));
            }
            i = i + 1;
        }
        assert(self.targ_bool_param@.take(i as int) =~= self.targ_bool_param@);
        r
    }

    /// The integer parameters of the target, in the order of the document.
    pub fn get_target_int_hm_params(&self) -> (r: Vec<IntParameter>)
        ensures
            int_params_view(r@) == self@.targ_int_param,
    {
        let mut r: Vec<IntParameter> = Vec::new();
        let mut i: usize = 0;
        while i < self.targ_int_param.len()
            invariant
                i <= self.targ_int_param@.len(),
                int_params_view(r@) == int_params_view(self.targ_int_param@.take(i as int)),
            decreases self.targ_int_param@.len() - i,
        {
            let p = self.targ_int_param[i].clone();
            let ghost before = r@;
            r.push(p);
            proof {
                assert(int_params_view(r@) =~= int_params_view(before).push(p@));
                assert(self.targ_int_param@.take(i + 1) =~= self.targ_int_param@.take(i as int).push(
                    self.targ_int_param@[i as int],
                ));
            }
            i = i + 1;
        }
        assert(self.targ_int_param@.take(i as int) =~= self.targ_int_param@);
        r
    }

    /// The entry `key` of the build script's section, as written.
    pub fn script_param(&self, key: &str) -> (r: Option<&String>)
        ensures
            match r {
                Some(v) => self@.hm_script.contains_key(key@) && v@ == self@.hm_script[key@],
                None => !self@.hm_script.contains_key(key@),
            },
    {
        self.hm_script.get(key)
    }

    /// The builder script: its name is written under `default`.
    pub fn get_script_info(&self) -> (r: ScriptInfo)
        requires
            self@.hm_script.contains_key(Field::Default.key()),
            self@.hm_script.contains_key(Field::Fulltag.key()),
            self@.hm_script.contains_key(Field::Envfile.key()),
        ensures
            r.name@ == self@.hm_script[Field::Default.key()],
            r.fulltag@ == self@.hm_script[Field::Fulltag.key()],
            r.envfile@ == self@.hm_script[Field::Envfile.key()],
    {
        let name = match field_text(&self.hm_script, Field::Default) {
            Some(v) => v,
            None => unreached(),
        };
        let fulltag = match field_text(&self.hm_script, Field::Fulltag) {
            Some(v) => v,
            None => unreached(),
        };
        let envfile = match field_text(&self.hm_script, Field::Envfile) {
            Some(v) => v,
            None => unreached(),
        };
        ScriptInfo { name, fulltag, envfile }
    }

    /// The level of each parameter by name; an integer parameter wins over a
    /// switch of the same name, and a later one over an earlier one.
    pub fn get_target_hm_service_level(&self) -> (r: KeyedVec<ParameterLevel>)
        ensures
            r@ == levels_of(self@.targ_bool_param, self@.targ_int_param),
            forall|i: int| 0 <= i < self@.targ_bool_param.len() ==> r@.contains_key(#[trigger] self@.targ_bool_param[i].name),
            forall|i: int| 0 <= i < self@.targ_int_param.len() ==> r@.contains_key(#[trigger] self@.targ_int_param[i].name),
    {
        proof {
            lemma_every_parameter_has_its_level(self@.targ_bool_param, self@.targ_int_param);
        }
        let mut hm: KeyedVec<ParameterLevel> = KeyedVec::new();
        let mut i: usize = 0;
        assert(self@.targ_bool_param.take(0) =~= Seq::<BoolParameterView>::empty());
        while i < self.targ_bool_param.len()
            invariant
                i <= self.targ_bool_param@.len(),
                self@.targ_bool_param == bool_params_view(self.targ_bool_param@),
                hm@ == bool_levels(self@.targ_bool_param.take(i as int)),
            decreases self.targ_bool_param@.len() - i,
        {
            let p = &self.targ_bool_param[i];
            hm.insert(p.name.clone(), p.level);
            proof {
                let t = self@.targ_bool_param.take(i + 1);
                assert(t.drop_last() =~= self@.targ_bool_param.take(i as int));
            }
            i = i + 1;
        }
        assert(self@.targ_bool_param.take(i as int) =~= self@.targ_bool_param);
        let mut j: usize = 0;
        assert(self@.targ_int_param.take(0) =~= Seq::<IntParameterView>::empty());
        while j < self.targ_int_param.len()
            invariant
                j <= self.targ_int_param@.len(),
                self@.targ_int_param == int_params_view(self.targ_int_param@),
                hm@ == int_levels(self@.targ_int_param.take(j as int), bool_levels(self@.targ_bool_param)),
            decreases self.targ_int_param@.len() - j,
        {
            let p = &self.targ_int_param[j];
            hm.insert(p.name.clone(), p.level);
            proof {
                let t = self@.targ_int_param.take(j + 1);
                assert(t.drop_last() =~= self@.targ_int_param.take(j as int));
            }
            j = j + 1;
        }
        assert(self@.targ_int_param.take(j as int) =~= self@.targ_int_param);
        hm
    }
}

/// The levels of the switches `bs`, a later one winning.
pub open spec fn bool_levels(bs: Seq<BoolParameterView>) -> Map<Seq<char>, ParameterLevel>
    decreases bs.len(),
{
    if bs.len() == 0 {
        Map::empty()
    } else {
        bool_levels(bs.drop_last()).insert(bs.last().name, bs.last().level)
    }
}

/// `base` updated with the levels of the integer parameters `is`.
pub open spec fn int_levels(is: Seq<IntParameterView>, base: Map<Seq<char>, ParameterLevel>) -> Map<Seq<char>, ParameterLevel>
    decreases is.len(),
{
    if is.len() == 0 {
        base
    } else {
        int_levels(is.drop_last(), base).insert(is.last().name, is.last().level)
    }
}

pub open spec fn levels_of(bs: Seq<BoolParameterView>, is: Seq<IntParameterView>) -> Map<Seq<char>, ParameterLevel> {
    int_levels(is, bool_levels(bs))
}


/// The number of `</name>` events among `evs`.
pub open spec fn closings(evs: Seq<XmlEvent>, name: Seq<char>) -> nat
    decreases evs.len(),
{
    if evs.len() == 0 {
        0
    } else {
        closings(evs.drop_last(), name) + if evs.last() matches XmlEvent::EndElement(n) && n@ == name {
            1nat
        } else {
            0nat
        }
    }
}

/// The parser reported no failure among `evs`.
pub open spec fn no_failure(evs: Seq<XmlEvent>) -> bool {
    forall|i: int| 0 <= i < evs.len() ==> !(#[trigger] evs[i] is Failure)
}

/// `u` is the beginning of `v`.
pub open spec fn begins<T>(u: Seq<T>, v: Seq<T>) -> bool {
    u.len() <= v.len() && v.take(u.len() as int) == u
}

proof fn lemma_counts(evs: Seq<XmlEvent>)
    requires
        no_failure(evs),
        scan(evs) is Ok,
    ensures
        !scan(evs)->Ok_0.stopped,
        scan(evs)->Ok_0.int_params.len() == closings(evs, "int-parameter"@),
        scan(evs)->Ok_0.bool_params.len() == closings(evs, "bool-parameter"@),
        forall|k: int|
            0 <= k <= evs.len() ==> scan(#[trigger] evs.take(k)) is Ok && begins(
                scan(evs.take(k))->Ok_0.int_params,
                scan(evs)->Ok_0.int_params,
            ) && begins(scan(evs.take(k))->Ok_0.bool_params, scan(evs)->Ok_0.bool_params),
    decreases evs.len(),
{
    assert(evs.take(evs.len() as int) =~= evs);
    if evs.len() > 0 {
        let d = evs.drop_last();
        assert(no_failure(d)) by {
            assert forall|i: int| 0 <= i < d.len() implies !(#[trigger] d[i] is Failure) by {
                assert(d[i] == evs[i]);
            }
        }
        assert(scan(d) is Ok);
        lemma_counts(d);
        let sc = scan(d)->Ok_0;
        let sc2 = scan(evs)->Ok_0;
        assert(!(evs[evs.len() - 1] is Failure));
        assert(!sc2.stopped);
        let ip = "int-parameter"@;
        let bp = "bool-parameter"@;
        reveal_strlit("int-parameter");
        reveal_strlit("bool-parameter");
        assert(ip != bp) by {
            assert(ip[0] != bp[0]);
        }
        assert(begins(sc.int_params, sc2.int_params)) by {
            assert(sc2.int_params.take(sc.int_params.len() as int) =~= sc.int_params);
        }
        assert(begins(sc.bool_params, sc2.bool_params)) by {
            assert(sc2.bool_params.take(sc.bool_params.len() as int) =~= sc.bool_params);
        }
        assert forall|k: int| 0 <= k <= evs.len() implies scan(#[trigger] evs.take(k)) is Ok && begins(
            scan(evs.take(k))->Ok_0.int_params,
            scan(evs)->Ok_0.int_params,
        ) && begins(scan(evs.take(k))->Ok_0.bool_params, scan(evs)->Ok_0.bool_params) by {
            if k < evs.len() {
                assert(d.take(k) =~= evs.take(k));
                let u = scan(d.take(k))->Ok_0;
                assert(begins(u.int_params, sc.int_params));
                assert(begins(u.bool_params, sc.bool_params));
                assert(sc2.int_params.take(u.int_params.len() as int) =~= sc.int_params.take(u.int_params.len() as int));
                assert(sc2.bool_params.take(u.bool_params.len() as int) =~= sc.bool_params.take(u.bool_params.len() as int));
                assert(begins(u.int_params, sc2.int_params));
                assert(begins(u.bool_params, sc2.bool_params));
            } else {
                assert(sc2.int_params.take(sc2.int_params.len() as int) =~= sc2.int_params);
                assert(sc2.bool_params.take(sc2.bool_params.len() as int) =~= sc2.bool_params);
            }
        }
    } else {
        assert(evs.take(0) =~= evs);
        let sc = scan(evs)->Ok_0;
        assert(sc.int_params.take(0) =~= sc.int_params);
        assert(sc.bool_params.take(0) =~= sc.bool_params);
    }
}

/// One parameter is read for each `<int-parameter>` element of a document
/// (its closing tag adds it) and one switch for each `<bool-parameter>`,
/// in the order of the document: what is read from any beginning of the
/// document begins what is read from the whole, so none read earlier is
/// dropped when another element closes.
pub proof fn lemma_one_parameter_per_element(evs: Seq<XmlEvent>)
    requires
        no_failure(evs),
        reader_of(evs) is Ok,
    ensures
        reader_of(evs)->Ok_0.targ_int_param.len() == closings(evs, "int-parameter"@),
        reader_of(evs)->Ok_0.targ_bool_param.len() == closings(evs, "bool-parameter"@),
        forall|k: int|
            0 <= k <= evs.len() ==> reader_of(#[trigger] evs.take(k)) is Ok && begins(
                reader_of(evs.take(k))->Ok_0.targ_int_param,
                reader_of(evs)->Ok_0.targ_int_param,
            ) && begins(reader_of(evs.take(k))->Ok_0.targ_bool_param, reader_of(evs)->Ok_0.targ_bool_param),
{
    lemma_counts(evs);
}


proof fn lemma_bool_levels(bs: Seq<BoolParameterView>)
    ensures
        forall|i: int| 0 <= i < bs.len() ==> bool_levels(bs).contains_key(#[trigger] bs[i].name),
        forall|i: int|
            0 <= i < bs.len() && (forall|j: int| i < j < bs.len() ==> (#[trigger] bs[j]).name != bs[i].name)
                ==> bool_levels(bs)[#[trigger] bs[i].name] == bs[i].level,
    decreases bs.len(),
{
    if bs.len() > 0 {
        let q = bs.drop_last();
        lemma_bool_levels(q);
        assert forall|i: int| 0 <= i < bs.len() implies bool_levels(bs).contains_key(#[trigger] bs[i].name) by {
            if i < bs.len() - 1 {
                assert(q[i] == bs[i]);
            }
        }
        assert forall|i: int|
            0 <= i < bs.len() && (forall|j: int| i < j < bs.len() ==> (#[trigger] bs[j]).name != bs[i].name)
                implies bool_levels(bs)[#[trigger] bs[i].name] == bs[i].level by {
            if i < bs.len() - 1 {
                assert(q[i] == bs[i]);
                assert(bs[bs.len() - 1].name != bs[i].name);
                assert forall|j: int| i < j < q.len() implies (#[trigger] q[j]).name != q[i].name by {
                    assert(q[j] == bs[j]);
                }
            }
        }
    }
}

proof fn lemma_int_levels(is: Seq<IntParameterView>, base: Map<Seq<char>, ParameterLevel>)
    ensures
        forall|i: int| 0 <= i < is.len() ==> int_levels(is, base).contains_key(#[trigger] is[i].name),
        forall|i: int|
            0 <= i < is.len() && (forall|j: int| i < j < is.len() ==> (#[trigger] is[j]).name != is[i].name)
                ==> int_levels(is, base)[#[trigger] is[i].name] == is[i].level,
        forall|k: Seq<char>|
            #![trigger int_levels(is, base).contains_key(k)]
            base.contains_key(k) ==> int_levels(is, base).contains_key(k),
        forall|k: Seq<char>|
            #![trigger int_levels(is, base)[k]]
            base.contains_key(k) && (forall|i: int| 0 <= i < is.len() ==> (#[trigger] is[i]).name != k)
                ==> int_levels(is, base)[k] == base[k],
    decreases is.len(),
{
    if is.len() > 0 {
        let q = is.drop_last();
        lemma_int_levels(q, base);
        assert forall|i: int| 0 <= i < is.len() implies int_levels(is, base).contains_key(#[trigger] is[i].name) by {
            if i < is.len() - 1 {
                assert(q[i] == is[i]);
            }
        }
        assert forall|i: int|
            0 <= i < is.len() && (forall|j: int| i < j < is.len() ==> (#[trigger] is[j]).name != is[i].name)
                implies int_levels(is, base)[#[trigger] is[i].name] == is[i].level by {
            if i < is.len() - 1 {
                assert(q[i] == is[i]);
                assert(is[is.len() - 1].name != is[i].name);
                assert forall|j: int| i < j < q.len() implies (#[trigger] q[j]).name != q[i].name by {
                    assert(q[j] == is[j]);
                }
            }
        }
        assert forall|k: Seq<char>|
            #![trigger int_levels(is, base)[k]]
            base.contains_key(k) && (forall|i: int| 0 <= i < is.len() ==> (#[trigger] is[i]).name != k)
                implies int_levels(is, base)[k] == base[k] by {
            assert forall|i: int| 0 <= i < q.len() implies (#[trigger] q[i]).name != k by {
                assert(q[i] == is[i]);
            }
            assert(is[is.len() - 1].name != k);
            assert(int_levels(q, base).contains_key(k));
        }
        assert forall|k: Seq<char>|
            #![trigger int_levels(is, base).contains_key(k)]
            base.contains_key(k) implies int_levels(is, base).contains_key(k) by {
            assert(int_levels(q, base).contains_key(k));
        }
    }
}

/// Every parameter and every switch of the document has its level: an
/// integer parameter (the last of its name) its own level, and a switch
/// (the last of its name, with no integer parameter of that name) its own.
pub proof fn lemma_every_parameter_has_its_level(bs: Seq<BoolParameterView>, is: Seq<IntParameterView>)
    ensures
        forall|i: int| 0 <= i < bs.len() ==> levels_of(bs, is).contains_key(#[trigger] bs[i].name),
        forall|i: int| 0 <= i < is.len() ==> levels_of(bs, is).contains_key(#[trigger] is[i].name),
        forall|i: int|
            0 <= i < is.len() && (forall|j: int| i < j < is.len() ==> (#[trigger] is[j]).name != is[i].name)
                ==> levels_of(bs, is)[#[trigger] is[i].name] == is[i].level,
        forall|i: int|
            0 <= i < bs.len() && (forall|j: int| i < j < bs.len() ==> (#[trigger] bs[j]).name != bs[i].name) && (
            forall|j: int| 0 <= j < is.len() ==> (#[trigger] is[j]).name != bs[i].name) ==> levels_of(bs, is)[#[trigger] bs[i].name]
                == bs[i].level,
{
    lemma_bool_levels(bs);
    lemma_int_levels(is, bool_levels(bs));
    assert forall|i: int| 0 <= i < bs.len() implies levels_of(bs, is).contains_key(#[trigger] bs[i].name) by {
        assert(bool_levels(bs).contains_key(bs[i].name));
        assert(int_levels(is, bool_levels(bs)).contains_key(bs[i].name));
    }
    assert forall|i: int|
        0 <= i < bs.len() && (forall|j: int| i < j < bs.len() ==> (#[trigger] bs[j]).name != bs[i].name) && (
        forall|j: int| 0 <= j < is.len() ==> (#[trigger] is[j]).name != bs[i].name) implies levels_of(bs, is)[#[trigger] bs[i].name]
            == bs[i].level by {
        assert(bool_levels(bs).contains_key(bs[i].name));
        assert(int_levels(is, bool_levels(bs))[bs[i].name] == bool_levels(bs)[bs[i].name]);
    }
}


/// A section element: it opens a section of the configuration.
pub open spec fn is_section(n: Seq<char>) -> bool {
    n == "int-parameter"@ || n == "bool-parameter"@ || n == "builder-script"@
}

/// `evs` are the events of an element `<m>` whose children are the text
/// elements `<kids[i].0>kids[i].1</kids[i].0>`, in order.
pub open spec fn text_element(evs: Seq<XmlEvent>, m: Seq<char>, kids: Seq<(Seq<char>, Seq<char>)>) -> bool {
    &&& evs.len() == 3 * kids.len() + 2
    &&& evs[0] matches XmlEvent::StartElement(n) && n@ == m
    &&& evs[evs.len() - 1] matches XmlEvent::EndElement(n) && n@ == m
    &&& forall|i: int|
        0 <= i < kids.len() ==> {
            &&& (#[trigger] evs[1 + 3 * i]) matches XmlEvent::StartElement(n) && n@ == kids[i].0
            &&& evs[2 + 3 * i] matches XmlEvent::Characters(v) && v@ == kids[i].1
            &&& evs[3 + 3 * i] matches XmlEvent::EndElement(n) && n@ == kids[i].0
        }
}

/// The text of the last child named `name`, if there is one.
pub open spec fn last_text(kids: Seq<(Seq<char>, Seq<char>)>, name: Seq<char>) -> Option<Seq<char>>
    decreases kids.len(),
{
    if kids.len() == 0 {
        None
    } else if kids.last().0 == name {
        Some(kids.last().1)
    } else {
        last_text(kids.drop_last(), name)
    }
}

/// `x` with the text of each child written under its name, in order.
pub open spec fn with_texts(x: Map<Seq<char>, Seq<char>>, kids: Seq<(Seq<char>, Seq<char>)>) -> Map<Seq<char>, Seq<char>>
    decreases kids.len(),
{
    if kids.len() == 0 {
        x
    } else {
        with_texts(x, kids.drop_last()).insert(kids.last().0, kids.last().1)
    }
}

proof fn lemma_with_texts_last(x: Map<Seq<char>, Seq<char>>, kids: Seq<(Seq<char>, Seq<char>)>, name: Seq<char>)
    ensures
        last_text(kids, name) matches Some(t) ==> with_texts(x, kids).contains_key(name) && with_texts(x, kids)[name] == t,
    decreases kids.len(),
{
    if kids.len() > 0 {
        lemma_with_texts_last(x, kids.drop_last(), name);
    }
}

proof fn lemma_scan_snoc(a: Seq<XmlEvent>, b: Seq<XmlEvent>, n: int)
    requires
        0 <= n < b.len(),
    ensures
        scan(a + b.take(n + 1)) == match scan(a + b.take(n)) {
            Ok(s) => scan_step(s, b[n]),
            Err(e) => Err(e),
        },
{
    assert((a + b.take(n + 1)).drop_last() =~= a + b.take(n));
    assert((a + b.take(n + 1)).last() == b[n]);
}

/// The state inside a `<int-parameter>` element after its first `i` children.
pub open spec fn inside_int(sc: Scan, kids: Seq<(Seq<char>, Seq<char>)>, i: int) -> Scan {
    let s0 = scan_start(sc, "int-parameter"@);
    Scan {
        tag: if i == 0 {
            "int-parameter"@
        } else {
            kids[i - 1].0
        },
        hm_int_targ: with_texts(s0.hm_int_targ, kids.take(i)),
        ..s0
    }
}

proof fn lemma_children_int(pre: Seq<XmlEvent>, elem: Seq<XmlEvent>, kids: Seq<(Seq<char>, Seq<char>)>, i: int)
    requires
        scan(pre) matches Ok(sc) && !sc.stopped,
        text_element(elem, "int-parameter"@, kids),
        forall|j: int| 0 <= j < kids.len() ==> !is_section(#[trigger] kids[j].0),
        0 <= i <= kids.len(),
    ensures
        scan(pre + elem.take(1 + 3 * i)) == Ok::<Scan, ConfigError>(inside_int(scan(pre)->Ok_0, kids, i)),
    decreases i,
{
    let sc = scan(pre)->Ok_0;
    reveal_strlit("tuner-params");
    reveal_strlit("int-parameter");
    reveal_strlit("bool-parameter");
    reveal_strlit("builder-script");
    assert("int-parameter"@[0] != "bool-parameter"@[0]);
    assert("int-parameter"@[0] != "tuner-params"@[0]);
    assert("int-parameter"@[0] != "builder-script"@[0]);
    assert("bool-parameter"@.len() != "tuner-params"@.len());
    assert("bool-parameter"@[1] != "builder-script"@[1]);
    if i == 0 {
        lemma_scan_snoc(pre, elem, 0);
        assert(pre + elem.take(0) =~= pre);
        assert(kids.take(0) =~= Seq::<(Seq<char>, Seq<char>)>::empty());
    } else {
        let j = i - 1;
        lemma_children_int(pre, elem, kids, j);
        assert(elem[1 + 3 * j] matches XmlEvent::StartElement(n) && n@ == kids[j].0);
        assert(!is_section(kids[j].0));
        let s0 = inside_int(sc, kids, j);
        lemma_scan_snoc(pre, elem, 1 + 3 * j);
        let s1 = Scan { tag: kids[j].0, ..s0 };
        assert(scan(pre + elem.take(2 + 3 * j)) == Ok::<Scan, ConfigError>(s1));
        lemma_scan_snoc(pre, elem, 2 + 3 * j);
        let s2 = Scan { hm_int_targ: s1.hm_int_targ.insert(kids[j].0, kids[j].1), ..s1 };
        assert(scan(pre + elem.take(3 + 3 * j)) == Ok::<Scan, ConfigError>(s2));
        lemma_scan_snoc(pre, elem, 3 + 3 * j);
        assert(scan_end(s2, kids[j].0) == Ok::<Scan, ConfigError>(s2));
        assert(kids.take(i).drop_last() =~= kids.take(j));
        assert(kids.take(i).last() == kids[j]);
        assert(s2 == inside_int(sc, kids, i));
    }
}

/// The state inside a `<bool-parameter>` element after its first `i` children.
pub open spec fn inside_bool(sc: Scan, kids: Seq<(Seq<char>, Seq<char>)>, i: int) -> Scan {
    let s0 = scan_start(sc, "bool-parameter"@);
    Scan {
        tag: if i == 0 {
            "bool-parameter"@
        } else {
            kids[i - 1].0
        },
        hm_bool_targ: with_texts(s0.hm_bool_targ, kids.take(i)),
        ..s0
    }
}

proof fn lemma_children_bool(pre: Seq<XmlEvent>, elem: Seq<XmlEvent>, kids: Seq<(Seq<char>, Seq<char>)>, i: int)
    requires
        scan(pre) matches Ok(sc) && !sc.stopped,
        text_element(elem, "bool-parameter"@, kids),
        forall|j: int| 0 <= j < kids.len() ==> !is_section(#[trigger] kids[j].0),
        0 <= i <= kids.len(),
    ensures
        scan(pre + elem.take(1 + 3 * i)) == Ok::<Scan, ConfigError>(inside_bool(scan(pre)->Ok_0, kids, i)),
    decreases i,
{
    let sc = scan(pre)->Ok_0;
    reveal_strlit("tuner-params");
    reveal_strlit("int-parameter");
    reveal_strlit("bool-parameter");
    reveal_strlit("builder-script");
    assert("int-parameter"@[0] != "bool-parameter"@[0]);
    assert("int-parameter"@[0] != "tuner-params"@[0]);
    assert("int-parameter"@[0] != "builder-script"@[0]);
    assert("bool-parameter"@.len() != "tuner-params"@.len());
    assert("bool-parameter"@[1] != "builder-script"@[1]);
    if i == 0 {
        lemma_scan_snoc(pre, elem, 0);
        assert(pre + elem.take(0) =~= pre);
        assert(kids.take(0) =~= Seq::<(Seq<char>, Seq<char>)>::empty());
    } else {
        let j = i - 1;
        lemma_children_bool(pre, elem, kids, j);
        assert(elem[1 + 3 * j] matches XmlEvent::StartElement(n) && n@ == kids[j].0);
        assert(!is_section(kids[j].0));
        let s0 = inside_bool(sc, kids, j);
        lemma_scan_snoc(pre, elem, 1 + 3 * j);
        let s1 = Scan { tag: kids[j].0, ..s0 };
        assert(scan(pre + elem.take(2 + 3 * j)) == Ok::<Scan, ConfigError>(s1));
        lemma_scan_snoc(pre, elem, 2 + 3 * j);
        let s2 = Scan { hm_bool_targ: s1.hm_bool_targ.insert(kids[j].0, kids[j].1), ..s1 };
        assert(scan(pre + elem.take(3 + 3 * j)) == Ok::<Scan, ConfigError>(s2));
        lemma_scan_snoc(pre, elem, 3 + 3 * j);
        assert(scan_end(s2, kids[j].0) == Ok::<Scan, ConfigError>(s2));
        assert(kids.take(i).drop_last() =~= kids.take(j));
        assert(kids.take(i).last() == kids[j]);
        assert(s2 == inside_bool(sc, kids, i));
    }
}

/// A `<int-parameter>` element whose children are text elements adds one
/// parameter after those read before it: its name is the text of its last
/// `<name>` child, its bounds, step and default the numbers written in its
/// `<minimum>`, `<maximum>`, `<step>` and `<default>` children, and its
/// level the one named in its `<level>` child.
pub proof fn lemma_int_parameter_from_its_element(pre: Seq<XmlEvent>, elem: Seq<XmlEvent>, kids: Seq<(Seq<char>, Seq<char>)>)
    requires
        scan(pre) matches Ok(sc) && !sc.stopped,
        text_element(elem, "int-parameter"@, kids),
        kids.len() > 0,
        forall|j: int| 0 <= j < kids.len() ==> !is_section(#[trigger] kids[j].0),
        scan(pre + elem) is Ok,
    ensures
        ({
            let sc = scan(pre)->Ok_0;
            let sc2 = scan(pre + elem)->Ok_0;
            let p = sc2.int_params.last();
            &&& sc2.int_params == sc.int_params.push(p)
            &&& sc2.bool_params == sc.bool_params
            &&& !sc2.stopped
            &&& (last_text(kids, "name"@) matches Some(t) ==> p.name == t)
            &&& (last_text(kids, "minimum"@) matches Some(t) ==> parse_unsigned(t, usize::MAX as nat) == Some(p.min as nat))
            &&& (last_text(kids, "maximum"@) matches Some(t) ==> parse_unsigned(t, usize::MAX as nat) == Some(p.max as nat))
            &&& (last_text(kids, "step"@) matches Some(t) ==> parse_unsigned(t, usize::MAX as nat) == Some(p.step as nat))
            &&& (last_text(kids, "default"@) matches Some(t) ==> parse_unsigned(t, usize::MAX as nat) == Some(p.default as nat))
            &&& (last_text(kids, "level"@) matches Some(t) ==> ParameterLevel::spec_from_name(t) == Some(p.level))
        }),
{
    let sc = scan(pre)->Ok_0;
    let n = kids.len() as int;
    lemma_children_int(pre, elem, kids, n);
    let s = inside_int(sc, kids, n);
    assert(elem.take(1 + 3 * n) =~= elem.drop_last());
    lemma_scan_snoc(pre, elem, 1 + 3 * n);
    assert(elem.take(2 + 3 * n) =~= elem);
    reveal_strlit("int-parameter");
    reveal_strlit("bool-parameter");
    assert(elem[1 + 3 * n] matches XmlEvent::EndElement(e) && e@ == "int-parameter"@);
    assert(kids.take(n) =~= kids);
    let x = s.hm_int_targ;
    assert(x == with_texts(scan_start(sc, "int-parameter"@).hm_int_targ, kids));
    lemma_with_texts_last(scan_start(sc, "int-parameter"@).hm_int_targ, kids, "name"@);
    lemma_with_texts_last(scan_start(sc, "int-parameter"@).hm_int_targ, kids, "minimum"@);
    lemma_with_texts_last(scan_start(sc, "int-parameter"@).hm_int_targ, kids, "maximum"@);
    lemma_with_texts_last(scan_start(sc, "int-parameter"@).hm_int_targ, kids, "step"@);
    lemma_with_texts_last(scan_start(sc, "int-parameter"@).hm_int_targ, kids, "default"@);
    lemma_with_texts_last(scan_start(sc, "int-parameter"@).hm_int_targ, kids, "level"@);
    assert(int_parameter_from(x) is Ok);
    let p = int_parameter_from(x)->Ok_0;
    assert(scan(pre + elem)->Ok_0.int_params == sc.int_params.push(p));
}

/// A `<bool-parameter>` element whose children are text elements adds one
/// switch after those read before it: its name, true text and false text
/// are the texts of its last `<name>`, `<true>` and `<false>` children, its
/// default the truth value written in its `<default>` child, and its level
/// the one named in its `<level>` child.
pub proof fn lemma_switch_from_its_element(pre: Seq<XmlEvent>, elem: Seq<XmlEvent>, kids: Seq<(Seq<char>, Seq<char>)>)
    requires
        scan(pre) matches Ok(sc) && !sc.stopped,
        text_element(elem, "bool-parameter"@, kids),
        kids.len() > 0,
        forall|j: int| 0 <= j < kids.len() ==> !is_section(#[trigger] kids[j].0),
        scan(pre + elem) is Ok,
    ensures
        ({
            let sc = scan(pre)->Ok_0;
            let sc2 = scan(pre + elem)->Ok_0;
            let p = sc2.bool_params.last();
            &&& sc2.bool_params == sc.bool_params.push(p)
            &&& sc2.int_params == sc.int_params
            &&& !sc2.stopped
            &&& (last_text(kids, "name"@) matches Some(t) ==> p.name == t)
            &&& (last_text(kids, "true"@) matches Some(t) ==> p.true_val == t)
            &&& (last_text(kids, "false"@) matches Some(t) ==> p.false_val == t)
            &&& (last_text(kids, "default"@) matches Some(t) ==> parse_bool_spec(t) == Some(p.default))
            &&& (last_text(kids, "level"@) matches Some(t) ==> ParameterLevel::spec_from_name(t) == Some(p.level))
        }),
{
    let sc = scan(pre)->Ok_0;
    let n = kids.len() as int;
    lemma_children_bool(pre, elem, kids, n);
    let s = inside_bool(sc, kids, n);
    assert(elem.take(1 + 3 * n) =~= elem.drop_last());
    lemma_scan_snoc(pre, elem, 1 + 3 * n);
    assert(elem.take(2 + 3 * n) =~= elem);
    reveal_strlit("int-parameter");
    reveal_strlit("bool-parameter");
    assert("int-parameter"@[0] != "bool-parameter"@[0]);
    assert(elem[1 + 3 * n] matches XmlEvent::EndElement(e) && e@ == "bool-parameter"@);
    assert(kids.take(n) =~= kids);
    let x = s.hm_bool_targ;
    let x0 = scan_start(sc, "bool-parameter"@).hm_bool_targ;
    assert(x == with_texts(x0, kids));
    lemma_with_texts_last(x0, kids, "name"@);
    lemma_with_texts_last(x0, kids, "true"@);
    lemma_with_texts_last(x0, kids, "false"@);
    lemma_with_texts_last(x0, kids, "default"@);
    lemma_with_texts_last(x0, kids, "level"@);
    assert(bool_parameter_from(x) is Ok);
    let p = bool_parameter_from(x)->Ok_0;
    assert(scan(pre + elem)->Ok_0.bool_params == sc.bool_params.push(p));
}

} // verus!
