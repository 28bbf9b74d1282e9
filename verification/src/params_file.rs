//! The parameter file of the first tuners: one parameter per line, written
//! `NAME:[LOW,HIGH,STEP]:DEFAULT`, and the configurations explored from it.

use vstd::prelude::*;
use vstd::multiset::Multiset;
use crate::keyed::KeyedVec;
use crate::rng::{pick_one, random_index, shuffle};
use crate::text::{parse_decimal, parse_unsigned, replace, replace_all, split_char, split_on, views};

verus! {

/// The description of a parameter: its default and its space.
#[derive(Debug, Clone, Copy)]
pub struct ParamInfo {
    pub default_value: u32,
    pub lbound: u32,
    pub ubound: u32,
    pub step: u32,
}

/// A configuration: a value for each parameter, by name.
pub type State = KeyedVec<u32>;

/// The texts of a parameter line: name, low bound (without `[`), high
/// bound, step (without `]`) and default; `None` when a part is missing.
pub open spec fn line_fields(line: Seq<char>) -> Option<(Seq<char>, Seq<char>, Seq<char>, Seq<char>, Seq<char>)> {
    let top = split_on(line, ':');
    if top.len() < 3 {
        None
    } else {
        let sub = split_on(top[1], ',');
        if sub.len() < 3 {
            None
        } else {
            Some((top[0], replace_all(sub[0], "["@, seq![]), sub[1], replace_all(sub[2], "]"@, seq![]), top[2]))
        }
    }
}

/// The position of the first line with a missing part: reading stops there.
pub open spec fn first_stop(lines: Seq<Seq<char>>) -> Option<int>
    decreases lines.len(),
{
    if lines.len() == 0 {
        None
    } else {
        match first_stop(lines.drop_last()) {
            Some(i) => Some(i),
            None => if line_fields(lines.last()) is None {
                Some(lines.len() - 1)
            } else {
                None
            },
        }
    }
}

/// The lines that are read.
pub open spec fn read_lines(lines: Seq<Seq<char>>) -> Seq<Seq<char>> {
    match first_stop(lines) {
        Some(i) => lines.take(i),
        None => lines,
    }
}

/// The parameter described by a line whose parts are all there.
pub open spec fn line_info(line: Seq<char>) -> ParamInfo {
    let f = line_fields(line).unwrap();
    ParamInfo {
        default_value: parse_unsigned(f.4, u32::MAX as nat).unwrap() as u32,
        lbound: parse_unsigned(f.1, u32::MAX as nat).unwrap() as u32,
        ubound: parse_unsigned(f.2, u32::MAX as nat).unwrap() as u32,
        step: parse_unsigned(f.3, u32::MAX as nat).unwrap() as u32,
    }
}

/// A line whose numbers are unsigned 32-bit numbers and whose space is a
/// non-empty interval with a positive step.
pub open spec fn line_valid(line: Seq<char>) -> bool {
    &&& line_fields(line) matches Some(f) && {
        &&& parse_unsigned(f.1, u32::MAX as nat) is Some
        &&& parse_unsigned(f.2, u32::MAX as nat) is Some
        &&& parse_unsigned(f.3, u32::MAX as nat) is Some
        &&& parse_unsigned(f.4, u32::MAX as nat) is Some
    }
    &&& line_info(line).lbound <= line_info(line).ubound
    &&& line_info(line).step > 0
}

/// Every line that is read describes a valid parameter.
pub open spec fn lines_valid(lines: Seq<Seq<char>>) -> bool {
    forall|i: int| 0 <= i < read_lines(lines).len() ==> line_valid(#[trigger] read_lines(lines)[i])
}

/// The values `lbound, lbound + step, ..., lbound + n * step` where
/// `n = (ubound - lbound) / step`: the low bound alone when the bounds are
/// less than a step apart.
pub open spec fn space_values(lbound: u32, ubound: u32, step: u32) -> Seq<u32> {
    let n = (ubound - lbound) / (step as int);
    Seq::new((n + 1) as nat, |k: int| (lbound + step * k) as u32)
}

/// The descriptions after reading `lines` into `m`: a later line wins.
pub open spec fn infos_after(m: Map<Seq<char>, ParamInfo>, lines: Seq<Seq<char>>) -> Map<Seq<char>, ParamInfo>
    decreases lines.len(),
{
    if lines.len() == 0 {
        m
    } else {
        infos_after(m, lines.drop_last()).insert(line_fields(lines.last()).unwrap().0, line_info(lines.last()))
    }
}

/// The spaces (as multisets of values) after reading `lines` into `m`.
pub open spec fn spaces_after(m: Map<Seq<char>, Multiset<u32>>, lines: Seq<Seq<char>>) -> Map<Seq<char>, Multiset<u32>>
    decreases lines.len(),
{
    if lines.len() == 0 {
        m
    } else {
        let info = line_info(lines.last());
        spaces_after(m, lines.drop_last()).insert(
            line_fields(lines.last()).unwrap().0,
            space_values(info.lbound, info.ubound, info.step).to_multiset(),
        )
    }
}

/// The configuration after reading `lines` into `m`: each parameter at its
/// default.
pub open spec fn defaults_after(m: Map<Seq<char>, u32>, lines: Seq<Seq<char>>) -> Map<Seq<char>, u32>
    decreases lines.len(),
{
    if lines.len() == 0 {
        m
    } else {
        defaults_after(m, lines.drop_last()).insert(
            line_fields(lines.last()).unwrap().0,
            line_info(lines.last()).default_value,
        )
    }
}

/// The spaces of a table, as multisets.
pub open spec fn space_multisets(m: Map<Seq<char>, Vec<u32>>) -> Map<Seq<char>, Multiset<u32>> {
    m.map_values(|v: Vec<u32>| v@.to_multiset())
}

/// The states that differ from `current` in one parameter: for each
/// parameter in order, one state per value of its space, in order.
pub open spec fn neighbours(spaces: Seq<(Seq<char>, Vec<u32>)>, current: Map<Seq<char>, u32>) -> Seq<Map<Seq<char>, u32>>
    decreases spaces.len(),
{
    if spaces.len() == 0 {
        seq![]
    } else {
        neighbours(spaces.drop_last(), current) + spaces.last().1@.map_values(
            |v: u32| current.insert(spaces.last().0, v),
        )
    }
}

pub open spec fn state_views(v: Seq<State>) -> Seq<Map<Seq<char>, u32>> {
    v.map_values(|s: State| s@)
}

/// The parameters read from the parameter file, their spaces, the
/// configurations waiting to be explored and the current configuration.
pub struct ParamsConfigurator {
    pub param_file_path: String,
    pub params_info_list: KeyedVec<ParamInfo>,
    pub params_space_state: KeyedVec<Vec<u32>>,
    pub neighborhoods: Vec<State>,
    pub current_state: State,
}

proof fn lemma_first_stop_take(lines: Seq<Seq<char>>, k: int)
    requires
        0 <= k < lines.len(),
    ensures
        first_stop(lines.take(k + 1)) == match first_stop(lines.take(k)) {
            Some(i) => Some(i),
            None => if line_fields(lines[k]) is None {
                Some(k)
            } else {
                None
            },
        },
{
    assert(lines.take(k + 1).drop_last() =~= lines.take(k));
    assert(lines.take(k + 1).last() == lines[k]);
}

proof fn lemma_first_stop_grows(lines: Seq<Seq<char>>, k: int, m: int)
    requires
        0 <= k <= m <= lines.len(),
        first_stop(lines.take(k)) is Some,
    ensures
        first_stop(lines.take(m)) == first_stop(lines.take(k)),
    decreases m - k,
{
    if m > k {
        lemma_first_stop_grows(lines, k, m - 1);
        lemma_first_stop_take(lines, m - 1);
    }
}

/// Splits a line into its parts, if they are all there.
fn parse_line(line: &str) -> (r: Option<(String, String, String, String, String)>)
    ensures
        match r {
            Some(f) => line_fields(line@) == Some((f.0@, f.1@, f.2@, f.3@, f.4@)),
            None => line_fields(line@) is None,
        },
{
    let top = split_char(line, ':');
    if top.len() < 3 {
        return None;
    }
    let sub = split_char(top[1].as_str(), ',');
    if sub.len() < 3 {
        return None;
    }
    let lbound = replace(sub[0].as_str(), "[", "");
    let step = replace(sub[2].as_str(), "]", "");
    proof {
        reveal_strlit("");
        assert(""@ =~= Seq::<char>::empty());
    }
    Some((top[0].clone(), lbound, sub[1].clone(), step, top[2].clone()))
}

/// The space of a parameter with bounds `lbound`, `ubound` and `step`, in
/// random order.
fn get_space_state(lbound: u32, ubound: u32, step: u32) -> (r: Vec<u32>)
    requires
        lbound <= ubound,
        step > 0,
    ensures
        r@.to_multiset() == space_values(lbound, ubound, step).to_multiset(),
{
    let mut res_vec: Vec<u32> = Vec::new();
    let num_it = (ubound - lbound) / step;
    let mut x: u32 = 0;
    proof {
        assert((num_it as int) * (step as int) <= ubound - lbound) by (nonlinear_arith)
            requires
                num_it == (ubound - lbound) / (step as int),
                step > 0,
                ubound >= lbound,
        ;
    }
    res_vec.push(lbound);
    assert(res_vec@ =~= Seq::new(1, |k: int| (lbound + step * k) as u32));
    while x < num_it
        invariant
            num_it == (ubound - lbound) / (step as int),
            (num_it as int) * (step as int) <= ubound - lbound,
            step > 0,
            lbound <= ubound,
            x <= num_it,
            res_vec@ =~= Seq::new((x + 1) as nat, |k: int| (lbound + step * k) as u32),
        decreases num_it - x,
    {
        proof {
            assert((step as int) * (x as int + 1) <= (step as int) * (num_it as int)) by (nonlinear_arith)
                requires
                    x < num_it,
                    step > 0,
            ;
        }
        x = x + 1;
        res_vec.push(lbound + step * x);
    }
    let ghost before = res_vec@;
    shuffle(&mut res_vec);
    proof {
        assert(before =~= space_values(lbound, ubound, step));
    }
    res_vec
}

/// Whether every line that is read describes a valid parameter: the lines
/// on which `get_initial_param_conf` gives an answer.
pub fn lines_accepted(lines: &Vec<String>) -> (r: bool)
    ensures
        r == lines_valid(views(lines@)),
{
    let ghost ls = views(lines@);
    let mut i: usize = 0;
    assert(ls.take(0) =~= Seq::<Seq<char>>::empty());
    while i < lines.len()
        invariant
            ls == views(lines@),
            i <= lines@.len(),
            first_stop(ls.take(i as int)) is None,
            forall|j: int| 0 <= j < i ==> line_valid(#[trigger] ls[j]),
        decreases lines@.len() - i,
    {
        proof {
            lemma_first_stop_take(ls, i as int);
            assert(ls[i as int] == lines@[i as int]@);
        }
        match parse_line(lines[i].as_str()) {
            None => {
                proof {
                    lemma_first_stop_grows(ls, i + 1, ls.len() as int);
                    assert(ls.take(ls.len() as int) =~= ls);
                    assert(read_lines(ls) == ls.take(i as int));
                    assert forall|j: int| 0 <= j < read_lines(ls).len() implies line_valid(
                        #[trigger] read_lines(ls)[j],
                    ) by {
                        assert(read_lines(ls)[j] == ls[j]);
                    }
                }
                return true;
            },
            Some((_name, lb_text, ub_text, step_text, value_text)) => {
                let value = parse_decimal(value_text.as_str(), 4294967295u64);
                let lbound = parse_decimal(lb_text.as_str(), 4294967295u64);
                let ubound = parse_decimal(ub_text.as_str(), 4294967295u64);
                let step = parse_decimal(step_text.as_str(), 4294967295u64);
                let ok = match (value, lbound, ubound, step) {
                    (Some(_), Some(lb), Some(ub), Some(st)) => lb <= ub && st > 0,
                    _ => false,
                };
                if !ok {
                    proof {
                        lemma_read_lines_at(ls, i as int);
                        assert(!line_valid(read_lines(ls)[i as int]));
                    }
                    return false;
                }
            },
        }
        i = i + 1;
    }
    proof {
        assert(ls.take(i as int) =~= ls);
        assert(read_lines(ls) == ls);
    }
    true
}

impl ParamsConfigurator {
    /// No file, no parameters, no configuration.
    pub fn new() -> (r: ParamsConfigurator)
        ensures
            r.param_file_path@ == Seq::<char>::empty(),
            r.params_info_list@ == Map::<Seq<char>, ParamInfo>::empty(),
            r.params_space_state@ == Map::<Seq<char>, Vec<u32>>::empty(),
            r.neighborhoods@ == Seq::<State>::empty(),
            r.current_state@ == Map::<Seq<char>, u32>::empty(),
    {
        ParamsConfigurator {
            param_file_path: String::new(),
            params_info_list: KeyedVec::new(),
            params_space_state: KeyedVec::new(),
            neighborhoods: Vec::new(),
            current_state: KeyedVec::new(),
        }
    }

    /// Reads the parameters from the lines `lines` of the parameter file, up
    /// to the first line with a missing part: each becomes known with its
    /// space and is set to its default in the current configuration, which
    /// is returned.
    pub fn get_initial_param_conf(&mut self, lines: &Vec<String>) -> (r: State)
        requires
            lines_valid(views(lines@)),
        ensures
            final(self).params_info_list@ == infos_after(old(self).params_info_list@, read_lines(views(lines@))),
            space_multisets(final(self).params_space_state@) == spaces_after(
                space_multisets(old(self).params_space_state@),
                read_lines(views(lines@)),
            ),
            final(self).current_state@ == defaults_after(old(self).current_state@, read_lines(views(lines@))),
            r@ == final(self).current_state@,
            final(self).param_file_path@ == old(self).param_file_path@,
            final(self).neighborhoods@ == old(self).neighborhoods@,
    {
        let ghost ls = views(lines@);
        let ghost infos0 = self.params_info_list@;
        let ghost spaces0 = space_multisets(self.params_space_state@);
        let ghost state0 = self.current_state@;
        let mut i: usize = 0;
        assert(ls.take(0) =~= Seq::<Seq<char>>::empty());
        while i < lines.len()
            invariant
                ls == views(lines@),
                lines_valid(ls),
                i <= lines@.len(),
                first_stop(ls.take(i as int)) is None,
                infos0 == old(self).params_info_list@,
                spaces0 == space_multisets(old(self).params_space_state@),
                state0 == old(self).current_state@,
                self.params_info_list@ == infos_after(infos0, ls.take(i as int)),
                space_multisets(self.params_space_state@) == spaces_after(spaces0, ls.take(i as int)),
                self.current_state@ == defaults_after(state0, ls.take(i as int)),
                self.param_file_path@ == old(self).param_file_path@,
                self.neighborhoods@ == old(self).neighborhoods@,
            decreases lines@.len() - i,
        {
            proof {
                lemma_first_stop_take(ls, i as int);
            }
            let fields = parse_line(lines[i].as_str());
            match fields {
                None => {
                    proof {
                        lemma_first_stop_grows(ls, i + 1, ls.len() as int);
                        assert(ls.take(ls.len() as int) =~= ls);
                        assert(read_lines(ls) == ls.take(i as int));
                        assert(self.params_info_list@ == infos_after(infos0, read_lines(ls)));
                        assert(space_multisets(self.params_space_state@) == spaces_after(spaces0, read_lines(ls)));
                    }
                    return self.current_state.duplicate();
                },
                Some((name, lb_text, ub_text, step_text, value_text)) => {
                    proof {
                        assert(ls[i as int] == lines@[i as int]@);
                        lemma_valid_before_stop(ls, i as int);
                    }
                    let value = match parse_decimal(value_text.as_str(), 4294967295u64) {
                        Some(v) => v as u32,
                        None => unreached(),
                    };
                    let lbound = match parse_decimal(lb_text.as_str(), 4294967295u64) {
                        Some(v) => v as u32,
                        None => unreached(),
                    };
                    let ubound = match parse_decimal(ub_text.as_str(), 4294967295u64) {
                        Some(v) => v as u32,
                        None => unreached(),
                    };
                    let step = match parse_decimal(step_text.as_str(), 4294967295u64) {
                        Some(v) => v as u32,
                        None => unreached(),
                    };
                    let info = ParamInfo { default_value: value, lbound, ubound, step };
                    assert(info == line_info(ls[i as int]));
                    let space = get_space_state(lbound, ubound, step);
                    let ghost sp_before = self.params_space_state@;
                    self.params_info_list.insert(name.clone(), info);
                    self.params_space_state.insert(name.clone(), space);
                    self.current_state.insert(name, value);
                    proof {
                        let t = ls.take(i + 1);
                        assert(t.drop_last() =~= ls.take(i as int));
                        assert(t.last() == ls[i as int]);
                        assert(space_multisets(self.params_space_state@) =~= space_multisets(sp_before).insert(
                            line_fields(ls[i as int]).unwrap().0,
                            space_values(lbound, ubound, step).to_multiset(),
                        ));
                    }
                },
            }
            i = i + 1;
        }
        proof {
            assert(ls.take(i as int) =~= ls);
        }
        self.current_state.duplicate()
    }

    /// Appends to the configurations waiting to be explored, for each
    /// parameter and each value of its space, the current configuration
    /// with that parameter set to that value.
    pub fn fill_neighborhoods_vec(&mut self)
        requires
            forall|k: Seq<char>|
                old(self).params_space_state@.contains_key(k) ==> old(self).current_state@.contains_key(k),
        ensures
            state_views(final(self).neighborhoods@) == state_views(old(self).neighborhoods@) + neighbours(
                old(self).params_space_state.entries(),
                old(self).current_state@,
            ),
            final(self).params_space_state == old(self).params_space_state,
            final(self).current_state == old(self).current_state,
            final(self).params_info_list == old(self).params_info_list,
            final(self).param_file_path == old(self).param_file_path,
    {
        let n = self.params_space_state.len();
        let ghost es = self.params_space_state.entries();
        let ghost start = state_views(self.neighborhoods@);
        let mut i: usize = 0;
        assert(es.take(0) =~= Seq::<(Seq<char>, Vec<u32>)>::empty());
        assert(start + neighbours(es.take(0), self.current_state@) =~= start);
        while i < n
            invariant
                n == es.len(),
                es == self.params_space_state.entries(),
                i <= n,
                forall|j: int| 0 <= j < n ==> self.params_space_state@.contains_key(#[trigger] es[j].0),
                forall|k: Seq<char>|
                    self.params_space_state@.contains_key(k) ==> self.current_state@.contains_key(k),
                state_views(self.neighborhoods@) == start + neighbours(es.take(i as int), self.current_state@),
                self.params_space_state == old(self).params_space_state,
                self.current_state == old(self).current_state,
                self.params_info_list == old(self).params_info_list,
                self.param_file_path == old(self).param_file_path,
            decreases n - i,
        {
            let (name, space) = self.params_space_state.entry_at(i);
            assert(self.current_state@.contains_key(name@));
            let ghost base = state_views(self.neighborhoods@);
            let m = space.len();
            let mut t: usize = 0;
            while t < m
                invariant
                    m == space@.len(),
                    t <= m,
                    state_views(self.neighborhoods@) == base + space@.take(t as int).map_values(
                        |v: u32| self.current_state@.insert(name@, v),
                    ),
                    self.params_space_state == old(self).params_space_state,
                    self.current_state == old(self).current_state,
                    self.params_info_list == old(self).params_info_list,
                    self.param_file_path == old(self).param_file_path,
                decreases m - t,
            {
                let mut temp = self.current_state.duplicate();
                temp.insert(name.clone(), space[t]);
                let ghost before = state_views(self.neighborhoods@);
                self.neighborhoods.push(temp);
                proof {
                    assert(state_views(self.neighborhoods@) =~= before.push(
                        self.current_state@.insert(name@, space@[t as int]),
                    ));
                    assert(space@.take(t + 1).map_values(|v: u32| self.current_state@.insert(name@, v))
                        =~= space@.take(t as int).map_values(|v: u32| self.current_state@.insert(name@, v)).push(
                        self.current_state@.insert(name@, space@[t as int]),
                    ));
                }
                t = t + 1;
            }
            proof {
                assert(space@.take(t as int) =~= space@);
                let e = es.take(i + 1);
                assert(e.drop_last() =~= es.take(i as int));
                assert(e.last() == es[i as int]);
            }
            i = i + 1;
        }
        assert(es.take(n as int) =~= es);
    }

    /// Adds the neighbours of the current configuration to the
    /// configurations waiting to be explored, then takes one of them, at a
    /// random position other than the last; `None` when there is none.
    pub fn get_neighborhood_params(&mut self, max_steps: u64, current_step: u64) -> (r: Option<State>)
        requires
            forall|k: Seq<char>|
                old(self).params_space_state@.contains_key(k) ==> old(self).current_state@.contains_key(k),
            old(self).neighborhoods@.len() + neighbours(
                old(self).params_space_state.entries(),
                old(self).current_state@,
            ).len() != 1,
        ensures
            ({
                let all = state_views(old(self).neighborhoods@) + neighbours(
                    old(self).params_space_state.entries(),
                    old(self).current_state@,
                );
                &&& all.len() == 0 ==> r is None && final(self).neighborhoods@.len() == 0
                &&& all.len() > 0 ==> exists|i: int|
                    0 <= i < all.len() - 1 && (r matches Some(s) && s@ == all[i]) && state_views(
                        final(self).neighborhoods@,
                    ) == all.remove(i)
            }),
            final(self).params_space_state == old(self).params_space_state,
            final(self).current_state == old(self).current_state,
            final(self).params_info_list == old(self).params_info_list,
    {
        self.fill_neighborhoods_vec();
        let num_configurations = self.neighborhoods.len();
        proof {
            assert(state_views(self.neighborhoods@).len() == self.neighborhoods@.len());
            assert(state_views(old(self).neighborhoods@).len() == old(self).neighborhoods@.len());
        }
        if num_configurations == 0 {
            None
        } else {
            let i = random_index(0, num_configurations - 1);
            let ghost before = self.neighborhoods@;
            let chosen = self.neighborhoods.remove(i);
            proof {
                assert(state_views(self.neighborhoods@) =~= state_views(before).remove(i as int));
            }
            Some(chosen)
        }
    }

    /// Sets each parameter of the current configuration to a random value of
    /// its space, and returns the configuration.
    pub fn get_random_state(&mut self) -> (r: State)
        requires
            forall|k: Seq<char>|
                old(self).params_space_state@.contains_key(k) ==> old(self).current_state@.contains_key(k)
                    && old(self).params_space_state@[k]@.len() > 0,
        ensures
            final(self).current_state@.dom() == old(self).current_state@.dom(),
            forall|k: Seq<char>| #[trigger]
                final(self).current_state@.contains_key(k) ==> if old(self).params_space_state@.contains_key(k) {
                    old(self).params_space_state@[k]@.contains(final(self).current_state@[k])
                } else {
                    final(self).current_state@[k] == old(self).current_state@[k]
                },
            r@ == final(self).current_state@,
            final(self).params_space_state == old(self).params_space_state,
            final(self).params_info_list == old(self).params_info_list,
            final(self).neighborhoods == old(self).neighborhoods,
    {
        let n = self.params_space_state.len();
        let ghost ks = self.params_space_state.keys();
        let mut i: usize = 0;
        while i < n
            invariant
                n == self.params_space_state.entries().len(),
                ks == self.params_space_state.keys(),
                i <= n,
                forall|a: int, b: int|
                    0 <= a < b < n ==> #[trigger] self.params_space_state.entries()[a].0
                        != #[trigger] self.params_space_state.entries()[b].0,
                forall|j: int|
                    0 <= j < n ==> self.params_space_state@.contains_key(
                        #[trigger] self.params_space_state.entries()[j].0,
                    ) && self.params_space_state@[self.params_space_state.entries()[j].0]
                        == self.params_space_state.entries()[j].1,
                forall|k: Seq<char>|
                    old(self).params_space_state@.contains_key(k) ==> old(self).current_state@.contains_key(k)
                        && old(self).params_space_state@[k]@.len() > 0,
                self.params_space_state == old(self).params_space_state,
                self.params_info_list == old(self).params_info_list,
                self.neighborhoods == old(self).neighborhoods,
                self.current_state@.dom() == old(self).current_state@.dom(),
                forall|k: Seq<char>| #[trigger]
                    self.current_state@.contains_key(k) ==> if ks.take(i as int).contains(k) {
                        old(self).params_space_state@[k]@.contains(self.current_state@[k])
                    } else {
                        self.current_state@[k] == old(self).current_state@[k]
                    },
            decreases n - i,
        {
            let (name, space) = self.params_space_state.entry_at(i);
            assert(self.params_space_state@.contains_key(name@));
            let v = match pick_one(space.as_slice()) {
                Some(v) => *v,
                None => unreached(),
            };
            let ghost before = self.current_state@;
            let name_c = name.clone();
            self.current_state.insert(name_c, v);
            proof {
                assert(ks.take(i + 1) =~= ks.take(i as int).push(name@));
                assert(self.current_state@.dom() =~= old(self).current_state@.dom());
                assert forall|k: Seq<char>| #[trigger] self.current_state@.contains_key(k) implies (if ks.take(
                    i + 1,
                ).contains(k) {
                    old(self).params_space_state@[k]@.contains(self.current_state@[k])
                } else {
                    self.current_state@[k] == old(self).current_state@[k]
                }) by {
                    let longer = ks.take(i + 1);
                    let shorter = ks.take(i as int);
                    if k == name@ {
                        assert(longer[i as int] == k);
                    } else {
                        assert(longer.contains(k) == shorter.contains(k)) by {
                            if longer.contains(k) {
                                let t = choose|t: int| 0 <= t < longer.len() && longer[t] == k;
                                assert(shorter[t] == k);
                            }
                            if shorter.contains(k) {
                                let t = choose|t: int| 0 <= t < shorter.len() && shorter[t] == k;
                                assert(longer[t] == k);
                            }
                        }
                    }
                }
            }
            i = i + 1;
        }
        proof {
            assert(ks.take(n as int) =~= ks);
            assert forall|k: Seq<char>| #[trigger]
                self.current_state@.contains_key(k) implies (if old(self).params_space_state@.contains_key(k) {
                old(self).params_space_state@[k]@.contains(self.current_state@[k])
            } else {
                self.current_state@[k] == old(self).current_state@[k]
            }) by {
                if old(self).params_space_state@.contains_key(k) {
                    let j = choose|j: int| 0 <= j < n && self.params_space_state.entries()[j].0 == k;
                    assert(ks[j] == k);
                } else if ks.contains(k) {
                    let j = choose|j: int| 0 <= j < ks.len() && ks[j] == k;
                    assert(self.params_space_state.entries()[j].0 == k);
                }
            }
        }
        self.current_state.duplicate()
    }
}

proof fn lemma_read_lines_at(lines: Seq<Seq<char>>, i: int)
    requires
        0 <= i < lines.len(),
        first_stop(lines.take(i)) is None,
        line_fields(lines[i]) is Some,
    ensures
        i < read_lines(lines).len(),
        read_lines(lines)[i] == lines[i],
{
    lemma_first_stop_take(lines, i);
    if first_stop(lines) is Some {
        let s = first_stop(lines).unwrap();
        lemma_first_stop_bound(lines);
        if s <= i {
            lemma_first_stop_prefix(lines, s);
            if s < i {
                lemma_first_stop_grows(lines, s + 1, i);
            }
        }
    }
}

proof fn lemma_valid_before_stop(lines: Seq<Seq<char>>, i: int)
    requires
        lines_valid(lines),
        0 <= i < lines.len(),
        first_stop(lines.take(i)) is None,
        line_fields(lines[i]) is Some,
    ensures
        line_valid(lines[i]),
{
    lemma_read_lines_at(lines, i);
    assert(line_valid(read_lines(lines)[i]));
}

proof fn lemma_first_stop_bound(lines: Seq<Seq<char>>)
    ensures
        first_stop(lines) matches Some(s) ==> 0 <= s < lines.len() && line_fields(lines[s]) is None,
    decreases lines.len(),
{
    if lines.len() > 0 {
        lemma_first_stop_bound(lines.drop_last());
        if first_stop(lines.drop_last()) is Some {
            let s = first_stop(lines.drop_last()).unwrap();
            assert(lines.drop_last()[s] == lines[s]);
        }
    }
}

/// A stop at `s` shows in every prefix longer than `s`.
proof fn lemma_first_stop_prefix(lines: Seq<Seq<char>>, s: int)
    requires
        first_stop(lines) == Some(s),
    ensures
        first_stop(lines.take(s + 1)) == Some(s),
    decreases lines.len(),
{
    lemma_first_stop_bound(lines);
    if lines.len() > 0 {
        if first_stop(lines.drop_last()) == Some(s) {
            lemma_first_stop_bound(lines.drop_last());
            lemma_first_stop_prefix(lines.drop_last(), s);
            assert(lines.drop_last().take(s + 1) =~= lines.take(s + 1));
        } else {
            assert(s == lines.len() - 1);
            assert(lines.take(s + 1) =~= lines);
        }
    }
}

/// Every value of the space of a parameter lies between its bounds and is
/// reached from the low bound in whole steps, and the low bound itself
/// always belongs to the space.
pub proof fn lemma_space_values_in_bounds(lbound: u32, ubound: u32, step: u32)
    requires
        lbound <= ubound,
        step > 0,
    ensures
        forall|i: int|
            0 <= i < space_values(lbound, ubound, step).len() ==> {
                let v = #[trigger] space_values(lbound, ubound, step)[i];
                lbound <= v <= ubound && (v - lbound) % (step as int) == 0
            },
        space_values(lbound, ubound, step).contains(lbound),
{
    let n = (ubound - lbound) / (step as int);
    assert(n * step <= ubound - lbound) by (nonlinear_arith)
        requires
            n == (ubound - lbound) / (step as int),
            step > 0,
            ubound >= lbound,
    ;
    assert forall|i: int| 0 <= i < space_values(lbound, ubound, step).len() implies {
        let v = #[trigger] space_values(lbound, ubound, step)[i];
        lbound <= v <= ubound && (v - lbound) % (step as int) == 0
    } by {
        assert(0 <= step * i <= ubound - lbound) by (nonlinear_arith)
            requires
                0 <= i <= n,
                step > 0,
                n * step <= ubound - lbound,
        ;
        assert((step * i) % (step as int) == 0) by (nonlinear_arith)
            requires
                step > 0,
                i >= 0,
        ;
        let w = lbound + step * i;
        assert(0 <= w <= u32::MAX);
        assert(space_values(lbound, ubound, step)[i] == w as u32);
        assert((w as u32) as int == w);
    }
    assert(space_values(lbound, ubound, step)[0] == lbound);
}

/// `s` is `current` with one parameter of `spaces` set to a value of its
/// space.
pub open spec fn varies_one(spaces: Seq<(Seq<char>, Vec<u32>)>, current: Map<Seq<char>, u32>, s: Map<Seq<char>, u32>) -> bool {
    exists|j: int, v: u32| 0 <= j < spaces.len() && spaces[j].1@.contains(v) && s == current.insert(spaces[j].0, v)
}

/// Each neighbour differs from the current configuration in one parameter
/// only, which takes a value of its space.
pub proof fn lemma_neighbours_vary_one(spaces: Seq<(Seq<char>, Vec<u32>)>, current: Map<Seq<char>, u32>)
    ensures
        forall|i: int|
            0 <= i < neighbours(spaces, current).len() ==> varies_one(spaces, current, #[trigger] neighbours(spaces, current)[i]),
    decreases spaces.len(),
{
    if spaces.len() > 0 {
        let p = spaces.drop_last();
        lemma_neighbours_vary_one(p, current);
        let last = spaces.last();
        let a = neighbours(p, current);
        assert forall|i: int| 0 <= i < neighbours(spaces, current).len() implies varies_one(
            spaces,
            current,
            #[trigger] neighbours(spaces, current)[i],
        ) by {
            if i < a.len() {
                assert(neighbours(spaces, current)[i] == a[i]);
                assert(varies_one(p, current, a[i]));
                let (j, v) = choose|j: int, v: u32|
                    0 <= j < p.len() && p[j].1@.contains(v) && a[i] == current.insert(p[j].0, v);
                assert(spaces[j] == p[j]);
            } else {
                let t = i - a.len();
                let v = last.1@[t];
                let j = spaces.len() - 1;
                assert(last.1@.contains(v));
                assert(spaces[j] == last);
                assert(neighbours(spaces, current)[i] == current.insert(last.0, v));
            }
        }
    }
}

} // verus!
