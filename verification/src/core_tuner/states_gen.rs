use vstd::prelude::*;
use crate::keyed::KeyedVec;
use crate::rng::pick_one;
use crate::text::{decimal, usize_to_string, views};
use crate::tuner::states_gen::{ParamsConfigurator as IntSpaces, space_values};
use super::shared::{BoolParameter, IntParameter};
use super::xml_parser::{bool_params_view, int_params_view};

verus! {

/// A configuration: the text of each parameter's value, by name.
pub type State = KeyedVec<String>;

pub open spec fn text_view(m: Map<Seq<char>, String>) -> Map<Seq<char>, Seq<char>> {
    m.map_values(|s: String| s@)
}

/// For each integer parameter in order and each value of its space, the
/// state `current` with that parameter set to the value's decimal text.
pub open spec fn int_neighbours(
    spaces: Seq<(Seq<char>, Vec<usize>)>,
    current: Map<Seq<char>, Seq<char>>,
) -> Seq<Map<Seq<char>, Seq<char>>>
    decreases spaces.len(),
{
    if spaces.len() == 0 {
        seq![]
    } else {
        int_neighbours(spaces.drop_last(), current) + spaces.last().1@.map_values(
            |v: usize| current.insert(spaces.last().0, decimal(v as nat)),
        )
    }
}

/// The same for the switches, with each value's text.
pub open spec fn bool_neighbours(
    spaces: Seq<(Seq<char>, Vec<String>)>,
    current: Map<Seq<char>, Seq<char>>,
) -> Seq<Map<Seq<char>, Seq<char>>>
    decreases spaces.len(),
{
    if spaces.len() == 0 {
        seq![]
    } else {
        bool_neighbours(spaces.drop_last(), current) + spaces.last().1@.map_values(
            |v: String| current.insert(spaces.last().0, v@),
        )
    }
}

pub open spec fn state_views(v: Seq<State>) -> Seq<Map<Seq<char>, Seq<char>>> {
    v.map_values(|s: State| text_view(s@))
}

/// Generates the configurations of integer parameters and switches that the
/// annealing explores.
pub struct ParamsConfigurator {
    pub targ_int_params: Vec<IntParameter>,
    pub targ_bool_params: Vec<BoolParameter>,
    pub int_params_space_state: KeyedVec<Vec<usize>>,
    pub bool_params_space_state: KeyedVec<Vec<String>>,
}

impl ParamsConfigurator {
    /// The configurator for the integer parameters `ip` and the switches `bp`.
    pub fn new(ip: Vec<IntParameter>, bp: Vec<BoolParameter>) -> (r: ParamsConfigurator)
        requires
            forall|i: int| 0 <= i < ip@.len() ==> (#[trigger] ip@[i]).min <= ip@[i].max && ip@[i].step > 0,
        ensures
            int_params_view(r.targ_int_params@) == int_params_view(ip@),
            bool_params_view(r.targ_bool_params@) == bool_params_view(bp@),
            forall|i: int| 0 <= i < ip@.len() ==> r.int_params_space_state@.contains_key(#[trigger] ip@[i].name@),
            forall|k: Seq<char>| #[trigger] r.int_params_space_state@.contains_key(k) ==> exists|i: int|
                0 <= i < ip@.len() && ip@[i].name@ == k && r.int_params_space_state@[k]@.to_multiset()
                    == space_values(ip@[i].min, ip@[i].max, ip@[i].step).to_multiset(),
            forall|i: int| 0 <= i < bp@.len() ==> r.bool_params_space_state@.contains_key(#[trigger] bp@[i].name@),
            forall|k: Seq<char>| #[trigger] r.bool_params_space_state@.contains_key(k) ==> exists|i: int|
                0 <= i < bp@.len() && bp@[i].name@ == k && views(r.bool_params_space_state@[k]@)
                    == seq![bp@[i].true_val@, bp@[i].false_val@],
    {
        let mut int_ss: KeyedVec<Vec<usize>> = KeyedVec::new();
        let mut i: usize = 0;
        while i < ip.len()
            invariant
                i <= ip@.len(),
                forall|j: int| 0 <= j < ip@.len() ==> (#[trigger] ip@[j]).min <= ip@[j].max && ip@[j].step > 0,
                forall|j: int| 0 <= j < i ==> int_ss@.contains_key(#[trigger] ip@[j].name@),
                forall|k: Seq<char>| #[trigger] int_ss@.contains_key(k) ==> exists|j: int|
                    0 <= j < i && ip@[j].name@ == k && int_ss@[k]@.to_multiset()
                        == space_values(ip@[j].min, ip@[j].max, ip@[j].step).to_multiset(),
            decreases ip@.len() - i,
        {
            let p = &ip[i];
            let space = Self::generate_int_space_state(p.min, p.max, p.step);
            let ghost before = int_ss@;
            int_ss.insert(p.name.clone(), space);
            proof {
                assert forall|k: Seq<char>| #[trigger] int_ss@.contains_key(k) implies exists|j: int|
                    0 <= j < i + 1 && ip@[j].name@ == k && int_ss@[k]@.to_multiset()
                        == space_values(ip@[j].min, ip@[j].max, ip@[j].step).to_multiset() by {
                    if k == p.name@ {
                        assert(ip@[i as int].name@ == k);
                    } else {
                        assert(before.contains_key(k));
                    }
                }
            }
            i = i + 1;
        }
        let mut bool_ss: KeyedVec<Vec<String>> = KeyedVec::new();
        let mut j: usize = 0;
        while j < bp.len()
            invariant
                j <= bp@.len(),
                forall|t: int| 0 <= t < j ==> bool_ss@.contains_key(#[trigger] bp@[t].name@),
                forall|k: Seq<char>| #[trigger] bool_ss@.contains_key(k) ==> exists|t: int|
                    0 <= t < j && bp@[t].name@ == k && views(bool_ss@[k]@)
                        == seq![bp@[t].true_val@, bp@[t].false_val@],
            decreases bp@.len() - j,
        {
            let p = &bp[j];
            let mut temp_vec: Vec<String> = Vec::new();
            temp_vec.push(p.true_val.clone());
            temp_vec.push(p.false_val.clone());
            assert(views(temp_vec@) =~= seq![p.true_val@, p.false_val@]);
            let ghost before = bool_ss@;
            bool_ss.insert(p.name.clone(), temp_vec);
            proof {
                assert forall|k: Seq<char>| #[trigger] bool_ss@.contains_key(k) implies exists|t: int|
                    0 <= t < j + 1 && bp@[t].name@ == k && views(bool_ss@[k]@)
                        == seq![bp@[t].true_val@, bp@[t].false_val@] by {
                    if k == p.name@ {
                        assert(bp@[j as int].name@ == k);
                    } else {
                        assert(before.contains_key(k));
                    }
                }
            }
            j = j + 1;
        }
        ParamsConfigurator {
            targ_int_params: ip,
            targ_bool_params: bp,
            int_params_space_state: int_ss,
            bool_params_space_state: bool_ss,
        }
    }

    /// The space of an integer parameter, in random order.
    fn generate_int_space_state(lbound: usize, ubound: usize, step: usize) -> (r: Vec<usize>)
        requires
            lbound <= ubound,
            step > 0,
        ensures
            r@.to_multiset() == space_values(lbound, ubound, step).to_multiset(),
    {
        IntSpaces::get_space_state(lbound, ubound, step)
    }

    /// The default configuration: each integer parameter's default in decimal,
    /// each switch's text for its default; a switch wins over an integer
    /// parameter of the same name, and a later parameter over an earlier one.
    pub fn get_initial_param_conf(&self) -> (r: State)
        ensures
            text_view(r@) == bool_defaults(
                bool_params_view(self.targ_bool_params@),
                int_defaults(int_params_view(self.targ_int_params@)),
            ),
            forall|i: int|
                #[trigger] last_switch(bool_params_view(self.targ_bool_params@), i) ==> {
                    let p = self.targ_bool_params@[i];
                    &&& r@.contains_key(p.name@)
                    &&& r@[p.name@]@ == if p.default {
                        p.true_val@
                    } else {
                        p.false_val@
                    }
                },
            forall|i: int|
                #[trigger] last_int(int_params_view(self.targ_int_params@), i) && (forall|j: int|
                    0 <= j < self.targ_bool_params@.len() ==> (#[trigger] self.targ_bool_params@[j]).name@
                        != self.targ_int_params@[i].name@) ==> {
                    let p = self.targ_int_params@[i];
                    &&& r@.contains_key(p.name@)
                    &&& r@[p.name@]@ == decimal(p.default as nat)
                },
    {
        let ghost ips = int_params_view(self.targ_int_params@);
        let ghost bps = bool_params_view(self.targ_bool_params@);
        let mut state: State = KeyedVec::new();
        let mut i: usize = 0;
        assert(ips.take(0) =~= Seq::<super::shared::IntParameterView>::empty());
        assert(text_view(state@) =~= int_defaults(ips.take(0)));
        while i < self.targ_int_params.len()
            invariant
                i <= self.targ_int_params@.len(),
                ips == int_params_view(self.targ_int_params@),
                text_view(state@) == int_defaults(ips.take(i as int)),
            decreases self.targ_int_params@.len() - i,
        {
            let p = &self.targ_int_params[i];
            let v = usize_to_string(p.default);
            let ghost before = state@;
            state.insert(p.name.clone(), v);
            proof {
                let t = ips.take(i + 1);
                assert(t.drop_last() =~= ips.take(i as int));
                assert(text_view(state@) =~= text_view(before).insert(p.name@, v@));
            }
            i = i + 1;
        }
        assert(ips.take(i as int) =~= ips);
        let mut j: usize = 0;
        assert(bps.take(0) =~= Seq::<super::shared::BoolParameterView>::empty());
        while j < self.targ_bool_params.len()
            invariant
                j <= self.targ_bool_params@.len(),
                bps == bool_params_view(self.targ_bool_params@),
                text_view(state@) == bool_defaults(bps.take(j as int), int_defaults(ips)),
            decreases self.targ_bool_params@.len() - j,
        {
            let p = &self.targ_bool_params[j];
            let v = if p.default {
                p.true_val.clone()
            } else {
                p.false_val.clone()
            };
            let ghost before = state@;
            state.insert(p.name.clone(), v);
            proof {
                let t = bps.take(j + 1);
                assert(t.drop_last() =~= bps.take(j as int));
                assert(text_view(state@) =~= text_view(before).insert(p.name@, v@));
            }
            j = j + 1;
        }
        assert(bps.take(j as int) =~= bps);
        proof {
            lemma_switch_defaults(bps, int_defaults(ips));
            lemma_int_defaults(ips);
            assert forall|i: int| #[trigger] last_switch(bps, i) implies {
                let p = self.targ_bool_params@[i];
                &&& state@.contains_key(p.name@)
                &&& state@[p.name@]@ == if p.default {
                    p.true_val@
                } else {
                    p.false_val@
                }
            } by {
                assert(bps[i] == self.targ_bool_params@[i]@);
                assert(text_view(state@).contains_key(bps[i].name));
            }
            assert forall|i: int|
                #[trigger] last_int(ips, i) && (forall|j: int|
                    0 <= j < self.targ_bool_params@.len() ==> (#[trigger] self.targ_bool_params@[j]).name@
                        != self.targ_int_params@[i].name@) implies {
                let p = self.targ_int_params@[i];
                &&& state@.contains_key(p.name@)
                &&& state@[p.name@]@ == decimal(p.default as nat)
            } by {
                assert(ips[i] == self.targ_int_params@[i]@);
                assert(no_switch_named(bps, ips[i].name)) by {
                    assert forall|j: int| 0 <= j < bps.len() implies (#[trigger] bps[j]).name != ips[i].name by {
                        assert(bps[j] == self.targ_bool_params@[j]@);
                    }
                }
                assert(text_view(state@).contains_key(ips[i].name));
            }
        }
        state
    }

    /// The names of the integer parameters, then those of the switches.
    pub fn get_params_name(&self) -> (r: Vec<String>)
        ensures
            views(r@) == int_params_view(self.targ_int_params@).map_values(
                |p: super::shared::IntParameterView| p.name,
            ) + bool_params_view(self.targ_bool_params@).map_values(
                |p: super::shared::BoolParameterView| p.name,
            ),
    {
        let mut names: Vec<String> = Vec::new();
        let mut i: usize = 0;
        while i < self.targ_int_params.len()
            invariant
                i <= self.targ_int_params@.len(),
                views(names@) == int_params_view(self.targ_int_params@.take(i as int)).map_values(
                    |p: super::shared::IntParameterView| p.name,
                ),
            decreases self.targ_int_params@.len() - i,
        {
            let ghost before = names@;
            names.push(self.targ_int_params[i].name.clone());
            proof {
                assert(views(names@) =~= views(before).push(self.targ_int_params@[i as int].name@));
                assert(self.targ_int_params@.take(i + 1) =~= self.targ_int_params@.take(i as int).push(
                    self.targ_int_params@[i as int],
                ));
                assert(int_params_view(self.targ_int_params@.take(i + 1)).map_values(
                    |p: super::shared::IntParameterView| p.name,
                ) =~= int_params_view(self.targ_int_params@.take(i as int)).map_values(
                    |p: super::shared::IntParameterView| p.name,
                ).push(self.targ_int_params@[i as int].name@));
            }
            i = i + 1;
        }
        assert(self.targ_int_params@.take(i as int) =~= self.targ_int_params@);
        let ghost mid = views(names@);
        let mut j: usize = 0;
        while j < self.targ_bool_params.len()
            invariant
                j <= self.targ_bool_params@.len(),
                views(names@) == mid + bool_params_view(self.targ_bool_params@.take(j as int)).map_values(
                    |p: super::shared::BoolParameterView| p.name,
                ),
            decreases self.targ_bool_params@.len() - j,
        {
            let ghost before = names@;
            names.push(self.targ_bool_params[j].name.clone());
            proof {
                assert(views(names@) =~= views(before).push(self.targ_bool_params@[j as int].name@));
                assert(self.targ_bool_params@.take(j + 1) =~= self.targ_bool_params@.take(j as int).push(
                    self.targ_bool_params@[j as int],
                ));
                assert(bool_params_view(self.targ_bool_params@.take(j + 1)).map_values(
                    |p: super::shared::BoolParameterView| p.name,
                ) =~= bool_params_view(self.targ_bool_params@.take(j as int)).map_values(
                    |p: super::shared::BoolParameterView| p.name,
                ).push(self.targ_bool_params@[j as int].name@));
            }
            j = j + 1;
        }
        assert(self.targ_bool_params@.take(j as int) =~= self.targ_bool_params@);
        names
    }
}

impl ParamsConfigurator {
    /// For each integer parameter and each value of its space, then for each
    /// switch and each of its two texts, the state `current_state` with that
    /// parameter set to that value.
    pub fn get_neigh_one_varying(&self, current_state: &State) -> (r: Vec<State>)
        requires
            forall|k: Seq<char>|
                self.int_params_space_state@.contains_key(k) ==> current_state@.contains_key(k),
            forall|k: Seq<char>|
                self.bool_params_space_state@.contains_key(k) ==> current_state@.contains_key(k),
        ensures
            state_views(r@) == int_neighbours(
                self.int_params_space_state.entries(),
                text_view(current_state@),
            ) + bool_neighbours(self.bool_params_space_state.entries(), text_view(current_state@)),
            forall|i: int| 0 <= i < r@.len() ==> (#[trigger] r@[i]).keys() == current_state.keys(),
    {
        let mut neighborhoods = int_neighbours_of(&self.int_params_space_state, current_state);
        let mut others = bool_neighbours_of(&self.bool_params_space_state, current_state);
        let ghost a = neighborhoods@;
        let ghost b = others@;
        neighborhoods.append(&mut others);
        assert(state_views(neighborhoods@) =~= state_views(a) + state_views(b));
        assert forall|i: int| 0 <= i < neighborhoods@.len() implies (
        #[trigger] neighborhoods@[i]).keys() == current_state.keys() by {
            if i >= a.len() {
                assert(neighborhoods@[i] == b[i - a.len()]);
            }
        }
        neighborhoods
    }

    /// A neighbour of `params_state`: the first `num_params_2_vary`
    /// parameters (in the state's order) take a random value of their space
    /// (the integer space where the name has one, else the switch's texts),
    /// the others keep theirs.
    pub fn get_neighborhood(&self, params_state: &State, num_params_2_vary: usize) -> (r: State)
        requires
            forall|i: int|
                0 <= i < params_state.entries().len() ==> {
                    let k = #[trigger] params_state.entries()[i].0;
                    self.int_params_space_state@.contains_key(k)
                        || self.bool_params_space_state@.contains_key(k)
                },
            forall|i: int|
                0 <= i < params_state.entries().len() && i < num_params_2_vary ==> {
                    let k = #[trigger] params_state.entries()[i].0;
                    if self.int_params_space_state@.contains_key(k) {
                        self.int_params_space_state@[k]@.len() > 0
                    } else {
                        self.bool_params_space_state@[k]@.len() > 0
                    }
                },
        ensures
            r.keys() == params_state.keys(),
            r@.dom() == params_state@.dom(),
            forall|i: int|
                0 <= i < params_state.entries().len() ==> {
                    let (k, v) = #[trigger] params_state.entries()[i];
                    if i < num_params_2_vary {
                        picked(self.int_params_space_state@, self.bool_params_space_state@, k, r@[k]@)
                    } else {
                        r@[k] == v
                    }
                },
    {
        let n = params_state.len();
        let mut new_state: State = KeyedVec::new();
        let mut remaining = num_params_2_vary;
        let mut i: usize = 0;
        while i < n
            invariant
                n == params_state.entries().len(),
                i <= n,
                forall|a: int, b: int|
                    0 <= a < b < n ==> #[trigger] params_state.entries()[a].0
                        != #[trigger] params_state.entries()[b].0,
                forall|j: int|
                    0 <= j < n ==> params_state@.contains_key(#[trigger] params_state.entries()[j].0)
                        && params_state@[params_state.entries()[j].0] == params_state.entries()[j].1,
                forall|k: Seq<char>| #[trigger]
                    params_state@.contains_key(k) ==> exists|j: int|
                        0 <= j < n && params_state.entries()[j].0 == k,
                forall|j: int|
                    0 <= j < n ==> {
                        let k = #[trigger] params_state.entries()[j].0;
                        self.int_params_space_state@.contains_key(k)
                            || self.bool_params_space_state@.contains_key(k)
                    },
                forall|j: int|
                    0 <= j < n && j < num_params_2_vary ==> {
                        let k = #[trigger] params_state.entries()[j].0;
                        if self.int_params_space_state@.contains_key(k) {
                            self.int_params_space_state@[k]@.len() > 0
                        } else {
                            self.bool_params_space_state@[k]@.len() > 0
                        }
                    },
                remaining == if i < num_params_2_vary {
                    num_params_2_vary - i
                } else {
                    0
                },
                new_state.keys() == params_state.keys().take(i as int),
                new_state@.dom() == params_state.keys().take(i as int).to_set(),
                forall|j: int|
                    0 <= j < i ==> {
                        let (k, v) = #[trigger] params_state.entries()[j];
                        new_state@.contains_key(k) && if j < num_params_2_vary {
                            picked(
                                self.int_params_space_state@,
                                self.bool_params_space_state@,
                                k,
                                new_state@[k]@,
                            )
                        } else {
                            new_state@[k] == v
                        }
                    },
            decreases n - i,
        {
            let (name, cur) = params_state.entry_at(i);
            let value = if remaining > 0 {
                remaining = remaining - 1;
                match self.int_params_space_state.get(name.as_str()) {
                    Some(space) => {
                        let v = match pick_one(space.as_slice()) {
                            Some(v) => *v,
                            None => unreached(),
                        };
                        usize_to_string(v)
                    },
                    None => {
                        let space = match self.bool_params_space_state.get(name.as_str()) {
                            Some(sp) => sp,
                            None => unreached(),
                        };
                        let v = match pick_one(space.as_slice()) {
                            Some(v) => v.clone(),
                            None => unreached(),
                        };
                        proof {
                            assert(views(space@).contains(v@)) by {
                                let t = choose|t: int| 0 <= t < space@.len() && space@[t] == v;
                                assert(views(space@)[t] == v@);
                            }
                        }
                        v
                    },
                }
            } else {
                cur.clone()
            };
            proof {
                assert(!new_state@.contains_key(name@)) by {
                    if new_state@.contains_key(name@) {
                        assert(params_state.keys().take(i as int).to_set().contains(name@));
                        let j = choose|j: int|
                            0 <= j < i && params_state.keys().take(i as int)[j] == name@;
                        assert(params_state.entries()[j].0 == params_state.entries()[i as int].0);
                    }
                }
            }
            let ghost before = new_state@;
            new_state.insert(name.clone(), value);
            proof {
                assert(params_state.keys().take(i + 1) =~= params_state.keys().take(i as int).push(
                    name@,
                ));
                params_state.keys().take(i as int).lemma_push_to_set_commute(name@);
                assert(new_state@.dom() =~= params_state.keys().take(i + 1).to_set());
                assert forall|j: int| 0 <= j < i + 1 implies {
                    let (k, v) = #[trigger] params_state.entries()[j];
                    new_state@.contains_key(k) && if j < num_params_2_vary {
                        picked(
                            self.int_params_space_state@,
                            self.bool_params_space_state@,
                            k,
                            new_state@[k]@,
                        )
                    } else {
                        new_state@[k] == v
                    }
                } by {
                    if j < i {
                        assert(params_state.entries()[j].0 != params_state.entries()[i as int].0);
                        assert(before.contains_key(params_state.entries()[j].0));
                    }
                }
            }
            i = i + 1;
        }
        proof {
            assert(params_state.keys().take(n as int) =~= params_state.keys());
            assert forall|k: Seq<char>| new_state@.dom().contains(k) == params_state@.dom().contains(k) by {
                if params_state@.contains_key(k) {
                    let j = choose|j: int| 0 <= j < n && params_state.entries()[j].0 == k;
                    assert(params_state.keys()[j] == k);
                }
                if new_state@.dom().contains(k) {
                    let j = choose|j: int| 0 <= j < n && params_state.keys()[j] == k;
                    assert(params_state.entries()[j].0 == k);
                }
            }
            assert(new_state@.dom() =~= params_state@.dom());
        }
        new_state
    }

    /// A state with a random value for each integer parameter and each
    /// switch; a switch wins over an integer parameter of the same name.
    pub fn get_rand_param(&self) -> (r: State)
        requires
            forall|k: Seq<char>| #[trigger]
                self.int_params_space_state@.contains_key(k) ==> self.int_params_space_state@[k]@.len() > 0,
            forall|k: Seq<char>| #[trigger]
                self.bool_params_space_state@.contains_key(k) ==> self.bool_params_space_state@[k]@.len() > 0,
        ensures
            r@.dom() == self.int_params_space_state@.dom() + self.bool_params_space_state@.dom(),
            forall|k: Seq<char>| #[trigger]
                r@.contains_key(k) ==> picked_last(
                    self.int_params_space_state@,
                    self.bool_params_space_state@,
                    k,
                    r@[k]@,
                ),
    {
        let mut new_state: State = KeyedVec::new();
        let n = self.int_params_space_state.len();
        let mut i: usize = 0;
        while i < n
            invariant
                n == self.int_params_space_state.entries().len(),
                i <= n,
                forall|j: int|
                    0 <= j < n ==> self.int_params_space_state@.contains_key(
                        #[trigger] self.int_params_space_state.entries()[j].0,
                    ) && self.int_params_space_state@[self.int_params_space_state.entries()[j].0]
                        == self.int_params_space_state.entries()[j].1,
                forall|k: Seq<char>| #[trigger]
                    self.int_params_space_state@.contains_key(k) ==> self.int_params_space_state@[k]@.len() > 0,
                new_state@.dom() == self.int_params_space_state.keys().take(i as int).to_set(),
                forall|k: Seq<char>| #[trigger]
                    new_state@.contains_key(k) ==> int_picked(self.int_params_space_state@, k, new_state@[k]@),
            decreases n - i,
        {
            let (name, space) = self.int_params_space_state.entry_at(i);
            assert(self.int_params_space_state@.contains_key(name@));
            let v = match pick_one(space.as_slice()) {
                Some(v) => *v,
                None => unreached(),
            };
            let text = usize_to_string(v);
            new_state.insert(name.clone(), text);
            proof {
                let ks = self.int_params_space_state.keys();
                assert(ks.take(i + 1) =~= ks.take(i as int).push(name@));
                ks.take(i as int).lemma_push_to_set_commute(name@);
                assert(new_state@.dom() =~= ks.take(i + 1).to_set());
            }
            i = i + 1;
        }
        proof {
            let ks = self.int_params_space_state.keys();
            assert(ks.take(n as int) =~= ks);
            assert forall|k: Seq<char>|
                new_state@.dom().contains(k) == self.int_params_space_state@.dom().contains(k) by {
                if self.int_params_space_state@.contains_key(k) {
                    let j = choose|j: int| 0 <= j < n && self.int_params_space_state.entries()[j].0 == k;
                    assert(ks[j] == k);
                }
                if new_state@.dom().contains(k) {
                    let j = choose|j: int| 0 <= j < n && ks[j] == k;
                    assert(self.int_params_space_state.entries()[j].0 == k);
                }
            }
            assert(new_state@.dom() =~= self.int_params_space_state@.dom());
        }
        let m = self.bool_params_space_state.len();
        let mut j: usize = 0;
        while j < m
            invariant
                m == self.bool_params_space_state.entries().len(),
                j <= m,
                forall|t: int|
                    0 <= t < m ==> self.bool_params_space_state@.contains_key(
                        #[trigger] self.bool_params_space_state.entries()[t].0,
                    ) && self.bool_params_space_state@[self.bool_params_space_state.entries()[t].0]
                        == self.bool_params_space_state.entries()[t].1,
                forall|k: Seq<char>| #[trigger]
                    self.bool_params_space_state@.contains_key(k) ==> self.bool_params_space_state@[k]@.len() > 0,
                new_state@.dom() == self.int_params_space_state@.dom()
                    + self.bool_params_space_state.keys().take(j as int).to_set(),
                forall|k: Seq<char>| #[trigger]
                    new_state@.contains_key(k) ==> if self.bool_params_space_state.keys().take(j as int).contains(k) {
                        views(self.bool_params_space_state@[k]@).contains(new_state@[k]@)
                    } else {
                        int_picked(self.int_params_space_state@, k, new_state@[k]@)
                    },
            decreases m - j,
        {
            let (name, space) = self.bool_params_space_state.entry_at(j);
            assert(self.bool_params_space_state@.contains_key(name@));
            let v = match pick_one(space.as_slice()) {
                Some(v) => v.clone(),
                None => unreached(),
            };
            proof {
                assert(views(space@).contains(v@)) by {
                    let t = choose|t: int| 0 <= t < space@.len() && space@[t] == v;
                    assert(views(space@)[t] == v@);
                }
            }
            let ghost before = new_state@;
            new_state.insert(name.clone(), v);
            proof {
                let ks = self.bool_params_space_state.keys();
                assert(ks.take(j + 1) =~= ks.take(j as int).push(name@));
                ks.take(j as int).lemma_push_to_set_commute(name@);
                assert(new_state@.dom() =~= self.int_params_space_state@.dom() + ks.take(j + 1).to_set());
                assert forall|k: Seq<char>| #[trigger] new_state@.contains_key(k) implies (
                    if ks.take(j + 1).contains(k) {
                        views(self.bool_params_space_state@[k]@).contains(new_state@[k]@)
                    } else {
                        int_picked(self.int_params_space_state@, k, new_state@[k]@)
                    }) by {
                    if k != name@ {
                        assert(before.contains_key(k));
                        let longer = ks.take(j + 1);
                        let shorter = ks.take(j as int);
                        assert(longer.contains(k) == shorter.contains(k)) by {
                            if longer.contains(k) {
                                let t = choose|t: int| 0 <= t < longer.len() && longer[t] == k;
                                assert(shorter[t] == k);
                            }
                            if shorter.contains(k) {
                                let t = choose|t: int| 0 <= t < shorter.len() && shorter[t] == k;
                                assert(longer[t] == k);
                            }
                        }
                    } else {
                        assert(ks.take(j + 1)[j as int] == k);
                    }
                }
            }
            j = j + 1;
        }
        proof {
            let ks = self.bool_params_space_state.keys();
            assert(ks.take(m as int) =~= ks);
            assert forall|k: Seq<char>| ks.to_set().contains(k) == self.bool_params_space_state@.dom().contains(k) by {
                if self.bool_params_space_state@.contains_key(k) {
                    let t = choose|t: int| 0 <= t < m && self.bool_params_space_state.entries()[t].0 == k;
                    assert(ks[t] == k);
                }
                if ks.to_set().contains(k) {
                    let t = choose|t: int| 0 <= t < m && ks[t] == k;
                    assert(self.bool_params_space_state.entries()[t].0 == k);
                }
            }
            assert(ks.to_set() =~= self.bool_params_space_state@.dom());
            assert(new_state@.dom() =~= self.int_params_space_state@.dom() + self.bool_params_space_state@.dom());
            assert forall|k: Seq<char>| #[trigger] new_state@.contains_key(k) implies picked_last(
                self.int_params_space_state@,
                self.bool_params_space_state@,
                k,
                new_state@[k]@,
            ) by {
                assert(ks.contains(k) == ks.to_set().contains(k));
            }
        }
        new_state
    }

    /// `size` random states (for the recombinative solver).
    pub fn get_rand_population(&self, size: usize) -> (r: Vec<State>)
        requires
            forall|k: Seq<char>| #[trigger]
                self.int_params_space_state@.contains_key(k) ==> self.int_params_space_state@[k]@.len() > 0,
            forall|k: Seq<char>| #[trigger]
                self.bool_params_space_state@.contains_key(k) ==> self.bool_params_space_state@[k]@.len() > 0,
        ensures
            r@.len() == size,
            forall|i: int|
                0 <= i < size ==> {
                    &&& (#[trigger] r@[i])@.dom() == self.int_params_space_state@.dom()
                        + self.bool_params_space_state@.dom()
                    &&& forall|k: Seq<char>| #[trigger]
                        r@[i]@.contains_key(k) ==> picked_last(
                            self.int_params_space_state@,
                            self.bool_params_space_state@,
                            k,
                            r@[i]@[k]@,
                        )
                },
    {
        let mut res_vec: Vec<State> = Vec::new();
        let mut i: usize = 0;
        while i < size
            invariant
                i <= size,
                res_vec@.len() == i,
                forall|k: Seq<char>| #[trigger]
                    self.int_params_space_state@.contains_key(k) ==> self.int_params_space_state@[k]@.len() > 0,
                forall|k: Seq<char>| #[trigger]
                    self.bool_params_space_state@.contains_key(k) ==> self.bool_params_space_state@[k]@.len() > 0,
                forall|j: int|
                    0 <= j < i ==> {
                        &&& (#[trigger] res_vec@[j])@.dom() == self.int_params_space_state@.dom()
                            + self.bool_params_space_state@.dom()
                        &&& forall|k: Seq<char>| #[trigger]
                            res_vec@[j]@.contains_key(k) ==> picked_last(
                                self.int_params_space_state@,
                                self.bool_params_space_state@,
                                k,
                                res_vec@[j]@[k]@,
                            )
                    },
            decreases size - i,
        {
            let s = self.get_rand_param();
            res_vec.push(s);
            i = i + 1;
        }
        res_vec
    }
}

/// `text` is the decimal text of a value of the integer space of `k`.
pub open spec fn int_picked(ints: Map<Seq<char>, Vec<usize>>, k: Seq<char>, text: Seq<char>) -> bool {
    exists|v: usize| ints[k]@.contains(v) && text == decimal(v as nat)
}

/// `text` is a value of the space of `k`: its integer space where it has
/// one, else its switch's texts.
pub open spec fn picked(
    ints: Map<Seq<char>, Vec<usize>>,
    bools: Map<Seq<char>, Vec<String>>,
    k: Seq<char>,
    text: Seq<char>,
) -> bool {
    if ints.contains_key(k) {
        int_picked(ints, k, text)
    } else {
        views(bools[k]@).contains(text)
    }
}

/// `text` is a value of the space of `k`: its switch's texts where it has
/// some, else its integer space.
pub open spec fn picked_last(
    ints: Map<Seq<char>, Vec<usize>>,
    bools: Map<Seq<char>, Vec<String>>,
    k: Seq<char>,
    text: Seq<char>,
) -> bool {
    if bools.contains_key(k) {
        views(bools[k]@).contains(text)
    } else {
        int_picked(ints, k, text)
    }
}

/// The neighbours of `current` that vary one integer parameter.
fn int_neighbours_of(spaces: &KeyedVec<Vec<usize>>, current: &State) -> (r: Vec<State>)
    requires
        forall|k: Seq<char>| spaces@.contains_key(k) ==> current@.contains_key(k),
    ensures
        state_views(r@) == int_neighbours(spaces.entries(), text_view(current@)),
        forall|i: int| 0 <= i < r@.len() ==> (#[trigger] r@[i]).keys() == current.keys(),
{
    let mut out: Vec<State> = Vec::new();
    let n = spaces.len();
    let ghost es = spaces.entries();
    let ghost cur = text_view(current@);
    let mut i: usize = 0;
    assert(es.take(0) =~= Seq::<(Seq<char>, Vec<usize>)>::empty());
    while i < n
        invariant
            n == es.len(),
            es == spaces.entries(),
            cur == text_view(current@),
            i <= n,
            forall|j: int| 0 <= j < n ==> spaces@.contains_key(#[trigger] es[j].0),
            forall|k: Seq<char>| spaces@.contains_key(k) ==> current@.contains_key(k),
            state_views(out@) == int_neighbours(es.take(i as int), cur),
            forall|j: int| 0 <= j < out@.len() ==> (#[trigger] out@[j]).keys() == current.keys(),
        decreases n - i,
    {
        let (name, space) = spaces.entry_at(i);
        assert(current@.contains_key(name@));
        let ghost base = out@;
        let m = space.len();
        let mut t: usize = 0;
        while t < m
            invariant
                m == space@.len(),
                t <= m,
                cur == text_view(current@),
                current@.contains_key(name@),
                out@.len() == base.len() + t,
                forall|j: int| 0 <= j < base.len() ==> out@[j] == base[j],
                forall|j: int|
                    0 <= j < t ==> text_view((#[trigger] out@[base.len() + j])@)
                        == cur.insert(name@, decimal(space@[j] as nat)),
                forall|j: int| 0 <= j < out@.len() ==> (#[trigger] out@[j]).keys() == current.keys(),
                forall|j: int| 0 <= j < base.len() ==> (#[trigger] base[j]).keys() == current.keys(),
            decreases m - t,
        {
            let mut temp = current.duplicate_text();
            let text = usize_to_string(space[t]);
            let ghost tv = text@;
            temp.insert(name.clone(), text);
            assert(text_view(temp@) =~= cur.insert(name@, tv));
            out.push(temp);
            t = t + 1;
        }
        proof {
            let e = es.take(i + 1);
            assert(e.drop_last() =~= es.take(i as int));
            assert(e.last() == es[i as int]);
            assert forall|j: int| base.len() <= j < out@.len() implies text_view(
                (#[trigger] out@[j])@,
            ) == cur.insert(name@, decimal(space@[j - base.len()] as nat)) by {
                assert(out@[base.len() + (j - base.len())] == out@[j]);
            }
            assert(state_views(out@) =~= state_views(base) + space@.map_values(
                |v: usize| cur.insert(name@, decimal(v as nat)),
            ));
        }
        i = i + 1;
    }
    assert(es.take(n as int) =~= es);
    out
}

/// The neighbours of `current` that vary one switch.
fn bool_neighbours_of(spaces: &KeyedVec<Vec<String>>, current: &State) -> (r: Vec<State>)
    requires
        forall|k: Seq<char>| spaces@.contains_key(k) ==> current@.contains_key(k),
    ensures
        state_views(r@) == bool_neighbours(spaces.entries(), text_view(current@)),
        forall|i: int| 0 <= i < r@.len() ==> (#[trigger] r@[i]).keys() == current.keys(),
{
    let mut out: Vec<State> = Vec::new();
    let n = spaces.len();
    let ghost es = spaces.entries();
    let ghost cur = text_view(current@);
    let mut i: usize = 0;
    assert(es.take(0) =~= Seq::<(Seq<char>, Vec<String>)>::empty());
    while i < n
        invariant
            n == es.len(),
            es == spaces.entries(),
            cur == text_view(current@),
            i <= n,
            forall|j: int| 0 <= j < n ==> spaces@.contains_key(#[trigger] es[j].0),
            forall|k: Seq<char>| spaces@.contains_key(k) ==> current@.contains_key(k),
            state_views(out@) == bool_neighbours(es.take(i as int), cur),
            forall|j: int| 0 <= j < out@.len() ==> (#[trigger] out@[j]).keys() == current.keys(),
        decreases n - i,
    {
        let (name, space) = spaces.entry_at(i);
        assert(current@.contains_key(name@));
        let ghost base = out@;
        let m = space.len();
        let mut t: usize = 0;
        while t < m
            invariant
                m == space@.len(),
                t <= m,
                cur == text_view(current@),
                current@.contains_key(name@),
                out@.len() == base.len() + t,
                forall|j: int| 0 <= j < base.len() ==> out@[j] == base[j],
                forall|j: int|
                    0 <= j < t ==> text_view((#[trigger] out@[base.len() + j])@)
                        == cur.insert(name@, space@[j]@),
                forall|j: int| 0 <= j < out@.len() ==> (#[trigger] out@[j]).keys() == current.keys(),
                forall|j: int| 0 <= j < base.len() ==> (#[trigger] base[j]).keys() == current.keys(),
            decreases m - t,
        {
            let mut temp = current.duplicate_text();
            let text = space[t].clone();
            let ghost tv = text@;
            temp.insert(name.clone(), text);
            assert(text_view(temp@) =~= cur.insert(name@, tv));
            out.push(temp);
            t = t + 1;
        }
        proof {
            let e = es.take(i + 1);
            assert(e.drop_last() =~= es.take(i as int));
            assert(e.last() == es[i as int]);
            assert forall|j: int| base.len() <= j < out@.len() implies text_view(
                (#[trigger] out@[j])@,
            ) == cur.insert(name@, space@[j - base.len()]@) by {
                assert(out@[base.len() + (j - base.len())] == out@[j]);
            }
            assert(state_views(out@) =~= state_views(base) + space@.map_values(
                |v: String| cur.insert(name@, v@),
            ));
        }
        i = i + 1;
    }
    assert(es.take(n as int) =~= es);
    out
}

/// The defaults of the integer parameters `ps`, in decimal.
pub open spec fn int_defaults(ps: Seq<super::shared::IntParameterView>) -> Map<Seq<char>, Seq<char>>
    decreases ps.len(),
{
    if ps.len() == 0 {
        Map::empty()
    } else {
        int_defaults(ps.drop_last()).insert(ps.last().name, decimal(ps.last().default as nat))
    }
}

/// `base` updated with the text of each switch's default.
pub open spec fn bool_defaults(
    ps: Seq<super::shared::BoolParameterView>,
    base: Map<Seq<char>, Seq<char>>,
) -> Map<Seq<char>, Seq<char>>
    decreases ps.len(),
{
    if ps.len() == 0 {
        base
    } else {
        bool_defaults(ps.drop_last(), base).insert(
            ps.last().name,
            if ps.last().default {
                ps.last().true_val
            } else {
                ps.last().false_val
            },
        )
    }
}

/// `s` is `current` with one integer parameter of `spaces` set to the
/// decimal text of a value of its space.
pub open spec fn int_varies_one(
    spaces: Seq<(Seq<char>, Vec<usize>)>,
    current: Map<Seq<char>, Seq<char>>,
    s: Map<Seq<char>, Seq<char>>,
) -> bool {
    exists|j: int, v: usize|
        0 <= j < spaces.len() && spaces[j].1@.contains(v) && s == current.insert(spaces[j].0, decimal(v as nat))
}

/// `s` is `current` with one switch of `spaces` set to one of its texts.
pub open spec fn bool_varies_one(
    spaces: Seq<(Seq<char>, Vec<String>)>,
    current: Map<Seq<char>, Seq<char>>,
    s: Map<Seq<char>, Seq<char>>,
) -> bool {
    exists|j: int, v: String| 0 <= j < spaces.len() && spaces[j].1@.contains(v) && s == current.insert(spaces[j].0, v@)
}

/// Each neighbour that varies an integer parameter differs from the current
/// configuration in that parameter only, set to a value of its space.
pub proof fn lemma_int_neighbours_vary_one(spaces: Seq<(Seq<char>, Vec<usize>)>, current: Map<Seq<char>, Seq<char>>)
    ensures
        forall|i: int|
            0 <= i < int_neighbours(spaces, current).len() ==> int_varies_one(
                spaces,
                current,
                #[trigger] int_neighbours(spaces, current)[i],
            ),
    decreases spaces.len(),
{
    if spaces.len() > 0 {
        let p = spaces.drop_last();
        lemma_int_neighbours_vary_one(p, current);
        let last = spaces.last();
        let a = int_neighbours(p, current);
        assert forall|i: int| 0 <= i < int_neighbours(spaces, current).len() implies int_varies_one(
            spaces,
            current,
            #[trigger] int_neighbours(spaces, current)[i],
        ) by {
            if i < a.len() {
                assert(int_neighbours(spaces, current)[i] == a[i]);
                assert(int_varies_one(p, current, a[i]));
                let (j, v) = choose|j: int, v: usize|
                    0 <= j < p.len() && p[j].1@.contains(v) && a[i] == current.insert(p[j].0, decimal(v as nat));
                assert(spaces[j] == p[j]);
            } else {
                let t = i - a.len();
                let v = last.1@[t];
                let j = spaces.len() - 1;
                assert(last.1@.contains(v));
                assert(spaces[j] == last);
                assert(int_neighbours(spaces, current)[i] == current.insert(last.0, decimal(v as nat)));
            }
        }
    }
}

/// Each neighbour that varies a switch differs from the current
/// configuration in that switch only, set to one of its texts.
pub proof fn lemma_bool_neighbours_vary_one(spaces: Seq<(Seq<char>, Vec<String>)>, current: Map<Seq<char>, Seq<char>>)
    ensures
        forall|i: int|
            0 <= i < bool_neighbours(spaces, current).len() ==> bool_varies_one(
                spaces,
                current,
                #[trigger] bool_neighbours(spaces, current)[i],
            ),
    decreases spaces.len(),
{
    if spaces.len() > 0 {
        let p = spaces.drop_last();
        lemma_bool_neighbours_vary_one(p, current);
        let last = spaces.last();
        let a = bool_neighbours(p, current);
        assert forall|i: int| 0 <= i < bool_neighbours(spaces, current).len() implies bool_varies_one(
            spaces,
            current,
            #[trigger] bool_neighbours(spaces, current)[i],
        ) by {
            if i < a.len() {
                assert(bool_neighbours(spaces, current)[i] == a[i]);
                assert(bool_varies_one(p, current, a[i]));
                let (j, v) = choose|j: int, v: String|
                    0 <= j < p.len() && p[j].1@.contains(v) && a[i] == current.insert(p[j].0, v@);
                assert(spaces[j] == p[j]);
            } else {
                let t = i - a.len();
                let v = last.1@[t];
                let j = spaces.len() - 1;
                assert(last.1@.contains(v));
                assert(spaces[j] == last);
                assert(bool_neighbours(spaces, current)[i] == current.insert(last.0, v@));
            }
        }
    }
}


/// The switch at `i` is the last one of `ps` with its name.
pub open spec fn last_switch(ps: Seq<super::shared::BoolParameterView>, i: int) -> bool {
    0 <= i < ps.len() && forall|j: int| i < j < ps.len() ==> (#[trigger] ps[j]).name != ps[i].name
}

/// The integer parameter at `i` is the last one of `ps` with its name.
pub open spec fn last_int(ps: Seq<super::shared::IntParameterView>, i: int) -> bool {
    0 <= i < ps.len() && forall|j: int| i < j < ps.len() ==> (#[trigger] ps[j]).name != ps[i].name
}

/// The switches of `ps` all have names other than `k`.
pub open spec fn no_switch_named(ps: Seq<super::shared::BoolParameterView>, k: Seq<char>) -> bool {
    forall|i: int| 0 <= i < ps.len() ==> (#[trigger] ps[i]).name != k
}

/// The default configuration holds, for each switch (the last one of its
/// name), its true text when it defaults to true and its false text
/// otherwise; for each other name, what `base` held.
pub proof fn lemma_switch_defaults(
    ps: Seq<super::shared::BoolParameterView>,
    base: Map<Seq<char>, Seq<char>>,
)
    ensures
        forall|i: int|
            #[trigger] last_switch(ps, i) ==> bool_defaults(ps, base).contains_key(ps[i].name)
                && bool_defaults(ps, base)[ps[i].name] == if ps[i].default {
                ps[i].true_val
            } else {
                ps[i].false_val
            },
        forall|k: Seq<char>|
            #[trigger] no_switch_named(ps, k) ==> bool_defaults(ps, base).contains_key(k) == base.contains_key(k)
                && (base.contains_key(k) ==> bool_defaults(ps, base)[k] == base[k]),
    decreases ps.len(),
{
    if ps.len() > 0 {
        let q = ps.drop_last();
        lemma_switch_defaults(q, base);
        assert forall|i: int| #[trigger] last_switch(ps, i) implies bool_defaults(ps, base).contains_key(ps[i].name)
            && bool_defaults(ps, base)[ps[i].name] == if ps[i].default {
            ps[i].true_val
        } else {
            ps[i].false_val
        } by {
            if i < ps.len() - 1 {
                assert(q[i] == ps[i]);
                assert(last_switch(q, i)) by {
                    assert forall|j: int| i < j < q.len() implies (#[trigger] q[j]).name != q[i].name by {
                        assert(q[j] == ps[j]);
                    }
                }
                assert(ps[ps.len() - 1].name != ps[i].name);
            }
        }
        assert forall|k: Seq<char>| #[trigger] no_switch_named(ps, k) implies bool_defaults(ps, base).contains_key(k)
            == base.contains_key(k) && (base.contains_key(k) ==> bool_defaults(ps, base)[k] == base[k]) by {
            assert(no_switch_named(q, k)) by {
                assert forall|i: int| 0 <= i < q.len() implies (#[trigger] q[i]).name != k by {
                    assert(q[i] == ps[i]);
                }
            }
            assert(ps[ps.len() - 1].name != k);
        }
    }
}

/// Each integer parameter (the last one of its name) starts at the decimal
/// text of its default, and no other name is set.
pub proof fn lemma_int_defaults(ps: Seq<super::shared::IntParameterView>)
    ensures
        forall|i: int|
            #[trigger] last_int(ps, i) ==> int_defaults(ps).contains_key(ps[i].name) && int_defaults(ps)[ps[i].name]
                == decimal(ps[i].default as nat),
        forall|k: Seq<char>|
            int_defaults(ps).contains_key(k) ==> exists|i: int| 0 <= i < ps.len() && (#[trigger] ps[i]).name == k,
    decreases ps.len(),
{
    if ps.len() > 0 {
        let q = ps.drop_last();
        lemma_int_defaults(q);
        assert forall|i: int| #[trigger] last_int(ps, i) implies int_defaults(ps).contains_key(ps[i].name)
            && int_defaults(ps)[ps[i].name] == decimal(ps[i].default as nat) by {
            if i < ps.len() - 1 {
                assert(q[i] == ps[i]);
                assert(last_int(q, i)) by {
                    assert forall|j: int| i < j < q.len() implies (#[trigger] q[j]).name != q[i].name by {
                        assert(q[j] == ps[j]);
                    }
                }
                assert(ps[ps.len() - 1].name != ps[i].name);
            }
        }
        assert forall|k: Seq<char>| int_defaults(ps).contains_key(k) implies exists|i: int|
            0 <= i < ps.len() && (#[trigger] ps[i]).name == k by {
            if k == ps[ps.len() - 1].name {
                assert(ps[ps.len() - 1].name == k);
            } else {
                assert(int_defaults(q).contains_key(k));
                let i = choose|i: int| 0 <= i < q.len() && (#[trigger] q[i]).name == k;
                assert(q[i] == ps[i]);
            }
        }
    }
}

} // verus!
