use vstd::prelude::*;
use crate::keyed::KeyedVec;
use crate::rng::{pick_one, shuffle};
use super::shared::{Parameter, ParameterView};
use super::xml_reader::{XMLReader, params_view};

verus! {

/// A configuration: a value for each parameter, by name.
pub type State = KeyedVec<usize>;

/// The values `lbound, lbound + step, ..., lbound + n * step` where
/// `n = (ubound - lbound) / step`: the low bound alone when the bounds are
/// less than a step apart.
pub open spec fn space_values(lbound: usize, ubound: usize, step: usize) -> Seq<usize> {
    let n = (ubound - lbound) / (step as int);
    Seq::new((n + 1) as nat, |k: int| (lbound + step * k) as usize)
}

/// The defaults of the parameters `ps`; a later parameter with the same name
/// wins.
pub open spec fn defaults_of(ps: Seq<ParameterView>) -> Map<Seq<char>, usize>
    decreases ps.len(),
{
    if ps.len() == 0 {
        Map::empty()
    } else {
        defaults_of(ps.drop_last()).insert(ps.last().name, ps.last().default)
    }
}

/// The last parameter of `ps` named `k`.
pub open spec fn last_named(ps: Seq<ParameterView>, k: Seq<char>) -> ParameterView
    decreases ps.len(),
{
    if ps.len() == 0 {
        arbitrary()
    } else if ps.last().name == k {
        ps.last()
    } else {
        last_named(ps.drop_last(), k)
    }
}

/// Every parameter describes a non-empty interval with a positive step.
pub open spec fn well_spaced(ps: Seq<ParameterView>) -> bool {
    forall|i: int| 0 <= i < ps.len() ==> (#[trigger] ps[i]).min <= ps[i].max && ps[i].step > 0
}

/// The states that differ from `current` in one parameter: for each
/// parameter in order, one state per value of its space, in order.
pub open spec fn neighbours(
    spaces: Seq<(Seq<char>, Vec<usize>)>,
    current: Map<Seq<char>, usize>,
) -> Seq<Map<Seq<char>, usize>>
    decreases spaces.len(),
{
    if spaces.len() == 0 {
        seq![]
    } else {
        neighbours(spaces.drop_last(), current) + spaces.last().1@.map_values(
            |v: usize| current.insert(spaces.last().0, v),
        )
    }
}

pub open spec fn state_views(v: Seq<State>) -> Seq<Map<Seq<char>, usize>> {
    v.map_values(|s: State| s@)
}

/// Generates the parameter configurations that the annealing explores.
pub struct ParamsConfigurator {
    pub xml_reader: XMLReader,
    pub default_param: State,
    /// The values each parameter can take.
    pub params_space_state: KeyedVec<Vec<usize>>,
}

impl ParamsConfigurator {
    /// The configurator for the parameters that `reader` describes.
    pub fn new(reader: XMLReader) -> (r: ParamsConfigurator)
        requires
            well_spaced(reader@.musl),
        ensures
            r.xml_reader@ == reader@,
            r.default_param@ == defaults_of(reader@.musl),
            r.params_space_state@.dom() == defaults_of(reader@.musl).dom(),
            forall|k: Seq<char>| #[trigger]
                r.params_space_state@.contains_key(k) ==> {
                    let p = last_named(reader@.musl, k);
                    r.params_space_state@[k]@.to_multiset() == space_values(
                        p.min,
                        p.max,
                        p.step,
                    ).to_multiset()
                },
    {
        let mut pc = ParamsConfigurator {
            xml_reader: reader,
            default_param: KeyedVec::new(),
            params_space_state: KeyedVec::new(),
        };
        pc.init();
        pc
    }

    /// A copy of the default configuration.
    pub fn get_initial_param_conf(&self) -> (r: State)
        ensures
            r@ == self.default_param@,
            r.entries() == self.default_param.entries(),
    {
        self.default_param.duplicate()
    }

    /// Builds the space of each parameter and the default configuration.
    pub fn init(&mut self)
        requires
            well_spaced(old(self).xml_reader@.musl),
        ensures
            final(self).xml_reader@ == old(self).xml_reader@,
            final(self).default_param@ == defaults_of(old(self).xml_reader@.musl),
            final(self).params_space_state@.dom() == defaults_of(
                old(self).xml_reader@.musl,
            ).dom(),
            forall|k: Seq<char>| #[trigger]
                final(self).params_space_state@.contains_key(k) ==> {
                    let p = last_named(old(self).xml_reader@.musl, k);
                    final(self).params_space_state@[k]@.to_multiset() == space_values(
                        p.min,
                        p.max,
                        p.step,
                    ).to_multiset()
                },
    {
        let params = self.xml_reader.get_musl_params();
        let ghost ps = params_view(params@);
        let mut spaces: KeyedVec<Vec<usize>> = KeyedVec::new();
        let mut initial: State = KeyedVec::new();
        let mut i: usize = 0;
        proof {
            assert(ps.take(0) =~= Seq::<ParameterView>::empty());
            assert(spaces@.dom() =~= defaults_of(ps.take(0)).dom());
        }
        while i < params.len()
            invariant
                i <= params@.len(),
                ps == params_view(params@),
                well_spaced(ps),
                initial@ == defaults_of(ps.take(i as int)),
                spaces@.dom() == defaults_of(ps.take(i as int)).dom(),
                forall|k: Seq<char>| #[trigger]
                    spaces@.contains_key(k) ==> {
                        let p = last_named(ps.take(i as int), k);
                        spaces@[k]@.to_multiset() == space_values(p.min, p.max, p.step).to_multiset()
                    },
            decreases params@.len() - i,
        {
            let p = &params[i];
            assert(ps[i as int] == p@);
            let space = Self::get_space_state(p.min, p.max, p.step);
            let ghost old_spaces = spaces@;
            spaces.insert(p.name.clone(), space);
            initial.insert(p.name.clone(), p.default);
            proof {
                let t = ps.take(i + 1);
                assert(t.drop_last() =~= ps.take(i as int));
                assert(t.last() == p@);
                assert(spaces@.dom() =~= defaults_of(t).dom());
                assert forall|k: Seq<char>| #[trigger] spaces@.contains_key(k) implies {
                    let q = last_named(t, k);
                    spaces@[k]@.to_multiset() == space_values(q.min, q.max, q.step).to_multiset()
                } by {
                    if k != p.name@ {
                        assert(old_spaces.contains_key(k));
                    }
                }
            }
            i = i + 1;
        }
        assert(ps.take(params@.len() as int) =~= ps);
        self.params_space_state = spaces;
        self.default_param = initial;
    }

    /// The space of a parameter with bounds `lbound`, `ubound` and `step`,
    /// in random order.
    pub fn get_space_state(lbound: usize, ubound: usize, step: usize) -> (r: Vec<usize>)
        requires
            lbound <= ubound,
            step > 0,
        ensures
            r@.to_multiset() == space_values(lbound, ubound, step).to_multiset(),
            r@.len() == space_values(lbound, ubound, step).len(),
    {
        let mut res_vec: Vec<usize> = Vec::new();
        let num_it = (ubound - lbound) / step;
        let mut x: usize = 0;
        proof {
            assert((num_it as int) * (step as int) <= ubound - lbound) by (nonlinear_arith)
                requires
                    num_it == (ubound - lbound) / (step as int),
                    step > 0,
                    ubound >= lbound,
            ;
        }
        res_vec.push(lbound);
        assert(res_vec@ =~= Seq::new(1, |k: int| (lbound + step * k) as usize));
        while x < num_it
            invariant
                num_it == (ubound - lbound) / (step as int),
                (num_it as int) * (step as int) <= ubound - lbound,
                step > 0,
                lbound <= ubound,
                x <= num_it,
                res_vec@ =~= Seq::new((x + 1) as nat, |k: int| (lbound + step * k) as usize),
            decreases num_it - x,
        {
            proof {
                assert((step as int) * (x as int + 1) <= (step as int) * (num_it as int)) by (nonlinear_arith)
                    requires
                        x < num_it,
                        step > 0,
                ;
            }
            x = x + 1;
            res_vec.push(lbound + step * x);
        }
        let ghost before = res_vec@;
        shuffle(&mut res_vec);
        proof {
            assert(before =~= space_values(lbound, ubound, step));
        }
        res_vec
    }

    /// For each parameter and each value of its space, the state `current`
    /// with that parameter set to that value.
    pub fn get_neigh_one_varying(&self, current_state: &State) -> (r: Vec<State>)
        requires
            forall|k: Seq<char>|
                self.params_space_state@.contains_key(k) ==> current_state@.contains_key(k),
        ensures
            state_views(r@) == neighbours(self.params_space_state.entries(), current_state@),
            forall|i: int| 0 <= i < r@.len() ==> (#[trigger] r@[i]).keys() == current_state.keys(),
    {
        let mut neighborhoods: Vec<State> = Vec::new();
        let n = self.params_space_state.len();
        let ghost es = self.params_space_state.entries();
        let mut i: usize = 0;
        assert(es.take(0) =~= Seq::<(Seq<char>, Vec<usize>)>::empty());
        while i < n
            invariant
                n == es.len(),
                es == self.params_space_state.entries(),
                i <= n,
                forall|j: int|
                    0 <= j < n ==> self.params_space_state@.contains_key(#[trigger] es[j].0),
                forall|k: Seq<char>|
                    self.params_space_state@.contains_key(k) ==> current_state@.contains_key(k),
                state_views(neighborhoods@) == neighbours(es.take(i as int), current_state@),
                forall|j: int|
                    0 <= j < neighborhoods@.len() ==> (#[trigger] neighborhoods@[j]).keys()
                        == current_state.keys(),
            decreases n - i,
        {
            let (name, space) = self.params_space_state.entry_at(i);
            assert(current_state@.contains_key(name@));
            let ghost base = neighborhoods@;
            let m = space.len();
            let mut t: usize = 0;
            while t < m
                invariant
                    m == space@.len(),
                    t <= m,
                    current_state@.contains_key(name@),
                    neighborhoods@.len() == base.len() + t,
                    forall|j: int| 0 <= j < base.len() ==> neighborhoods@[j] == base[j],
                    forall|j: int|
                        0 <= j < t ==> (#[trigger] neighborhoods@[base.len() + j])@
                            == current_state@.insert(name@, space@[j]),
                    forall|j: int|
                        0 <= j < neighborhoods@.len() ==> (#[trigger] neighborhoods@[j]).keys()
                            == current_state.keys(),
                    forall|j: int|
                        0 <= j < base.len() ==> (#[trigger] base[j]).keys() == current_state.keys(),
                decreases m - t,
            {
                let mut temp = current_state.duplicate();
                temp.insert(name.clone(), space[t]);
                neighborhoods.push(temp);
                t = t + 1;
            }
            proof {
                let e = es.take(i + 1);
                assert(e.drop_last() =~= es.take(i as int));
                assert(e.last() == es[i as int]);
                assert forall|j: int| base.len() <= j < neighborhoods@.len() implies (
                #[trigger] neighborhoods@[j])@ == current_state@.insert(name@, space@[j - base.len()]) by {
                    assert(neighborhoods@[base.len() + (j - base.len())] == neighborhoods@[j]);
                }
                assert(state_views(neighborhoods@) =~= state_views(base) + space@.map_values(
                    |v: usize| current_state@.insert(name@, v),
                ));
            }
            i = i + 1;
        }
        assert(es.take(n as int) =~= es);
        neighborhoods
    }

    /// A neighbour of `params_state`: the first `num_params_2_vary`
    /// parameters (in the state's order) take a random value of their space,
    /// the others keep theirs.
    pub fn get_neighborhood(&self, params_state: &State, num_params_2_vary: usize) -> (r: Option<
        State,
    >)
        requires
            forall|i: int|
                0 <= i < params_state.entries().len() ==> self.params_space_state@.contains_key(
                    #[trigger] params_state.entries()[i].0,
                ),
            forall|i: int|
                0 <= i < params_state.entries().len() && i < num_params_2_vary
                    ==> self.params_space_state@[#[trigger] params_state.entries()[i].0]@.len()
                    > 0,
        ensures
            r is Some,
            r matches Some(n) ==> {
                &&& n.keys() == params_state.keys()
                &&& n@.dom() == params_state@.dom()
                &&& forall|i: int|
                    0 <= i < params_state.entries().len() ==> {
                        let (k, v) = #[trigger] params_state.entries()[i];
                        if i < num_params_2_vary {
                            self.params_space_state@[k]@.contains(n@[k])
                        } else {
                            n@[k] == v
                        }
                    }
            },
    {
        let n = params_state.len();
        let mut new_state: State = KeyedVec::new();
        let mut remaining = num_params_2_vary;
        let mut i: usize = 0;
        while i < n
            invariant
                n == params_state.entries().len(),
                i <= n,
                forall|a: int, b: int|
                    0 <= a < b < n ==> #[trigger] params_state.entries()[a].0
                        != #[trigger] params_state.entries()[b].0,
                forall|j: int|
                    0 <= j < n ==> params_state@.contains_key(#[trigger] params_state.entries()[j].0)
                        && params_state@[params_state.entries()[j].0] == params_state.entries()[j].1,
                forall|k: Seq<char>| #[trigger]
                    params_state@.contains_key(k) ==> exists|j: int|
                        0 <= j < n && params_state.entries()[j].0 == k,
                forall|j: int|
                    0 <= j < n ==> self.params_space_state@.contains_key(
                        #[trigger] params_state.entries()[j].0,
                    ),
                forall|j: int|
                    0 <= j < n && j < num_params_2_vary ==> self.params_space_state@[
                    #[trigger] params_state.entries()[j].0]@.len() > 0,
                remaining == if i < num_params_2_vary {
                    num_params_2_vary - i
                } else {
                    0
                },
                new_state.keys() == params_state.keys().take(i as int),
                new_state@.dom() == params_state.keys().take(i as int).to_set(),
                forall|j: int|
                    0 <= j < i ==> {
                        let (k, v) = #[trigger] params_state.entries()[j];
                        new_state@.contains_key(k) && if j < num_params_2_vary {
                            self.params_space_state@[k]@.contains(new_state@[k])
                        } else {
                            new_state@[k] == v
                        }
                    },
            decreases n - i,
        {
            let (name, cur) = params_state.entry_at(i);
            let value = if remaining > 0 {
                let space = match self.params_space_state.get(name.as_str()) {
                    Some(sp) => sp,
                    None => unreached(),
                };
                let v = match pick_one(space.as_slice()) {
                    Some(v) => *v,
                    None => unreached(),
                };
                remaining = remaining - 1;
                v
            } else {
                *cur
            };
            proof {
                assert(!new_state@.contains_key(name@)) by {
                    if new_state@.contains_key(name@) {
                        assert(params_state.keys().take(i as int).to_set().contains(name@));
                        let j = choose|j: int|
                            0 <= j < i && params_state.keys().take(i as int)[j] == name@;
                        assert(params_state.entries()[j].0 == params_state.entries()[i as int].0);
                    }
                }
            }
            let ghost before = new_state@;
            new_state.insert(name.clone(), value);
            proof {
                assert(params_state.keys().take(i + 1) =~= params_state.keys().take(i as int).push(
                    name@,
                ));
                params_state.keys().take(i as int).lemma_push_to_set_commute(name@);
                assert(new_state@.dom() =~= params_state.keys().take(i + 1).to_set());
                assert forall|j: int| 0 <= j < i + 1 implies {
                    let (k, v) = #[trigger] params_state.entries()[j];
                    new_state@.contains_key(k) && if j < num_params_2_vary {
                        self.params_space_state@[k]@.contains(new_state@[k])
                    } else {
                        new_state@[k] == v
                    }
                } by {
                    if j < i {
                        assert(params_state.entries()[j].0 != params_state.entries()[i as int].0);
                        assert(before.contains_key(params_state.entries()[j].0));
                    }
                }
            }
            i = i + 1;
        }
        proof {
            assert(params_state.keys().take(n as int) =~= params_state.keys());
            assert forall|k: Seq<char>| new_state@.dom().contains(k) == params_state@.dom().contains(k) by {
                if params_state@.contains_key(k) {
                    let j = choose|j: int| 0 <= j < n && params_state.entries()[j].0 == k;
                    assert(params_state.keys()[j] == k);
                }
                if new_state@.dom().contains(k) {
                    let j = choose|j: int| 0 <= j < n && params_state.keys()[j] == k;
                    assert(params_state.entries()[j].0 == k);
                }
            }
            assert(new_state@.dom() =~= params_state@.dom());
        }
        Some(new_state)
    }

    /// A state with a random value of its space for each parameter.
    pub fn get_rand_param(&self) -> (r: State)
        requires
            forall|k: Seq<char>| #[trigger]
                self.params_space_state@.contains_key(k) ==> self.params_space_state@[k]@.len()
                    > 0,
        ensures
            r@.dom() == self.params_space_state@.dom(),
            r.keys() == self.params_space_state.keys(),
            forall|k: Seq<char>| #[trigger]
                r@.contains_key(k) ==> self.params_space_state@[k]@.contains(r@[k]),
    {
        let n = self.params_space_state.len();
        let mut new_state: State = KeyedVec::new();
        let ghost ks = self.params_space_state.keys();
        let mut i: usize = 0;
        while i < n
            invariant
                n == self.params_space_state.entries().len(),
                ks == self.params_space_state.keys(),
                i <= n,
                forall|a: int, b: int|
                    0 <= a < b < n ==> #[trigger] self.params_space_state.entries()[a].0
                        != #[trigger] self.params_space_state.entries()[b].0,
                forall|j: int|
                    0 <= j < n ==> self.params_space_state@.contains_key(
                        #[trigger] self.params_space_state.entries()[j].0,
                    ) && self.params_space_state@[self.params_space_state.entries()[j].0]
                        == self.params_space_state.entries()[j].1,
                forall|k: Seq<char>| #[trigger]
                    self.params_space_state@.contains_key(k) ==> exists|j: int|
                        0 <= j < n && self.params_space_state.entries()[j].0 == k,
                forall|k: Seq<char>| #[trigger]
                    self.params_space_state@.contains_key(k) ==> self.params_space_state@[k]@.len()
                        > 0,
                new_state.keys() == ks.take(i as int),
                new_state@.dom() == ks.take(i as int).to_set(),
                forall|k: Seq<char>| #[trigger]
                    new_state@.contains_key(k) ==> self.params_space_state@[k]@.contains(
                        new_state@[k],
                    ),
            decreases n - i,
        {
            let (name, space) = self.params_space_state.entry_at(i);
            assert(self.params_space_state@.contains_key(name@));
            let v = match pick_one(space.as_slice()) {
                Some(v) => *v,
                None => unreached(),
            };
            proof {
                assert(!new_state@.contains_key(name@)) by {
                    if new_state@.contains_key(name@) {
                        let j = choose|j: int| 0 <= j < i && ks.take(i as int)[j] == name@;
                        assert(self.params_space_state.entries()[j].0
                            == self.params_space_state.entries()[i as int].0);
                    }
                }
            }
            new_state.insert(name.clone(), v);
            proof {
                assert(ks.take(i + 1) =~= ks.take(i as int).push(name@));
                ks.take(i as int).lemma_push_to_set_commute(name@);
                assert(new_state@.dom() =~= ks.take(i + 1).to_set());
            }
            i = i + 1;
        }
        proof {
            assert(ks.take(n as int) =~= ks);
            assert forall|k: Seq<char>|
                new_state@.dom().contains(k) == self.params_space_state@.dom().contains(k) by {
                if self.params_space_state@.contains_key(k) {
                    let j = choose|j: int| 0 <= j < n && self.params_space_state.entries()[j].0 == k;
                    assert(ks[j] == k);
                }
                if new_state@.dom().contains(k) {
                    let j = choose|j: int| 0 <= j < n && ks[j] == k;
                    assert(self.params_space_state.entries()[j].0 == k);
                }
            }
            assert(new_state@.dom() =~= self.params_space_state@.dom());
        }
        new_state
    }

    /// `size` random states (for the recombinative solver).
    pub fn get_rand_population(&self, size: usize) -> (r: Vec<State>)
        requires
            forall|k: Seq<char>| #[trigger]
                self.params_space_state@.contains_key(k) ==> self.params_space_state@[k]@.len()
                    > 0,
        ensures
            r@.len() == size,
            forall|i: int|
                0 <= i < size ==> {
                    &&& (#[trigger] r@[i])@.dom() == self.params_space_state@.dom()
                    &&& r@[i].keys() == self.params_space_state.keys()
                    &&& forall|k: Seq<char>| #[trigger]
                        r@[i]@.contains_key(k) ==> self.params_space_state@[k]@.contains(r@[i]@[k])
                },
    {
        let mut res_vec: Vec<State> = Vec::new();
        let mut i: usize = 0;
        while i < size
            invariant
                i <= size,
                res_vec@.len() == i,
                forall|k: Seq<char>| #[trigger]
                    self.params_space_state@.contains_key(k) ==> self.params_space_state@[k]@.len()
                        > 0,
                forall|j: int|
                    0 <= j < i ==> {
                        &&& (#[trigger] res_vec@[j])@.dom() == self.params_space_state@.dom()
                        &&& res_vec@[j].keys() == self.params_space_state.keys()
                        &&& forall|k: Seq<char>| #[trigger]
                            res_vec@[j]@.contains_key(k) ==> self.params_space_state@[k]@.contains(
                                res_vec@[j]@[k],
                            )
                    },
            decreases size - i,
        {
            let s = self.get_rand_param();
            res_vec.push(s);
            i = i + 1;
        }
        res_vec
    }
}

/// Every value of the space of a parameter lies between its bounds and is
/// reached from the low bound in whole steps, and the low bound itself
/// always belongs to the space.
pub proof fn lemma_space_values_in_bounds(lbound: usize, ubound: usize, step: usize)
    requires
        lbound <= ubound,
        step > 0,
    ensures
        forall|i: int|
            0 <= i < space_values(lbound, ubound, step).len() ==> {
                let v = #[trigger] space_values(lbound, ubound, step)[i];
                lbound <= v <= ubound && (v - lbound) % (step as int) == 0
            },
        space_values(lbound, ubound, step).contains(lbound),
{
    let n = (ubound - lbound) / (step as int);
    assert(n * step <= ubound - lbound) by (nonlinear_arith)
        requires
            n == (ubound - lbound) / (step as int),
            step > 0,
            ubound >= lbound,
    ;
    assert forall|i: int| 0 <= i < space_values(lbound, ubound, step).len() implies {
        let v = #[trigger] space_values(lbound, ubound, step)[i];
        lbound <= v <= ubound && (v - lbound) % (step as int) == 0
    } by {
        assert(0 <= step * i <= step * n) by (nonlinear_arith)
            requires
                0 <= i <= n,
                step > 0,
        ;
        assert((step * i) % (step as int) == 0) by (nonlinear_arith)
            requires
                step > 0,
                i >= 0,
        ;
    }
    assert(space_values(lbound, ubound, step)[0] == lbound);
}

/// `s` is `current` with one parameter of `spaces` set to a value of its
/// space.
pub open spec fn varies_one(spaces: Seq<(Seq<char>, Vec<usize>)>, current: Map<Seq<char>, usize>, s: Map<Seq<char>, usize>) -> bool {
    exists|j: int, v: usize| 0 <= j < spaces.len() && spaces[j].1@.contains(v) && s == current.insert(spaces[j].0, v)
}

/// Each neighbour differs from the current configuration in one parameter
/// only, which takes a value of its space.
pub proof fn lemma_neighbours_vary_one(spaces: Seq<(Seq<char>, Vec<usize>)>, current: Map<Seq<char>, usize>)
    ensures
        forall|i: int|
            0 <= i < neighbours(spaces, current).len() ==> varies_one(spaces, current, #[trigger] neighbours(spaces, current)[i]),
    decreases spaces.len(),
{
    if spaces.len() > 0 {
        let p = spaces.drop_last();
        lemma_neighbours_vary_one(p, current);
        let last = spaces.last();
        let a = neighbours(p, current);
        assert forall|i: int| 0 <= i < neighbours(spaces, current).len() implies varies_one(
            spaces,
            current,
            #[trigger] neighbours(spaces, current)[i],
        ) by {
            if i < a.len() {
                assert(neighbours(spaces, current)[i] == a[i]);
                assert(varies_one(p, current, a[i]));
                let (j, v) = choose|j: int, v: usize|
                    0 <= j < p.len() && p[j].1@.contains(v) && a[i] == current.insert(p[j].0, v);
                assert(spaces[j] == p[j]);
            } else {
                let t = i - a.len();
                let v = last.1@[t];
                let j = spaces.len() - 1;
                assert(last.1@.contains(v));
                assert(spaces[j] == last);
                assert(neighbours(spaces, current)[i] == current.insert(last.0, v));
            }
        }
    }
}

} // verus!
