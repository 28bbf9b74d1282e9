use vstd::prelude::*;
use super::states_gen::{ParamsConfigurator, State, neighbours, state_views};
use super::energy_eval::EnergyEval;

verus! {

/// A tuning problem: the configurations to explore and how their energy is
/// measured.
pub struct Problem {
    pub params_configurator: ParamsConfigurator,
    pub energy_evaluator: EnergyEval,
}

impl Problem {
    /// The states that differ from `state` in one parameter.
    pub fn neigh_space(&self, state: &State) -> (r: Vec<State>)
        requires
            forall|k: Seq<char>|
                self.params_configurator.params_space_state@.contains_key(k)
                    ==> state@.contains_key(k),
        ensures
            state_views(r@) == neighbours(
                self.params_configurator.params_space_state.entries(),
                state@,
            ),
    {
        self.params_configurator.get_neigh_one_varying(state)
    }

    /// The default configuration.
    pub fn initial_state(&self) -> (r: State)
        ensures
            r@ == self.params_configurator.default_param@,
    {
        self.params_configurator.get_initial_param_conf()
    }

    /// A neighbour of `state` in which the first `num_params_2_vary`
    /// parameters take random values.
    pub fn new_state(&self, state: &State, num_params_2_vary: usize) -> (r: Option<State>)
        requires
            forall|i: int|
                0 <= i < state.entries().len()
                    ==> self.params_configurator.params_space_state@.contains_key(
                    #[trigger] state.entries()[i].0,
                ),
            forall|i: int|
                0 <= i < state.entries().len() && i < num_params_2_vary
                    ==> self.params_configurator.params_space_state@[#[trigger] state.entries()[i].0]@.len()
                    > 0,
        ensures
            r is Some,
            r matches Some(n) ==> {
                &&& n.keys() == state.keys()
                &&& forall|i: int|
                    0 <= i < state.entries().len() ==> {
                        let (k, v) = #[trigger] state.entries()[i];
                        if i < num_params_2_vary {
                            self.params_configurator.params_space_state@[k]@.contains(n@[k])
                        } else {
                            n@[k] == v
                        }
                    }
            },
    {
        self.params_configurator.get_neighborhood(state, num_params_2_vary)
    }

    /// A random configuration.
    pub fn rand_state(&self) -> (r: State)
        requires
            forall|k: Seq<char>| #[trigger]
                self.params_configurator.params_space_state@.contains_key(k)
                    ==> self.params_configurator.params_space_state@[k]@.len() > 0,
        ensures
            r@.dom() == self.params_configurator.params_space_state@.dom(),
            forall|k: Seq<char>| #[trigger]
                r@.contains_key(k) ==> self.params_configurator.params_space_state@[k]@.contains(
                    r@[k],
                ),
    {
        self.params_configurator.get_rand_param()
    }

    /// `size` random configurations.
    pub fn get_population(&self, size: usize) -> (r: Vec<State>)
        requires
            forall|k: Seq<char>| #[trigger]
                self.params_configurator.params_space_state@.contains_key(k)
                    ==> self.params_configurator.params_space_state@[k]@.len() > 0,
        ensures
            r@.len() == size,
            forall|i: int|
                0 <= i < size ==> {
                    &&& (#[trigger] r@[i])@.dom()
                        == self.params_configurator.params_space_state@.dom()
                    &&& forall|k: Seq<char>| #[trigger]
                        r@[i]@.contains_key(k)
                            ==> self.params_configurator.params_space_state@[k]@.contains(
                            r@[i]@[k],
                        )
                },
    {
        self.params_configurator.get_rand_population(size)
    }
}

} // verus!
