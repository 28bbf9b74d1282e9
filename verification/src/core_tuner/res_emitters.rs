//! The rows written to the results files and where results are sent.

use vstd::prelude::*;
use crate::text::views;
use crate::tuner::results_emitter::{header_row, header_spec};
use super::states_gen::State;

verus! {

/// The text values of the parameters `names` in the configuration `state`.
pub open spec fn state_texts(state: Map<Seq<char>, String>, names: Seq<Seq<char>>) -> Seq<Seq<char>> {
    names.map_values(|n: Seq<char>| state[n]@)
}

/// The CSV results files, one per target: the parameters in the order of
/// their columns.
pub struct CSVEmitter {
    pub ordered_params: Vec<String>,
}

impl CSVEmitter {
    /// The emitter for `num_targets` files, one per target: each file has a
    /// column for each parameter of `params_name`, in that order.
    pub fn new(num_targets: usize, params_name: Vec<String>) -> (r: CSVEmitter)
        ensures
            r.ordered_params@ == params_name@,
    {
        CSVEmitter { ordered_params: params_name }
    }

    /// The header row of each of the `num_targets` files: each names the
    /// parameters `params_name` once, in order.
    pub fn headers(num_targets: usize, params_name: &Vec<String>) -> (r: Vec<Vec<String>>)
        ensures
            r@.len() == num_targets,
            forall|i: int|
                0 <= i < num_targets ==> views((#[trigger] r@[i])@) == header_spec(views(params_name@)),
    {
        let mut rows: Vec<Vec<String>> = Vec::new();
        let mut i: usize = 0;
        while i < num_targets
            invariant
                i <= num_targets,
                rows@.len() == i,
                forall|j: int|
                    0 <= j < i ==> views((#[trigger] rows@[j])@) == header_spec(views(params_name@)),
            decreases num_targets - i,
        {
            let row = header_row(params_name);
            rows.push(row);
            i = i + 1;
        }
        rows
    }

    /// The row of an update: the times, the temperature and the best energy
    /// (as given, in text), the best configuration's values, the last energy
    /// and the last configuration's values, in column order.
    pub fn update_row(
        &self,
        time: String,
        cputime: String,
        temperature: String,
        best_val: String,
        best_state: &State,
        measured_val: String,
        measured_state: &State,
    ) -> (r: Vec<String>)
        requires
            forall|i: int|
                0 <= i < self.ordered_params@.len() ==> best_state@.contains_key(
                    #[trigger] self.ordered_params@[i]@,
                ) && measured_state@.contains_key(self.ordered_params@[i]@),
        ensures
            views(r@) == seq![time@, cputime@, temperature@, best_val@] + state_texts(
                best_state@,
                views(self.ordered_params@),
            ) + seq![measured_val@] + state_texts(measured_state@, views(self.ordered_params@)),
    {
        let mut row: Vec<String> = Vec::new();
        row.push(time);
        row.push(cputime);
        row.push(temperature);
        row.push(best_val);
        let ghost head = views(row@);
        self.push_values(&mut row, best_state);
        let ghost mid = views(row@);
        row.push(measured_val);
        assert(views(row@) =~= mid.push(measured_val@));
        self.push_values(&mut row, measured_state);
        row
    }

    fn push_values(&self, row: &mut Vec<String>, state: &State)
        requires
            forall|i: int|
                0 <= i < self.ordered_params@.len() ==> state@.contains_key(
                    #[trigger] self.ordered_params@[i]@,
                ),
        ensures
            views(final(row)@) == views(old(row)@) + state_texts(state@, views(self.ordered_params@)),
    {
        let ghost start = views(row@);
        let mut i: usize = 0;
        while i < self.ordered_params.len()
            invariant
                i <= self.ordered_params@.len(),
                forall|j: int|
                    0 <= j < self.ordered_params@.len() ==> state@.contains_key(
                        #[trigger] self.ordered_params@[j]@,
                    ),
                views(row@) == start + state_texts(state@, views(self.ordered_params@.take(i as int))),
            decreases self.ordered_params@.len() - i,
        {
            let name = &self.ordered_params[i];
            let value = match state.get(name.as_str()) {
                Some(v) => v.clone(),
                None => unreached(),
            };
            let ghost before = views(row@);
            row.push(value);
            proof {
                assert(views(row@) =~= before.push(state@[name@]@));
                assert(state_texts(state@, views(self.ordered_params@.take(i + 1))) =~= state_texts(
                    state@,
                    views(self.ordered_params@.take(i as int)),
                ).push(state@[name@]@));
            }
            i = i + 1;
        }
        assert(self.ordered_params@.take(i as int) =~= self.ordered_params@);
    }
}

/// Where results are sent to an InfluxDB server, and with which credentials.
pub struct InfluxEmitter {
    pub address: String,
    pub username: String,
    pub password: String,
    pub database: String,
}

impl InfluxEmitter {
    pub fn new(address: String, user: String, pwd: String, db: String) -> (r: InfluxEmitter)
        ensures
            r.address@ == address@,
            r.username@ == user@,
            r.password@ == pwd@,
            r.database@ == db@,
    {
        InfluxEmitter { address: address, username: user, password: pwd, database: db }
    }
}

} // verus!
