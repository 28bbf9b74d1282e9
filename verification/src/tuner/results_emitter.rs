use vstd::prelude::*;
use crate::text::{decimal, usize_to_string, views};
use super::states_gen::State;

verus! {

/// Where results would be sent to an InfluxDB server.
pub struct Emitter2Influx {
    pub host: String,
    pub port: usize,
}

/// `prefix` followed by each name of `names`.
pub open spec fn prefixed(prefix: Seq<char>, names: Seq<Seq<char>>) -> Seq<Seq<char>> {
    names.map_values(|n: Seq<char>| prefix + n)
}

/// The header of the results file: times, temperature, the best energy and
/// configuration, the last energy and configuration.
pub open spec fn header_spec(names: Seq<Seq<char>>) -> Seq<Seq<char>> {
    seq!["time_s"@, "cputime_s"@, "temperature"@, "best_nrg"@] + prefixed("best_"@, names) + seq![
        "last_nrg"@,
    ] + prefixed("last_"@, names)
}

fn push_prefixed(row: &mut Vec<String>, prefix: &str, names: &Vec<String>)
    ensures
        views(final(row)@) == views(old(row)@) + prefixed(prefix@, views(names@)),
{
    let mut i: usize = 0;
    let ghost start = views(row@);
    while i < names.len()
        invariant
            i <= names@.len(),
            views(row@) == start + prefixed(prefix@, views(names@.take(i as int))),
        decreases names@.len() - i,
    {
        let mut item = prefix.to_owned();
        item.append(names[i].as_str());
        let ghost before = views(row@);
        row.push(item);
        proof {
            assert(views(row@) =~= before.push(item@));
            assert(prefixed(prefix@, views(names@.take(i + 1))) =~= prefixed(
                prefix@,
                views(names@.take(i as int)),
            ).push(prefix@ + names@[i as int]@));
        }
        i = i + 1;
    }
    assert(names@.take(i as int) =~= names@);
}

/// The header row of a results file for the parameters `ordered_params`.
pub fn header_row(ordered_params: &Vec<String>) -> (r: Vec<String>)
    ensures
        views(r@) == header_spec(views(ordered_params@)),
{
    let mut row: Vec<String> = Vec::new();
    row.push("time_s".to_owned());
    row.push("cputime_s".to_owned());
    row.push("temperature".to_owned());
    row.push("best_nrg".to_owned());
    assert(views(row@) =~= seq!["time_s"@, "cputime_s"@, "temperature"@, "best_nrg"@]);
    push_prefixed(&mut row, "best_", ordered_params);
    let ghost mid = views(row@);
    row.push("last_nrg".to_owned());
    assert(views(row@) =~= mid + seq!["last_nrg"@]);
    push_prefixed(&mut row, "last_", ordered_params);
    row
}

/// The values of the parameters `ordered_params` in `state`, as text.
pub fn state_values_row(state: &State, ordered_params: &Vec<String>) -> (r: Vec<String>)
    requires
        forall|i: int| 0 <= i < ordered_params@.len() ==> state@.contains_key(#[trigger] ordered_params@[i]@),
    ensures
        r@.len() == ordered_params@.len(),
        forall|i: int|
            0 <= i < r@.len() ==> (#[trigger] r@[i])@ == decimal(state@[ordered_params@[i]@] as nat),
{
    let mut row: Vec<String> = Vec::new();
    let mut i: usize = 0;
    while i < ordered_params.len()
        invariant
            i <= ordered_params@.len(),
            row@.len() == i,
            forall|j: int| 0 <= j < ordered_params@.len() ==> state@.contains_key(#[trigger] ordered_params@[j]@),
            forall|j: int|
                0 <= j < i ==> (#[trigger] row@[j])@ == decimal(state@[ordered_params@[j]@] as nat),
        decreases ordered_params@.len() - i,
    {
        let v = match state.get(ordered_params[i].as_str()) {
            Some(v) => *v,
            None => unreached(),
        };
        row.push(usize_to_string(v));
        i = i + 1;
    }
    row
}

} // verus!
