use vstd::prelude::*;
use crate::keyed::KeyedVec;
use crate::rng::{pick_one, random_index};
use super::common::StatesPool;
use super::problem::Problem;
use super::states_gen::State;

verus! {

/// Drawing position `i` and then position `j` from `pop` gives the parents
/// `r` and leaves `rest`.
pub open spec fn parents_drawn(pop: Seq<State>, rest: Seq<State>, r: (State, State), i: int, j: int) -> bool {
    let len = pop.len();
    let mid = pop.update(i, pop.last()).drop_last();
    &&& 0 <= i < len - 1
    &&& 0 <= j < len - 1
    &&& r.0 == pop[i]
    &&& r.1 == mid[j]
    &&& rest == mid.update(j, mid.last()).drop_last()
}

/// Takes two parents out of `sub_population`, each at a random position
/// below the last one of the population as it then is (the last element
/// fills the gap).
pub fn get_parents(sub_population: &mut Vec<State>) -> (r: (State, State))
    requires
        old(sub_population)@.len() >= 2,
    ensures
        exists|i: int, j: int|
            #[trigger] parents_drawn(old(sub_population)@, final(sub_population)@, r, i, j),
{
    let len = sub_population.len();
    let i = random_index(0, len - 1);
    let parent_1 = sub_population.swap_remove(i);
    let ghost mid = sub_population@;
    let j = random_index(0, len - 1);
    let parent_2 = sub_population.swap_remove(j);
    assert(parents_drawn(
        old(sub_population)@,
        sub_population@,
        (parent_1, parent_2),
        i as int,
        j as int,
    ));
    (parent_1, parent_2)
}

/// The value a child takes for the parameter at position `i` of the first
/// parent before mutation: the first `cut` parameters come from one parent,
/// the others from the other.
pub open spec fn crossover_value(
    p1: State,
    p2: Map<Seq<char>, usize>,
    cut: int,
    i: int,
    first: bool,
) -> usize {
    let (k, v) = p1.entries()[i];
    if (i < cut) == first {
        v
    } else {
        p2[k]
    }
}

/// `child` is the crossover of `p1` and `p2` (taking `p1`'s values before
/// the cut when `first` holds), with one parameter `g` mutated to a value
/// of its space.
pub open spec fn is_mutated_child(
    child: State,
    p1: State,
    p2: Map<Seq<char>, usize>,
    spaces: Map<Seq<char>, Vec<usize>>,
    first: bool,
) -> bool {
    let cut = (2 * p1.entries().len() / 5) as int;
    exists|g: Seq<char>|
        {
            &&& p1@.contains_key(g)
            &&& spaces[g]@.contains(child@[g])
            &&& child@.dom() == p1@.dom()
            &&& child.keys() == p1.keys()
            &&& forall|i: int|
                0 <= i < p1.entries().len() && #[trigger] p1.entries()[i].0 != g ==> child@[p1.entries()[i].0]
                    == crossover_value(p1, p2, cut, i, first)
        }
}

/// Two children of `parent_1` and `parent_2`: the first two fifths of the
/// parameters (in `parent_1`'s order) come from one parent and the rest from
/// the other, then one random parameter of each child takes a random value
/// of its space.
pub fn generate_children(problem: &Problem, parent_1: &State, parent_2: &State) -> (r: (State, State))
    requires
        parent_1@.dom().len() > 0,
        forall|k: Seq<char>| parent_1@.contains_key(k) ==> parent_2@.contains_key(k),
        forall|k: Seq<char>| #[trigger]
            parent_1@.contains_key(k) ==> problem.params_configurator.params_space_state@.contains_key(k)
                && problem.params_configurator.params_space_state@[k]@.len() > 0,
    ensures
        is_mutated_child(
            r.0,
            *parent_1,
            parent_2@,
            problem.params_configurator.params_space_state@,
            true,
        ),
        is_mutated_child(
            r.1,
            *parent_1,
            parent_2@,
            problem.params_configurator.params_space_state@,
            false,
        ),
{
    let n = parent_1.len();
    let cutting_point = (n / 5) * 2 + ((n % 5) * 2) / 5;
    assert(cutting_point == 2 * n / 5) by (nonlinear_arith)
        requires
            cutting_point == (n / 5) * 2 + ((n % 5) * 2) / 5,
    ;
    let mut child_1: State = KeyedVec::new();
    let mut child_2: State = KeyedVec::new();
    let mut i: usize = 0;
    while i < n
        invariant
            n == parent_1.entries().len(),
            cutting_point == 2 * n / 5,
            i <= n,
            forall|a: int, b: int|
                0 <= a < b < n ==> #[trigger] parent_1.entries()[a].0
                    != #[trigger] parent_1.entries()[b].0,
            forall|j: int|
                0 <= j < n ==> parent_1@.contains_key(#[trigger] parent_1.entries()[j].0),
            forall|k: Seq<char>| parent_1@.contains_key(k) ==> parent_2@.contains_key(k),
            child_1.keys() == parent_1.keys().take(i as int),
            child_2.keys() == parent_1.keys().take(i as int),
            child_1@.dom() == parent_1.keys().take(i as int).to_set(),
            child_2@.dom() == parent_1.keys().take(i as int).to_set(),
            forall|j: int|
                0 <= j < i ==> child_1@[#[trigger] parent_1.entries()[j].0] == crossover_value(
                    *parent_1,
                    parent_2@,
                    cutting_point as int,
                    j,
                    true,
                ) && child_2@[parent_1.entries()[j].0] == crossover_value(
                    *parent_1,
                    parent_2@,
                    cutting_point as int,
                    j,
                    false,
                ),
        decreases n - i,
    {
        let (key, val_p1) = parent_1.entry_at(i);
        let val_p2 = match parent_2.get(key.as_str()) {
            Some(v) => *v,
            None => unreached(),
        };
        proof {
            assert(!child_1@.contains_key(key@) && !child_2@.contains_key(key@)) by {
                if child_1@.contains_key(key@) || child_2@.contains_key(key@) {
                    let j = choose|j: int| 0 <= j < i && parent_1.keys().take(i as int)[j] == key@;
                    assert(parent_1.entries()[j].0 == parent_1.entries()[i as int].0);
                }
            }
        }
        let ghost before_1 = child_1@;
        let ghost before_2 = child_2@;
        if i < cutting_point {
            child_1.insert(key.clone(), *val_p1);
            child_2.insert(key.clone(), val_p2);
        } else {
            child_1.insert(key.clone(), val_p2);
            child_2.insert(key.clone(), *val_p1);
        }
        proof {
            assert(parent_1.keys().take(i + 1) =~= parent_1.keys().take(i as int).push(key@));
            parent_1.keys().take(i as int).lemma_push_to_set_commute(key@);
            assert forall|j: int| 0 <= j < i + 1 implies child_1@[#[trigger] parent_1.entries()[j].0]
                == crossover_value(*parent_1, parent_2@, cutting_point as int, j, true)
                && child_2@[parent_1.entries()[j].0] == crossover_value(
                *parent_1,
                parent_2@,
                cutting_point as int,
                j,
                false,
            ) by {
                if j < i {
                    assert(parent_1.entries()[j].0 != parent_1.entries()[i as int].0);
                }
            }
        }
        i = i + 1;
    }
    assert(parent_1.keys().take(n as int) =~= parent_1.keys());
    let ghost crossed_1 = child_1@;
    let ghost crossed_2 = child_2@;
    proof {
        assert forall|k: Seq<char>| crossed_1.dom().contains(k) == parent_1@.dom().contains(k) by {
            if parent_1@.contains_key(k) {
                let j = choose|j: int| 0 <= j < n && parent_1.entries()[j].0 == k;
                assert(parent_1.keys()[j] == k);
            }
            if crossed_1.dom().contains(k) {
                let j = choose|j: int| 0 <= j < n && parent_1.keys()[j] == k;
                assert(parent_1.entries()[j].0 == k);
            }
        }
        assert(crossed_1.dom() =~= parent_1@.dom());
        assert(crossed_2.dom() =~= parent_1@.dom());
    }
    mutate(problem, &mut child_1);
    mutate(problem, &mut child_2);
    proof {
        let g1 = choose|g: Seq<char>|
            crossed_1.contains_key(g) && child_1@ == crossed_1.insert(g, child_1@[g])
                && problem.params_configurator.params_space_state@[g]@.contains(child_1@[g]);
        assert(child_1@.dom() =~= parent_1@.dom());
        assert forall|j: int|
            0 <= j < parent_1.entries().len() && #[trigger] parent_1.entries()[j].0 != g1 implies child_1@[parent_1.entries()[j].0]
            == crossover_value(*parent_1, parent_2@, cutting_point as int, j, true) by {}
        let g2 = choose|g: Seq<char>|
            crossed_2.contains_key(g) && child_2@ == crossed_2.insert(g, child_2@[g])
                && problem.params_configurator.params_space_state@[g]@.contains(child_2@[g]);
        assert(child_2@.dom() =~= parent_1@.dom());
        assert forall|j: int|
            0 <= j < parent_1.entries().len() && #[trigger] parent_1.entries()[j].0 != g2 implies child_2@[parent_1.entries()[j].0]
            == crossover_value(*parent_1, parent_2@, cutting_point as int, j, false) by {}
    }
    (child_1, child_2)
}

/// One random parameter of `child` takes a random value of its space.
fn mutate(problem: &Problem, child: &mut State)
    requires
        old(child)@.dom().len() > 0,
        forall|k: Seq<char>| #[trigger]
            old(child)@.contains_key(k) ==> problem.params_configurator.params_space_state@.contains_key(k)
                && problem.params_configurator.params_space_state@[k]@.len() > 0,
    ensures
        final(child).keys() == old(child).keys(),
        exists|g: Seq<char>|
            old(child)@.contains_key(g) && final(child)@ == old(child)@.insert(g, final(child)@[g])
                && problem.params_configurator.params_space_state@[g]@.contains(final(child)@[g]),
{
    let n = child.len();
    let mut keys: Vec<String> = Vec::new();
    let mut i: usize = 0;
    while i < n
        invariant
            n == child.entries().len(),
            i <= n,
            keys@.len() == i,
            forall|j: int|
                0 <= j < n ==> child@.contains_key(#[trigger] child.entries()[j].0),
            forall|j: int| 0 <= j < i ==> child@.contains_key((#[trigger] keys@[j])@),
        decreases n - i,
    {
        let (k, _) = child.entry_at(i);
        keys.push(k.clone());
        i = i + 1;
    }
    let gene = match pick_one(keys.as_slice()) {
        Some(g) => g.clone(),
        None => unreached(),
    };
    assert(child@.contains_key(gene@));
    let space = match problem.params_configurator.params_space_state.get(gene.as_str()) {
        Some(sp) => sp,
        None => unreached(),
    };
    let new_value = match pick_one(space.as_slice()) {
        Some(v) => *v,
        None => unreached(),
    };
    let ghost g = gene@;
    child.insert(gene, new_value);
    assert(old(child)@.insert(g, new_value) == child@);
}

/// The chunks that `workers` workers take from a population `pool`, each
/// up to `size` items, and what is left: each worker in turn takes the last
/// `size` items of what is left (fewer when fewer are left), the last one
/// first.
pub open spec fn chunks_spec(pool: Seq<State>, workers: nat, size: nat) -> (Seq<Seq<State>>, Seq<State>)
    decreases workers,
{
    if workers == 0 {
        (seq![], pool)
    } else {
        let (cs, rest) = chunks_spec(pool, (workers - 1) as nat, size);
        let k = if size <= rest.len() {
            size as int
        } else {
            rest.len() as int
        };
        (cs.push(rest.subrange(rest.len() - k, rest.len() as int).reverse()), rest.take(rest.len() - k))
    }
}

pub open spec fn chunk_views(cs: Seq<Vec<State>>) -> Seq<Seq<State>> {
    cs.map_values(|c: Vec<State>| c@)
}

/// Deals the population out to `workers` workers, `chunk_size` items each
/// at most, taking from the end of the population; what is not dealt out
/// stays in it.
pub fn split_into_chunks(population: &mut StatesPool, workers: usize, chunk_size: usize) -> (r: Vec<Vec<State>>)
    ensures
        (chunk_views(r@), final(population)@) == chunks_spec(old(population)@, workers as nat, chunk_size as nat),
{
    let ghost start = population@;
    let mut chunks: Vec<Vec<State>> = Vec::new();
    let mut i: usize = 0;
    while i < workers
        invariant
            i <= workers,
            (chunk_views(chunks@), population@) == chunks_spec(start, i as nat, chunk_size as nat),
        decreases workers - i,
    {
        let ghost rest = population@;
        let mut chunk: Vec<State> = Vec::new();
        let mut j: usize = 0;
        while j < chunk_size && population.size() > 0
            invariant
                j <= chunk_size,
                j <= rest.len(),
                population@ == rest.take(rest.len() - j),
                chunk@ == rest.subrange(rest.len() - j, rest.len() as int).reverse(),
            decreases chunk_size - j,
        {
            match population.pop() {
                Some(v) => {
                    chunk.push(v);
                    proof {
                        assert(rest.take(rest.len() - j).drop_last() =~= rest.take(rest.len() - (j + 1)));
                        assert(chunk@ =~= rest.subrange(rest.len() - (j + 1), rest.len() as int).reverse());
                    }
                    j = j + 1;
                },
                None => unreached(),
            }
        }
        proof {
            let k = if chunk_size as nat <= rest.len() {
                chunk_size as int
            } else {
                rest.len() as int
            };
            assert(j == k);
        }
        let ghost before = chunk_views(chunks@);
        chunks.push(chunk);
        proof {
            assert(chunk_views(chunks@) =~= before.push(chunk@));
        }
        i = i + 1;
    }
    chunks
}

} // verus!
