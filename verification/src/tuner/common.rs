use vstd::prelude::*;
use crate::pool::{Pool, Counter};
use super::states_gen::State;

verus! {

/// Configurations waiting to be explored by the recombinative solver.
pub struct StatesPool(Pool<State>);

/// Neighbouring configurations that the workers of a step share.
pub struct NeighborhoodsPool(Pool<State>);

/// The number of annealing steps done.
pub struct ElapsedSteps(Counter);

/// The number of accepted states.
pub struct AcceptedStates(Counter);

/// The number of states accepted (or rejected) in a row.
pub struct SubsequentAccStates(Counter);

impl View for StatesPool {
    type V = Seq<State>;

    closed spec fn view(&self) -> Seq<State> {
        self.0@
    }
}

impl View for NeighborhoodsPool {
    type V = Seq<State>;

    closed spec fn view(&self) -> Seq<State> {
        self.0@
    }
}

impl View for ElapsedSteps {
    type V = nat;

    closed spec fn view(&self) -> nat {
        self.0@
    }
}

impl View for AcceptedStates {
    type V = nat;

    closed spec fn view(&self) -> nat {
        self.0@
    }
}

impl View for SubsequentAccStates {
    type V = nat;

    closed spec fn view(&self) -> nat {
        self.0@
    }
}

impl StatesPool {
    pub fn new() -> (r: Self)
        ensures
            r@ == Seq::<State>::empty(),
    {
        StatesPool(Pool::new())
    }

    pub fn new_with_val(init_vec: Vec<State>) -> (r: Self)
        ensures
            r@ == init_vec@,
    {
        StatesPool(Pool::from_vec(init_vec))
    }

    pub fn push(&mut self, new_elem: State)
        ensures
            final(self)@ == old(self)@.push(new_elem),
    {
        self.0.push(new_elem);
    }

    pub fn pop(&mut self) -> (r: Option<State>)
        ensures
            old(self)@.len() == 0 ==> r is None && final(self)@ == old(self)@,
            old(self)@.len() > 0 ==> r == Some(old(self)@.last()) && final(self)@ == old(
                self,
            )@.drop_last(),
    {
        self.0.pop()
    }

    pub fn shuffle(&mut self)
        ensures
            final(self)@.len() == old(self)@.len(),
            final(self)@.to_multiset() == old(self)@.to_multiset(),
    {
        self.0.shuffle();
    }

    pub fn remove_one(&mut self) -> (r: Option<State>)
        ensures
            old(self)@.len() == 0 ==> r is None && final(self)@ == old(self)@,
            old(self)@.len() > 0 ==> exists|i: int|
                0 <= i < old(self)@.len() && r == Some(old(self)@[i]) && final(self)@ == old(
                    self,
                )@.update(i, old(self)@.last()).drop_last(),
    {
        self.0.remove_one()
    }

    pub fn size(&self) -> (n: u64)
        ensures
            n == self@.len(),
    {
        self.0.size() as u64
    }

    pub fn push_bulk(&mut self, v_1: &mut Vec<State>)
        ensures
            final(self)@ == old(self)@ + old(v_1)@,
            final(v_1)@ == Seq::<State>::empty(),
    {
        self.0.append(v_1);
    }
}

impl NeighborhoodsPool {
    pub fn new(neighs: Vec<State>) -> (r: Self)
        ensures
            r@ == neighs@,
    {
        NeighborhoodsPool(Pool::from_vec(neighs))
    }

    pub fn remove_one(&mut self) -> (r: Option<State>)
        ensures
            old(self)@.len() == 0 ==> r is None && final(self)@ == old(self)@,
            old(self)@.len() > 0 ==> exists|i: int|
                0 <= i < old(self)@.len() && r == Some(old(self)@[i]) && final(self)@ == old(
                    self,
                )@.update(i, old(self)@.last()).drop_last(),
    {
        self.0.remove_one()
    }

    pub fn size(&self) -> (n: u64)
        ensures
            n == self@.len(),
    {
        self.0.size() as u64
    }
}

impl ElapsedSteps {
    pub fn new() -> (r: Self)
        ensures
            r@ == 0,
    {
        ElapsedSteps(Counter::new())
    }

    pub fn increment(&mut self)
        requires
            old(self)@ < usize::MAX,
        ensures
            final(self)@ == old(self)@ + 1,
    {
        self.0.add(1);
    }

    pub fn get(&self) -> (r: usize)
        ensures
            r == self@,
    {
        self.0.get()
    }

    pub fn add(&mut self, val: usize)
        requires
            old(self)@ + val <= usize::MAX,
        ensures
            final(self)@ == old(self)@ + val,
    {
        self.0.add(val);
    }
}

impl AcceptedStates {
    pub fn new() -> (r: Self)
        ensures
            r@ == 0,
    {
        AcceptedStates(Counter::new())
    }

    pub fn increment(&mut self)
        requires
            old(self)@ < usize::MAX,
        ensures
            final(self)@ == old(self)@ + 1,
    {
        self.0.add(1);
    }

    pub fn get(&self) -> (r: usize)
        ensures
            r == self@,
    {
        self.0.get()
    }
}

impl SubsequentAccStates {
    pub fn new() -> (r: Self)
        ensures
            r@ == 0,
    {
        SubsequentAccStates(Counter::new())
    }

    pub fn increment(&mut self)
        requires
            old(self)@ < usize::MAX,
        ensures
            final(self)@ == old(self)@ + 1,
    {
        self.0.add(1);
    }

    pub fn get(&self) -> (r: usize)
        ensures
            r == self@,
    {
        self.0.get()
    }

    pub fn reset(&mut self)
        ensures
            final(self)@ == 0,
    {
        self.0.reset();
    }
}

/// The number of `true` in `s`.
pub open spec fn count_true(s: Seq<bool>) -> nat
    decreases s.len(),
{
    if s.len() == 0 {
        0
    } else {
        count_true(s.drop_last()) + if s.last() {
            1nat
        } else {
            0nat
        }
    }
}

proof fn lemma_count_at(counts: Seq<nat>, increments: Seq<bool>, k: int)
    requires
        counts.len() == increments.len() + 1,
        counts[0] == 0,
        forall|j: int| 0 <= j < increments.len() ==> #[trigger] counts[j + 1] == counts[j] + if increments[j] {
            1nat
        } else {
            0nat
        },
        0 <= k < counts.len(),
    ensures
        counts[k] == count_true(increments.take(k)),
    decreases k,
{
    if k == 0 {
        assert(increments.take(0) =~= Seq::<bool>::empty());
    } else {
        lemma_count_at(counts, increments, k - 1);
        assert(increments.take(k).drop_last() =~= increments.take(k - 1));
        assert(counts[(k - 1) + 1] == counts[k - 1] + if increments[k - 1] {
            1nat
        } else {
            0nat
        });
    }
}

/// The counts an `AcceptedStates` goes through from `new`: before call `k`
/// its count is `counts[k]`, and call `k` is an `increment` (`increments[k]`)
/// or a `get`, which leaves the count alone. Every count read is the number
/// of increments done before it, so the counts read never go down.
pub proof fn lemma_accepted_counts_never_decrease(counts: Seq<nat>, increments: Seq<bool>)
    requires
        counts.len() == increments.len() + 1,
        counts[0] == 0,
        forall|k: int| 0 <= k < increments.len() ==> #[trigger] counts[k + 1] == counts[k] + if increments[k] {
            1nat
        } else {
            0nat
        },
    ensures
        forall|k: int| 0 <= k < counts.len() ==> #[trigger] counts[k] == count_true(increments.take(k)),
        forall|a: int, b: int| 0 <= a <= b < counts.len() ==> #[trigger] counts[a] <= #[trigger] counts[b],
{
    assert forall|k: int| 0 <= k < counts.len() implies #[trigger] counts[k] == count_true(increments.take(k)) by {
        lemma_count_at(counts, increments, k);
    }
    assert forall|a: int, b: int| 0 <= a <= b < counts.len() implies #[trigger] counts[a] <= #[trigger] counts[b] by {
        lemma_counts_grow(counts, increments, a, b);
    }
}

proof fn lemma_counts_grow(counts: Seq<nat>, increments: Seq<bool>, a: int, b: int)
    requires
        counts.len() == increments.len() + 1,
        forall|j: int| 0 <= j < increments.len() ==> #[trigger] counts[j + 1] == counts[j] + if increments[j] {
            1nat
        } else {
            0nat
        },
        0 <= a <= b < counts.len(),
    ensures
        counts[a] <= counts[b],
    decreases b - a,
{
    if a < b {
        lemma_counts_grow(counts, increments, a, b - 1);
        assert(counts[(b - 1) + 1] >= counts[b - 1]);
    }
}

} // verus!
