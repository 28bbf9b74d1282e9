use vstd::prelude::*;
use crate::keyed::KeyedVec;
use crate::pool::{Pool, Counter};

verus! {

/// A configuration of this tuner: a value for each parameter, by name.
pub type State = KeyedVec<u32>;

/// Neighbouring configurations that the workers of a step share.
pub struct NeighborhoodsPool(Pool<State>);

/// The number of annealing steps done.
pub struct ElapsedSteps(Counter);

/// The number of accepted states.
pub struct AcceptedStates(Counter);

/// The number of states rejected in a row.
pub struct SubsequentRejStates(Counter);

impl View for NeighborhoodsPool {
    type V = Seq<State>;

    closed spec fn view(&self) -> Seq<State> {
        self.0@
    }
}

impl View for ElapsedSteps {
    type V = nat;

    closed spec fn view(&self) -> nat {
        self.0@
    }
}

impl View for AcceptedStates {
    type V = nat;

    closed spec fn view(&self) -> nat {
        self.0@
    }
}

impl View for SubsequentRejStates {
    type V = nat;

    closed spec fn view(&self) -> nat {
        self.0@
    }
}

impl NeighborhoodsPool {
    pub fn new(neighs: Vec<State>) -> (r: Self)
        ensures
            r@ == neighs@,
    {
        NeighborhoodsPool(Pool::from_vec(neighs))
    }

    /// Takes a configuration at a random position (the last one takes its
    /// place); `None` when the pool is empty.
    pub fn remove_one(&mut self) -> (r: Option<State>)
        ensures
            old(self)@.len() == 0 ==> r is None && final(self)@ == old(self)@,
            old(self)@.len() > 0 ==> exists|i: int|
                0 <= i < old(self)@.len() && r == Some(old(self)@[i]) && final(self)@ == old(
                    self,
                )@.update(i, old(self)@.last()).drop_last(),
    {
        self.0.remove_one()
    }
}

impl ElapsedSteps {
    pub fn new() -> (r: Self)
        ensures
            r@ == 0,
    {
        ElapsedSteps(Counter::new())
    }

    pub fn increment(&mut self)
        requires
            old(self)@ < usize::MAX,
        ensures
            final(self)@ == old(self)@ + 1,
    {
        self.0.add(1);
    }

    pub fn get(&self) -> (r: usize)
        ensures
            r == self@,
    {
        self.0.get()
    }
}

impl AcceptedStates {
    pub fn new() -> (r: Self)
        ensures
            r@ == 0,
    {
        AcceptedStates(Counter::new())
    }

    pub fn increment(&mut self)
        requires
            old(self)@ < usize::MAX,
        ensures
            final(self)@ == old(self)@ + 1,
    {
        self.0.add(1);
    }

    pub fn get(&self) -> (r: usize)
        ensures
            r == self@,
    {
        self.0.get()
    }
}

impl SubsequentRejStates {
    pub fn new() -> (r: Self)
        ensures
            r@ == 0,
    {
        SubsequentRejStates(Counter::new())
    }

    pub fn increment(&mut self)
        requires
            old(self)@ < usize::MAX,
        ensures
            final(self)@ == old(self)@ + 1,
    {
        self.0.add(1);
    }

    pub fn get(&self) -> (r: usize)
        ensures
            r == self@,
    {
        self.0.get()
    }

    pub fn reset(&mut self)
        ensures
            final(self)@ == 0,
    {
        self.0.reset();
    }
}

} // verus!
