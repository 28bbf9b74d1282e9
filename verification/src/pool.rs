use vstd::prelude::*;
use crate::rng::{random_index, shuffle};

verus! {

/// A bag of work items that workers take from and add to.
pub struct Pool<T> {
    items: Vec<T>,
}

impl<T> View for Pool<T> {
    type V = Seq<T>;

    closed spec fn view(&self) -> Seq<T> {
        self.items@
    }
}

impl<T> Pool<T> {
    pub fn new() -> (r: Self)
        ensures
            r@ == Seq::<T>::empty(),
    {
        Pool { items: Vec::new() }
    }

    pub fn from_vec(items: Vec<T>) -> (r: Self)
        ensures
            r@ == items@,
    {
        Pool { items }
    }

    pub fn push(&mut self, item: T)
        ensures
            final(self)@ == old(self)@.push(item),
    {
        self.items.push(item);
    }

    /// Takes the most recently added item.
    pub fn pop(&mut self) -> (r: Option<T>)
        ensures
            old(self)@.len() == 0 ==> r is None && final(self)@ == old(self)@,
            old(self)@.len() > 0 ==> r == Some(old(self)@.last()) && final(self)@ == old(
                self,
            )@.drop_last(),
    {
        self.items.pop()
    }

    /// Puts the items in a random order.
    pub fn shuffle(&mut self)
        ensures
            final(self)@.len() == old(self)@.len(),
            final(self)@.to_multiset() == old(self)@.to_multiset(),
    {
        shuffle(&mut self.items);
    }

    /// Takes an item at a random position; the last item takes its place.
    pub fn remove_one(&mut self) -> (r: Option<T>)
        ensures
            old(self)@.len() == 0 ==> r is None && final(self)@ == old(self)@,
            old(self)@.len() > 0 ==> exists|i: int|
                0 <= i < old(self)@.len() && r == Some(old(self)@[i]) && final(self)@ == old(
                    self,
                )@.update(i, old(self)@.last()).drop_last(),
    {
        let len = self.items.len();
        if len == 0 {
            None
        } else {
            let i = random_index(0, len);
            let r = self.items.swap_remove(i);
            assert(0 <= i < old(self)@.len() && Some(r) == Some(old(self)@[i as int]));
            Some(r)
        }
    }

    pub fn size(&self) -> (n: usize)
        ensures
            n == self@.len(),
    {
        self.items.len()
    }

    /// Moves every item of `items` to the pool, in order.
    pub fn append(&mut self, items: &mut Vec<T>)
        ensures
            final(self)@ == old(self)@ + old(items)@,
            final(items)@ == Seq::<T>::empty(),
    {
        self.items.append(items);
    }
}

/// A count of events.
pub struct Counter {
    value: usize,
}

impl View for Counter {
    type V = nat;

    closed spec fn view(&self) -> nat {
        self.value as nat
    }
}

impl Counter {
    pub fn new() -> (r: Self)
        ensures
            r@ == 0,
    {
        Counter { value: 0 }
    }

    pub fn add(&mut self, val: usize)
        requires
            old(self)@ + val <= usize::MAX,
        ensures
            final(self)@ == old(self)@ + val,
    {
        self.value = self.value + val;
    }

    pub fn get(&self) -> (r: usize)
        ensures
            r == self@,
    {
        self.value
    }

    pub fn reset(&mut self)
        ensures
            final(self)@ == 0,
    {
        self.value = 0;
    }
}

/// Taking the item at `i` out of a pool (the last item takes its place)
/// loses and duplicates nothing: the items left and the item taken are the
/// items of before.
pub proof fn lemma_remove_one_keeps_items<T>(s: Seq<T>, i: int)
    requires
        0 <= i < s.len(),
    ensures
        s.update(i, s.last()).drop_last().to_multiset().insert(s[i]) == s.to_multiset(),
{
    broadcast use vstd::seq_lib::group_to_multiset_ensures;

    let n = s.len();
    let x = s.drop_last();
    assert(x =~= s.remove(n - 1));
    assert(x.to_multiset() == s.to_multiset().remove(s[n - 1]));
    if i == n - 1 {
        assert(s.update(i, s.last()).drop_last() =~= x);
        assert(s.to_multiset().count(s[i]) > 0) by {
            assert(s.contains(s[i]));
        }
        assert(x.to_multiset().insert(s[i]) =~= s.to_multiset());
    } else {
        let a = s.last();
        let y = x.update(i, a);
        assert(s.update(i, s.last()).drop_last() =~= y);
        assert(y.remove(i) =~= x.remove(i));
        assert(y.remove(i).to_multiset() == y.to_multiset().remove(a));
        assert(x.remove(i).to_multiset() == x.to_multiset().remove(x[i]));
        assert(y.to_multiset().count(a) > 0) by {
            assert(y.contains(a)) by {
                assert(y[i] == a);
            }
        }
        assert(y.to_multiset() =~= x.to_multiset().remove(x[i]).insert(a));
        assert(x.to_multiset().count(x[i]) > 0) by {
            assert(x.contains(x[i]));
        }
        assert(s.to_multiset().count(a) > 0) by {
            assert(s.contains(s[n - 1]));
        }
        assert(x[i] == s[i]);
        assert(y.to_multiset().insert(s[i]) =~= s.to_multiset());
    }
}

/// Taking from a pool right after adding an item gives that item back and
/// leaves the pool as it was (pools and process pools take the most recent
/// item first).
pub proof fn lemma_push_then_pop<T>(s: Seq<T>, x: T)
    ensures
        s.push(x).len() > 0,
        s.push(x).last() == x,
        s.push(x).drop_last() == s,
{
    assert(s.push(x).drop_last() =~= s);
}

/// One call of `remove_one` on a pool holding `before`: nothing comes out
/// of an empty pool, otherwise the item at some position comes out and the
/// last item takes its place, leaving `after`.
pub open spec fn removes_one<T>(before: Seq<T>, after: Seq<T>, r: Option<T>) -> bool {
    &&& before.len() == 0 ==> r is None && after == before
    &&& before.len() > 0 ==> exists|i: int|
        0 <= i < before.len() && r == Some(before[i]) && after == before.update(i, before.last()).drop_last()
}

/// The items that a run of removals handed out, in order.
pub open spec fn handed_out<T>(outs: Seq<Option<T>>) -> Seq<T>
    decreases outs.len(),
{
    if outs.len() == 0 {
        seq![]
    } else {
        match outs.last() {
            Some(x) => handed_out(outs.drop_last()).push(x),
            None => handed_out(outs.drop_last()),
        }
    }
}

/// Draining a pool: after `k` calls of `remove_one` on a pool of `n` items
/// (the pool going through `pools[0]`, ..., `pools[k]`), the pool holds
/// `n - k` items (none once `k >= n`), the first `n` calls hand out an item
/// and the later ones none, and the items handed out together with those
/// left are exactly the items of the start: each is handed out at most once
/// and none is lost.
pub proof fn lemma_drain<T>(pools: Seq<Seq<T>>, outs: Seq<Option<T>>)
    requires
        pools.len() == outs.len() + 1,
        forall|k: int| 0 <= k < outs.len() ==> #[trigger] removes_one(pools[k], pools[k + 1], outs[k]),
    ensures
        forall|k: int|
            0 <= k < pools.len() ==> (#[trigger] pools[k]).len() == if k <= pools[0].len() {
                pools[0].len() - k
            } else {
                0
            },
        forall|k: int| 0 <= k < outs.len() ==> ((#[trigger] outs[k]) is Some <==> k < pools[0].len()),
        handed_out(outs).to_multiset().add(pools.last().to_multiset()) == pools[0].to_multiset(),
    decreases outs.len(),
{
    broadcast use vstd::seq_lib::group_to_multiset_ensures;

    if outs.len() == 0 {
        assert(handed_out(outs).to_multiset() =~= vstd::multiset::Multiset::empty());
        assert(vstd::multiset::Multiset::<T>::empty().add(pools[0].to_multiset()) =~= pools[0].to_multiset());
    } else {
        let k = outs.len() - 1;
        let ps = pools.drop_last();
        let os = outs.drop_last();
        assert forall|j: int| 0 <= j < os.len() implies #[trigger] removes_one(ps[j], ps[j + 1], os[j]) by {
            assert(removes_one(pools[j], pools[j + 1], outs[j]));
        }
        lemma_drain(ps, os);
        assert(ps[0] == pools[0]);
        assert(ps.last() == pools[k]);
        assert(removes_one(pools[k], pools[k + 1], outs[k]));
        let before = pools[k];
        let after = pools[k + 1];
        assert(before.len() == if k <= pools[0].len() { pools[0].len() - k } else { 0 }) by {
            assert(ps[k] == pools[k]);
        }
        if before.len() == 0 {
            assert(handed_out(outs) == handed_out(os));
        } else {
            let i = choose|i: int|
                0 <= i < before.len() && outs[k] == Some(before[i]) && after == before.update(
                    i,
                    before.last(),
                ).drop_last();
            lemma_remove_one_keeps_items(before, i);
            assert(handed_out(outs) == handed_out(os).push(before[i]));
            assert(handed_out(outs).to_multiset().add(after.to_multiset()) =~= handed_out(os).to_multiset().add(
                before.to_multiset(),
            ));
        }
        assert forall|j: int| 0 <= j < pools.len() implies (#[trigger] pools[j]).len() == if j <= pools[0].len() {
            pools[0].len() - j
        } else {
            0
        } by {
            if j < pools.len() - 1 {
                assert(ps[j] == pools[j]);
            }
        }
        assert forall|j: int| 0 <= j < outs.len() implies ((#[trigger] outs[j]) is Some <==> j < pools[0].len()) by {
            if j < k {
                assert(os[j] == outs[j]);
            } else {
                assert(removes_one(pools[j], pools[j + 1], outs[j]));
            }
        }
    }
}

} // verus!
