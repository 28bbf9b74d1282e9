use vstd::prelude::*;
use crate::text::str_eq;

verus! {

/// A table from names to values in which each name occurs once; entries keep
/// the order in which their names were first inserted.
pub struct KeyedVec<V> {
    entries: Vec<(String, V)>,
}

pub open spec fn key_views<V>(s: Seq<(String, V)>) -> Seq<Seq<char>> {
    s.map_values(|e: (String, V)| e.0@)
}

impl<V> KeyedVec<V> {
    #[verifier::type_invariant]
    closed spec fn keys_distinct(self) -> bool {
        forall|i: int, j: int|
            0 <= i < j < self.entries@.len() ==> #[trigger] self.entries@[i].0@
                != #[trigger] self.entries@[j].0@
    }

    /// The entries in order: a name (by its characters) and its value.
    pub closed spec fn entries(self) -> Seq<(Seq<char>, V)> {
        self.entries@.map_values(|e: (String, V)| (e.0@, e.1))
    }

    pub closed spec fn view(self) -> Map<Seq<char>, V> {
        Map::new(
            |k: Seq<char>| exists|i: int| 0 <= i < self.entries@.len() && self.entries@[i].0@ == k,
            |k: Seq<char>|
                self.entries@[choose|i: int|
                    0 <= i < self.entries@.len() && self.entries@[i].0@ == k].1,
        )
    }

    /// The names in order.
    pub open spec fn keys(self) -> Seq<Seq<char>> {
        self.entries().map_values(|e: (Seq<char>, V)| e.0)
    }

    proof fn lemma_view_at(self, i: int)
        requires
            self.keys_distinct(),
            0 <= i < self.entries@.len(),
        ensures
            self@.contains_key(self.entries@[i].0@),
            self@[self.entries@[i].0@] == self.entries@[i].1,
    {
        let k = self.entries@[i].0@;
        assert(exists|j: int| 0 <= j < self.entries@.len() && self.entries@[j].0@ == k);
        let j = choose|j: int| 0 <= j < self.entries@.len() && self.entries@[j].0@ == k;
        if j != i {
            if j < i {
                assert(self.entries@[j].0@ != self.entries@[i].0@);
            } else {
                assert(self.entries@[i].0@ != self.entries@[j].0@);
            }
        }
    }

    proof fn lemma_entries_view(self)
        requires
            self.keys_distinct(),
        ensures
            self.entries().len() == self@.dom().len(),
            self@.dom().finite(),
            forall|i: int|
                0 <= i < self.entries().len() ==> self@.contains_key(#[trigger] self.entries()[i].0)
                    && self@[self.entries()[i].0] == self.entries()[i].1,
            forall|k: Seq<char>| #[trigger]
                self@.contains_key(k) ==> exists|i: int|
                    0 <= i < self.entries().len() && self.entries()[i].0 == k,
            forall|i: int, j: int|
                0 <= i < j < self.entries().len() ==> #[trigger] self.entries()[i].0
                    != #[trigger] self.entries()[j].0,
    {
        assert forall|i: int| 0 <= i < self.entries().len() implies self@.contains_key(
            #[trigger] self.entries()[i].0,
        ) && self@[self.entries()[i].0] == self.entries()[i].1 by {
            self.lemma_view_at(i);
        }
        assert forall|k: Seq<char>| #[trigger] self@.contains_key(k) implies exists|i: int|
            0 <= i < self.entries().len() && self.entries()[i].0 == k by {
            let i = choose|i: int| 0 <= i < self.entries@.len() && self.entries@[i].0@ == k;
            assert(self.entries()[i].0 == k);
        }
        self.lemma_dom_len();
    }

    proof fn lemma_dom_len(self)
        requires
            self.keys_distinct(),
        ensures
            self@.dom().finite(),
            self@.dom().len() == self.entries@.len(),
        decreases self.entries@.len(),
    {
        let ks = key_views(self.entries@);
        assert forall|k: Seq<char>| self@.dom().contains(k) <==> ks.to_set().contains(k) by {
            if self@.dom().contains(k) {
                let i = choose|i: int| 0 <= i < self.entries@.len() && self.entries@[i].0@ == k;
                assert(ks[i] == k);
            }
            if ks.contains(k) {
                let i = choose|i: int| 0 <= i < ks.len() && ks[i] == k;
                assert(self.entries@[i].0@ == k);
            }
        }
        assert(self@.dom() =~= ks.to_set());
        assert(ks.no_duplicates()) by {
            assert forall|i: int, j: int|
                0 <= i < ks.len() && 0 <= j < ks.len() && i != j implies ks[i] != ks[j] by {
                if i < j {
                    assert(self.entries@[i].0@ != self.entries@[j].0@);
                } else {
                    assert(self.entries@[j].0@ != self.entries@[i].0@);
                }
            }
        }
        ks.unique_seq_to_set();
    }

    pub fn new() -> (r: Self)
        ensures
            r@ == Map::<Seq<char>, V>::empty(),
            r.entries() == Seq::<(Seq<char>, V)>::empty(),
    {
        let r = KeyedVec { entries: Vec::new() };
        assert(r@ =~= Map::<Seq<char>, V>::empty());
        assert(r.entries() =~= Seq::<(Seq<char>, V)>::empty());
        r
    }

    /// The number of entries; the entries are exactly the table's contents,
    /// each name once.
    pub fn len(&self) -> (n: usize)
        ensures
            n == self.entries().len(),
            n == self@.dom().len(),
            self@.dom().finite(),
            forall|i: int|
                0 <= i < self.entries().len() ==> self@.contains_key(#[trigger] self.entries()[i].0)
                    && self@[self.entries()[i].0] == self.entries()[i].1,
            forall|k: Seq<char>| #[trigger]
                self@.contains_key(k) ==> exists|i: int|
                    0 <= i < self.entries().len() && self.entries()[i].0 == k,
            forall|i: int, j: int|
                0 <= i < j < self.entries().len() ==> #[trigger] self.entries()[i].0
                    != #[trigger] self.entries()[j].0,
    {
        proof {
            use_type_invariant(self);
            self.lemma_entries_view();
        }
        self.entries.len()
    }

    /// The position of `k`, if it is present.
    pub fn find(&self, k: &str) -> (r: Option<usize>)
        ensures
            r is None <==> !self@.contains_key(k@),
            r matches Some(i) ==> i < self.entries().len() && self.entries()[i as int].0 == k@,
    {
        proof {
            use_type_invariant(self);
        }
        let mut i: usize = 0;
        while i < self.entries.len()
            invariant
                i <= self.entries@.len(),
                forall|j: int| 0 <= j < i ==> self.entries@[j].0@ != k@,
            decreases self.entries@.len() - i,
        {
            if str_eq(self.entries[i].0.as_str(), k) {
                return Some(i);
            }
            i = i + 1;
        }
        None
    }

    pub fn contains_key(&self, k: &str) -> (r: bool)
        ensures
            r == self@.contains_key(k@),
    {
        self.find(k).is_some()
    }

    pub fn get(&self, k: &str) -> (r: Option<&V>)
        ensures
            match r {
                Some(v) => self@.contains_key(k@) && *v == self@[k@],
                None => !self@.contains_key(k@),
            },
    {
        proof {
            use_type_invariant(self);
        }
        match self.find(k) {
            Some(i) => {
                proof {
                    self.lemma_view_at(i as int);
                }
                Some(&self.entries[i].1)
            },
            None => None,
        }
    }

    /// The name and value at position `i`.
    pub fn entry_at(&self, i: usize) -> (r: (&String, &V))
        requires
            i < self.entries().len(),
        ensures
            r.0@ == self.entries()[i as int].0,
            *r.1 == self.entries()[i as int].1,
    {
        (&self.entries[i].0, &self.entries[i].1)
    }

    /// Sets the value of `k`: a new name goes to the end, a present one keeps
    /// its position.
    pub fn insert(&mut self, k: String, v: V)
        ensures
            final(self)@ == old(self)@.insert(k@, v),
            old(self)@.contains_key(k@) ==> final(self).keys() == old(self).keys(),
            !old(self)@.contains_key(k@) ==> final(self).keys() == old(self).keys().push(k@),
    {
        proof {
            use_type_invariant(&*self);
        }
        let ghost old_entries = self.entries@;
        let ghost kk = k@;
        match self.find(k.as_str()) {
            Some(i) => {
                let mut es: Vec<(String, V)> = Vec::new();
                std::mem::swap(&mut es, &mut self.entries);
                es.set(i, (k, v));
                self.entries = es;
                proof {
                    use_type_invariant(&*self);
                    assert forall|kx: Seq<char>| #[trigger]
                        self@.contains_key(kx) == old(self)@.insert(kk, v).contains_key(kx) by {
                        if kx == kk {
                            assert(self.entries@[i as int].0@ == kk);
                        } else if old(self)@.contains_key(kx) {
                            let j = choose|j: int|
                                0 <= j < old_entries.len() && old_entries[j].0@ == kx;
                            assert(self.entries@[j].0@ == kx);
                        } else if self@.contains_key(kx) {
                            let j = choose|j: int|
                                0 <= j < self.entries@.len() && self.entries@[j].0@ == kx;
                            assert(old_entries[j].0@ == kx);
                        }
                    }
                    assert forall|kx: Seq<char>| #[trigger]
                        self@.contains_key(kx) implies self@[kx] == old(self)@.insert(
                        kk,
                        v,
                    )[kx] by {
                        if kx == kk {
                            self.lemma_view_at(i as int);
                        } else {
                            let j = choose|j: int|
                                0 <= j < self.entries@.len() && self.entries@[j].0@ == kx;
                            self.lemma_view_at(j);
                            old(self).lemma_view_at(j);
                        }
                    }
                    assert(self@ =~= old(self)@.insert(kk, v));
                    assert(self.keys() =~= old(self).keys());
                }
            },
            None => {
                let mut es: Vec<(String, V)> = Vec::new();
                std::mem::swap(&mut es, &mut self.entries);
                es.push((k, v));
                proof {
                    assert forall|a: int, b: int|
                        0 <= a < b < es@.len() implies #[trigger] es@[a].0@
                        != #[trigger] es@[b].0@ by {
                        if b == old_entries.len() {
                            assert(old_entries[a].0@ != kk);
                        } else {
                            assert(old_entries[a].0@ != old_entries[b].0@);
                        }
                    }
                }
                self.entries = es;
                proof {
                    let n = old_entries.len() as int;
                    assert forall|kx: Seq<char>| #[trigger]
                        self@.contains_key(kx) == old(self)@.insert(kk, v).contains_key(kx) by {
                        if kx == kk {
                            assert(self.entries@[n].0@ == kk);
                        } else if old(self)@.contains_key(kx) {
                            let j = choose|j: int|
                                0 <= j < old_entries.len() && old_entries[j].0@ == kx;
                            assert(self.entries@[j].0@ == kx);
                        } else if self@.contains_key(kx) {
                            let j = choose|j: int|
                                0 <= j < self.entries@.len() && self.entries@[j].0@ == kx;
                            assert(old_entries[j].0@ == kx);
                        }
                    }
                    assert forall|kx: Seq<char>| #[trigger]
                        self@.contains_key(kx) implies self@[kx] == old(self)@.insert(
                        kk,
                        v,
                    )[kx] by {
                        if kx == kk {
                            self.lemma_view_at(n);
                        } else {
                            let j = choose|j: int|
                                0 <= j < self.entries@.len() && self.entries@[j].0@ == kx;
                            self.lemma_view_at(j);
                            old(self).lemma_view_at(j);
                        }
                    }
                    assert(self@ =~= old(self)@.insert(kk, v));
                    assert(self.keys() =~= old(self).keys().push(kk));
                }
            },
        }
    }

    /// Takes `k` out of the table and hands back its value; the other entries
    /// keep their order.
    pub fn remove(&mut self, k: &str) -> (r: Option<V>)
        ensures
            final(self)@ == old(self)@.remove(k@),
            match r {
                Some(v) => old(self)@.contains_key(k@) && v == old(self)@[k@],
                None => !old(self)@.contains_key(k@),
            },
    {
        proof {
            use_type_invariant(&*self);
        }
        let ghost old_entries = self.entries@;
        match self.find(k) {
            Some(i) => {
                proof {
                    self.lemma_view_at(i as int);
                }
                let mut es: Vec<(String, V)> = Vec::new();
                std::mem::swap(&mut es, &mut self.entries);
                let (_, v) = es.remove(i);
                proof {
                    assert forall|a: int, b: int|
                        0 <= a < b < es@.len() implies #[trigger] es@[a].0@
                        != #[trigger] es@[b].0@ by {
                        let a2 = if a < i { a } else { a + 1 };
                        let b2 = if b < i { b } else { b + 1 };
                        assert(old_entries[a2].0@ != old_entries[b2].0@);
                    }
                }
                self.entries = es;
                proof {
                    assert forall|kx: Seq<char>| #[trigger]
                        self@.contains_key(kx) == old(self)@.remove(k@).contains_key(kx) by {
                        if old(self)@.contains_key(kx) && kx != k@ {
                            let j = choose|j: int|
                                0 <= j < old_entries.len() && old_entries[j].0@ == kx;
                            assert(j != i);
                            let j2 = if j < i { j } else { j - 1 };
                            assert(self.entries@[j2].0@ == kx);
                        }
                        if self@.contains_key(kx) {
                            let j = choose|j: int|
                                0 <= j < self.entries@.len() && self.entries@[j].0@ == kx;
                            let j2 = if j < i { j } else { j + 1 };
                            assert(old_entries[j2].0@ == kx);
                            if kx == k@ {
                                if j2 < i {
                                    assert(old_entries[j2].0@ != old_entries[i as int].0@);
                                } else {
                                    assert(old_entries[i as int].0@ != old_entries[j2].0@);
                                }
                            }
                        }
                    }
                    assert forall|kx: Seq<char>| #[trigger]
                        self@.contains_key(kx) implies self@[kx] == old(self)@.remove(k@)[kx] by {
                        let j = choose|j: int|
                            0 <= j < self.entries@.len() && self.entries@[j].0@ == kx;
                        let j2 = if j < i { j } else { j + 1 };
                        self.lemma_view_at(j);
                        old(self).lemma_view_at(j2);
                    }
                    assert(self@ =~= old(self)@.remove(k@));
                }
                Some(v)
            },
            None => {
                assert(self@ =~= old(self)@.remove(k@));
                None
            },
        }
    }
}


impl<V: Copy> KeyedVec<V> {
    /// A copy of the table, entry by entry.
    pub fn duplicate(&self) -> (r: Self)
        ensures
            r@ == self@,
            r.entries() == self.entries(),
    {
        proof {
            use_type_invariant(self);
        }
        let mut es: Vec<(String, V)> = Vec::new();
        let mut i: usize = 0;
        while i < self.entries.len()
            invariant
                i <= self.entries@.len(),
                es@.len() == i,
                forall|j: int|
                    0 <= j < i ==> (#[trigger] es@[j]).0@ == self.entries@[j].0@ && es@[j].1
                        == self.entries@[j].1,
            decreases self.entries@.len() - i,
        {
            let k = self.entries[i].0.clone();
            let v = self.entries[i].1;
            es.push((k, v));
            i = i + 1;
        }
        proof {
            assert forall|a: int, b: int|
                0 <= a < b < es@.len() implies #[trigger] es@[a].0@ != #[trigger] es@[b].0@ by {
                assert(self.entries@[a].0@ != self.entries@[b].0@);
            }
        }
        let r = KeyedVec { entries: es };
        proof {
            assert(r.entries() =~= self.entries());
            assert forall|k: Seq<char>| #[trigger] r@.contains_key(k) == self@.contains_key(k) by {
                if r@.contains_key(k) {
                    let j = choose|j: int| 0 <= j < r.entries@.len() && r.entries@[j].0@ == k;
                    assert(self.entries@[j].0@ == k);
                }
                if self@.contains_key(k) {
                    let j = choose|j: int| 0 <= j < self.entries@.len() && self.entries@[j].0@ == k;
                    assert(r.entries@[j].0@ == k);
                }
            }
            assert forall|k: Seq<char>| #[trigger] r@.contains_key(k) implies r@[k] == self@[k] by {
                let j = choose|j: int| 0 <= j < r.entries@.len() && r.entries@[j].0@ == k;
                r.lemma_view_at(j);
                self.lemma_view_at(j);
            }
            assert(r@ =~= self@);
        }
        r
    }
}

impl KeyedVec<String> {
    /// A copy of a table of texts, entry by entry.
    pub fn duplicate_text(&self) -> (r: Self)
        ensures
            r@ == self@,
            r.entries() == self.entries(),
    {
        proof {
            use_type_invariant(self);
        }
        let mut es: Vec<(String, String)> = Vec::new();
        let mut i: usize = 0;
        while i < self.entries.len()
            invariant
                i <= self.entries@.len(),
                es@.len() == i,
                forall|j: int|
                    0 <= j < i ==> (#[trigger] es@[j]).0@ == self.entries@[j].0@ && es@[j].1
                        == self.entries@[j].1,
            decreases self.entries@.len() - i,
        {
            let k = self.entries[i].0.clone();
            let v = self.entries[i].1.clone();
            es.push((k, v));
            i = i + 1;
        }
        proof {
            assert forall|a: int, b: int|
                0 <= a < b < es@.len() implies #[trigger] es@[a].0@ != #[trigger] es@[b].0@ by {
                assert(self.entries@[a].0@ != self.entries@[b].0@);
            }
        }
        let r = KeyedVec { entries: es };
        proof {
            assert(r.entries() =~= self.entries());
            assert forall|k: Seq<char>| #[trigger] r@.contains_key(k) == self@.contains_key(k) by {
                if r@.contains_key(k) {
                    let j = choose|j: int| 0 <= j < r.entries@.len() && r.entries@[j].0@ == k;
                    assert(self.entries@[j].0@ == k);
                }
                if self@.contains_key(k) {
                    let j = choose|j: int| 0 <= j < self.entries@.len() && self.entries@[j].0@ == k;
                    assert(r.entries@[j].0@ == k);
                }
            }
            assert forall|k: Seq<char>| #[trigger] r@.contains_key(k) implies r@[k] == self@[k] by {
                let j = choose|j: int| 0 <= j < r.entries@.len() && r.entries@[j].0@ == k;
                r.lemma_view_at(j);
                self.lemma_view_at(j);
            }
            assert(r@ =~= self@);
        }
        r
    }
}

impl<V: Copy> Clone for KeyedVec<V> {
    fn clone(&self) -> (r: Self)
        ensures
            r@ == self@,
            r.entries() == self.entries(),
    {
        self.duplicate()
    }
}

/// A value read right after it was written under a name is that value, and
/// the other names keep theirs.
pub proof fn lemma_insert_then_get<V>(m: Map<Seq<char>, V>, k: Seq<char>, v: V)
    ensures
        m.insert(k, v).contains_key(k),
        m.insert(k, v)[k] == v,
        forall|j: Seq<char>| j != k ==> #[trigger] m.insert(k, v).contains_key(j) == m.contains_key(j),
        forall|j: Seq<char>| j != k && m.contains_key(j) ==> #[trigger] m.insert(k, v)[j] == m[j],
{
}

} // verus!
