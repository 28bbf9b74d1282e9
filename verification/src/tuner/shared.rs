use vstd::prelude::*;
use crate::keyed::KeyedVec;
use super::ExecutionType;

verus! {

/// A process to launch: where, as whom, which binary with which arguments,
/// and the address it listens on.
#[derive(Debug)]
pub struct Process2Spawn {
    pub execution_type: ExecutionType,
    pub host: String,
    pub user: String,
    pub bin: String,
    pub path: String,
    pub args: String,
    pub address: String,
    pub port: String,
}

/// A process to launch, by the characters of its fields.
pub struct Process2SpawnView {
    pub execution_type: ExecutionType,
    pub host: Seq<char>,
    pub user: Seq<char>,
    pub bin: Seq<char>,
    pub path: Seq<char>,
    pub args: Seq<char>,
    pub address: Seq<char>,
    pub port: Seq<char>,
}

impl View for Process2Spawn {
    type V = Process2SpawnView;

    open spec fn view(&self) -> Process2SpawnView {
        Process2SpawnView {
            execution_type: self.execution_type,
            host: self.host@,
            user: self.user@,
            bin: self.bin@,
            path: self.path@,
            args: self.args@,
            address: self.address@,
            port: self.port@,
        }
    }
}

impl Clone for Process2Spawn {
    fn clone(&self) -> (r: Self)
        ensures
            r == *self,
    {
        Process2Spawn {
            execution_type: self.execution_type,
            host: self.host.clone(),
            user: self.user.clone(),
            bin: self.bin.clone(),
            path: self.path.clone(),
            args: self.args.clone(),
            address: self.address.clone(),
            port: self.port.clone(),
        }
    }
}

/// A tunable parameter: its space is `min, min + step, ..., max`.
#[derive(Debug)]
pub struct Parameter {
    pub name: String,
    pub min: usize,
    pub max: usize,
    pub step: usize,
    pub default: usize,
}

/// A tunable parameter, with its name by its characters.
pub struct ParameterView {
    pub name: Seq<char>,
    pub min: usize,
    pub max: usize,
    pub step: usize,
    pub default: usize,
}

impl View for Parameter {
    type V = ParameterView;

    open spec fn view(&self) -> ParameterView {
        ParameterView {
            name: self.name@,
            min: self.min,
            max: self.max,
            step: self.step,
            default: self.default,
        }
    }
}

impl Clone for Parameter {
    fn clone(&self) -> (r: Self)
        ensures
            r == *self,
    {
        Parameter {
            name: self.name.clone(),
            min: self.min,
            max: self.max,
            step: self.step,
            default: self.default,
        }
    }
}

/// Processes by identifier.
pub struct ProcessPool(KeyedVec<Process2Spawn>);

impl View for ProcessPool {
    type V = Map<Seq<char>, Process2SpawnView>;

    closed spec fn view(&self) -> Map<Seq<char>, Process2SpawnView> {
        self.0@.map_values(|p: Process2Spawn| p@)
    }
}

impl Clone for ProcessPool {
    fn clone(&self) -> (r: Self)
        ensures
            r@ == self@,
    {
        let mut r = KeyedVec::new();
        let n = self.0.len();
        let mut i: usize = 0;
        while i < n
            invariant
                n == self.0.entries().len(),
                i <= n,
                forall|j: int|
                    0 <= j < n ==> self.0@.contains_key(#[trigger] self.0.entries()[j].0)
                        && self.0@[self.0.entries()[j].0] == self.0.entries()[j].1,
                forall|k: Seq<char>| #[trigger]
                    self.0@.contains_key(k) ==> exists|j: int|
                        0 <= j < n && self.0.entries()[j].0 == k,
                forall|a: int, b: int|
                    0 <= a < b < n ==> #[trigger] self.0.entries()[a].0
                        != #[trigger] self.0.entries()[b].0,
                r@ == Map::new(
                    |k: Seq<char>| exists|j: int| 0 <= j < i && self.0.entries()[j].0 == k,
                    |k: Seq<char>| self.0@[k],
                ),
            decreases n - i,
        {
            let (k, v) = self.0.entry_at(i);
            let ghost before = r@;
            r.insert(k.clone(), v.clone());
            proof {
                assert(r@ =~= Map::new(
                    |kx: Seq<char>| exists|j: int| 0 <= j < i + 1 && self.0.entries()[j].0 == kx,
                    |kx: Seq<char>| self.0@[kx],
                )) by {
                    assert forall|kx: Seq<char>|
                        (exists|j: int| 0 <= j < i + 1 && self.0.entries()[j].0 == kx)
                            <==> r@.contains_key(kx) by {
                        if exists|j: int| 0 <= j < i + 1 && self.0.entries()[j].0 == kx {
                            let j = choose|j: int| 0 <= j < i + 1 && self.0.entries()[j].0 == kx;
                            if j < i {
                                assert(before.contains_key(kx));
                            }
                        }
                    }
                }
            }
            i = i + 1;
        }
        assert(r@ =~= self.0@);
        let r = ProcessPool(r);
        assert(r@ =~= self@);
        r
    }
}

impl ProcessPool {
    pub fn new() -> (r: Self)
        ensures
            r@ == Map::<Seq<char>, Process2SpawnView>::empty(),
    {
        let r = ProcessPool(KeyedVec::new());
        assert(r@ =~= Map::<Seq<char>, Process2SpawnView>::empty());
        r
    }

    /// Records `elem` under `id`, replacing what was there.
    pub fn push(&mut self, elem: Process2Spawn, id: String)
        ensures
            final(self)@ == old(self)@.insert(id@, elem@),
    {
        self.0.insert(id, elem);
        assert(self@ =~= old(self)@.insert(id@, elem@));
    }

    /// Takes the process recorded under `id` out of the pool.
    pub fn remove(&mut self, id: String) -> (r: Process2Spawn)
        requires
            old(self)@.contains_key(id@),
        ensures
            r@ == old(self)@[id@],
            final(self)@ == old(self)@.remove(id@),
    {
        let r = match self.0.remove(id.as_str()) {
            Some(v) => v,
            None => unreached(),
        };
        assert(self@ =~= old(self)@.remove(id@));
        r
    }

    /// The number of processes.
    pub fn size(&self) -> (n: usize)
        ensures
            n == self@.dom().len(),
            self@.dom().finite(),
    {
        let n = self.0.len();
        assert(self@.dom() =~= self.0@.dom());
        n
    }

    /// A copy of the process recorded under `id`.
    pub fn get(&self, id: &str) -> (r: Option<Process2Spawn>)
        ensures
            match r {
                Some(p) => self@.contains_key(id@) && p@ == self@[id@],
                None => !self@.contains_key(id@),
            },
    {
        match self.0.get(id) {
            Some(p) => Some(p.clone()),
            None => None,
        }
    }
}

} // verus!
