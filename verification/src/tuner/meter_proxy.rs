use vstd::prelude::*;
use crate::keyed::KeyedVec;
use crate::pool::Counter;

verus! {

/// The number of bytes that the target sent back (the throughput measure).
pub struct SharedCounter(Counter);

impl View for SharedCounter {
    type V = nat;

    closed spec fn view(&self) -> nat {
        self.0@
    }
}

impl SharedCounter {
    pub fn new() -> (r: Self)
        ensures
            r@ == 0,
    {
        SharedCounter(Counter::new())
    }

    pub fn increment(&mut self, quantity: usize)
        requires
            old(self)@ + quantity <= usize::MAX,
        ensures
            final(self)@ == old(self)@ + quantity,
    {
        self.0.add(quantity);
    }

    pub fn get(&self) -> (r: usize)
        ensures
            r == self@,
    {
        self.0.get()
    }

    pub fn reset(&mut self)
        ensures
            final(self)@ == 0,
    {
        self.0.reset();
    }
}

/// Timestamps of requests by request name (the latency measure).
pub struct SharedTimeTable(KeyedVec<u64>);

impl View for SharedTimeTable {
    type V = Map<Seq<char>, u64>;

    closed spec fn view(&self) -> Map<Seq<char>, u64> {
        self.0@
    }
}

impl SharedTimeTable {
    pub fn new() -> (r: Self)
        ensures
            r@ == Map::<Seq<char>, u64>::empty(),
    {
        SharedTimeTable(KeyedVec::new())
    }

    /// Recording a timestamp is switched off: the table is left as it is.
    pub fn insert(&mut self, key: String, value: u64)
        ensures
            final(self)@ == old(self)@,
    {
    }

    pub fn reset(&mut self)
        ensures
            final(self)@ == Map::<Seq<char>, u64>::empty(),
    {
        self.0 = KeyedVec::new();
    }

    /// The recorded timestamps, in the order of their names' first insertion.
    pub fn table(&self) -> (r: &KeyedVec<u64>)
        ensures
            r@ == self@,
    {
        &self.0
    }
}

/// The proxy between the benchmark and the target that measures the traffic.
pub struct Meter {
    pub p_target: u16,
    pub reset_lock_flag: bool,
    pub num_bytes: SharedCounter,
    pub time_table: SharedTimeTable,
}

impl Meter {
    pub open spec fn bytes(&self) -> nat {
        self.num_bytes@
    }

    pub open spec fn times(&self) -> Map<Seq<char>, u64> {
        self.time_table@
    }

    /// A meter for the target listening on `port_target`, with nothing measured.
    pub fn new(port_target: u16) -> (r: Meter)
        ensures
            r.p_target == port_target,
            !r.reset_lock_flag,
            r.bytes() == 0,
            r.times() == Map::<Seq<char>, u64>::empty(),
    {
        Meter {
            p_target: port_target,
            reset_lock_flag: false,
            num_bytes: SharedCounter::new(),
            time_table: SharedTimeTable::new(),
        }
    }

    /// Counts `read` more bytes sent back by the target.
    pub fn record_received(&mut self, read: usize)
        requires
            old(self).bytes() + read <= usize::MAX,
        ensures
            final(self).bytes() == old(self).bytes() + read,
            final(self).times() == old(self).times(),
            final(self).p_target == old(self).p_target,
            final(self).reset_lock_flag == old(self).reset_lock_flag,
    {
        self.num_bytes.increment(read);
    }

    pub fn get_num_bytes_rcvd(&self) -> (r: usize)
        ensures
            r == self.bytes(),
    {
        self.num_bytes.get()
    }

    /// Raises the flag that stops the proxy and clears the measures.
    pub fn stop_and_reset(&mut self)
        ensures
            final(self).reset_lock_flag,
            final(self).bytes() == 0,
            final(self).times() == Map::<Seq<char>, u64>::empty(),
            final(self).p_target == old(self).p_target,
    {
        self.reset_lock_flag = true;
        self.num_bytes.reset();
        self.time_table.reset();
    }

    /// The request timestamps.
    pub fn time_table(&self) -> (r: &SharedTimeTable)
        ensures
            r@ == self.times(),
    {
        &self.time_table
    }
}

} // verus!
