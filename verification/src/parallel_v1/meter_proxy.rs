use vstd::prelude::*;

verus! {

/// The number of bytes that went from the target to the benchmark.
pub struct SharedCounter(usize);

/// The response times measured, in nanoseconds, in the order they came.
pub struct SharedTimeVec(Vec<u64>);

impl View for SharedCounter {
    type V = nat;

    closed spec fn view(&self) -> nat {
        self.0 as nat
    }
}

impl View for SharedTimeVec {
    type V = Seq<u64>;

    closed spec fn view(&self) -> Seq<u64> {
        self.0@
    }
}

impl SharedCounter {
    pub fn new() -> (r: Self)
        ensures
            r@ == 0,
    {
        SharedCounter(0)
    }

    pub fn increment(&mut self, quantity: usize)
        requires
            old(self)@ + quantity <= usize::MAX,
        ensures
            final(self)@ == old(self)@ + quantity,
    {
        self.0 = self.0 + quantity;
    }

    pub fn get(&self) -> (r: usize)
        ensures
            r == self@,
    {
        self.0
    }

    pub fn reset(&mut self)
        ensures
            final(self)@ == 0,
    {
        self.0 = 0;
    }
}

impl SharedTimeVec {
    pub fn new() -> (r: Self)
        ensures
            r@ == Seq::<u64>::empty(),
    {
        SharedTimeVec(Vec::new())
    }

    pub fn insert(&mut self, value: u64)
        ensures
            final(self)@ == old(self)@.push(value),
    {
        self.0.push(value);
    }

    pub fn reset(&mut self)
        ensures
            final(self)@ == Seq::<u64>::empty(),
    {
        self.0.clear();
    }

    pub fn get_size(&self) -> (n: usize)
        ensures
            n == self@.len(),
    {
        self.0.len()
    }

    /// The times measured, in order.
    pub fn values(&self) -> (r: &Vec<u64>)
        ensures
            r@ == self@,
    {
        &self.0
    }
}

/// The proxy between a benchmark and a target: where the target listens,
/// where the proxy listens, and what it measured.
pub struct Meter {
    pub a_target: String,
    pub p_target: u16,
    pub a_proxyserv: String,
    pub p_proxy_serv: u16,
    pub time_table: SharedTimeVec,
    pub byte_counter: SharedCounter,
    pub reset_lock_flag: bool,
}

impl Meter {
    /// A proxy listening at `add_proxy_server:port_proxy_server` for the
    /// target at `addr_target:port_target`, with nothing measured yet.
    pub fn new(addr_target: String, port_target: u16, add_proxy_server: String, port_proxy_server: u16) -> (r: Meter)
        ensures
            r.a_target@ == addr_target@,
            r.p_target == port_target,
            r.a_proxyserv@ == add_proxy_server@,
            r.p_proxy_serv == port_proxy_server,
            r.time_table@ == Seq::<u64>::empty(),
            r.byte_counter@ == 0,
            !r.reset_lock_flag,
    {
        Meter {
            a_target: addr_target,
            p_target: port_target,
            a_proxyserv: add_proxy_server,
            p_proxy_serv: port_proxy_server,
            time_table: SharedTimeVec::new(),
            byte_counter: SharedCounter::new(),
            reset_lock_flag: false,
        }
    }

    pub fn get_num_bytes_rcvd(&self) -> (r: usize)
        ensures
            r == self.byte_counter@,
    {
        self.byte_counter.get()
    }

    /// Counts `n` more bytes that went from the target to the benchmark.
    pub fn record_received(&mut self, n: usize)
        requires
            old(self).byte_counter@ + n <= usize::MAX,
        ensures
            final(self).byte_counter@ == old(self).byte_counter@ + n,
            final(self).time_table@ == old(self).time_table@,
            final(self).reset_lock_flag == old(self).reset_lock_flag,
    {
        self.byte_counter.increment(n);
    }

    /// Records a response time.
    pub fn record_time(&mut self, ns: u64)
        ensures
            final(self).time_table@ == old(self).time_table@.push(ns),
            final(self).byte_counter@ == old(self).byte_counter@,
            final(self).reset_lock_flag == old(self).reset_lock_flag,
    {
        self.time_table.insert(ns);
    }

    /// Asks the server loop to stop and forgets what was measured.
    pub fn stop_and_reset(&mut self)
        ensures
            final(self).reset_lock_flag,
            final(self).byte_counter@ == 0,
            final(self).time_table@ == Seq::<u64>::empty(),
            final(self).a_proxyserv@ == old(self).a_proxyserv@,
            final(self).p_proxy_serv == old(self).p_proxy_serv,
    {
        self.reset_lock_flag = true;
        self.byte_counter.reset();
        self.time_table.reset();
    }
}

/// The sum of `chunks`.
pub open spec fn total(chunks: Seq<nat>) -> nat
    decreases chunks.len(),
{
    if chunks.len() == 0 {
        0
    } else {
        total(chunks.drop_last()) + chunks.last()
    }
}

proof fn lemma_total_at(counts: Seq<nat>, chunks: Seq<nat>, k: int)
    requires
        counts.len() == chunks.len() + 1,
        counts[0] == 0,
        forall|j: int| 0 <= j < chunks.len() ==> #[trigger] counts[j + 1] == counts[j] + chunks[j],
        0 <= k < counts.len(),
    ensures
        counts[k] == total(chunks.take(k)),
    decreases k,
{
    if k == 0 {
        assert(chunks.take(0) =~= Seq::<nat>::empty());
    } else {
        lemma_total_at(counts, chunks, k - 1);
        assert(chunks.take(k).drop_last() =~= chunks.take(k - 1));
        assert(counts[(k - 1) + 1] == counts[k - 1] + chunks[k - 1]);
    }
}

/// The byte count of a meter that was just made or reset (`counts[0]` is
/// 0) and then recorded the chunks `chunks[0]`, ..., `chunks[k - 1]` that
/// came from the target (`counts[k]` after them) is the sum of those
/// chunks.
pub proof fn lemma_bytes_received_are_summed(counts: Seq<nat>, chunks: Seq<nat>)
    requires
        counts.len() == chunks.len() + 1,
        counts[0] == 0,
        forall|k: int| 0 <= k < chunks.len() ==> #[trigger] counts[k + 1] == counts[k] + chunks[k],
    ensures
        forall|k: int| 0 <= k < counts.len() ==> #[trigger] counts[k] == total(chunks.take(k)),
        counts.last() == total(chunks),
{
    assert forall|k: int| 0 <= k < counts.len() implies #[trigger] counts[k] == total(chunks.take(k)) by {
        lemma_total_at(counts, chunks, k);
    }
    assert(chunks.take(chunks.len() as int) =~= chunks);
    assert(counts[chunks.len() as int] == total(chunks.take(chunks.len() as int)));
}

} // verus!
