use vstd::prelude::*;

verus! {

/// 2^64: a counter adds modulo this, as `AtomicU64::fetch_add` does.
pub open spec fn counter_modulus() -> int {
    0x1_0000_0000_0000_0000
}

/// `value + delta`, wrapped around past `u64::MAX`.
pub open spec fn wrapped_add(value: u64, delta: u64) -> u64 {
    ((value + delta) % counter_modulus()) as u64
}

/// A running total of observed events, wrapping around past `u64::MAX`.
///
/// The counter is a plain value: `increment` takes `&mut self`, and a `Metrics`
/// owns its counters. Several owners that must see one shared total wrap the
/// `Metrics` (or a `Counter`) in a lock or channel of their own; a counter is not
/// an atomic that many threads bump through `&self`, since an atomic's value could
/// not be stated by these contracts.
pub struct Counter {
    value: u64,
}

impl View for Counter {
    type V = u64;

    closed spec fn view(&self) -> u64 {
        self.value
    }
}

impl Default for Counter {
    /// A counter at zero.
    fn default() -> (r: Self)
        ensures
            r@ == 0,
    {
        Counter { value: 0 }
    }
}

impl Counter {
    /// Adds `delta` to the total, wrapping around on overflow.
    pub fn increment(&mut self, delta: u64)
        ensures
            final(self)@ == wrapped_add(old(self)@, delta),
    {
        self.value = self.value.wrapping_add(delta);
    }

    /// The current total.
    pub fn get(&self) -> (r: u64)
        ensures
            r == self@,
    {
        self.value
    }
}

/// The counters of the upstream connection. It owns its counters; it is not
/// `Clone`, as a copy would not share the totals with the original.
pub struct Metrics {
    pub upstream_messages: Counter,
    pub upstream_errors: Counter,
    pub reconnect_attempts: Counter,
}

impl Default for Metrics {
    /// All counters at zero.
    fn default() -> (r: Self)
        ensures
            r.upstream_messages@ == 0,
            r.upstream_errors@ == 0,
            r.reconnect_attempts@ == 0,
    {
        Metrics {
            upstream_messages: Counter::default(),
            upstream_errors: Counter::default(),
            reconnect_attempts: Counter::default(),
        }
    }
}

/// Two increments in a row leave a counter where one increment by their (wrapped)
/// sum leaves it.
pub proof fn lemma_increments_compose(value: u64, a: u64, b: u64)
    ensures
        wrapped_add(wrapped_add(value, a), b) == wrapped_add(value, wrapped_add(a, b)),
{
    let m = counter_modulus();
    vstd::arithmetic::div_mod::lemma_add_mod_noop(value + a, b as int, m);
    vstd::arithmetic::div_mod::lemma_add_mod_noop(value as int, a + b, m);
    vstd::arithmetic::div_mod::lemma_mod_twice(b as int, m);
    vstd::arithmetic::div_mod::lemma_add_mod_noop(a as int, b as int, m);
    vstd::arithmetic::div_mod::lemma_mod_twice(value as int, m);
    assert(value as int % m == value);
    assert(b as int % m == b);
}

/// Adding zero leaves a counter unchanged.
pub proof fn lemma_increment_by_zero(value: u64)
    ensures
        wrapped_add(value, 0) == value,
{
}

/// The sum of `deltas`.
pub open spec fn delta_sum(deltas: Seq<u64>) -> int
    decreases deltas.len(),
{
    if deltas.len() == 0 {
        0
    } else {
        delta_sum(deltas.drop_last()) + deltas.last()
    }
}

/// Where a counter at `value` stands after `increment(d)` for each `d` of `deltas`,
/// in order.
pub open spec fn after_increments(value: u64, deltas: Seq<u64>) -> u64
    decreases deltas.len(),
{
    if deltas.len() == 0 {
        value
    } else {
        wrapped_add(after_increments(value, deltas.drop_last()), deltas.last())
    }
}

/// After any number of increments a counter holds its starting value plus the sum
/// of the deltas, modulo 2^64; a fresh counter (at 0) holds the sum of the deltas
/// modulo 2^64.
pub proof fn lemma_increments_total(value: u64, deltas: Seq<u64>)
    ensures
        after_increments(value, deltas) == (value + delta_sum(deltas)) % counter_modulus(),
        after_increments(0, deltas) == delta_sum(deltas) % counter_modulus(),
    decreases deltas.len(),
{
    let m = counter_modulus();
    if deltas.len() == 0 {
        vstd::arithmetic::div_mod::lemma_small_mod(value as nat, m as nat);
    } else {
        lemma_increments_total(value, deltas.drop_last());
        let prev = value + delta_sum(deltas.drop_last());
        vstd::arithmetic::div_mod::lemma_add_mod_noop(prev, deltas.last() as int, m);
        vstd::arithmetic::div_mod::lemma_small_mod(deltas.last() as nat, m as nat);
        vstd::arithmetic::div_mod::lemma_mod_twice(prev, m);
        lemma_increments_total(0, deltas.drop_last());
        let prev0 = delta_sum(deltas.drop_last());
        vstd::arithmetic::div_mod::lemma_add_mod_noop(prev0, deltas.last() as int, m);
        vstd::arithmetic::div_mod::lemma_mod_twice(prev0, m);
    }
}

} // verus!
