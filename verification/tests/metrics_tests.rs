use flashblocks_explorer::metrics::{Counter, Metrics};

#[test]
fn counter_starts_at_zero_and_adds() {
    let mut c = Counter::default();
    assert_eq!(c.get(), 0);
    c.increment(3);
    c.increment(0);
    c.increment(4);
    assert_eq!(c.get(), 7);
}

#[test]
fn counter_wraps_around() {
    let mut c = Counter::default();
    c.increment(u64::MAX);
    assert_eq!(c.get(), u64::MAX);
    c.increment(2);
    assert_eq!(c.get(), 1);
}

#[test]
fn increments_compose() {
    let (a, b) = (u64::MAX - 5, 9u64);
    let mut twice = Counter::default();
    twice.increment(10);
    twice.increment(a);
    twice.increment(b);
    let mut once = Counter::default();
    once.increment(10);
    once.increment(a.wrapping_add(b));
    assert_eq!(twice.get(), once.get());
}

#[test]
fn metrics_start_at_zero() {
    let mut m = Metrics::default();
    assert_eq!(m.upstream_messages.get(), 0);
    assert_eq!(m.upstream_errors.get(), 0);
    assert_eq!(m.reconnect_attempts.get(), 0);
    m.upstream_errors.increment(1);
    assert_eq!(m.upstream_errors.get(), 1);
    assert_eq!(m.upstream_messages.get(), 0);
}

#[test]
fn counter_holds_the_wrapped_sum_of_its_increments() {
    let deltas = [u64::MAX, 5, 17, u64::MAX - 3, 0, 1];
    let mut c = Counter::default();
    let mut sum: u128 = 0;
    for d in deltas {
        c.increment(d);
        sum += d as u128;
    }
    assert_eq!(c.get() as u128, sum % (1u128 << 64));
    assert_eq!(c.get(), c.get());
}
