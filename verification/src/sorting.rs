use vstd::prelude::*;

verus! {

/// Something that is ordered by an unsigned key.
pub trait Keyed {
    spec fn key_spec(&self) -> int;

    fn key(&self) -> (k: u64)
        ensures
            k as int == self.key_spec(),
    ;
}

/// In the order asked for (`descending` or not), key `a` comes strictly before key `b`.
pub open spec fn ranks_before(a: int, b: int, descending: bool) -> bool {
    if descending {
        a > b
    } else {
        a < b
    }
}

/// `x` put into `t` just before the first element that it ranks before, so after
/// every element whose key it ties.
pub open spec fn insert_by_key<T>(t: Seq<T>, x: T, key: spec_fn(T) -> int, descending: bool) -> Seq<T>
    decreases t.len(),
{
    if t.len() == 0 {
        seq![x]
    } else if ranks_before(key(x), key(t[0]), descending) {
        seq![x] + t
    } else {
        seq![t[0]] + insert_by_key(t.drop_first(), x, key, descending)
    }
}

/// The stable sort of `s` by `key`: elements in key order, and elements with equal
/// keys in the order they had in `s` (as `sort_by` and `sort_by_key` leave them).
pub open spec fn sort_by_key<T>(s: Seq<T>, key: spec_fn(T) -> int, descending: bool) -> Seq<T>
    decreases s.len(),
{
    if s.len() == 0 {
        Seq::empty()
    } else {
        insert_by_key(sort_by_key(s.drop_last(), key, descending), s.last(), key, descending)
    }
}

/// `s` is in key order.
pub open spec fn sorted_by_key<T>(s: Seq<T>, key: spec_fn(T) -> int, descending: bool) -> bool {
    forall|i: int, j: int|
        0 <= i < j < s.len() ==> !ranks_before(key(s[j]), key(s[i]), descending)
}

/// Where `insert_by_key` puts `x`: before the first element it ranks before.
proof fn lemma_insert_at<T>(t: Seq<T>, x: T, key: spec_fn(T) -> int, descending: bool, j: int)
    requires
        0 <= j <= t.len(),
        forall|k: int| 0 <= k < j ==> !ranks_before(key(x), key(#[trigger] t[k]), descending),
        j < t.len() ==> ranks_before(key(x), key(t[j]), descending),
    ensures
        insert_by_key(t, x, key, descending) == t.take(j) + seq![x] + t.skip(j),
    decreases t.len(),
{
    if t.len() == 0 {
        assert(t.take(j) + seq![x] + t.skip(j) =~= seq![x]);
    } else if j == 0 {
        assert(t.take(0) + seq![x] + t.skip(0) =~= seq![x] + t);
    } else {
        let rest = t.drop_first();
        assert forall|k: int| 0 <= k < j - 1 implies !ranks_before(
            key(x),
            key(#[trigger] rest[k]),
            descending,
        ) by {
            assert(rest[k] == t[k + 1]);
        }
        if j - 1 < rest.len() {
            assert(rest[j - 1] == t[j]);
        }
        assert(!ranks_before(key(x), key(t[0]), descending));
        lemma_insert_at(rest, x, key, descending, j - 1);
        assert(seq![t[0]] + (rest.take(j - 1) + seq![x] + rest.skip(j - 1)) =~= t.take(j)
            + seq![x] + t.skip(j));
    }
}

/// Inserting keeps key order.
proof fn lemma_insert_sorted<T>(t: Seq<T>, x: T, key: spec_fn(T) -> int, descending: bool)
    requires
        sorted_by_key(t, key, descending),
    ensures
        sorted_by_key(insert_by_key(t, x, key, descending), key, descending),
        insert_by_key(t, x, key, descending).len() == t.len() + 1,
        insert_by_key(t, x, key, descending).to_multiset() == t.to_multiset().insert(x),
    decreases t.len(),
{
    broadcast use vstd::seq_lib::group_seq_properties;
    broadcast use vstd::multiset::group_multiset_axioms;

    let r = insert_by_key(t, x, key, descending);
    if t.len() == 0 {
        assert(r =~= seq![x]);
        assert(seq![x] =~= Seq::<T>::empty().push(x));
        assert(Seq::<T>::empty().to_multiset() =~= vstd::multiset::Multiset::empty());
    } else if ranks_before(key(x), key(t[0]), descending) {
        assert forall|i: int, j: int| 0 <= i < j < r.len() implies !ranks_before(
            key(r[j]),
            key(r[i]),
            descending,
        ) by {
            if i > 0 {
                assert(r[i] == t[i - 1]);
                assert(r[j] == t[j - 1]);
            } else {
                assert(r[j] == t[j - 1]);
                if j - 1 > 0 {
                    assert(!ranks_before(key(t[j - 1]), key(t[0]), descending));
                }
            }
        }
        vstd::seq_lib::lemma_multiset_commutative(seq![x], t);
        assert(seq![x].to_multiset() =~= vstd::multiset::Multiset::empty().insert(x)) by {
            assert(seq![x] =~= Seq::<T>::empty().push(x));
        }
    } else {
        let rest = t.drop_first();
        assert(sorted_by_key(rest, key, descending)) by {
            assert forall|i: int, j: int| 0 <= i < j < rest.len() implies !ranks_before(
                key(rest[j]),
                key(rest[i]),
                descending,
            ) by {
                assert(rest[i] == t[i + 1]);
                assert(rest[j] == t[j + 1]);
            }
        }
        lemma_insert_sorted(rest, x, key, descending);
        let ir = insert_by_key(rest, x, key, descending);
        assert(r == seq![t[0]] + ir);
        assert forall|i: int, j: int| 0 <= i < j < r.len() implies !ranks_before(
            key(r[j]),
            key(r[i]),
            descending,
        ) by {
            if i > 0 {
                assert(r[i] == ir[i - 1]);
                assert(r[j] == ir[j - 1]);
            } else {
                assert(r[j] == ir[j - 1]);
                // every element of ir is x or an element of rest
                assert(ir.to_multiset().count(ir[j - 1]) > 0);
                assert(rest.to_multiset().insert(x).count(ir[j - 1]) > 0);
                if ir[j - 1] != x {
                    assert(rest.to_multiset().count(ir[j - 1]) > 0);
                    assert(rest.contains(ir[j - 1]));
                    let k = choose|k: int| 0 <= k < rest.len() && rest[k] == ir[j - 1];
                    assert(rest[k] == t[k + 1]);
                }
            }
        }
        vstd::seq_lib::lemma_multiset_commutative(seq![t[0]], ir);
        vstd::seq_lib::lemma_multiset_commutative(seq![t[0]], rest);
        assert(seq![t[0]] + rest =~= t);
    }
}

/// The stable sort is in key order, keeps every element as often as it occurs, and
/// keeps the length.
pub proof fn lemma_sort_by_key<T>(s: Seq<T>, key: spec_fn(T) -> int, descending: bool)
    ensures
        sorted_by_key(sort_by_key(s, key, descending), key, descending),
        sort_by_key(s, key, descending).len() == s.len(),
        sort_by_key(s, key, descending).to_multiset() == s.to_multiset(),
    decreases s.len(),
{
    broadcast use vstd::seq_lib::group_seq_properties;

    if s.len() == 0 {
    } else {
        lemma_sort_by_key(s.drop_last(), key, descending);
        lemma_insert_sorted(sort_by_key(s.drop_last(), key, descending), s.last(), key, descending);
        assert(s.drop_last().push(s.last()) =~= s);
    }
}

proof fn lemma_insert_map<A, B>(
    t: Seq<A>,
    x: A,
    f: spec_fn(A) -> B,
    ka: spec_fn(A) -> int,
    kb: spec_fn(B) -> int,
    descending: bool,
)
    requires
        forall|y: A| #[trigger] kb(f(y)) == ka(y),
    ensures
        insert_by_key(t.map_values(f), f(x), kb, descending) == insert_by_key(
            t,
            x,
            ka,
            descending,
        ).map_values(f),
    decreases t.len(),
{
    let tm = t.map_values(f);
    if t.len() == 0 {
        assert(insert_by_key(t, x, ka, descending).map_values(f) =~= seq![f(x)]);
    } else {
        assert(tm[0] == f(t[0]));
        assert(kb(f(x)) == ka(x));
        assert(kb(f(t[0])) == ka(t[0]));
        if ranks_before(ka(x), ka(t[0]), descending) {
            assert((seq![x] + t).map_values(f) =~= seq![f(x)] + tm);
        } else {
            lemma_insert_map(t.drop_first(), x, f, ka, kb, descending);
            assert(tm.drop_first() =~= t.drop_first().map_values(f));
            assert((seq![t[0]] + insert_by_key(t.drop_first(), x, ka, descending)).map_values(f)
                =~= seq![tm[0]] + insert_by_key(t.drop_first(), x, ka, descending).map_values(f));
        }
    }
}

/// Sorting commutes with a map that keeps the keys: sorting the images is taking
/// the images of the sorted elements.
pub proof fn lemma_sort_map<A, B>(
    s: Seq<A>,
    f: spec_fn(A) -> B,
    ka: spec_fn(A) -> int,
    kb: spec_fn(B) -> int,
    descending: bool,
)
    requires
        forall|y: A| #[trigger] kb(f(y)) == ka(y),
    ensures
        sort_by_key(s.map_values(f), kb, descending) == sort_by_key(s, ka, descending).map_values(
            f,
        ),
    decreases s.len(),
{
    if s.len() == 0 {
        assert(sort_by_key(s, ka, descending).map_values(f) =~= Seq::<B>::empty());
    } else {
        lemma_sort_map(s.drop_last(), f, ka, kb, descending);
        assert(s.map_values(f).drop_last() =~= s.drop_last().map_values(f));
        assert(s.map_values(f).last() == f(s.last()));
        lemma_insert_map(sort_by_key(s.drop_last(), ka, descending), s.last(), f, ka, kb, descending);
    }
}

/// Sorts `v` stably by key, in descending or ascending order (insertion sort).
pub fn stable_sort_by_key<T: Keyed>(v: Vec<T>, descending: bool) -> (r: Vec<T>)
    ensures
        r@ == sort_by_key(v@, |x: T| x.key_spec(), descending),
{
    let ghost key = |x: T| x.key_spec();
    let ghost orig = v@;
    let mut rest = v;
    let mut r: Vec<T> = Vec::new();
    let n = rest.len();
    while rest.len() > 0
        invariant
            rest@ == orig.skip(orig.len() - rest.len()),
            r@ == sort_by_key(orig.take(orig.len() - rest.len()), key, descending),
            orig.len() == n,
            rest.len() <= n,
            key == (|x: T| x.key_spec()),
        decreases rest.len(),
    {
        let ghost done = orig.len() - rest.len();
        let x = rest.remove(0);
        assert(x == orig[done]);
        assert(rest@ =~= orig.skip(done + 1));
        let kx = x.key();
        let mut j: usize = 0;
        while j < r.len()
            invariant
                j <= r.len(),
                key == (|x: T| x.key_spec()),
                kx as int == key(x),
                forall|k: int| 0 <= k < j ==> !ranks_before(key(x), key(#[trigger] r@[k]), descending),
            ensures
                j <= r.len(),
                forall|k: int| 0 <= k < j ==> !ranks_before(key(x), key(#[trigger] r@[k]), descending),
                j < r.len() ==> ranks_before(key(x), key(r@[j as int]), descending),
            decreases r.len() - j,
        {
            let kj = r[j].key();
            let before = if descending { kx > kj } else { kx < kj };
            if before {
                break;
            }
            j = j + 1;
        }
        proof {
            lemma_insert_at(r@, x, key, descending, j as int);
            assert(orig.take(done + 1).drop_last() =~= orig.take(done));
            assert(orig.take(done + 1).last() == x);
        }
        r.insert(j, x);
        assert(r@ =~= sort_by_key(orig.take(done + 1), key, descending));
    }
    assert(orig.take(orig.len() as int) =~= orig);
    r
}

} // verus!
