//! Stable ordering by a descending integer key, defined by insertion, and
//! the facts that make it a sort: the result is ordered and holds the same
//! items.
use vstd::prelude::*;

verus! {

broadcast use vstd::seq_lib::group_to_multiset_ensures;

/// `x` placed after every item of `s` whose key is at least its own, counting
/// from the back: the step of a stable insertion sort.
pub open spec fn insert_desc<A>(s: Seq<A>, x: A, key: spec_fn(A) -> int) -> Seq<A>
    decreases s.len(),
{
    if s.len() == 0 || key(s.last()) >= key(x) {
        s.push(x)
    } else {
        insert_desc(s.drop_last(), x, key).push(s.last())
    }
}

/// `s` ordered by descending key; items with equal keys keep their order.
pub open spec fn sort_desc<A>(s: Seq<A>, key: spec_fn(A) -> int) -> Seq<A>
    decreases s.len(),
{
    if s.len() == 0 {
        s
    } else {
        insert_desc(sort_desc(s.drop_last(), key), s.last(), key)
    }
}

/// The keys of `s` never increase.
pub open spec fn sorted_desc<A>(s: Seq<A>, key: spec_fn(A) -> int) -> bool {
    forall|i: int, j: int| 0 <= i < j < s.len() ==> key(#[trigger] s[i]) >= key(#[trigger] s[j])
}

proof fn lemma_insert_lower_bound<A>(s: Seq<A>, x: A, key: spec_fn(A) -> int, m: int)
    requires
        forall|i: int| 0 <= i < s.len() ==> key(#[trigger] s[i]) >= m,
        key(x) >= m,
    ensures
        forall|i: int|
            0 <= i < insert_desc(s, x, key).len() ==> key(#[trigger] insert_desc(s, x, key)[i]) >= m,
    decreases s.len(),
{
    if s.len() > 0 && key(s.last()) < key(x) {
        let d = s.drop_last();
        assert forall|i: int| 0 <= i < d.len() implies key(#[trigger] d[i]) >= m by {
            assert(d[i] == s[i]);
        }
        lemma_insert_lower_bound(d, x, key, m);
        let u = insert_desc(d, x, key);
        assert(key(s[s.len() - 1]) >= m);
        assert forall|i: int| 0 <= i < u.push(s.last()).len() implies key(
            #[trigger] u.push(s.last())[i],
        ) >= m by {
            if i < u.len() {
                assert(u.push(s.last())[i] == u[i]);
            }
        }
    } else {
        let t = s.push(x);
        assert forall|i: int| 0 <= i < t.len() implies key(#[trigger] t[i]) >= m by {
            if i < s.len() {
                assert(t[i] == s[i]);
            }
        }
    }
}

/// Inserting into an ordered sequence keeps it ordered, adds exactly the new
/// item, and makes it one longer.
pub proof fn lemma_insert_desc<A>(s: Seq<A>, x: A, key: spec_fn(A) -> int)
    requires
        sorted_desc(s, key),
    ensures
        sorted_desc(insert_desc(s, x, key), key),
        insert_desc(s, x, key).to_multiset() == s.to_multiset().insert(x),
        insert_desc(s, x, key).len() == s.len() + 1,
    decreases s.len(),
{
    if s.len() == 0 || key(s.last()) >= key(x) {
        let t = s.push(x);
        assert forall|i: int, j: int| 0 <= i < j < t.len() implies key(#[trigger] t[i]) >= key(
            #[trigger] t[j],
        ) by {
            if j == s.len() {
                if i < s.len() - 1 {
                    assert(key(s[i]) >= key(s[s.len() - 1]));
                }
            }
        }
    } else {
        let d = s.drop_last();
        let l = s.last();
        assert(sorted_desc(d, key));
        lemma_insert_desc(d, x, key);
        let u = insert_desc(d, x, key);
        assert forall|i: int| 0 <= i < d.len() implies key(#[trigger] d[i]) >= key(l) by {
            assert(key(s[i]) >= key(s[s.len() - 1]));
        }
        lemma_insert_lower_bound(d, x, key, key(l));
        let t = u.push(l);
        assert forall|i: int, j: int| 0 <= i < j < t.len() implies key(#[trigger] t[i]) >= key(
            #[trigger] t[j],
        ) by {
            if j == u.len() {
                assert(key(u[i]) >= key(l));
            }
        }
        assert(s == d.push(l));
        assert(t.to_multiset() == u.to_multiset().insert(l));
        assert(s.to_multiset() == d.to_multiset().insert(l));
        assert(t.to_multiset() =~= s.to_multiset().insert(x));
    }
}

/// Sorting gives an ordered sequence with the same items (a permutation).
pub proof fn lemma_sort_desc<A>(s: Seq<A>, key: spec_fn(A) -> int)
    ensures
        sorted_desc(sort_desc(s, key), key),
        sort_desc(s, key).to_multiset() == s.to_multiset(),
        sort_desc(s, key).len() == s.len(),
    decreases s.len(),
{
    if s.len() > 0 {
        lemma_sort_desc(s.drop_last(), key);
        lemma_insert_desc(sort_desc(s.drop_last(), key), s.last(), key);
        assert(s == s.drop_last().push(s.last()));
    }
}

/// The position an insertion step picks, read from the back: every item
/// after `p` has a smaller key and the one before it (if any) does not.
pub proof fn lemma_insert_desc_at<A>(s: Seq<A>, x: A, key: spec_fn(A) -> int, p: int)
    requires
        0 <= p <= s.len(),
        forall|j: int| p <= j < s.len() ==> key(#[trigger] s[j]) < key(x),
        p == 0 || key(s[p - 1]) >= key(x),
    ensures
        insert_desc(s, x, key) == s.insert(p, x),
    decreases s.len(),
{
    if p == s.len() {
        assert(s.insert(p, x) =~= s.push(x));
    } else {
        let d = s.drop_last();
        assert(key(s[s.len() - 1]) < key(x));
        assert forall|j: int| p <= j < d.len() implies key(#[trigger] d[j]) < key(x) by {
            assert(d[j] == s[j]);
        }
        if p > 0 {
            assert(d[p - 1] == s[p - 1]);
        }
        lemma_insert_desc_at(d, x, key, p);
        assert(d.insert(p, x).push(s.last()) =~= s.insert(p, x));
    }
}

/// Mapping the items through `f` commutes with sorting when `f` keeps keys.
pub proof fn lemma_sort_desc_map<A, B>(
    s: Seq<A>,
    f: spec_fn(A) -> B,
    ka: spec_fn(A) -> int,
    kb: spec_fn(B) -> int,
)
    requires
        forall|a: A| #[trigger] kb(f(a)) == ka(a),
    ensures
        sort_desc(s, ka).map_values(f) == sort_desc(s.map_values(f), kb),
    decreases s.len(),
{
    if s.len() > 0 {
        lemma_sort_desc_map(s.drop_last(), f, ka, kb);
        assert(s.map_values(f).drop_last() =~= s.drop_last().map_values(f));
        lemma_insert_desc_map(sort_desc(s.drop_last(), ka), s.last(), f, ka, kb);
    }
}

proof fn lemma_insert_desc_map<A, B>(
    s: Seq<A>,
    x: A,
    f: spec_fn(A) -> B,
    ka: spec_fn(A) -> int,
    kb: spec_fn(B) -> int,
)
    requires
        forall|a: A| #[trigger] kb(f(a)) == ka(a),
    ensures
        insert_desc(s, x, ka).map_values(f) == insert_desc(s.map_values(f), f(x), kb),
    decreases s.len(),
{
    let m = s.map_values(f);
    assert(kb(f(x)) == ka(x));
    if s.len() == 0 || ka(s.last()) >= ka(x) {
        assert(kb(f(s.last())) == ka(s.last()));
        assert(s.push(x).map_values(f) =~= m.push(f(x)));
    } else {
        assert(kb(f(s.last())) == ka(s.last()));
        assert(m.drop_last() =~= s.drop_last().map_values(f));
        lemma_insert_desc_map(s.drop_last(), x, f, ka, kb);
        assert(insert_desc(s.drop_last(), x, ka).push(s.last()).map_values(f) =~= insert_desc(
            s.drop_last(),
            x,
            ka,
        ).map_values(f).push(f(s.last())));
    }
}

} // verus!
