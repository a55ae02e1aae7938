//! Stable ordering by a descending integer key, and first-occurrence filters.
use vstd::prelude::*;

verus! {

/// `s` with `x` inserted before the first element whose key is smaller than `x`'s:
/// after every element whose key is at least as large.
pub open spec fn insert_desc<T>(s: Seq<T>, x: T, key: spec_fn(T) -> int) -> Seq<T>
    decreases s.len(),
{
    if s.len() == 0 {
        seq![x]
    } else if key(s[0]) < key(x) {
        seq![x] + s
    } else {
        seq![s[0]] + insert_desc(s.drop_first(), x, key)
    }
}

/// `s` ordered by descending key; elements with equal keys keep their order
/// (a stable sort, as `sort_by` and `sort_by_key` are).
pub open spec fn sort_desc<T>(s: Seq<T>, key: spec_fn(T) -> int) -> Seq<T>
    decreases s.len(),
{
    if s.len() == 0 {
        s
    } else {
        insert_desc(sort_desc(s.drop_last(), key), s.last(), key)
    }
}

/// The first index of `s` whose key is smaller than `k`, or `s.len()`.
pub open spec fn first_smaller<T>(s: Seq<T>, k: int, key: spec_fn(T) -> int, p: int) -> bool {
    &&& 0 <= p <= s.len()
    &&& forall|i: int| 0 <= i < p ==> key(#[trigger] s[i]) >= k
    &&& p < s.len() ==> key(s[p]) < k
}

/// Inserting at the first smaller position is what `insert_desc` does.
pub proof fn lemma_insert_desc_at<T>(s: Seq<T>, x: T, key: spec_fn(T) -> int, p: int)
    requires
        first_smaller(s, key(x), key, p),
    ensures
        insert_desc(s, x, key) == s.insert(p, x),
    decreases s.len(),
{
    if s.len() == 0 {
        assert(s.insert(p, x) =~= seq![x]);
    } else if key(s[0]) < key(x) {
        assert(p == 0);
        assert(s.insert(p, x) =~= seq![x] + s);
    } else {
        let t = s.drop_first();
        assert(p >= 1);
        assert forall|i: int| 0 <= i < p - 1 implies key(#[trigger] t[i]) >= key(x) by {
            assert(t[i] == s[i + 1]);
        }
        if p - 1 < t.len() {
            assert(t[p - 1] == s[p]);
        }
        lemma_insert_desc_at(t, x, key, p - 1);
        assert(s.insert(p, x) =~= seq![s[0]] + t.insert(p - 1, x));
    }
}

/// Whether `s` is ordered by descending key.
pub open spec fn is_sorted_desc<T>(s: Seq<T>, key: spec_fn(T) -> int) -> bool {
    forall|i: int, j: int| 0 <= i < j < s.len() ==> key(#[trigger] s[i]) >= key(#[trigger] s[j])
}

proof fn lemma_insert_desc_sorted<T>(s: Seq<T>, x: T, key: spec_fn(T) -> int)
    requires
        is_sorted_desc(s, key),
    ensures
        is_sorted_desc(insert_desc(s, x, key), key),
        insert_desc(s, x, key).to_multiset() == s.to_multiset().insert(x),
        insert_desc(s, x, key).len() == s.len() + 1,
    decreases s.len(),
{
    broadcast use vstd::seq_lib::group_seq_properties;
    broadcast use vstd::multiset::group_multiset_axioms;
    if s.len() == 0 {
        assert(seq![x].to_multiset() =~= s.to_multiset().insert(x)) by {
            assert(seq![x] =~= s.push(x));
        }
    } else if key(s[0]) < key(x) {
        let r = seq![x] + s;
        assert forall|i: int, j: int| 0 <= i < j < r.len() implies key(#[trigger] r[i]) >= key(
            #[trigger] r[j],
        ) by {
            if i > 0 {
                assert(r[i] == s[i - 1] && r[j] == s[j - 1]);
            } else {
                assert(r[j] == s[j - 1]);
                assert(key(s[0]) >= key(s[j - 1]) || j - 1 == 0);
            }
        }
        vstd::seq_lib::lemma_multiset_commutative(seq![x], s);
        assert(seq![x].to_multiset() =~= vstd::multiset::Multiset::empty().insert(x)) by {
            assert(seq![x] =~= Seq::<T>::empty().push(x));
        }
    } else {
        let t = s.drop_first();
        assert(is_sorted_desc(t, key)) by {
            assert forall|i: int, j: int| 0 <= i < j < t.len() implies key(#[trigger] t[i]) >= key(
                #[trigger] t[j],
            ) by {
                assert(t[i] == s[i + 1] && t[j] == s[j + 1]);
            }
        }
        lemma_insert_desc_sorted(t, x, key);
        let u = insert_desc(t, x, key);
        let r = seq![s[0]] + u;
        assert forall|i: int, j: int| 0 <= i < j < r.len() implies key(#[trigger] r[i]) >= key(
            #[trigger] r[j],
        ) by {
            if i > 0 {
                assert(r[i] == u[i - 1] && r[j] == u[j - 1]);
            } else {
                assert(r[j] == u[j - 1]);
                assert(u.to_multiset().count(u[j - 1]) > 0);
                assert(u.contains(u[j - 1]));
                if u[j - 1] == x {
                } else {
                    assert(t.to_multiset().count(u[j - 1]) > 0);
                    let k = choose|k: int| 0 <= k < t.len() && t[k] == u[j - 1];
                    assert(t[k] == s[k + 1]);
                }
            }
        }
        vstd::seq_lib::lemma_multiset_commutative(seq![s[0]], u);
        vstd::seq_lib::lemma_multiset_commutative(seq![s[0]], t);
        assert(s =~= seq![s[0]] + t);
    }
}

/// `sort_desc` orders by descending key and keeps exactly the same elements.
pub proof fn lemma_sort_desc<T>(s: Seq<T>, key: spec_fn(T) -> int)
    ensures
        is_sorted_desc(sort_desc(s, key), key),
        sort_desc(s, key).to_multiset() == s.to_multiset(),
        sort_desc(s, key).len() == s.len(),
    decreases s.len(),
{
    broadcast use vstd::seq_lib::group_seq_properties;
    if s.len() > 0 {
        lemma_sort_desc(s.drop_last(), key);
        lemma_insert_desc_sorted(sort_desc(s.drop_last(), key), s.last(), key);
        assert(s =~= s.drop_last().push(s.last()));
    }
}

/// No two elements of `s` have the same `id`.
pub open spec fn distinct_by<T, K>(s: Seq<T>, id: spec_fn(T) -> K) -> bool {
    forall|i: int, j: int| 0 <= i < j < s.len() ==> id(#[trigger] s[i]) != id(#[trigger] s[j])
}

proof fn lemma_insert_desc_distinct<T, K>(s: Seq<T>, x: T, key: spec_fn(T) -> int, id: spec_fn(T) -> K)
    requires
        is_sorted_desc(s, key),
        distinct_by(s, id),
        forall|i: int| 0 <= i < s.len() ==> id(#[trigger] s[i]) != id(x),
    ensures
        distinct_by(insert_desc(s, x, key), id),
    decreases s.len(),
{
    broadcast use vstd::seq_lib::group_seq_properties;
    broadcast use vstd::multiset::group_multiset_axioms;
    if s.len() == 0 {
    } else if key(s[0]) < key(x) {
        let r = seq![x] + s;
        assert forall|i: int, j: int| 0 <= i < j < r.len() implies id(#[trigger] r[i]) != id(#[trigger] r[j]) by {
            assert(r[j] == s[j - 1]);
            if i > 0 {
                assert(r[i] == s[i - 1]);
            }
        }
    } else {
        let t = s.drop_first();
        assert(is_sorted_desc(t, key)) by {
            assert forall|i: int, j: int| 0 <= i < j < t.len() implies key(#[trigger] t[i]) >= key(
                #[trigger] t[j],
            ) by {
                assert(t[i] == s[i + 1] && t[j] == s[j + 1]);
            }
        }
        assert forall|i: int, j: int| 0 <= i < j < t.len() implies id(#[trigger] t[i]) != id(#[trigger] t[j]) by {
            assert(t[i] == s[i + 1] && t[j] == s[j + 1]);
        }
        assert forall|i: int| 0 <= i < t.len() implies id(#[trigger] t[i]) != id(x) by {
            assert(t[i] == s[i + 1]);
        }
        lemma_insert_desc_distinct(t, x, key, id);
        lemma_insert_desc_sorted(t, x, key);
        let u = insert_desc(t, x, key);
        let r = seq![s[0]] + u;
        assert forall|i: int, j: int| 0 <= i < j < r.len() implies id(#[trigger] r[i]) != id(#[trigger] r[j]) by {
            assert(r[j] == u[j - 1]);
            if i > 0 {
                assert(r[i] == u[i - 1]);
            } else {
                assert(u.to_multiset().count(u[j - 1]) > 0);
                if u[j - 1] != x {
                    assert(t.to_multiset().count(u[j - 1]) > 0);
                    assert(t.contains(u[j - 1]));
                    let k = choose|k: int| 0 <= k < t.len() && t[k] == u[j - 1];
                    assert(t[k] == s[k + 1]);
                }
            }
        }
    }
}

/// Sorting keeps elements with distinct ids distinct.
pub proof fn lemma_sort_desc_distinct<T, K>(s: Seq<T>, key: spec_fn(T) -> int, id: spec_fn(T) -> K)
    requires
        distinct_by(s, id),
    ensures
        distinct_by(sort_desc(s, key), id),
    decreases s.len(),
{
    broadcast use vstd::seq_lib::group_seq_properties;
    if s.len() > 0 {
        let d = s.drop_last();
        assert forall|i: int, j: int| 0 <= i < j < d.len() implies id(#[trigger] d[i]) != id(#[trigger] d[j]) by {
            assert(d[i] == s[i] && d[j] == s[j]);
        }
        lemma_sort_desc_distinct(d, key, id);
        lemma_sort_desc(d, key);
        let sd = sort_desc(d, key);
        assert forall|i: int| 0 <= i < sd.len() implies id(#[trigger] sd[i]) != id(s.last()) by {
            assert(sd.to_multiset().count(sd[i]) > 0);
            assert(d.contains(sd[i]));
            let k = choose|k: int| 0 <= k < d.len() && d[k] == sd[i];
            assert(d[k] == s[k]);
            assert(s.last() == s[s.len() - 1]);
        }
        lemma_insert_desc_distinct(sd, s.last(), key, id);
    }
}

} // verus!
