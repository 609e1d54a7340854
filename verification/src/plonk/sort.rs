use vstd::prelude::*;

verus! {

/// An item with an integer id by which it is ordered.
pub trait Identified: DeepView {
    /// Id of the item modelled by `v`.
    spec fn spec_id(v: <Self as DeepView>::V) -> int;

    /// Id of the item.
    fn id_key(&self) -> (k: u64)
        ensures
            k == Self::spec_id(self.deep_view()),
    ;
}

/// Position at which `x` is inserted into `s`: after the last element whose key is not
/// greater than `x`'s, found from the end.
pub open spec fn spec_insert_pos<A>(s: Seq<A>, x: A, key: spec_fn(A) -> int) -> int
    decreases s.len(),
{
    if s.len() == 0 {
        0
    } else if key(s.last()) <= key(x) {
        s.len() as int
    } else {
        spec_insert_pos(s.drop_last(), x, key)
    }
}

/// `s` with `x` inserted after the trailing run of elements whose keys are greater than
/// `x`'s.
pub open spec fn spec_insert_by<A>(s: Seq<A>, x: A, key: spec_fn(A) -> int) -> Seq<A>
    decreases s.len(),
{
    if s.len() == 0 {
        seq![x]
    } else if key(s.last()) <= key(x) {
        s.push(x)
    } else {
        spec_insert_by(s.drop_last(), x, key).push(s.last())
    }
}

/// `s` sorted by `key`, elements with equal keys keeping their order.
pub open spec fn spec_sort_by<A>(s: Seq<A>, key: spec_fn(A) -> int) -> Seq<A>
    decreases s.len(),
{
    if s.len() == 0 {
        s
    } else {
        spec_insert_by(spec_sort_by(s.drop_last(), key), s.last(), key)
    }
}

/// The keys of `s` never decrease.
pub open spec fn spec_sorted_by<A>(s: Seq<A>, key: spec_fn(A) -> int) -> bool {
    forall|i: int, j: int| 0 <= i <= j < s.len() ==> key(#[trigger] s[i]) <= key(#[trigger] s[j])
}

/// Inserting at the position found from the end is the insertion by key.
proof fn lemma_insert_pos<A>(s: Seq<A>, x: A, key: spec_fn(A) -> int)
    ensures
        0 <= spec_insert_pos(s, x, key) <= s.len(),
        spec_insert_by(s, x, key) == s.insert(spec_insert_pos(s, x, key), x),
    decreases s.len(),
{
    if s.len() == 0 {
        assert(s.insert(0, x) =~= seq![x]);
    } else if key(s.last()) <= key(x) {
        assert(s.insert(s.len() as int, x) =~= s.push(x));
    } else {
        lemma_insert_pos(s.drop_last(), x, key);
        let p = spec_insert_pos(s.drop_last(), x, key);
        assert(s.drop_last().insert(p, x).push(s.last()) =~= s.insert(p, x));
    }
}

/// Insertion by key keeps a sorted sequence sorted, and adds exactly the inserted element.
proof fn lemma_insert_by<A>(s: Seq<A>, x: A, key: spec_fn(A) -> int)
    requires
        spec_sorted_by(s, key),
    ensures
        spec_sorted_by(spec_insert_by(s, x, key), key),
        spec_insert_by(s, x, key).to_multiset() == s.to_multiset().insert(x),
    decreases s.len(),
{
    broadcast use vstd::multiset::group_multiset_axioms;
    broadcast use vstd::seq_lib::group_to_multiset_ensures;

    if s.len() == 0 {
        assert(seq![x] =~= Seq::<A>::empty().push(x));
    } else if key(s.last()) <= key(x) {
        let r = s.push(x);
        assert forall|i: int, j: int| 0 <= i <= j < r.len() implies key(#[trigger] r[i]) <= key(#[trigger] r[j]) by {
            if j == s.len() {
                if i < s.len() {
                    assert(key(s[i]) <= key(s[s.len() - 1]));
                }
            }
        }
    } else {
        let init = s.drop_last();
        assert(spec_sorted_by(init, key)) by {
            assert forall|i: int, j: int| 0 <= i <= j < init.len() implies key(#[trigger] init[i]) <= key(#[trigger] init[j]) by {
                assert(init[i] == s[i] && init[j] == s[j]);
            }
        }
        lemma_insert_by(init, x, key);
        let m = spec_insert_by(init, x, key);
        let r = m.push(s.last());
        assert forall|i: int, j: int| 0 <= i <= j < r.len() implies key(#[trigger] r[i]) <= key(#[trigger] r[j]) by {
            if j == m.len() && i < m.len() {
                assert(m.to_multiset().contains(m[i]));
                assert(init.to_multiset().insert(x).contains(m[i]));
                if m[i] != x {
                    assert(init.to_multiset().contains(m[i]));
                    assert(init.contains(m[i]));
                    let k = choose|k: int| 0 <= k < init.len() && init[k] == m[i];
                    assert(key(s[k]) <= key(s[s.len() - 1]));
                }
            }
        }
        assert(s =~= init.push(s.last()));
    }
}

/// Sorting by key gives a sorted sequence with the same elements.
pub proof fn lemma_sort_by<A>(s: Seq<A>, key: spec_fn(A) -> int)
    ensures
        spec_sorted_by(spec_sort_by(s, key), key),
        spec_sort_by(s, key).to_multiset() == s.to_multiset(),
        spec_sort_by(s, key).len() == s.len(),
    decreases s.len(),
{
    broadcast use vstd::multiset::group_multiset_axioms;
    broadcast use vstd::seq_lib::group_to_multiset_ensures;

    if s.len() > 0 {
        lemma_sort_by(s.drop_last(), key);
        lemma_insert_by(spec_sort_by(s.drop_last(), key), s.last(), key);
        lemma_insert_pos(spec_sort_by(s.drop_last(), key), s.last(), key);
        assert(s =~= s.drop_last().push(s.last()));
    } else {
        assert(spec_sorted_by(s, key));
    }
}

/// Sorting items whose keys are unique and below their count puts each at the position of
/// its key.
pub proof fn lemma_sort_unique_keys<A>(s: Seq<A>, key: spec_fn(A) -> int)
    requires
        forall|i: int| 0 <= i < s.len() ==> 0 <= key(#[trigger] s[i]) < s.len(),
        forall|i: int, j: int| 0 <= i < s.len() && 0 <= j < s.len() && i != j ==> key(#[trigger] s[i]) != key(#[trigger] s[j]),
    ensures
        spec_sort_by(s, key).len() == s.len(),
        spec_sort_by(s, key).to_multiset() == s.to_multiset(),
        forall|i: int| 0 <= i < s.len() ==> key(#[trigger] spec_sort_by(s, key)[i]) == i,
{
    broadcast use vstd::seq_lib::group_to_multiset_ensures;

    lemma_sort_by(s, key);
    let t = spec_sort_by(s, key);
    let n = s.len() as int;
    assert(s.no_duplicates()) by {
        assert forall|i: int, j: int| 0 <= i < s.len() && 0 <= j < s.len() && i != j implies s[i] != s[j] by {
            assert(key(s[i]) != key(s[j]));
        }
    }
    s.lemma_multiset_has_no_duplicates();
    t.lemma_multiset_has_no_duplicates_conv();
    assert forall|i: int| 0 <= i < n implies s.contains(#[trigger] t[i]) by {
        assert(t.to_multiset().count(t[i]) > 0);
    }
    assert forall|i: int| 0 <= i < n - 1 implies key(#[trigger] t[i]) < key(t[i + 1]) by {
        assert(key(t[i]) <= key(t[i + 1]));
        assert(t[i] != t[i + 1]);
        assert(s.contains(t[i]) && s.contains(t[i + 1]));
        let a = choose|a: int| 0 <= a < s.len() && s[a] == t[i];
        let b = choose|b: int| 0 <= b < s.len() && s[b] == t[i + 1];
        assert(a != b);
    }
    assert forall|i: int| 0 <= i < n implies key(#[trigger] t[i]) == i by {
        lemma_strict_keys_low(t, key, i);
        lemma_strict_keys_high(t, key, i);
        let a = choose|a: int| 0 <= a < s.len() && s[a] == t[i];
    }
}

/// Keys that strictly increase from a nonnegative first key are at least their position.
proof fn lemma_strict_keys_low<A>(t: Seq<A>, key: spec_fn(A) -> int, i: int)
    requires
        0 <= i < t.len(),
        forall|k: int| 0 <= k < t.len() - 1 ==> key(#[trigger] t[k]) < key(t[k + 1]),
        forall|k: int| 0 <= k < t.len() ==> 0 <= key(#[trigger] t[k]),
    ensures
        key(t[i]) >= i,
    decreases i,
{
    if i > 0 {
        lemma_strict_keys_low(t, key, i - 1);
        assert(key(t[i - 1]) < key(t[i]));
    }
}

/// Keys that strictly increase up to a last key below the count are at most their position.
proof fn lemma_strict_keys_high<A>(t: Seq<A>, key: spec_fn(A) -> int, i: int)
    requires
        0 <= i < t.len(),
        forall|k: int| 0 <= k < t.len() - 1 ==> key(#[trigger] t[k]) < key(t[k + 1]),
        forall|k: int| 0 <= k < t.len() ==> key(#[trigger] t[k]) < t.len(),
    ensures
        key(t[i]) <= i,
    decreases t.len() - i,
{
    if i < t.len() - 1 {
        lemma_strict_keys_high(t, key, i + 1);
        assert(key(t[i]) < key(t[i + 1]));
    }
}

/// Views of the items of `v`.
pub open spec fn spec_views<T: DeepView>(v: Seq<T>) -> Seq<T::V> {
    v.map_values(|t: T| t.deep_view())
}

/// Sort items by id, items with equal ids keeping their order.
pub fn sort_by_id<T: Identified>(items: Vec<T>) -> (r: Vec<T>)
    ensures
        spec_views(r@) == spec_sort_by(spec_views(items@), |v: T::V| T::spec_id(v)),
{
    let ghost key = |v: T::V| T::spec_id(v);
    let ghost all = spec_views(items@);
    let mut input = items;
    let mut out: Vec<T> = Vec::new();
    let ghost mut k: int = 0;
    assert(all.take(0) =~= Seq::<T::V>::empty());
    assert(spec_views(out@) =~= Seq::<T::V>::empty());
    while input.len() > 0
        invariant
            0 <= k <= all.len(),
            key == (|v: T::V| T::spec_id(v)),
            spec_views(input@) == all.skip(k),
            spec_views(out@) == spec_sort_by(all.take(k), key),
        decreases input@.len(),
    {
        let ghost before = spec_views(out@);
        assert(spec_views(input@).len() == input@.len());
        assert(spec_views(out@).len() == out@.len());
        assert(k < all.len());
        assert(input@[0].deep_view() == spec_views(input@)[0]);
        assert(input@[0].deep_view() == all[k]);
        let ghost old_in = input@;
        let x = input.remove(0);
        proof {
            assert(spec_views(old_in).len() == old_in.len());
            assert forall|i: int| 0 <= i < input@.len() implies #[trigger] spec_views(input@)[i] == all.skip(k + 1)[i] by {
                assert(input@[i] == old_in[i + 1]);
                assert(spec_views(old_in)[i + 1] == all.skip(k)[i + 1]);
            }
            assert(spec_views(input@) =~= all.skip(k + 1));
        }
        let xk = x.id_key();
        let mut p = out.len();
        assert(before.take(p as int) =~= before);
        while p > 0 && out[p - 1].id_key() > xk
            invariant
                p <= out@.len(),
                spec_views(out@) == before,
                key == (|v: T::V| T::spec_id(v)),
                xk == T::spec_id(x.deep_view()),
                spec_insert_pos(before, x.deep_view(), key) == spec_insert_pos(before.take(p as int), x.deep_view(), key),
            decreases p,
        {
            proof {
                assert(before.take(p as int).drop_last() =~= before.take(p - 1));
                assert(before.take(p as int).last() == out@[p - 1].deep_view());
            }
            p = p - 1;
        }
        proof {
            if p > 0 {
                assert(before.take(p as int).last() == out@[p - 1].deep_view());
            }
            assert(spec_insert_pos(before.take(p as int), x.deep_view(), key) == p);
            lemma_insert_pos(before, x.deep_view(), key);
        }
        out.insert(p, x);
        proof {
            assert(spec_views(out@) =~= before.insert(p as int, x.deep_view()));
            let t = all.take(k + 1);
            assert(t.drop_last() =~= all.take(k));
            assert(t.last() == all[k]);
            k = k + 1;
        }
    }
    proof {
        assert(all.take(k) =~= all);
    }
    out
}

} // verus!
