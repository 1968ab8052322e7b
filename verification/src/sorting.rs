//! A stable sort by an integer key.
use vstd::prelude::*;

verus! {

/// `s`, which is sorted, with `x` behind everything whose key is not larger.
pub open spec fn inserted<T>(s: Seq<T>, x: T, key: spec_fn(T) -> int) -> Seq<T>
    decreases s.len(),
{
    if s.len() == 0 || key(s.last()) <= key(x) {
        s.push(x)
    } else {
        inserted(s.drop_last(), x, key).push(s.last())
    }
}

/// `s` in the order of the keys; items with the same key stay in the order they had.
pub open spec fn stable_sorted<T>(s: Seq<T>, key: spec_fn(T) -> int) -> Seq<T>
    decreases s.len(),
{
    if s.len() == 0 {
        s
    } else {
        inserted(stable_sorted(s.drop_last(), key), s.last(), key)
    }
}

/// The keys never decrease.
pub open spec fn in_order<T>(s: Seq<T>, key: spec_fn(T) -> int) -> bool {
    forall|i: int, j: int| 0 <= i <= j < s.len() ==> key(#[trigger] s[i]) <= key(#[trigger] s[j])
}

/// The items of `s` whose key is `k`, in order.
pub open spec fn with_key<T>(s: Seq<T>, key: spec_fn(T) -> int, k: int) -> Seq<T>
    decreases s.len(),
{
    if s.len() == 0 {
        s
    } else if key(s.last()) == k {
        with_key(s.drop_last(), key, k).push(s.last())
    } else {
        with_key(s.drop_last(), key, k)
    }
}

proof fn lemma_inserted_in_order<T>(s: Seq<T>, x: T, key: spec_fn(T) -> int)
    requires
        in_order(s, key),
    ensures
        in_order(inserted(s, x, key), key),
        inserted(s, x, key).len() == s.len() + 1,
        forall|i: int|
            0 <= i < inserted(s, x, key).len() ==> key(#[trigger] inserted(s, x, key)[i]) == key(x)
                || s.len() > 0 && key(inserted(s, x, key)[i]) <= key(s.last()),
    decreases s.len(),
{
    let r = inserted(s, x, key);
    if s.len() == 0 || key(s.last()) <= key(x) {
        assert forall|i: int, j: int| 0 <= i <= j < r.len() implies key(#[trigger] r[i]) <= key(
            #[trigger] r[j],
        ) by {
            if j == s.len() && i < s.len() {
                assert(key(s[i]) <= key(s[s.len() - 1]));
            }
        }
        assert forall|i: int| 0 <= i < r.len() implies key(#[trigger] r[i]) == key(x) || s.len() > 0
            && key(r[i]) <= key(s.last()) by {
            if i < s.len() {
                assert(key(s[i]) <= key(s[s.len() - 1]));
            }
        }
    } else {
        let shorter = s.drop_last();
        assert forall|i: int, j: int| 0 <= i <= j < shorter.len() implies key(
            #[trigger] shorter[i],
        ) <= key(#[trigger] shorter[j]) by {
            assert(key(s[i]) <= key(s[j]));
        }
        lemma_inserted_in_order(shorter, x, key);
        let q = inserted(shorter, x, key);
        assert forall|i: int| 0 <= i < q.len() implies key(#[trigger] q[i]) <= key(s.last()) by {
            if shorter.len() > 0 {
                assert(key(s[shorter.len() - 1]) <= key(s[s.len() - 1]));
            }
        }
        assert forall|i: int, j: int| 0 <= i <= j < r.len() implies key(#[trigger] r[i]) <= key(
            #[trigger] r[j],
        ) by {
            if j < q.len() {
                assert(key(q[i]) <= key(q[j]));
            } else if i < q.len() {
                assert(r[i] == q[i]);
            }
        }
        assert forall|i: int| 0 <= i < r.len() implies key(#[trigger] r[i]) == key(x) || s.len() > 0
            && key(r[i]) <= key(s.last()) by {
            if i < q.len() {
                assert(r[i] == q[i]);
            }
        }
    }
}

/// The result of a sort is in order and no longer or shorter than what was sorted.
pub proof fn law_sort_is_in_order<T>(s: Seq<T>, key: spec_fn(T) -> int)
    ensures
        in_order(stable_sorted(s, key), key),
        stable_sorted(s, key).len() == s.len(),
    decreases s.len(),
{
    if s.len() > 0 {
        law_sort_is_in_order(s.drop_last(), key);
        lemma_inserted_in_order(stable_sorted(s.drop_last(), key), s.last(), key);
    }
}

proof fn lemma_inserted_multiset<T>(s: Seq<T>, x: T, key: spec_fn(T) -> int)
    ensures
        inserted(s, x, key).to_multiset() == s.to_multiset().insert(x),
    decreases s.len(),
{
    broadcast use vstd::seq_lib::group_to_multiset_ensures;

    if s.len() > 0 && key(s.last()) > key(x) {
        lemma_inserted_multiset(s.drop_last(), x, key);
        assert(s =~= s.drop_last().push(s.last()));
        assert(inserted(s, x, key).to_multiset() =~= s.to_multiset().insert(x));
    }
}

/// A sort loses nothing and makes nothing up.
pub proof fn law_sort_keeps_items<T>(s: Seq<T>, key: spec_fn(T) -> int)
    ensures
        stable_sorted(s, key).to_multiset() == s.to_multiset(),
    decreases s.len(),
{
    broadcast use vstd::seq_lib::group_to_multiset_ensures;

    if s.len() > 0 {
        law_sort_keeps_items(s.drop_last(), key);
        lemma_inserted_multiset(stable_sorted(s.drop_last(), key), s.last(), key);
        assert(s =~= s.drop_last().push(s.last()));
    }
}

proof fn lemma_inserted_with_key<T>(s: Seq<T>, x: T, key: spec_fn(T) -> int, k: int)
    requires
        in_order(s, key),
    ensures
        with_key(inserted(s, x, key), key, k) == if key(x) == k {
            with_key(s, key, k).push(x)
        } else {
            with_key(s, key, k)
        },
    decreases s.len(),
{
    let r = inserted(s, x, key);
    if s.len() == 0 || key(s.last()) <= key(x) {
        assert(r.drop_last() =~= s);
    } else {
        let shorter = s.drop_last();
        assert forall|i: int, j: int| 0 <= i <= j < shorter.len() implies key(
            #[trigger] shorter[i],
        ) <= key(#[trigger] shorter[j]) by {
            assert(key(s[i]) <= key(s[j]));
        }
        lemma_inserted_with_key(shorter, x, key, k);
        assert(r.drop_last() =~= inserted(shorter, x, key));
    }
}

/// A sort is stable: items with the same key come in the order they had.
pub proof fn law_sort_is_stable<T>(s: Seq<T>, key: spec_fn(T) -> int, k: int)
    ensures
        with_key(stable_sorted(s, key), key, k) == with_key(s, key, k),
    decreases s.len(),
{
    if s.len() > 0 {
        law_sort_is_stable(s.drop_last(), key, k);
        law_sort_is_in_order(s.drop_last(), key);
        lemma_inserted_with_key(stable_sorted(s.drop_last(), key), s.last(), key, k);
    }
}

/// The items of pairs of a key and an item.
pub open spec fn second<T>(pairs: Seq<(i128, T)>) -> Seq<T> {
    pairs.map_values(|p: (i128, T)| p.1)
}

/// Every key is the one that `key` gives.
pub open spec fn keyed_by<T>(pairs: Seq<(i128, T)>, key: spec_fn(T) -> int) -> bool {
    forall|i: int| 0 <= i < pairs.len() ==> (#[trigger] pairs[i]).0 == key(pairs[i].1)
}

proof fn lemma_inserted_at<T>(s: Seq<T>, x: T, key: spec_fn(T) -> int, at: int)
    requires
        0 <= at <= s.len(),
        at == 0 || key(s[at - 1]) <= key(x),
        forall|k: int| at <= k < s.len() ==> key(#[trigger] s[k]) > key(x),
    ensures
        inserted(s, x, key) == s.insert(at, x),
    decreases s.len(),
{
    if at == s.len() {
        assert(s.insert(at, x) =~= s.push(x));
    } else {
        let shorter = s.drop_last();
        assert(key(s[s.len() - 1]) > key(x));
        assert forall|k: int| at <= k < shorter.len() implies key(#[trigger] shorter[k]) > key(
            x,
        ) by {
            assert(key(s[k]) > key(x));
        }
        lemma_inserted_at(shorter, x, key, at);
        assert(shorter.insert(at, x).push(s.last()) =~= s.insert(at, x));
    }
}

fn insert_pair<T>(out: &mut Vec<(i128, T)>, pair: (i128, T), Ghost(key): Ghost<spec_fn(T) -> int>)
    requires
        keyed_by(old(out)@, key),
        pair.0 == key(pair.1),
    ensures
        keyed_by(final(out)@, key),
        second(final(out)@) == inserted(second(old(out)@), pair.1, key),
{
    let ghost before = out@;
    let ghost items = second(out@);
    let mut at: usize = out.len();
    while at > 0 && out[at - 1].0 > pair.0
        invariant
            at <= out@.len(),
            out@ == before,
            items == second(before),
            keyed_by(before, key),
            pair.0 == key(pair.1),
            forall|k: int| at <= k < items.len() ==> key(#[trigger] items[k]) > key(pair.1),
        decreases at,
    {
        assert(key(items[at - 1]) > key(pair.1)) by {
            assert(before[at - 1].0 == key(before[at - 1].1));
        }
        at = at - 1;
    }
    proof {
        if at > 0 {
            assert(before[at - 1].0 == key(before[at - 1].1));
            assert(items[at - 1] == before[at - 1].1);
        }
        lemma_inserted_at(items, pair.1, key, at as int);
    }
    out.insert(at, pair);
    proof {
        assert(second(out@) =~= items.insert(at as int, pair.1));
        assert forall|i: int| 0 <= i < out@.len() implies (#[trigger] out@[i]).0 == key(
            out@[i].1,
        ) by {
            if i < at {
                assert(out@[i] == before[i]);
            } else if i > at {
                assert(out@[i] == before[i - 1]);
            }
        }
    }
}

/// Sorts items by the keys that stand beside them.
pub(crate) fn stable_sort<T>(pairs: Vec<(i128, T)>, Ghost(key): Ghost<spec_fn(T) -> int>) -> (r: Vec<T>)
    requires
        keyed_by(pairs@, key),
    ensures
        r@ == stable_sorted(second(pairs@), key),
{
    let ghost items = second(pairs@);
    let mut sorted: Vec<(i128, T)> = Vec::new();
    assert(second(sorted@) =~= stable_sorted(items.take(0), key));
    let ghost all = pairs@;
    for pair in it: pairs
        invariant
            it.seq() == all,
            items == second(all),
            keyed_by(all, key),
            keyed_by(sorted@, key),
            second(sorted@) == stable_sorted(items.take(it.index()), key),
    {
        proof {
            assert(pair == all[it.index()]);
            assert(items.take(it.index() + 1).drop_last() =~= items.take(it.index()));
            assert(items.take(it.index() + 1).last() == pair.1);
        }
        insert_pair(&mut sorted, pair, Ghost(key));
    }
    assert(items.take(items.len() as int) =~= items);
    let ghost pairs_sorted = sorted@;
    let mut out: Vec<T> = Vec::new();
    for pair in it: sorted
        invariant
            it.seq() == pairs_sorted,
            out@ == second(pairs_sorted).take(it.index()),
    {
        out.push(pair.1);
        assert(out@ =~= second(pairs_sorted).take(it.index() + 1));
    }
    assert(out@ =~= second(pairs_sorted));
    out
}

} // verus!
