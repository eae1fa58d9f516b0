//! Stable sorting by an integer key, greatest key first.

use vstd::prelude::*;

verus! {

/// A rule that gives each value of a type the key it is sorted by.
pub trait SortBy<T> {
    spec fn key(x: &T) -> int;

    fn key_of(x: &T) -> (r: i128)
        ensures
            r == Self::key(x),
    ;
}

/// No key is greater than one before it.
pub open spec fn is_descending<T, K: SortBy<T>>(s: Seq<T>) -> bool {
    forall|i: int, j: int|
        0 <= i < j < s.len() ==> K::key(&#[trigger] s[i]) >= K::key(&#[trigger] s[j])
}

/// The items with a given key, in the order in which they stand.
pub open spec fn with_key<T, K: SortBy<T>>(s: Seq<T>, key: int) -> Seq<T> {
    s.filter(|x: T| K::key(&x) == key)
}

/// `after` holds the items of `before`, greatest key first, and items with equal
/// keys in the order that they had.
pub open spec fn is_stable_sort<T, K: SortBy<T>>(before: Seq<T>, after: Seq<T>) -> bool {
    &&& is_descending::<T, K>(after)
    &&& before.to_multiset() == after.to_multiset()
    &&& forall|key: int| #[trigger] with_key::<T, K>(before, key) == with_key::<T, K>(after, key)
}

/// How many items of a sorted sequence stay in front of a new last item `x`.
pub open spec fn place<T, K: SortBy<T>>(s: Seq<T>, x: T) -> int
    decreases s.len(),
{
    if s.len() == 0 || K::key(&s.last()) >= K::key(&x) {
        s.len() as int
    } else {
        place::<T, K>(s.drop_last(), x)
    }
}

/// The stable sort of a sequence: each item is put behind those with no smaller key.
pub open spec fn sorted<T, K: SortBy<T>>(s: Seq<T>) -> Seq<T>
    decreases s.len(),
{
    if s.len() == 0 {
        s
    } else {
        let t = sorted::<T, K>(s.drop_last());
        t.insert(place::<T, K>(t, s.last()), s.last())
    }
}

proof fn lemma_place<T, K: SortBy<T>>(s: Seq<T>, x: T)
    requires
        is_descending::<T, K>(s),
    ensures
        0 <= place::<T, K>(s, x) <= s.len(),
        forall|i: int|
            0 <= i < place::<T, K>(s, x) ==> K::key(&#[trigger] s[i]) >= K::key(&x),
        forall|i: int|
            place::<T, K>(s, x) <= i < s.len() ==> K::key(&#[trigger] s[i]) < K::key(&x),
    decreases s.len(),
{
    if s.len() > 0 && K::key(&s.last()) < K::key(&x) {
        let t = s.drop_last();
        assert(is_descending::<T, K>(t));
        lemma_place::<T, K>(t, x);
        assert forall|i: int| 0 <= i < place::<T, K>(s, x) implies K::key(&#[trigger] s[i])
            >= K::key(&x) by {
            assert(t[i] == s[i]);
        }
        assert forall|i: int| place::<T, K>(s, x) <= i < s.len() implies K::key(
            &#[trigger] s[i],
        ) < K::key(&x) by {
            if i < t.len() {
                assert(t[i] == s[i]);
            }
        }
    }
}

proof fn lemma_filter_none<T>(s: Seq<T>, p: spec_fn(T) -> bool)
    requires
        forall|i: int| 0 <= i < s.len() ==> !p(#[trigger] s[i]),
    ensures
        s.filter(p).len() == 0,
    decreases s.len(),
{
    reveal(Seq::filter);
    if s.len() > 0 {
        let t = s.drop_last();
        assert forall|i: int| 0 <= i < t.len() implies !p(#[trigger] t[i]) by {
            assert(t[i] == s[i]);
        }
        lemma_filter_none(t, p);
    }
}

/// Sorting keeps every item, orders by key, and keeps the order of items with equal keys.
pub proof fn lemma_sorted_is_stable_sort<T, K: SortBy<T>>(s: Seq<T>)
    ensures
        is_stable_sort::<T, K>(s, sorted::<T, K>(s)),
        sorted::<T, K>(s).len() == s.len(),
    decreases s.len(),
{
    if s.len() > 0 {
        let before = s.drop_last();
        let x = s.last();
        lemma_sorted_is_stable_sort::<T, K>(before);
        let t = sorted::<T, K>(before);
        lemma_place::<T, K>(t, x);
        let n = place::<T, K>(t, x);
        let after = t.insert(n, x);
        assert(is_descending::<T, K>(after)) by {
            assert forall|i: int, j: int| 0 <= i < j < after.len() implies K::key(
                &#[trigger] after[i],
            ) >= K::key(&#[trigger] after[j]) by {
                if j < n {
                    assert(after[i] == t[i] && after[j] == t[j]);
                } else if j == n {
                    assert(after[i] == t[i]);
                } else if i < n {
                    assert(after[i] == t[i] && after[j] == t[j - 1]);
                } else if i == n {
                    assert(after[j] == t[j - 1]);
                } else {
                    assert(after[i] == t[i - 1] && after[j] == t[j - 1]);
                }
            }
        }
        assert(s.to_multiset() == after.to_multiset()) by {
            broadcast use vstd::seq_lib::group_to_multiset_ensures;

            assert(s =~= before.push(x));
        }
        assert forall|key: int| #[trigger] with_key::<T, K>(s, key) == with_key::<T, K>(
            after,
            key,
        ) by {
            let p = |y: T| K::key(&y) == key;
            let front = t.take(n);
            let back = t.skip(n);
            assert(t =~= front + back);
            assert(after =~= (front + seq![x]) + back);
            assert(s =~= before + seq![x]);
            Seq::filter_distributes_over_add(front, back, p);
            Seq::filter_distributes_over_add(front + seq![x], back, p);
            Seq::filter_distributes_over_add(front, seq![x], p);
            Seq::filter_distributes_over_add(before, seq![x], p);
            assert(with_key::<T, K>(before, key) == with_key::<T, K>(t, key));
            if K::key(&x) == key {
                assert forall|i: int| 0 <= i < back.len() implies !p(#[trigger] back[i]) by {
                    assert(back[i] == t[n + i]);
                }
                lemma_filter_none(back, p);
                assert(back.filter(p) =~= Seq::<T>::empty());
                assert(t.filter(p) =~= front.filter(p));
                assert(after.filter(p) =~= front.filter(p) + seq![x].filter(p));
            } else {
                lemma_filter_none(seq![x], p);
                assert(seq![x].filter(p) =~= Seq::<T>::empty());
                assert(after.filter(p) =~= t.filter(p));
                assert(s.filter(p) =~= before.filter(p));
            }
        }
    } else {
        assert(sorted::<T, K>(s) == s);
    }
}

/// Sorts, greatest key first; items with equal keys keep their order.
pub fn sort_descending<T, K: SortBy<T>>(items: Vec<T>) -> (r: Vec<T>)
    ensures
        r@ == sorted::<T, K>(items@),
{
    let ghost all = items@;
    let mut out: Vec<T> = Vec::new();
    for x in it: items
        invariant
            it.seq() == all,
            out@ == sorted::<T, K>(all.take(it.index() as int)),
    {
        let ghost n = it.index() as int;
        let ghost before = out@;
        let key: i128 = K::key_of(&x);
        let mut at: usize = out.len();
        proof {
            assert(before.take(before.len() as int) =~= before);
        }
        while at > 0 && K::key_of(&out[at - 1]) < key
            invariant
                at <= out@.len(),
                out@ == before,
                key == K::key(&x),
                place::<T, K>(before, x) == place::<T, K>(before.take(at as int), x),
            decreases at,
        {
            proof {
                assert(before.take(at as int).drop_last() =~= before.take(at - 1));
                assert(before.take(at as int).last() == before[at - 1]);
            }
            at = at - 1;
        }
        proof {
            assert(all.take(n + 1).drop_last() =~= all.take(n));
            if at > 0 {
                assert(before.take(at as int).last() == before[at - 1]);
            }
        }
        out.insert(at, x);
    }
    proof {
        assert(all.take(all.len() as int) =~= all);
    }
    out
}

/// Items that `f` tells apart are told apart in any other order.
pub proof fn lemma_same_items_stay_distinct<T>(a: Seq<T>, b: Seq<T>, f: spec_fn(T) -> int)
    requires
        a.to_multiset() == b.to_multiset(),
        forall|i: int, j: int|
            #![trigger a[i], a[j]]
            0 <= i < j < a.len() ==> f(a[i]) != f(a[j]),
    ensures
        forall|i: int, j: int|
            #![trigger b[i], b[j]]
            0 <= i < j < b.len() ==> f(b[i]) != f(b[j]),
{
    assert(a.no_duplicates()) by {
        assert forall|i: int, j: int| 0 <= i < a.len() && 0 <= j < a.len() && i != j implies a[i]
            != a[j] by {
            if i < j {
                assert(f(a[i]) != f(a[j]));
            } else {
                assert(f(a[j]) != f(a[i]));
            }
        }
    }
    a.lemma_multiset_has_no_duplicates();
    b.lemma_multiset_has_no_duplicates_conv();
    assert forall|i: int, j: int|
        #![trigger b[i], b[j]]
        0 <= i < j < b.len() implies f(b[i]) != f(b[j]) by {
        broadcast use vstd::seq_lib::group_to_multiset_ensures;

        assert(b.contains(b[i]) && b.contains(b[j]));
        assert(b.to_multiset().count(b[i]) > 0 && b.to_multiset().count(b[j]) > 0);
        assert(a.contains(b[i]) && a.contains(b[j]));
        let p = choose|p: int| 0 <= p < a.len() && a[p] == b[i];
        let q = choose|q: int| 0 <= q < a.len() && a[q] == b[j];
        if p < q {
            assert(f(a[p]) != f(a[q]));
        } else if q < p {
            assert(f(a[q]) != f(a[p]));
        }
    }
}

/// What is in one list is in any other with the same items.
pub proof fn lemma_same_items<T>(a: Seq<T>, b: Seq<T>, x: T)
    requires
        a.to_multiset() == b.to_multiset(),
        a.contains(x),
    ensures
        b.contains(x),
{
    a.to_multiset_ensures();
    b.to_multiset_ensures();
    assert(a.to_multiset().count(x) > 0);
}

/// A sorted list holds the same items as before, greatest keys first.
pub proof fn lemma_sorted_order<T, K: SortBy<T>>(s: Seq<T>)
    ensures
        sorted::<T, K>(s).len() == s.len(),
        sorted::<T, K>(s).to_multiset() == s.to_multiset(),
        forall|i: int, j: int|
            0 <= i < j < s.len() ==> K::key(&#[trigger] sorted::<T, K>(s)[i]) >= K::key(
                &#[trigger] sorted::<T, K>(s)[j],
            ),
{
    lemma_sorted_is_stable_sort::<T, K>(s);
}

} // verus!
