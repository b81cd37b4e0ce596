//! Sequence vocabulary shared by the tables: the first match, and stable sorting.
use vstd::prelude::*;

verus! {

/// The index of the first element from `from` on that satisfies `p`, or the
/// length where there is none.
pub open spec fn find<T>(s: Seq<T>, p: spec_fn(T) -> bool, from: nat) -> nat
    decreases s.len() - from,
{
    if from >= s.len() {
        s.len()
    } else if p(s[from as int]) {
        from
    } else {
        find(s, p, from + 1)
    }
}

/// The first element that satisfies `p`.
pub open spec fn first<T>(s: Seq<T>, p: spec_fn(T) -> bool) -> Option<T> {
    let i = find(s, p, 0);
    if i < s.len() {
        Some(s[i as int])
    } else {
        None
    }
}

/// The number of elements that satisfy `p`.
pub open spec fn count<T>(s: Seq<T>, p: spec_fn(T) -> bool) -> nat {
    s.filter(p).len()
}

/// Everything before the result of `find` fails `p`; the result satisfies it.
pub proof fn lemma_find<T>(s: Seq<T>, p: spec_fn(T) -> bool, from: nat)
    requires
        from <= s.len(),
    ensures
        from <= find(s, p, from) <= s.len(),
        forall|i: int| from <= i < find(s, p, from) ==> !p(#[trigger] s[i]),
        find(s, p, from) < s.len() ==> p(s[find(s, p, from) as int]),
    decreases s.len() - from,
{
    if from < s.len() && !p(s[from as int]) {
        lemma_find(s, p, from + 1);
    }
}

/// `find` is the only index with the properties of `lemma_find`.
pub proof fn lemma_find_is<T>(s: Seq<T>, p: spec_fn(T) -> bool, k: nat)
    requires
        k <= s.len(),
        forall|i: int| 0 <= i < k ==> !p(#[trigger] s[i]),
        k < s.len() ==> p(s[k as int]),
    ensures
        find(s, p, 0) == k,
{
    lemma_find(s, p, 0);
}

/// Filtering one element more.
pub proof fn lemma_filter_step<T>(s: Seq<T>, p: spec_fn(T) -> bool, i: int)
    requires
        0 <= i < s.len(),
    ensures
        s.take(i + 1).filter(p) == if p(s[i]) {
            s.take(i).filter(p).push(s[i])
        } else {
            s.take(i).filter(p)
        },
{
    reveal(Seq::filter);
    assert(s.take(i + 1).drop_last() =~= s.take(i));
}

/// A filter never grows a sequence.
pub proof fn lemma_filter_len<T>(s: Seq<T>, p: spec_fn(T) -> bool)
    ensures
        s.filter(p).len() <= s.len(),
    decreases s.len(),
{
    reveal(Seq::filter);
    if s.len() > 0 {
        lemma_filter_len(s.drop_last(), p);
    }
}

/// The members of a filtered sequence.
pub proof fn lemma_filter_mem<T>(s: Seq<T>, p: spec_fn(T) -> bool)
    ensures
        forall|i: int|
            0 <= i < s.filter(p).len() ==> p(#[trigger] s.filter(p)[i]) && s.contains(
                s.filter(p)[i],
            ),
        forall|x: T| s.contains(x) && p(x) ==> #[trigger] s.filter(p).contains(x),
    decreases s.len(),
{
    reveal(Seq::filter);
    if s.len() > 0 {
        let d = s.drop_last();
        lemma_filter_mem(d, p);
        assert forall|i: int| 0 <= i < s.filter(p).len() implies p(#[trigger] s.filter(p)[i])
            && s.contains(s.filter(p)[i]) by {
            if i < d.filter(p).len() {
                assert(s.filter(p)[i] == d.filter(p)[i]);
                let k = choose|k: int| 0 <= k < d.len() && d[k] == d.filter(p)[i];
                assert(s[k] == d.filter(p)[i]);
            } else {
                assert(s[s.len() - 1] == s.last());
            }
        }
        assert forall|x: T| s.contains(x) && p(x) implies #[trigger] s.filter(p).contains(x) by {
            let k = choose|k: int| 0 <= k < s.len() && s[k] == x;
            if k < d.len() {
                assert(d[k] == x);
                assert(d.contains(x));
                assert(d.filter(p).contains(x));
                let j = choose|j: int| 0 <= j < d.filter(p).len() && d.filter(p)[j] == x;
                assert(s.filter(p)[j] == x);
            } else {
                assert(s.filter(p)[s.filter(p).len() - 1] == x);
            }
        }
    }
}

/// Nothing satisfies `p` exactly where the filter is empty.
pub proof fn lemma_filter_empty<T>(s: Seq<T>, p: spec_fn(T) -> bool)
    ensures
        (s.filter(p).len() == 0) == (forall|i: int| 0 <= i < s.len() ==> !p(#[trigger] s[i])),
        (s.filter(p).len() == 0) == (find(s, p, 0) == s.len()),
{
    lemma_filter_mem(s, p);
    lemma_find(s, p, 0);
    if s.filter(p).len() == 0 {
        assert forall|i: int| 0 <= i < s.len() implies !p(#[trigger] s[i]) by {
            assert(s.contains(s[i]));
            if p(s[i]) {
                assert(s.filter(p).contains(s[i]));
            }
        }
    } else {
        let x = s.filter(p)[0];
        let k = choose|k: int| 0 <= k < s.len() && s[k] == x;
        assert(p(s[k]));
    }
}

/// Counting is additive: where each element of `a` that satisfies `p` stands
/// against exactly one of `b` satisfying `q` or of `c` satisfying `r`.
pub proof fn lemma_count_split<A, B, C>(
    a: Seq<A>,
    p: spec_fn(A) -> bool,
    b: Seq<B>,
    q: spec_fn(B) -> bool,
    c: Seq<C>,
    r: spec_fn(C) -> bool,
)
    requires
        a.len() == b.len() == c.len(),
        forall|i: int|
            #![trigger a[i]]
            0 <= i < a.len() ==> p(a[i]) == (q(b[i]) || r(c[i])) && !(q(b[i]) && r(c[i])),
    ensures
        count(a, p) == count(b, q) + count(c, r),
    decreases a.len(),
{
    reveal(Seq::filter);
    if a.len() > 0 {
        let (a1, b1, c1) = (a.drop_last(), b.drop_last(), c.drop_last());
        assert forall|i: int| #![trigger a1[i]] 0 <= i < a1.len() implies p(a1[i]) == (q(b1[i])
            || r(c1[i])) && !(q(b1[i]) && r(c1[i])) by {
            assert(a1[i] == a[i] && b1[i] == b[i] && c1[i] == c[i]);
        }
        lemma_count_split(a1, p, b1, q, c1, r);
        let n = a.len() - 1;
        assert(a[n] == a.last() && b[n] == b.last() && c[n] == c.last());
    }
}

/// Exactly one element satisfies `p`.
pub proof fn lemma_count_one<T>(s: Seq<T>, p: spec_fn(T) -> bool, k: int)
    requires
        0 <= k < s.len(),
        p(s[k]),
        forall|i: int| 0 <= i < s.len() && i != k ==> !p(#[trigger] s[i]),
    ensures
        count(s, p) == 1,
    decreases s.len(),
{
    reveal(Seq::filter);
    let d = s.drop_last();
    if k == s.len() - 1 {
        assert forall|i: int| 0 <= i < d.len() implies !p(#[trigger] d[i]) by {
            assert(d[i] == s[i]);
        }
        lemma_filter_empty(d, p);
    } else {
        assert forall|i: int| 0 <= i < d.len() && i != k implies !p(#[trigger] d[i]) by {
            assert(d[i] == s[i]);
        }
        assert(d[k] == s[k]);
        lemma_count_one(d, p, k);
        assert(!p(s[s.len() - 1]));
    }
}

/// Counting in a filtered sequence.
pub proof fn lemma_count_filter<T>(
    s: Seq<T>,
    keep: spec_fn(T) -> bool,
    p: spec_fn(T) -> bool,
    both: spec_fn(T) -> bool,
)
    requires
        forall|x: T| #[trigger] both(x) == (keep(x) && p(x)),
    ensures
        count(s.filter(keep), p) == count(s, both),
    decreases s.len(),
{
    reveal(Seq::filter);
    if s.len() > 0 {
        let d = s.drop_last();
        lemma_count_filter(d, keep, p, both);
        let x = s.last();
        if keep(x) {
            let k = d.filter(keep);
            assert(s.filter(keep) == k.push(x));
            assert(k.push(x).drop_last() =~= k);
            assert(k.push(x).last() == x);
            assert(both(x) == p(x));
        } else {
            assert(!both(x));
        }
    }
}

/// The first element that satisfies `p`, with one more behind.
proof fn lemma_first_push<T>(s: Seq<T>, x: T, p: spec_fn(T) -> bool)
    ensures
        first(s.push(x), p) == (match first(s, p) {
            Some(y) => Some(y),
            None => if p(x) {
                Some(x)
            } else {
                None
            },
        }),
{
    let t = s.push(x);
    let k = find(s, p, 0);
    lemma_find(s, p, 0);
    assert forall|i: int| 0 <= i < k implies !p(#[trigger] t[i]) by {
        assert(t[i] == s[i]);
    }
    if k < s.len() {
        assert(t[k as int] == s[k as int]);
        lemma_find_is(t, p, k);
    } else {
        assert(t[k as int] == x);
        lemma_find_is(
            t,
            p,
            if p(x) {
                k
            } else {
                t.len()
            },
        );
    }
}

/// Taking out others leaves the first element that satisfies `p`.
pub proof fn lemma_first_filter<T>(s: Seq<T>, keep: spec_fn(T) -> bool, p: spec_fn(T) -> bool)
    requires
        forall|x: T| #[trigger] p(x) ==> keep(x),
    ensures
        first(s.filter(keep), p) == first(s, p),
    decreases s.len(),
{
    reveal(Seq::filter);
    if s.len() > 0 {
        let d = s.drop_last();
        lemma_first_filter(d, keep, p);
        assert(d.push(s.last()) =~= s);
        lemma_first_push(d, s.last(), p);
        lemma_first_push(d.filter(keep), s.last(), p);
    }
}

/// Changing others leaves the first element that satisfies `p`.
pub proof fn lemma_first_same<T>(s: Seq<T>, t: Seq<T>, p: spec_fn(T) -> bool)
    requires
        s.len() == t.len(),
        forall|i: int| 0 <= i < s.len() ==> p(#[trigger] s[i]) == p(t[i]),
        forall|i: int| 0 <= i < s.len() && p(#[trigger] s[i]) ==> t[i] == s[i],
    ensures
        first(t, p) == first(s, p),
{
    let k = find(s, p, 0);
    lemma_find(s, p, 0);
    assert forall|i: int| 0 <= i < k implies !p(#[trigger] t[i]) by {
        assert(!p(s[i]));
    }
    if k < s.len() {
        assert(p(s[k as int]));
    }
    lemma_find_is(t, p, k);
}

/// `x` put into `s` before the first element it is less than.
pub open spec fn insert_ordered<T>(s: Seq<T>, x: T, less: spec_fn(T, T) -> bool) -> Seq<T> {
    s.insert(find(s, |y: T| less(x, y), 0) as int, x)
}

/// `s` in the order of `less`; equals stay in the order they had.
pub open spec fn ordered<T>(s: Seq<T>, less: spec_fn(T, T) -> bool) -> Seq<T>
    decreases s.len(),
{
    if s.len() == 0 {
        s
    } else {
        insert_ordered(ordered(s.drop_last(), less), s.last(), less)
    }
}

/// Where `x` is put.
pub proof fn lemma_insert_at<T>(s: Seq<T>, x: T, less: spec_fn(T, T) -> bool, k: nat)
    requires
        k <= s.len(),
        forall|i: int| 0 <= i < k ==> !less(x, #[trigger] s[i]),
        k < s.len() ==> less(x, s[k as int]),
    ensures
        insert_ordered(s, x, less) == s.insert(k as int, x),
{
    lemma_find_is(s, |y: T| less(x, y), k);
}

/// Sorting one element more.
pub proof fn lemma_ordered_push<T>(s: Seq<T>, x: T, less: spec_fn(T, T) -> bool)
    ensures
        ordered(s.push(x), less) == insert_ordered(ordered(s, less), x, less),
        ordered(Seq::<T>::empty(), less) == Seq::<T>::empty(),
{
    assert(s.push(x).drop_last() =~= s);
}

/// `less` orders: nothing is less than itself, and it is transitive together with
/// its complement.
pub open spec fn orders<T>(less: spec_fn(T, T) -> bool) -> bool {
    &&& forall|a: T| !(#[trigger] less(a, a))
    &&& forall|a: T, b: T, c: T|
        #![trigger less(a, b), less(b, c)]
        less(a, b) && less(b, c) ==> less(a, c)
    &&& forall|a: T, b: T, c: T|
        #![trigger less(a, b), less(b, c)]
        !less(a, b) && !less(b, c) ==> !less(a, c)
}

/// No element is less than one before it.
pub open spec fn in_order<T>(s: Seq<T>, less: spec_fn(T, T) -> bool) -> bool {
    forall|i: int, j: int| 0 <= i < j < s.len() ==> !less(#[trigger] s[j], #[trigger] s[i])
}

/// Sorting keeps the elements.
pub proof fn lemma_ordered_members<T>(s: Seq<T>, less: spec_fn(T, T) -> bool)
    ensures
        ordered(s, less).len() == s.len(),
        forall|i: int| 0 <= i < s.len() ==> s.contains(#[trigger] ordered(s, less)[i]),
    decreases s.len(),
{
    if s.len() > 0 {
        let d = s.drop_last();
        let x = s.last();
        lemma_ordered_members(d, less);
        let o = ordered(d, less);
        let p = |y: T| less(x, y);
        let k = find(o, p, 0) as int;
        lemma_find(o, p, 0);
        let r = ordered(s, less);
        assert forall|i: int| 0 <= i < s.len() implies s.contains(#[trigger] r[i]) by {
            if i == k {
                assert(s[s.len() - 1] == x);
            } else {
                let y = if i < k {
                    o[i]
                } else {
                    o[i - 1]
                };
                assert(r[i] == y);
                assert(d.contains(y));
                let j = choose|j: int| 0 <= j < d.len() && d[j] == y;
                assert(s[j] == y);
            }
        }
    }
}

/// Sorting keeps the elements and puts them in order.
pub proof fn lemma_ordered<T>(s: Seq<T>, less: spec_fn(T, T) -> bool)
    requires
        orders(less),
    ensures
        ordered(s, less).to_multiset() == s.to_multiset(),
        ordered(s, less).len() == s.len(),
        in_order(ordered(s, less), less),
    decreases s.len(),
{
    broadcast use vstd::seq_lib::group_to_multiset_ensures;

    if s.len() > 0 {
        let d = s.drop_last();
        let x = s.last();
        lemma_ordered(d, less);
        let o = ordered(d, less);
        let p = |y: T| less(x, y);
        let k = find(o, p, 0) as int;
        lemma_find(o, p, 0);
        let r = o.insert(k, x);
        assert(s =~= d.push(x));
        assert(r =~= (o.take(k).push(x)) + o.skip(k));
        vstd::seq_lib::lemma_multiset_commutative(o.take(k).push(x), o.skip(k));
        vstd::seq_lib::lemma_multiset_commutative(o.take(k), o.skip(k));
        assert(o =~= o.take(k) + o.skip(k));
        assert(r.to_multiset() =~= o.to_multiset().insert(x));
        assert forall|i: int, j: int| 0 <= i < j < r.len() implies !less(
            #[trigger] r[j],
            #[trigger] r[i],
        ) by {
            if j < k {
                assert(r[j] == o[j] && r[i] == o[i]);
            } else if j == k {
                assert(r[i] == o[i]);
                assert(!p(o[i]));
                // a later element is not less than an earlier one
                assert(!less(x, o[i]));
            } else if i < k {
                assert(r[j] == o[j - 1] && r[i] == o[i]);
            } else if i == k {
                assert(r[j] == o[j - 1]);
                assert(p(o[k]));
                assert(less(x, o[k]));
                if j - 1 > k {
                    assert(!less(o[j - 1], o[k]));
                }
                // x < o[k] <= o[j - 1]
                if less(o[j - 1], x) {
                    assert(less(o[j - 1], o[k]));
                }
            } else {
                assert(r[j] == o[j - 1] && r[i] == o[i - 1]);
            }
        }
    } else {
        assert(ordered(s, less) =~= s);
    }
}

/// What is in order stays as it is.
pub proof fn lemma_ordered_already<T>(s: Seq<T>, less: spec_fn(T, T) -> bool)
    requires
        in_order(s, less),
    ensures
        ordered(s, less) == s,
    decreases s.len(),
{
    if s.len() > 0 {
        let d = s.drop_last();
        assert(in_order(d, less)) by {
            assert forall|i: int, j: int| 0 <= i < j < d.len() implies !less(
                #[trigger] d[j],
                #[trigger] d[i],
            ) by {
                assert(d[i] == s[i] && d[j] == s[j]);
            }
        }
        lemma_ordered_already(d, less);
        let n = s.len() - 1;
        assert forall|i: int| 0 <= i < n implies !less(s.last(), #[trigger] d[i]) by {
            assert(d[i] == s[i]);
            assert(!less(s[n], s[i]));
        }
        lemma_insert_at(d, s.last(), less, n as nat);
        assert(d.insert(n, s.last()) =~= s);
    }
}

} // verus!
