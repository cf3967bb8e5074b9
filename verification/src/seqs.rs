//! Sequences: whether an element meets a predicate, which one is the first
//! to meet it, and how many do.

use vstd::prelude::*;

verus! {

/// Some element of `s` meets `p`.
pub open spec fn any<A>(s: Seq<A>, p: spec_fn(A) -> bool) -> bool {
    exists|i: int| 0 <= i < s.len() && p(#[trigger] s[i])
}

/// The element at place `k` is the first of `s` that meets `p`.
pub open spec fn is_first<A>(s: Seq<A>, p: spec_fn(A) -> bool, k: int) -> bool {
    &&& 0 <= k < s.len()
    &&& p(s[k])
    &&& forall|j: int| 0 <= j < k ==> !p(#[trigger] s[j])
}

/// The place of the first element of `s` that meets `p`.
pub open spec fn first_place<A>(s: Seq<A>, p: spec_fn(A) -> bool) -> int {
    choose|k: int| is_first(s, p, k)
}

/// The first element of `s` that meets `p`.
pub open spec fn first<A>(s: Seq<A>, p: spec_fn(A) -> bool) -> A {
    s[first_place(s, p)]
}

/// Where an element meets `p`, one is the first to do so.
pub proof fn lemma_first_exists<A>(s: Seq<A>, p: spec_fn(A) -> bool, i: int)
    requires
        0 <= i < s.len(),
        p(s[i]),
    ensures
        exists|k: int| 0 <= k <= i && is_first(s, p, k),
    decreases i,
{
    if exists|j: int| 0 <= j < i && p(#[trigger] s[j]) {
        let j = choose|j: int| 0 <= j < i && p(#[trigger] s[j]);
        lemma_first_exists(s, p, j);
    } else {
        assert(is_first(s, p, i));
    }
}

/// The first element that meets `p` is the one at the place that is first.
pub proof fn lemma_first_at<A>(s: Seq<A>, p: spec_fn(A) -> bool, k: int)
    requires
        is_first(s, p, k),
    ensures
        first_place(s, p) == k,
        first(s, p) == s[k],
{
    let c = choose|c: int| is_first(s, p, c);
    assert(is_first(s, p, c));
    if c < k {
        assert(!p(s[c]));
    } else if k < c {
        assert(!p(s[k]));
    }
}

/// One more element meets `p` or an earlier one does.
pub proof fn lemma_any_push<A>(s: Seq<A>, p: spec_fn(A) -> bool, x: A)
    ensures
        any(s.push(x), p) == (any(s, p) || p(x)),
{
    let t = s.push(x);
    if any(s, p) {
        let i = choose|i: int| 0 <= i < s.len() && p(#[trigger] s[i]);
        assert(p(t[i]));
    }
    if p(x) {
        assert(p(t[s.len() as int]));
    }
    if any(t, p) {
        let i = choose|i: int| 0 <= i < t.len() && p(#[trigger] t[i]);
        if i < s.len() {
            assert(p(s[i]));
        }
    }
}

/// One more element at the end is the first that meets `p` only where no
/// earlier one does.
pub proof fn lemma_first_push<A>(s: Seq<A>, p: spec_fn(A) -> bool, x: A)
    ensures
        any(s, p) ==> first(s.push(x), p) == first(s, p),
        !any(s, p) && p(x) ==> first(s.push(x), p) == x,
{
    let t = s.push(x);
    if any(s, p) {
        let i = choose|i: int| 0 <= i < s.len() && p(#[trigger] s[i]);
        lemma_first_exists(s, p, i);
        let k = choose|k: int| 0 <= k <= i && is_first(s, p, k);
        lemma_first_at(s, p, k);
        assert(is_first(t, p, k)) by {
            assert(t[k] == s[k]);
            assert forall|j: int| 0 <= j < k implies !p(#[trigger] t[j]) by {
                assert(t[j] == s[j]);
            }
        }
        lemma_first_at(t, p, k);
    } else if p(x) {
        let n = s.len() as int;
        assert(is_first(t, p, n)) by {
            assert forall|j: int| 0 <= j < n implies !p(#[trigger] t[j]) by {
                assert(t[j] == s[j]);
            }
        }
        lemma_first_at(t, p, n);
    }
}

/// Where no element meets `p`, filtering by `p` leaves nothing.
pub proof fn lemma_none_filtered<A>(s: Seq<A>, p: spec_fn(A) -> bool)
    requires
        forall|i: int| 0 <= i < s.len() ==> !p(#[trigger] s[i]),
    ensures
        s.filter(p).len() == 0,
    decreases s.len(),
{
    reveal(Seq::filter);
    if s.len() > 0 {
        assert(!p(s[s.len() - 1]));
        lemma_none_filtered(s.drop_last(), p);
    }
}

/// Where every element meets `p`, filtering by `p` leaves them all.
pub proof fn lemma_all_filtered<A>(s: Seq<A>, p: spec_fn(A) -> bool)
    requires
        forall|i: int| 0 <= i < s.len() ==> p(#[trigger] s[i]),
    ensures
        s.filter(p) == s,
    decreases s.len(),
{
    reveal(Seq::filter);
    if s.len() > 0 {
        assert(p(s[s.len() - 1]));
        lemma_all_filtered(s.drop_last(), p);
        assert(s.drop_last().push(s.last()) == s);
    }
}

/// What one more element adds to the filtered start of a sequence.
pub proof fn lemma_filter_step<A>(s: Seq<A>, pred: spec_fn(A) -> bool, i: int)
    requires
        0 <= i < s.len(),
    ensures
        s.take(i + 1).filter(pred) == if pred(s[i]) {
            s.take(i).filter(pred).push(s[i])
        } else {
            s.take(i).filter(pred)
        },
{
    s.lemma_take_succ_push(i);
    s.take(i).lemma_filter_push(s[i], pred);
}

/// What meets `p` in a sequence meets it in every rearrangement.
pub proof fn lemma_any_rearranged<A>(a: Seq<A>, b: Seq<A>, p: spec_fn(A) -> bool)
    requires
        a.to_multiset() == b.to_multiset(),
        any(a, p),
    ensures
        any(b, p),
{
    let i = choose|i: int| 0 <= i < a.len() && p(#[trigger] a[i]);
    a.to_multiset_ensures();
    b.to_multiset_ensures();
    assert(a.contains(a[i]));
    assert(a.to_multiset().count(a[i]) > 0);
    assert(b.contains(a[i]));
    let j = choose|j: int| 0 <= j < b.len() && b[j] == a[i];
    assert(p(b[j]));
}

/// To take out an element that does not meet `p` changes nothing about
/// whether some element meets it.
pub proof fn lemma_any_remove<A>(s: Seq<A>, p: spec_fn(A) -> bool, i: int)
    requires
        0 <= i < s.len(),
        !p(s[i]),
    ensures
        any(s.remove(i), p) == any(s, p),
{
    let t = s.remove(i);
    if any(s, p) {
        let k = choose|k: int| 0 <= k < s.len() && p(#[trigger] s[k]);
        if k < i {
            assert(p(t[k]));
        } else {
            assert(p(t[k - 1]));
        }
    }
    if any(t, p) {
        let k = choose|k: int| 0 <= k < t.len() && p(#[trigger] t[k]);
        if k < i {
            assert(p(s[k]));
        } else {
            assert(p(s[k + 1]));
        }
    }
}

/// To take out an element that does not meet `p` leaves the first that
/// meets it the first.
pub proof fn lemma_first_remove<A>(s: Seq<A>, p: spec_fn(A) -> bool, i: int)
    requires
        0 <= i < s.len(),
        !p(s[i]),
        any(s, p),
    ensures
        first(s.remove(i), p) == first(s, p),
{
    let t = s.remove(i);
    let some = choose|k: int| 0 <= k < s.len() && p(#[trigger] s[k]);
    lemma_first_exists(s, p, some);
    let k = choose|k: int| 0 <= k <= some && is_first(s, p, k);
    lemma_first_at(s, p, k);
    let m = if k < i {
        k
    } else {
        k - 1
    };
    assert(is_first(t, p, m)) by {
        assert(t[m] == s[k]);
        assert forall|j: int| 0 <= j < m implies !p(#[trigger] t[j]) by {
            if j < i {
                assert(t[j] == s[j]);
            } else {
                assert(t[j] == s[j + 1]);
            }
        }
    }
    lemma_first_at(t, p, m);
}

/// To take out an element lowers the number of those that meet `p` by one
/// where it meets `p`, and else leaves it.
pub proof fn lemma_filter_remove<A>(s: Seq<A>, p: spec_fn(A) -> bool, i: int)
    requires
        0 <= i < s.len(),
    ensures
        s.filter(p).len() == s.remove(i).filter(p).len() + if p(s[i]) {
            1nat
        } else {
            0nat
        },
{
    let head = s.take(i);
    let tail = s.skip(i + 1);
    assert(s =~= head.push(s[i]) + tail);
    assert(s.remove(i) =~= head + tail);
    Seq::filter_distributes_over_add(head.push(s[i]), tail, p);
    Seq::filter_distributes_over_add(head, tail, p);
    head.lemma_filter_len_push(p, s[i]);
}

} // verus!
