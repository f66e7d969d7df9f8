//! Order statistics over offsets.
use vstd::prelude::*;
use vstd::relations::{sorted_by, total_ordering};

verus! {

broadcast use {vstd::seq_lib::group_to_multiset_ensures, vstd::seq_lib::to_multiset_build, vstd::seq_lib::to_multiset_insert};

/// Descending order on offsets.
pub open spec fn descending() -> spec_fn(u64, u64) -> bool {
    |a: u64, b: u64| a >= b
}

/// The offsets of `s` from the largest down.
pub open spec fn sorted_descending(s: Seq<u64>) -> Seq<u64> {
    s.sort_by(descending())
}

/// The `n`-th largest of `s`, counting from zero, if `s` has more than `n` elements.
pub open spec fn nth_largest_spec(s: Seq<u64>, n: nat) -> Option<u64> {
    if n < s.len() {
        Some(sorted_descending(s)[n as int])
    } else {
        None
    }
}

proof fn lemma_descending_total()
    ensures
        total_ordering(descending()),
{
}

/// Sorts offsets from the largest down.
pub fn sort_descending(v: &Vec<u64>) -> (out: Vec<u64>)
    ensures
        out@ == sorted_descending(v@),
{
    let n = v.len();
    let mut out: Vec<u64> = Vec::new();
    let mut i: usize = 0;
    while i < n
        invariant
            n == v@.len(),
            i <= n,
            sorted_by(out@, descending()),
            out@.to_multiset() == v@.subrange(0, i as int).to_multiset(),
        decreases n - i,
    {
        let x = v[i];
        let mut k: usize = 0;
        while k < out.len() && out[k] >= x
            invariant
                k <= out@.len(),
                forall|m: int| 0 <= m < k ==> out@[m] >= x,
            decreases out@.len() - k,
        {
            k = k + 1;
        }
        let ghost before = out@;
        out.insert(k, x);
        assert(out@ == before.insert(k as int, x));
        assert forall|a: int, b: int| 0 <= a < b < out@.len() implies #[trigger] (descending())(
            out@[a],
            out@[b],
        ) by {
            assert(sorted_by(before, descending()));
            if b < k {
                assert((descending())(before[a], before[b]));
            } else if b == k {
            } else if a < k {
                assert((descending())(before[a], before[b - 1]));
            } else if a == k {
                assert(x > before[k as int]);
                assert((descending())(before[k as int], before[b - 1]));
            } else {
                assert((descending())(before[a - 1], before[b - 1]));
            }
        }
        assert(v@.subrange(0, i + 1) == v@.subrange(0, i as int).push(x));
        i = i + 1;
    }
    assert(v@.subrange(0, n as int) == v@);
    proof {
        lemma_descending_total();
        v@.lemma_sort_by_ensures(descending());
        vstd::seq_lib::lemma_sorted_unique(out@, sorted_descending(v@), descending());
    }
    out
}

/// The `n`-th largest offset, counting from zero; `None` if there are not more than `n`.
pub fn nth_largest(v: &Vec<u64>, n: usize) -> (r: Option<u64>)
    ensures
        r == nth_largest_spec(v@, n as nat),
{
    let sorted = sort_descending(v);
    proof {
        lemma_descending_total();
        v@.lemma_sort_by_ensures(descending());
        assert(sorted@.len() == v@.len()) by {
            assert(sorted@.to_multiset().len() == v@.to_multiset().len());
        }
    }
    if n < sorted.len() {
        Some(sorted[n])
    } else {
        None
    }
}

/// "At least `v`".
pub open spec fn at_least(v: u64) -> spec_fn(u64) -> bool {
    |x: u64| x >= v
}

/// "Above `v`".
pub open spec fn above(v: u64) -> spec_fn(u64) -> bool {
    |x: u64| x > v
}

/// A filter keeps all of a sequence every element of which passes it.
proof fn lemma_filter_all(s: Seq<u64>, p: spec_fn(u64) -> bool)
    requires
        forall|i: int| 0 <= i < s.len() ==> p(s[i]),
    ensures
        s.filter(p) == s,
    decreases s.len(),
{
    reveal(Seq::filter);
    if s.len() > 0 {
        lemma_filter_all(s.drop_last(), p);
        assert(s.drop_last().push(s.last()) == s);
    }
}

/// A filter keeps nothing of a sequence no element of which passes it.
proof fn lemma_filter_none(s: Seq<u64>, p: spec_fn(u64) -> bool)
    requires
        forall|i: int| 0 <= i < s.len() ==> !p(s[i]),
    ensures
        s.filter(p).len() == 0,
    decreases s.len(),
{
    reveal(Seq::filter);
    if s.len() > 0 {
        lemma_filter_none(s.drop_last(), p);
    }
}

/// How many elements pass a filter does not depend on their order.
proof fn lemma_filter_len_permutation(a: Seq<u64>, b: Seq<u64>, p: spec_fn(u64) -> bool)
    requires
        a.to_multiset() == b.to_multiset(),
    ensures
        a.filter(p).len() == b.filter(p).len(),
    decreases a.len(),
{
    broadcast use vstd::seq_lib::group_seq_properties;

    reveal(Seq::filter);
    if a.len() == 0 {
        assert(b.to_multiset().len() == 0);
        assert(b.len() == 0);
        assert(b == Seq::<u64>::empty());
    } else {
        let x = a.last();
        let init = a.drop_last();
        assert(a == init.push(x));
        assert(a.to_multiset().count(x) > 0);
        assert(b.contains(x));
        let j = choose|j: int| 0 <= j < b.len() && b[j] == x;
        let rest = b.remove(j);
        vstd::seq_lib::to_multiset_remove(b, j);
        assert(init.to_multiset() =~= a.to_multiset().remove(x));
        lemma_filter_len_permutation(init, rest, p);
        let pre = b.subrange(0, j);
        let post = b.subrange(j + 1, b.len() as int);
        assert(b == pre + seq![x] + post);
        assert(rest == pre + post);
        Seq::filter_distributes_over_add(pre, post, p);
        Seq::filter_distributes_over_add(pre, seq![x], p);
        Seq::filter_distributes_over_add(pre + seq![x], post, p);
        assert(seq![x] == Seq::<u64>::empty().push(x));
        Seq::<u64>::empty().lemma_filter_push(x, p);
        init.lemma_filter_push(x, p);
    }
}

/// The `n`-th largest (from zero) is an element `v` of `s` such that more than `n`
/// elements are at least `v` and at most `n` are above it, whatever their order; there is
/// one exactly when `s` has more than `n` elements.
pub proof fn lemma_nth_largest_rank(s: Seq<u64>, n: nat)
    ensures
        nth_largest_spec(s, n) is Some <==> n < s.len(),
        nth_largest_spec(s, n) matches Some(v) ==> {
            &&& s.contains(v)
            &&& s.filter(at_least(v)).len() >= n + 1
            &&& s.filter(above(v)).len() <= n
        },
{
    lemma_descending_total();
    s.lemma_sort_by_ensures(descending());
    let t = sorted_descending(s);
    assert(t.len() == s.len()) by {
        assert(t.to_multiset().len() == s.to_multiset().len());
    }
    if n < s.len() {
        let v = t[n as int];
        assert(t.contains(v));
        assert(s.contains(v));
        let high = t.subrange(0, (n + 1) as int);
        let low = t.subrange((n + 1) as int, t.len() as int);
        assert(t == high + low);
        assert forall|i: int| 0 <= i < high.len() implies (at_least(v))(high[i]) by {
            if i < n {
                assert((descending())(t[i], t[n as int]));
            }
        }
        lemma_filter_all(high, at_least(v));
        Seq::filter_distributes_over_add(high, low, at_least(v));
        lemma_filter_len_permutation(s, t, at_least(v));
        let top = t.subrange(0, n as int);
        let rest = t.subrange(n as int, t.len() as int);
        assert(t == top + rest);
        assert forall|i: int| 0 <= i < rest.len() implies !(above(v))(rest[i]) by {
            if i > 0 {
                assert((descending())(t[n as int], t[n + i]));
            }
        }
        lemma_filter_none(rest, above(v));
        top.lemma_filter_len(above(v));
        Seq::filter_distributes_over_add(top, rest, above(v));
        lemma_filter_len_permutation(s, t, above(v));
    }
}

} // verus!
