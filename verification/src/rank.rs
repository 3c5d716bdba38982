//! Stable ordering by a numeric rank, most-preferred first.
//!
//! Both the pre-download ordering of declared icon candidates and the final
//! ranking of downloaded icons sort by a composite key in descending order
//! while keeping candidates with equal keys in their original order.

use vstd::prelude::*;

verus! {

/// A value ordered by a single integer rank; higher ranks come first.
pub trait Ranked {
    spec fn rank(&self) -> int;

    fn rank_value(&self) -> (r: u128)
        ensures
            r == self.rank(),
    ;
}

pub open spec fn sorted_desc<T: Ranked>(s: Seq<T>) -> bool {
    forall|i: int, j: int| 0 <= i < j < s.len() ==> s[i].rank() >= s[j].rank()
}

pub open spec fn rank_is<T: Ranked>(k: int) -> spec_fn(T) -> bool {
    |x: T| x.rank() == k
}

/// The elements of `s` whose rank is `k`, in order.
pub open spec fn with_rank<T: Ranked>(s: Seq<T>, k: int) -> Seq<T> {
    s.filter(rank_is::<T>(k))
}

/// `s` is a stable descending sort of `t`: ordered by rank, and for every rank
/// the elements carrying it appear in their original order.
pub open spec fn stable_sort_of<T: Ranked>(s: Seq<T>, t: Seq<T>) -> bool {
    &&& sorted_desc(s)
    &&& forall|k: int| #[trigger] with_rank(s, k) == with_rank(t, k)
}

/// First position in `s` whose rank is below `k` (or `s.len()`).
pub open spec fn insertion_point<T: Ranked>(s: Seq<T>, k: int, from: int) -> int
    decreases s.len() - from,
{
    if from < 0 || from >= s.len() {
        from
    } else if s[from].rank() < k {
        from
    } else {
        insertion_point(s, k, from + 1)
    }
}

proof fn lemma_filter_all_fail<T: Ranked>(s: Seq<T>, k: int)
    requires
        forall|i: int| 0 <= i < s.len() ==> s[i].rank() != k,
    ensures
        with_rank(s, k) =~= Seq::<T>::empty(),
    decreases s.len(),
{
    reveal(Seq::filter);
    if s.len() > 0 {
        lemma_filter_all_fail(s.drop_last(), k);
    }
}

proof fn lemma_insert_keeps_ranks<T: Ranked>(a: Seq<T>, x: T, p: int, k: int)
    requires
        sorted_desc(a),
        0 <= p <= a.len(),
        forall|i: int| 0 <= i < p ==> a[i].rank() >= x.rank(),
        forall|i: int| p <= i < a.len() ==> a[i].rank() < x.rank(),
    ensures
        with_rank(a.insert(p, x), k) == if x.rank() == k {
            with_rank(a, k).push(x)
        } else {
            with_rank(a, k)
        },
{
    let pre = a.subrange(0, p);
    let post = a.subrange(p, a.len() as int);
    let pred = rank_is::<T>(k);
    assert(a =~= pre + post);
    assert(a.insert(p, x) =~= pre.push(x) + post);
    Seq::filter_distributes_over_add(pre, post, pred);
    Seq::filter_distributes_over_add(pre.push(x), post, pred);
    pre.lemma_filter_push(x, pred);
    if x.rank() == k {
        lemma_filter_all_fail(post, k);
        assert(with_rank(a, k) =~= with_rank(pre, k));
    }
}

/// Stable descending sort by rank (insertion sort).
pub fn stable_sort_by_rank_desc<T: Ranked>(v: &mut Vec<T>)
    ensures
        stable_sort_of(final(v)@, old(v)@),
        final(v)@.len() == old(v)@.len(),
{
    let ghost input = v@;
    let mut rest: Vec<T> = Vec::new();
    std::mem::swap(v, &mut rest);
    let mut out: Vec<T> = Vec::new();
    let ghost mut done: int = 0;
    assert(input.take(0) =~= Seq::<T>::empty());
    while rest.len() > 0
        invariant
            0 <= done <= input.len(),
            rest@ == input.skip(done),
            out@.len() == done,
            sorted_desc(out@),
            forall|k: int| #[trigger] with_rank(out@, k) == with_rank(input.take(done), k),
        decreases rest.len(),
    {
        let x = rest.remove(0);
        assert(x == input[done]);
        let kx = x.rank_value();
        let mut p: usize = 0;
        while p < out.len() && out[p].rank_value() >= kx
            invariant
                p <= out@.len(),
                forall|i: int| 0 <= i < p ==> out@[i].rank() >= x.rank(),
                kx == x.rank(),
            decreases out.len() - p,
        {
            p = p + 1;
        }
        let ghost before = out@;
        proof {
            assert forall|i: int| p <= i < before.len() implies before[i].rank() < x.rank() by {
                assert(before[p as int].rank() < x.rank());
                if i > p {
                    assert(before[p as int].rank() >= before[i].rank());
                }
            }
            assert forall|k: int| #[trigger]
                with_rank(before.insert(p as int, x), k) == with_rank(input.take(done + 1), k) by {
                lemma_insert_keeps_ranks(before, x, p as int, k);
                assert(input.take(done + 1) =~= input.take(done).push(input[done]));
                input.take(done).lemma_filter_push(input[done], rank_is::<T>(k));
            }
        }
        out.insert(p, x);
        proof {
            assert(input.skip(done).drop_first() =~= input.skip(done + 1));
            done = done + 1;
            assert forall|i: int, j: int| 0 <= i < j < out@.len() implies out@[i].rank()
                >= out@[j].rank() by {
                if j < p {
                } else if j == p {
                } else if i < p {
                    assert(out@[j] == before[j - 1]);
                } else if i == p {
                    assert(out@[j] == before[j - 1]);
                } else {
                    assert(out@[j] == before[j - 1]);
                    assert(out@[i] == before[i - 1]);
                }
            }
        }
    }
    assert(input.take(done) =~= input);
    *v = out;
}

} // verus!
