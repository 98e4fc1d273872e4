use vstd::prelude::*;

use crate::bitmap::{count_set, lemma_count_take_step};

verus! {

/// The items of `s` at the positions `i` where `m[i]` is set, in their order.
pub open spec fn select<A>(s: Seq<A>, m: Seq<bool>) -> Seq<A>
    decreases s.len(),
{
    if s.len() == 0 {
        Seq::empty()
    } else {
        let n = s.len() - 1;
        let rest = select(s.take(n), m);
        if m[n] {
            rest.push(s[n])
        } else {
            rest
        }
    }
}

/// The position, among the first `n` items of `m`, of the set item that has `j` set
/// items before it.
pub open spec fn nth_set(m: Seq<bool>, n: int, j: int) -> int
    decreases n,
{
    if n <= 0 {
        0
    } else if m[n - 1] && count_set(m.take(n - 1)) == j {
        n - 1
    } else {
        nth_set(m, n - 1, j)
    }
}

/// Selecting keeps one item per set position: item `j` of the selection is the item
/// of `s` at the `j`-th set position of `m`.
pub proof fn lemma_select_index<A>(s: Seq<A>, m: Seq<bool>)
    requires
        s.len() <= m.len(),
    ensures
        select(s, m).len() == count_set(m.take(s.len() as int)),
        forall|j: int|
            0 <= j < select(s, m).len() ==> {
                let p = #[trigger] nth_set(m, s.len() as int, j);
                &&& 0 <= p < s.len()
                &&& m[p]
                &&& select(s, m)[j] == s[p]
            },
    decreases s.len(),
{
    if s.len() > 0 {
        let n = s.len() - 1;
        lemma_select_index(s.take(n), m);
        lemma_count_take_step(m, n);
        assert(s.take(n).len() == n);
        let rest = select(s.take(n), m);
        assert forall|j: int| 0 <= j < select(s, m).len() implies {
            let p = #[trigger] nth_set(m, s.len() as int, j);
            &&& 0 <= p < s.len()
            &&& m[p]
            &&& select(s, m)[j] == s[p]
        } by {
            if m[n] && j == count_set(m.take(n)) {
                assert(nth_set(m, s.len() as int, j) == n);
            } else {
                assert(nth_set(m, s.len() as int, j) == nth_set(m, n, j));
                assert(j < rest.len());
                let p = nth_set(m, n, j);
                assert(s.take(n)[p] == s[p]);
            }
        }
    } else {
        assert(m.take(0) =~= Seq::<bool>::empty());
    }
}

/// A sequence that holds, at each index `j`, the item of `s` at the `j`-th set position
/// of `m`, and no more, is the selection.
pub proof fn lemma_select_pointwise<A>(s: Seq<A>, m: Seq<bool>, a: Seq<A>)
    requires
        s.len() <= m.len(),
        a.len() == count_set(m.take(s.len() as int)),
        forall|j: int| 0 <= j < a.len() ==> a[j] == s[#[trigger] nth_set(m, s.len() as int, j)],
    ensures
        a == select(s, m),
{
    lemma_select_index(s, m);
    assert forall|j: int| 0 <= j < a.len() implies a[j] == select(s, m)[j] by {
        let p = nth_set(m, s.len() as int, j);
    }
    assert(a =~= select(s, m));
}

/// Selecting with a mask whose first `s.len()` items are all set keeps `s` whole.
pub proof fn lemma_select_all<A>(s: Seq<A>, m: Seq<bool>)
    requires
        s.len() <= m.len(),
        forall|i: int| 0 <= i < s.len() ==> m[i],
    ensures
        select(s, m) == s,
    decreases s.len(),
{
    if s.len() > 0 {
        let n = s.len() - 1;
        lemma_select_all(s.take(n), m);
        assert(s.take(n).push(s[n]) =~= s);
    } else {
        assert(s =~= Seq::<A>::empty());
    }
}

/// Selecting from one more item of `s` appends it when `m` selects it.
pub proof fn lemma_select_step<A>(s: Seq<A>, m: Seq<bool>, i: int)
    requires
        0 <= i < s.len(),
    ensures
        select(s.take(i + 1), m) == if m[i] {
            select(s.take(i), m).push(s[i])
        } else {
            select(s.take(i), m)
        },
{
    assert(s.take(i + 1).take(i) =~= s.take(i));
}

/// Over a run of unselected positions `a .. b`, the selection does not grow.
pub proof fn lemma_select_skip<A>(s: Seq<A>, m: Seq<bool>, a: int, b: int)
    requires
        0 <= a <= b <= s.len(),
        forall|i: int| a <= i < b ==> !m[i],
    ensures
        select(s.take(b), m) == select(s.take(a), m),
    decreases b - a,
{
    if a < b {
        lemma_select_skip(s, m, a, b - 1);
        lemma_select_step(s, m, b - 1);
    }
}

/// Over a run of selected positions `a .. b`, the selection grows by the run.
pub proof fn lemma_select_run<A>(s: Seq<A>, m: Seq<bool>, a: int, b: int)
    requires
        0 <= a <= b <= s.len(),
        forall|i: int| a <= i < b ==> m[i],
    ensures
        select(s.take(b), m) == select(s.take(a), m) + s.subrange(a, b),
    decreases b - a,
{
    if a < b {
        lemma_select_run(s, m, a, b - 1);
        lemma_select_step(s, m, b - 1);
        assert(s.subrange(a, b) =~= s.subrange(a, b - 1).push(s[b - 1]));
        assert(select(s.take(a), m) + s.subrange(a, b) =~= (select(s.take(a), m) + s.subrange(
            a,
            b - 1,
        )).push(s[b - 1]));
    } else {
        assert(select(s.take(a), m) + s.subrange(a, b) =~= select(s.take(a), m));
    }
}

/// A selection is no longer than what it selects from.
pub proof fn lemma_select_len<A>(s: Seq<A>, m: Seq<bool>)
    ensures
        select(s, m).len() <= s.len(),
    decreases s.len(),
{
    if s.len() > 0 {
        lemma_select_len(s.take(s.len() - 1), m);
    }
}

} // verus!
