use vstd::prelude::*;

verus! {

/// The first `Some` among `s[i..]`, or `None` when there is none.
pub open spec fn first_some_from<T>(s: Seq<Option<T>>, i: int) -> Option<T>
    decreases s.len() - i,
{
    if i < 0 || i >= s.len() {
        None
    } else if s[i] is Some {
        s[i]
    } else {
        first_some_from(s, i + 1)
    }
}

/// The first `Some` of `s` (what `find_map` returns).
pub open spec fn first_some<T>(s: Seq<Option<T>>) -> Option<T> {
    first_some_from(s, 0)
}

/// The first index `k >= i` with `p(s[k])`, or `s.len()` when there is none.
pub open spec fn first_index_from<T>(s: Seq<T>, p: spec_fn(T) -> bool, i: int) -> int
    decreases s.len() - i,
{
    if i < 0 || i >= s.len() {
        s.len() as int
    } else if p(s[i]) {
        i
    } else {
        first_index_from(s, p, i + 1)
    }
}

/// The first index with `p`, or `s.len()` when there is none.
pub open spec fn first_index<T>(s: Seq<T>, p: spec_fn(T) -> bool) -> int {
    first_index_from(s, p, 0)
}

/// The elements `s[k]` with `k < n` and `keep(k)`, in order.
pub open spec fn select<T>(s: Seq<T>, keep: spec_fn(int) -> bool, n: int) -> Seq<T>
    decreases n,
{
    if n <= 0 {
        Seq::empty()
    } else if keep(n - 1) {
        select(s, keep, n - 1).push(s[n - 1])
    } else {
        select(s, keep, n - 1)
    }
}

/// The elements `s[k]` with `keep(k)`, in order.
pub open spec fn select_all<T>(s: Seq<T>, keep: spec_fn(int) -> bool) -> Seq<T> {
    select(s, keep, s.len() as int)
}

/// How many of `s[..n]` are `Some`.
pub open spec fn count_some<T>(s: Seq<Option<T>>, n: int) -> nat
    decreases n,
{
    if n <= 0 {
        0
    } else if s[n - 1] is Some {
        count_some(s, n - 1) + 1
    } else {
        count_some(s, n - 1)
    }
}

/// The first index with `p` lies in bounds exactly when some element has `p`,
/// and no earlier element has it.
pub proof fn lemma_first_index_from<T>(s: Seq<T>, p: spec_fn(T) -> bool, i: int)
    requires
        0 <= i <= s.len(),
    ensures
        i <= first_index_from(s, p, i) <= s.len(),
        forall|k: int| i <= k < first_index_from(s, p, i) ==> !p(#[trigger] s[k]),
        first_index_from(s, p, i) < s.len() ==> p(s[first_index_from(s, p, i)]),
    decreases s.len() - i,
{
    if i < s.len() && !p(s[i]) {
        lemma_first_index_from(s, p, i + 1);
    }
}

/// Characterizes the first index from `i`: `k` is it when no element of
/// `s[i..k]` has `p` and `s[k]` has `p` (or `k` is the length).
pub proof fn lemma_first_index_is<T>(s: Seq<T>, p: spec_fn(T) -> bool, i: int, k: int)
    requires
        0 <= i <= k <= s.len(),
        forall|m: int| i <= m < k ==> !p(#[trigger] s[m]),
        k < s.len() ==> p(s[k]),
    ensures
        first_index_from(s, p, i) == k,
    decreases k - i,
{
    if i < k {
        lemma_first_index_is(s, p, i + 1, k);
    }
}

/// `select` keeps no more than it is given and only elements of the input.
pub proof fn lemma_select_len<T>(s: Seq<T>, keep: spec_fn(int) -> bool, n: int)
    requires
        0 <= n <= s.len(),
    ensures
        select(s, keep, n).len() <= n,
    decreases n,
{
    if n > 0 {
        lemma_select_len(s, keep, n - 1);
    }
}


/// Every selected element satisfies `p` when every element the selection may
/// take does.
pub proof fn lemma_select_all_satisfy<T>(s: Seq<T>, keep: spec_fn(int) -> bool, n: int, p: spec_fn(T) -> bool)
    requires
        0 <= n <= s.len(),
        forall|k: int| 0 <= k < n && keep(k) ==> p(#[trigger] s[k]),
    ensures
        forall|i: int| 0 <= i < select(s, keep, n).len() ==> p(#[trigger] select(s, keep, n)[i]),
    decreases n,
{
    if n > 0 {
        lemma_select_all_satisfy(s, keep, n - 1, p);
        let prev = select(s, keep, n - 1);
        let cur = select(s, keep, n);
        assert forall|i: int| 0 <= i < cur.len() implies p(#[trigger] cur[i]) by {
            if i < prev.len() {
                assert(cur[i] == prev[i]);
            }
        }
    } else {
        assert(select(s, keep, n).len() == 0);
    }
}

/// Each selected element is an element `s[k]` with `k < n` and `keep(k)`;
/// returns that `k`.
pub proof fn lemma_select_source<T>(s: Seq<T>, keep: spec_fn(int) -> bool, n: int, i: int) -> (k: int)
    requires
        0 <= n <= s.len(),
        0 <= i < select(s, keep, n).len(),
    ensures
        0 <= k < n,
        keep(k),
        s[k] == select(s, keep, n)[i],
    decreases n,
{
    let prev = select(s, keep, n - 1);
    if keep(n - 1) && i == prev.len() {
        n - 1
    } else {
        lemma_select_len(s, keep, n - 1);
        lemma_select_source(s, keep, n - 1, i)
    }
}

/// Two selected elements keep their order: they come from `s[ka]` and `s[kb]`
/// with `ka < kb`.
pub proof fn lemma_select_sources_ordered<T>(s: Seq<T>, keep: spec_fn(int) -> bool, n: int, a: int, b: int) -> (r: (int, int))
    requires
        0 <= n <= s.len(),
        0 <= a < b < select(s, keep, n).len(),
    ensures
        0 <= r.0 < r.1 < n,
        s[r.0] == select(s, keep, n)[a],
        s[r.1] == select(s, keep, n)[b],
    decreases n,
{
    let prev = select(s, keep, n - 1);
    lemma_select_len(s, keep, n - 1);
    if keep(n - 1) && b == prev.len() {
        let ka = lemma_select_source(s, keep, n - 1, a);
        (ka, n - 1)
    } else {
        lemma_select_sources_ordered(s, keep, n - 1, a, b)
    }
}

/// A selection and its complement together hold every element once.
pub proof fn lemma_select_partition_len<T>(s: Seq<T>, keep: spec_fn(int) -> bool, drop: spec_fn(int) -> bool, n: int)
    requires
        0 <= n <= s.len(),
        forall|k: int| 0 <= k < n ==> (#[trigger] keep(k) <==> !drop(k)),
    ensures
        select(s, keep, n).len() + select(s, drop, n).len() == n,
    decreases n,
{
    if n > 0 {
        lemma_select_partition_len(s, keep, drop, n - 1);
    }
}

/// An element `s[k]` with `k < n` and `keep(k)` is in the selection.
pub proof fn lemma_select_contains<T>(s: Seq<T>, keep: spec_fn(int) -> bool, n: int, k: int)
    requires
        0 <= k < n <= s.len(),
        keep(k),
    ensures
        select(s, keep, n).contains(s[k]),
    decreases n,
{
    if k == n - 1 {
        assert(select(s, keep, n)[select(s, keep, n).len() - 1] == s[k]);
    } else {
        lemma_select_contains(s, keep, n - 1, k);
        let prev = select(s, keep, n - 1);
        let i = choose|i: int| 0 <= i < prev.len() && prev[i] == s[k];
        if keep(n - 1) {
            assert(select(s, keep, n)[i] == s[k]);
        }
    }
}

} // verus!
