use vstd::prelude::*;

use crate::ixs::{
    buy_count, count_pump_buys, cu_limits, find_cu_limit, has_cu_limit, sets_cu_limit,
};
use crate::seqs::first_some;
use crate::types::{TxBundle, TxInfo};

verus! {

/// Every follow transaction of the bundle sets the compute-unit limit to `units`.
pub open spec fn all_follow_set_cu<R>(b: TxBundle<R>, units: u32) -> bool {
    forall|k: int| 0 <= k < b.follow_txs@.len() ==> sets_cu_limit(#[trigger] b.follow_txs@[k].flattened_ixs@, units)
}

/// The compute-unit filter: the bundle has follow transactions, as many as
/// `follow_count` asks for (when it asks), and every one of them sets the
/// compute-unit limit to `cu_target`.
pub open spec fn spec_matches_cu_filter<R>(b: TxBundle<R>, cu_target: u32, follow_count: Option<usize>) -> bool {
    &&& b.follow_txs@.len() > 0
    &&& (follow_count matches Some(c) ==> b.follow_txs@.len() == c)
    &&& all_follow_set_cu(b, cu_target)
}

/// Whether the bundle passes the compute-unit filter.
pub fn matches_cu_filter<R>(b: &TxBundle<R>, cu_target: u32, follow_count: Option<usize>) -> (r: bool)
    ensures
        r == spec_matches_cu_filter(*b, cu_target, follow_count),
{
    if b.follow_txs.len() == 0 {
        return false;
    }
    if let Some(expected) = follow_count {
        if b.follow_txs.len() != expected {
            return false;
        }
    }
    let mut k: usize = 0;
    while k < b.follow_txs.len()
        invariant
            0 <= k <= b.follow_txs@.len(),
            forall|m: int| 0 <= m < k ==> sets_cu_limit(#[trigger] b.follow_txs@[m].flattened_ixs@, cu_target),
        decreases b.follow_txs.len() - k,
    {
        if !has_cu_limit(&b.follow_txs[k].flattened_ixs, cu_target) {
            return false;
        }
        k = k + 1;
    }
    true
}

/// The 140k filter: the bundle has follow transactions and every one of them
/// sets the compute-unit limit to 140000.
pub fn matches_cu_140k<R>(b: &TxBundle<R>) -> (r: bool)
    ensures
        r == spec_matches_cu_filter(*b, 140_000, None),
{
    matches_cu_filter(b, 140_000, None)
}


/// How many of the first `n` bundles have exactly `c` follow transactions.
pub open spec fn count_with_follows<R>(bs: Seq<TxBundle<R>>, c: int, n: int) -> nat
    decreases n,
{
    if n <= 0 {
        0
    } else if bs[n - 1].follow_txs@.len() == c {
        count_with_follows(bs, c, n - 1) + 1
    } else {
        count_with_follows(bs, c, n - 1)
    }
}

/// The number of follow transactions of the first `n` bundles.
pub open spec fn follow_total<R>(bs: Seq<TxBundle<R>>, n: int) -> nat
    decreases n,
{
    if n <= 0 {
        0
    } else {
        follow_total(bs, n - 1) + bs[n - 1].follow_txs@.len()
    }
}

/// The smallest create slot among the first `n` bundles (`u64::MAX` if none).
pub open spec fn min_create_slot<R>(bs: Seq<TxBundle<R>>, n: int) -> u64
    decreases n,
{
    if n <= 0 {
        u64::MAX
    } else {
        let m = min_create_slot(bs, n - 1);
        let s = bs[n - 1].create_tx.slot;
        if s < m { s } else { m }
    }
}

/// The largest create slot among the first `n` bundles (0 if none).
pub open spec fn max_create_slot<R>(bs: Seq<TxBundle<R>>, n: int) -> u64
    decreases n,
{
    if n <= 0 {
        0
    } else {
        let m = max_create_slot(bs, n - 1);
        let s = bs[n - 1].create_tx.slot;
        if s > m { s } else { m }
    }
}

/// Statistics of a collection of bundles.
pub struct BundleStats {
    /// How many bundles there are.
    pub total_bundles: usize,
    /// Entry `c` (for `c` from 0 to 4) counts the bundles with `c` follow transactions.
    pub follow_tx_counts: Vec<usize>,
    /// The number of follow transactions over all bundles.
    pub total_follow_txs: usize,
    /// The smallest create slot (`u64::MAX` when there are no bundles).
    pub min_slot: u64,
    /// The largest create slot (0 when there are no bundles).
    pub max_slot: u64,
}

/// Partial follow totals never exceed later ones.
proof fn lemma_follow_total_mono<R>(bs: Seq<TxBundle<R>>, m: int, n: int)
    requires
        0 <= m <= n,
    ensures
        follow_total(bs, m) <= follow_total(bs, n),
    decreases n - m,
{
    if m < n {
        lemma_follow_total_mono(bs, m, n - 1);
    }
}

/// A count of bundles never exceeds the number of bundles looked at.
proof fn lemma_count_with_follows_bound<R>(bs: Seq<TxBundle<R>>, c: int, n: int)
    requires
        0 <= n,
    ensures
        count_with_follows(bs, c, n) <= n,
    decreases n,
{
    if n > 0 {
        lemma_count_with_follows_bound(bs, c, n - 1);
    }
}

/// The statistics of the bundles.
pub fn bundle_stats<R>(bundles: &Vec<TxBundle<R>>) -> (st: BundleStats)
    requires
        follow_total(bundles@, bundles@.len() as int) <= usize::MAX,
    ensures
        st.total_bundles == bundles@.len(),
        st.follow_tx_counts@.len() == 5,
        forall|c: int| 0 <= c < 5 ==> #[trigger] st.follow_tx_counts@[c] == count_with_follows(bundles@, c, bundles@.len() as int),
        st.total_follow_txs == follow_total(bundles@, bundles@.len() as int),
        st.min_slot == min_create_slot(bundles@, bundles@.len() as int),
        st.max_slot == max_create_slot(bundles@, bundles@.len() as int),
{
    let mut counts: Vec<usize> = vec![0, 0, 0, 0, 0];
    let mut total: usize = 0;
    let mut min_slot: u64 = u64::MAX;
    let mut max_slot: u64 = 0;
    let mut i: usize = 0;
    while i < bundles.len()
        invariant
            0 <= i <= bundles@.len(),
            counts@.len() == 5,
            forall|c: int| 0 <= c < 5 ==> #[trigger] counts@[c] == count_with_follows(bundles@, c, i as int),
            total == follow_total(bundles@, i as int),
            follow_total(bundles@, bundles@.len() as int) <= usize::MAX,
            min_slot == min_create_slot(bundles@, i as int),
            max_slot == max_create_slot(bundles@, i as int),
        decreases bundles.len() - i,
    {
        let count = bundles[i].follow_txs.len();
        if count <= 4 {
            proof {
                lemma_count_with_follows_bound(bundles@, count as int, i as int);
            }
            let c = counts[count];
            counts.set(count, c + 1);
        }
        proof {
            lemma_follow_total_mono(bundles@, i + 1, bundles@.len() as int);
        }
        total = total + count;
        let s = bundles[i].create_tx.slot;
        if s < min_slot {
            min_slot = s;
        }
        if s > max_slot {
            max_slot = s;
        }
        i = i + 1;
    }
    BundleStats {
        total_bundles: bundles.len(),
        follow_tx_counts: counts,
        total_follow_txs: total,
        min_slot,
        max_slot,
    }
}

/// When no bundle has more than four follow transactions (as every bundle the
/// monitor stores), the distribution by follow count covers every bundle once,
/// and weighting each count by its number of follow transactions gives the
/// total number of follow transactions.
pub proof fn lemma_follow_counts_cover<R>(bs: Seq<TxBundle<R>>, n: int)
    requires
        0 <= n <= bs.len(),
        forall|i: int| 0 <= i < n ==> (#[trigger] bs[i]).follow_txs@.len() <= 4,
    ensures
        count_with_follows(bs, 0, n) + count_with_follows(bs, 1, n) + count_with_follows(bs, 2, n)
            + count_with_follows(bs, 3, n) + count_with_follows(bs, 4, n) == n,
        count_with_follows(bs, 1, n) + 2 * count_with_follows(bs, 2, n) + 3 * count_with_follows(bs, 3, n)
            + 4 * count_with_follows(bs, 4, n) == follow_total(bs, n),
    decreases n,
{
    if n > 0 {
        lemma_follow_counts_cover(bs, n - 1);
        assert(bs[n - 1].follow_txs@.len() <= 4);
    }
}

/// The statistics of the bundles (see [`bundle_stats`]), or `None` when the
/// number of follow transactions over all bundles does not fit in a `usize`.
pub fn try_bundle_stats<R>(bundles: &Vec<TxBundle<R>>) -> (r: Option<BundleStats>)
    ensures
        follow_total(bundles@, bundles@.len() as int) > usize::MAX ==> r is None,
        follow_total(bundles@, bundles@.len() as int) <= usize::MAX ==> r is Some,
        r matches Some(st) ==> {
            &&& st.total_bundles == bundles@.len()
            &&& st.follow_tx_counts@.len() == 5
            &&& forall|c: int| 0 <= c < 5 ==> #[trigger] st.follow_tx_counts@[c] == count_with_follows(bundles@, c, bundles@.len() as int)
            &&& st.total_follow_txs == follow_total(bundles@, bundles@.len() as int)
            &&& st.min_slot == min_create_slot(bundles@, bundles@.len() as int)
            &&& st.max_slot == max_create_slot(bundles@, bundles@.len() as int)
        },
{
    let mut total: usize = 0;
    let mut i: usize = 0;
    while i < bundles.len()
        invariant
            0 <= i <= bundles@.len(),
            total == follow_total(bundles@, i as int),
        decreases bundles.len() - i,
    {
        match total.checked_add(bundles[i].follow_txs.len()) {
            Some(t) => {
                total = t;
            },
            None => {
                proof {
                    lemma_follow_total_mono(bundles@, i + 1, bundles@.len() as int);
                }
                return None;
            },
        }
        i = i + 1;
    }
    Some(bundle_stats(bundles))
}

/// How the follow transactions of a bundle set their compute-unit limits.
#[derive(Clone, Copy, Debug, PartialEq, Eq, Structural)]
pub enum CuPattern {
    /// The bundle has no follow transactions.
    NoFollow,
    /// Every follow transaction sets the same limit.
    Uniform(u32),
    /// Some follow transaction sets no limit, or the limits differ.
    Mixed,
}

/// The first compute-unit limit set by follow transaction `k` of the bundle.
pub open spec fn follow_cu<R>(b: TxBundle<R>, k: int) -> Option<u32> {
    first_some(cu_limits(b.follow_txs@[k].flattened_ixs@))
}

/// The compute-unit pattern of a bundle.
pub open spec fn spec_cu_pattern<R>(b: TxBundle<R>) -> CuPattern {
    if b.follow_txs@.len() == 0 {
        CuPattern::NoFollow
    } else if (forall|k: int| 0 <= k < b.follow_txs@.len() ==> (#[trigger] follow_cu(b, k)) is Some)
        && (forall|k: int| 0 <= k < b.follow_txs@.len() ==> #[trigger] follow_cu(b, k) == follow_cu(b, 0)) {
        CuPattern::Uniform(follow_cu(b, 0).unwrap())
    } else {
        CuPattern::Mixed
    }
}

/// The pattern of a bundle says how its follow transactions set their limits:
/// none at all when it has no follow transactions; `Uniform(c)` exactly when
/// it has some and each one's first compute-unit limit is `c`; `Mixed`
/// exactly when it has some and one of them sets no limit or a first limit
/// other than the first follow transaction's.
pub proof fn lemma_cu_pattern_meaning<R>(b: TxBundle<R>, c: u32)
    ensures
        spec_cu_pattern(b) == CuPattern::NoFollow <==> b.follow_txs@.len() == 0,
        spec_cu_pattern(b) == CuPattern::Uniform(c) <==> b.follow_txs@.len() > 0 && forall|k: int|
            0 <= k < b.follow_txs@.len() ==> first_some(cu_limits((#[trigger] b.follow_txs@[k]).flattened_ixs@))
                == Some(c),
        spec_cu_pattern(b) == CuPattern::Mixed <==> b.follow_txs@.len() > 0 && exists|k: int|
            0 <= k < b.follow_txs@.len() && (first_some(cu_limits((#[trigger] b.follow_txs@[k]).flattened_ixs@)) is None
                || first_some(cu_limits(b.follow_txs@[k].flattened_ixs@)) != first_some(
                cu_limits(b.follow_txs@[0].flattened_ixs@),
            )),
{
    let f = b.follow_txs@;
    if f.len() > 0 {
        assert(follow_cu(b, 0) == first_some(cu_limits(f[0].flattened_ixs@)));
        if forall|k: int| 0 <= k < f.len() ==> first_some(cu_limits((#[trigger] f[k]).flattened_ixs@)) == Some(c) {
            assert forall|k: int| 0 <= k < f.len() implies (#[trigger] follow_cu(b, k)) is Some && follow_cu(b, k)
                == follow_cu(b, 0) by {
                assert(first_some(cu_limits(f[k].flattened_ixs@)) == Some(c));
                assert(first_some(cu_limits(f[0].flattened_ixs@)) == Some(c));
            }
        }
        if spec_cu_pattern(b) == CuPattern::Uniform(c) {
            assert forall|k: int| 0 <= k < f.len() implies first_some(cu_limits((#[trigger] f[k]).flattened_ixs@))
                == Some(c) by {
                assert(follow_cu(b, k) == follow_cu(b, 0));
            }
        }
        if exists|k: int|
            0 <= k < f.len() && (first_some(cu_limits((#[trigger] f[k]).flattened_ixs@)) is None || first_some(
                cu_limits(f[k].flattened_ixs@),
            ) != first_some(cu_limits(f[0].flattened_ixs@))) {
            let k = choose|k: int|
                0 <= k < f.len() && (first_some(cu_limits((#[trigger] f[k]).flattened_ixs@)) is None || first_some(
                    cu_limits(f[k].flattened_ixs@),
                ) != first_some(cu_limits(f[0].flattened_ixs@)));
            assert(follow_cu(b, k) is None || follow_cu(b, k) != follow_cu(b, 0));
        }
    }
}

/// The compute-unit pattern of a bundle.
pub fn cu_pattern<R>(b: &TxBundle<R>) -> (r: CuPattern)
    ensures
        r == spec_cu_pattern(*b),
{
    let n = b.follow_txs.len();
    if n == 0 {
        return CuPattern::NoFollow;
    }
    let first = find_cu_limit(&b.follow_txs[0].flattened_ixs);
    let first_cu = match first {
        None => {
            assert(!(follow_cu(*b, 0) is Some));
            return CuPattern::Mixed;
        },
        Some(c) => c,
    };
    let mut k: usize = 1;
    while k < n
        invariant
            1 <= k <= n,
            n == b.follow_txs@.len(),
            first == follow_cu(*b, 0),
            first == Some(first_cu),
            forall|m: int| 0 <= m < k ==> #[trigger] follow_cu(*b, m) == first,
        decreases n - k,
    {
        let v = find_cu_limit(&b.follow_txs[k].flattened_ixs);
        if v != first {
            assert(follow_cu(*b, k as int) != follow_cu(*b, 0));
            return CuPattern::Mixed;
        }
        k = k + 1;
    }
    CuPattern::Uniform(first_cu)
}

/// How many of the first `n` bundles have the pattern `pat`.
pub open spec fn count_pattern<R>(bs: Seq<TxBundle<R>>, pat: CuPattern, n: int) -> nat
    decreases n,
{
    if n <= 0 {
        0
    } else if spec_cu_pattern(bs[n - 1]) == pat {
        count_pattern(bs, pat, n - 1) + 1
    } else {
        count_pattern(bs, pat, n - 1)
    }
}

/// How many of the first `n` bundles have a uniform pattern.
pub open spec fn count_uniform<R>(bs: Seq<TxBundle<R>>, n: int) -> nat
    decreases n,
{
    if n <= 0 {
        0
    } else if spec_cu_pattern(bs[n - 1]) is Uniform {
        count_uniform(bs, n - 1) + 1
    } else {
        count_uniform(bs, n - 1)
    }
}

/// The mints of the first `n` bundles whose follow transactions all set the
/// compute-unit limit `cu`, in order.
pub open spec fn uniform_mints<R>(bs: Seq<TxBundle<R>>, cu: u32, n: int) -> Seq<crate::types::Pubkey>
    decreases n,
{
    if n <= 0 {
        Seq::empty()
    } else if spec_cu_pattern(bs[n - 1]) == CuPattern::Uniform(cu) {
        uniform_mints(bs, cu, n - 1).push(bs[n - 1].mint)
    } else {
        uniform_mints(bs, cu, n - 1)
    }
}

/// The bundles that share one uniform compute-unit limit.
pub struct CuGroup {
    pub cu: u32,
    pub count: usize,
    pub mints: Vec<crate::types::Pubkey>,
}

/// The compute-unit patterns of a collection of bundles.
pub struct CuSummary {
    /// Bundles with no follow transactions.
    pub no_follow: usize,
    /// Bundles whose follow transactions set mixed (or missing) limits.
    pub mixed: usize,
    /// Bundles whose follow transactions all set the same limit.
    pub uniform: usize,
    /// One group per limit that some bundle sets uniformly, largest group first.
    pub groups: Vec<CuGroup>,
}

/// Counts never exceed the number of bundles looked at.
proof fn lemma_count_pattern_bound<R>(bs: Seq<TxBundle<R>>, pat: CuPattern, n: int)
    requires
        0 <= n,
    ensures
        count_pattern(bs, pat, n) <= n,
        count_uniform(bs, n) <= n,
        uniform_mints(bs, match pat { CuPattern::Uniform(c) => c, _ => 0 }, n).len() <= n,
    decreases n,
{
    if n > 0 {
        lemma_count_pattern_bound(bs, pat, n - 1);
    }
}

/// A group of bundles is described correctly.
pub open spec fn group_ok<R>(bs: Seq<TxBundle<R>>, g: CuGroup) -> bool {
    &&& g.mints@ == uniform_mints(bs, g.cu, bs.len() as int)
    &&& g.count == g.mints@.len()
}

/// The mints of the bundles with the uniform limit `cu`.
fn collect_uniform_mints<R>(bundles: &Vec<TxBundle<R>>, cu: u32) -> (m: Vec<crate::types::Pubkey>)
    ensures
        m@ == uniform_mints(bundles@, cu, bundles@.len() as int),
{
    let mut m: Vec<crate::types::Pubkey> = Vec::new();
    let mut i: usize = 0;
    while i < bundles.len()
        invariant
            0 <= i <= bundles@.len(),
            m@ == uniform_mints(bundles@, cu, i as int),
        decreases bundles.len() - i,
    {
        if cu_pattern(&bundles[i]) == CuPattern::Uniform(cu) {
            m.push(bundles[i].mint);
        }
        i = i + 1;
    }
    m
}

/// Whether `c` is among `cus`.
fn contains_cu(cus: &Vec<u32>, c: u32) -> (r: bool)
    ensures
        r == cus@.contains(c),
{
    let mut i: usize = 0;
    while i < cus.len()
        invariant
            0 <= i <= cus@.len(),
            forall|k: int| 0 <= k < i ==> cus@[k] != c,
        decreases cus.len() - i,
    {
        if cus[i] == c {
            assert(cus@[i as int] == c);
            return true;
        }
        i = i + 1;
    }
    false
}

/// The groups run from the largest count to the smallest.
pub open spec fn largest_first(gs: Seq<CuGroup>) -> bool {
    forall|a: int, b: int| 0 <= a < b < gs.len() ==> (#[trigger] gs[a]).count >= (#[trigger] gs[b]).count
}

/// No two groups share a limit.
pub open spec fn distinct_cus(gs: Seq<CuGroup>) -> bool {
    forall|a: int, b: int| 0 <= a < b < gs.len() ==> (#[trigger] gs[a]).cu != (#[trigger] gs[b]).cu
}

/// Inserts a group after every group whose count is at least its own; returns
/// where it went.
fn insert_by_count(groups: &mut Vec<CuGroup>, grp: CuGroup) -> (p: usize)
    requires
        largest_first(old(groups)@),
    ensures
        p <= old(groups)@.len(),
        final(groups)@ == old(groups)@.insert(p as int, grp),
        largest_first(final(groups)@),
{
    let mut p: usize = 0;
    while p < groups.len() && groups[p].count >= grp.count
        invariant
            0 <= p <= groups@.len(),
            groups@ == old(groups)@,
            forall|k: int| 0 <= k < p ==> (#[trigger] groups@[k]).count >= grp.count,
        decreases groups.len() - p,
    {
        p = p + 1;
    }
    let ghost before = groups@;
    let ghost c = grp.count;
    groups.insert(p, grp);
    assert forall|a: int, b: int| 0 <= a < b < groups@.len() implies (#[trigger] groups@[a]).count >= (#[trigger] groups@[b]).count by {
        if b < p {
        } else if b == p {
        } else if a < p {
            assert(groups@[b] == before[b - 1]);
            if b - 1 > p {
                assert(before[p as int].count >= before[b - 1].count);
            }
        } else if a == p {
            assert(groups@[b] == before[b - 1]);
        } else {
            assert(groups@[a] == before[a - 1]);
            assert(groups@[b] == before[b - 1]);
        }
    }
    p
}

/// The groups, largest count first (groups of equal count keep their order),
/// with where each result came from (`src`) and where each input went (`pos`).
fn sort_groups_by_count(groups: Vec<CuGroup>) -> (res: (Vec<CuGroup>, Ghost<Seq<int>>, Ghost<Seq<int>>))
    requires
        distinct_cus(groups@),
    ensures
        largest_first(res.0@),
        distinct_cus(res.0@),
        res.0@.len() == groups@.len(),
        res.1@.len() == groups@.len(),
        res.2@.len() == groups@.len(),
        forall|k: int| 0 <= k < groups@.len() ==> 0 <= #[trigger] res.1@[k] < groups@.len() && res.0@[k] == groups@[res.1@[k]],
        forall|m: int| 0 <= m < groups@.len() ==> 0 <= #[trigger] res.2@[m] < groups@.len() && res.0@[res.2@[m]] == groups@[m],
{
    let ghost orig = groups@;
    let n = groups.len();
    let mut rest = groups;
    let mut out: Vec<CuGroup> = Vec::new();
    let ghost mut src: Seq<int> = Seq::empty();
    let ghost mut pos: Seq<int> = Seq::empty();
    let mut i: usize = 0;
    assert(rest@ =~= orig.subrange(0, n as int));
    while rest.len() > 0
        invariant
            0 <= i <= n,
            n == orig.len(),
            distinct_cus(orig),
            rest@ == orig.subrange(i as int, n as int),
            out@.len() == i,
            src.len() == i,
            pos.len() == i,
            largest_first(out@),
            forall|k: int| 0 <= k < i ==> 0 <= #[trigger] src[k] < i && out@[k] == orig[src[k]],
            forall|a: int, b: int| 0 <= a < b < i ==> #[trigger] src[a] != #[trigger] src[b],
            forall|m: int| 0 <= m < i ==> 0 <= #[trigger] pos[m] < i && out@[pos[m]] == orig[m],
        decreases rest.len(),
    {
        let g = rest.remove(0);
        assert(g == orig[i as int]);
        let ghost before = out@;
        let ghost src0 = src;
        let ghost pos0 = pos;
        let p = insert_by_count(&mut out, g);
        proof {
            src = src0.insert(p as int, i as int);
            pos = Seq::new((i + 1) as nat, |m: int| if m == i { p as int } else if pos0[m] >= p { pos0[m] + 1 } else { pos0[m] });
            assert forall|k: int| 0 <= k < i + 1 implies 0 <= #[trigger] src[k] < i + 1 && out@[k] == orig[src[k]] by {
                if k < p {
                    assert(src[k] == src0[k]);
                } else if k > p {
                    assert(src[k] == src0[k - 1]);
                }
            }
            assert forall|a: int, b: int| 0 <= a < b < i + 1 implies #[trigger] src[a] != #[trigger] src[b] by {
                let aa = if a < p { a } else { a - 1 };
                let bb = if b < p { b } else { b - 1 };
                if a != p && b != p {
                    assert(src[a] == src0[aa]);
                    assert(src[b] == src0[bb]);
                } else if a == p {
                    assert(src[b] == src0[bb]);
                } else {
                    assert(src[a] == src0[aa]);
                }
            }
            assert forall|m: int| 0 <= m < i + 1 implies 0 <= #[trigger] pos[m] < i + 1 && out@[pos[m]] == orig[m] by {
                if m < i {
                    assert(before[pos0[m]] == orig[m]);
                    if pos0[m] >= p {
                        assert(out@[pos0[m] + 1] == before[pos0[m]]);
                    } else {
                        assert(out@[pos0[m]] == before[pos0[m]]);
                    }
                }
            }
        }
        assert(rest@ =~= orig.subrange(i as int + 1, n as int));
        i = i + 1;
    }
    proof {
        assert forall|a: int, b: int| 0 <= a < b < out@.len() implies (#[trigger] out@[a]).cu != (#[trigger] out@[b]).cu by {
            assert(src[a] != src[b]);
            if src[a] < src[b] {
                assert(orig[src[a]].cu != orig[src[b]].cu);
            } else {
                assert(orig[src[b]].cu != orig[src[a]].cu);
            }
        }
    }
    assert(orig == groups@);
    (out, Ghost(src), Ghost(pos))
}

/// The distinct limits that bundles set uniformly, in order of first appearance.
fn uniform_cus<R>(bundles: &Vec<TxBundle<R>>) -> (cus: Vec<u32>)
    ensures
        forall|a: int, b: int| 0 <= a < b < cus@.len() ==> cus@[a] != cus@[b],
        forall|c: u32| #[trigger] uniform_mints(bundles@, c, bundles@.len() as int).len() > 0 <==> cus@.contains(c),
{
    let n = bundles.len();
    let mut cus: Vec<u32> = Vec::new();
    let mut i: usize = 0;
    while i < n
        invariant
            0 <= i <= n,
            n == bundles@.len(),
            forall|a: int, b: int| 0 <= a < b < cus@.len() ==> cus@[a] != cus@[b],
            forall|c: u32| #[trigger] uniform_mints(bundles@, c, i as int).len() > 0 <==> cus@.contains(c),
        decreases n - i,
    {
        let ghost old_cus = cus@;
        let pat = cu_pattern(&bundles[i]);
        if let CuPattern::Uniform(c0) = pat {
            if !contains_cu(&cus, c0) {
                cus.push(c0);
                assert(cus@.last() == c0);
            }
            proof {
                assert forall|c: u32| #[trigger] uniform_mints(bundles@, c, i + 1).len() > 0 <==> cus@.contains(c) by {
                    if c == c0 {
                        assert(uniform_mints(bundles@, c, i + 1) == uniform_mints(bundles@, c, i as int).push(bundles@[i as int].mint));
                        if old_cus.contains(c0) {
                            assert(cus@ == old_cus);
                        } else {
                            assert(cus@[cus@.len() - 1] == c0);
                        }
                    } else {
                        assert(uniform_mints(bundles@, c, i + 1) == uniform_mints(bundles@, c, i as int));
                        if cus@.contains(c) {
                            let k = choose|k: int| 0 <= k < cus@.len() && cus@[k] == c;
                            if k < old_cus.len() {
                                assert(old_cus[k] == c);
                            }
                        }
                        if old_cus.contains(c) {
                            let k = choose|k: int| 0 <= k < old_cus.len() && old_cus[k] == c;
                            assert(cus@[k] == c);
                        }
                    }
                }
            }
        } else {
            proof {
                assert forall|c: u32| #[trigger] uniform_mints(bundles@, c, i + 1).len() > 0 <==> cus@.contains(c) by {
                    assert(uniform_mints(bundles@, c, i + 1) == uniform_mints(bundles@, c, i as int));
                }
            }
        }
        i = i + 1;
    }
    cus
}

/// The compute-unit patterns of the bundles: how many have no follow
/// transactions, how many mixed limits, how many a uniform limit, and the
/// groups of bundles per uniform limit, largest group first.
pub fn analyze_cu_patterns<R>(bundles: &Vec<TxBundle<R>>) -> (s: CuSummary)
    ensures
        s.no_follow == count_pattern(bundles@, CuPattern::NoFollow, bundles@.len() as int),
        s.mixed == count_pattern(bundles@, CuPattern::Mixed, bundles@.len() as int),
        s.uniform == count_uniform(bundles@, bundles@.len() as int),
        forall|i: int| 0 <= i < s.groups@.len() ==> group_ok(bundles@, #[trigger] s.groups@[i]),
        distinct_cus(s.groups@),
        largest_first(s.groups@),
        forall|c: u32| #[trigger] uniform_mints(bundles@, c, bundles@.len() as int).len() > 0 <==> exists|i: int|
            0 <= i < s.groups@.len() && (#[trigger] s.groups@[i]).cu == c,
{
    let n = bundles.len();
    let mut no_follow: usize = 0;
    let mut mixed: usize = 0;
    let mut uniform: usize = 0;
    let mut i: usize = 0;
    while i < n
        invariant
            0 <= i <= n,
            n == bundles@.len(),
            no_follow == count_pattern(bundles@, CuPattern::NoFollow, i as int),
            mixed == count_pattern(bundles@, CuPattern::Mixed, i as int),
            uniform == count_uniform(bundles@, i as int),
        decreases n - i,
    {
        proof {
            lemma_count_pattern_bound(bundles@, CuPattern::NoFollow, i as int);
            lemma_count_pattern_bound(bundles@, CuPattern::Mixed, i as int);
        }
        match cu_pattern(&bundles[i]) {
            CuPattern::NoFollow => {
                no_follow = no_follow + 1;
            },
            CuPattern::Mixed => {
                mixed = mixed + 1;
            },
            CuPattern::Uniform(_) => {
                uniform = uniform + 1;
            },
        }
        i = i + 1;
    }
    let cus = uniform_cus(bundles);
    let mut firsts: Vec<CuGroup> = Vec::new();
    let mut g: usize = 0;
    while g < cus.len()
        invariant
            0 <= g <= cus@.len(),
            firsts@.len() == g,
            forall|a: int, b: int| 0 <= a < b < cus@.len() ==> cus@[a] != cus@[b],
            forall|k: int| 0 <= k < g ==> (#[trigger] firsts@[k]).cu == cus@[k] && group_ok(bundles@, firsts@[k]),
        decreases cus.len() - g,
    {
        let c = cus[g];
        let mints = collect_uniform_mints(bundles, c);
        let count = mints.len();
        firsts.push(CuGroup { cu: c, count, mints });
        g = g + 1;
    }
    let ghost fs = firsts@;
    assert(distinct_cus(fs));
    let (groups, Ghost(src), Ghost(pos)) = sort_groups_by_count(firsts);
    proof {
        assert forall|k: int| 0 <= k < groups@.len() implies group_ok(bundles@, #[trigger] groups@[k]) by {
            assert(groups@[k] == fs[src[k]]);
        }
        assert forall|c: u32| #[trigger] uniform_mints(bundles@, c, bundles@.len() as int).len() > 0 <==> exists|i: int|
            0 <= i < groups@.len() && (#[trigger] groups@[i]).cu == c by {
            if uniform_mints(bundles@, c, bundles@.len() as int).len() > 0 {
                let m = choose|m: int| 0 <= m < cus@.len() && cus@[m] == c;
                assert(fs[m].cu == c);
                assert(groups@[pos[m]] == fs[m]);
                assert(groups@[pos[m]].cu == c);
            }
            if exists|i: int| 0 <= i < groups@.len() && (#[trigger] groups@[i]).cu == c {
                let i = choose|i: int| 0 <= i < groups@.len() && (#[trigger] groups@[i]).cu == c;
                assert(groups@[i] == fs[src[i]]);
                assert(cus@[src[i]] == c);
            }
        }
    }
    CuSummary { no_follow, mixed, uniform, groups }
}


/// Every bundle has exactly one pattern: the bundles without follow
/// transactions, those with mixed limits and those with a uniform limit
/// together are all the bundles.
pub proof fn lemma_patterns_partition<R>(bs: Seq<TxBundle<R>>, n: int)
    requires
        0 <= n <= bs.len(),
    ensures
        count_pattern(bs, CuPattern::NoFollow, n) + count_pattern(bs, CuPattern::Mixed, n) + count_uniform(bs, n) == n,
    decreases n,
{
    if n > 0 {
        lemma_patterns_partition(bs, n - 1);
    }
}

} // verus!
