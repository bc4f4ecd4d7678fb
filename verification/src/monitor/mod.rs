use vstd::prelude::*;
use vstd::multiset::Multiset;

pub mod buffer;
pub mod migrate_monitor;

use crate::monitor::buffer::{arrival_pos, TxBuffer, tx_before, latest_first};
use crate::ixs::{create_mints, find_create_mint};
use crate::seqs::{
    first_index, first_index_from, first_some, lemma_first_index_from, lemma_first_index_is,
    lemma_select_all_satisfy, lemma_select_contains, lemma_select_len, lemma_select_partition_len, lemma_select_source, lemma_select_sources_ordered, select, select_all,
};
use crate::types::{contains_key, is_pump_program, mentions_pump_program, Pubkey, TxBundle, TxBundleView, TxInfo};

verus! {

/// How many transactions follow a create transaction in a complete bundle.
pub const FOLLOW_TARGET: usize = 4;

/// How many transactions are buffered before any is processed.
pub const BUFFER_FILL: usize = 100;

/// How many slots behind the newest seen slot a transaction must lie before
/// it is processed.
pub const SLOT_MARGIN: u64 = 2;

/// How long (in nanoseconds) a pending bundle may go without a new follow
/// transaction before it is stored as it is.
pub const TIMEOUT_NANOS: u64 = 10_000_000_000;

/// A bundle still collecting its follow transactions.
pub struct PendingBundle<R> {
    pub mint: Pubkey,
    pub create_slot: u64,
    pub create_index: u64,
    pub create_tx: TxInfo<R>,
    pub follow_txs: Vec<TxInfo<R>>,
    pub target_count: usize,
    /// When the bundle last changed, in nanoseconds of a monotonic clock.
    pub last_update: u64,
}

/// The mathematical value of a [`PendingBundle`].
pub struct PendingView<R> {
    pub mint: Pubkey,
    pub create_slot: u64,
    pub create_index: u64,
    pub create_tx: TxInfo<R>,
    pub follow_txs: Seq<TxInfo<R>>,
    pub target_count: usize,
    pub last_update: u64,
}

impl<R> View for PendingBundle<R> {
    type V = PendingView<R>;

    open spec fn view(&self) -> PendingView<R> {
        PendingView {
            mint: self.mint,
            create_slot: self.create_slot,
            create_index: self.create_index,
            create_tx: self.create_tx,
            follow_txs: self.follow_txs@,
            target_count: self.target_count,
            last_update: self.last_update,
        }
    }
}

/// The views of a sequence of pending bundles.
pub open spec fn pending_views<R>(v: Seq<PendingBundle<R>>) -> Seq<PendingView<R>> {
    v.map_values(|p: PendingBundle<R>| p@)
}

/// The views of a sequence of bundles.
pub open spec fn bundle_views<R>(v: Seq<TxBundle<R>>) -> Seq<TxBundleView<R>> {
    v.map_values(|b: TxBundle<R>| b@)
}

/// The index the next follow transaction of `p` must have.
pub open spec fn expected_index<R>(p: PendingView<R>) -> int {
    p.create_index + 1 + p.follow_txs.len()
}

/// `tx` lies in the create slot of `p` but not at the next position: the run
/// of follow transactions of `p` has ended.
pub open spec fn is_gap<R>(p: PendingView<R>, tx: TxInfo<R>) -> bool {
    tx.slot == p.create_slot && tx.index != expected_index(p)
}

/// `tx` is the next follow transaction of `p`: same slot, next position, and
/// it names the mint.
pub open spec fn is_follow<R>(p: PendingView<R>, tx: TxInfo<R>) -> bool {
    &&& tx.slot == p.create_slot
    &&& tx.index == expected_index(p)
    &&& tx.account_keys@.contains(p.mint)
}

/// The test `is_follow(_, tx)`.
pub open spec fn follow_test<R>(tx: TxInfo<R>) -> spec_fn(PendingView<R>) -> bool {
    |p: PendingView<R>| is_follow(p, tx)
}

/// The position of the first pending bundle that `tx` follows, or the length.
pub open spec fn follow_pos<R>(ps: Seq<PendingView<R>>, tx: TxInfo<R>) -> int {
    first_index(ps, follow_test(tx))
}

/// `p` with `tx` appended to its follow transactions at time `now`.
pub open spec fn advance<R>(p: PendingView<R>, tx: TxInfo<R>, now: u64) -> PendingView<R> {
    PendingView { follow_txs: p.follow_txs.push(tx), last_update: now, ..p }
}

/// The pending bundles once `tx` has been added to the bundle it follows.
pub open spec fn with_follow<R>(ps: Seq<PendingView<R>>, tx: TxInfo<R>, now: u64) -> Seq<PendingView<R>> {
    let j = follow_pos(ps, tx);
    if j < ps.len() {
        ps.update(j, advance(ps[j], tx, now))
    } else {
        ps
    }
}

/// Whether bundle `i` of `q` is complete once `tx` has been seen, where `j`
/// is the bundle `tx` joined: any other bundle whose run `tx` breaks, or the
/// joined bundle once it holds its target count.
pub open spec fn completes<R>(q: Seq<PendingView<R>>, tx: TxInfo<R>, j: int, i: int) -> bool {
    ||| i != j && is_gap(q[i], tx)
    ||| i == j && j < q.len() && q[j].follow_txs.len() >= q[j].target_count
}

/// The test `completes(q, tx, j, _)`.
pub open spec fn done_test<R>(q: Seq<PendingView<R>>, tx: TxInfo<R>, j: int) -> spec_fn(int) -> bool {
    |i: int| completes(q, tx, j, i)
}

/// The test `!completes(q, tx, j, _)`.
pub open spec fn kept_test<R>(q: Seq<PendingView<R>>, tx: TxInfo<R>, j: int) -> spec_fn(int) -> bool {
    |i: int| !completes(q, tx, j, i)
}

/// The bundle a pending bundle is stored as.
pub open spec fn bundle_of<R>(p: PendingView<R>) -> TxBundleView<R> {
    TxBundleView { mint: p.mint, create_tx: p.create_tx, follow_txs: p.follow_txs }
}

/// The bundles the pending bundles are stored as.
pub open spec fn bundles_of<R>(ps: Seq<PendingView<R>>) -> Seq<TxBundleView<R>> {
    ps.map_values(|p: PendingView<R>| bundle_of(p))
}

/// A new pending bundle for `mint`, created by `tx` at time `now`.
pub open spec fn fresh<R>(mint: Pubkey, tx: TxInfo<R>, now: u64) -> PendingView<R> {
    PendingView {
        mint,
        create_slot: tx.slot,
        create_index: tx.index,
        create_tx: tx,
        follow_txs: Seq::empty(),
        target_count: FOLLOW_TARGET,
        last_update: now,
    }
}

/// The test "is the pending bundle of `m`".
pub open spec fn mint_test<R>(m: Pubkey) -> spec_fn(PendingView<R>) -> bool {
    |p: PendingView<R>| p.mint == m
}

/// `ps` with `p` in place of the bundle of the same mint, or added at the end.
pub open spec fn upsert<R>(ps: Seq<PendingView<R>>, p: PendingView<R>) -> Seq<PendingView<R>> {
    let k = first_index(ps, mint_test(p.mint));
    if k < ps.len() {
        ps.update(k, p)
    } else {
        ps.push(p)
    }
}

/// What handing `tx` to the assembler at time `now` does: the pending bundles
/// afterwards, and the bundles completed (to be stored), in order.
/// A create transaction opens a fresh bundle for its mint (replacing any
/// pending one of that mint). Any other transaction joins the first pending
/// bundle it follows; every other bundle whose run it breaks is complete, and
/// so is the joined one once it holds its target count.
pub open spec fn assemble<R>(ps: Seq<PendingView<R>>, tx: TxInfo<R>, now: u64) -> (Seq<PendingView<R>>, Seq<TxBundleView<R>>) {
    match first_some(create_mints(tx.flattened_ixs@)) {
        Some(m) => (upsert(ps, fresh(m, tx, now)), Seq::empty()),
        None => {
            let j = follow_pos(ps, tx);
            let q = with_follow(ps, tx, now);
            (select_all(q, kept_test(q, tx, j)), bundles_of(select_all(q, done_test(q, tx, j))))
        },
    }
}

/// The follow transactions of a bundle sit at the positions right after its
/// create transaction, in its slot, and each names the mint.
pub open spec fn follows_in_run<R>(mint: Pubkey, create_tx: TxInfo<R>, follow_txs: Seq<TxInfo<R>>) -> bool {
    forall|k: int|
        0 <= k < follow_txs.len() ==> {
            &&& (#[trigger] follow_txs[k]).slot == create_tx.slot
            &&& follow_txs[k].index == create_tx.index + 1 + k
            &&& follow_txs[k].account_keys@.contains(mint)
        }
}

/// A well-formed stored bundle: at most the target count of follow
/// transactions, in a run right after the create transaction.
pub open spec fn bundle_wf<R>(b: TxBundleView<R>) -> bool {
    &&& b.follow_txs.len() <= FOLLOW_TARGET
    &&& follows_in_run(b.mint, b.create_tx, b.follow_txs)
}

/// A pending bundle records its create transaction's position, and its
/// follow transactions form a run of at most the target count.
pub open spec fn pending_loose<R>(p: PendingView<R>) -> bool {
    &&& p.target_count == FOLLOW_TARGET
    &&& p.create_slot == p.create_tx.slot
    &&& p.create_index == p.create_tx.index
    &&& p.follow_txs.len() <= p.target_count
    &&& follows_in_run(p.mint, p.create_tx, p.follow_txs)
}

/// A pending bundle that is still short of its target count.
pub open spec fn pending_ok<R>(p: PendingView<R>) -> bool {
    &&& pending_loose(p)
    &&& p.follow_txs.len() < p.target_count
}

/// No two pending bundles share a mint.
pub open spec fn unique_mints<R>(ps: Seq<PendingView<R>>) -> bool {
    forall|i: int, k: int| 0 <= i < k < ps.len() ==> (#[trigger] ps[i]).mint != (#[trigger] ps[k]).mint
}

/// The invariant of the pending bundles.
pub open spec fn pending_wf<R>(ps: Seq<PendingView<R>>) -> bool {
    &&& unique_mints(ps)
    &&& forall|i: int| 0 <= i < ps.len() ==> pending_ok(#[trigger] ps[i])
}

/// Whether `tx` is the next follow transaction of `p` (exec form of `is_follow`).
fn follows<R>(p: &PendingBundle<R>, tx: &TxInfo<R>) -> (r: bool)
    ensures
        r == is_follow(p@, *tx),
{
    p.create_slot == tx.slot && at_next_position(p, tx.index) && contains_key(&tx.account_keys, &p.mint)
}

/// Whether `tx` sits at the position right after the last transaction of `p`.
fn at_next_position<R>(p: &PendingBundle<R>, index: u64) -> (r: bool)
    ensures
        r == (index == expected_index(p@)),
{
    let n = p.follow_txs.len() as u64;
    match p.create_index.checked_add(1) {
        None => false,
        Some(a) => match a.checked_add(n) {
            None => false,
            Some(e) => index == e,
        },
    }
}

/// The bundle a pending bundle is stored as (exec form of `bundle_of`).
fn into_bundle<R>(p: PendingBundle<R>) -> (b: TxBundle<R>)
    ensures
        b@ == bundle_of(p@),
{
    TxBundle { mint: p.mint, create_tx: p.create_tx, follow_txs: p.follow_txs }
}



/// Dropping the first pending bundle drops its view.
proof fn lemma_views_drop_first<R>(v: Seq<PendingBundle<R>>)
    requires
        v.len() > 0,
    ensures
        pending_views(v.subrange(1, v.len() as int)) == pending_views(v).subrange(1, v.len() as int),
{
    assert(pending_views(v.subrange(1, v.len() as int)) =~= pending_views(v).subrange(1, v.len() as int));
}

/// Pushing a pending bundle pushes its view.
proof fn lemma_views_push<R>(v: Seq<PendingBundle<R>>, p: PendingBundle<R>)
    ensures
        pending_views(v.push(p)) == pending_views(v).push(p@),
{
    assert(pending_views(v.push(p)) =~= pending_views(v).push(p@));
}

/// Pushing a bundle pushes its view.
proof fn lemma_bundle_views_push<R>(v: Seq<TxBundle<R>>, b: TxBundle<R>)
    ensures
        bundle_views(v.push(b)) == bundle_views(v).push(b@),
{
    assert(bundle_views(v.push(b)) =~= bundle_views(v).push(b@));
}

/// Pushing a pending bundle's view pushes the bundle it is stored as.
proof fn lemma_bundles_of_push<R>(ps: Seq<PendingView<R>>, p: PendingView<R>)
    ensures
        bundles_of(ps.push(p)) == bundles_of(ps).push(bundle_of(p)),
{
    assert(bundles_of(ps.push(p)) =~= bundles_of(ps).push(bundle_of(p)));
}

/// `p` has gone longer than the timeout without a change.
pub open spec fn timed_out<R>(p: PendingView<R>, now: u64) -> bool {
    now - p.last_update > TIMEOUT_NANOS
}

/// The test "bundle `i` of `ps` has not timed out".
pub open spec fn live_test<R>(ps: Seq<PendingView<R>>, now: u64) -> spec_fn(int) -> bool {
    |i: int| !timed_out(ps[i], now)
}

/// The test "bundle `i` of `ps` has timed out".
pub open spec fn stale_test<R>(ps: Seq<PendingView<R>>, now: u64) -> spec_fn(int) -> bool {
    |i: int| timed_out(ps[i], now)
}

/// The timeout sweep at time `now`: the bundles that stay pending, and the
/// timed-out ones, stored as they are, in order.
pub open spec fn sweep<R>(ps: Seq<PendingView<R>>, now: u64) -> (Seq<PendingView<R>>, Seq<TxBundleView<R>>) {
    (select_all(ps, live_test(ps, now)), bundles_of(select_all(ps, stale_test(ps, now))))
}

/// `tx` lies far enough behind the newest slot to be processed.
pub open spec fn ready<R>(tx: TxInfo<R>, max_slot: u64) -> bool {
    tx.slot + SLOT_MARGIN <= max_slot
}

/// The test `ready(_, max_slot)`.
pub open spec fn ready_test<R>(max_slot: u64) -> spec_fn(TxInfo<R>) -> bool {
    |tx: TxInfo<R>| ready(tx, max_slot)
}

/// The transactions `s[k..]` of a latest-first sequence, earliest first.
pub open spec fn earliest_first<R>(s: Seq<TxInfo<R>>, k: int) -> Seq<TxInfo<R>> {
    Seq::new((s.len() - k) as nat, |m: int| s[s.len() - 1 - m])
}

/// Handing the transactions `txs` to assembly one after another: the pending
/// bundles afterwards, and all bundles completed, in order.
pub open spec fn assemble_all<R>(ps: Seq<PendingView<R>>, txs: Seq<TxInfo<R>>, now: u64) -> (Seq<PendingView<R>>, Seq<TxBundleView<R>>)
    decreases txs.len(),
{
    if txs.len() == 0 {
        (ps, Seq::empty())
    } else {
        let r = assemble_all(ps, txs.drop_last(), now);
        let s = assemble(r.0, txs.last(), now);
        (s.0, r.1 + s.1)
    }
}

/// The views of two concatenated bundle sequences are the concatenated views.
proof fn lemma_bundle_views_append<R>(a: Seq<TxBundle<R>>, b: Seq<TxBundle<R>>)
    ensures
        bundle_views(a + b) == bundle_views(a) + bundle_views(b),
{
    assert(bundle_views(a + b) =~= bundle_views(a) + bundle_views(b));
}

/// Transactions reach assembly in (slot, index) order: the ready part of a
/// latest-first buffer, listed earliest first, never goes back in order.
pub proof fn lemma_assembly_in_order<R>(b: Seq<TxInfo<R>>, k: int)
    requires
        latest_first(b),
        0 <= k <= b.len(),
    ensures
        forall|i: int, j: int|
            0 <= i < j < earliest_first(b, k).len() ==> tx_before(
                #[trigger] earliest_first(b, k)[i],
                #[trigger] earliest_first(b, k)[j],
            ),
{
    assert forall|i: int, j: int| 0 <= i < j < earliest_first(b, k).len() implies tx_before(
        #[trigger] earliest_first(b, k)[i],
        #[trigger] earliest_first(b, k)[j],
    ) by {
        assert(earliest_first(b, k)[i] == b[b.len() - 1 - i]);
        assert(earliest_first(b, k)[j] == b[b.len() - 1 - j]);
    }
}

/// A round processes exactly the transactions at least the margin behind the
/// newest slot: in a latest-first buffer those form its tail, and every
/// transaction left buffered is too recent.
pub proof fn lemma_ready_split<R>(b: Seq<TxInfo<R>>, max_slot: u64)
    requires
        latest_first(b),
    ensures
        0 <= first_index(b, ready_test(max_slot)) <= b.len(),
        forall|i: int| 0 <= i < first_index(b, ready_test(max_slot)) ==> !ready(#[trigger] b[i], max_slot),
        forall|i: int| first_index(b, ready_test(max_slot)) <= i < b.len() ==> ready(#[trigger] b[i], max_slot),
{
    lemma_first_index_from(b, ready_test(max_slot), 0);
    let k = first_index(b, ready_test(max_slot));
    assert forall|i: int| k <= i < b.len() implies ready(#[trigger] b[i], max_slot) by {
        assert((ready_test(max_slot))(b[k]));
        if i > k {
            assert(tx_before(b[i], b[k]));
        }
    }
}

/// A transaction joins at most one pending bundle: only the first bundle it
/// follows gains it, and every other bundle is unchanged.
pub proof fn lemma_joins_at_most_one<R>(ps: Seq<PendingView<R>>, tx: TxInfo<R>, now: u64)
    ensures
        with_follow(ps, tx, now).len() == ps.len(),
        forall|i: int| 0 <= i < ps.len() && i != follow_pos(ps, tx) ==> #[trigger] with_follow(ps, tx, now)[i] == ps[i],
        follow_pos(ps, tx) < ps.len() ==> with_follow(ps, tx, now)[follow_pos(ps, tx)].follow_txs
            == ps[follow_pos(ps, tx)].follow_txs.push(tx),
{
    lemma_first_index_from(ps, follow_test(tx), 0);
}

/// A bundle is stored as soon as it holds its target count: when a
/// transaction is the last one a pending bundle needs, that bundle is among the
/// completed ones and no longer pending.
pub proof fn lemma_full_bundle_stored<R>(ps: Seq<PendingView<R>>, tx: TxInfo<R>, now: u64)
    requires
        pending_wf(ps),
        first_some(create_mints(tx.flattened_ixs@)) is None,
        follow_pos(ps, tx) < ps.len(),
        ps[follow_pos(ps, tx)].follow_txs.len() + 1 == FOLLOW_TARGET,
    ensures
        assemble(ps, tx, now).1.contains(bundle_of(advance(ps[follow_pos(ps, tx)], tx, now))),
        forall|i: int| 0 <= i < assemble(ps, tx, now).0.len() ==> (#[trigger] assemble(ps, tx, now).0[i]).mint
            != ps[follow_pos(ps, tx)].mint,
{
    lemma_first_index_from(ps, follow_test(tx), 0);
    let j = follow_pos(ps, tx);
    let q = with_follow(ps, tx, now);
    let done = done_test(q, tx, j);
    let keep = kept_test(q, tx, j);
    lemma_select_contains(q, done, q.len() as int, j);
    let sel = select(q, done, q.len() as int);
    let i = choose|i: int| 0 <= i < sel.len() && sel[i] == q[j];
    assert(bundles_of(sel)[i] == bundle_of(q[j]));
    let kept = assemble(ps, tx, now).0;
    assert forall|a: int| 0 <= a < kept.len() implies (#[trigger] kept[a]).mint != ps[j].mint by {
        let k = lemma_select_source(q, keep, q.len() as int, a);
        assert(k != j);
        assert(q[k] == ps[k]);
        if k < j {
            assert(ps[k].mint != ps[j].mint);
        } else {
            assert(ps[j].mint != ps[k].mint);
        }
    }
}

/// No bundle is lost: every pending bundle is, after a transaction that
/// creates nothing, either still pending or among the completed ones; and a
/// timeout sweep likewise keeps or stores each one.
pub proof fn lemma_no_bundle_lost<R>(ps: Seq<PendingView<R>>, tx: TxInfo<R>, now: u64)
    requires
        first_some(create_mints(tx.flattened_ixs@)) is None,
    ensures
        assemble(ps, tx, now).0.len() + assemble(ps, tx, now).1.len() == ps.len(),
        sweep(ps, now).0.len() + sweep(ps, now).1.len() == ps.len(),
{
    lemma_first_index_from(ps, follow_test(tx), 0);
    let j = follow_pos(ps, tx);
    let q = with_follow(ps, tx, now);
    lemma_select_partition_len(q, kept_test(q, tx, j), done_test(q, tx, j), q.len() as int);
    lemma_select_partition_len(ps, live_test(ps, now), stale_test(ps, now), ps.len() as int);
}

/// A create transaction opens a fresh bundle for its mint and leaves the
/// pending bundles of every other mint as they were.
pub proof fn lemma_create_opens_fresh<R>(ps: Seq<PendingView<R>>, tx: TxInfo<R>, now: u64, m: Pubkey)
    requires
        pending_wf(ps),
        first_some(create_mints(tx.flattened_ixs@)) == Some(m),
    ensures
        assemble(ps, tx, now).0.contains(fresh(m, tx, now)),
        assemble(ps, tx, now).1.len() == 0,
        forall|i: int| 0 <= i < ps.len() && ps[i].mint != m ==> assemble(ps, tx, now).0.contains(#[trigger] ps[i]),
{
    let k = first_index(ps, mint_test(m));
    lemma_first_index_from(ps, mint_test::<R>(m), 0);
    let r = assemble(ps, tx, now).0;
    if k < ps.len() {
        assert(r[k] == fresh(m, tx, now));
        assert forall|i: int| 0 <= i < ps.len() && ps[i].mint != m implies r.contains(#[trigger] ps[i]) by {
            assert(r[i] == ps[i]);
        }
    } else {
        assert(r[ps.len() as int] == fresh(m, tx, now));
        assert forall|i: int| 0 <= i < ps.len() && ps[i].mint != m implies r.contains(#[trigger] ps[i]) by {
            assert(r[i] == ps[i]);
        }
    }
}

/// Assembles bundles out of a stream of transactions: each pump create
/// transaction together with the transactions that follow it at consecutive
/// positions of its slot. Transactions are buffered and handed to assembly in
/// (slot, index) order once they lie far enough behind the newest slot seen.
pub struct PumpCreateBundleMonitor<R> {
    tx_buffer: TxBuffer<R>,
    pending_bundles: Vec<PendingBundle<R>>,
    max_processed_slot: u64,
    enqueued_count: usize,
}

impl<R> PumpCreateBundleMonitor<R> {
    /// The bundles still collecting follow transactions.
    pub closed spec fn pending(&self) -> Seq<PendingView<R>> {
        pending_views(self.pending_bundles@)
    }

    /// The transactions waiting to be processed, from the latest to the earliest.
    pub closed spec fn buffered(&self) -> Seq<TxInfo<R>> {
        self.tx_buffer.contents()
    }

    /// The newest slot seen.
    pub closed spec fn max_slot(&self) -> u64 {
        self.max_processed_slot
    }

    /// How many transactions have been enqueued.
    pub closed spec fn enqueued(&self) -> usize {
        self.enqueued_count
    }

    /// The monitor's invariant.
    pub open spec fn wf(&self) -> bool {
        &&& latest_first(self.buffered())
        &&& pending_wf(self.pending())
    }

    /// Replaces the pending bundle of `p`'s mint by `p`, or adds `p`.
    fn upsert_pending(&mut self, p: PendingBundle<R>)
        requires
            pending_wf(old(self).pending()),
            pending_ok(p@),
        ensures
            final(self).pending() == upsert(old(self).pending(), p@),
            pending_wf(final(self).pending()),
            final(self).tx_buffer == old(self).tx_buffer,
            final(self).max_processed_slot == old(self).max_processed_slot,
            final(self).enqueued_count == old(self).enqueued_count,
    {
        let ghost ps = self.pending();
        let mut k: usize = 0;
        while k < self.pending_bundles.len() && !self.pending_bundles[k].mint.same_as(&p.mint)
            invariant
                0 <= k <= self.pending_bundles.len(),
                self.pending_bundles@ == old(self).pending_bundles@,
                ps == self.pending(),
                forall|m: int| 0 <= m < k ==> !(mint_test(p@.mint))(#[trigger] ps[m]),
            decreases self.pending_bundles.len() - k,
        {
            k = k + 1;
        }
        proof {
            lemma_first_index_is(ps, mint_test(p@.mint), 0, k as int);
        }
        let ghost pv = p@;
        if k < self.pending_bundles.len() {
            self.pending_bundles.set(k, p);
            assert(self.pending() =~= ps.update(k as int, pv));
        } else {
            self.pending_bundles.push(p);
            assert(self.pending() =~= ps.push(pv));
        }
        let ghost np = self.pending();
        assert forall|i: int, m: int| 0 <= i < m < np.len() implies (#[trigger] np[i]).mint != (#[trigger] np[m]).mint by {
            if m == k {
                assert(!(mint_test(pv.mint))(ps[i]));
            } else if i == k {
                assert((mint_test(pv.mint))(ps[i]));
                assert(ps[i].mint != ps[m].mint);
            }
        }
    }

    /// The position of the first pending bundle that `tx` follows, or the count.
    fn find_follow(&self, tx: &TxInfo<R>) -> (j: usize)
        ensures
            j == follow_pos(self.pending(), *tx),
            j <= self.pending().len(),
    {
        let ghost ps = self.pending();
        let mut j: usize = 0;
        while j < self.pending_bundles.len() && !follows(&self.pending_bundles[j], tx)
            invariant
                0 <= j <= self.pending_bundles.len(),
                ps == self.pending(),
                forall|m: int| 0 <= m < j ==> !(follow_test(*tx))(#[trigger] ps[m]),
            decreases self.pending_bundles.len() - j,
        {
            j = j + 1;
        }
        proof {
            lemma_first_index_is(ps, follow_test(*tx), 0, j as int);
        }
        j
    }

    /// Hands one transaction to bundle assembly at time `now` (see
    /// [`assemble`]); returns the bundles it completes, to be stored.
    pub fn process_tx_internal(&mut self, tx: TxInfo<R>, now: u64) -> (out: Vec<TxBundle<R>>)
        requires
            old(self).wf(),
        ensures
            final(self).wf(),
            final(self).pending() == assemble(old(self).pending(), tx, now).0,
            bundle_views(out@) == assemble(old(self).pending(), tx, now).1,
            forall|i: int| 0 <= i < out@.len() ==> bundle_wf(#[trigger] out@[i]@),
            final(self).buffered() == old(self).buffered(),
            final(self).max_slot() == old(self).max_slot(),
            final(self).enqueued() == old(self).enqueued(),
    {
        let ghost ps = self.pending();
        if let Some(mint) = find_create_mint(&tx.flattened_ixs) {
            let p = PendingBundle {
                mint,
                create_slot: tx.slot,
                create_index: tx.index,
                create_tx: tx,
                follow_txs: Vec::new(),
                target_count: FOLLOW_TARGET,
                last_update: now,
            };
            assert(p@.follow_txs =~= Seq::<TxInfo<R>>::empty());
            self.upsert_pending(p);
            let out: Vec<TxBundle<R>> = Vec::new();
            assert(bundle_views(out@) =~= Seq::<TxBundleView<R>>::empty());
            return out;
        }
        let j = self.find_follow(&tx);
        let tx_slot = tx.slot;
        let tx_index = tx.index;
        let ghost q = with_follow(ps, tx, now);
        let ghost keep = kept_test(q, tx, j as int);
        let ghost done = done_test(q, tx, j as int);
        proof {
            lemma_first_index_from(ps, follow_test(tx), 0);
        }
        let mut rest: Vec<PendingBundle<R>> = Vec::new();
        std::mem::swap(&mut rest, &mut self.pending_bundles);
        let n = rest.len();
        let mut kept: Vec<PendingBundle<R>> = Vec::new();
        let mut out: Vec<TxBundle<R>> = Vec::new();
        let mut i: usize = 0;
        assert(pending_views(rest@) =~= ps.subrange(0, n as int));
        assert(pending_views(kept@) =~= select(q, keep, 0));
        assert(bundle_views(out@) =~= bundles_of(select(q, done, 0)));
        while i < j
            invariant
                0 <= i <= j <= n,
                n == ps.len(),
                q == with_follow(ps, tx, now),
                j == follow_pos(ps, tx),
                keep == kept_test(q, tx, j as int),
                done == done_test(q, tx, j as int),
                tx_slot == tx.slot,
                tx_index == tx.index,
                pending_views(rest@) == ps.subrange(i as int, n as int),
                rest@.len() == n - i,
                pending_views(kept@) == select(q, keep, i as int),
                bundle_views(out@) == bundles_of(select(q, done, i as int)),
                forall|k: int| 0 <= k < j ==> q[k] == ps[k],
            decreases j - i,
        {
            assert(pending_views(rest@)[0] == rest@[0]@);
            let ghost before = rest@;
            let p = rest.remove(0);
            assert(p@ == ps[i as int]);
            let ghost pv = p@;
            if p.create_slot == tx_slot && !at_next_position(&p, tx_index) {
                assert(done(i as int));
                let b = into_bundle(p);
                proof {
                    lemma_bundle_views_push(out@, b);
                    lemma_bundles_of_push(select(q, done, i as int), pv);
                }
                out.push(b);
            } else {
                assert(keep(i as int));
                proof {
                    lemma_views_push(kept@, p);
                }
                kept.push(p);
            }
            proof {
                lemma_views_drop_first(before);
            }
            i = i + 1;
        }
        if j < n {
            assert(pending_views(rest@)[0] == rest@[0]@);
            let ghost before = rest@;
            let mut p = rest.remove(0);
            assert(p@ == ps[j as int]);
            p.follow_txs.push(tx);
            p.last_update = now;
            let ghost pv = p@;
            assert(pv == q[j as int]);
            if p.follow_txs.len() >= p.target_count {
                assert(done(j as int));
                let b = into_bundle(p);
                proof {
                    lemma_bundle_views_push(out@, b);
                    lemma_bundles_of_push(select(q, done, j as int), pv);
                }
                out.push(b);
            } else {
                assert(keep(j as int));
                proof {
                    lemma_views_push(kept@, p);
                }
                kept.push(p);
            }
            proof {
                lemma_views_drop_first(before);
            }
            i = i + 1;
        }
        while rest.len() > 0
            invariant
                i <= n,
                j <= n,
                j < n ==> j < i,
                j == n ==> i == n,
                n == ps.len(),
                q == with_follow(ps, tx, now),
                j == follow_pos(ps, tx),
                keep == kept_test(q, tx, j as int),
                done == done_test(q, tx, j as int),
                tx_slot == tx.slot,
                tx_index == tx.index,
                pending_views(rest@) == ps.subrange(i as int, n as int),
                rest@.len() == n - i,
                pending_views(kept@) == select(q, keep, i as int),
                bundle_views(out@) == bundles_of(select(q, done, i as int)),
            decreases rest.len(),
        {
            assert(pending_views(rest@)[0] == rest@[0]@);
            let ghost before = rest@;
            let p = rest.remove(0);
            assert(p@ == ps[i as int]);
            assert(q[i as int] == ps[i as int]);
            let ghost pv = p@;
            if p.create_slot == tx_slot && !at_next_position(&p, tx_index) {
                assert(done(i as int));
                let b = into_bundle(p);
                proof {
                    lemma_bundle_views_push(out@, b);
                    lemma_bundles_of_push(select(q, done, i as int), pv);
                }
                out.push(b);
            } else {
                assert(keep(i as int));
                proof {
                    lemma_views_push(kept@, p);
                }
                kept.push(p);
            }
            proof {
                lemma_views_drop_first(before);
            }
            i = i + 1;
        }
        assert(i == n);
        self.pending_bundles = kept;
        proof {
            assert(q.len() == n);
            // every bundle of q is loose, and the ones kept are short of their target
            assert forall|k: int| 0 <= k < q.len() implies pending_loose(#[trigger] q[k]) by {
                if k == j {
                    assert(pending_ok(ps[k]));
                    assert((follow_test(tx))(ps[k]));
                    assert(follows_in_run(q[k].mint, q[k].create_tx, q[k].follow_txs));
                } else {
                    assert(pending_ok(ps[k]));
                }
            }
            lemma_select_all_satisfy(q, keep, n as int, |p: PendingView<R>| pending_ok(p));
            lemma_select_all_satisfy(q, done, n as int, |p: PendingView<R>| bundle_wf(bundle_of(p)));
            let sel = select(q, done, n as int);
            assert forall|k: int| 0 <= k < out@.len() implies bundle_wf(#[trigger] out@[k]@) by {
                assert(bundle_views(out@)[k] == out@[k]@);
                assert(bundles_of(sel)[k] == bundle_of(sel[k]));
            }
            let np = self.pending();
            assert forall|a: int, b: int| 0 <= a < b < np.len() implies (#[trigger] np[a]).mint != (#[trigger] np[b]).mint by {
                let (ka, kb) = lemma_select_sources_ordered(q, keep, n as int, a, b);
                assert(q[ka].mint == ps[ka].mint);
                assert(q[kb].mint == ps[kb].mint);
            }
        }
        out
    }

    /// A monitor with nothing buffered or pending.
    pub fn new() -> (m: Self)
        ensures
            m.wf(),
            m.buffered() == Seq::<TxInfo<R>>::empty(),
            m.pending() == Seq::<PendingView<R>>::empty(),
            m.max_slot() == 0,
            m.enqueued() == 0,
    {
        let m = PumpCreateBundleMonitor {
            tx_buffer: TxBuffer::new(),
            pending_bundles: Vec::new(),
            max_processed_slot: 0,
            enqueued_count: 0,
        };
        assert(m.pending() =~= Seq::<PendingView<R>>::empty());
        m
    }

    /// How many transactions have been enqueued.
    pub fn enqueued_count(&self) -> (n: usize)
        ensures
            n == self.enqueued(),
    {
        self.enqueued_count
    }

    /// Whether the monitor wants to see a transaction with these accounts:
    /// those that involve the pump program.
    pub fn interested(&self, account_keys: &Vec<Pubkey>) -> (r: Option<bool>)
        ensures
            r == Some(exists|i: int| 0 <= i < account_keys@.len() && is_pump_program(#[trigger] account_keys@[i])),
    {
        Some(mentions_pump_program(account_keys))
    }

    /// Takes in a transaction: notes its slot and buffers it. Returns how many
    /// transactions have been enqueued, this one included.
    pub fn on_tx(&mut self, tx: TxInfo<R>) -> (count: usize)
        requires
            old(self).wf(),
            old(self).enqueued() < usize::MAX,
        ensures
            final(self).wf(),
            final(self).max_slot() == if tx.slot > old(self).max_slot() { tx.slot } else { old(self).max_slot() },
            0 <= arrival_pos(old(self).buffered(), tx) <= old(self).buffered().len(),
            final(self).buffered() == old(self).buffered().insert(arrival_pos(old(self).buffered(), tx), tx),
            final(self).pending() == old(self).pending(),
            count == old(self).enqueued() + 1,
            final(self).enqueued() == count,
            enqueue_step(*old(self), tx, *final(self)),
    {
        if tx.slot > self.max_processed_slot {
            self.max_processed_slot = tx.slot;
        }
        self.tx_buffer.push(tx);
        self.enqueued_count = self.enqueued_count + 1;
        self.enqueued_count
    }

    /// Stores the pending bundles that have timed out at time `now`: removes
    /// them and returns them as bundles (see [`sweep`]).
    pub fn cleanup_timeout_bundles(&mut self, now: u64) -> (out: Vec<TxBundle<R>>)
        requires
            old(self).wf(),
        ensures
            final(self).wf(),
            final(self).pending() == sweep(old(self).pending(), now).0,
            bundle_views(out@) == sweep(old(self).pending(), now).1,
            forall|i: int| 0 <= i < out@.len() ==> bundle_wf(#[trigger] out@[i]@),
            forall|i: int| 0 <= i < final(self).pending().len() ==> !timed_out(#[trigger] final(self).pending()[i], now),
            final(self).buffered() == old(self).buffered(),
            final(self).max_slot() == old(self).max_slot(),
            final(self).enqueued() == old(self).enqueued(),
    {
        let ghost ps = self.pending();
        let ghost live = live_test(ps, now);
        let ghost stale = stale_test(ps, now);
        let mut rest: Vec<PendingBundle<R>> = Vec::new();
        std::mem::swap(&mut rest, &mut self.pending_bundles);
        let n = rest.len();
        let mut kept: Vec<PendingBundle<R>> = Vec::new();
        let mut out: Vec<TxBundle<R>> = Vec::new();
        let mut i: usize = 0;
        assert(pending_views(rest@) =~= ps.subrange(0, n as int));
        assert(pending_views(kept@) =~= select(ps, live, 0));
        assert(bundle_views(out@) =~= bundles_of(select(ps, stale, 0)));
        while rest.len() > 0
            invariant
                0 <= i <= n,
                n == ps.len(),
                live == live_test(ps, now),
                stale == stale_test(ps, now),
                pending_views(rest@) == ps.subrange(i as int, n as int),
                rest@.len() == n - i,
                pending_views(kept@) == select(ps, live, i as int),
                bundle_views(out@) == bundles_of(select(ps, stale, i as int)),
            decreases rest.len(),
        {
            assert(pending_views(rest@)[0] == rest@[0]@);
            let ghost before = rest@;
            let p = rest.remove(0);
            assert(p@ == ps[i as int]);
            let ghost pv = p@;
            if now > p.last_update && now - p.last_update > TIMEOUT_NANOS {
                assert(stale(i as int));
                let b = into_bundle(p);
                proof {
                    lemma_bundle_views_push(out@, b);
                    lemma_bundles_of_push(select(ps, stale, i as int), pv);
                }
                out.push(b);
            } else {
                assert(live(i as int));
                proof {
                    lemma_views_push(kept@, p);
                }
                kept.push(p);
            }
            proof {
                lemma_views_drop_first(before);
            }
            i = i + 1;
        }
        self.pending_bundles = kept;
        proof {
            lemma_select_all_satisfy(ps, live, n as int, |p: PendingView<R>| pending_ok(p));
            lemma_select_all_satisfy(ps, live, n as int, |p: PendingView<R>| !timed_out(p, now));
            lemma_select_all_satisfy(ps, stale, n as int, |p: PendingView<R>| bundle_wf(bundle_of(p)));
            let sel = select(ps, stale, n as int);
            assert forall|k: int| 0 <= k < out@.len() implies bundle_wf(#[trigger] out@[k]@) by {
                assert(bundle_views(out@)[k] == out@[k]@);
                assert(bundles_of(sel)[k] == bundle_of(sel[k]));
            }
            let np = self.pending();
            assert forall|a: int, b: int| 0 <= a < b < np.len() implies (#[trigger] np[a]).mint != (#[trigger] np[b]).mint by {
                let (ka, kb) = lemma_select_sources_ordered(ps, live, n as int, a, b);
            }
        }
        out
    }

    /// Whether the earliest buffered transaction lies at least the margin
    /// behind `max_slot`.
    fn has_ready(&self, max_slot: u64) -> (r: bool)
        ensures
            r == (self.buffered().len() > 0 && ready(self.buffered().last(), max_slot)),
    {
        match self.tx_buffer.peek_slot() {
            None => false,
            Some(s) => max_slot >= SLOT_MARGIN && s <= max_slot - SLOT_MARGIN,
        }
    }

    /// One round of the processing task at time `now`. Until the buffer has
    /// taken in `BUFFER_FILL` transactions nothing happens. After that, the
    /// buffered transactions that lie at least `SLOT_MARGIN` slots behind the
    /// newest slot seen are handed to assembly, earliest first, and then the
    /// timed-out pending bundles are swept. Returns the bundles to store, in
    /// order.
    pub fn tick(&mut self, now: u64) -> (out: Vec<TxBundle<R>>)
        requires
            old(self).wf(),
        ensures
            final(self).wf(),
            final(self).max_slot() == old(self).max_slot(),
            final(self).enqueued() == old(self).enqueued(),
            forall|i: int| 0 <= i < out@.len() ==> bundle_wf(#[trigger] out@[i]@),
            old(self).enqueued() < BUFFER_FILL ==> {
                &&& final(self).buffered() == old(self).buffered()
                &&& final(self).pending() == old(self).pending()
                &&& out@.len() == 0
            },
            old(self).enqueued() >= BUFFER_FILL ==> {
                let b = old(self).buffered();
                let k = first_index(b, ready_test(old(self).max_slot()));
                let r = assemble_all(old(self).pending(), earliest_first(b, k), now);
                let c = sweep(r.0, now);
                &&& 0 <= k <= b.len()
                &&& final(self).buffered() == b.subrange(0, k)
                &&& final(self).pending() == c.0
                &&& bundle_views(out@) == r.1 + c.1
            },
            round_step(*old(self), now, *final(self)),
    {
        let mut out: Vec<TxBundle<R>> = Vec::new();
        if self.enqueued_count < BUFFER_FILL {
            assert(out@.len() == 0);
            return out;
        }
        let current_max = self.max_processed_slot;
        let ghost b = self.buffered();
        let ghost len = b.len();
        let ghost ps0 = self.pending();
        let ghost mut drained: Seq<TxInfo<R>> = Seq::empty();
        assert(bundle_views(out@) =~= Seq::<TxBundleView<R>>::empty());
        assert(b.subrange(0, len as int) =~= b);
        while self.has_ready(current_max)
            invariant
                self.wf(),
                current_max == self.max_slot(),
                self.max_slot() == old(self).max_slot(),
                self.enqueued() == old(self).enqueued(),
                b == old(self).buffered(),
                ps0 == old(self).pending(),
                len == b.len(),
                latest_first(b),
                0 <= drained.len() <= len,
                self.buffered() == b.subrange(0, len - drained.len()),
                forall|m: int| 0 <= m < drained.len() ==> #[trigger] drained[m] == b[len - 1 - m],
                forall|m: int| 0 <= m < drained.len() ==> ready(#[trigger] drained[m], current_max),
                self.pending() == assemble_all(ps0, drained, now).0,
                bundle_views(out@) == assemble_all(ps0, drained, now).1,
                forall|i: int| 0 <= i < out@.len() ==> bundle_wf(#[trigger] out@[i]@),
            decreases len - drained.len(),
        {
            let ghost buf = self.buffered();
            let tx = self.tx_buffer.pop().unwrap();
            proof {
                let d2 = drained.push(tx);
                assert(d2.drop_last() =~= drained);
                assert(b.subrange(0, len - drained.len() - 1) =~= buf.drop_last());
                drained = d2;
            }
            let ghost pending_before = self.pending();
            let mut done = self.process_tx_internal(tx, now);
            proof {
                lemma_bundle_views_append(out@, done@);
            }
            out.append(&mut done);
        }
        let ghost n = drained.len();
        proof {
            let k = len - n;
            assert forall|m: int| 0 <= m < k implies !(ready_test(current_max))(#[trigger] b[m]) by {
                if m < k - 1 {
                    assert(tx_before(b[k - 1], b[m]));
                }
            }
            if k < len {
                assert(b[k] == drained[n - 1]);
            }
            lemma_first_index_is(b, ready_test(current_max), 0, k);
            assert(drained =~= earliest_first(b, k));
        }
        let ghost r = assemble_all(ps0, drained, now);
        let mut swept = self.cleanup_timeout_bundles(now);
        proof {
            lemma_bundle_views_append(out@, swept@);
        }
        out.append(&mut swept);
        out
    }
}

/// What `on_tx` does to the state of a monitor `a`, giving `b`: the newest
/// slot grows to the transaction's, the transaction enters the buffer at its
/// arrival position, the pending bundles stay, and the count grows by one.
pub open spec fn enqueue_step<R>(a: PumpCreateBundleMonitor<R>, tx: TxInfo<R>, b: PumpCreateBundleMonitor<R>) -> bool {
    &&& b.max_slot() == if tx.slot > a.max_slot() { tx.slot } else { a.max_slot() }
    &&& 0 <= arrival_pos(a.buffered(), tx) <= a.buffered().len()
    &&& b.buffered() == a.buffered().insert(arrival_pos(a.buffered(), tx), tx)
    &&& b.pending() == a.pending()
    &&& b.enqueued() == a.enqueued() + 1
}

/// The transactions a processing round of `a` hands to assembly, earliest
/// first: none before the buffer has filled, else the ready tail.
pub open spec fn round_drained<R>(a: PumpCreateBundleMonitor<R>) -> Seq<TxInfo<R>> {
    if a.enqueued() < BUFFER_FILL {
        Seq::empty()
    } else {
        let b = a.buffered();
        earliest_first(b, first_index(b, ready_test(a.max_slot())))
    }
}

/// What a processing round at time `now` does to the state of a monitor `a`,
/// giving `b`: the buffer loses exactly the transactions handed to assembly,
/// the pending bundles become those left after assembling them and sweeping,
/// and the newest slot and the count stay.
pub open spec fn round_step<R>(a: PumpCreateBundleMonitor<R>, now: u64, b: PumpCreateBundleMonitor<R>) -> bool {
    &&& b.max_slot() == a.max_slot()
    &&& b.enqueued() == a.enqueued()
    &&& a.enqueued() < BUFFER_FILL ==> b.buffered() == a.buffered() && b.pending() == a.pending()
    &&& a.enqueued() >= BUFFER_FILL ==> {
        let k = first_index(a.buffered(), ready_test(a.max_slot()));
        &&& 0 <= k <= a.buffered().len()
        &&& b.buffered() == a.buffered().subrange(0, k)
        &&& b.pending() == sweep(assemble_all(a.pending(), round_drained(a), now).0, now).0
    }
}

/// What happens to a monitor: a transaction arrives (`on_tx`), or a
/// processing round runs at a time (`tick`).
pub enum MonitorEvent<R> {
    Enqueue(TxInfo<R>),
    Round(u64),
}

/// What an event does to the state of a monitor `a`, giving `b`.
pub open spec fn event_step<R>(a: PumpCreateBundleMonitor<R>, e: MonitorEvent<R>, b: PumpCreateBundleMonitor<R>) -> bool {
    match e {
        MonitorEvent::Enqueue(tx) => enqueue_step(a, tx, b),
        MonitorEvent::Round(now) => round_step(a, now, b),
    }
}

/// A run: `ms[i + 1]` is what event `es[i]` makes of `ms[i]`.
pub open spec fn is_run<R>(ms: Seq<PumpCreateBundleMonitor<R>>, es: Seq<MonitorEvent<R>>) -> bool {
    &&& ms.len() == es.len() + 1
    &&& forall|i: int| 0 <= i < es.len() ==> event_step(#[trigger] ms[i], es[i], ms[i + 1])
}

/// The transactions that arrive among the first `n` events, in order.
pub open spec fn arrivals<R>(es: Seq<MonitorEvent<R>>, n: int) -> Seq<TxInfo<R>>
    decreases n,
{
    if n <= 0 {
        Seq::empty()
    } else {
        match es[n - 1] {
            MonitorEvent::Enqueue(tx) => arrivals(es, n - 1).push(tx),
            MonitorEvent::Round(_) => arrivals(es, n - 1),
        }
    }
}

/// The transactions handed to assembly during the first `n` events of a run,
/// in order.
pub open spec fn processed<R>(ms: Seq<PumpCreateBundleMonitor<R>>, es: Seq<MonitorEvent<R>>, n: int) -> Seq<TxInfo<R>>
    decreases n,
{
    if n <= 0 {
        Seq::empty()
    } else {
        match es[n - 1] {
            MonitorEvent::Enqueue(_) => processed(ms, es, n - 1),
            MonitorEvent::Round(_) => processed(ms, es, n - 1) + round_drained(ms[n - 1]),
        }
    }
}

/// The newest slot after `m0` has seen the transactions `txs`.
pub open spec fn newest_slot<R>(m0: u64, txs: Seq<TxInfo<R>>) -> u64
    decreases txs.len(),
{
    if txs.len() == 0 {
        m0
    } else {
        let m = newest_slot(m0, txs.drop_last());
        if txs.last().slot > m { txs.last().slot } else { m }
    }
}

/// Over any run of arrivals and processing rounds, the newest slot never
/// falls, and it is the largest of its start and the slots of the arrived
/// transactions.
pub proof fn lemma_newest_slot_grows<R>(ms: Seq<PumpCreateBundleMonitor<R>>, es: Seq<MonitorEvent<R>>)
    requires
        is_run(ms, es),
    ensures
        forall|i: int, j: int| 0 <= i <= j < ms.len() ==> (#[trigger] ms[i]).max_slot() <= (#[trigger] ms[j]).max_slot(),
        forall|n: int| 0 <= n < ms.len() ==> (#[trigger] ms[n]).max_slot() == newest_slot(ms[0].max_slot(), arrivals(es, n)),
{
    assert forall|n: int| 0 <= n < ms.len() implies (#[trigger] ms[n]).max_slot() == newest_slot(ms[0].max_slot(), arrivals(es, n)) by {
        lemma_newest_slot_prefix(ms, es, n);
    }
    assert forall|i: int, j: int| 0 <= i <= j < ms.len() implies (#[trigger] ms[i]).max_slot() <= (#[trigger] ms[j]).max_slot() by {
        lemma_newest_slot_mono(ms, es, i, j);
    }
}

proof fn lemma_newest_slot_prefix<R>(ms: Seq<PumpCreateBundleMonitor<R>>, es: Seq<MonitorEvent<R>>, n: int)
    requires
        is_run(ms, es),
        0 <= n < ms.len(),
    ensures
        ms[n].max_slot() == newest_slot(ms[0].max_slot(), arrivals(es, n)),
    decreases n,
{
    if n > 0 {
        lemma_newest_slot_prefix(ms, es, n - 1);
        assert(event_step(ms[n - 1], es[n - 1], ms[n]));
        match es[n - 1] {
            MonitorEvent::Enqueue(tx) => {
                assert(arrivals(es, n).drop_last() =~= arrivals(es, n - 1));
            },
            MonitorEvent::Round(_) => {},
        }
    }
}

proof fn lemma_newest_slot_mono<R>(ms: Seq<PumpCreateBundleMonitor<R>>, es: Seq<MonitorEvent<R>>, i: int, j: int)
    requires
        is_run(ms, es),
        0 <= i <= j < ms.len(),
    ensures
        ms[i].max_slot() <= ms[j].max_slot(),
    decreases j - i,
{
    if i < j {
        lemma_newest_slot_mono(ms, es, i, j - 1);
        assert(event_step(ms[j - 1], es[j - 1], ms[j]));
    }
}

/// Over any run of arrivals and processing rounds, the count of enqueued
/// transactions grows by the number of arrivals, and every transaction is
/// handed to assembly exactly once: what was buffered at the start together
/// with what arrived is, as a multiset, what is still buffered together with
/// what was handed to assembly.
pub proof fn lemma_each_processed_once<R>(ms: Seq<PumpCreateBundleMonitor<R>>, es: Seq<MonitorEvent<R>>, n: int)
    requires
        is_run(ms, es),
        0 <= n < ms.len(),
    ensures
        ms[n].enqueued() == ms[0].enqueued() + arrivals(es, n).len(),
        ms[0].buffered().to_multiset().add(arrivals(es, n).to_multiset())
            == ms[n].buffered().to_multiset().add(processed(ms, es, n).to_multiset()),
    decreases n,
{
    broadcast use vstd::seq_lib::group_to_multiset_ensures;
    broadcast use vstd::multiset::group_multiset_axioms;

    if n == 0 {
        assert(arrivals(es, 0).to_multiset() =~= Multiset::empty());
        assert(processed(ms, es, 0).to_multiset() =~= Multiset::empty());
        assert(ms[0].buffered().to_multiset().add(Multiset::empty()) =~= ms[0].buffered().to_multiset());
    } else {
        lemma_each_processed_once(ms, es, n - 1);
        let a = ms[n - 1];
        let b = ms[n];
        assert(event_step(a, es[n - 1], b));
        let start = ms[0].buffered().to_multiset();
        let arr = arrivals(es, n - 1).to_multiset();
        let pro = processed(ms, es, n - 1).to_multiset();
        match es[n - 1] {
            MonitorEvent::Enqueue(tx) => {
                assert(b.buffered().to_multiset() =~= a.buffered().to_multiset().insert(tx));
                assert(arrivals(es, n).to_multiset() =~= arr.insert(tx));
                assert(start.add(arr.insert(tx)) =~= start.add(arr).insert(tx));
                assert(a.buffered().to_multiset().insert(tx).add(pro) =~= a.buffered().to_multiset().add(pro).insert(tx));
            },
            MonitorEvent::Round(now) => {
                let d = round_drained(a);
                assert(processed(ms, es, n) == processed(ms, es, n - 1) + d);
                vstd::seq_lib::lemma_multiset_commutative(processed(ms, es, n - 1), d);
                if a.enqueued() < BUFFER_FILL {
                    assert(d.to_multiset() =~= Multiset::empty());
                    assert(pro.add(Multiset::empty()) =~= pro);
                } else {
                    let bb = a.buffered();
                    let k = first_index(bb, ready_test(a.max_slot()));
                    let tail = bb.subrange(k, bb.len() as int);
                    assert(d =~= tail.reverse());
                    tail.lemma_reverse_to_multiset();
                    assert(bb =~= bb.subrange(0, k) + tail);
                    vstd::seq_lib::lemma_multiset_commutative(bb.subrange(0, k), tail);
                    let head = bb.subrange(0, k).to_multiset();
                    assert(head.add(tail.to_multiset()).add(pro) =~= head.add(pro.add(tail.to_multiset())));
                }
            },
        }
    }
}

} // verus!
