use vstd::prelude::*;

use crate::ixs::{
    buy_count, buy_exact_ins, buy_tokens, checked_buy_tokens, count_pump_buys, cu_limits, cu_prices, find_buy_exact_in,
    find_cu_limit, find_cu_price, find_pump_buy, pump_buys, sum_buy_tokens,
};
use crate::seqs::{count_some, first_some};
use crate::types::{TxBundle, TxInfo};

verus! {

/// The first compute-unit limit a transaction sets.
pub open spec fn tx_cu_limit<R>(tx: TxInfo<R>) -> Option<u32> {
    first_some(cu_limits(tx.flattened_ixs@))
}

/// The first compute-unit price a transaction sets.
pub open spec fn tx_cu_price<R>(tx: TxInfo<R>) -> Option<u64> {
    first_some(cu_prices(tx.flattened_ixs@))
}

/// The number of pump `buy` instructions of a transaction.
pub open spec fn tx_buys<R>(tx: TxInfo<R>) -> nat {
    buy_count(tx.flattened_ixs@)
}

// ----- compute units per buy -----

/// A follow transaction fits the "150k per buy" pattern: it holds at least two
/// pump buys, and the limit it sets (if any) is 150000 per buy plus 50000.
pub open spec fn per_buy_ok<R>(tx: TxInfo<R>) -> bool {
    &&& tx_buys(tx) >= 2
    &&& (tx_cu_limit(tx) matches Some(u) ==> u == 150_000 * tx_buys(tx) + 50_000)
}

/// For the first `n` transactions that set a limit: the limit and the number
/// of buys.
pub open spec fn per_buy_entries<R>(txs: Seq<TxInfo<R>>, n: int) -> Seq<(u32, usize)>
    decreases n,
{
    if n <= 0 {
        Seq::empty()
    } else {
        let prev = per_buy_entries(txs, n - 1);
        match tx_cu_limit(txs[n - 1]) {
            Some(u) => prev.push((u, tx_buys(txs[n - 1]) as usize)),
            None => prev,
        }
    }
}

/// The "150k per buy" pattern of a bundle: the create transaction sets the
/// limit 400000, every follow transaction fits [`per_buy_ok`], and some follow
/// transaction sets a limit. The result lists (limit, buys) per follow
/// transaction that sets a limit.
pub open spec fn spec_cu_per_buy<R>(b: TxBundle<R>) -> Option<Seq<(u32, usize)>> {
    let f = b.follow_txs@;
    if f.len() == 0 || tx_cu_limit(b.create_tx) != Some(400_000u32) {
        None
    } else if exists|k: int| 0 <= k < f.len() && !per_buy_ok(#[trigger] f[k]) {
        None
    } else if per_buy_entries(f, f.len() as int).len() == 0 {
        None
    } else {
        Some(per_buy_entries(f, f.len() as int))
    }
}

/// Whether the limit `u` is 150000 per buy plus 50000 for `buys` buys.
fn is_per_buy_limit(u: u32, buys: usize) -> (r: bool)
    ensures
        r == (u == 150_000 * buys + 50_000),
{
    if buys > 28632 {
        assert(150_000 * buys + 50_000 > u32::MAX) by (nonlinear_arith)
            requires
                buys > 28632,
        ;
        false
    } else {
        assert(150_000 * buys + 50_000 <= 4_294_850_000) by (nonlinear_arith)
            requires
                buys <= 28632,
        ;
        let lim: u64 = 150_000 * (buys as u64) + 50_000;
        (u as u64) == lim
    }
}

/// The "150k per buy" pattern of a bundle (see [`spec_cu_per_buy`]).
pub fn cu_per_buy_pattern<R>(b: &TxBundle<R>) -> (r: Option<Vec<(u32, usize)>>)
    ensures
        match r {
            None => spec_cu_per_buy(*b) is None,
            Some(v) => spec_cu_per_buy(*b) == Some(v@),
        },
{
    let ghost f = b.follow_txs@;
    if b.follow_txs.len() == 0 {
        return None;
    }
    match find_cu_limit(&b.create_tx.flattened_ixs) {
        Some(units) => {
            if units != 400_000 {
                return None;
            }
        },
        None => {
            return None;
        },
    }
    let mut res: Vec<(u32, usize)> = Vec::new();
    let mut k: usize = 0;
    while k < b.follow_txs.len()
        invariant
            0 <= k <= f.len(),
            f == b.follow_txs@,
            forall|m: int| 0 <= m < k ==> per_buy_ok(#[trigger] f[m]),
            res@ == per_buy_entries(f, k as int),
        decreases f.len() - k,
    {
        let tx = &b.follow_txs[k];
        let buys = count_pump_buys(&tx.flattened_ixs);
        if buys < 2 {
            assert(!per_buy_ok(f[k as int]));
            return None;
        }
        if let Some(u) = find_cu_limit(&tx.flattened_ixs) {
            if !is_per_buy_limit(u, buys) {
                assert(!per_buy_ok(f[k as int]));
                return None;
            }
            res.push((u, buys));
        }
        k = k + 1;
    }
    if res.len() == 0 {
        return None;
    }
    Some(res)
}

// ----- drop pattern -----

/// A follow transaction fits the "drop" pattern: its first `buy_exact_sol_in`
/// asks for a minimum of one token, it sets no price, and the limit it sets
/// (if any) is 400000.
pub open spec fn drop_ok<R>(tx: TxInfo<R>) -> bool {
    &&& first_some(buy_exact_ins(tx.flattened_ixs@)) == Some(1u64)
    &&& tx_cu_price(tx) is None
    &&& (tx_cu_limit(tx) matches Some(u) ==> u == 400_000)
}

/// For the first `n` transactions that set a limit: the limit and the minimum
/// token amount (one).
pub open spec fn drop_entries<R>(txs: Seq<TxInfo<R>>, n: int) -> Seq<(u32, u64)>
    decreases n,
{
    if n <= 0 {
        Seq::empty()
    } else {
        let prev = drop_entries(txs, n - 1);
        match tx_cu_limit(txs[n - 1]) {
            Some(u) => prev.push((u, 1u64)),
            None => prev,
        }
    }
}

/// The "drop" pattern of a bundle: the create transaction sets the limit
/// 400000 and no price, every follow transaction fits [`drop_ok`], and at
/// least two follow transactions set a limit.
pub open spec fn spec_drop_pattern<R>(b: TxBundle<R>) -> Option<Seq<(u32, u64)>> {
    let f = b.follow_txs@;
    if f.len() == 0 || tx_cu_limit(b.create_tx) != Some(400_000u32) || tx_cu_price(b.create_tx) is Some {
        None
    } else if exists|k: int| 0 <= k < f.len() && !drop_ok(#[trigger] f[k]) {
        None
    } else if drop_entries(f, f.len() as int).len() < 2 {
        None
    } else {
        Some(drop_entries(f, f.len() as int))
    }
}

/// The "drop" pattern of a bundle (see [`spec_drop_pattern`]).
pub fn drop_pattern<R>(b: &TxBundle<R>) -> (r: Option<Vec<(u32, u64)>>)
    ensures
        match r {
            None => spec_drop_pattern(*b) is None,
            Some(v) => spec_drop_pattern(*b) == Some(v@),
        },
{
    let ghost f = b.follow_txs@;
    if b.follow_txs.len() == 0 {
        return None;
    }
    let create_limit = match find_cu_limit(&b.create_tx.flattened_ixs) {
        Some(u) => u,
        None => {
            return None;
        },
    };
    if find_cu_price(&b.create_tx.flattened_ixs).is_some() {
        return None;
    }
    if create_limit != 400_000 {
        return None;
    }
    let mut res: Vec<(u32, u64)> = Vec::new();
    let mut k: usize = 0;
    while k < b.follow_txs.len()
        invariant
            0 <= k <= f.len(),
            f == b.follow_txs@,
            forall|m: int| 0 <= m < k ==> drop_ok(#[trigger] f[m]),
            res@ == drop_entries(f, k as int),
        decreases f.len() - k,
    {
        let tx = &b.follow_txs[k];
        let min_out = match find_buy_exact_in(&tx.flattened_ixs) {
            Some(m) => m,
            None => {
                assert(!drop_ok(f[k as int]));
                return None;
            },
        };
        if min_out != 1 {
            assert(!drop_ok(f[k as int]));
            return None;
        }
        if find_cu_price(&tx.flattened_ixs).is_some() {
            assert(!drop_ok(f[k as int]));
            return None;
        }
        if let Some(u) = find_cu_limit(&tx.flattened_ixs) {
            if u != 400_000 {
                assert(!drop_ok(f[k as int]));
                return None;
            }
            res.push((u, min_out));
        }
        k = k + 1;
    }
    if res.len() < 2 {
        return None;
    }
    Some(res)
}

// ----- new GNG5 pattern -----

/// The first pump buy's `max_sol_cost` is one of the two marker values.
pub open spec fn is_marker_cost(c: u64) -> bool {
    c == 15_544_500_000u64 || c == 8_445_000_000u64
}

/// For the first `n` transactions whose first buy has a marker cost: that cost.
pub open spec fn marker_costs<R>(txs: Seq<TxInfo<R>>, n: int) -> Seq<u64>
    decreases n,
{
    if n <= 0 {
        Seq::empty()
    } else {
        let prev = marker_costs(txs, n - 1);
        match first_some(pump_buys(txs[n - 1].flattened_ixs@)) {
            Some(b) => if is_marker_cost(b.max_sol_cost) { prev.push(b.max_sol_cost) } else { prev },
            None => prev,
        }
    }
}

/// The "new GNG5" pattern of a bundle: every follow transaction holds a pump
/// buy, and exactly two of them have a first buy with a marker cost.
pub open spec fn spec_new_gng5<R>(b: TxBundle<R>) -> Option<Seq<u64>> {
    let f = b.follow_txs@;
    if exists|k: int| 0 <= k < f.len() && first_some(pump_buys((#[trigger] f[k]).flattened_ixs@)) is None {
        None
    } else if marker_costs(f, f.len() as int).len() != 2 {
        None
    } else {
        Some(marker_costs(f, f.len() as int))
    }
}

/// The "new GNG5" pattern of a bundle (see [`spec_new_gng5`]).
pub fn new_gng5_pattern<R>(b: &TxBundle<R>) -> (r: Option<Vec<u64>>)
    ensures
        match r {
            None => spec_new_gng5(*b) is None,
            Some(v) => spec_new_gng5(*b) == Some(v@),
        },
{
    let ghost f = b.follow_txs@;
    let mut res: Vec<u64> = Vec::new();
    let mut k: usize = 0;
    while k < b.follow_txs.len()
        invariant
            0 <= k <= f.len(),
            f == b.follow_txs@,
            forall|m: int| 0 <= m < k ==> first_some(pump_buys((#[trigger] f[m]).flattened_ixs@)) is Some,
            res@ == marker_costs(f, k as int),
        decreases f.len() - k,
    {
        let buy = match find_pump_buy(&b.follow_txs[k].flattened_ixs) {
            Some(x) => x,
            None => {
                return None;
            },
        };
        if buy.max_sol_cost == 15_544_500_000 || buy.max_sol_cost == 8_445_000_000 {
            res.push(buy.max_sol_cost);
        }
        k = k + 1;
    }
    if res.len() != 2 {
        return None;
    }
    Some(res)
}

// ----- GNG5 and multi-buy -----

/// A GNG5 bundle: its first follow transaction's first pump buy allows the
/// largest possible SOL cost.
pub open spec fn spec_is_gng5<R>(b: TxBundle<R>) -> bool {
    &&& b.follow_txs@.len() > 0
    &&& first_some(pump_buys(b.follow_txs@[0].flattened_ixs@)) matches Some(x)
    &&& x.max_sol_cost == u64::MAX
}

/// Whether the bundle is a GNG5 bundle (see [`spec_is_gng5`]).
pub fn is_gng5<R>(b: &TxBundle<R>) -> (r: bool)
    ensures
        r == spec_is_gng5(*b),
{
    if b.follow_txs.len() == 0 {
        return false;
    }
    match find_pump_buy(&b.follow_txs[0].flattened_ixs) {
        Some(x) => x.max_sol_cost == u64::MAX,
        None => false,
    }
}

// ----- what the patterns mean -----

/// The first compute-unit limit each transaction sets.
pub open spec fn limits_of<R>(txs: Seq<TxInfo<R>>) -> Seq<Option<u32>> {
    txs.map_values(|t: TxInfo<R>| first_some(cu_limits(t.flattened_ixs@)))
}

/// The `max_sol_cost` of each transaction's first pump buy, where it is one
/// of the two marker costs.
pub open spec fn marker_firsts<R>(txs: Seq<TxInfo<R>>) -> Seq<Option<u64>> {
    txs.map_values(
        |t: TxInfo<R>|
            match first_some(pump_buys(t.flattened_ixs@)) {
                Some(x) => if x.max_sol_cost == 15_544_500_000u64 || x.max_sol_cost == 8_445_000_000u64 {
                    Some(x.max_sol_cost)
                } else {
                    None
                },
                None => None,
            },
    )
}

proof fn lemma_drop_entries_meaning<R>(f: Seq<TxInfo<R>>, n: int)
    requires
        0 <= n <= f.len(),
        forall|k: int| 0 <= k < n ==> drop_ok(#[trigger] f[k]),
    ensures
        drop_entries(f, n).len() == count_some(limits_of(f), n),
        forall|i: int| 0 <= i < drop_entries(f, n).len() ==> #[trigger] drop_entries(f, n)[i] == (400_000u32, 1u64),
    decreases n,
{
    if n > 0 {
        lemma_drop_entries_meaning(f, n - 1);
        assert(drop_ok(f[n - 1]));
        assert(limits_of(f)[n - 1] == tx_cu_limit(f[n - 1]));
    }
}

/// A bundle is a "drop" bundle exactly when its create transaction sets the
/// limit 400000 and no price, every follow transaction buys with
/// `buy_exact_sol_in` asking for one token, sets no price and sets no limit
/// other than 400000, and at least two follow transactions set a limit; the
/// result then holds `(400000, 1)` once per follow transaction that sets a
/// limit.
pub proof fn lemma_drop_pattern_meaning<R>(b: TxBundle<R>)
    ensures
        spec_drop_pattern(b) is Some <==> {
            &&& first_some(cu_limits(b.create_tx.flattened_ixs@)) == Some(400_000u32)
            &&& first_some(cu_prices(b.create_tx.flattened_ixs@)) is None
            &&& forall|k: int| 0 <= k < b.follow_txs@.len() ==> {
                &&& first_some(buy_exact_ins((#[trigger] b.follow_txs@[k]).flattened_ixs@)) == Some(1u64)
                &&& first_some(cu_prices(b.follow_txs@[k].flattened_ixs@)) is None
                &&& first_some(cu_limits(b.follow_txs@[k].flattened_ixs@)) is Some ==> first_some(
                    cu_limits(b.follow_txs@[k].flattened_ixs@),
                ) == Some(400_000u32)
            }
            &&& count_some(limits_of(b.follow_txs@), b.follow_txs@.len() as int) >= 2
        },
        spec_drop_pattern(b) matches Some(v) ==> {
            &&& v.len() == count_some(limits_of(b.follow_txs@), b.follow_txs@.len() as int)
            &&& forall|i: int| 0 <= i < v.len() ==> #[trigger] v[i] == (400_000u32, 1u64)
        },
{
    let f = b.follow_txs@;
    let all_ok = forall|k: int| 0 <= k < f.len() ==> drop_ok(#[trigger] f[k]);
    if all_ok {
        lemma_drop_entries_meaning(f, f.len() as int);
    }
    if count_some(limits_of(f), f.len() as int) >= 2 {
        lemma_count_some_le(limits_of(f), f.len() as int);
    }
}

/// At most `n` of the first `n` are `Some`.
proof fn lemma_count_some_le<T>(s: Seq<Option<T>>, n: int)
    requires
        0 <= n,
    ensures
        count_some(s, n) <= n,
    decreases n,
{
    if n > 0 {
        lemma_count_some_le(s, n - 1);
    }
}

proof fn lemma_per_buy_entries_meaning<R>(f: Seq<TxInfo<R>>, n: int)
    requires
        0 <= n <= f.len(),
        forall|k: int| 0 <= k < n ==> per_buy_ok(#[trigger] f[k]),
    ensures
        per_buy_entries(f, n).len() == count_some(limits_of(f), n),
        forall|i: int|
            0 <= i < per_buy_entries(f, n).len() ==> {
                &&& (#[trigger] per_buy_entries(f, n)[i]).1 >= 2
                &&& per_buy_entries(f, n)[i].0 == 150_000 * per_buy_entries(f, n)[i].1 + 50_000
            },
    decreases n,
{
    if n > 0 {
        lemma_per_buy_entries_meaning(f, n - 1);
        let t = f[n - 1];
        assert(per_buy_ok(t));
        assert(limits_of(f)[n - 1] == tx_cu_limit(t));
        if let Some(u) = tx_cu_limit(t) {
            assert(u == 150_000 * tx_buys(t) + 50_000);
            assert(tx_buys(t) <= 28_632);
            assert((tx_buys(t) as usize) == tx_buys(t));
        }
    }
}

/// A bundle has the "150k per buy" pattern exactly when its create
/// transaction sets the limit 400000, it has follow transactions, each holds
/// at least two pump buys and sets no limit other than 150000 per buy plus
/// 50000, and some follow transaction sets a limit; each entry of the result
/// is then such a limit with its number of buys, one per follow transaction
/// that sets a limit.
pub proof fn lemma_cu_per_buy_meaning<R>(b: TxBundle<R>)
    ensures
        spec_cu_per_buy(b) is Some <==> {
            &&& first_some(cu_limits(b.create_tx.flattened_ixs@)) == Some(400_000u32)
            &&& forall|k: int| 0 <= k < b.follow_txs@.len() ==> {
                &&& buy_count((#[trigger] b.follow_txs@[k]).flattened_ixs@) >= 2
                &&& first_some(cu_limits(b.follow_txs@[k].flattened_ixs@)) matches Some(u) ==> u == 150_000
                    * buy_count(b.follow_txs@[k].flattened_ixs@) + 50_000
            }
            &&& count_some(limits_of(b.follow_txs@), b.follow_txs@.len() as int) >= 1
        },
        spec_cu_per_buy(b) matches Some(v) ==> {
            &&& v.len() == count_some(limits_of(b.follow_txs@), b.follow_txs@.len() as int)
            &&& forall|i: int| 0 <= i < v.len() ==> (#[trigger] v[i]).1 >= 2 && v[i].0 == 150_000 * v[i].1 + 50_000
        },
{
    let f = b.follow_txs@;
    let all_ok = forall|k: int| 0 <= k < f.len() ==> per_buy_ok(#[trigger] f[k]);
    if all_ok {
        lemma_per_buy_entries_meaning(f, f.len() as int);
    }
    if count_some(limits_of(f), f.len() as int) >= 1 {
        lemma_count_some_le(limits_of(f), f.len() as int);
    }
}

proof fn lemma_marker_costs_meaning<R>(f: Seq<TxInfo<R>>, n: int)
    requires
        0 <= n <= f.len(),
    ensures
        marker_costs(f, n).len() == count_some(marker_firsts(f), n),
        forall|i: int|
            0 <= i < marker_costs(f, n).len() ==> #[trigger] marker_costs(f, n)[i] == 15_544_500_000u64
                || marker_costs(f, n)[i] == 8_445_000_000u64,
    decreases n,
{
    if n > 0 {
        lemma_marker_costs_meaning(f, n - 1);
        assert(marker_firsts(f)[n - 1] == match first_some(pump_buys(f[n - 1].flattened_ixs@)) {
            Some(x) => if x.max_sol_cost == 15_544_500_000u64 || x.max_sol_cost == 8_445_000_000u64 {
                Some(x.max_sol_cost)
            } else {
                None
            },
            None => None,
        });
    }
}

/// A bundle has the "new GNG5" pattern exactly when every follow transaction
/// holds a pump buy and exactly two of them have a first buy whose
/// `max_sol_cost` is 15544500000 or 8445000000; the result then holds those
/// two costs, and nothing else.
pub proof fn lemma_new_gng5_meaning<R>(b: TxBundle<R>)
    ensures
        spec_new_gng5(b) is Some <==> {
            &&& forall|k: int|
                0 <= k < b.follow_txs@.len() ==> first_some(pump_buys((#[trigger] b.follow_txs@[k]).flattened_ixs@)) is Some
            &&& count_some(marker_firsts(b.follow_txs@), b.follow_txs@.len() as int) == 2
        },
        spec_new_gng5(b) matches Some(v) ==> {
            &&& v.len() == 2
            &&& forall|i: int| 0 <= i < v.len() ==> #[trigger] v[i] == 15_544_500_000u64 || v[i] == 8_445_000_000u64
        },
{
    lemma_marker_costs_meaning(b.follow_txs@, b.follow_txs@.len() as int);
}

/// Whether a bundle is a GNG5 bundle is decided by its first follow
/// transaction alone: it is one exactly when that transaction's first pump buy
/// allows a `max_sol_cost` of `u64::MAX`.
pub proof fn lemma_gng5_meaning<R>(b: TxBundle<R>)
    ensures
        spec_is_gng5(b) <==> b.follow_txs@.len() > 0 && first_some(pump_buys(b.follow_txs@[0].flattened_ixs@)) is Some
            && first_some(pump_buys(b.follow_txs@[0].flattened_ixs@)).unwrap().max_sol_cost == u64::MAX,
{
}

/// Two bundles with the same first follow transaction are both GNG5 bundles
/// or neither is, whatever their other follow transactions.
pub proof fn lemma_gng5_first_follow_decides<R>(b1: TxBundle<R>, b2: TxBundle<R>)
    requires
        b1.follow_txs@.len() > 0,
        b2.follow_txs@.len() > 0,
        b1.follow_txs@[0] == b2.follow_txs@[0],
    ensures
        spec_is_gng5(b1) == spec_is_gng5(b2),
{
    lemma_gng5_meaning(b1);
    lemma_gng5_meaning(b2);
}

/// Whether a block time falls in the window of the last `in_hours` hours
/// before `now` (both in seconds); a missing block time does not.
pub open spec fn spec_created_within(block_time: Option<i64>, now: i64, in_hours: u64) -> bool {
    block_time matches Some(bt) && bt >= now - (in_hours as i64) * 3600
}

/// Whether a block time falls in the window of the last `in_hours` hours
/// before `now` (see [`spec_created_within`]).
pub fn created_within(block_time: Option<i64>, now: i64, in_hours: u64) -> (r: bool)
    requires
        i64::MIN <= (in_hours as i64) * 3600 <= i64::MAX,
        i64::MIN <= now - (in_hours as i64) * 3600 <= i64::MAX,
    ensures
        r == spec_created_within(block_time, now, in_hours),
{
    let hours = in_hours as i64;
    let min_block_time = now - hours * 3600;
    match block_time {
        Some(bt) => bt >= min_block_time,
        None => false,
    }
}

/// The number of pump buys over the first `n` transactions.
pub open spec fn buys_upto<R>(txs: Seq<TxInfo<R>>, n: int) -> nat
    decreases n,
{
    if n <= 0 {
        0
    } else {
        buys_upto(txs, n - 1) + tx_buys(txs[n - 1])
    }
}

/// Partial buy counts never exceed later ones.
proof fn lemma_buys_upto_mono<R>(txs: Seq<TxInfo<R>>, m: int, n: int)
    requires
        0 <= m <= n,
    ensures
        buys_upto(txs, m) <= buys_upto(txs, n),
    decreases n - m,
{
    if m < n {
        lemma_buys_upto_mono(txs, m, n - 1);
    }
}

/// The number of pump buys over the follow transactions of the bundle.
pub fn follow_buy_count<R>(b: &TxBundle<R>) -> (n: usize)
    requires
        buys_upto(b.follow_txs@, b.follow_txs@.len() as int) <= usize::MAX,
    ensures
        n == buys_upto(b.follow_txs@, b.follow_txs@.len() as int),
{
    let ghost f = b.follow_txs@;
    let mut total: usize = 0;
    let mut k: usize = 0;
    while k < b.follow_txs.len()
        invariant
            0 <= k <= f.len(),
            f == b.follow_txs@,
            total == buys_upto(f, k as int),
            buys_upto(f, f.len() as int) <= usize::MAX,
        decreases f.len() - k,
    {
        proof {
            lemma_buys_upto_mono(f, k + 1, f.len() as int);
        }
        total = total + count_pump_buys(&b.follow_txs[k].flattened_ixs);
        k = k + 1;
    }
    total
}

/// The number of pump buys over the follow transactions of the bundle, or
/// `None` when it does not fit in a `usize`.
pub fn try_follow_buy_count<R>(b: &TxBundle<R>) -> (r: Option<usize>)
    ensures
        buys_upto(b.follow_txs@, b.follow_txs@.len() as int) <= usize::MAX ==> r == Some(
            buys_upto(b.follow_txs@, b.follow_txs@.len() as int) as usize,
        ),
        buys_upto(b.follow_txs@, b.follow_txs@.len() as int) > usize::MAX ==> r is None,
{
    let ghost f = b.follow_txs@;
    let mut total: usize = 0;
    let mut k: usize = 0;
    while k < b.follow_txs.len()
        invariant
            0 <= k <= f.len(),
            f == b.follow_txs@,
            total == buys_upto(f, k as int),
        decreases f.len() - k,
    {
        match total.checked_add(count_pump_buys(&b.follow_txs[k].flattened_ixs)) {
            Some(t) => {
                total = t;
            },
            None => {
                proof {
                    lemma_buys_upto_mono(f, k + 1, f.len() as int);
                }
                return None;
            },
        }
        k = k + 1;
    }
    Some(total)
}

/// A multi-buy bundle: it has follow transactions, and they hold more than
/// `min_follow_buy` pump buys in all.
pub open spec fn spec_is_multi_buy<R>(b: TxBundle<R>, min_follow_buy: usize) -> bool {
    &&& b.follow_txs@.len() > 0
    &&& buys_upto(b.follow_txs@, b.follow_txs@.len() as int) > min_follow_buy
}

/// Whether the bundle is a multi-buy bundle (see [`spec_is_multi_buy`]).
pub fn is_multi_buy<R>(b: &TxBundle<R>, min_follow_buy: usize) -> (r: bool)
    requires
        buys_upto(b.follow_txs@, b.follow_txs@.len() as int) <= usize::MAX,
    ensures
        r == spec_is_multi_buy(*b, min_follow_buy),
{
    if b.follow_txs.len() == 0 {
        return false;
    }
    follow_buy_count(b) > min_follow_buy
}

// ----- token amounts -----

/// The token amounts bought by the first `n` transactions.
pub open spec fn tokens_upto<R>(txs: Seq<TxInfo<R>>, n: int) -> nat
    decreases n,
{
    if n <= 0 {
        0
    } else {
        tokens_upto(txs, n - 1) + buy_tokens(txs[n - 1].flattened_ixs@)
    }
}

/// The non-zero token amounts bought by the first `n` transactions, in order.
pub open spec fn nonzero_amounts<R>(txs: Seq<TxInfo<R>>, n: int) -> Seq<u64>
    decreases n,
{
    if n <= 0 {
        Seq::empty()
    } else {
        let prev = nonzero_amounts(txs, n - 1);
        let a = buy_tokens(txs[n - 1].flattened_ixs@);
        if a > 0 { prev.push(a as u64) } else { prev }
    }
}

/// The token amounts a bundle buys.
pub struct TokenSummary {
    /// What the create transaction buys.
    pub create_amount: u64,
    /// What each follow transaction that buys anything buys, in order.
    pub follow_amounts: Vec<u64>,
    /// What the whole bundle buys.
    pub total: u64,
}

/// The total a bundle buys.
pub open spec fn bundle_tokens<R>(b: TxBundle<R>) -> nat {
    buy_tokens(b.create_tx.flattened_ixs@) + tokens_upto(b.follow_txs@, b.follow_txs@.len() as int)
}

/// Partial token totals never exceed later ones.
proof fn lemma_tokens_upto_mono<R>(txs: Seq<TxInfo<R>>, m: int, n: int)
    requires
        0 <= m <= n,
    ensures
        tokens_upto(txs, m) <= tokens_upto(txs, n),
    decreases n - m,
{
    if m < n {
        lemma_tokens_upto_mono(txs, m, n - 1);
    }
}

/// The token amounts the bundle buys: in the create transaction, in each
/// follow transaction that buys anything, and in all.
pub fn token_summary<R>(b: &TxBundle<R>) -> (s: TokenSummary)
    requires
        bundle_tokens(*b) <= u64::MAX,
    ensures
        s.create_amount == buy_tokens(b.create_tx.flattened_ixs@),
        s.follow_amounts@ == nonzero_amounts(b.follow_txs@, b.follow_txs@.len() as int),
        s.total == bundle_tokens(*b),
{
    let ghost f = b.follow_txs@;
    let create_amount = sum_buy_tokens(&b.create_tx.flattened_ixs);
    let mut total: u64 = create_amount;
    let mut amounts: Vec<u64> = Vec::new();
    let mut k: usize = 0;
    while k < b.follow_txs.len()
        invariant
            0 <= k <= f.len(),
            f == b.follow_txs@,
            create_amount == buy_tokens(b.create_tx.flattened_ixs@),
            total == create_amount + tokens_upto(f, k as int),
            amounts@ == nonzero_amounts(f, k as int),
            bundle_tokens(*b) <= u64::MAX,
        decreases f.len() - k,
    {
        proof {
            lemma_tokens_upto_mono(f, k + 1, f.len() as int);
        }
        let a = sum_buy_tokens(&b.follow_txs[k].flattened_ixs);
        if a > 0 {
            amounts.push(a);
            total = total + a;
        }
        k = k + 1;
    }
    TokenSummary { create_amount, follow_amounts: amounts, total }
}

/// The token amounts the bundle buys (see [`token_summary`]), or `None` when
/// the total does not fit in a `u64`.
pub fn try_token_summary<R>(b: &TxBundle<R>) -> (r: Option<TokenSummary>)
    ensures
        bundle_tokens(*b) > u64::MAX ==> r is None,
        bundle_tokens(*b) <= u64::MAX ==> r is Some,
        r matches Some(s) ==> {
            &&& s.create_amount == buy_tokens(b.create_tx.flattened_ixs@)
            &&& s.follow_amounts@ == nonzero_amounts(b.follow_txs@, b.follow_txs@.len() as int)
            &&& s.total == bundle_tokens(*b)
        },
{
    let ghost f = b.follow_txs@;
    let create_amount = match checked_buy_tokens(&b.create_tx.flattened_ixs) {
        Some(a) => a,
        None => {
            proof {
                lemma_tokens_upto_mono(f, 0, f.len() as int);
            }
            return None;
        },
    };
    let mut total: u64 = create_amount;
    let mut k: usize = 0;
    while k < b.follow_txs.len()
        invariant
            0 <= k <= f.len(),
            f == b.follow_txs@,
            create_amount == buy_tokens(b.create_tx.flattened_ixs@),
            total == create_amount + tokens_upto(f, k as int),
        decreases f.len() - k,
    {
        let a = match checked_buy_tokens(&b.follow_txs[k].flattened_ixs) {
            Some(a) => a,
            None => {
                proof {
                    lemma_tokens_upto_mono(f, k + 1, f.len() as int);
                }
                return None;
            },
        };
        match total.checked_add(a) {
            Some(t) => {
                total = t;
            },
            None => {
                proof {
                    lemma_tokens_upto_mono(f, k + 1, f.len() as int);
                }
                return None;
            },
        }
        k = k + 1;
    }
    Some(token_summary(b))
}

} // verus!
