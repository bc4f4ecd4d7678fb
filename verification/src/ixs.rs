use vstd::prelude::*;

use crate::seqs::{count_some, first_some, first_some_from};
use crate::types::{FlatIx, PumpBuy, Pubkey, TxInfo};

verus! {

/// The compute-unit limit each instruction sets, if any.
pub open spec fn cu_limits<R>(ixs: Seq<FlatIx<R>>) -> Seq<Option<u32>> {
    ixs.map_values(|ix: FlatIx<R>| ix.facts.cu_limit)
}

/// The compute-unit price each instruction sets, if any.
pub open spec fn cu_prices<R>(ixs: Seq<FlatIx<R>>) -> Seq<Option<u64>> {
    ixs.map_values(|ix: FlatIx<R>| ix.facts.cu_price)
}

/// The pump `buy` each instruction is, if any.
pub open spec fn pump_buys<R>(ixs: Seq<FlatIx<R>>) -> Seq<Option<PumpBuy>> {
    ixs.map_values(|ix: FlatIx<R>| ix.facts.pump_buy)
}

/// The `min_token_out` of each pump `buy_exact_sol_in`, if any.
pub open spec fn buy_exact_ins<R>(ixs: Seq<FlatIx<R>>) -> Seq<Option<u64>> {
    ixs.map_values(|ix: FlatIx<R>| ix.facts.pump_buy_exact_in)
}

/// The mint each pump `create` instruction creates, if any.
pub open spec fn create_mints<R>(ixs: Seq<FlatIx<R>>) -> Seq<Option<Pubkey>> {
    ixs.map_values(|ix: FlatIx<R>| ix.facts.pump_create_mint)
}

/// The mint each pump `migrate` instruction migrates, if any.
pub open spec fn migrate_mints<R>(ixs: Seq<FlatIx<R>>) -> Seq<Option<Pubkey>> {
    ixs.map_values(|ix: FlatIx<R>| ix.facts.pump_migrate_mint)
}

/// The total `token_amount` of the pump `buy`s among `s[..n]`.
pub open spec fn buy_tokens_upto(s: Seq<Option<PumpBuy>>, n: int) -> nat
    decreases n,
{
    if n <= 0 {
        0
    } else {
        match s[n - 1] {
            Some(b) => buy_tokens_upto(s, n - 1) + b.token_amount as nat,
            None => buy_tokens_upto(s, n - 1),
        }
    }
}

/// The total `token_amount` of the pump `buy`s among the instructions.
pub open spec fn buy_tokens<R>(ixs: Seq<FlatIx<R>>) -> nat {
    buy_tokens_upto(pump_buys(ixs), ixs.len() as int)
}

/// How many of the instructions are pump `buy`s.
pub open spec fn buy_count<R>(ixs: Seq<FlatIx<R>>) -> nat {
    count_some(pump_buys(ixs), ixs.len() as int)
}

/// Whether some instruction sets the compute-unit limit to `units`.
pub open spec fn sets_cu_limit<R>(ixs: Seq<FlatIx<R>>, units: u32) -> bool {
    exists|i: int| 0 <= i < ixs.len() && #[trigger] ixs[i].facts.cu_limit == Some(units)
}

/// Partial buy totals never exceed later ones.
pub proof fn lemma_buy_tokens_mono(s: Seq<Option<PumpBuy>>, m: int, n: int)
    requires
        0 <= m <= n,
    ensures
        buy_tokens_upto(s, m) <= buy_tokens_upto(s, n),
    decreases n - m,
{
    if m < n {
        lemma_buy_tokens_mono(s, m, n - 1);
    }
}

/// The first compute-unit limit set among the instructions.
pub fn find_cu_limit<R>(ixs: &Vec<FlatIx<R>>) -> (r: Option<u32>)
    ensures
        r == first_some(cu_limits(ixs@)),
{
    let mut i: usize = 0;
    while i < ixs.len()
        invariant
            0 <= i <= ixs.len(),
            first_some(cu_limits(ixs@)) == first_some_from(cu_limits(ixs@), i as int),
        decreases ixs.len() - i,
    {
        if let Some(u) = ixs[i].facts.cu_limit {
            return Some(u);
        }
        i = i + 1;
    }
    None
}

/// The first compute-unit price set among the instructions.
pub fn find_cu_price<R>(ixs: &Vec<FlatIx<R>>) -> (r: Option<u64>)
    ensures
        r == first_some(cu_prices(ixs@)),
{
    let mut i: usize = 0;
    while i < ixs.len()
        invariant
            0 <= i <= ixs.len(),
            first_some(cu_prices(ixs@)) == first_some_from(cu_prices(ixs@), i as int),
        decreases ixs.len() - i,
    {
        if let Some(p) = ixs[i].facts.cu_price {
            return Some(p);
        }
        i = i + 1;
    }
    None
}

/// The first pump `buy` among the instructions.
pub fn find_pump_buy<R>(ixs: &Vec<FlatIx<R>>) -> (r: Option<PumpBuy>)
    ensures
        r == first_some(pump_buys(ixs@)),
{
    let mut i: usize = 0;
    while i < ixs.len()
        invariant
            0 <= i <= ixs.len(),
            first_some(pump_buys(ixs@)) == first_some_from(pump_buys(ixs@), i as int),
        decreases ixs.len() - i,
    {
        if let Some(b) = ixs[i].facts.pump_buy {
            return Some(b);
        }
        i = i + 1;
    }
    None
}

/// The `min_token_out` of the first pump `buy_exact_sol_in` among the instructions.
pub fn find_buy_exact_in<R>(ixs: &Vec<FlatIx<R>>) -> (r: Option<u64>)
    ensures
        r == first_some(buy_exact_ins(ixs@)),
{
    let mut i: usize = 0;
    while i < ixs.len()
        invariant
            0 <= i <= ixs.len(),
            first_some(buy_exact_ins(ixs@)) == first_some_from(buy_exact_ins(ixs@), i as int),
        decreases ixs.len() - i,
    {
        if let Some(m) = ixs[i].facts.pump_buy_exact_in {
            return Some(m);
        }
        i = i + 1;
    }
    None
}

/// The mint of the first pump `create` among the instructions.
pub fn find_create_mint<R>(ixs: &Vec<FlatIx<R>>) -> (r: Option<Pubkey>)
    ensures
        r == first_some(create_mints(ixs@)),
{
    let mut i: usize = 0;
    while i < ixs.len()
        invariant
            0 <= i <= ixs.len(),
            first_some(create_mints(ixs@)) == first_some_from(create_mints(ixs@), i as int),
        decreases ixs.len() - i,
    {
        if let Some(m) = ixs[i].facts.pump_create_mint {
            return Some(m);
        }
        i = i + 1;
    }
    None
}

/// The mint of the first pump `migrate` among the instructions.
pub fn find_migrate_mint<R>(ixs: &Vec<FlatIx<R>>) -> (r: Option<Pubkey>)
    ensures
        r == first_some(migrate_mints(ixs@)),
{
    let mut i: usize = 0;
    while i < ixs.len()
        invariant
            0 <= i <= ixs.len(),
            first_some(migrate_mints(ixs@)) == first_some_from(migrate_mints(ixs@), i as int),
        decreases ixs.len() - i,
    {
        if let Some(m) = ixs[i].facts.pump_migrate_mint {
            return Some(m);
        }
        i = i + 1;
    }
    None
}

/// How many of the instructions are pump `buy`s.
pub fn count_pump_buys<R>(ixs: &Vec<FlatIx<R>>) -> (r: usize)
    ensures
        r == buy_count(ixs@),
{
    let mut i: usize = 0;
    let mut c: usize = 0;
    while i < ixs.len()
        invariant
            0 <= i <= ixs.len(),
            c == count_some(pump_buys(ixs@), i as int),
            c <= i,
        decreases ixs.len() - i,
    {
        if ixs[i].facts.pump_buy.is_some() {
            c = c + 1;
        }
        i = i + 1;
    }
    c
}

/// Whether some instruction sets the compute-unit limit to `units`.
pub fn has_cu_limit<R>(ixs: &Vec<FlatIx<R>>, units: u32) -> (r: bool)
    ensures
        r == sets_cu_limit(ixs@, units),
{
    let mut i: usize = 0;
    while i < ixs.len()
        invariant
            0 <= i <= ixs.len(),
            forall|j: int| 0 <= j < i ==> #[trigger] ixs@[j].facts.cu_limit != Some(units),
        decreases ixs.len() - i,
    {
        if ixs[i].facts.cu_limit == Some(units) {
            return true;
        }
        i = i + 1;
    }
    false
}

/// The total `token_amount` of the pump `buy`s among the instructions.
pub fn sum_buy_tokens<R>(ixs: &Vec<FlatIx<R>>) -> (r: u64)
    requires
        buy_tokens(ixs@) <= u64::MAX,
    ensures
        r == buy_tokens(ixs@),
{
    let mut i: usize = 0;
    let mut total: u64 = 0;
    while i < ixs.len()
        invariant
            0 <= i <= ixs.len(),
            total == buy_tokens_upto(pump_buys(ixs@), i as int),
            buy_tokens(ixs@) <= u64::MAX,
        decreases ixs.len() - i,
    {
        if let Some(b) = ixs[i].facts.pump_buy {
            proof {
                lemma_buy_tokens_mono(pump_buys(ixs@), i + 1, ixs@.len() as int);
            }
            total = total + b.token_amount;
        }
        i = i + 1;
    }
    total
}

/// The total `token_amount` of the pump `buy`s among the instructions, or
/// `None` when it does not fit in a `u64`.
pub fn checked_buy_tokens<R>(ixs: &Vec<FlatIx<R>>) -> (r: Option<u64>)
    ensures
        buy_tokens(ixs@) <= u64::MAX ==> r == Some(buy_tokens(ixs@) as u64),
        buy_tokens(ixs@) > u64::MAX ==> r is None,
{
    let mut i: usize = 0;
    let mut total: u64 = 0;
    while i < ixs.len()
        invariant
            0 <= i <= ixs.len(),
            total == buy_tokens_upto(pump_buys(ixs@), i as int),
        decreases ixs.len() - i,
    {
        if let Some(b) = ixs[i].facts.pump_buy {
            match total.checked_add(b.token_amount) {
                Some(t) => {
                    total = t;
                },
                None => {
                    proof {
                        lemma_buy_tokens_mono(pump_buys(ixs@), i + 1, ixs@.len() as int);
                    }
                    return None;
                },
            }
        }
        i = i + 1;
    }
    Some(total)
}

/// The compute-unit limit and price that a transaction sets (the first of each).
pub fn extract_cu_info<R>(tx: &TxInfo<R>) -> (r: (Option<u32>, Option<u64>))
    ensures
        r.0 == first_some(cu_limits(tx.flattened_ixs@)),
        r.1 == first_some(cu_prices(tx.flattened_ixs@)),
{
    (find_cu_limit(&tx.flattened_ixs), find_cu_price(&tx.flattened_ixs))
}

} // verus!
