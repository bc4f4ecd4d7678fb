use create_bundle_monitor::monitor::buffer::TxBuffer;
use create_bundle_monitor::monitor::migrate_monitor::PumpMigrateMonitor;
use create_bundle_monitor::monitor::{PumpCreateBundleMonitor, TIMEOUT_NANOS};
use create_bundle_monitor::types::pump_program_id;
use create_bundle_monitor::{FlatIx, IxFacts, MigrateRecord, Pubkey, Signature, TxBundle, TxInfo};

fn key(b: u8) -> Pubkey {
    Pubkey::new_from_array([b; 32])
}

fn sig(b: u8) -> Signature {
    Signature { bytes: [b; 64] }
}

fn no_facts() -> IxFacts {
    IxFacts {
        cu_limit: None,
        cu_price: None,
        pump_buy: None,
        pump_buy_exact_in: None,
        pump_create_mint: None,
        pump_migrate_mint: None,
    }
}

fn tx(slot: u64, index: u64, keys: Vec<Pubkey>, facts: Vec<IxFacts>) -> TxInfo<()> {
    TxInfo {
        signature: sig((index % 250) as u8),
        slot,
        index,
        account_keys: keys,
        flattened_ixs: facts.into_iter().map(|f| FlatIx { raw: (), facts: f }).collect(),
    }
}

fn create_tx(slot: u64, index: u64, mint: Pubkey) -> TxInfo<()> {
    let mut f = no_facts();
    f.pump_create_mint = Some(mint);
    tx(slot, index, vec![pump_program_id(), mint], vec![no_facts(), f])
}

fn follow_tx(slot: u64, index: u64, mint: Pubkey) -> TxInfo<()> {
    tx(slot, index, vec![pump_program_id(), mint], vec![no_facts()])
}

fn slots_of(bundle: &TxBundle<()>) -> Vec<(u64, u64)> {
    bundle.follow_txs.iter().map(|t| (t.slot, t.index)).collect()
}

#[test]
fn pubkey_compare_and_contains() {
    let a = key(1);
    let b = key(2);
    assert!(a.same_as(&key(1)));
    assert!(!a.same_as(&b));
    assert!(create_bundle_monitor::types::contains_key(&vec![b, a], &a));
    assert!(!create_bundle_monitor::types::contains_key(&vec![b], &a));
    assert_eq!(a.to_bytes(), [1u8; 32]);
}

#[test]
fn pump_program_address_bytes() {
    let p = pump_program_id();
    assert_eq!(
        p.to_bytes(),
        [
            1, 86, 224, 246, 147, 102, 90, 207, 68, 219, 21, 104, 191, 23, 91, 170, 81, 137, 203, 151, 245,
            210, 255, 59, 101, 93, 43, 182, 253, 109, 24, 176
        ]
    );
    let written: solana_sdk::pubkey::Pubkey = "6EF8rrecthR5Dkzon8Nwu78hRvfCKubJ14M5uBEwF6P".parse().unwrap();
    assert_eq!(p.to_bytes(), written.to_bytes());
}

#[test]
fn interested_only_in_pump_transactions() {
    let m: PumpCreateBundleMonitor<()> = PumpCreateBundleMonitor::new();
    assert_eq!(m.interested(&vec![key(9), pump_program_id()]), Some(true));
    assert_eq!(m.interested(&vec![key(9)]), Some(false));
    assert_eq!(m.interested(&vec![]), Some(false));
    let mm = PumpMigrateMonitor::new();
    assert_eq!(mm.interested(&vec![pump_program_id()]), Some(true));
    assert_eq!(mm.interested(&vec![key(3)]), Some(false));
}

#[test]
fn buffer_hands_out_earliest_first() {
    let mut b: TxBuffer<()> = TxBuffer::new();
    b.push(follow_tx(10, 5, key(1)));
    b.push(follow_tx(9, 7, key(1)));
    b.push(follow_tx(10, 1, key(1)));
    b.push(follow_tx(9, 2, key(1)));
    assert_eq!(b.len(), 4);
    assert_eq!(b.peek_slot(), Some(9));
    let order: Vec<(u64, u64)> = std::iter::from_fn(|| b.pop()).map(|t| (t.slot, t.index)).collect();
    assert_eq!(order, vec![(9, 2), (9, 7), (10, 1), (10, 5)]);
    assert_eq!(b.peek_slot(), None);
}

#[test]
fn buffer_keeps_arrival_order_for_equal_positions() {
    let mut b: TxBuffer<()> = TxBuffer::new();
    let mut first = follow_tx(3, 3, key(1));
    first.signature = sig(1);
    let mut second = follow_tx(3, 3, key(1));
    second.signature = sig(2);
    b.push(first);
    b.push(second);
    assert_eq!(b.pop().unwrap().signature, sig(1));
    assert_eq!(b.pop().unwrap().signature, sig(2));
}

#[test]
fn on_tx_tracks_newest_slot_and_count() {
    let mut m: PumpCreateBundleMonitor<()> = PumpCreateBundleMonitor::new();
    assert_eq!(m.on_tx(follow_tx(50, 0, key(1))), 1);
    assert_eq!(m.on_tx(follow_tx(40, 0, key(1))), 2);
    assert_eq!(m.on_tx(follow_tx(60, 0, key(1))), 3);
    assert_eq!(m.enqueued_count(), 3);
}

#[test]
fn nothing_processed_before_buffer_fills() {
    let mut m: PumpCreateBundleMonitor<()> = PumpCreateBundleMonitor::new();
    let mint = key(7);
    m.on_tx(create_tx(1, 0, mint));
    for i in 1..=4 {
        m.on_tx(follow_tx(1, i, mint));
    }
    m.on_tx(follow_tx(100, 0, key(2)));
    // far in the future: even timeouts are not swept yet
    assert!(m.tick(u64::MAX).is_empty());
}

fn filled_monitor() -> PumpCreateBundleMonitor<()> {
    let mut m: PumpCreateBundleMonitor<()> = PumpCreateBundleMonitor::new();
    // 100 unrelated transactions in an early slot fill the buffer
    for i in 0..100 {
        m.on_tx(follow_tx(0, i, key(200)));
    }
    m
}

#[test]
fn full_bundle_is_stored_after_four_follows() {
    let mut m = filled_monitor();
    let mint = key(7);
    m.on_tx(create_tx(10, 3, mint));
    for i in 4..=7 {
        m.on_tx(follow_tx(10, i, mint));
    }
    m.on_tx(follow_tx(20, 0, key(1))); // newest slot 20: slot 10 is ready
    let out = m.tick(0);
    assert_eq!(out.len(), 1);
    assert_eq!(out[0].mint, mint);
    assert_eq!((out[0].create_tx.slot, out[0].create_tx.index), (10, 3));
    assert_eq!(slots_of(&out[0]), vec![(10, 4), (10, 5), (10, 6), (10, 7)]);
}

#[test]
fn gap_completes_bundle_early() {
    let mut m = filled_monitor();
    let mint = key(7);
    m.on_tx(create_tx(10, 3, mint));
    m.on_tx(follow_tx(10, 4, mint));
    m.on_tx(follow_tx(10, 9, key(8))); // same slot, not the next position
    m.on_tx(follow_tx(30, 0, key(1)));
    let out = m.tick(0);
    assert_eq!(out.len(), 1);
    assert_eq!(slots_of(&out[0]), vec![(10, 4)]);
}

#[test]
fn gap_completes_every_broken_bundle() {
    let mut m = filled_monitor();
    let (x, y) = (key(7), key(8));
    m.on_tx(create_tx(10, 1, x));
    m.on_tx(create_tx(10, 2, y));
    m.on_tx(create_tx(10, 3, x)); // x opens afresh, in its old place before y
    m.on_tx(follow_tx(10, 4, x)); // joins x, and breaks the run of y
    m.on_tx(follow_tx(30, 0, key(1)));
    let out = m.tick(0);
    assert_eq!(out.len(), 1);
    assert_eq!(out[0].mint, y);
    assert!(out[0].follow_txs.is_empty());
    let later = m.tick(TIMEOUT_NANOS + 1);
    assert_eq!(later.len(), 1);
    assert_eq!(later[0].mint, x);
    assert_eq!(slots_of(&later[0]), vec![(10, 4)]);
}

#[test]
fn follow_must_name_the_mint() {
    let mut m = filled_monitor();
    let mint = key(7);
    m.on_tx(create_tx(10, 3, mint));
    m.on_tx(follow_tx(10, 4, key(8))); // right position, other mint: skipped
    m.on_tx(follow_tx(30, 0, key(1)));
    assert!(m.tick(0).is_empty());
    // after the timeout the bundle is stored without follow transactions
    let out = m.tick(TIMEOUT_NANOS + 1);
    assert_eq!(out.len(), 1);
    assert!(out[0].follow_txs.is_empty());
}

#[test]
fn recent_slots_wait_in_buffer() {
    let mut m = filled_monitor();
    let mint = key(7);
    m.on_tx(create_tx(10, 3, mint));
    for i in 4..=7 {
        m.on_tx(follow_tx(10, i, mint));
    }
    m.on_tx(follow_tx(11, 0, key(1))); // newest slot 11: slot 10 is one slot behind
    assert!(m.tick(0).is_empty());
    m.on_tx(follow_tx(12, 0, key(1))); // now two slots behind
    let out = m.tick(0);
    assert_eq!(out.len(), 1);
    assert_eq!(out[0].follow_txs.len(), 4);
}

#[test]
fn out_of_order_arrival_is_assembled_in_order() {
    let mut m = filled_monitor();
    let mint = key(7);
    m.on_tx(follow_tx(10, 6, mint));
    m.on_tx(follow_tx(10, 4, mint));
    m.on_tx(create_tx(10, 3, mint));
    m.on_tx(follow_tx(10, 7, mint));
    m.on_tx(follow_tx(10, 5, mint));
    m.on_tx(follow_tx(20, 0, key(1)));
    let out = m.tick(0);
    assert_eq!(out.len(), 1);
    assert_eq!(slots_of(&out[0]), vec![(10, 4), (10, 5), (10, 6), (10, 7)]);
}

#[test]
fn timeout_stores_stale_bundles_only() {
    let mut m = filled_monitor();
    m.on_tx(create_tx(10, 0, key(7)));
    m.on_tx(follow_tx(20, 0, key(1)));
    assert!(m.tick(1_000).is_empty());
    m.on_tx(create_tx(15, 0, key(8)));
    m.on_tx(follow_tx(25, 0, key(1)));
    assert!(m.tick(5_000_000_000).is_empty());
    // 10 s + 1 ns after the first bundle was opened: only it has timed out
    let out = m.cleanup_timeout_bundles(1_000 + TIMEOUT_NANOS + 1);
    assert_eq!(out.len(), 1);
    assert_eq!(out[0].mint, key(7));
    // exactly 10 s is not yet a timeout
    assert!(m.cleanup_timeout_bundles(5_000_000_000 + TIMEOUT_NANOS).is_empty());
    let out = m.cleanup_timeout_bundles(5_000_000_000 + TIMEOUT_NANOS + 1);
    assert_eq!(out.len(), 1);
    assert_eq!(out[0].mint, key(8));
}

#[test]
fn second_create_replaces_pending_bundle() {
    let mut m: PumpCreateBundleMonitor<()> = PumpCreateBundleMonitor::new();
    let mint = key(7);
    assert!(m.process_tx_internal(create_tx(10, 3, mint), 0).is_empty());
    assert!(m.process_tx_internal(follow_tx(10, 4, mint), 0).is_empty());
    assert!(m.process_tx_internal(create_tx(11, 0, mint), 0).is_empty());
    let out = m.cleanup_timeout_bundles(TIMEOUT_NANOS + 1);
    assert_eq!(out.len(), 1);
    assert_eq!(out[0].create_tx.slot, 11);
    assert!(out[0].follow_txs.is_empty());
}

#[test]
fn transaction_joins_one_bundle_only() {
    let mut m: PumpCreateBundleMonitor<()> = PumpCreateBundleMonitor::new();
    let a = key(1);
    let b = key(2);
    assert!(m.process_tx_internal(create_tx(10, 0, a), 0).is_empty());
    assert!(m.process_tx_internal(create_tx(20, 0, b), 0).is_empty());
    // names both mints, follows a
    let t = tx(10, 1, vec![a, b], vec![no_facts()]);
    assert!(m.process_tx_internal(t, 0).is_empty());
    let out = m.cleanup_timeout_bundles(TIMEOUT_NANOS + 1);
    assert_eq!(out.len(), 2);
    let ba = out.iter().find(|x| x.mint == a).unwrap();
    let bb = out.iter().find(|x| x.mint == b).unwrap();
    assert_eq!(ba.follow_txs.len(), 1);
    assert_eq!(bb.follow_txs.len(), 0);
}

#[test]
fn migrate_record_from_first_migrate_instruction() {
    let mm = PumpMigrateMonitor::new();
    let mut f1 = no_facts();
    f1.pump_migrate_mint = Some(key(5));
    let mut f2 = no_facts();
    f2.pump_migrate_mint = Some(key(6));
    let t = tx(77, 3, vec![], vec![no_facts(), f1, f2]);
    assert_eq!(mm.on_tx(&t), Some(MigrateRecord { mint: key(5), signature: t.signature, slot: 77 }));
    assert_eq!(mm.on_tx(&tx(1, 1, vec![], vec![no_facts()])), None);
}


#[test]
fn every_arrival_is_counted_and_assembled_once() {
    let mut m = filled_monitor();
    let mints = [key(11), key(12), key(13)];
    let mut calls = 100;
    for (n, mint) in mints.iter().enumerate() {
        m.on_tx(create_tx(20 + n as u64 * 5, 0, *mint));
        calls += 1;
        assert!(m.tick(0).is_empty());
    }
    m.on_tx(follow_tx(40, 0, key(1)));
    calls += 1;
    assert_eq!(m.enqueued_count(), calls);
    assert!(m.tick(0).is_empty());
    assert!(m.tick(0).is_empty());
    let out = m.tick(TIMEOUT_NANOS + 1);
    let stored: Vec<Pubkey> = out.iter().map(|b| b.mint).collect();
    assert_eq!(stored, mints.to_vec());
    assert!(m.tick(2 * TIMEOUT_NANOS + 2).is_empty());
    assert_eq!(m.enqueued_count(), calls);
}
