use create_bundle_monitor::analysis::{
    analyze_cu_patterns, bundle_stats, cu_pattern, matches_cu_140k, matches_cu_filter, try_bundle_stats, CuPattern,
};
use create_bundle_monitor::filters::{
    created_within, cu_per_buy_pattern, drop_pattern, follow_buy_count, is_gng5, is_multi_buy, new_gng5_pattern,
    token_summary, try_follow_buy_count, try_token_summary,
};
use create_bundle_monitor::ixs::{checked_buy_tokens, count_pump_buys, extract_cu_info, has_cu_limit, sum_buy_tokens};
use create_bundle_monitor::keys::mints_from_keys;
use create_bundle_monitor::{FlatIx, IxFacts, Pubkey, PumpBuy, Signature, TxBundle, TxInfo};

fn key(b: u8) -> Pubkey {
    Pubkey::new_from_array([b; 32])
}

fn none() -> IxFacts {
    IxFacts {
        cu_limit: None,
        cu_price: None,
        pump_buy: None,
        pump_buy_exact_in: None,
        pump_create_mint: None,
        pump_migrate_mint: None,
    }
}

fn limit(u: u32) -> IxFacts {
    IxFacts { cu_limit: Some(u), ..none() }
}

fn price(p: u64) -> IxFacts {
    IxFacts { cu_price: Some(p), ..none() }
}

fn buy(amount: u64, max_cost: u64) -> IxFacts {
    IxFacts { pump_buy: Some(PumpBuy { token_amount: amount, max_sol_cost: max_cost }), ..none() }
}

fn buy_exact(min_out: u64) -> IxFacts {
    IxFacts { pump_buy_exact_in: Some(min_out), ..none() }
}

fn tx(index: u64, facts: Vec<IxFacts>) -> TxInfo<()> {
    TxInfo {
        signature: Signature { bytes: [index as u8; 64] },
        slot: 5,
        index,
        account_keys: vec![],
        flattened_ixs: facts.into_iter().map(|f| FlatIx { raw: (), facts: f }).collect(),
    }
}

fn bundle(mint: u8, create: Vec<IxFacts>, follows: Vec<Vec<IxFacts>>) -> TxBundle<()> {
    TxBundle {
        mint: key(mint),
        create_tx: tx(0, create),
        follow_txs: follows.into_iter().enumerate().map(|(i, f)| tx(i as u64 + 1, f)).collect(),
    }
}

#[test]
fn instruction_queries() {
    let t = tx(1, vec![none(), price(7), limit(140_000), limit(5), buy(3, 9), buy(4, 9), price(8)]);
    assert_eq!(extract_cu_info(&t), (Some(140_000), Some(7)));
    assert_eq!(extract_cu_info(&tx(1, vec![none()])), (None, None));
    assert_eq!(count_pump_buys(&t.flattened_ixs), 2);
    assert_eq!(sum_buy_tokens(&t.flattened_ixs), 7);
    assert!(has_cu_limit(&t.flattened_ixs, 5));
    assert!(!has_cu_limit(&t.flattened_ixs, 6));
}

#[test]
fn cu_filter_requires_every_follow_tx() {
    let all = bundle(1, vec![], vec![vec![limit(140_000)], vec![none(), limit(140_000)]]);
    let one_missing = bundle(2, vec![], vec![vec![limit(140_000)], vec![limit(150_000)]]);
    let no_follow = bundle(3, vec![limit(140_000)], vec![]);
    assert!(matches_cu_filter(&all, 140_000, None));
    assert!(matches_cu_140k(&all));
    assert!(!matches_cu_filter(&one_missing, 140_000, None));
    assert!(!matches_cu_140k(&no_follow));
    assert!(matches_cu_filter(&all, 140_000, Some(2)));
    assert!(!matches_cu_filter(&all, 140_000, Some(3)));
    // a later instruction with the target counts even if an earlier one differs
    let later = bundle(4, vec![], vec![vec![limit(1), limit(140_000)]]);
    assert!(matches_cu_140k(&later));
}

#[test]
fn stats_of_bundles() {
    let bs = vec![
        bundle(1, vec![], vec![]),
        bundle(2, vec![], vec![vec![], vec![]]),
        bundle(3, vec![], vec![vec![], vec![]]),
    ];
    let mut bs = bs;
    bs[0].create_tx.slot = 30;
    bs[1].create_tx.slot = 10;
    bs[2].create_tx.slot = 20;
    let st = bundle_stats(&bs);
    assert_eq!(st.total_bundles, 3);
    assert_eq!(st.follow_tx_counts, vec![1, 0, 2, 0, 0]);
    assert_eq!(st.total_follow_txs, 4);
    assert_eq!((st.min_slot, st.max_slot), (10, 30));
    // every bundle has at most four follow transactions: the distribution covers all of them
    assert_eq!(st.follow_tx_counts.iter().sum::<usize>(), st.total_bundles);
    let weighted: usize = st.follow_tx_counts.iter().enumerate().map(|(c, n)| c * n).sum();
    assert_eq!(weighted, st.total_follow_txs);
    let empty: Vec<TxBundle<()>> = vec![];
    let st = bundle_stats(&empty);
    assert_eq!((st.min_slot, st.max_slot, st.total_follow_txs), (u64::MAX, 0, 0));
}

#[test]
fn cu_patterns_classify_and_group() {
    let bs = vec![
        bundle(1, vec![], vec![vec![limit(140_000)], vec![limit(140_000)]]),
        bundle(2, vec![], vec![vec![limit(200_000)]]),
        bundle(3, vec![], vec![]),
        bundle(4, vec![], vec![vec![limit(140_000)], vec![none()]]),
        bundle(5, vec![], vec![vec![limit(140_000)], vec![limit(1)]]),
        bundle(6, vec![], vec![vec![limit(140_000)]]),
    ];
    assert_eq!(cu_pattern(&bs[0]), CuPattern::Uniform(140_000));
    assert_eq!(cu_pattern(&bs[2]), CuPattern::NoFollow);
    assert_eq!(cu_pattern(&bs[3]), CuPattern::Mixed);
    assert_eq!(cu_pattern(&bs[4]), CuPattern::Mixed);
    let s = analyze_cu_patterns(&bs);
    assert_eq!((s.no_follow, s.mixed, s.uniform), (1, 2, 3));
    assert_eq!(s.no_follow + s.mixed + s.uniform, bs.len());
    assert_eq!(s.groups.len(), 2);
    assert_eq!((s.groups[0].cu, s.groups[0].count), (140_000, 2));
    assert_eq!(s.groups[0].mints, vec![key(1), key(6)]);
    assert_eq!((s.groups[1].cu, s.groups[1].count), (200_000, 1));
    assert_eq!(s.groups[1].mints, vec![key(2)]);
}

#[test]
fn cu_per_buy_pattern_cases() {
    let two_buys = |u: u32| vec![limit(u), buy(1, 1), buy(1, 1)];
    let ok = bundle(1, vec![limit(400_000)], vec![two_buys(350_000), vec![buy(1, 1), buy(1, 1), buy(1, 1)]]);
    assert_eq!(cu_per_buy_pattern(&ok), Some(vec![(350_000, 2)]));
    let wrong_limit = bundle(2, vec![limit(400_000)], vec![two_buys(300_000)]);
    assert_eq!(cu_per_buy_pattern(&wrong_limit), None);
    let one_buy = bundle(3, vec![limit(400_000)], vec![two_buys(350_000), vec![buy(1, 1)]]);
    assert_eq!(cu_per_buy_pattern(&one_buy), None);
    let create_other = bundle(4, vec![limit(300_000)], vec![two_buys(350_000)]);
    assert_eq!(cu_per_buy_pattern(&create_other), None);
    let no_limits = bundle(5, vec![limit(400_000)], vec![vec![buy(1, 1), buy(1, 1)]]);
    assert_eq!(cu_per_buy_pattern(&no_limits), None);
}

#[test]
fn drop_pattern_cases() {
    let f = || vec![buy_exact(1), limit(400_000)];
    let ok = bundle(1, vec![limit(400_000)], vec![f(), f(), vec![buy_exact(1)]]);
    assert_eq!(drop_pattern(&ok), Some(vec![(400_000, 1), (400_000, 1)]));
    let priced_create = bundle(2, vec![limit(400_000), price(5)], vec![f(), f()]);
    assert_eq!(drop_pattern(&priced_create), None);
    let only_one = bundle(3, vec![limit(400_000)], vec![f(), vec![buy_exact(1)]]);
    assert_eq!(drop_pattern(&only_one), None);
    let min_two = bundle(4, vec![limit(400_000)], vec![f(), vec![buy_exact(2), limit(400_000)]]);
    assert_eq!(drop_pattern(&min_two), None);
    let priced_follow = bundle(5, vec![limit(400_000)], vec![f(), vec![buy_exact(1), price(1), limit(400_000)]]);
    assert_eq!(drop_pattern(&priced_follow), None);
}

#[test]
fn new_gng5_cases() {
    let ok = bundle(1, vec![], vec![vec![buy(1, 15_544_500_000)], vec![buy(1, 7)], vec![buy(1, 8_445_000_000)]]);
    assert_eq!(new_gng5_pattern(&ok), Some(vec![15_544_500_000, 8_445_000_000]));
    let missing_buy = bundle(2, vec![], vec![vec![buy(1, 15_544_500_000)], vec![], vec![buy(1, 8_445_000_000)]]);
    assert_eq!(new_gng5_pattern(&missing_buy), None);
    let three = bundle(3, vec![], vec![vec![buy(1, 8_445_000_000)]; 3]);
    assert_eq!(new_gng5_pattern(&three), None);
    assert_eq!(new_gng5_pattern(&bundle(4, vec![], vec![])), None);
}

#[test]
fn gng5_and_multi_buy() {
    let g = bundle(1, vec![], vec![vec![none(), buy(5, u64::MAX), buy(1, 1)], vec![]]);
    assert!(is_gng5(&g));
    let not_first = bundle(2, vec![], vec![vec![buy(5, 1), buy(5, u64::MAX)]]);
    assert!(!is_gng5(&not_first));
    assert!(!is_gng5(&bundle(3, vec![], vec![])));
    let mb = bundle(4, vec![buy(1, 1)], vec![vec![buy(1, 1), buy(1, 1)], vec![buy(1, 1)]]);
    assert_eq!(follow_buy_count(&mb), 3);
    assert!(is_multi_buy(&mb, 2));
    assert!(!is_multi_buy(&mb, 3));
    assert!(!is_multi_buy(&bundle(5, vec![buy(1, 1)], vec![]), 0));
}

#[test]
fn token_amounts() {
    let b = bundle(1, vec![buy(10, 0), buy(5, 0)], vec![vec![buy(7, 0)], vec![none()], vec![buy(1, 0), buy(2, 0)]]);
    let s = token_summary(&b);
    assert_eq!(s.create_amount, 15);
    assert_eq!(s.follow_amounts, vec![7, 3]);
    assert_eq!(s.total, 25);
}

#[test]
fn block_time_window() {
    assert!(created_within(Some(1_000 - 3_600), 1_000, 1));
    assert!(!created_within(Some(1_000 - 3_601), 1_000, 1));
    assert!(!created_within(None, 1_000, 12));
    assert!(created_within(Some(5), 5, 0));
}

#[test]
fn keys_of_address_length_become_mints() {
    let keys = vec![vec![1u8; 32], vec![2u8; 31], vec![], vec![3u8; 32], vec![4u8; 33]];
    assert_eq!(mints_from_keys(&keys), vec![key(1), key(3)]);
    let m = key(42);
    assert_eq!(mints_from_keys(&vec![m.to_bytes().to_vec()]), vec![m]);
}

#[test]
fn checked_totals() {
    let t = tx(1, vec![buy(u64::MAX - 1, 0), none(), buy(1, 0)]);
    assert_eq!(checked_buy_tokens(&t.flattened_ixs), Some(u64::MAX));
    let over = tx(1, vec![buy(u64::MAX, 0), buy(1, 0)]);
    assert_eq!(checked_buy_tokens(&over.flattened_ixs), None);

    let b = bundle(1, vec![buy(10, 0), buy(5, 0)], vec![vec![buy(7, 0)], vec![none()], vec![buy(1, 0), buy(2, 0)]]);
    let s = try_token_summary(&b).unwrap();
    assert_eq!((s.create_amount, s.follow_amounts.clone(), s.total), (15, vec![7, 3], 25));
    let across = bundle(2, vec![buy(u64::MAX, 0)], vec![vec![buy(1, 0)]]);
    assert!(try_token_summary(&across).is_none());
    let within = bundle(3, vec![], vec![vec![buy(u64::MAX, 0), buy(1, 0)]]);
    assert!(try_token_summary(&within).is_none());

    let mb = bundle(4, vec![buy(1, 1)], vec![vec![buy(1, 1), buy(1, 1)], vec![buy(1, 1)]]);
    assert_eq!(try_follow_buy_count(&mb), Some(3));

    let bs = vec![bundle(1, vec![], vec![vec![], vec![]]), bundle(2, vec![], vec![])];
    let st = try_bundle_stats(&bs).unwrap();
    assert_eq!((st.total_bundles, st.total_follow_txs), (2, 2));
    assert_eq!(st.follow_tx_counts, vec![1, 0, 1, 0, 0]);
}
