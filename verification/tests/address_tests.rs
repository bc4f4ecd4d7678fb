use create_bundle_monitor::address::{address_strings, get_bundle_args, parse_mints, read_mint_list};
use create_bundle_monitor::types::pump_program_id;
use create_bundle_monitor::Pubkey;

const PUMP: &str = "6EF8rrecthR5Dkzon8Nwu78hRvfCKubJ14M5uBEwF6P";

fn words(ws: &[&str]) -> Vec<String> {
    ws.iter().map(|w| w.to_string()).collect()
}

#[test]
fn addresses_are_written_in_base58_and_read_back() {
    let keys = vec![pump_program_id(), Pubkey::new_from_array([0u8; 32]), Pubkey::new_from_array([255u8; 32])];
    let texts = address_strings(&keys);
    assert_eq!(texts[0], PUMP);
    assert_eq!(texts[1], "11111111111111111111111111111111");
    assert_eq!(texts[2], "JEKNVnkbo3jma5nREBBJCDoXFVeKkD56V3xKrvRmWxFG");
    let (back, bad) = parse_mints(&texts);
    assert_eq!(back, keys);
    assert!(bad.is_empty());
}

#[test]
fn bad_addresses_are_counted_in_place() {
    let too_long = format!("{}1", "J".repeat(44));
    let strs = words(&[PUMP, "not-base58!", "", &too_long, "11111111111111111111111111111111", "0OIl"]);
    let (keys, bad) = parse_mints(&strs);
    assert_eq!(keys, vec![pump_program_id(), Pubkey::new_from_array([0u8; 32])]);
    assert_eq!(bad, vec![1, 2, 3, 5]);
    for s in &strs {
        let std_ok = s.parse::<solana_sdk::pubkey::Pubkey>().is_ok();
        assert_eq!(parse_mints(&vec![s.clone()]).1.is_empty(), std_ok, "{:?}", s);
    }
}

#[test]
fn mint_lists_from_json() {
    let raw = format!("[\"{}\", \"x\"]", PUMP);
    let (strs, keys, bad) = read_mint_list(&raw).unwrap();
    assert_eq!(strs, words(&[PUMP, "x"]));
    assert_eq!(keys, vec![pump_program_id()]);
    assert_eq!(bad, vec![1]);
    assert!(read_mint_list("{\"a\": 1}").is_none());
    assert!(read_mint_list("[1, 2]").is_none());
    assert!(read_mint_list("not json").is_none());
    let (strs, keys, bad) = read_mint_list("[]").unwrap();
    assert!(strs.is_empty() && keys.is_empty() && bad.is_empty());
}

#[test]
fn bundle_lookup_arguments() {
    assert!(get_bundle_args(&words(&["get_bundle"])).is_none());
    let (mint, db) = get_bundle_args(&words(&["get_bundle", PUMP])).unwrap();
    assert_eq!(mint, Some(pump_program_id()));
    assert_eq!(db, "./pump_bundles_db");
    let (mint, db) = get_bundle_args(&words(&["get_bundle", "zz0", "/data"])).unwrap();
    assert_eq!(mint, None);
    assert_eq!(db, "/data");
}
