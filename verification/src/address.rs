//! Addresses as text: base-58 reading and writing of keys (through solana's
//! `Pubkey`), and lists of mints given as a JSON array of strings.
use vstd::prelude::*;
use vstd::string::StringExecFns;

use crate::types::Pubkey;

verus! {

/// The bytes solana's `Pubkey::from_str` reads from `s`, or `None` where it
/// refuses `s`.
pub uninterp spec fn spec_parse_address(s: Seq<char>) -> Option<Seq<u8>>;

/// The base-58 text that solana's `Pubkey` displays for the key `bytes`.
pub uninterp spec fn spec_address_string(bytes: Seq<u8>) -> Seq<char>;

/// The strings `serde_json::from_str::<Vec<String>>` reads from `raw`, or
/// `None` where `raw` is no JSON array of strings.
pub uninterp spec fn spec_json_strings(raw: Seq<char>) -> Option<Seq<Seq<char>>>;

/// `Pubkey::from_str` of solana: base-58 decoding of a 32-byte key. Claimed:
/// the key is the one named by [`spec_parse_address`], and a text of more than
/// 44 characters is refused (the source checks the byte length against 44
/// before decoding).
#[verifier::external_body]
pub(crate) fn parse_address(s: &str) -> (r: Option<Pubkey>)
    ensures
        r is Some <==> spec_parse_address(s@) is Some,
        r matches Some(k) ==> spec_parse_address(s@) == Some(k.bytes@),
        s@.len() > 44 ==> r is None,
{
    match s.parse::<solana_sdk::pubkey::Pubkey>() {
        Ok(k) => Some(Pubkey { bytes: k.to_bytes() }),
        Err(_) => None,
    }
}

/// `Display` of solana's `Pubkey`: the base-58 text of the key
/// (`five8::encode_32` into a buffer of 44 bytes). Claimed: the text is the
/// one named by [`spec_address_string`], has at most 44 characters, and
/// `Pubkey::from_str` reads it back as the same key (`five8`'s own tests
/// decode encoded keys and compare them with the originals).
#[verifier::external_body]
pub(crate) fn address_string(k: &Pubkey) -> (s: String)
    ensures
        s@ == spec_address_string(k.bytes@),
        s@.len() <= 44,
        spec_parse_address(s@) == Some(k.bytes@),
{
    solana_sdk::pubkey::Pubkey::new_from_array(k.bytes).to_string()
}

/// `serde_json::from_str::<Vec<String>>`. Claimed: it succeeds exactly where
/// [`spec_json_strings`] gives strings, and gives those strings.
#[verifier::external_body]
pub(crate) fn parse_json_strings(raw: &str) -> (r: Option<Vec<String>>)
    ensures
        r is Some <==> spec_json_strings(raw@) is Some,
        r matches Some(v) ==> spec_json_strings(raw@) == Some(v@.map_values(|t: String| t@)),
{
    serde_json::from_str::<Vec<String>>(raw).ok()
}

/// The keys read from the first `n` strings, in order, skipping those that
/// are no address.
pub open spec fn parsed_addresses(strs: Seq<Seq<char>>, n: int) -> Seq<Seq<u8>>
    decreases n,
{
    if n <= 0 {
        Seq::empty()
    } else {
        let prev = parsed_addresses(strs, n - 1);
        match spec_parse_address(strs[n - 1]) {
            Some(k) => prev.push(k),
            None => prev,
        }
    }
}

/// The positions among the first `n` strings of those that are no address.
pub open spec fn address_failures(strs: Seq<Seq<char>>, n: int) -> Seq<usize>
    decreases n,
{
    if n <= 0 {
        Seq::empty()
    } else {
        let prev = address_failures(strs, n - 1);
        match spec_parse_address(strs[n - 1]) {
            Some(_) => prev,
            None => prev.push((n - 1) as usize),
        }
    }
}

/// Reads each string as an address: the keys read, in input order, and the
/// positions of the strings that are no address.
pub fn parse_mints(strs: &Vec<String>) -> (r: (Vec<Pubkey>, Vec<usize>))
    ensures
        r.0@.len() == parsed_addresses(strs@.map_values(|t: String| t@), strs@.len() as int).len(),
        forall|i: int|
            0 <= i < r.0@.len() ==> (#[trigger] r.0@[i]).bytes@ == parsed_addresses(
                strs@.map_values(|t: String| t@),
                strs@.len() as int,
            )[i],
        r.1@ == address_failures(strs@.map_values(|t: String| t@), strs@.len() as int),
{
    let ghost words = strs@.map_values(|t: String| t@);
    let mut keys: Vec<Pubkey> = Vec::new();
    let mut bad: Vec<usize> = Vec::new();
    let mut i: usize = 0;
    while i < strs.len()
        invariant
            0 <= i <= strs@.len(),
            words == strs@.map_values(|t: String| t@),
            keys@.len() == parsed_addresses(words, i as int).len(),
            forall|t: int| 0 <= t < keys@.len() ==> (#[trigger] keys@[t]).bytes@ == parsed_addresses(words, i as int)[t],
            bad@ == address_failures(words, i as int),
        decreases strs@.len() - i,
    {
        assert(words[i as int] == strs@[i as int]@);
        match parse_address(strs[i].as_str()) {
            Some(k) => {
                keys.push(k);
            },
            None => {
                bad.push(i);
            },
        }
        i = i + 1;
    }
    (keys, bad)
}

/// Reads a JSON array of address strings: `None` where the text is no JSON
/// array of strings; otherwise the strings, the keys read from them in order,
/// and the positions of the strings that are no address.
pub fn read_mint_list(raw: &str) -> (r: Option<(Vec<String>, Vec<Pubkey>, Vec<usize>)>)
    ensures
        r is Some <==> spec_json_strings(raw@) is Some,
        r matches Some(p) ==> {
            let strs = spec_json_strings(raw@).unwrap();
            &&& p.0@.map_values(|t: String| t@) == strs
            &&& p.1@.len() == parsed_addresses(strs, strs.len() as int).len()
            &&& forall|i: int|
                0 <= i < p.1@.len() ==> (#[trigger] p.1@[i]).bytes@ == parsed_addresses(strs, strs.len() as int)[i]
            &&& p.2@ == address_failures(strs, strs.len() as int)
        },
{
    match parse_json_strings(raw) {
        Some(strs) => {
            let (keys, bad) = parse_mints(&strs);
            Some((strs, keys, bad))
        },
        None => None,
    }
}

/// The command line of the bundle lookup: the mint address (the first
/// argument after the program, read as an address) and the database path
/// (the second, or the default). `None` when no mint is given.
pub fn get_bundle_args(args: &Vec<String>) -> (r: Option<(Option<Pubkey>, String)>)
    ensures
        args@.len() < 2 <==> r is None,
        r matches Some(p) ==> {
            &&& (p.0 is Some <==> spec_parse_address(args@[1]@) is Some)
            &&& (p.0 matches Some(k) ==> spec_parse_address(args@[1]@) == Some(k.bytes@))
            &&& p.1@ == if args@.len() > 2 {
                args@[2]@
            } else {
                seq!['.', '/', 'p', 'u', 'm', 'p', '_', 'b', 'u', 'n', 'd', 'l', 'e', 's', '_', 'd', 'b']
            }
        },
{
    if args.len() < 2 {
        return None;
    }
    let mint = parse_address(args[1].as_str());
    let db_path = if args.len() > 2 {
        args[2].clone()
    } else {
        let d = String::from_str("./pump_bundles_db");
        proof {
            reveal_strlit("./pump_bundles_db");
        }
        d
    };
    Some((mint, db_path))
}

/// The base-58 text of each key, in order; each reads back as its key.
pub fn address_strings(keys: &Vec<Pubkey>) -> (r: Vec<String>)
    ensures
        r@.len() == keys@.len(),
        forall|i: int|
            0 <= i < keys@.len() ==> (#[trigger] r@[i])@ == spec_address_string(keys@[i].bytes@)
                && spec_parse_address(r@[i]@) == Some(keys@[i].bytes@),
{
    let mut out: Vec<String> = Vec::new();
    let mut i: usize = 0;
    while i < keys.len()
        invariant
            0 <= i <= keys@.len(),
            out@.len() == i,
            forall|t: int|
                0 <= t < i ==> (#[trigger] out@[t])@ == spec_address_string(keys@[t].bytes@)
                    && spec_parse_address(out@[t]@) == Some(keys@[t].bytes@),
        decreases keys@.len() - i,
    {
        out.push(address_string(&keys[i]));
        i = i + 1;
    }
    out
}

} // verus!
