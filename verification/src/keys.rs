use vstd::prelude::*;

use crate::seqs::{select, select_all};
use crate::types::Pubkey;

verus! {

/// The test "key `i` is 32 bytes long" (the length of an address).
pub open spec fn address_sized(keys: Seq<Vec<u8>>) -> spec_fn(int) -> bool {
    |i: int| keys[i]@.len() == 32
}

/// The address whose bytes are `key`, which must be 32 bytes long.
fn address_of(key: &Vec<u8>) -> (m: Pubkey)
    requires
        key@.len() == 32,
    ensures
        m.bytes@ == key@,
{
    let mut bytes = [0u8; 32];
    let mut j: usize = 0;
    while j < 32
        invariant
            0 <= j <= 32,
            key@.len() == 32,
            forall|t: int| 0 <= t < j ==> bytes@[t] == key@[t],
        decreases 32 - j,
    {
        bytes[j] = key[j];
        j = j + 1;
    }
    assert(bytes@ =~= key@);
    Pubkey::new_from_array(bytes)
}

/// The mints stored under the given keys: each key of address length gives
/// the address with those bytes; other keys are skipped.
pub fn mints_from_keys(keys: &Vec<Vec<u8>>) -> (mints: Vec<Pubkey>)
    ensures
        mints@.len() == select_all(keys@, address_sized(keys@)).len(),
        forall|i: int| 0 <= i < mints@.len() ==> (#[trigger] mints@[i]).bytes@ == select_all(keys@, address_sized(keys@))[i]@,
{
    let ghost ks = keys@;
    let mut mints: Vec<Pubkey> = Vec::new();
    let mut i: usize = 0;
    while i < keys.len()
        invariant
            0 <= i <= ks.len(),
            ks == keys@,
            mints@.len() == select(ks, address_sized(ks), i as int).len(),
            forall|t: int| 0 <= t < mints@.len() ==> (#[trigger] mints@[t]).bytes@ == select(ks, address_sized(ks), i as int)[t]@,
        decreases ks.len() - i,
    {
        if keys[i].len() == 32 {
            let m = address_of(&keys[i]);
            mints.push(m);
        }
        i = i + 1;
    }
    mints
}

/// Reading back a stored key gives the mint it was stored under: the key of a
/// mint is kept by [`mints_from_keys`], and an address with the same bytes is
/// the mint itself.
pub proof fn lemma_mint_key_round_trip(mint: Pubkey, key: Seq<u8>, back: Pubkey)
    requires
        key == mint.bytes@,
        back.bytes@ == key,
    ensures
        key.len() == 32,
        back == mint,
{
    broadcast use vstd::array::group_array_axioms;

    assert(back.bytes =~= mint.bytes);
}

} // verus!
