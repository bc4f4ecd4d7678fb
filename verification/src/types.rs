use vstd::prelude::*;

verus! {

/// A 32-byte account address (a Solana public key), held as its raw bytes.
#[derive(Clone, Copy, Debug, PartialEq, Eq, Hash)]
pub struct Pubkey {
    pub bytes: [u8; 32],
}

impl Pubkey {
    /// Builds the key whose raw bytes are `bytes`.
    pub fn new_from_array(bytes: [u8; 32]) -> (k: Pubkey)
        ensures
            k.bytes == bytes,
    {
        Pubkey { bytes }
    }

    /// The raw bytes of the key.
    pub fn to_bytes(&self) -> (b: [u8; 32])
        ensures
            b == self.bytes,
    {
        self.bytes
    }

    /// Byte-wise comparison of two keys.
    pub fn same_as(&self, other: &Pubkey) -> (r: bool)
        ensures
            r == (*self == *other),
    {
        broadcast use vstd::array::group_array_axioms;

        let mut i: usize = 0;
        while i < 32
            invariant
                0 <= i <= 32,
                forall|j: int| 0 <= j < i ==> self.bytes[j] == other.bytes[j],
            decreases 32 - i,
        {
            if self.bytes[i] != other.bytes[i] {
                return false;
            }
            i = i + 1;
        }
        assert(self.bytes =~= other.bytes);
        true
    }
}

/// A 64-byte transaction signature, held as its raw bytes.
#[derive(Clone, Copy, Debug, PartialEq, Eq, Hash)]
pub struct Signature {
    pub bytes: [u8; 64],
}

/// The fields of a pump `buy` instruction that the analyses read.
#[derive(Clone, Copy, Debug, PartialEq, Eq)]
pub struct PumpBuy {
    pub token_amount: u64,
    pub max_sol_cost: u64,
}

/// What the instruction decoders report about one flattened instruction:
/// each field is the decoder's answer for this instruction (`None` when the
/// instruction is not of that kind).
#[derive(Clone, Copy, Debug, PartialEq, Eq)]
pub struct IxFacts {
    /// `SetComputeUnitLimit`: the requested units.
    pub cu_limit: Option<u32>,
    /// `SetComputeUnitPrice`: the price in micro-lamports.
    pub cu_price: Option<u64>,
    /// A pump `buy` instruction.
    pub pump_buy: Option<PumpBuy>,
    /// A pump `buy_exact_sol_in` instruction: its `min_token_out`.
    pub pump_buy_exact_in: Option<u64>,
    /// A pump `create` instruction: the mint it creates.
    pub pump_create_mint: Option<Pubkey>,
    /// A pump `migrate` instruction: the mint it migrates.
    pub pump_migrate_mint: Option<Pubkey>,
}

/// One flattened instruction of a transaction: the instruction as recorded
/// (`raw`, carried through untouched) and what the decoders report about it.
#[derive(Clone, Debug)]
pub struct FlatIx<R> {
    pub raw: R,
    pub facts: IxFacts,
}

/// The key data of a transaction.
#[derive(Clone, Debug)]
pub struct TxInfo<R> {
    pub signature: Signature,
    pub slot: u64,
    pub index: u64,
    pub account_keys: Vec<Pubkey>,
    pub flattened_ixs: Vec<FlatIx<R>>,
}

/// A bundle: the transaction that created a mint and the transactions that
/// followed it at consecutive positions of the same slot (at most four).
#[derive(Clone, Debug)]
pub struct TxBundle<R> {
    pub mint: Pubkey,
    pub create_tx: TxInfo<R>,
    pub follow_txs: Vec<TxInfo<R>>,
}

/// The mathematical value of a [`TxBundle`].
pub struct TxBundleView<R> {
    pub mint: Pubkey,
    pub create_tx: TxInfo<R>,
    pub follow_txs: Seq<TxInfo<R>>,
}

impl<R> View for TxBundle<R> {
    type V = TxBundleView<R>;

    open spec fn view(&self) -> TxBundleView<R> {
        TxBundleView { mint: self.mint, create_tx: self.create_tx, follow_txs: self.follow_txs@ }
    }
}

/// A detected migration of a mint.
#[derive(Clone, Copy, Debug, PartialEq, Eq)]
pub struct MigrateRecord {
    pub mint: Pubkey,
    pub signature: Signature,
    pub slot: u64,
}

/// The bytes of the pump program's address.
pub open spec fn pump_program_bytes() -> Seq<u8> {
    seq![
        1u8, 86, 224, 246, 147, 102, 90, 207, 68, 219, 21, 104, 191, 23, 91, 170,
        81, 137, 203, 151, 245, 210, 255, 59, 101, 93, 43, 182, 253, 109, 24, 176,
    ]
}

/// Whether `k` is the pump program's address.
pub open spec fn is_pump_program(k: Pubkey) -> bool {
    k.bytes@ == pump_program_bytes()
}

/// The pump program's address.
pub fn pump_program_id() -> (k: Pubkey)
    ensures
        is_pump_program(k),
{
    let k = Pubkey {
        bytes: [
            1u8, 86, 224, 246, 147, 102, 90, 207, 68, 219, 21, 104, 191, 23, 91, 170,
            81, 137, 203, 151, 245, 210, 255, 59, 101, 93, 43, 182, 253, 109, 24, 176,
        ],
    };
    assert(k.bytes@ =~= pump_program_bytes());
    k
}

/// Whether `k` occurs among `keys`.
pub fn contains_key(keys: &Vec<Pubkey>, k: &Pubkey) -> (r: bool)
    ensures
        r == keys@.contains(*k),
{
    let mut i: usize = 0;
    while i < keys.len()
        invariant
            0 <= i <= keys.len(),
            forall|j: int| 0 <= j < i ==> keys@[j] != *k,
        decreases keys.len() - i,
    {
        if keys[i].same_as(k) {
            assert(keys@[i as int] == *k);
            return true;
        }
        i = i + 1;
    }
    false
}

/// Whether the pump program's address occurs among `keys`.
pub fn mentions_pump_program(keys: &Vec<Pubkey>) -> (r: bool)
    ensures
        r == exists|i: int| 0 <= i < keys@.len() && is_pump_program(#[trigger] keys@[i]),
{
    let pump = pump_program_id();
    let r = contains_key(keys, &pump);
    proof {
        broadcast use vstd::array::group_array_axioms;
        if r {
            let i = choose|i: int| 0 <= i < keys@.len() && keys@[i] == pump;
            assert(is_pump_program(keys@[i]));
        } else {
            assert forall|i: int| 0 <= i < keys@.len() implies !is_pump_program(#[trigger] keys@[i]) by {
                if is_pump_program(keys@[i]) {
                    assert(keys@[i].bytes =~= pump.bytes);
                    assert(keys@.contains(pump));
                }
            }
        }
    }
    r
}

} // verus!
