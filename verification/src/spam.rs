use vstd::prelude::*;

use crate::hexfmt::{decode_plain_hex, hex_decode};

verus! {

/// Gas limit of a plain value transfer.
pub const GAS_LIMIT: u64 = 21000;

/// What is added to the node's gas price so that the batch is picked up promptly.
pub const GAS_PRICE_BUMP: u128 = 1_000_000_000;

/// How long the node may take to include a transaction sent synchronously.
pub const SYNC_TX_TIMEOUT_MS: u64 = 6000;

/// How many transactions of a batch are in flight at once.
pub const MAX_IN_FLIGHT: usize = 5;

/// Why the spammer refuses its configuration.
pub enum SpammerError {
    /// The private key is not hexadecimal text of whole bytes.
    InvalidPrivateKeyHex,
}

/// The bytes of a private key given as hexadecimal text (no `0x` prefix), or the
/// error that it is not such text.
pub fn decode_private_key(private_key: &str) -> (r: Result<Vec<u8>, SpammerError>)
    ensures
        match r {
            Ok(bytes) => decode_plain_hex(private_key@) == Some(bytes@),
            Err(SpammerError::InvalidPrivateKeyHex) => decode_plain_hex(private_key@) is None,
        },
{
    match hex_decode(private_key) {
        Some(bytes) => Ok(bytes),
        None => Err(SpammerError::InvalidPrivateKeyHex),
    }
}

/// The gas price a batch pays: the node's price plus `GAS_PRICE_BUMP`.
pub fn bump_gas_price(gas_price: u128) -> (r: u128)
    requires
        gas_price + GAS_PRICE_BUMP <= u128::MAX,
    ensures
        r == gas_price + GAS_PRICE_BUMP,
{
    gas_price + GAS_PRICE_BUMP
}

/// A transfer of nothing from an account to itself.
pub struct SelfTransfer {
    pub from: [u8; 20],
    pub to: [u8; 20],
    pub nonce: u64,
    pub chain_id: u64,
    pub gas_limit: u64,
    pub max_fee_per_gas: u128,
    pub max_priority_fee_per_gas: u128,
    pub value: u128,
}

/// The transaction that the spammer sends with `nonce`: from `from` to itself,
/// value 0, gas limit `GAS_LIMIT`, the batch's gas price as the fee cap and a tenth
/// of it as the priority fee.
pub fn self_transfer(from: [u8; 20], nonce: u64, chain_id: u64, gas_price: u128) -> (r: SelfTransfer)
    ensures
        r.from == from,
        r.to == from,
        r.nonce == nonce,
        r.chain_id == chain_id,
        r.gas_limit == GAS_LIMIT,
        r.max_fee_per_gas == gas_price,
        r.max_priority_fee_per_gas == gas_price / 10,
        r.value == 0,
{
    SelfTransfer {
        from,
        to: from,
        nonce,
        chain_id,
        gas_limit: GAS_LIMIT,
        max_fee_per_gas: gas_price,
        max_priority_fee_per_gas: gas_price / 10,
        value: 0,
    }
}

/// The nonces of a batch of `num` transactions: `starting_nonce`,
/// `starting_nonce + 1`, ..., one per transaction, in sending order.
pub fn batch_nonces(starting_nonce: u64, num: usize) -> (r: Vec<u64>)
    requires
        starting_nonce + num <= u64::MAX + 1,
    ensures
        r.len() == num,
        forall|i: int| 0 <= i < num ==> #[trigger] r@[i] == starting_nonce + i,
{
    let mut r: Vec<u64> = Vec::new();
    let mut i: usize = 0;
    while i < num
        invariant
            i <= num,
            starting_nonce + num <= u64::MAX + 1,
            r.len() == i,
            forall|k: int| 0 <= k < i ==> #[trigger] r@[k] == starting_nonce + k,
        decreases num - i,
    {
        r.push(starting_nonce + i as u64);
        i = i + 1;
    }
    r
}

/// How many transactions of a batch went through and how many did not.
pub struct BatchReport {
    pub success_count: usize,
    pub failure_count: usize,
}

/// How many of `outcomes` are `value`.
pub open spec fn count_outcomes(outcomes: Seq<bool>, value: bool) -> nat
    decreases outcomes.len(),
{
    if outcomes.len() == 0 {
        0
    } else {
        count_outcomes(outcomes.drop_last(), value) + if outcomes.last() == value {
            1nat
        } else {
            0nat
        }
    }
}

/// Counts the outcomes of a batch: `true` for a transaction that went through,
/// `false` for one that failed or whose task did not finish.
pub fn tally(outcomes: &Vec<bool>) -> (r: BatchReport)
    ensures
        r.success_count == count_outcomes(outcomes@, true),
        r.failure_count == count_outcomes(outcomes@, false),
        r.success_count + r.failure_count == outcomes.len(),
{
    let mut success_count: usize = 0;
    let mut failure_count: usize = 0;
    let mut i: usize = 0;
    while i < outcomes.len()
        invariant
            i <= outcomes.len(),
            success_count == count_outcomes(outcomes@.take(i as int), true),
            failure_count == count_outcomes(outcomes@.take(i as int), false),
            success_count + failure_count == i,
        decreases outcomes.len() - i,
    {
        assert(outcomes@.take(i + 1).drop_last() =~= outcomes@.take(i as int));
        if outcomes[i] {
            success_count = success_count + 1;
        } else {
            failure_count = failure_count + 1;
        }
        i = i + 1;
    }
    assert(outcomes@.take(outcomes.len() as int) =~= outcomes@);
    BatchReport { success_count, failure_count }
}

} // verus!
