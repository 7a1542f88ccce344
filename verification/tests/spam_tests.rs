use flashblocks_explorer::spam::{
    batch_nonces, bump_gas_price, decode_private_key, self_transfer, tally, SpammerError,
    GAS_LIMIT, GAS_PRICE_BUMP,
};

#[test]
fn private_key_hex_is_decoded() {
    match decode_private_key("00ff10Ab") {
        Ok(bytes) => assert_eq!(bytes, vec![0x00, 0xff, 0x10, 0xab]),
        Err(_) => panic!("valid hex refused"),
    }
    match decode_private_key("") {
        Ok(bytes) => assert!(bytes.is_empty()),
        Err(_) => panic!("empty hex refused"),
    }
}

#[test]
fn bad_private_key_is_refused() {
    for bad in ["0x00", "abc", "zz", "0g", "é0"] {
        assert!(matches!(decode_private_key(bad), Err(SpammerError::InvalidPrivateKeyHex)), "{:?}", bad);
    }
}

#[test]
fn gas_price_is_bumped_by_one_gwei() {
    assert_eq!(bump_gas_price(0), 1_000_000_000);
    assert_eq!(bump_gas_price(2_500_000_000), 3_500_000_000);
    assert_eq!(bump_gas_price(u128::MAX - GAS_PRICE_BUMP), u128::MAX);
}

#[test]
fn self_transfer_fields() {
    let from = [7u8; 20];
    let tx = self_transfer(from, 12, 8453, 3_500_000_009);
    assert_eq!(tx.from, from);
    assert_eq!(tx.to, from);
    assert_eq!(tx.nonce, 12);
    assert_eq!(tx.chain_id, 8453);
    assert_eq!(tx.gas_limit, GAS_LIMIT);
    assert_eq!(tx.gas_limit, 21000);
    assert_eq!(tx.max_fee_per_gas, 3_500_000_009);
    assert_eq!(tx.max_priority_fee_per_gas, 350_000_000);
    assert_eq!(tx.value, 0);
}

#[test]
fn nonces_are_consecutive() {
    assert_eq!(batch_nonces(5, 4), vec![5, 6, 7, 8]);
    assert!(batch_nonces(5, 0).is_empty());
    assert_eq!(batch_nonces(u64::MAX - 1, 2), vec![u64::MAX - 1, u64::MAX]);
}

#[test]
fn outcomes_are_tallied() {
    let report = tally(&vec![true, false, true, true, false]);
    assert_eq!(report.success_count, 3);
    assert_eq!(report.failure_count, 2);
    let report = tally(&Vec::new());
    assert_eq!(report.success_count + report.failure_count, 0);
}
