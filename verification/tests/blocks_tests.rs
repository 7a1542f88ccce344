use flashblocks_explorer::blocks::{block_transactions, extra_data_display};
use flashblocks_explorer::hexfmt::format_prefixed_hex;

#[test]
fn extra_data_as_text_when_utf8() {
    assert_eq!(extra_data_display(b"hello"), "hello");
    assert_eq!(extra_data_display(b""), "");
    assert_eq!(extra_data_display("é".as_bytes()), "é");
}

#[test]
fn extra_data_as_hex_otherwise() {
    assert_eq!(extra_data_display(&[0xff, 0x00]), "0xff00");
    assert_eq!(extra_data_display(&[0xc3]), "0xc3");
    assert_eq!(extra_data_display(&[0x61, 0x80]), "0x6180");
}

#[test]
fn hashes_written_as_prefixed_lowercase_hex() {
    assert_eq!(format_prefixed_hex(&[0xde, 0xad, 0xBE, 0x0f]), "0xdeadbe0f");
    assert_eq!(format_prefixed_hex(&[]), "0x");
    let h = [0xabu8; 32];
    assert_eq!(format_prefixed_hex(&h), format!("0x{}", "ab".repeat(32)));
}

#[test]
fn block_record_of_a_block() {
    let hash = [0x11u8; 32];
    let mut tx1 = [0u8; 32];
    tx1[31] = 1;
    let tx2 = [0xffu8; 32];
    let record = block_transactions(42, &hash, b"builder", &vec![tx1, tx2]);
    assert_eq!(record.block_number, 42);
    assert_eq!(record.block_hash, format!("0x{}", "11".repeat(32)));
    assert_eq!(record.extra_data, "builder");
    assert_eq!(
        record.transaction_hashes,
        vec![format!("0x{}01", "00".repeat(31)), format!("0x{}", "ff".repeat(32))]
    );
    let empty = block_transactions(0, &hash, &[0xfe], &Vec::new());
    assert_eq!(empty.extra_data, "0xfe");
    assert!(empty.transaction_hashes.is_empty());
}
