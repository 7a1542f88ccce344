use flashblocks_explorer::explorer::{
    block_info, flashblock_summary, get_block_details, get_blocks, transaction_hash, BlockInfo,
    DataFile, MAX_LISTED_BLOCKS,
};
use flashblocks_explorer::hexfmt::format_prefixed_hex;
use flashblocks_explorer::json::JsonValue;

const KECCAK_OF_ZERO_BYTE: &str =
    "0xbc36789e7a1e281436464229828f817d6612f7b477d66591ff96a9e064bcc98a";
const KECCAK_OF_NOTHING: &str =
    "0xc5d2460186f7233c927e7db2dcc703c0e500b653ca82273b7bfad8045d85a470";

fn s(t: &str) -> JsonValue {
    JsonValue::Str(t.to_string())
}

fn obj(members: Vec<(&str, JsonValue)>) -> JsonValue {
    JsonValue::Object(members.into_iter().map(|(k, v)| (k.to_string(), v)).collect())
}

fn block_json(hash: &str, extra: &str, txs: usize) -> JsonValue {
    obj(vec![
        ("block_hash", s(hash)),
        ("extra_data", s(extra)),
        ("transaction_hashes", JsonValue::Array((0..txs).map(|i| s(&format!("0x{:02x}", i))).collect())),
    ])
}

fn file(name: &str, content: Option<JsonValue>) -> DataFile {
    DataFile { name: name.to_string(), content }
}

#[test]
fn transaction_hashes_are_keccak_digests() {
    assert_eq!(transaction_hash("0x00").as_deref(), Some(KECCAK_OF_ZERO_BYTE));
    assert_eq!(transaction_hash("00").as_deref(), Some(KECCAK_OF_ZERO_BYTE));
    assert_eq!(transaction_hash("0X00").as_deref(), Some(KECCAK_OF_ZERO_BYTE));
    assert_eq!(transaction_hash("0x").as_deref(), Some(KECCAK_OF_NOTHING));
    assert_eq!(transaction_hash("").as_deref(), Some(KECCAK_OF_NOTHING));
    assert_eq!(transaction_hash("0x0"), None);
    assert_eq!(transaction_hash("zz"), None);
    assert_eq!(transaction_hash("0xgg"), None);
}

#[test]
fn block_info_reads_the_block_file() {
    let data = block_json("0xaa", "hello", 3);
    let info = block_info(9, &data, 2);
    assert_eq!(info.block_number, 9);
    assert_eq!(info.block_hash.as_deref(), Some("0xaa"));
    assert_eq!(info.extra_data.as_deref(), Some("hello"));
    assert_eq!(info.transaction_count, 3);
    assert_eq!(info.flashblock_count, 2);
}

#[test]
fn block_info_of_odd_content() {
    let data = obj(vec![
        ("block_hash", JsonValue::Number(Some(5))),
        ("transaction_hashes", s("not an array")),
    ]);
    let info = block_info(1, &data, 0);
    assert_eq!(info.block_hash, None);
    assert_eq!(info.extra_data, None);
    assert_eq!(info.transaction_count, 0);
    let info = block_info(1, &JsonValue::Array(vec![]), 0);
    assert_eq!(info.transaction_count, 0);
    assert_eq!(info.block_hash, None);
}

#[test]
fn block_list_newest_first_with_flashblock_counts() {
    let files = vec![
        file("10.json", Some(block_json("0x10", "a", 1))),
        file("flashblock_12_0.json", Some(JsonValue::Null)),
        file("12.json", Some(block_json("0x12", "b", 0))),
        file("flashblock_12_1.json", None),
        file("11.json", None),
        file("notes.txt", Some(JsonValue::Null)),
        file("flashblock_10_0.json", Some(JsonValue::Null)),
        file("13.json", Some(JsonValue::Null)),
    ];
    let blocks = get_blocks(&files);
    let numbers: Vec<u64> = blocks.iter().map(|b| b.block_number).collect();
    assert_eq!(numbers, vec![13, 12, 10]);
    let counts: Vec<usize> = blocks.iter().map(|b| b.flashblock_count).collect();
    assert_eq!(counts, vec![0, 2, 1]);
    assert_eq!(blocks[1].block_hash.as_deref(), Some("0x12"));
    assert_eq!(blocks[2].transaction_count, 1);
    assert_eq!(blocks[0].block_hash, None);
}

#[test]
fn block_list_keeps_the_latest_fifty() {
    let files: Vec<DataFile> = (0..120u64)
        .map(|n| file(&format!("{}.json", (n * 37) % 120), Some(block_json("0x", "", 0))))
        .collect();
    let blocks = get_blocks(&files);
    assert_eq!(blocks.len(), MAX_LISTED_BLOCKS);
    let numbers: Vec<u64> = blocks.iter().map(|b| b.block_number).collect();
    let expected: Vec<u64> = (70..120u64).rev().collect();
    assert_eq!(numbers, expected);
}

#[test]
fn block_list_keeps_directory_order_among_equal_numbers() {
    let files = vec![
        file("7.json", Some(block_json("0xfirst", "", 0))),
        file("8.json", Some(block_json("0x8", "", 0))),
        file("007.json", Some(block_json("0xsecond", "", 0))),
    ];
    let blocks: Vec<BlockInfo> = get_blocks(&files);
    let hashes: Vec<Option<String>> = blocks.iter().map(|b| b.block_hash.clone()).collect();
    assert_eq!(
        hashes,
        vec![Some("0x8".to_string()), Some("0xfirst".to_string()), Some("0xsecond".to_string())]
    );
}

#[test]
fn empty_directory_lists_nothing() {
    assert!(get_blocks(&Vec::new()).is_empty());
}

#[test]
fn flashblock_summary_hashes_raw_transactions() {
    let data = obj(vec![
        ("index", JsonValue::Number(Some(3))),
        (
            "diff",
            obj(vec![(
                "transactions",
                JsonValue::Array(vec![s("0x00"), s("zz"), JsonValue::Number(Some(1)), s("0x")]),
            )]),
        ),
    ]);
    let summary = flashblock_summary(&data);
    assert_eq!(summary.index, 3);
    assert_eq!(summary.transaction_count, 2);
    assert_eq!(summary.transaction_hashes, vec![KECCAK_OF_ZERO_BYTE.to_string(), KECCAK_OF_NOTHING.to_string()]);
}

#[test]
fn flashblock_summary_defaults() {
    let summary = flashblock_summary(&obj(vec![("index", JsonValue::Number(None))]));
    assert_eq!(summary.index, 0);
    assert_eq!(summary.transaction_count, 0);
    assert!(summary.transaction_hashes.is_empty());
    let summary = flashblock_summary(&obj(vec![("diff", s("x"))]));
    assert_eq!(summary.index, 0);
    assert!(summary.transaction_hashes.is_empty());
}

#[test]
fn block_details_collects_sorted_flashblocks() {
    let block = || {
        obj(vec![(
            "transaction_hashes",
            JsonValue::Array(vec![s("0xa"), JsonValue::Null, s("0xb")]),
        )])
    };
    let fb = |index: u64, txs: Vec<JsonValue>| {
        obj(vec![
            ("index", JsonValue::Number(Some(index))),
            ("diff", obj(vec![("transactions", JsonValue::Array(txs))])),
        ])
    };
    let files = vec![
        file("flashblock_4_2.json", Some(fb(2, vec![s("0x00")]))),
        file("flashblock_4_0.json", Some(fb(0, vec![]))),
        file("flashblock_44_1.json", Some(fb(1, vec![]))),
        file("flashblock_4_1.json", None),
        file("4.json", Some(block())),
        file("flashblock_4_1b.json", Some(fb(1, vec![s("0x"), s("0x00")]))),
    ];
    let details = get_block_details(4, Some(block()), &files);
    assert_eq!(details.block_number, 4);
    assert_eq!(details.transaction_hashes, vec!["0xa".to_string(), "0xb".to_string()]);
    let indexes: Vec<u64> = details.flashblocks.iter().map(|f| f.index).collect();
    assert_eq!(indexes, vec![0, 1, 2]);
    assert_eq!(details.flashblocks[1].transaction_count, 2);
    assert_eq!(details.flashblocks[2].transaction_hashes, vec![KECCAK_OF_ZERO_BYTE.to_string()]);
}

#[test]
fn block_details_without_block_file() {
    let details = get_block_details(9, None, &Vec::new());
    assert_eq!(details.block_number, 9);
    assert!(details.transaction_hashes.is_empty());
    assert!(details.flashblocks.is_empty());
}

#[test]
fn block_page_shows_no_more_flashblocks_than_counted() {
    let files = vec![
        file("12.json", Some(block_json("0x12", "b", 0))),
        file("flashblock_12_0.json", Some(JsonValue::Null)),
        file("flashblock_12_1.json", None),
        file("flashblock_120_1.json", Some(JsonValue::Null)),
    ];
    let listed = get_blocks(&files);
    assert_eq!(listed.len(), 1);
    assert_eq!(listed[0].flashblock_count, 2);
    let details = get_block_details(12, None, &files);
    assert_eq!(details.flashblocks.len(), 1);
    assert!(details.flashblocks.len() <= listed[0].flashblock_count);
    assert_eq!(details.flashblocks[0].index, 0);
}

#[test]
fn written_hex_reads_back() {
    assert_eq!(transaction_hash(&format_prefixed_hex(&[0])).as_deref(), Some(KECCAK_OF_ZERO_BYTE));
    assert_eq!(transaction_hash(&format_prefixed_hex(&[])).as_deref(), Some(KECCAK_OF_NOTHING));
}

#[test]
fn hashes_are_written_in_full() {
    let data = obj(vec![(
        "diff",
        obj(vec![("transactions", JsonValue::Array(vec![s("0x00"), s("0xdeadbeef")]))]),
    )]);
    let summary = flashblock_summary(&data);
    assert!(summary.transaction_hashes.iter().all(|h| h.len() == 66));
    assert_eq!(transaction_hash("0xabcd").map(|h| h.len()), Some(66));
}

#[test]
fn page_agrees_with_list() {
    let block = || obj(vec![("transaction_hashes", JsonValue::Array(vec![s("0xa"), JsonValue::Null]))]);
    let files = vec![
        file("3.json", Some(block())),
        file("flashblock_3_0.json", Some(JsonValue::Null)),
        file("flashblock_3_1.json", None),
    ];
    let row = &get_blocks(&files)[0];
    let page = get_block_details(3, Some(block()), &files);
    assert_eq!((row.transaction_count, row.flashblock_count), (2, 2));
    assert_eq!((page.transaction_hashes.len(), page.flashblocks.len()), (1, 1));
}
