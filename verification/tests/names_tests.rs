use flashblocks_explorer::decimal::parse_u64;
use flashblocks_explorer::names::{
    block_file_name, block_number_of_file, count_flashblocks_for_block, flashblock_file_name,
    is_flashblock_of,
};

fn chars(s: &str) -> Vec<char> {
    s.chars().collect()
}

#[test]
fn decimal_writing() {
    assert_eq!(block_file_name(7), "7.json");
    assert_eq!(block_file_name(1234567), "1234567.json");
    assert_eq!(block_file_name(u64::MAX), "18446744073709551615.json");
}

#[test]
fn decimal_parsing_matches_std() {
    for s in [
        "0", "42", "+42", "007", "", "+", "-1", "1a", " 1", "18446744073709551615",
        "18446744073709551616", "99999999999999999999999", "+0",
    ] {
        assert_eq!(parse_u64(&chars(s)), s.parse::<u64>().ok(), "input {:?}", s);
    }
}

#[test]
fn decimal_round_trip() {
    for n in [0u64, 1, 9, 10, 99, 100, 12345, u64::MAX - 1, u64::MAX] {
        let name = block_file_name(n);
        let stem = name.strip_suffix(".json").unwrap();
        assert_eq!(parse_u64(&chars(stem)), Some(n));
    }
}

#[test]
fn file_names_of_writers() {
    assert_eq!(block_file_name(123), "123.json");
    assert_eq!(block_file_name(0), "0.json");
    assert_eq!(flashblock_file_name(123, 4), "flashblock_123_4.json");
    assert_eq!(flashblock_file_name(7, 10), "flashblock_7_10.json");
}

#[test]
fn block_files_are_recognised() {
    assert_eq!(block_number_of_file("123.json"), Some(123));
    assert_eq!(block_number_of_file("+7.json"), Some(7));
    assert_eq!(block_number_of_file("007.json"), Some(7));
    assert_eq!(block_number_of_file("18446744073709551615.json"), Some(u64::MAX));
    assert_eq!(block_number_of_file("18446744073709551616.json"), None);
    assert_eq!(block_number_of_file("flashblock_1_0.json"), None);
    assert_eq!(block_number_of_file("abc.json"), None);
    assert_eq!(block_number_of_file("123.txt"), None);
    assert_eq!(block_number_of_file(".json"), None);
    assert_eq!(block_number_of_file("json"), None);
    assert_eq!(block_number_of_file("-3.json"), None);
}

#[test]
fn written_block_file_is_listed_as_its_block() {
    for n in [0u64, 5, 1_000_000, u64::MAX] {
        assert_eq!(block_number_of_file(&block_file_name(n)), Some(n));
        assert!(!is_flashblock_of(&block_file_name(n), n));
    }
}

#[test]
fn flashblock_files_belong_to_their_block_only() {
    assert!(is_flashblock_of("flashblock_12_3.json", 12));
    assert!(!is_flashblock_of("flashblock_12_3.json", 1));
    assert!(!is_flashblock_of("flashblock_12_3.json", 123));
    assert!(!is_flashblock_of("flashblock_123_3.json", 12));
    assert!(!is_flashblock_of("flashblock_12", 12));
    for (m, i) in [(1u64, 0u64), (12, 3), (123, 45)] {
        let name = flashblock_file_name(m, i);
        assert_eq!(block_number_of_file(&name), None);
        for n in [1u64, 12, 123, 1234] {
            assert_eq!(is_flashblock_of(&name, n), m == n);
        }
    }
}

#[test]
fn flashblocks_are_counted_per_block() {
    let names: Vec<String> = [
        "flashblock_5_0.json",
        "flashblock_5_1.json",
        "flashblock_55_0.json",
        "5.json",
        "flashblock_6_0.json",
        "notes.txt",
    ]
    .iter()
    .map(|s| s.to_string())
    .collect();
    assert_eq!(count_flashblocks_for_block(&names, 5), 2);
    assert_eq!(count_flashblocks_for_block(&names, 55), 1);
    assert_eq!(count_flashblocks_for_block(&names, 6), 1);
    assert_eq!(count_flashblocks_for_block(&names, 7), 0);
    assert_eq!(count_flashblocks_for_block(&Vec::new(), 5), 0);
}

#[test]
fn new_flashblock_file_raises_only_its_own_block_count() {
    let mut names: Vec<String> = ["5.json", "flashblock_5_0.json", "flashblock_6_0.json"]
        .iter()
        .map(|s| s.to_string())
        .collect();
    let before: Vec<usize> = [5u64, 6, 55].iter().map(|b| count_flashblocks_for_block(&names, *b)).collect();
    names.insert(1, flashblock_file_name(5, 1));
    let after: Vec<usize> = [5u64, 6, 55].iter().map(|b| count_flashblocks_for_block(&names, *b)).collect();
    assert_eq!(before, vec![1, 1, 0]);
    assert_eq!(after, vec![2, 1, 0]);
}
