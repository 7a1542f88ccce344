use vstd::prelude::*;

use crate::hexfmt::{
    decode_prefixed_hex, format_prefixed_hex, keccak256, lower_hex, parse_hex_bytes,
    prefixed_hex, spec_keccak256,
};
use crate::json::JsonValue;
use crate::names::{
    block_file_name_spec, block_number_of_file, block_number_of_file_spec,
    count_flashblocks_for_block, flashblock_count_spec, flashblock_file_name_spec,
    is_flashblock_of, is_flashblock_of_spec, lemma_block_file_is_listed,
    lemma_flashblock_file_belongs_to_its_block,
};
use crate::sorting::{
    lemma_sort_by_key, lemma_sort_map, sort_by_key, sorted_by_key, stable_sort_by_key, Keyed,
};

verus! {

/// The most blocks that the block list shows.
pub const MAX_LISTED_BLOCKS: usize = 50;

/// One row of the block list.
#[derive(Debug)]
pub struct BlockInfo {
    pub block_number: u64,
    pub block_hash: Option<String>,
    pub extra_data: Option<String>,
    pub transaction_count: usize,
    pub flashblock_count: usize,
}

/// One flashblock of a block, as the block page shows it.
#[derive(Debug)]
pub struct FlashblockSummary {
    pub index: u64,
    pub transaction_count: usize,
    pub transaction_hashes: Vec<String>,
}

/// A block with its transactions and its flashblocks.
#[derive(Debug)]
pub struct BlockDetails {
    pub block_number: u64,
    pub transaction_hashes: Vec<String>,
    pub flashblocks: Vec<FlashblockSummary>,
}

/// A file of the data directory: its name, and its content read as JSON (`None`
/// when it could not be read or is not JSON).
#[derive(Debug)]
pub struct DataFile {
    pub name: String,
    pub content: Option<JsonValue>,
}

/// What a flashblock summary holds, as text.
pub struct FlashblockSummaryView {
    pub index: u64,
    pub transaction_count: nat,
    pub transaction_hashes: Seq<Seq<char>>,
}

/// What block details hold, as text.
pub struct BlockDetailsView {
    pub block_number: u64,
    pub transaction_hashes: Seq<Seq<char>>,
    pub flashblocks: Seq<FlashblockSummaryView>,
}

impl View for FlashblockSummary {
    type V = FlashblockSummaryView;

    open spec fn view(&self) -> FlashblockSummaryView {
        FlashblockSummaryView {
            index: self.index,
            transaction_count: self.transaction_count as nat,
            transaction_hashes: self.transaction_hashes@.map_values(|s: String| s@),
        }
    }
}

impl View for BlockDetails {
    type V = BlockDetailsView;

    open spec fn view(&self) -> BlockDetailsView {
        BlockDetailsView {
            block_number: self.block_number,
            transaction_hashes: self.transaction_hashes@.map_values(|s: String| s@),
            flashblocks: self.flashblocks@.map_values(|f: FlashblockSummary| f@),
        }
    }
}

impl Keyed for BlockInfo {
    open spec fn key_spec(&self) -> int {
        self.block_number as int
    }

    fn key(&self) -> (k: u64) {
        self.block_number
    }
}

impl Keyed for FlashblockSummary {
    open spec fn key_spec(&self) -> int {
        self.index as int
    }

    fn key(&self) -> (k: u64) {
        self.index
    }
}

/// The member `key` of `data`, when it is an array: its length, else 0.
pub open spec fn array_len_or_zero(data: JsonValue, key: Seq<char>) -> nat {
    match data.field_spec(key) {
        Some(v) => match v.as_array_spec() {
            Some(a) => a.len(),
            None => 0,
        },
        None => 0,
    }
}

/// The member `key` of `data`, when it is a string.
pub open spec fn str_field(data: JsonValue, key: Seq<char>) -> Option<String> {
    match data.field_spec(key) {
        Some(v) => v.as_str_spec(),
        None => None,
    }
}

/// The row of the block list for block `n`, read from its block file `data`.
pub open spec fn block_info_spec(n: u64, data: JsonValue, flashblock_count: nat) -> BlockInfo {
    BlockInfo {
        block_number: n,
        block_hash: str_field(data, "block_hash"@),
        extra_data: str_field(data, "extra_data"@),
        transaction_count: array_len_or_zero(data, "transaction_hashes"@) as usize,
        flashblock_count: flashblock_count as usize,
    }
}

/// The names of the data files.
pub open spec fn file_names(files: Seq<DataFile>) -> Seq<Seq<char>> {
    files.map_values(|f: DataFile| f.name@)
}

/// The rows of the block list, in directory order, for the block files among
/// `files` that could be read as JSON; `all` is the whole directory, in which the
/// flashblocks of each block are counted.
pub open spec fn listed_blocks(files: Seq<DataFile>, all: Seq<DataFile>) -> Seq<BlockInfo>
    decreases files.len(),
{
    if files.len() == 0 {
        Seq::empty()
    } else {
        let earlier = listed_blocks(files.drop_last(), all);
        let f = files.last();
        match block_number_of_file_spec(f.name@) {
            Some(n) => match f.content {
                Some(data) => earlier.push(
                    block_info_spec(n, data, flashblock_count_spec(file_names(all), n as nat)),
                ),
                None => earlier,
            },
            None => earlier,
        }
    }
}

/// The block list: the rows of the block files, newest block first (blocks with the
/// same number in directory order), at most `MAX_LISTED_BLOCKS` of them.
pub open spec fn block_list_spec(files: Seq<DataFile>) -> Seq<BlockInfo> {
    let sorted = sort_by_key(listed_blocks(files, files), |b: BlockInfo| b.key_spec(), true);
    if sorted.len() <= MAX_LISTED_BLOCKS {
        sorted
    } else {
        sorted.take(MAX_LISTED_BLOCKS as int)
    }
}

/// The text that identifies a raw transaction written as hexadecimal text: `0x`
/// and the lowercase hexadecimal digits of the Keccak-256 digest of its bytes;
/// `None` when the text is not hexadecimal.
pub open spec fn tx_hash_text(raw: Seq<char>) -> Option<Seq<char>> {
    match decode_prefixed_hex(raw) {
        Some(bytes) => Some(prefixed_hex(spec_keccak256(bytes))),
        None => None,
    }
}

/// The hashes of the raw transactions listed in `txs`, skipping any element that is
/// not a string of hexadecimal text.
pub open spec fn tx_hash_texts(txs: Seq<JsonValue>) -> Seq<Seq<char>>
    decreases txs.len(),
{
    if txs.len() == 0 {
        Seq::empty()
    } else {
        let earlier = tx_hash_texts(txs.drop_last());
        match txs.last().as_str_spec() {
            Some(s) => match tx_hash_text(s@) {
                Some(h) => earlier.push(h),
                None => earlier,
            },
            None => earlier,
        }
    }
}

/// The raw transactions of a flashblock file: its `diff.transactions` array.
pub open spec fn flashblock_transactions(data: JsonValue) -> Seq<JsonValue> {
    match data.field_spec("diff"@) {
        Some(diff) => match diff.field_spec("transactions"@) {
            Some(txs) => match txs.as_array_spec() {
                Some(a) => a,
                None => Seq::empty(),
            },
            None => Seq::empty(),
        },
        None => Seq::empty(),
    }
}

/// The summary of a flashblock file: its `index` (0 when it is missing or not a
/// `u64`) and the hashes of its raw transactions.
pub open spec fn flashblock_summary_spec(data: JsonValue) -> FlashblockSummaryView {
    let hashes = tx_hash_texts(flashblock_transactions(data));
    FlashblockSummaryView {
        index: match data.field_spec("index"@) {
            Some(v) => match v.as_u64_spec() {
                Some(i) => i,
                None => 0,
            },
            None => 0,
        },
        transaction_count: hashes.len(),
        transaction_hashes: hashes,
    }
}

/// The strings among `values`, in order.
pub open spec fn string_elements(values: Seq<JsonValue>) -> Seq<Seq<char>>
    decreases values.len(),
{
    if values.len() == 0 {
        Seq::empty()
    } else {
        let earlier = string_elements(values.drop_last());
        match values.last().as_str_spec() {
            Some(s) => earlier.push(s@),
            None => earlier,
        }
    }
}

/// The transaction hashes of a block file: the strings of its
/// `transaction_hashes` array; none when the file is missing, is not JSON, or has
/// no such array.
pub open spec fn block_transaction_hashes(block_data: Option<JsonValue>) -> Seq<Seq<char>> {
    match block_data {
        Some(data) => match data.field_spec("transaction_hashes"@) {
            Some(v) => match v.as_array_spec() {
                Some(a) => string_elements(a),
                None => Seq::empty(),
            },
            None => Seq::empty(),
        },
        None => Seq::empty(),
    }
}

/// The summaries of the flashblock files of block `n` among `files` that could be
/// read as JSON, in directory order.
pub open spec fn flashblock_summaries(files: Seq<DataFile>, n: nat) -> Seq<FlashblockSummaryView>
    decreases files.len(),
{
    if files.len() == 0 {
        Seq::empty()
    } else {
        let earlier = flashblock_summaries(files.drop_last(), n);
        let f = files.last();
        if is_flashblock_of_spec(f.name@, n) {
            match f.content {
                Some(data) => earlier.push(flashblock_summary_spec(data)),
                None => earlier,
            }
        } else {
            earlier
        }
    }
}

/// The block page of block `n`: the transaction hashes of its block file, and the
/// summaries of its flashblocks by ascending index (equal indexes in directory
/// order).
pub open spec fn block_details_spec(
    n: u64,
    block_data: Option<JsonValue>,
    files: Seq<DataFile>,
) -> BlockDetailsView {
    BlockDetailsView {
        block_number: n,
        transaction_hashes: block_transaction_hashes(block_data),
        flashblocks: sort_by_key(
            flashblock_summaries(files, n as nat),
            |v: FlashblockSummaryView| v.index as int,
            false,
        ),
    }
}

fn str_member(data: &JsonValue, key: &str) -> (r: Option<String>)
    ensures
        r == str_field(*data, key@),
{
    match data.field(key) {
        Some(v) => match v.as_str() {
            Some(s) => Some(s.clone()),
            None => None,
        },
        None => None,
    }
}

/// The row of the block list for block `block_number`, read from the JSON of its
/// block file: its `block_hash` and `extra_data` strings, the length of its
/// `transaction_hashes` array (0 when there is none), and the number of its
/// flashblock files.
pub fn block_info(block_number: u64, data: &JsonValue, flashblock_count: usize) -> (r: BlockInfo)
    ensures
        r == block_info_spec(block_number, *data, flashblock_count as nat),
        r.block_number == block_number,
        r.block_hash == match data.field_spec("block_hash"@) {
            Some(v) => v.as_str_spec(),
            None => None,
        },
        r.extra_data == match data.field_spec("extra_data"@) {
            Some(v) => v.as_str_spec(),
            None => None,
        },
        r.transaction_count == match data.field_spec("transaction_hashes"@) {
            Some(v) => match v.as_array_spec() {
                Some(a) => a.len(),
                None => 0,
            },
            None => 0,
        },
        r.flashblock_count == flashblock_count,
{
    let transaction_count = match data.field("transaction_hashes") {
        Some(v) => match v.as_array() {
            Some(a) => a.len(),
            None => 0,
        },
        None => 0,
    };
    BlockInfo {
        block_number,
        block_hash: str_member(data, "block_hash"),
        extra_data: str_member(data, "extra_data"),
        transaction_count,
        flashblock_count,
    }
}

/// The block list of the dashboard, from a listing of the data directory: one row
/// for each block file (`{n}.json`) that could be read as JSON, sorted by block
/// number, newest first, and cut to the latest `MAX_LISTED_BLOCKS`.
pub fn get_blocks(files: &Vec<DataFile>) -> (r: Vec<BlockInfo>)
    ensures
        r@ == block_list_spec(files@),
{
    let mut names: Vec<String> = Vec::new();
    let mut i: usize = 0;
    while i < files.len()
        invariant
            i <= files.len(),
            names.len() == i,
            names@.map_values(|s: String| s@) == file_names(files@).take(i as int),
        decreases files.len() - i,
    {
        let name = files[i].name.clone();
        assert(name == files@[i as int].name);
        names.push(name);
        assert(names@[i as int]@ == file_names(files@)[i as int]);
        assert(names@.map_values(|s: String| s@) =~= file_names(files@).take(i + 1));
        i = i + 1;
    }
    assert(file_names(files@).take(files.len() as int) =~= file_names(files@));
    let mut blocks: Vec<BlockInfo> = Vec::new();
    let mut i: usize = 0;
    while i < files.len()
        invariant
            i <= files.len(),
            names@.map_values(|s: String| s@) == file_names(files@),
            blocks@ == listed_blocks(files@.take(i as int), files@),
        decreases files.len() - i,
    {
        let f = &files[i];
        assert(files@.take(i + 1).drop_last() =~= files@.take(i as int));
        assert(files@.take(i + 1).last() == files@[i as int]);
        match block_number_of_file(f.name.as_str()) {
            Some(n) => match &f.content {
                Some(data) => {
                    let count = count_flashblocks_for_block(&names, n);
                    blocks.push(block_info(n, data, count));
                },
                None => {},
            },
            None => {},
        }
        i = i + 1;
    }
    assert(files@.take(files.len() as int) =~= files@);
    let mut sorted = stable_sort_by_key(blocks, true);
    sorted.truncate(MAX_LISTED_BLOCKS);
    sorted
}

/// The length of a 32-byte hash written `0x` and 64 hexadecimal digits.
pub open spec fn hash_text_len() -> nat {
    66
}

/// Every transaction hash of a flashblock summary is written in full.
pub open spec fn full_length_hashes(s: FlashblockSummary) -> bool {
    forall|j: int|
        0 <= j < s.transaction_hashes@.len() ==> (#[trigger] s.transaction_hashes@[j])@.len()
            == hash_text_len()
}

/// The hash text of one raw transaction written as hexadecimal text: the
/// Keccak-256 digest of its bytes, written `0x` and lowercase hexadecimal digits,
/// 66 characters in all.
pub fn transaction_hash(raw: &str) -> (r: Option<String>)
    ensures
        match r {
            Some(h) => tx_hash_text(raw@) == Some(h@),
            None => tx_hash_text(raw@) is None,
        },
        r matches Some(h) ==> h@.len() == hash_text_len(),
        forall|b: Seq<u8>|
            decode_prefixed_hex(raw@) == Some(b) ==> (r matches Some(h) && h@ == seq!['0', 'x']
                + lower_hex(#[trigger] spec_keccak256(b))),
        decode_prefixed_hex(raw@) is None ==> r is None,
{
    proof {
        lemma_tx_hash_text(raw@);
    }
    match parse_hex_bytes(raw) {
        Some(bytes) => {
            let digest = keccak256(bytes.as_slice());
            assert(digest@.len() == 32);
            let h = format_prefixed_hex(digest.as_slice());
            assert(h@.len() == 2 + 2 * 32);
            Some(h)
        },
        None => None,
    }
}

/// The summary of one flashblock file, read from its JSON: its `index` (0 when
/// missing or not a `u64`), and the hashes of the raw transactions of its
/// `diff.transactions` array, skipping any that is not hexadecimal text.
pub fn flashblock_summary(data: &JsonValue) -> (r: FlashblockSummary)
    ensures
        r@ == flashblock_summary_spec(*data),
        full_length_hashes(r),
        r.transaction_count == r.transaction_hashes.len(),
        r@.transaction_hashes == (match data.field_spec("diff"@) {
            Some(d) => match d.field_spec("transactions"@) {
                Some(t) => match t.as_array_spec() {
                    Some(a) => a,
                    None => Seq::empty(),
                },
                None => Seq::empty(),
            },
            None => Seq::empty(),
        }).filter(
            |v: JsonValue|
                v.as_str_spec() matches Some(s) && decode_prefixed_hex(s@) is Some,
        ).map_values(
            |v: JsonValue|
                seq!['0', 'x'] + lower_hex(
                    spec_keccak256(decode_prefixed_hex(v.as_str_spec()->0@)->0),
                ),
        ),
{
    proof {
        lemma_flashblock_summary_fields(*data);
    }
    let index = match data.field("index") {
        Some(v) => match v.as_u64() {
            Some(i) => i,
            None => 0,
        },
        None => 0,
    };
    let mut hashes: Vec<String> = Vec::new();
    let ghost txs = flashblock_transactions(*data);
    let empty: Vec<JsonValue> = Vec::new();
    let arr: &Vec<JsonValue> = match data.field("diff") {
        Some(diff) => match diff.field("transactions") {
            Some(t) => match t.as_array() {
                Some(a) => a,
                None => &empty,
            },
            None => &empty,
        },
        None => &empty,
    };
    assert(arr@ == txs);
    let mut i: usize = 0;
    while i < arr.len()
        invariant
            i <= arr.len(),
            arr@ == txs,
            hashes@.map_values(|s: String| s@) == tx_hash_texts(txs.take(i as int)),
            forall|j: int| 0 <= j < hashes@.len() ==> (#[trigger] hashes@[j])@.len() == hash_text_len(),
        decreases arr.len() - i,
    {
        assert(txs.take(i + 1).drop_last() =~= txs.take(i as int));
        assert(txs.take(i + 1).last() == txs[i as int]);
        let ghost before = hashes@;
        match arr[i].as_str() {
            Some(raw) => match transaction_hash(raw.as_str()) {
                Some(h) => {
                    hashes.push(h);
                    assert(hashes@.map_values(|s: String| s@) =~= before.map_values(
                        |s: String| s@,
                    ).push(h@));
                },
                None => {},
            },
            None => {},
        }
        i = i + 1;
    }
    assert(txs.take(arr.len() as int) =~= txs);
    FlashblockSummary { index, transaction_count: hashes.len(), transaction_hashes: hashes }
}

/// The block page of block `block_number`: the transaction hashes of its block
/// file (`block_data`, `None` when the file could not be read or is not JSON),
/// and the summaries of its flashblock files among `files`, by ascending index.
pub fn get_block_details(block_number: u64, block_data: Option<JsonValue>, files: &Vec<DataFile>) -> (r:
    BlockDetails)
    ensures
        r@ == block_details_spec(block_number, block_data, files@),
        forall|i: int| 0 <= i < r.flashblocks.len() ==> full_length_hashes(#[trigger] r.flashblocks@[i]),
        r@.transaction_hashes == match block_data {
            Some(d) => match hashes_array(d) {
                Some(a) => a.filter(|e: JsonValue| e.as_str_spec() is Some).map_values(
                    |e: JsonValue| e.as_str_spec()->0@,
                ),
                None => Seq::empty(),
            },
            None => Seq::empty(),
        },
{
    proof {
        if block_data is Some {
            lemma_block_page_hashes(block_number, block_data->0, files@);
        }
    }
    let mut transaction_hashes: Vec<String> = Vec::new();
    let ghost expected = block_transaction_hashes(block_data);
    let empty: Vec<JsonValue> = Vec::new();
    let arr: &Vec<JsonValue> = match &block_data {
        Some(data) => match data.field("transaction_hashes") {
            Some(v) => match v.as_array() {
                Some(a) => a,
                None => &empty,
            },
            None => &empty,
        },
        None => &empty,
    };
    assert(string_elements(arr@) == expected);
    let mut i: usize = 0;
    while i < arr.len()
        invariant
            i <= arr.len(),
            transaction_hashes@.map_values(|s: String| s@) == string_elements(arr@.take(i as int)),
        decreases arr.len() - i,
    {
        assert(arr@.take(i + 1).drop_last() =~= arr@.take(i as int));
        assert(arr@.take(i + 1).last() == arr@[i as int]);
        let ghost before = transaction_hashes@;
        match arr[i].as_str() {
            Some(s) => {
                let t = s.clone();
                transaction_hashes.push(t);
                assert(transaction_hashes@.map_values(|s: String| s@) =~= before.map_values(
                    |s: String| s@,
                ).push(t@));
            },
            None => {},
        }
        i = i + 1;
    }
    assert(arr@.take(arr.len() as int) =~= arr@);

    let mut summaries: Vec<FlashblockSummary> = Vec::new();
    let mut i: usize = 0;
    while i < files.len()
        invariant
            i <= files.len(),
            summaries@.map_values(|f: FlashblockSummary| f@) == flashblock_summaries(
                files@.take(i as int),
                block_number as nat,
            ),
            forall|k: int| 0 <= k < summaries.len() ==> full_length_hashes(#[trigger] summaries@[k]),
        decreases files.len() - i,
    {
        assert(files@.take(i + 1).drop_last() =~= files@.take(i as int));
        assert(files@.take(i + 1).last() == files@[i as int]);
        let ghost before = summaries@;
        let f = &files[i];
        if is_flashblock_of(f.name.as_str(), block_number) {
            match &f.content {
                Some(data) => {
                    let summary = flashblock_summary(data);
                    let ghost sv = summary@;
                    summaries.push(summary);
                    assert(summaries@.map_values(|f: FlashblockSummary| f@) =~= before.map_values(
                        |f: FlashblockSummary| f@,
                    ).push(sv));
                },
                None => {},
            }
        }
        i = i + 1;
    }
    assert(files@.take(files.len() as int) =~= files@);
    let ghost unsorted = summaries@;
    let flashblocks = stable_sort_by_key(summaries, false);
    proof {
        broadcast use vstd::seq_lib::group_seq_properties;

        lemma_sort_by_key(unsorted, |f: FlashblockSummary| f.key_spec(), false);
        assert forall|i: int| 0 <= i < flashblocks.len() implies full_length_hashes(
            #[trigger] flashblocks@[i],
        ) by {
            assert(flashblocks@.to_multiset().count(flashblocks@[i]) > 0);
            assert(unsorted.to_multiset().count(flashblocks@[i]) > 0);
            assert(unsorted.contains(flashblocks@[i]));
        }
        lemma_sort_map(
            unsorted,
            |f: FlashblockSummary| f@,
            |f: FlashblockSummary| f.key_spec(),
            |v: FlashblockSummaryView| v.index as int,
            false,
        );
    }
    BlockDetails { block_number, transaction_hashes, flashblocks }
}

/// The block list holds at most `MAX_LISTED_BLOCKS` rows, all of them when there
/// are no more block files than that, newest block first, and every row is that of
/// a block file of the directory.
pub proof fn lemma_block_list(files: Seq<DataFile>)
    ensures
        block_list_spec(files).len() == if listed_blocks(files, files).len()
            <= MAX_LISTED_BLOCKS {
            listed_blocks(files, files).len()
        } else {
            MAX_LISTED_BLOCKS as nat
        },
        sorted_by_key(block_list_spec(files), |b: BlockInfo| b.key_spec(), true),
        block_list_spec(files).len() <= 50,
        forall|i: int, j: int|
            0 <= i < j < block_list_spec(files).len() ==> (#[trigger] block_list_spec(files)[i]).block_number
                >= (#[trigger] block_list_spec(files)[j]).block_number,
        forall|i: int|
            0 <= i < block_list_spec(files).len() ==> listed_blocks(files, files).contains(
                #[trigger] block_list_spec(files)[i],
            ),
{
    broadcast use vstd::seq_lib::group_seq_properties;

    let key = |b: BlockInfo| b.key_spec();
    let listed = listed_blocks(files, files);
    let sorted = sort_by_key(listed, key, true);
    lemma_sort_by_key(listed, key, true);
    let r = block_list_spec(files);
    assert forall|i: int| 0 <= i < r.len() implies listed.contains(#[trigger] r[i]) by {
        assert(r[i] == sorted[i]);
        assert(sorted.contains(sorted[i]));
        assert(sorted.to_multiset().count(sorted[i]) > 0);
        assert(listed.to_multiset().count(sorted[i]) > 0);
    }
    assert forall|i: int, j: int| 0 <= i < j < r.len() implies !crate::sorting::ranks_before(
        key(r[j]),
        key(r[i]),
        true,
    ) by {
        assert(r[i] == sorted[i]);
        assert(r[j] == sorted[j]);
    }
    assert forall|i: int, j: int| 0 <= i < j < r.len() implies (#[trigger] r[i]).block_number
        >= (#[trigger] r[j]).block_number by {
        assert(r[i] == sorted[i]);
        assert(r[j] == sorted[j]);
        assert(!crate::sorting::ranks_before(key(sorted[j]), key(sorted[i]), true));
    }
}

proof fn lemma_listed_contains(files: Seq<DataFile>, all: Seq<DataFile>, k: int, n: u64, data: JsonValue)
    requires
        0 <= k < files.len(),
        files[k].name@ == block_file_name_spec(n as nat),
        files[k].content == Some(data),
    ensures
        listed_blocks(files, all).contains(
            block_info_spec(n, data, flashblock_count_spec(file_names(all), n as nat)),
        ),
    decreases files.len(),
{
    lemma_block_file_is_listed(n);
    let row = block_info_spec(n, data, flashblock_count_spec(file_names(all), n as nat));
    let earlier = listed_blocks(files.drop_last(), all);
    if k == files.len() - 1 {
        assert(listed_blocks(files, all) == earlier.push(row));
        assert(listed_blocks(files, all)[earlier.len() as int] == row);
    } else {
        assert(files.drop_last()[k] == files[k]);
        lemma_listed_contains(files.drop_last(), all, k, n, data);
        let i = choose|i: int| 0 <= i < earlier.len() && earlier[i] == row;
        let l = listed_blocks(files, all);
        assert(l == earlier || l == earlier.push(l.last()));
        assert(l[i] == row);
    }
}

/// A block file that the block writer made for block `n` (named by
/// `block_file_name`) and that reads as JSON gives the block list a row for block
/// `n`, read from that file, with its flashblock files counted.
pub proof fn lemma_written_block_is_listed(files: Seq<DataFile>, k: int, n: u64, data: JsonValue)
    requires
        0 <= k < files.len(),
        files[k].name@ == block_file_name_spec(n as nat),
        files[k].content == Some(data),
    ensures
        listed_blocks(files, files).contains(
            block_info_spec(n, data, flashblock_count_spec(file_names(files), n as nat)),
        ),
{
    lemma_listed_contains(files, files, k, n, data);
}

proof fn lemma_summaries_contain(files: Seq<DataFile>, k: int, n: u64, index: u64, data: JsonValue)
    requires
        0 <= k < files.len(),
        files[k].name@ == flashblock_file_name_spec(n as nat, index as nat),
        files[k].content == Some(data),
    ensures
        flashblock_summaries(files, n as nat).contains(flashblock_summary_spec(data)),
    decreases files.len(),
{
    lemma_flashblock_file_belongs_to_its_block(n, index, n);
    let sv = flashblock_summary_spec(data);
    let earlier = flashblock_summaries(files.drop_last(), n as nat);
    let l = flashblock_summaries(files, n as nat);
    if k == files.len() - 1 {
        assert(l == earlier.push(sv));
        assert(l[earlier.len() as int] == sv);
    } else {
        assert(files.drop_last()[k] == files[k]);
        lemma_summaries_contain(files.drop_last(), k, n, index, data);
        let i = choose|i: int| 0 <= i < earlier.len() && earlier[i] == sv;
        assert(l == earlier || l == earlier.push(l.last()));
        assert(l[i] == sv);
    }
}

/// `f` is a flashblock file of block `n` whose summary is `sv`.
pub open spec fn shows_file(f: DataFile, n: nat, sv: FlashblockSummaryView) -> bool {
    is_flashblock_of_spec(f.name@, n) && match f.content {
        Some(data) => flashblock_summary_spec(data) == sv,
        None => false,
    }
}

/// Every flashblock summary of a block comes from one of its own flashblock files.
pub proof fn lemma_summaries_from_own_files(files: Seq<DataFile>, n: nat)
    ensures
        forall|i: int|
            0 <= i < flashblock_summaries(files, n).len() ==> exists|k: int|
                0 <= k < files.len() && shows_file(
                    files[k],
                    n,
                    #[trigger] flashblock_summaries(files, n)[i],
                ),
    decreases files.len(),
{
    if files.len() > 0 {
        let rest = files.drop_last();
        lemma_summaries_from_own_files(rest, n);
        let earlier = flashblock_summaries(rest, n);
        let l = flashblock_summaries(files, n);
        assert forall|i: int| 0 <= i < l.len() implies exists|k: int|
            0 <= k < files.len() && shows_file(files[k], n, #[trigger] l[i]) by {
            if i < earlier.len() {
                assert(l[i] == earlier[i]);
                let k = choose|k: int| 0 <= k < rest.len() && shows_file(rest[k], n, #[trigger] earlier[i]);
                assert(rest[k] == files[k]);
                assert(shows_file(files[k], n, l[i]));
            } else {
                assert(shows_file(files[files.len() - 1], n, l[i]));
            }
        }
    }
}

/// The block page of block `n` shows a summary of every flashblock file that the
/// flashblock handler made for block `n` (named by `flashblock_file_name`) and that
/// reads as JSON; it shows no file of another block; and its flashblocks are in
/// ascending index order, each file's summary as often as the file occurs.
pub proof fn lemma_block_page_flashblocks(
    n: u64,
    block_data: Option<JsonValue>,
    files: Seq<DataFile>,
    k: int,
    index: u64,
    data: JsonValue,
    m: u64,
)
    requires
        0 <= k < files.len(),
        files[k].name@ == flashblock_file_name_spec(m as nat, index as nat),
        files[k].content == Some(data),
    ensures
        m == n ==> block_details_spec(n, block_data, files).flashblocks.contains(
            flashblock_summary_spec(data),
        ),
        m != n ==> !is_flashblock_of_spec(files[k].name@, n as nat),
        sorted_by_key(
            block_details_spec(n, block_data, files).flashblocks,
            |v: FlashblockSummaryView| v.index as int,
            false,
        ),
        forall|i: int, j: int|
            0 <= i < j < block_details_spec(n, block_data, files).flashblocks.len() ==> (
            #[trigger] block_details_spec(n, block_data, files).flashblocks[i]).index <= (
            #[trigger] block_details_spec(n, block_data, files).flashblocks[j]).index,
        block_details_spec(n, block_data, files).flashblocks.to_multiset()
            == flashblock_summaries(files, n as nat).to_multiset(),
{
    broadcast use vstd::seq_lib::group_seq_properties;

    let key = |v: FlashblockSummaryView| v.index as int;
    let collected = flashblock_summaries(files, n as nat);
    lemma_sort_by_key(collected, key, false);
    lemma_flashblock_file_belongs_to_its_block(m, index, n);
    let page = block_details_spec(n, block_data, files).flashblocks;
    assert forall|i: int, j: int| 0 <= i < j < page.len() implies (#[trigger] page[i]).index
        <= (#[trigger] page[j]).index by {
        assert(!crate::sorting::ranks_before(key(page[j]), key(page[i]), false));
    }
    if m == n {
        lemma_summaries_contain(files, k, n, index, data);
        let sorted = sort_by_key(collected, key, false);
        let sv = flashblock_summary_spec(data);
        assert(collected.to_multiset().count(sv) > 0);
        assert(sorted.to_multiset().count(sv) > 0);
    }
}

/// The block page of a block never shows more flashblocks than the block list
/// counts for it: every shown flashblock comes from a counted file.
pub proof fn lemma_page_shows_at_most_counted(files: Seq<DataFile>, n: nat)
    ensures
        flashblock_summaries(files, n).len() <= flashblock_count_spec(file_names(files), n),
    decreases files.len(),
{
    if files.len() > 0 {
        lemma_page_shows_at_most_counted(files.drop_last(), n);
        assert(file_names(files).drop_last() =~= file_names(files.drop_last()));
        assert(file_names(files).last() == files.last().name@);
    }
}

proof fn lemma_string_elements_len(values: Seq<JsonValue>)
    ensures
        string_elements(values).len() <= values.len(),
        (forall|i: int| 0 <= i < values.len() ==> (#[trigger] values[i]).as_str_spec() is Some)
            ==> string_elements(values).len() == values.len(),
    decreases values.len(),
{
    if values.len() > 0 {
        let rest = values.drop_last();
        lemma_string_elements_len(rest);
        if forall|i: int| 0 <= i < values.len() ==> (#[trigger] values[i]).as_str_spec() is Some {
            assert forall|i: int| 0 <= i < rest.len() implies (#[trigger] rest[i]).as_str_spec() is Some by {
                assert(rest[i] == values[i]);
            }
            assert(values.last() == values[values.len() - 1]);
        }
    }
}

proof fn lemma_summaries_len(files: Seq<DataFile>, n: nat)
    ensures
        (forall|k: int|
            0 <= k < files.len() && is_flashblock_of_spec((#[trigger] files[k]).name@, n)
                ==> files[k].content is Some) ==> flashblock_summaries(files, n).len()
            == flashblock_count_spec(file_names(files), n),
    decreases files.len(),
{
    if files.len() > 0 {
        let rest = files.drop_last();
        lemma_summaries_len(rest, n);
        assert(file_names(files).drop_last() =~= file_names(rest));
        assert(file_names(files).last() == files.last().name@);
        if forall|k: int|
            0 <= k < files.len() && is_flashblock_of_spec((#[trigger] files[k]).name@, n)
                ==> files[k].content is Some {
            assert forall|k: int|
                0 <= k < rest.len() && is_flashblock_of_spec((#[trigger] rest[k]).name@, n)
                    implies rest[k].content is Some by {
                assert(rest[k] == files[k]);
            }
            assert(files.last() == files[files.len() - 1]);
        }
    }
}

/// The block page of block `n` never shows more than the block list counts for it,
/// when both read the same block file `data` and the same directory `files`: no
/// more transaction hashes than the length of the file's `transaction_hashes`
/// array (as many when every element is a string), and no more flashblocks than
/// the flashblock files counted (as many when every one of them reads as JSON).
pub proof fn lemma_page_agrees_with_list(n: u64, data: JsonValue, files: Seq<DataFile>)
    requires
        array_len_or_zero(data, "transaction_hashes"@) <= usize::MAX,
        files.len() <= usize::MAX,
    ensures
        ({
            let page = block_details_spec(n, Some(data), files);
            let row = block_info_spec(n, data, flashblock_count_spec(file_names(files), n as nat));
            &&& page.transaction_hashes.len() <= row.transaction_count
            &&& page.flashblocks.len() <= row.flashblock_count
            &&& (match data.field_spec("transaction_hashes"@) {
                Some(v) => match v.as_array_spec() {
                    Some(a) => forall|i: int|
                        0 <= i < a.len() ==> (#[trigger] a[i]).as_str_spec() is Some,
                    None => true,
                },
                None => true,
            }) ==> page.transaction_hashes.len() == row.transaction_count
            &&& (forall|k: int|
                0 <= k < files.len() && is_flashblock_of_spec(
                    (#[trigger] files[k]).name@,
                    n as nat,
                ) ==> files[k].content is Some) ==> page.flashblocks.len() == row.flashblock_count
        }),
{
    match data.field_spec("transaction_hashes"@) {
        Some(v) => match v.as_array_spec() {
            Some(a) => lemma_string_elements_len(a),
            None => {},
        },
        None => {},
    }
    lemma_page_shows_at_most_counted(files, n as nat);
    lemma_summaries_len(files, n as nat);
    lemma_sort_by_key(
        flashblock_summaries(files, n as nat),
        |v: FlashblockSummaryView| v.index as int,
        false,
    );
    lemma_count_at_most(file_names(files), n as nat);
}

/// A count of matching names is at most the number of names.
proof fn lemma_count_at_most(names: Seq<Seq<char>>, n: nat)
    ensures
        flashblock_count_spec(names, n) <= names.len(),
    decreases names.len(),
{
    if names.len() > 0 {
        lemma_count_at_most(names.drop_last(), n);
    }
}

/// A raw transaction that decodes (with or without `0x`) to the bytes `b` has as
/// its hash text `0x` and the lowercase hexadecimal digits of the Keccak-256 digest
/// of all of `b`; a text that does not decode has none.
pub proof fn lemma_tx_hash_text(raw: Seq<char>)
    ensures
        forall|b: Seq<u8>|
            decode_prefixed_hex(raw) == Some(b) ==> tx_hash_text(raw) == Some(
                seq!['0', 'x'] + lower_hex(#[trigger] spec_keccak256(b)),
            ),
        decode_prefixed_hex(raw) is None ==> tx_hash_text(raw) is None,
{
}

/// The page's hashes of a flashblock's raw transactions: for each element of the
/// array, in order, that is a string decoding to bytes, the digest text of all of
/// those bytes; other elements are skipped.
pub proof fn lemma_tx_hash_texts(txs: Seq<JsonValue>)
    ensures
        tx_hash_texts(txs) == txs.filter(
            |v: JsonValue|
                v.as_str_spec() matches Some(s) && decode_prefixed_hex(s@) is Some,
        ).map_values(
            |v: JsonValue|
                seq!['0', 'x'] + lower_hex(
                    spec_keccak256(decode_prefixed_hex(v.as_str_spec()->0@)->0),
                ),
        ),
    decreases txs.len(),
{
    reveal(Seq::filter);
    let pred = |v: JsonValue| v.as_str_spec() matches Some(s) && decode_prefixed_hex(s@) is Some;
    let f = |v: JsonValue|
        seq!['0', 'x'] + lower_hex(spec_keccak256(decode_prefixed_hex(v.as_str_spec()->0@)->0));
    if txs.len() == 0 {
        assert(txs.filter(pred).map_values(f) =~= Seq::<Seq<char>>::empty());
    } else {
        lemma_tx_hash_texts(txs.drop_last());
        let prev = txs.drop_last().filter(pred);
        if pred(txs.last()) {
            assert(txs.filter(pred) == prev.push(txs.last()));
            assert(prev.push(txs.last()).map_values(f) =~= prev.map_values(f).push(f(txs.last())));
        } else {
            assert(txs.filter(pred) == prev);
        }
    }
}

/// The `transaction_hashes` array of a block file, when it has one.
pub open spec fn hashes_array(data: JsonValue) -> Option<Seq<JsonValue>> {
    match data.field_spec("transaction_hashes"@) {
        Some(v) => v.as_array_spec(),
        None => None,
    }
}

/// The page's transaction hashes of a block file are the string elements of its
/// `transaction_hashes` array, in order (other elements skipped); when every
/// element is a string, the `i`-th hash is the text of the `i`-th element; without
/// such an array there are none.
pub proof fn lemma_block_page_hashes(n: u64, data: JsonValue, files: Seq<DataFile>)
    ensures
        hashes_array(data) matches Some(a) ==> block_details_spec(
            n,
            Some(data),
            files,
        ).transaction_hashes == a.filter(|e: JsonValue| e.as_str_spec() is Some).map_values(
            |e: JsonValue| e.as_str_spec()->0@,
        ),
        hashes_array(data) matches Some(a) ==> ((forall|i: int|
            0 <= i < a.len() ==> (#[trigger] a[i]).as_str_spec() is Some) ==> {
            &&& block_details_spec(n, Some(data), files).transaction_hashes.len() == a.len()
            &&& forall|i: int|
                0 <= i < a.len() ==> block_details_spec(n, Some(data), files).transaction_hashes[i]
                    == (#[trigger] a[i]).as_str_spec()->0@
        }),
        hashes_array(data) is None ==> block_details_spec(
            n,
            Some(data),
            files,
        ).transaction_hashes.len() == 0,
{
    match hashes_array(data) {
        Some(a) => {
            lemma_string_elements_filter(a);
            if forall|i: int| 0 <= i < a.len() ==> (#[trigger] a[i]).as_str_spec() is Some {
                lemma_string_elements_all(a);
            }
        },
        None => {},
    }
}

proof fn lemma_string_elements_filter(values: Seq<JsonValue>)
    ensures
        string_elements(values) == values.filter(|e: JsonValue| e.as_str_spec() is Some).map_values(
            |e: JsonValue| e.as_str_spec()->0@,
        ),
    decreases values.len(),
{
    reveal(Seq::filter);
    let pred = |e: JsonValue| e.as_str_spec() is Some;
    let f = |e: JsonValue| e.as_str_spec()->0@;
    if values.len() == 0 {
        assert(values.filter(pred).map_values(f) =~= Seq::<Seq<char>>::empty());
    } else {
        lemma_string_elements_filter(values.drop_last());
        let prev = values.drop_last().filter(pred);
        if pred(values.last()) {
            assert(values.filter(pred) == prev.push(values.last()));
            assert(prev.push(values.last()).map_values(f) =~= prev.map_values(f).push(
                f(values.last()),
            ));
        } else {
            assert(values.filter(pred) == prev);
        }
    }
}

proof fn lemma_string_elements_all(values: Seq<JsonValue>)
    requires
        forall|i: int| 0 <= i < values.len() ==> (#[trigger] values[i]).as_str_spec() is Some,
    ensures
        string_elements(values).len() == values.len(),
        forall|i: int|
            0 <= i < values.len() ==> string_elements(values)[i]
                == (#[trigger] values[i]).as_str_spec()->0@,
    decreases values.len(),
{
    if values.len() > 0 {
        let rest = values.drop_last();
        assert forall|i: int| 0 <= i < rest.len() implies (#[trigger] rest[i]).as_str_spec() is Some by {
            assert(rest[i] == values[i]);
        }
        lemma_string_elements_all(rest);
        assert(values.last() == values[values.len() - 1]);
        assert forall|i: int| 0 <= i < values.len() implies string_elements(values)[i]
            == (#[trigger] values[i]).as_str_spec()->0@ by {
            if i < values.len() - 1 {
                assert(rest[i] == values[i]);
            }
        }
    }
}

/// The row of block `n` read from block file `data`, for every `n`: its hash is the
/// string member `block_hash`, its extra data the string member `extra_data`, its
/// transaction count the length of the `transaction_hashes` array (0 without one).
pub proof fn lemma_block_row_fields(n: u64, data: JsonValue, flashblock_count: nat)
    ensures
        block_info_spec(n, data, flashblock_count).block_number == n,
        block_info_spec(n, data, flashblock_count).block_hash == match data.field_spec(
            "block_hash"@,
        ) {
            Some(v) => v.as_str_spec(),
            None => None,
        },
        block_info_spec(n, data, flashblock_count).extra_data == match data.field_spec(
            "extra_data"@,
        ) {
            Some(v) => v.as_str_spec(),
            None => None,
        },
        block_info_spec(n, data, flashblock_count).transaction_count == (match data.field_spec(
            "transaction_hashes"@,
        ) {
            Some(v) => match v.as_array_spec() {
                Some(a) => a.len(),
                None => 0,
            },
            None => 0,
        }) as usize,
        block_info_spec(n, data, flashblock_count).flashblock_count == flashblock_count as usize,
{
}

/// A flashblock file's summary: its `index` member as a `u64` (0 when missing or
/// not one); for each element of its `diff.transactions` array, in order, that is
/// a string decoding to bytes, the digest text of all of those bytes; and as many
/// transactions as hashes.
pub proof fn lemma_flashblock_summary_fields(data: JsonValue)
    ensures
        flashblock_summary_spec(data).index == match data.field_spec("index"@) {
            Some(v) => match v.as_u64_spec() {
                Some(i) => i,
                None => 0,
            },
            None => 0,
        },
        flashblock_summary_spec(data).transaction_hashes == (match data.field_spec("diff"@) {
            Some(d) => match d.field_spec("transactions"@) {
                Some(t) => match t.as_array_spec() {
                    Some(a) => a,
                    None => Seq::empty(),
                },
                None => Seq::empty(),
            },
            None => Seq::empty(),
        }).filter(
            |v: JsonValue|
                v.as_str_spec() matches Some(s) && decode_prefixed_hex(s@) is Some,
        ).map_values(
            |v: JsonValue|
                seq!['0', 'x'] + lower_hex(
                    spec_keccak256(decode_prefixed_hex(v.as_str_spec()->0@)->0),
                ),
        ),
        flashblock_summary_spec(data).transaction_count == flashblock_summary_spec(
            data,
        ).transaction_hashes.len(),
{
    lemma_tx_hash_texts(flashblock_transactions(data));
}

} // verus!
