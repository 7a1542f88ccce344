use vstd::prelude::*;
use vstd::utf8::{decode_utf8, valid_utf8};

use crate::hexfmt::{decode_prefixed_hex, format_prefixed_hex, lemma_decode_prefixed_hex, lower_hex, prefixed_hex};

verus! {

#[verifier::external_type_specification]
#[verifier::external_body]
pub struct ExFromUtf8Error(std::string::FromUtf8Error);

/// `String::from_utf8` succeeds exactly when the bytes are UTF-8, and then holds the
/// characters they encode (std documentation: "Returns Err if the slice is not
/// UTF-8"). Trusted.
pub assume_specification[ String::from_utf8 ](vec: Vec<u8>) -> (r: Result<
    String,
    std::string::FromUtf8Error,
>)
    ensures
        match r {
            Ok(s) => valid_utf8(vec@) && s@ == decode_utf8(vec@),
            Err(_) => !valid_utf8(vec@),
        },
;

/// How the block writer shows a block's extra data: as text when it is UTF-8, and
/// otherwise as `0x` followed by lowercase hexadecimal digits.
pub open spec fn extra_data_text(bytes: Seq<u8>) -> Seq<char> {
    if valid_utf8(bytes) {
        decode_utf8(bytes)
    } else {
        prefixed_hex(bytes)
    }
}

/// The record that the block writer keeps of one canonical block.
pub struct BlockTransactions {
    pub block_number: u64,
    pub block_hash: String,
    pub extra_data: String,
    pub transaction_hashes: Vec<String>,
}

/// A block's extra data, shown as text when it is UTF-8 and as `0x`-prefixed
/// hexadecimal otherwise.
pub fn extra_data_display(bytes: &[u8]) -> (r: String)
    ensures
        r@ == extra_data_text(bytes@),
        valid_utf8(bytes@) ==> r@ == decode_utf8(bytes@),
        !valid_utf8(bytes@) ==> r@ == seq!['0', 'x'] + lower_hex(bytes@),
        !valid_utf8(bytes@) ==> decode_prefixed_hex(r@) == Some(bytes@),
{
    proof {
        lemma_extra_data_text(bytes@);
    }
    let v = vstd::slice::slice_to_vec(bytes);
    match String::from_utf8(v) {
        Ok(s) => s,
        Err(_) => format_prefixed_hex(bytes),
    }
}

/// The record of one block: its number, its hash and the hashes of its
/// transactions each written `0x` and lowercase hexadecimal digits, and its extra
/// data shown by `extra_data_display`.
pub fn block_transactions(
    block_number: u64,
    block_hash: &[u8; 32],
    extra_data: &[u8],
    transaction_hashes: &Vec<[u8; 32]>,
) -> (r: BlockTransactions)
    ensures
        r.block_number == block_number,
        r.block_hash@ == prefixed_hex(block_hash@),
        r.extra_data@ == extra_data_text(extra_data@),
        !valid_utf8(extra_data@) ==> decode_prefixed_hex(r.extra_data@) == Some(extra_data@),
        valid_utf8(extra_data@) ==> r.extra_data@ == decode_utf8(extra_data@),
        r.transaction_hashes@.map_values(|s: String| s@) == transaction_hashes@.map_values(
            |h: [u8; 32]| prefixed_hex(h@),
        ),
{
    let mut hashes: Vec<String> = Vec::new();
    let mut i: usize = 0;
    while i < transaction_hashes.len()
        invariant
            i <= transaction_hashes.len(),
            hashes.len() == i,
            hashes@.map_values(|s: String| s@) == transaction_hashes@.take(i as int).map_values(
                |h: [u8; 32]| prefixed_hex(h@),
            ),
        decreases transaction_hashes.len() - i,
    {
        let ghost before = hashes@;
        let text = format_prefixed_hex(transaction_hashes[i].as_slice());
        assert(text@ == prefixed_hex(transaction_hashes@[i as int]@));
        hashes.push(text);
        proof {
            let lhs = hashes@.map_values(|s: String| s@);
            let rhs = transaction_hashes@.take(i + 1).map_values(|h: [u8; 32]| prefixed_hex(h@));
            let prev = transaction_hashes@.take(i as int).map_values(|h: [u8; 32]| prefixed_hex(h@));
            assert(hashes@ == before.push(text));
            assert forall|k: int| 0 <= k < i + 1 implies lhs[k] == rhs[k] by {
                if k < i {
                    assert(lhs[k] == before.map_values(|s: String| s@)[k]);
                    assert(prev[k] == rhs[k]);
                }
            }
            assert(lhs =~= rhs);
        }
        i = i + 1;
    }
    assert(transaction_hashes@.take(transaction_hashes.len() as int) =~= transaction_hashes@);
    BlockTransactions {
        block_number,
        block_hash: format_prefixed_hex(block_hash.as_slice()),
        extra_data: extra_data_display(extra_data),
        transaction_hashes: hashes,
    }
}

/// Extra data is shown as the text it encodes when it is UTF-8; otherwise it is
/// shown as `0x` and two lowercase hexadecimal digits for every one of its bytes,
/// which decodes back to all of them.
pub proof fn lemma_extra_data_text(bytes: Seq<u8>)
    ensures
        valid_utf8(bytes) ==> extra_data_text(bytes) == decode_utf8(bytes),
        !valid_utf8(bytes) ==> extra_data_text(bytes) == seq!['0', 'x'] + lower_hex(bytes),
        !valid_utf8(bytes) ==> extra_data_text(bytes).len() == 2 + 2 * bytes.len(),
        !valid_utf8(bytes) ==> decode_prefixed_hex(extra_data_text(bytes)) == Some(bytes),
{
    lemma_decode_prefixed_hex(bytes);
}

} // verus!
