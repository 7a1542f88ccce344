use vstd::prelude::*;

use crate::decimal::{all_digits, decimal, is_digit, lemma_decimal, lemma_decimal_injective, lemma_parse_decimal, parse_u64, parse_u64_spec, push_decimal};
use crate::text::{chars_of, ends_with, has_prefix, has_suffix, push_chars, starts_with};

verus! {

/// `.json`, the ending of every file the explorer keeps.
pub open spec fn json_suffix() -> Seq<char> {
    seq!['.', 'j', 's', 'o', 'n']
}

/// `flashblock_`, the beginning of every flashblock file name.
pub open spec fn flashblock_tag() -> Seq<char> {
    seq!['f', 'l', 'a', 's', 'h', 'b', 'l', 'o', 'c', 'k', '_']
}

/// The name of the file that holds block `n`: `{n}.json`.
pub open spec fn block_file_name_spec(n: nat) -> Seq<char> {
    decimal(n) + json_suffix()
}

/// What every flashblock file of block `n` begins with: `flashblock_{n}_`.
pub open spec fn flashblock_prefix(n: nat) -> Seq<char> {
    flashblock_tag() + decimal(n) + seq!['_']
}

/// The name of the file that holds flashblock `index` of block `n`:
/// `flashblock_{n}_{index}.json`.
pub open spec fn flashblock_file_name_spec(n: nat, index: nat) -> Seq<char> {
    flashblock_prefix(n) + decimal(index) + json_suffix()
}

/// The block that a file name stands for, when it is a block file: it ends in
/// `.json`, does not begin with `flashblock_`, and what precedes `.json` parses as
/// a `u64`.
pub open spec fn block_number_of_file_spec(name: Seq<char>) -> Option<u64> {
    if has_suffix(name, json_suffix()) && !has_prefix(name, flashblock_tag()) {
        parse_u64_spec(name.take(name.len() - json_suffix().len()))
    } else {
        None
    }
}

/// Whether a file name is that of a flashblock of block `n`.
pub open spec fn is_flashblock_of_spec(name: Seq<char>, n: nat) -> bool {
    has_prefix(name, flashblock_prefix(n))
}

/// How many of `names` are flashblock files of block `n`.
pub open spec fn flashblock_count_spec(names: Seq<Seq<char>>, n: nat) -> nat
    decreases names.len(),
{
    if names.len() == 0 {
        0
    } else {
        flashblock_count_spec(names.drop_last(), n) + if is_flashblock_of_spec(names.last(), n) {
            1nat
        } else {
            0nat
        }
    }
}

fn json_suffix_chars() -> (r: Vec<char>)
    ensures
        r@ == json_suffix(),
{
    let r = vec!['.', 'j', 's', 'o', 'n'];
    assert(r@ =~= json_suffix());
    r
}

fn flashblock_tag_chars() -> (r: Vec<char>)
    ensures
        r@ == flashblock_tag(),
{
    let r = vec!['f', 'l', 'a', 's', 'h', 'b', 'l', 'o', 'c', 'k', '_'];
    assert(r@ =~= flashblock_tag());
    r
}

/// The name of the file that holds block `block_number`, as the block writer
/// names it: `{block_number}.json`.
pub fn block_file_name(block_number: u64) -> (r: String)
    ensures
        r@ == block_file_name_spec(block_number as nat),
        r@ == decimal(block_number as nat) + seq!['.', 'j', 's', 'o', 'n'],
{
    let mut r = String::new();
    push_decimal(&mut r, block_number);
    push_chars(&mut r, json_suffix_chars().as_slice());
    assert(Seq::<char>::empty() + decimal(block_number as nat) + json_suffix()
        =~= block_file_name_spec(block_number as nat));
    r
}

/// The name of the file that holds one flashblock, as the flashblock handler names
/// it: `flashblock_{block_number}_{index}.json`.
pub fn flashblock_file_name(block_number: u64, index: u64) -> (r: String)
    ensures
        r@ == flashblock_file_name_spec(block_number as nat, index as nat),
        r@ == seq!['f', 'l', 'a', 's', 'h', 'b', 'l', 'o', 'c', 'k', '_'] + decimal(
            block_number as nat,
        ) + seq!['_'] + decimal(index as nat) + seq!['.', 'j', 's', 'o', 'n'],
{
    let mut r = String::new();
    push_chars(&mut r, flashblock_tag_chars().as_slice());
    push_decimal(&mut r, block_number);
    r.push('_');
    push_decimal(&mut r, index);
    push_chars(&mut r, json_suffix_chars().as_slice());
    assert(Seq::<char>::empty() + flashblock_tag() + decimal(block_number as nat) + seq!['_']
        + decimal(index as nat) + json_suffix() =~= flashblock_file_name_spec(
        block_number as nat,
        index as nat,
    ));
    r
}

fn flashblock_prefix_chars(n: u64) -> (r: Vec<char>)
    ensures
        r@ == flashblock_prefix(n as nat),
{
    let mut s = String::new();
    push_chars(&mut s, flashblock_tag_chars().as_slice());
    push_decimal(&mut s, n);
    s.push('_');
    assert(Seq::<char>::empty() + flashblock_tag() + decimal(n as nat) + seq!['_']
        =~= flashblock_prefix(n as nat));
    chars_of(s.as_str())
}

/// The block that a data file name stands for: `Some(n)` for a name `{n}.json`
/// (any text that `u64` parsing accepts before `.json`) that does not begin with
/// `flashblock_`, `None` for any other name.
pub fn block_number_of_file(name: &str) -> (r: Option<u64>)
    ensures
        r == block_number_of_file_spec(name@),
{
    let cs = chars_of(name);
    let suffix = json_suffix_chars();
    let tag = flashblock_tag_chars();
    if ends_with(cs.as_slice(), suffix.as_slice()) && !starts_with(cs.as_slice(), tag.as_slice()) {
        let stem = &cs.as_slice()[0..cs.len() - suffix.len()];
        assert(stem@ =~= name@.take(name@.len() - json_suffix().len()));
        parse_u64(stem)
    } else {
        None
    }
}

/// Whether `name` is the name of a flashblock file of block `block_number`, that
/// is, begins with `flashblock_{block_number}_`.
pub fn is_flashblock_of(name: &str, block_number: u64) -> (r: bool)
    ensures
        r == is_flashblock_of_spec(name@, block_number as nat),
        r == has_prefix(
            name@,
            seq!['f', 'l', 'a', 's', 'h', 'b', 'l', 'o', 'c', 'k', '_'] + decimal(
                block_number as nat,
            ) + seq!['_'],
        ),
{
    let cs = chars_of(name);
    let prefix = flashblock_prefix_chars(block_number);
    starts_with(cs.as_slice(), prefix.as_slice())
}

/// How many of the file names are flashblock files of block `block_number`.
pub fn count_flashblocks_for_block(names: &Vec<String>, block_number: u64) -> (r: usize)
    ensures
        r == flashblock_count_spec(names@.map_values(|s: String| s@), block_number as nat),
{
    let ghost views = names@.map_values(|s: String| s@);
    let mut count: usize = 0;
    let mut i: usize = 0;
    while i < names.len()
        invariant
            i <= names.len(),
            views == names@.map_values(|s: String| s@),
            count == flashblock_count_spec(views.take(i as int), block_number as nat),
            count <= i,
        decreases names.len() - i,
    {
        assert(views.take(i + 1).drop_last() =~= views.take(i as int));
        if is_flashblock_of(names[i].as_str(), block_number) {
            count = count + 1;
        }
        i = i + 1;
    }
    assert(views.take(names.len() as int) =~= views);
    count
}

/// The file the block writer makes for block `n` is listed as block `n`.
pub proof fn lemma_block_file_is_listed(n: u64)
    ensures
        block_number_of_file_spec(block_file_name_spec(n as nat)) == Some(n),
{
    let name = block_file_name_spec(n as nat);
    lemma_decimal(n as nat);
    lemma_parse_decimal(n);
    assert(name.subrange(name.len() - 5, name.len() as int) =~= json_suffix());
    assert(name.take(name.len() - 5) =~= decimal(n as nat));
    assert(is_digit(decimal(n as nat)[0]));
    assert(name[0] == decimal(n as nat)[0]);
    if has_prefix(name, flashblock_tag()) {
        assert(name.subrange(0, 11)[0] == name[0]);
        assert(flashblock_tag()[0] == 'f');
    }
}

/// A flashblock file is never listed as a block.
pub proof fn lemma_flashblock_file_is_not_a_block(n: u64, index: u64)
    ensures
        block_number_of_file_spec(flashblock_file_name_spec(n as nat, index as nat)) is None,
{
    let name = flashblock_file_name_spec(n as nat, index as nat);
    assert(name.subrange(0, 11) =~= flashblock_tag());
}

/// A block file is never counted as a flashblock of any block.
pub proof fn lemma_block_file_is_no_flashblock(m: u64, n: u64)
    ensures
        !is_flashblock_of_spec(block_file_name_spec(m as nat), n as nat),
{
    let name = block_file_name_spec(m as nat);
    lemma_decimal(m as nat);
    assert(is_digit(decimal(m as nat)[0]));
    assert(name[0] == decimal(m as nat)[0]);
    if has_prefix(name, flashblock_prefix(n as nat)) {
        assert(name.subrange(0, flashblock_prefix(n as nat).len() as int)[0] == name[0]);
        assert(flashblock_prefix(n as nat)[0] == 'f');
    }
}

/// The flashblock file of block `m` is counted for block `n` exactly when `m == n`.
pub proof fn lemma_flashblock_file_belongs_to_its_block(m: u64, index: u64, n: u64)
    ensures
        is_flashblock_of_spec(flashblock_file_name_spec(m as nat, index as nat), n as nat) <==> m
            == n,
{
    let name = flashblock_file_name_spec(m as nat, index as nat);
    let a = decimal(n as nat);
    let b = decimal(m as nat);
    lemma_decimal(n as nat);
    lemma_decimal(m as nat);
    lemma_decimal(index as nat);
    if m == n {
        assert(name.subrange(0, flashblock_prefix(n as nat).len() as int) =~= flashblock_prefix(
            n as nat,
        ));
    }
    if is_flashblock_of_spec(name, n as nat) {
        let p = flashblock_prefix(n as nat);
        // name = tag + b + "_" + ...; p = tag + a + "_"
        assert forall|k: int| 0 <= k < p.len() implies name[k] == #[trigger] p[k] by {
            assert(name.subrange(0, p.len() as int)[k] == name[k]);
        }
        assert forall|k: int| 0 <= k < b.len() implies name[11 + k] == #[trigger] b[k] by {}
        assert(name[11 + b.len() as int] == '_');
        if a.len() < b.len() {
            assert(p[11 + a.len() as int] == '_');
            assert(name[11 + a.len() as int] == b[a.len() as int]);
            assert(is_digit(b[a.len() as int]));
        } else if a.len() > b.len() {
            assert(p[11 + b.len() as int] == a[b.len() as int]);
            assert(is_digit(a[b.len() as int]));
        } else {
            assert forall|k: int| 0 <= k < a.len() implies a[k] == b[k] by {
                assert(p[11 + k] == a[k]);
            }
            assert(a =~= b);
            lemma_decimal_injective(n as nat, m as nat);
        }
    }
}

/// Counting over two listings one after the other adds their counts.
pub proof fn lemma_count_concat(a: Seq<Seq<char>>, b: Seq<Seq<char>>, n: nat)
    ensures
        flashblock_count_spec(a + b, n) == flashblock_count_spec(a, n) + flashblock_count_spec(b, n),
    decreases b.len(),
{
    if b.len() == 0 {
        assert(a + b =~= a);
    } else {
        lemma_count_concat(a, b.drop_last(), n);
        assert((a + b).drop_last() =~= a + b.drop_last());
        assert((a + b).last() == b.last());
    }
}

/// Adding the file that the flashblock handler writes for flashblock `index` of
/// block `b`, at any place `k` of a listing, raises the count of block `b` by one
/// and leaves the count of every other block unchanged.
pub proof fn lemma_new_flashblock_file_counts_once(
    names: Seq<Seq<char>>,
    k: int,
    b: u64,
    index: u64,
    m: u64,
)
    requires
        0 <= k <= names.len(),
    ensures
        flashblock_count_spec(
            names.take(k) + seq![flashblock_file_name_spec(b as nat, index as nat)] + names.skip(k),
            m as nat,
        ) == flashblock_count_spec(names, m as nat) + if m == b {
            1nat
        } else {
            0nat
        },
{
    let x = seq![flashblock_file_name_spec(b as nat, index as nat)];
    lemma_count_concat(names.take(k) + x, names.skip(k), m as nat);
    lemma_count_concat(names.take(k), x, m as nat);
    lemma_count_concat(names.take(k), names.skip(k), m as nat);
    assert(names.take(k) + names.skip(k) =~= names);
    lemma_flashblock_file_belongs_to_its_block(b, index, m);
    assert(x.drop_last() =~= Seq::<Seq<char>>::empty());
    assert(flashblock_count_spec(Seq::<Seq<char>>::empty(), m as nat) == 0);
}

/// A name belongs to block `n` exactly when it begins with `flashblock_`, then the
/// decimal writing of `n`, then `_`; the flashblock handler names flashblock
/// `i` of block `n` `flashblock_{n}_{i}.json`; and every such name belongs to
/// block `n` and to no other block.
pub proof fn lemma_flashblock_names_spelled_out(name: Seq<char>, n: u64, i: u64, m: u64)
    ensures
        is_flashblock_of_spec(name, n as nat) <==> has_prefix(
            name,
            seq!['f', 'l', 'a', 's', 'h', 'b', 'l', 'o', 'c', 'k', '_'] + decimal(n as nat) + seq![
                '_',
            ],
        ),
        flashblock_file_name_spec(n as nat, i as nat) == seq![
            'f',
            'l',
            'a',
            's',
            'h',
            'b',
            'l',
            'o',
            'c',
            'k',
            '_',
        ] + decimal(n as nat) + seq!['_'] + decimal(i as nat) + seq!['.', 'j', 's', 'o', 'n'],
        is_flashblock_of_spec(
            seq!['f', 'l', 'a', 's', 'h', 'b', 'l', 'o', 'c', 'k', '_'] + decimal(n as nat) + seq![
                '_',
            ] + decimal(i as nat) + seq!['.', 'j', 's', 'o', 'n'],
            m as nat,
        ) <==> m == n,
        block_file_name_spec(n as nat) == decimal(n as nat) + seq!['.', 'j', 's', 'o', 'n'],
{
    assert(flashblock_tag() =~= seq!['f', 'l', 'a', 's', 'h', 'b', 'l', 'o', 'c', 'k', '_']);
    assert(json_suffix() =~= seq!['.', 'j', 's', 'o', 'n']);
    lemma_flashblock_file_belongs_to_its_block(n, i, m);
}

} // verus!
