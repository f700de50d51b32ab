//! Little-endian integers and the byte strings that hold them.

use vstd::arithmetic::div_mod::lemma_div_denominator;
use vstd::arithmetic::power::lemma_pow0;
use vstd::arithmetic::power::lemma_pow_positive;
use vstd::arithmetic::power::pow;
use vstd::prelude::*;

verus! {

/// Two hundred and fifty-six to the power of `n`: how many values `n` bytes hold.
pub open spec fn byte_capacity(n: nat) -> nat
    decreases n,
{
    if n == 0 {
        1
    } else {
        256 * byte_capacity((n - 1) as nat)
    }
}

/// The low `n` bytes of `x`, least significant first.
pub open spec fn le_bytes(x: nat, n: nat) -> Seq<u8>
    decreases n,
{
    if n == 0 {
        Seq::empty()
    } else {
        seq![(x % 256) as u8] + le_bytes(x / 256, (n - 1) as nat)
    }
}

/// The number whose bytes, least significant first, are `bytes`.
pub open spec fn le_value(bytes: Seq<u8>) -> nat
    decreases bytes.len(),
{
    if bytes.len() == 0 {
        0
    } else {
        bytes[0] as nat + 256 * le_value(bytes.drop_first())
    }
}

/// `n` bytes come out of an encoding of width `n`.
pub proof fn lemma_le_bytes_len(x: nat, n: nat)
    ensures
        le_bytes(x, n).len() == n,
    decreases n,
{
    if n > 0 {
        lemma_le_bytes_len(x / 256, (n - 1) as nat);
    }
}

/// Decoding gives back what was encoded, provided it fits the width.
pub proof fn lemma_decode_encode(x: nat, n: nat)
    requires
        x < byte_capacity(n),
    ensures
        le_value(le_bytes(x, n)) == x,
    decreases n,
{
    lemma_le_bytes_len(x, n);
    if n > 0 {
        let rest = le_bytes(x / 256, (n - 1) as nat);
        assert(x / 256 < byte_capacity((n - 1) as nat));
        lemma_decode_encode(x / 256, (n - 1) as nat);
        assert(le_bytes(x, n).drop_first() =~= rest);
    }
}

/// How many values four and eight bytes hold.
pub proof fn lemma_word_capacities()
    ensures
        byte_capacity(4) == 0x1_0000_0000,
        byte_capacity(8) == 0x1_0000_0000_0000_0000,
{
    reveal_with_fuel(byte_capacity, 9);
}

/// The bytes of a `u64`, least significant first.
///
/// Calls `bytemuck::bytes_of`, which copies out the object representation of
/// the value. The value is put in little-endian order first, so the bytes are
/// the same on every target.
#[verifier::external_body]
pub(crate) fn u64_to_bytes(x: u64) -> (bytes: Vec<u8>)
    ensures
        bytes@ == le_bytes(x as nat, 8),
{
    bytemuck::bytes_of(&x.to_le()).to_vec()
}

/// The bytes of a `u32`, least significant first.
///
/// Calls `bytemuck::bytes_of`, as [`u64_to_bytes`] does.
#[verifier::external_body]
pub(crate) fn u32_to_bytes(x: u32) -> (bytes: Vec<u8>)
    ensures
        bytes@ == le_bytes(x as nat, 4),
{
    bytemuck::bytes_of(&x.to_le()).to_vec()
}

/// The `u64` that eight bytes hold, least significant first.
///
/// Calls `bytemuck::pod_read_unaligned`, which reads a value of any alignment
/// from a slice of exactly its size and panics on any other length. The value
/// read is taken as little-endian, so it is the same on every target.
#[verifier::external_body]
pub(crate) fn u64_from_bytes(bytes: &[u8]) -> (x: u64)
    requires
        bytes@.len() == 8,
    ensures
        x as nat == le_value(bytes@),
{
    u64::from_le(bytemuck::pod_read_unaligned(bytes))
}

/// The `u32` that four bytes hold, least significant first.
///
/// Calls `bytemuck::pod_read_unaligned`, as [`u64_from_bytes`] does.
#[verifier::external_body]
pub(crate) fn u32_from_bytes(bytes: &[u8]) -> (x: u32)
    requires
        bytes@.len() == 4,
    ensures
        x as nat == le_value(bytes@),
{
    u32::from_le(bytemuck::pod_read_unaligned(bytes))
}

/// The `i`-th run of eight bytes.
pub open spec fn chunk8(bytes: Seq<u8>, i: int) -> Seq<u8> {
    bytes.subrange(8 * i, 8 * i + 8)
}

/// The `i`-th run of four bytes.
pub open spec fn chunk4(bytes: Seq<u8>, i: int) -> Seq<u8> {
    bytes.subrange(4 * i, 4 * i + 4)
}

/// The `u64`s that a byte string holds, eight bytes each; a rest of fewer than
/// eight bytes holds none.
pub open spec fn words64(bytes: Seq<u8>) -> Seq<u64> {
    Seq::new((bytes.len() / 8) as nat, |i: int| le_value(chunk8(bytes, i)) as u64)
}

/// The `u32`s that a byte string holds, four bytes each; a rest of fewer than
/// four bytes holds none.
pub open spec fn words32(bytes: Seq<u8>) -> Seq<u32> {
    Seq::new((bytes.len() / 4) as nat, |i: int| le_value(chunk4(bytes, i)) as u32)
}

/// The bytes of a run of `u64`s, end to end.
pub open spec fn bytes64(words: Seq<u64>) -> Seq<u8>
    decreases words.len(),
{
    if words.len() == 0 {
        Seq::empty()
    } else {
        bytes64(words.drop_last()) + le_bytes(words.last() as nat, 8)
    }
}

/// The bytes of a run of `u32`s, end to end.
pub open spec fn bytes32(words: Seq<u32>) -> Seq<u8>
    decreases words.len(),
{
    if words.len() == 0 {
        Seq::empty()
    } else {
        bytes32(words.drop_last()) + le_bytes(words.last() as nat, 4)
    }
}

/// Every run of `u64`s comes back out of its bytes.
pub proof fn lemma_words64_of_bytes64(words: Seq<u64>)
    ensures
        bytes64(words).len() == 8 * words.len(),
        words64(bytes64(words)) == words,
    decreases words.len(),
{
    lemma_word_capacities();
    if words.len() > 0 {
        let head = words.drop_last();
        let x = words.last() as nat;
        lemma_words64_of_bytes64(head);
        lemma_le_bytes_len(x, 8);
        lemma_decode_encode(x, 8);
        let all = bytes64(words);
        assert forall|i: int| 0 <= i < words.len() implies words64(all)[i] == words[i] by {
            if i < head.len() {
                assert(chunk8(all, i) =~= chunk8(bytes64(head), i));
                assert(words64(bytes64(head))[i] == head[i]);
            } else {
                assert(chunk8(all, i) =~= le_bytes(x, 8));
            }
        }
        assert(words64(all) =~= words);
    } else {
        assert(words64(bytes64(words)) =~= words);
    }
}

/// Every run of `u32`s comes back out of its bytes.
pub proof fn lemma_words32_of_bytes32(words: Seq<u32>)
    ensures
        bytes32(words).len() == 4 * words.len(),
        words32(bytes32(words)) == words,
    decreases words.len(),
{
    lemma_word_capacities();
    if words.len() > 0 {
        let head = words.drop_last();
        let x = words.last() as nat;
        lemma_words32_of_bytes32(head);
        lemma_le_bytes_len(x, 4);
        lemma_decode_encode(x, 4);
        let all = bytes32(words);
        assert forall|i: int| 0 <= i < words.len() implies words32(all)[i] == words[i] by {
            if i < head.len() {
                assert(chunk4(all, i) =~= chunk4(bytes32(head), i));
                assert(words32(bytes32(head))[i] == head[i]);
            } else {
                assert(chunk4(all, i) =~= le_bytes(x, 4));
            }
        }
        assert(words32(all) =~= words);
    } else {
        assert(words32(bytes32(words)) =~= words);
    }
}

/// The bytes of the first words are the first bytes of all of them.
pub proof fn lemma_bytes64_take(words: Seq<u64>, n: int)
    requires
        0 <= n <= words.len(),
    ensures
        bytes64(words).len() == 8 * words.len(),
        bytes64(words.take(n)) == bytes64(words).take(8 * n),
    decreases words.len(),
{
    lemma_words64_of_bytes64(words);
    if n == words.len() {
        assert(words.take(n) =~= words);
        assert(bytes64(words).take(8 * n) =~= bytes64(words));
    } else {
        let rest = words.drop_last();
        lemma_bytes64_take(rest, n);
        assert(rest.take(n) =~= words.take(n));
        assert(bytes64(words).take(8 * n) =~= bytes64(rest).take(8 * n));
    }
}

/// The bytes of the first words are the first bytes of all of them.
pub proof fn lemma_bytes32_take(words: Seq<u32>, n: int)
    requires
        0 <= n <= words.len(),
    ensures
        bytes32(words).len() == 4 * words.len(),
        bytes32(words.take(n)) == bytes32(words).take(4 * n),
    decreases words.len(),
{
    lemma_words32_of_bytes32(words);
    if n == words.len() {
        assert(words.take(n) =~= words);
        assert(bytes32(words).take(4 * n) =~= bytes32(words));
    } else {
        let rest = words.drop_last();
        lemma_bytes32_take(rest, n);
        assert(rest.take(n) =~= words.take(n));
        assert(bytes32(words).take(4 * n) =~= bytes32(rest).take(4 * n));
    }
}

/// The bytes of a run of `u64`s.
pub fn encode_u64s(words: &[u64]) -> (bytes: Vec<u8>)
    ensures
        bytes@ == bytes64(words@),
{
    let mut bytes: Vec<u8> = Vec::new();
    let n: usize = words.len();
    for i in 0..n
        invariant
            n == words@.len(),
            bytes@ == bytes64(words@.take(i as int)),
    {
        let mut word: Vec<u8> = u64_to_bytes(words[i]);
        bytes.append(&mut word);
        assert(words@.take(i + 1).drop_last() =~= words@.take(i as int));
    }
    assert(words@.take(n as int) =~= words@);
    bytes
}

/// The bytes of a run of `u32`s.
pub fn encode_u32s(words: &[u32]) -> (bytes: Vec<u8>)
    ensures
        bytes@ == bytes32(words@),
{
    let mut bytes: Vec<u8> = Vec::new();
    let n: usize = words.len();
    for i in 0..n
        invariant
            n == words@.len(),
            bytes@ == bytes32(words@.take(i as int)),
    {
        let mut word: Vec<u8> = u32_to_bytes(words[i]);
        bytes.append(&mut word);
        assert(words@.take(i + 1).drop_last() =~= words@.take(i as int));
    }
    assert(words@.take(n as int) =~= words@);
    bytes
}

/// The `u64`s that a byte string holds.
pub fn decode_u64s(bytes: &[u8]) -> (words: Vec<u64>)
    ensures
        words@ == words64(bytes@),
{
    let len: usize = bytes.len();
    let n: usize = len / 8;
    let mut words: Vec<u64> = Vec::new();
    for i in 0..n
        invariant
            len == bytes@.len(),
            n == len / 8,
            words@.len() == i,
            forall|j: int| 0 <= j < i ==> words@[j] == words64(bytes@)[j],
    {
        let word: u64 = u64_from_bytes(vstd::slice::slice_subrange(bytes, 8 * i, 8 * i + 8));
        words.push(word);
    }
    assert(words@ =~= words64(bytes@));
    words
}

/// The `u32`s that a byte string holds.
pub fn decode_u32s(bytes: &[u8]) -> (words: Vec<u32>)
    ensures
        words@ == words32(bytes@),
{
    let len: usize = bytes.len();
    let n: usize = len / 4;
    let mut words: Vec<u32> = Vec::new();
    for i in 0..n
        invariant
            len == bytes@.len(),
            n == len / 4,
            words@.len() == i,
            forall|j: int| 0 <= j < i ==> words@[j] == words32(bytes@)[j],
    {
        let word: u32 = u32_from_bytes(vstd::slice::slice_subrange(bytes, 4 * i, 4 * i + 4));
        words.push(word);
    }
    assert(words@ =~= words32(bytes@));
    words
}

/// Each byte of a number is a digit of it to the base of two hundred and
/// fifty-six.
pub proof fn lemma_le_bytes_digit(x: nat, n: nat, j: nat)
    requires
        j < n,
    ensures
        le_bytes(x, n).len() == n,
        le_bytes(x, n)[j as int] as int == (x as int / pow(256, j)) % 256,
    decreases n,
{
    lemma_le_bytes_len(x, n);
    lemma_pow_positive(256, j);
    if j == 0 {
        lemma_pow0(256);
        assert(x as int / 1 == x);
        assert(le_bytes(x, n)[0] == (x % 256) as u8);
    } else {
        let k = (j - 1) as nat;
        let rest = le_bytes(x / 256, (n - 1) as nat);
        assert(le_bytes(x, n)[j as int] == rest[k as int]);
        lemma_le_bytes_digit(x / 256, (n - 1) as nat, k);
        lemma_pow_positive(256, k);
        assert(pow(256, j) == 256 * pow(256, k)) by {
            reveal(pow);
        }
        lemma_div_denominator(x as int, 256, pow(256, k));
        assert((x / 256) as int == x as int / 256);
    }
}

/// Bytes are the bytes of the number that they hold.
pub proof fn lemma_encode_decode(bytes: Seq<u8>)
    ensures
        le_bytes(le_value(bytes), bytes.len()) == bytes,
        le_value(bytes) < byte_capacity(bytes.len()),
    decreases bytes.len(),
{
    if bytes.len() > 0 {
        let rest = bytes.drop_first();
        lemma_encode_decode(rest);
        let x = le_value(bytes);
        assert(x % 256 == bytes[0] as nat);
        assert(x / 256 == le_value(rest));
        assert(le_bytes(x, bytes.len()) =~= seq![bytes[0]] + rest);
        assert(bytes =~= seq![bytes[0]] + rest);
    }
}

/// Words of eight bytes are encoded one after another, each with its least
/// significant byte first: byte `j` of word `i` is its digit `j` to the base of
/// two hundred and fifty-six.
pub proof fn law_long_words_are_encoded_least_significant_byte_first(
    words: &[u64],
    bytes: Vec<u8>,
    i: int,
    j: nat,
)
    requires
        call_ensures(encode_u64s, (words,), bytes),
        0 <= i < words@.len(),
        j < 8,
    ensures
        bytes@.len() == 8 * words@.len(),
        bytes@[8 * i + j] as int == (words@[i] as int / pow(256, j)) % 256,
{
    lemma_bytes64_at(words@, i);
    lemma_le_bytes_digit(words@[i] as nat, 8, j);
    assert(chunk8(bytes64(words@), i)[j as int] == bytes@[8 * i + j]);
}

/// Words of four bytes are encoded one after another, each with its least
/// significant byte first: byte `j` of word `i` is its digit `j` to the base of
/// two hundred and fifty-six.
pub proof fn law_words_are_encoded_least_significant_byte_first(
    words: &[u32],
    bytes: Vec<u8>,
    i: int,
    j: nat,
)
    requires
        call_ensures(encode_u32s, (words,), bytes),
        0 <= i < words@.len(),
        j < 4,
    ensures
        bytes@.len() == 4 * words@.len(),
        bytes@[4 * i + j] as int == (words@[i] as int / pow(256, j)) % 256,
{
    lemma_bytes32_at(words@, i);
    lemma_le_bytes_digit(words@[i] as nat, 4, j);
    assert(chunk4(bytes32(words@), i)[j as int] == bytes@[4 * i + j]);
}

/// Words of eight bytes are read one after another, each with its least
/// significant byte first.
pub proof fn law_long_words_are_decoded_least_significant_byte_first(
    bytes: &[u8],
    words: Vec<u64>,
    i: int,
    j: nat,
)
    requires
        call_ensures(decode_u64s, (bytes,), words),
        0 <= i < words@.len(),
        j < 8,
    ensures
        8 * words@.len() <= bytes@.len() < 8 * words@.len() + 8,
        bytes@[8 * i + j] as int == (words@[i] as int / pow(256, j)) % 256,
{
    let chunk = chunk8(bytes@, i);
    lemma_word_capacities();
    lemma_encode_decode(chunk);
    assert(words64(bytes@)[i] as nat == le_value(chunk));
    lemma_le_bytes_digit(words@[i] as nat, 8, j);
    assert(chunk[j as int] == bytes@[8 * i + j]);
}

/// Words of four bytes are read one after another, each with its least
/// significant byte first.
pub proof fn law_words_are_decoded_least_significant_byte_first(
    bytes: &[u8],
    words: Vec<u32>,
    i: int,
    j: nat,
)
    requires
        call_ensures(decode_u32s, (bytes,), words),
        0 <= i < words@.len(),
        j < 4,
    ensures
        4 * words@.len() <= bytes@.len() < 4 * words@.len() + 4,
        bytes@[4 * i + j] as int == (words@[i] as int / pow(256, j)) % 256,
{
    let chunk = chunk4(bytes@, i);
    lemma_word_capacities();
    lemma_encode_decode(chunk);
    assert(words32(bytes@)[i] as nat == le_value(chunk));
    lemma_le_bytes_digit(words@[i] as nat, 4, j);
    assert(chunk[j as int] == bytes@[4 * i + j]);
}

/// What was encoded is decoded to the same words.
pub proof fn law_decoding_undoes_encoding(
    long: &[u64],
    long_bytes: Vec<u8>,
    long_source: &[u8],
    long_back: Vec<u64>,
    words: &[u32],
    bytes: Vec<u8>,
    source: &[u8],
    back: Vec<u32>,
)
    requires
        call_ensures(encode_u64s, (long,), long_bytes),
        long_source@ == long_bytes@,
        call_ensures(decode_u64s, (long_source,), long_back),
        call_ensures(encode_u32s, (words,), bytes),
        source@ == bytes@,
        call_ensures(decode_u32s, (source,), back),
    ensures
        long_back@ == long@,
        back@ == words@,
{
    lemma_words64_of_bytes64(long@);
    lemma_words32_of_bytes32(words@);
}

/// Where the bytes of one word of eight bytes are.
pub proof fn lemma_bytes64_at(words: Seq<u64>, i: int)
    requires
        0 <= i < words.len(),
    ensures
        bytes64(words).len() == 8 * words.len(),
        chunk8(bytes64(words), i) == le_bytes(words[i] as nat, 8),
    decreases words.len(),
{
    lemma_words64_of_bytes64(words);
    lemma_words64_of_bytes64(words.drop_last());
    lemma_le_bytes_len(words.last() as nat, 8);
    if i < words.len() - 1 {
        lemma_bytes64_at(words.drop_last(), i);
        assert(chunk8(bytes64(words), i) =~= chunk8(bytes64(words.drop_last()), i));
    } else {
        assert(chunk8(bytes64(words), i) =~= le_bytes(words[i] as nat, 8));
    }
}

/// Where the bytes of one word of four bytes are.
pub proof fn lemma_bytes32_at(words: Seq<u32>, i: int)
    requires
        0 <= i < words.len(),
    ensures
        bytes32(words).len() == 4 * words.len(),
        chunk4(bytes32(words), i) == le_bytes(words[i] as nat, 4),
    decreases words.len(),
{
    lemma_words32_of_bytes32(words);
    lemma_words32_of_bytes32(words.drop_last());
    lemma_le_bytes_len(words.last() as nat, 4);
    if i < words.len() - 1 {
        lemma_bytes32_at(words.drop_last(), i);
        assert(chunk4(bytes32(words), i) =~= chunk4(bytes32(words.drop_last()), i));
    } else {
        assert(chunk4(bytes32(words), i) =~= le_bytes(words[i] as nat, 4));
    }
}

} // verus!
