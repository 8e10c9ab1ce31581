//! The digest commitment of a bytecode, the randomized running accumulator
//! used to fingerprint its bytes, and the hashing lookup relation built from
//! both.

use vstd::prelude::*;
use crate::rows::UnrolledBytecode;

verus! {

/// The 32-byte Keccak-256 digest of a message, named but not defined here:
/// the hashing algorithm itself is an external collaborator and only its
/// committed output is consumed.
pub uninterp spec fn keccak_of(msg: Seq<u8>) -> Seq<u8>;

/// Relies on tiny_keccak's Keccak-256 (`Keccak::v256`, `Hasher::update`,
/// `Hasher::finalize`) for the digest: a 32-byte value that depends on the
/// message bytes alone.
#[verifier::external_body]
pub(crate) fn keccak_digest(msg: &Vec<u8>) -> (r: Vec<u8>)
    ensures
        r@ == keccak_of(msg@),
        r@.len() == 32,
{
    let mut hasher = tiny_keccak::Keccak::v256();
    tiny_keccak::Hasher::update(&mut hasher, msg.as_slice());
    let mut out = [0u8; 32];
    tiny_keccak::Hasher::finalize(hasher, &mut out);
    out.to_vec()
}

/// One step of the running accumulator: fold one more value into the
/// fingerprint under the challenge scalar, wrapping modulo 2^128.
pub open spec fn rlc_step(acc: u128, challenge: u128, v: u64) -> u128 {
    acc.wrapping_mul(challenge).wrapping_add(v as u128)
}

/// The accumulated fingerprint of a byte sequence under a challenge scalar:
/// seeded with the first byte, then folded left to right.
pub open spec fn rlc_of(bytes: Seq<u8>, challenge: u128) -> u128
    decreases bytes.len(),
{
    if bytes.len() == 0 {
        0
    } else {
        rlc_step(rlc_of(bytes.drop_last(), challenge), challenge, bytes.last() as u64)
    }
}

/// Computes the accumulated fingerprint of a byte sequence.
pub fn rlc_fold(bytes: &Vec<u8>, challenge: u128) -> (r: u128)
    ensures
        r == rlc_of(bytes@, challenge),
{
    let mut acc: u128 = 0;
    let mut i: usize = 0;
    while i < bytes.len()
        invariant
            i <= bytes@.len(),
            acc == rlc_of(bytes@.subrange(0, i as int), challenge),
        decreases bytes@.len() - i,
    {
        let b = bytes[i];
        acc = acc.wrapping_mul(challenge).wrapping_add(b as u128);
        i = i + 1;
        proof {
            let pre = bytes@.subrange(0, i as int);
            assert(pre.drop_last() =~= bytes@.subrange(0, i - 1));
            assert(pre.last() == bytes@[i - 1]);
        }
    }
    proof {
        assert(bytes@.subrange(0, bytes@.len() as int) =~= bytes@);
    }
    acc
}

/// The little-endian 64-bit word read at byte offset `base`.
pub open spec fn le_word(s: Seq<u8>, base: int) -> u64 {
    (s[base] + s[base + 1] * 0x100 + s[base + 2] * 0x1_0000 + s[base + 3] * 0x100_0000 + s[base
        + 4] * 0x1_0000_0000 + s[base + 5] * 0x100_0000_0000 + s[base + 6] * 0x1_0000_0000_0000
        + s[base + 7] * 0x100_0000_0000_0000) as u64
}

/// Packs a message into little-endian 64-bit words, one per full 8-byte
/// chunk; a trailing partial chunk is dropped.
pub fn into_words(message: &[u8]) -> (words: Vec<u64>)
    ensures
        words@.len() == message@.len() / 8,
        forall|i: int| 0 <= i < words@.len() ==> #[trigger] words@[i] == le_word(message@, 8 * i),
{
    let words_total = message.len() / 8;
    let mut words: Vec<u64> = Vec::new();
    let mut i: usize = 0;
    while i < words_total
        invariant
            i <= words_total,
            words_total == message@.len() / 8,
            message@.len() <= usize::MAX,
            words@.len() == i,
            forall|j: int| 0 <= j < i ==> #[trigger] words@[j] == le_word(message@, 8 * j),
        decreases words_total - i,
    {
        proof {
            assert(i * 8 + 8 <= message@.len()) by (nonlinear_arith)
                requires
                    i < words_total,
                    words_total == message@.len() / 8,
            ;
        }
        let base: usize = i * 8;
        let w: u64 = message[base] as u64 + (message[base + 1] as u64) * 0x100 + (message[base
            + 2] as u64) * 0x1_0000 + (message[base + 3] as u64) * 0x100_0000 + (message[base
            + 4] as u64) * 0x1_0000_0000 + (message[base + 5] as u64) * 0x100_0000_0000 + (
        message[base + 6] as u64) * 0x1_0000_0000_0000 + (message[base + 7] as u64)
            * 0x100_0000_0000_0000;
        words.push(w);
        i = i + 1;
    }
    words
}

/// Mathematical model of one entry of the hashing lookup relation.
#[verifier::ext_equal]
pub struct HashEntryModel {
    pub value_rlc: u128,
    pub length: u64,
    pub code_hash: Seq<u8>,
}

/// One entry of the hashing lookup relation: the accumulated fingerprint of
/// a message, its length, and its digest commitment.
#[derive(Clone, Debug, PartialEq, Eq)]
pub struct HashEntry {
    pub value_rlc: u128,
    pub length: u64,
    pub code_hash: Vec<u8>,
}

impl View for HashEntry {
    type V = HashEntryModel;

    open spec fn view(&self) -> HashEntryModel {
        HashEntryModel {
            value_rlc: self.value_rlc,
            length: self.length,
            code_hash: self.code_hash@,
        }
    }
}

impl DeepView for HashEntry {
    type V = HashEntryModel;

    open spec fn deep_view(&self) -> HashEntryModel {
        self@
    }
}

/// The hashing-relation entry owed for one bytecode: fingerprint of its raw
/// bytes, their count, and their digest.
pub open spec fn hash_entry_of(bytes: Seq<u8>, challenge: u128) -> HashEntryModel {
    HashEntryModel {
        value_rlc: rlc_of(bytes, challenge),
        length: bytes.len() as u64,
        code_hash: keccak_of(bytes),
    }
}

/// Builds the hashing lookup relation for a batch of bytecodes: one entry
/// per bytecode, computed from its raw bytes alone.
pub fn keccak_relation(bytecodes: &Vec<UnrolledBytecode>, challenge: u128) -> (rel: Vec<
    HashEntry,
>)
    ensures
        rel.deep_view().len() == bytecodes@.len(),
        forall|k: int|
            0 <= k < bytecodes@.len() ==> rel.deep_view()[k] == hash_entry_of(
                bytecodes@[k].bytes@,
                challenge,
            ),
{
    let mut rel: Vec<HashEntry> = Vec::new();
    let mut k: usize = 0;
    while k < bytecodes.len()
        invariant
            k <= bytecodes@.len(),
            rel@.len() == k,
            forall|j: int|
                0 <= j < k ==> #[trigger] rel@[j]@ == hash_entry_of(bytecodes@[j].bytes@, challenge),
        decreases bytecodes@.len() - k,
    {
        let bytes = &bytecodes[k].bytes;
        let value_rlc = rlc_fold(bytes, challenge);
        let code_hash = keccak_digest(bytes);
        rel.push(HashEntry { value_rlc, length: bytes.len() as u64, code_hash });
        k = k + 1;
        proof {
            assert(rel@[k - 1]@ =~= hash_entry_of(bytecodes@[k - 1].bytes@, challenge));
        }
    }
    proof {
        assert forall|j: int| 0 <= j < bytecodes@.len() implies rel.deep_view()[j]
            == hash_entry_of(bytecodes@[j].bytes@, challenge) by {
            assert(rel.deep_view()[j] == rel@[j]@);
        }
    }
    rel
}

} // verus!
