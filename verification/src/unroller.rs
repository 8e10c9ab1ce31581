//! Unrolling raw bytes into the canonical row sequence: one header row with
//! the total length, then one row per byte tagged as executable code or
//! forced push data.

use vstd::prelude::*;
use crate::hashing::{keccak_digest, keccak_of};
use crate::opcodes::{get_push_size, spec_push_size};
use crate::rows::{copy_bytes, BytecodeRow, RowModel, RowTag, UnrolledBytecode, UnrolledModel};

verus! {

/// The forced-push-data counter just before byte offset `i` is classified:
/// 0 at offset 0; reloaded with the push size whenever the previous byte was
/// code, decremented while it is positive otherwise.
pub open spec fn push_data_left_at(bytes: Seq<u8>, i: int) -> u64
    decreases i,
{
    if i <= 0 {
        0
    } else {
        let prev = push_data_left_at(bytes, i - 1);
        if prev == 0 {
            spec_push_size(bytes[i - 1])
        } else {
            (prev - 1) as u64
        }
    }
}

/// Byte offset `i` is executable code iff it is not forced push data.
pub open spec fn spec_is_code(bytes: Seq<u8>, i: int) -> bool {
    push_data_left_at(bytes, i) == 0
}

/// The header row owed for a byte sequence.
pub open spec fn header_row(bytes: Seq<u8>) -> RowModel {
    RowModel {
        code_hash: keccak_of(bytes),
        tag: RowTag::Header,
        index: 0,
        is_code: false,
        value: bytes.len() as u64,
    }
}

/// The row owed for byte offset `i` of a byte sequence.
pub open spec fn byte_row(bytes: Seq<u8>, i: int) -> RowModel {
    RowModel {
        code_hash: keccak_of(bytes),
        tag: RowTag::Byte,
        index: i as u64,
        is_code: spec_is_code(bytes, i),
        value: bytes[i] as u64,
    }
}

/// What it means for an unrolled bytecode to be the unrolling of a byte
/// sequence: the bytes are kept, and the rows are exactly the header row
/// followed by one row per byte.
pub open spec fn is_unrolling_of(bytes: Seq<u8>, ub: UnrolledModel) -> bool {
    &&& ub.bytes == bytes
    &&& ub.rows.len() == bytes.len() + 1
    &&& ub.rows[0] == header_row(bytes)
    &&& forall|i: int| 0 <= i < bytes.len() ==> #[trigger] ub.rows[i + 1] == byte_row(bytes, i)
}

/// Unrolls raw bytes into their canonical row sequence. Total and
/// deterministic: every byte sequence, including the empty one, has exactly
/// one unrolling, with `len + 1` rows.
pub fn unroll(bytes: Vec<u8>) -> (r: UnrolledBytecode)
    ensures
        is_unrolling_of(bytes@, r@),
{
    let code_hash = keccak_digest(&bytes);
    let mut rows: Vec<BytecodeRow> = Vec::new();
    rows.push(
        BytecodeRow {
            code_hash: copy_bytes(&code_hash),
            tag: RowTag::Header,
            index: 0,
            is_code: false,
            value: bytes.len() as u64,
        },
    );
    let mut push_rindex: u64 = 0;
    let mut index: usize = 0;
    while index < bytes.len()
        invariant
            index <= bytes@.len(),
            rows@.len() == index + 1,
            code_hash@ == keccak_of(bytes@),
            rows@[0]@ == header_row(bytes@),
            forall|i: int| 0 <= i < index ==> #[trigger] rows@[i + 1]@ == byte_row(bytes@, i),
            push_rindex == push_data_left_at(bytes@, index as int),
        decreases bytes@.len() - index,
    {
        let byte = bytes[index];
        let is_code = push_rindex == 0;
        push_rindex = if is_code {
            get_push_size(byte)
        } else {
            push_rindex - 1
        };
        rows.push(
            BytecodeRow {
                code_hash: copy_bytes(&code_hash),
                tag: RowTag::Byte,
                index: index as u64,
                is_code,
                value: byte as u64,
            },
        );
        index = index + 1;
        proof {
            assert(rows@[index as int]@ =~= byte_row(bytes@, index - 1));
        }
    }
    let r = UnrolledBytecode { bytes, rows };
    proof {
        assert forall|i: int| 0 <= i < r@.bytes.len() implies #[trigger] r@.rows[i + 1]
            == byte_row(r@.bytes, i) by {
            assert(r@.rows[i + 1] == r.rows@[i + 1]@);
        }
        assert(r@.rows[0] == r.rows@[0]@);
    }
    r
}

/// Unrolling is a function of the bytes alone: two unrollings of the same
/// byte sequence have identical rows and an identical code hash. In
/// particular, unrolling the same bytecode twice yields identical results.
pub proof fn lemma_unroll_deterministic(bytes: Seq<u8>, u1: UnrolledModel, u2: UnrolledModel)
    requires
        is_unrolling_of(bytes, u1),
        is_unrolling_of(bytes, u2),
    ensures
        u1 == u2,
{
    assert forall|i: int| 0 <= i < u1.rows.len() implies u1.rows[i] == u2.rows[i] by {
        if i > 0 {
            assert(u1.rows[(i - 1) + 1] == byte_row(bytes, i - 1));
            assert(u2.rows[(i - 1) + 1] == byte_row(bytes, i - 1));
        }
    }
    assert(u1.rows =~= u2.rows);
    assert(u1 =~= u2);
}

/// The reference oracle for code offsets: starting from code offset `j`,
/// repeatedly skip over the forced push data of the byte at hand; offset `i`
/// is code iff the walk lands on it exactly.
pub open spec fn oracle_reaches(bytes: Seq<u8>, j: int, i: int) -> bool
    decreases i - j,
{
    if j >= i {
        j == i
    } else if j + 1 + spec_push_size(bytes[j]) > i {
        false
    } else {
        oracle_reaches(bytes, j + 1 + spec_push_size(bytes[j]), i)
    }
}

/// Byte offset `i` is code according to the skip-walk oracle.
pub open spec fn oracle_is_code(bytes: Seq<u8>, i: int) -> bool {
    oracle_reaches(bytes, 0, i)
}

/// Inside the push span opened at code offset `j`, the forced-data counter
/// counts down from the push size and stays positive.
proof fn lemma_pdl_in_push_span(bytes: Seq<u8>, j: int, t: int)
    requires
        0 <= j,
        push_data_left_at(bytes, j) == 0,
        1 <= t <= spec_push_size(bytes[j]),
    ensures
        push_data_left_at(bytes, j + t) == spec_push_size(bytes[j]) + 1 - t,
    decreases t,
{
    if t > 1 {
        lemma_pdl_in_push_span(bytes, j, t - 1);
    }
}

/// From any code offset `j`, the skip-walk oracle and the forced-data
/// counter agree on every later offset.
proof fn lemma_oracle_from(bytes: Seq<u8>, j: int, i: int)
    requires
        0 <= j <= i,
        push_data_left_at(bytes, j) == 0,
    ensures
        oracle_reaches(bytes, j, i) == (push_data_left_at(bytes, i) == 0),
    decreases i - j,
{
    if j < i {
        let ps = spec_push_size(bytes[j]);
        let j2 = j + 1 + ps;
        if j2 > i {
            lemma_pdl_in_push_span(bytes, j, i - j);
        } else {
            if ps == 0 {
                assert(push_data_left_at(bytes, j2) == 0);
            } else {
                lemma_pdl_in_push_span(bytes, j, ps as int);
                assert(push_data_left_at(bytes, j2 - 1) == 1);
                assert(push_data_left_at(bytes, j2) == 0);
            }
            lemma_oracle_from(bytes, j2, i);
        }
    }
}

/// The forced-data-counter classification agrees with the independent
/// skip-walk oracle on every byte offset.
pub proof fn lemma_is_code_matches_oracle(bytes: Seq<u8>, i: int)
    requires
        0 <= i,
    ensures
        spec_is_code(bytes, i) == oracle_is_code(bytes, i),
{
    lemma_oracle_from(bytes, 0, i);
}

} // verus!
