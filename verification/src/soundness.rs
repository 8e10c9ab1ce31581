//! The table built by the assignment engine from well-formed unrollings
//! satisfies the whole transition constraint set, provided the hashing
//! relation holds every bytecode's entry and the batch leaves room for at
//! least one padding row.

use vstd::prelude::*;
use crate::checker::{
    byte_rule, check_table, hash_lookup_ok, header_rule, pair_ok, row_ok,
    table_accepted,
};
use crate::hashing::{hash_entry_of, keccak_relation, HashEntryModel};
use crate::opcodes::{is_push_table, lemma_push_table_membership, spec_push_size};
use crate::rows::{RowTag, UnrolledBytecode, UnrolledModel};
use crate::table::{
    assigned_row, assigned_rows, clip, concat_rows, derived_pdl, derived_rlc, pad_rows,
    padding_row_model, spec_table_rows, spec_total_rows, table_well_formed,
    BytecodeCircuitConfig, BytecodeTable, TableRowModel,
};
use crate::unroller::{byte_row, header_row, is_unrolling_of, push_data_left_at, spec_is_code};

verus! {

/// A row block may lawfully be followed by a header row: a padding row or
/// the next bytecode's header satisfies the transition rules after it.
pub open spec fn seg_end_ok(x: TableRowModel, hash_rel: Seq<HashEntryModel>) -> bool {
    match x.tag {
        RowTag::Header => x.length == 0,
        RowTag::Byte => x.index + 1 == x.length && hash_lookup_ok(x, hash_rel),
    }
}

/// A self-contained row block: it starts with a header row, every row obeys
/// the per-row rules, every internal pair obeys the transition rules, and
/// its last row may lawfully be followed by a header row.
pub open spec fn seg_ok(
    s: Seq<TableRowModel>,
    challenge: u128,
    push_tab: Seq<(u64, u64)>,
    hash_rel: Seq<HashEntryModel>,
) -> bool {
    &&& s.len() >= 1
    &&& s[0].tag == RowTag::Header
    &&& forall|i: int| 0 <= i < s.len() ==> #[trigger] row_ok(s[i], push_tab)
    &&& forall|i: int|
        0 <= i < s.len() - 1 ==> #[trigger] pair_ok(s[i], s[i + 1], challenge, hash_rel)
    &&& seg_end_ok(s.last(), hash_rel)
}

/// A lawful block ending followed by any header row satisfies the
/// transition rules.
proof fn lemma_end_pair(
    x: TableRowModel,
    h: TableRowModel,
    challenge: u128,
    hash_rel: Seq<HashEntryModel>,
)
    requires
        seg_end_ok(x, hash_rel),
        h.tag == RowTag::Header,
    ensures
        pair_ok(x, h, challenge, hash_rel),
{
}

/// Two self-contained row blocks concatenate to a self-contained row block.
proof fn lemma_seg_append(
    a: Seq<TableRowModel>,
    b: Seq<TableRowModel>,
    challenge: u128,
    push_tab: Seq<(u64, u64)>,
    hash_rel: Seq<HashEntryModel>,
)
    requires
        seg_ok(a, challenge, push_tab, hash_rel),
        seg_ok(b, challenge, push_tab, hash_rel),
    ensures
        seg_ok(a + b, challenge, push_tab, hash_rel),
{
    let s = a + b;
    assert(s[0] == a[0]);
    assert(s.last() == b.last());
    assert forall|i: int| 0 <= i < s.len() implies #[trigger] row_ok(s[i], push_tab) by {
        if i < a.len() {
            assert(s[i] == a[i]);
        } else {
            assert(s[i] == b[i - a.len()]);
        }
    }
    assert forall|i: int| 0 <= i < s.len() - 1 implies #[trigger] pair_ok(
        s[i],
        s[i + 1],
        challenge,
        hash_rel,
    ) by {
        if i + 1 < a.len() {
            assert(s[i] == a[i]);
            assert(s[i + 1] == a[i + 1]);
        } else if i + 1 == a.len() {
            assert(s[i] == a[i]);
            assert(s[i + 1] == b[0]);
            assert(a[i] == a.last());
            lemma_end_pair(a.last(), b[0], challenge, hash_rel);
        } else {
            assert(s[i] == b[i - a.len()]);
            assert(s[i + 1] == b[i - a.len() + 1]);
        }
    }
}

/// On a well-formed unrolling, the derived forced-data counter stored at
/// byte row `idx` equals the unroller's counter before byte `idx - 1`.
proof fn lemma_derived_pdl_matches(bytes: Seq<u8>, ub: UnrolledModel, idx: int)
    requires
        is_unrolling_of(bytes, ub),
        1 <= idx <= bytes.len(),
    ensures
        derived_pdl(ub.rows, idx) == push_data_left_at(bytes, idx - 1),
    decreases idx,
{
    if idx > 1 {
        lemma_derived_pdl_matches(bytes, ub, idx - 1);
        assert(ub.rows[(idx - 2) + 1] == byte_row(bytes, idx - 2));
        assert(ub.rows[idx - 1].value == bytes[idx - 2] as u64);
        assert((bytes[idx - 2] as u64 % 256) as u8 == bytes[idx - 2]);
    }
}

/// On a well-formed unrolling, the derived fingerprint stored at row `idx`
/// equals the fingerprint of the first `idx` raw bytes.
proof fn lemma_derived_rlc_matches(bytes: Seq<u8>, ub: UnrolledModel, challenge: u128, idx: int)
    requires
        is_unrolling_of(bytes, ub),
        0 <= idx <= bytes.len(),
    ensures
        derived_rlc(ub.rows, challenge, idx) == crate::hashing::rlc_of(
            bytes.take(idx),
            challenge,
        ),
    decreases idx,
{
    if idx == 0 {
        assert(bytes.take(0) =~= Seq::<u8>::empty());
    } else {
        lemma_derived_rlc_matches(bytes, ub, challenge, idx - 1);
        assert(ub.rows[(idx - 1) + 1] == byte_row(bytes, idx - 1));
        assert(bytes.take(idx).drop_last() =~= bytes.take(idx - 1));
        assert(bytes.take(idx).last() == bytes[idx - 1]);
    }
}

/// The row block assigned for one well-formed unrolling is self-contained.
proof fn lemma_segment_ok(
    ub: UnrolledModel,
    challenge: u128,
    push_tab: Seq<(u64, u64)>,
    hash_rel: Seq<HashEntryModel>,
)
    requires
        is_unrolling_of(ub.bytes, ub),
        is_push_table(push_tab),
        hash_rel.contains(hash_entry_of(ub.bytes, challenge)),
        ub.bytes.len() <= u64::MAX,
    ensures
        seg_ok(assigned_rows(ub, challenge), challenge, push_tab, hash_rel),
{
    let bytes = ub.bytes;
    let n = bytes.len() as int;
    let s = assigned_rows(ub, challenge);
    assert(s.len() == n + 1);
    assert(ub.rows[0] == header_row(bytes));
    assert(s[0] == assigned_row(ub, challenge, 0));
    assert(s[0].tag == RowTag::Header);
    assert forall|i: int| 0 <= i < s.len() implies #[trigger] row_ok(s[i], push_tab) by {
        assert(s[i] == assigned_row(ub, challenge, i));
        if i == 0 {
            assert(header_rule(s[0]));
        } else {
            assert(ub.rows[(i - 1) + 1] == byte_row(bytes, i - 1));
            lemma_derived_pdl_matches(bytes, ub, i);
            assert(byte_rule(s[i]));
            assert(s[i].value == bytes[i - 1] as u64);
            assert(s[i].push_data_size == spec_push_size(bytes[i - 1]));
            lemma_push_table_membership(push_tab, s[i].value, s[i].push_data_size);
        }
    }
    assert forall|i: int| 0 <= i < s.len() - 1 implies #[trigger] pair_ok(
        s[i],
        s[i + 1],
        challenge,
        hash_rel,
    ) by {
        assert(s[i] == assigned_row(ub, challenge, i));
        assert(s[i + 1] == assigned_row(ub, challenge, i + 1));
        assert(ub.rows[i + 1] == byte_row(bytes, i));
        if i == 0 {
            assert(spec_is_code(bytes, 0));
            assert(derived_rlc(ub.rows, challenge, 1) == crate::hashing::rlc_step(
                0,
                challenge,
                ub.rows[1].value,
            ));
            assert(0u128.wrapping_mul(challenge) == 0) by {
                assert((0int * challenge as int) % 0x1_0000_0000_0000_0000_0000_0000_0000_0000int
                    == 0int);
            }
            assert(s[1].value_rlc == s[1].value as u128);
        } else {
            assert(ub.rows[(i - 1) + 1] == byte_row(bytes, i - 1));
            lemma_derived_pdl_matches(bytes, ub, i);
            lemma_derived_pdl_matches(bytes, ub, i + 1);
            assert(s[i].is_code == spec_is_code(bytes, i - 1));
            assert((bytes[i - 1] as u64 % 256) as u8 == bytes[i - 1]);
            assert(s[i + 1].index == i as u64);
            assert(s[i].index == (i - 1) as u64);
        }
    }
    if n == 0 {
        assert(s.last() == s[0]);
        assert(s.last().length == 0);
    } else {
        assert(s.last() == assigned_row(ub, challenge, n));
        assert(ub.rows[(n - 1) + 1] == byte_row(bytes, n - 1));
        assert(s.last().index == (n - 1) as u64);
        assert(s.last().length == n as u64);
        lemma_derived_rlc_matches(bytes, ub, challenge, n);
        assert(bytes.take(n) =~= bytes);
        assert(HashEntryModel {
            value_rlc: s.last().value_rlc,
            length: s.last().length,
            code_hash: s.last().code_hash,
        } =~= hash_entry_of(bytes, challenge));
        assert(hash_lookup_ok(s.last(), hash_rel));
    }
}

/// A nonempty stretch of padding header rows is self-contained.
proof fn lemma_padding_seg_ok(
    k: int,
    challenge: u128,
    push_tab: Seq<(u64, u64)>,
    hash_rel: Seq<HashEntryModel>,
)
    requires
        k >= 1,
    ensures
        seg_ok(pad_rows(k), challenge, push_tab, hash_rel),
{
    let s = pad_rows(k);
    assert forall|i: int| 0 <= i < s.len() implies #[trigger] row_ok(s[i], push_tab) by {
        assert(s[i] == padding_row_model());
    }
    assert forall|i: int| 0 <= i < s.len() - 1 implies #[trigger] pair_ok(
        s[i],
        s[i + 1],
        challenge,
        hash_rel,
    ) by {
        assert(s[i] == padding_row_model());
        assert(s[i + 1] == padding_row_model());
    }
    assert(s.last() == padding_row_model());
}

/// The concatenated row blocks of a batch of well-formed unrollings are
/// self-contained.
proof fn lemma_concat_seg_ok(
    bcs: Seq<UnrolledModel>,
    challenge: u128,
    push_tab: Seq<(u64, u64)>,
    hash_rel: Seq<HashEntryModel>,
)
    requires
        bcs.len() >= 1,
        is_push_table(push_tab),
        forall|k: int| 0 <= k < bcs.len() ==> is_unrolling_of(#[trigger] bcs[k].bytes, bcs[k]),
        forall|k: int|
            0 <= k < bcs.len() ==> hash_rel.contains(#[trigger] hash_entry_of(
                bcs[k].bytes,
                challenge,
            )),
        forall|k: int| 0 <= k < bcs.len() ==> #[trigger] bcs[k].bytes.len() <= u64::MAX,
    ensures
        seg_ok(concat_rows(bcs, challenge), challenge, push_tab, hash_rel),
    decreases bcs.len(),
{
    lemma_segment_ok(bcs[0], challenge, push_tab, hash_rel);
    if bcs.len() == 1 {
        assert(concat_rows(bcs.drop_first(), challenge) =~= Seq::<TableRowModel>::empty());
        assert(concat_rows(bcs, challenge) =~= assigned_rows(bcs[0], challenge));
    } else {
        let rest = bcs.drop_first();
        assert forall|k: int| 0 <= k < rest.len() implies is_unrolling_of(
            #[trigger] rest[k].bytes,
            rest[k],
        ) by {
            assert(rest[k] == bcs[k + 1]);
        }
        assert forall|k: int| 0 <= k < rest.len() implies hash_rel.contains(
            #[trigger] hash_entry_of(rest[k].bytes, challenge),
        ) by {
            assert(rest[k] == bcs[k + 1]);
        }
        assert forall|k: int| 0 <= k < rest.len() implies #[trigger] rest[k].bytes.len()
            <= u64::MAX by {
            assert(rest[k] == bcs[k + 1]);
        }
        lemma_concat_seg_ok(rest, challenge, push_tab, hash_rel);
        lemma_seg_append(
            assigned_rows(bcs[0], challenge),
            concat_rows(rest, challenge),
            challenge,
            push_tab,
            hash_rel,
        );
    }
}

/// The concatenated row blocks of a batch hold exactly its total row count.
proof fn lemma_concat_len(bcs: Seq<UnrolledModel>, challenge: u128)
    ensures
        concat_rows(bcs, challenge).len() == spec_total_rows(bcs),
    decreases bcs.len(),
{
    if bcs.len() > 0 {
        lemma_concat_len(bcs.drop_first(), challenge);
    }
}

/// Every bytecode of a batch contributes at most the batch's total row
/// count.
proof fn lemma_rows_le_total(bcs: Seq<UnrolledModel>, k: int)
    requires
        0 <= k < bcs.len(),
    ensures
        bcs[k].rows.len() <= spec_total_rows(bcs),
{
    crate::table::lemma_concat_take_step(bcs, 0, k);
    crate::table::lemma_total_nonneg(bcs.take(k));
    crate::table::lemma_total_take_bound(bcs, k + 1);
}

/// Soundness of the assignment engine against the constraint set: the table
/// assigned from any batch of well-formed unrollings is accepted, provided
/// the push-size relation is the canonical one, the hashing relation holds
/// every bytecode's entry, and the batch's total row count leaves room for
/// at least one padding row. In particular one table may pack many
/// bytecodes, each satisfying the hashing lookup at its own byte-to-header
/// boundary.
pub proof fn lemma_assignment_accepted(
    bcs: Seq<UnrolledModel>,
    usable: int,
    challenge: u128,
    push_tab: Seq<(u64, u64)>,
    hash_rel: Seq<HashEntryModel>,
)
    requires
        1 <= usable <= u64::MAX,
        is_push_table(push_tab),
        forall|k: int| 0 <= k < bcs.len() ==> is_unrolling_of(#[trigger] bcs[k].bytes, bcs[k]),
        forall|k: int|
            0 <= k < bcs.len() ==> hash_rel.contains(#[trigger] hash_entry_of(
                bcs[k].bytes,
                challenge,
            )),
        spec_total_rows(bcs) < usable,
    ensures
        table_accepted(spec_table_rows(bcs, usable, challenge), challenge, push_tab, hash_rel),
{
    let all = concat_rows(bcs, challenge);
    lemma_concat_len(bcs, challenge);
    crate::table::lemma_total_nonneg(bcs);
    assert(all.len() < usable);
    assert(clip(all, usable) == all);
    let pad = pad_rows(usable - all.len());
    let s = spec_table_rows(bcs, usable, challenge);
    assert(s == all + pad);
    lemma_padding_seg_ok(usable - all.len(), challenge, push_tab, hash_rel);
    if bcs.len() == 0 {
        assert(all =~= Seq::<TableRowModel>::empty());
        assert(s =~= pad);
        assert(seg_ok(s, challenge, push_tab, hash_rel));
    } else {
        assert forall|k: int| 0 <= k < bcs.len() implies #[trigger] bcs[k].bytes.len()
            <= u64::MAX by {
            lemma_rows_le_total(bcs, k);
            assert(bcs[k].rows.len() == bcs[k].bytes.len() + 1);
        }
        lemma_concat_seg_ok(bcs, challenge, push_tab, hash_rel);
        lemma_seg_append(all, pad, challenge, push_tab, hash_rel);
    }
    assert(s.last() == pad.last());
    assert(s.last() == padding_row_model());
    assert forall|i: int| 0 <= i < s.len() - 1 implies #[trigger] row_ok(s[i], push_tab) by {
        assert(seg_ok(s, challenge, push_tab, hash_rel));
    }
}

/// The whole pipeline on one batch of well-formed unrollings: strict
/// assignment, the canonical push-size relation, the batch's hashing
/// relation, and the constraint set. Returns the table only when assignment
/// fits and the constraint set accepts; whenever the batch leaves room for
/// at least one padding row, it always does.
pub fn assign_and_check(
    bytecodes: &Vec<UnrolledBytecode>,
    size: usize,
    reserved_rows: usize,
    challenge: u128,
) -> (r: Option<BytecodeTable>)
    requires
        reserved_rows < size,
        forall|k: int|
            0 <= k < bytecodes.deep_view().len() ==> is_unrolling_of(
                #[trigger] bytecodes.deep_view()[k].bytes,
                bytecodes.deep_view()[k],
            ),
    ensures
        r is Some ==> spec_total_rows(bytecodes.deep_view()) + reserved_rows <= size,
        spec_total_rows(bytecodes.deep_view()) + reserved_rows < size ==> r is Some,
        r matches Some(t) ==> t.rows.deep_view() == spec_table_rows(
            bytecodes.deep_view(),
            (size - reserved_rows) as int,
            challenge,
        ) && t.size == size && t.reserved_rows == reserved_rows && table_well_formed(t),
{
    let ghost bcs = bytecodes.deep_view();
    let config = BytecodeCircuitConfig::new(reserved_rows);
    let table = match config.assign(bytecodes, size, challenge) {
        Ok(t) => t,
        Err(_) => {
            return None;
        },
    };
    let hash_rel = keccak_relation(bytecodes, challenge);
    proof {
        assert forall|k: int| 0 <= k < bcs.len() implies hash_rel.deep_view()[k]
            == hash_entry_of(bcs[k].bytes, challenge) by {
            assert(hash_rel.deep_view()[k] == hash_entry_of(bytecodes@[k].bytes@, challenge));
            assert(bcs[k].bytes == bytecodes@[k].bytes@);
        }
        lemma_keccak_relation_complete(hash_rel.deep_view(), bcs, challenge);
        if spec_total_rows(bcs) + reserved_rows < size {
            lemma_assignment_accepted(
                bcs,
                (size - reserved_rows) as int,
                challenge,
                config.push_table@,
                hash_rel.deep_view(),
            );
        }
    }
    if check_table(&table, challenge, &config.push_table, &hash_rel) {
        Some(table)
    } else {
        None
    }
}

/// A hashing relation listing one entry per bytecode, in order, holds every
/// bytecode's entry.
pub proof fn lemma_keccak_relation_complete(
    rel: Seq<HashEntryModel>,
    bcs: Seq<UnrolledModel>,
    challenge: u128,
)
    requires
        rel.len() == bcs.len(),
        forall|k: int| 0 <= k < bcs.len() ==> rel[k] == hash_entry_of(bcs[k].bytes, challenge),
    ensures
        forall|k: int|
            0 <= k < bcs.len() ==> rel.contains(#[trigger] hash_entry_of(bcs[k].bytes, challenge)),
{
    assert forall|k: int| 0 <= k < bcs.len() implies rel.contains(
        #[trigger] hash_entry_of(bcs[k].bytes, challenge),
    ) by {
        assert(rel[k] == hash_entry_of(bcs[k].bytes, challenge));
    }
}

} // verus!
