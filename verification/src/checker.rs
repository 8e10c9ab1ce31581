//! The transition constraint set: local rules between adjacent rows, the
//! push-size lookup on every byte row, and the hashing lookup at every
//! byte-to-header transition, together with an executable checker that
//! decides whether a table satisfies them all.

use vstd::prelude::*;
use crate::hashing::{rlc_step, HashEntry, HashEntryModel};
use crate::rows::{bytes_eq, RowTag};
use crate::table::{BytecodeTable, TableRow, TableRowModel};

verus! {

/// Rule for a header row that is not the table's last: its index is 0 and
/// its value echoes its length.
pub open spec fn header_rule(c: TableRowModel) -> bool {
    &&& c.index == 0
    &&& c.value == c.length
}

/// Rule for a byte row that is not the table's last: its code tag equals the
/// zero test of the forced-data counter.
pub open spec fn byte_rule(c: TableRowModel) -> bool {
    c.is_code == (c.push_data_left == 0)
}

/// Push-size lookup: the pair (value, push_data_size) of a byte row must
/// belong to the push-size relation.
pub open spec fn push_lookup_ok(c: TableRowModel, push_tab: Seq<(u64, u64)>) -> bool {
    push_tab.contains((c.value, c.push_data_size))
}

/// Hashing lookup: the triple (accumulated fingerprint, length, digest
/// commitment) of a bytecode's last byte row must belong to the hashing
/// relation.
pub open spec fn hash_lookup_ok(c: TableRowModel, hash_rel: Seq<HashEntryModel>) -> bool {
    hash_rel.contains(
        HashEntryModel { value_rlc: c.value_rlc, length: c.length, code_hash: c.code_hash },
    )
}

/// The per-row rules for a row that is not the table's last.
pub open spec fn row_ok(c: TableRowModel, push_tab: Seq<(u64, u64)>) -> bool {
    match c.tag {
        RowTag::Header => header_rule(c),
        RowTag::Byte => byte_rule(c) && push_lookup_ok(c, push_tab),
    }
}

/// The transition rules between a row that is not the table's last and its
/// successor, classified by the pair of tags.
pub open spec fn pair_ok(
    c: TableRowModel,
    n: TableRowModel,
    challenge: u128,
    hash_rel: Seq<HashEntryModel>,
) -> bool {
    match (c.tag, n.tag) {
        (RowTag::Header, RowTag::Header) => c.length == 0,
        (RowTag::Header, RowTag::Byte) => {
            &&& n.length == c.length
            &&& n.index == 0
            &&& n.is_code
            &&& n.code_hash == c.code_hash
            &&& n.value_rlc == n.value as u128
        },
        (RowTag::Byte, RowTag::Byte) => {
            &&& n.length == c.length
            &&& n.index == c.index + 1
            &&& n.code_hash == c.code_hash
            &&& n.value_rlc == rlc_step(c.value_rlc, challenge, n.value)
            &&& if c.is_code {
                n.push_data_left == c.push_data_size
            } else {
                n.push_data_left == c.push_data_left - 1
            }
        },
        (RowTag::Byte, RowTag::Header) => {
            &&& c.index + 1 == c.length
            &&& hash_lookup_ok(c, hash_rel)
        },
    }
}

/// A table's usable rows satisfy the whole constraint set: the physical
/// first and last rows are header rows, and every row except the last obeys
/// its per-row rules and its transition rules with its successor.
pub open spec fn table_accepted(
    rows: Seq<TableRowModel>,
    challenge: u128,
    push_tab: Seq<(u64, u64)>,
    hash_rel: Seq<HashEntryModel>,
) -> bool {
    &&& rows.len() >= 1
    &&& rows[0].tag == RowTag::Header
    &&& rows[rows.len() - 1].tag == RowTag::Header
    &&& forall|i: int| 0 <= i < rows.len() - 1 ==> #[trigger] row_ok(rows[i], push_tab)
    &&& forall|i: int|
        0 <= i < rows.len() - 1 ==> #[trigger] pair_ok(rows[i], rows[i + 1], challenge, hash_rel)
}

/// Decides membership of a (value, push size) pair in the push-size
/// relation.
fn push_contains(push_tab: &Vec<(u64, u64)>, value: u64, push_data_size: u64) -> (r: bool)
    ensures
        r == push_tab@.contains((value, push_data_size)),
{
    let mut i: usize = 0;
    while i < push_tab.len()
        invariant
            i <= push_tab@.len(),
            forall|j: int| 0 <= j < i ==> push_tab@[j] != (value, push_data_size),
        decreases push_tab@.len() - i,
    {
        let entry = push_tab[i];
        if entry.0 == value && entry.1 == push_data_size {
            proof {
                assert(push_tab@[i as int] == (value, push_data_size));
            }
            return true;
        }
        i = i + 1;
    }
    false
}

/// Decides membership of a (fingerprint, length, digest) triple in the
/// hashing relation.
fn hash_contains(hash_rel: &Vec<HashEntry>, value_rlc: u128, length: u64, code_hash: &Vec<u8>) -> (r:
    bool)
    ensures
        r == hash_rel.deep_view().contains(
            HashEntryModel { value_rlc, length, code_hash: code_hash@ },
        ),
{
    let ghost target = HashEntryModel { value_rlc, length, code_hash: code_hash@ };
    let mut i: usize = 0;
    while i < hash_rel.len()
        invariant
            i <= hash_rel@.len(),
            target == (HashEntryModel { value_rlc, length, code_hash: code_hash@ }),
            forall|j: int| 0 <= j < i ==> #[trigger] hash_rel@[j]@ != target,
        decreases hash_rel@.len() - i,
    {
        let entry = &hash_rel[i];
        if entry.value_rlc == value_rlc && entry.length == length && bytes_eq(
            &entry.code_hash,
            code_hash,
        ) {
            proof {
                assert(hash_rel@[i as int]@ =~= target);
                assert(hash_rel.deep_view()[i as int] == hash_rel@[i as int]@);
                assert(hash_rel.deep_view().contains(target));
            }
            return true;
        }
        i = i + 1;
    }
    proof {
        assert forall|j: int| 0 <= j < hash_rel.deep_view().len() implies hash_rel.deep_view()[j]
            != target by {
            assert(hash_rel.deep_view()[j] == hash_rel@[j]@);
        }
    }
    false
}

/// Evaluates the per-row rules on one row.
fn check_row(c: &TableRow, push_tab: &Vec<(u64, u64)>) -> (r: bool)
    ensures
        r == row_ok(c@, push_tab@),
{
    match c.tag {
        RowTag::Header => c.index == 0 && c.value == c.length,
        RowTag::Byte => {
            let zero_test = c.push_data_left == 0;
            c.is_code == zero_test && push_contains(push_tab, c.value, c.push_data_size)
        },
    }
}

/// Evaluates the transition rules on one adjacent row pair.
fn check_pair(
    c: &TableRow,
    n: &TableRow,
    challenge: u128,
    hash_rel: &Vec<HashEntry>,
) -> (r: bool)
    ensures
        r == pair_ok(c@, n@, challenge, hash_rel.deep_view()),
{
    match (c.tag, n.tag) {
        (RowTag::Header, RowTag::Header) => c.length == 0,
        (RowTag::Header, RowTag::Byte) => n.length == c.length && n.index == 0 && n.is_code
            && bytes_eq(&n.code_hash, &c.code_hash) && n.value_rlc == n.value as u128,
        (RowTag::Byte, RowTag::Byte) => n.length == c.length && c.index < u64::MAX && n.index
            == c.index + 1 && bytes_eq(&n.code_hash, &c.code_hash) && n.value_rlc
            == c.value_rlc.wrapping_mul(challenge).wrapping_add(n.value as u128) && (
        if c.is_code {
            n.push_data_left == c.push_data_size
        } else {
            c.push_data_left > 0 && n.push_data_left == c.push_data_left - 1
        }),
        (RowTag::Byte, RowTag::Header) => c.index < u64::MAX && c.index + 1 == c.length
            && hash_contains(hash_rel, c.value_rlc, c.length, &c.code_hash),
    }
}

/// Runs the whole constraint set over a table: true iff every rule of every
/// enabled row and adjacent row pair holds, with the physical first and last
/// rows constrained to be header rows.
pub fn check_table(
    table: &BytecodeTable,
    challenge: u128,
    push_tab: &Vec<(u64, u64)>,
    hash_rel: &Vec<HashEntry>,
) -> (r: bool)
    ensures
        r == table_accepted(table.rows.deep_view(), challenge, push_tab@, hash_rel.deep_view()),
{
    let ghost rows_m = table.rows.deep_view();
    proof {
        assert forall|j: int| 0 <= j < rows_m.len() implies rows_m[j] == table.rows@[j]@ by {}
    }
    let n = table.rows.len();
    if n == 0 {
        return false;
    }
    if !(table.rows[0].tag == RowTag::Header) {
        return false;
    }
    if !(table.rows[n - 1].tag == RowTag::Header) {
        return false;
    }
    let mut i: usize = 0;
    while i < n - 1
        invariant
            rows_m == table.rows.deep_view(),
            forall|j: int| 0 <= j < rows_m.len() ==> rows_m[j] == table.rows@[j]@,
            n == rows_m.len(),
            1 <= n,
            i <= n - 1,
            rows_m[0].tag == RowTag::Header,
            rows_m[n - 1].tag == RowTag::Header,
            forall|j: int| 0 <= j < i ==> #[trigger] row_ok(rows_m[j], push_tab@),
            forall|j: int|
                0 <= j < i ==> #[trigger] pair_ok(rows_m[j], rows_m[j + 1], challenge,
                hash_rel.deep_view()),
        decreases n - 1 - i,
    {
        if !check_row(&table.rows[i], push_tab) {
            proof {
                assert(!row_ok(rows_m[i as int], push_tab@));
            }
            return false;
        }
        if !check_pair(&table.rows[i], &table.rows[i + 1], challenge, hash_rel) {
            proof {
                assert(!pair_ok(rows_m[i as int], rows_m[i as int + 1], challenge,
                hash_rel.deep_view()));
            }
            return false;
        }
        i = i + 1;
    }
    true
}

} // verus!
