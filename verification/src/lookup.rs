//! The point-lookup interface exposed to the execution-trace consumer: given
//! a digest commitment and a byte offset, the code tag and byte value at
//! that offset; given a digest commitment alone, the bytecode's total length
//! via its header row.

use vstd::prelude::*;
use crate::rows::{bytes_eq, RowTag};
use crate::table::{BytecodeTable, TableRowModel};

verus! {

/// The (is_code, value) pair of the first byte row carrying the given
/// digest commitment and byte offset.
pub open spec fn spec_lookup_byte(rows: Seq<TableRowModel>, code_hash: Seq<u8>, index: u64) -> Option<
    (bool, u64),
>
    decreases rows.len(),
{
    if rows.len() == 0 {
        None
    } else if rows[0].tag == RowTag::Byte && rows[0].code_hash == code_hash && rows[0].index
        == index {
        Some((rows[0].is_code, rows[0].value))
    } else {
        spec_lookup_byte(rows.drop_first(), code_hash, index)
    }
}

/// The value of the first header row carrying the given digest commitment:
/// the bytecode's total length.
pub open spec fn spec_lookup_length(rows: Seq<TableRowModel>, code_hash: Seq<u8>) -> Option<u64>
    decreases rows.len(),
{
    if rows.len() == 0 {
        None
    } else if rows[0].tag == RowTag::Header && rows[0].code_hash == code_hash {
        Some(rows[0].value)
    } else {
        spec_lookup_length(rows.drop_first(), code_hash)
    }
}

impl BytecodeTable {
    /// Point lookup: the code tag and byte value at offset `index` of the
    /// bytecode committed to by `code_hash`, taken from the first matching
    /// byte row; None when the table holds no such row.
    pub fn lookup_byte(&self, code_hash: &Vec<u8>, index: u64) -> (r: Option<(bool, u64)>)
        ensures
            r == spec_lookup_byte(self.rows.deep_view(), code_hash@, index),
    {
        let ghost rows_m = self.rows.deep_view();
        let mut i: usize = 0;
        proof {
            assert(rows_m.skip(0) =~= rows_m);
        }
        while i < self.rows.len()
            invariant
                i <= rows_m.len(),
                rows_m == self.rows.deep_view(),
                spec_lookup_byte(rows_m, code_hash@, index) == spec_lookup_byte(
                    rows_m.skip(i as int),
                    code_hash@,
                    index,
                ),
            decreases rows_m.len() - i,
        {
            let row = &self.rows[i];
            proof {
                assert(rows_m.skip(i as int)[0] == rows_m[i as int]);
                assert(rows_m[i as int] == self.rows@[i as int]@);
            }
            if row.tag == RowTag::Byte && row.index == index && bytes_eq(
                &row.code_hash,
                code_hash,
            ) {
                return Some((row.is_code, row.value));
            }
            i = i + 1;
            proof {
                assert(rows_m.skip(i - 1).drop_first() =~= rows_m.skip(i as int));
            }
        }
        proof {
            assert(rows_m.skip(i as int) =~= Seq::<TableRowModel>::empty());
        }
        None
    }

    /// Point lookup: the total length of the bytecode committed to by
    /// `code_hash`, taken from the first matching header row; None when the
    /// table holds no such row.
    pub fn lookup_length(&self, code_hash: &Vec<u8>) -> (r: Option<u64>)
        ensures
            r == spec_lookup_length(self.rows.deep_view(), code_hash@),
    {
        let ghost rows_m = self.rows.deep_view();
        let mut i: usize = 0;
        proof {
            assert(rows_m.skip(0) =~= rows_m);
        }
        while i < self.rows.len()
            invariant
                i <= rows_m.len(),
                rows_m == self.rows.deep_view(),
                spec_lookup_length(rows_m, code_hash@) == spec_lookup_length(
                    rows_m.skip(i as int),
                    code_hash@,
                ),
            decreases rows_m.len() - i,
        {
            let row = &self.rows[i];
            proof {
                assert(rows_m.skip(i as int)[0] == rows_m[i as int]);
                assert(rows_m[i as int] == self.rows@[i as int]@);
            }
            if row.tag == RowTag::Header && bytes_eq(&row.code_hash, code_hash) {
                return Some(row.value);
            }
            i = i + 1;
            proof {
                assert(rows_m.skip(i - 1).drop_first() =~= rows_m.skip(i as int));
            }
        }
        proof {
            assert(rows_m.skip(i as int) =~= Seq::<TableRowModel>::empty());
        }
        None
    }
}

} // verus!
