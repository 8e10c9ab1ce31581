//! Row and unrolled-bytecode data model: an unrolled bytecode is one header
//! row followed by one row per raw byte, all sharing the bytecode's digest
//! commitment.

use vstd::prelude::*;

verus! {

/// Whether a row is a per-bytecode header or carries one byte of the code.
#[derive(Clone, Copy, Debug, PartialEq, Eq, Structural)]
pub enum RowTag {
    Header,
    Byte,
}

/// Mathematical model of one unrolled row.
#[verifier::ext_equal]
pub struct RowModel {
    pub code_hash: Seq<u8>,
    pub tag: RowTag,
    pub index: u64,
    pub is_code: bool,
    pub value: u64,
}

/// One row of an unrolled bytecode: the header row carries the total length
/// as its value; each byte row carries its 0-based offset, its code/data tag
/// and the raw byte value. All rows of one bytecode share its digest.
#[derive(Clone, Debug, PartialEq, Eq)]
pub struct BytecodeRow {
    pub code_hash: Vec<u8>,
    pub tag: RowTag,
    pub index: u64,
    pub is_code: bool,
    pub value: u64,
}

impl View for BytecodeRow {
    type V = RowModel;

    open spec fn view(&self) -> RowModel {
        RowModel {
            code_hash: self.code_hash@,
            tag: self.tag,
            index: self.index,
            is_code: self.is_code,
            value: self.value,
        }
    }
}

impl DeepView for BytecodeRow {
    type V = RowModel;

    open spec fn deep_view(&self) -> RowModel {
        self@
    }
}

/// Mathematical model of an unrolled bytecode.
#[verifier::ext_equal]
pub struct UnrolledModel {
    pub bytes: Seq<u8>,
    pub rows: Seq<RowModel>,
}

/// An unrolled bytecode: the raw bytes together with their row table,
/// immutable once built.
#[derive(Clone, Debug, PartialEq, Eq)]
pub struct UnrolledBytecode {
    pub bytes: Vec<u8>,
    pub rows: Vec<BytecodeRow>,
}

impl View for UnrolledBytecode {
    type V = UnrolledModel;

    open spec fn view(&self) -> UnrolledModel {
        UnrolledModel { bytes: self.bytes@, rows: self.rows.deep_view() }
    }
}

impl DeepView for UnrolledBytecode {
    type V = UnrolledModel;

    open spec fn deep_view(&self) -> UnrolledModel {
        self@
    }
}

/// Compares two byte vectors for equality.
pub fn bytes_eq(a: &Vec<u8>, b: &Vec<u8>) -> (r: bool)
    ensures
        r == (a@ == b@),
{
    if a.len() != b.len() {
        return false;
    }
    let mut i: usize = 0;
    while i < a.len()
        invariant
            i <= a@.len(),
            a@.len() == b@.len(),
            forall|j: int| 0 <= j < i ==> a@[j] == b@[j],
        decreases a@.len() - i,
    {
        if a[i] != b[i] {
            return false;
        }
        i = i + 1;
    }
    proof {
        assert(a@ =~= b@);
    }
    true
}

/// Copies a byte vector element by element.
pub fn copy_bytes(src: &Vec<u8>) -> (r: Vec<u8>)
    ensures
        r@ == src@,
{
    let mut r: Vec<u8> = Vec::new();
    let mut i: usize = 0;
    while i < src.len()
        invariant
            i <= src@.len(),
            r@ == src@.subrange(0, i as int),
        decreases src@.len() - i,
    {
        r.push(src[i]);
        i = i + 1;
        proof {
            assert(r@ =~= src@.subrange(0, i as int));
        }
    }
    proof {
        assert(r@ =~= src@);
    }
    r
}

} // verus!
