//! The bytecode circuit witness: a batch of unrolled bytecodes together with
//! the table capacity, and the row budget a block of bytecodes needs.

use vstd::prelude::*;
use crate::rows::{copy_bytes, UnrolledBytecode, UnrolledModel};
use crate::table::{
    spec_table_rows, table_well_formed, BytecodeCircuitConfig, BytecodeTable,
};
use crate::unroller::{is_unrolling_of, unroll};

verus! {

/// The witness of one proving attempt: the unrolled bytecodes to commit to
/// and the table capacity.
#[derive(Clone, Debug, PartialEq, Eq)]
pub struct BytecodeCircuit {
    /// Unrolled bytecodes
    pub bytecodes: Vec<UnrolledBytecode>,
    /// Circuit size
    pub size: usize,
}

/// The minimum number of table rows a batch of bytecodes needs: one header
/// row plus one byte row per byte, for each bytecode.
pub open spec fn spec_min_rows(bcs: Seq<UnrolledModel>) -> int
    decreases bcs.len(),
{
    if bcs.len() == 0 {
        0
    } else {
        bcs[0].bytes.len() + 1 + spec_min_rows(bcs.drop_first())
    }
}

pub(crate) proof fn lemma_min_rows_take_step(bcs: Seq<UnrolledModel>, k: int)
    requires
        0 <= k < bcs.len(),
    ensures
        spec_min_rows(bcs.take(k + 1)) == spec_min_rows(bcs.take(k)) + bcs[k].bytes.len() + 1,
    decreases k,
{
    if k == 0 {
        assert(bcs.take(1).drop_first() =~= bcs.take(0));
    } else {
        lemma_min_rows_take_step(bcs.drop_first(), k - 1);
        assert(bcs.take(k + 1).drop_first() =~= bcs.drop_first().take(k));
        assert(bcs.take(k).drop_first() =~= bcs.drop_first().take(k - 1));
        assert(bcs.drop_first()[k - 1] == bcs[k]);
    }
}

pub(crate) proof fn lemma_min_rows_nonneg(bcs: Seq<UnrolledModel>)
    ensures
        spec_min_rows(bcs) >= 0,
    decreases bcs.len(),
{
    if bcs.len() > 0 {
        lemma_min_rows_nonneg(bcs.drop_first());
    }
}

pub(crate) proof fn lemma_min_rows_take_bound(bcs: Seq<UnrolledModel>, k: int)
    requires
        0 <= k <= bcs.len(),
    ensures
        spec_min_rows(bcs.take(k)) <= spec_min_rows(bcs),
    decreases bcs.len() - k,
{
    if k == bcs.len() {
        assert(bcs.take(k) =~= bcs);
    } else {
        lemma_min_rows_take_step(bcs, k);
        lemma_min_rows_take_bound(bcs, k + 1);
    }
}

/// The minimum number of rows required to prove a block whose bytecodes were
/// unrolled into the given batch.
pub fn min_num_rows_block(bytecodes: &Vec<UnrolledBytecode>) -> (n: usize)
    requires
        spec_min_rows(bytecodes.deep_view()) <= usize::MAX,
    ensures
        n == spec_min_rows(bytecodes.deep_view()),
{
    let ghost bcs = bytecodes.deep_view();
    let mut n: usize = 0;
    let mut k: usize = 0;
    proof {
        assert(bcs.take(0) =~= Seq::<UnrolledModel>::empty());
    }
    while k < bytecodes.len()
        invariant
            k <= bcs.len(),
            bcs == bytecodes.deep_view(),
            spec_min_rows(bcs) <= usize::MAX,
            n == spec_min_rows(bcs.take(k as int)),
        decreases bcs.len() - k,
    {
        proof {
            lemma_min_rows_take_step(bcs, k as int);
            lemma_min_rows_take_bound(bcs, k as int + 1);
            assert(bcs[k as int].bytes == bytecodes@[k as int].bytes@);
        }
        n = n + bytecodes[k].bytes.len() + 1;
        k = k + 1;
    }
    proof {
        assert(bcs.take(k as int) =~= bcs);
    }
    n
}

impl BytecodeCircuit {
    /// Packs a batch of unrolled bytecodes with a table capacity.
    pub fn new(bytecodes: Vec<UnrolledBytecode>, size: usize) -> (r: Self)
        ensures
            r.bytecodes.deep_view() == bytecodes.deep_view(),
            r.size == size,
    {
        BytecodeCircuit { bytecodes, size }
    }

    /// Builds the witness from a block's raw bytecode blobs and a table
    /// capacity: each blob is unrolled.
    pub fn new_from_block_sized(block_bytecodes: &Vec<Vec<u8>>, bytecode_size: usize) -> (r: Self)
        ensures
            r.size == bytecode_size,
            r.bytecodes.deep_view().len() == block_bytecodes@.len(),
            forall|k: int|
                0 <= k < block_bytecodes@.len() ==> is_unrolling_of(
                    #[trigger] block_bytecodes@[k]@,
                    r.bytecodes.deep_view()[k],
                ),
    {
        let mut bytecodes: Vec<UnrolledBytecode> = Vec::new();
        let mut k: usize = 0;
        while k < block_bytecodes.len()
            invariant
                k <= block_bytecodes@.len(),
                bytecodes@.len() == k,
                forall|j: int|
                    0 <= j < k ==> is_unrolling_of(
                        #[trigger] block_bytecodes@[j]@,
                        bytecodes@[j]@,
                    ),
            decreases block_bytecodes@.len() - k,
        {
            let bytes = copy_bytes(&block_bytecodes[k]);
            bytecodes.push(unroll(bytes));
            k = k + 1;
        }
        let r = BytecodeCircuit { bytecodes, size: bytecode_size };
        proof {
            assert forall|k2: int| 0 <= k2 < block_bytecodes@.len() implies is_unrolling_of(
                #[trigger] block_bytecodes@[k2]@,
                r.bytecodes.deep_view()[k2],
            ) by {
                assert(r.bytecodes.deep_view()[k2] == r.bytecodes@[k2]@);
            }
        }
        r
    }

    /// Lays the witness into its table as the backend drives it: lenient
    /// assignment, which truncates at the capacity instead of failing, so
    /// that intentionally invalid witnesses still produce a table for the
    /// constraint set to reject.
    pub fn synthesize_sub(&self, config: &BytecodeCircuitConfig, challenge: u128) -> (t:
        BytecodeTable)
        requires
            config.minimum_rows < self.size,
        ensures
            t.rows.deep_view() == spec_table_rows(
                self.bytecodes.deep_view(),
                self.size - config.minimum_rows,
                challenge,
            ),
            t.size == self.size,
            t.reserved_rows == config.minimum_rows,
            table_well_formed(t),
    {
        let r = config.assign_internal(&self.bytecodes, self.size, challenge, false);
        match r {
            Ok(t) => t,
            Err(_) => {
                proof {
                    assert(false);
                }
                vstd::pervasive::unreached()
            },
        }
    }
}

} // verus!
