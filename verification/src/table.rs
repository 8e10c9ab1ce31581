//! The assignment and padding engine: lays a batch of unrolled bytecodes
//! back to back into a fixed-capacity table, derives the per-row witness
//! columns (forced-data counter, push size, running fingerprint, length),
//! pads the remaining usable rows with zero-valued header rows, and enforces
//! the capacity in strict mode.

use vstd::prelude::*;
use crate::hashing::rlc_step;
use crate::opcodes::{get_push_size, is_push_table, push_table, spec_push_size};
use crate::rows::{copy_bytes, RowModel, RowTag, UnrolledBytecode, UnrolledModel};

verus! {

/// Mathematical model of one table row with all derived columns.
#[verifier::ext_equal]
pub struct TableRowModel {
    pub code_hash: Seq<u8>,
    pub tag: RowTag,
    pub index: u64,
    pub is_code: bool,
    pub value: u64,
    pub push_data_left: u64,
    pub value_rlc: u128,
    pub length: u64,
    pub push_data_size: u64,
}

/// One assigned table row: the unrolled row's columns plus the derived
/// witness columns.
#[derive(Clone, Debug, PartialEq, Eq)]
pub struct TableRow {
    pub code_hash: Vec<u8>,
    pub tag: RowTag,
    pub index: u64,
    pub is_code: bool,
    pub value: u64,
    pub push_data_left: u64,
    pub value_rlc: u128,
    pub length: u64,
    pub push_data_size: u64,
}

impl View for TableRow {
    type V = TableRowModel;

    open spec fn view(&self) -> TableRowModel {
        TableRowModel {
            code_hash: self.code_hash@,
            tag: self.tag,
            index: self.index,
            is_code: self.is_code,
            value: self.value,
            push_data_left: self.push_data_left,
            value_rlc: self.value_rlc,
            length: self.length,
            push_data_size: self.push_data_size,
        }
    }
}

impl DeepView for TableRow {
    type V = TableRowModel;

    open spec fn deep_view(&self) -> TableRowModel {
        self@
    }
}

/// A fixed-capacity table: the usable rows, the total capacity, and the
/// count of reserved trailing rows the backend keeps unusable. Rebuilt fully
/// per proving attempt, never mutated in place.
#[derive(Clone, Debug, PartialEq, Eq)]
pub struct BytecodeTable {
    pub rows: Vec<TableRow>,
    pub size: usize,
    pub reserved_rows: usize,
}

/// A table is well formed when its usable rows fill the capacity left over
/// by the reserved rows.
pub open spec fn table_well_formed(t: BytecodeTable) -> bool {
    &&& t.reserved_rows < t.size
    &&& t.rows@.len() + t.reserved_rows == t.size
}

/// The circuit configuration the assignment engine works against: the count
/// of trailing rows the backend keeps unusable, and the push-size lookup
/// relation.
#[derive(Clone, Debug, PartialEq, Eq)]
pub struct BytecodeCircuitConfig {
    pub minimum_rows: usize,
    pub push_table: Vec<(u64, u64)>,
}

/// A configuration carries the canonical push-size relation.
pub open spec fn config_well_formed(c: BytecodeCircuitConfig) -> bool {
    is_push_table(c.push_table@)
}

/// Strict-mode assignment failure: placement would exceed the usable
/// capacity. `offset` is the table offset at which the next row would have
/// been placed and `limit` is the greatest usable offset.
#[derive(Clone, Copy, Debug, PartialEq, Eq, Structural)]
pub struct CapacityExceeded {
    pub offset: usize,
    pub limit: usize,
}

/// The smaller of two integers.
pub open spec fn min_int(a: int, b: int) -> int {
    if a <= b {
        a
    } else {
        b
    }
}

/// A sequence clipped to at most `n` elements.
pub open spec fn clip(s: Seq<TableRowModel>, n: int) -> Seq<TableRowModel> {
    if s.len() <= n {
        s
    } else {
        s.take(n)
    }
}

/// The forced-data counter stored at row `idx` of one bytecode's row block:
/// 0 on the header row and on the first byte row, then reloaded from the
/// previous row's push size whenever that row was code, decremented
/// otherwise. It is derived from the rows' claimed values alone, so that an
/// ill-formed row block is assigned faithfully and left for the constraint
/// set to reject.
pub open spec fn derived_pdl(rows: Seq<RowModel>, idx: int) -> u64
    decreases idx,
{
    if idx <= 1 {
        0
    } else {
        let prev = derived_pdl(rows, idx - 1);
        if prev == 0 {
            spec_push_size((rows[idx - 1].value % 256) as u8)
        } else {
            (prev - 1) as u64
        }
    }
}

/// The running fingerprint stored at row `idx` of one bytecode's row block:
/// 0 on the header row, then folded over the byte rows' claimed values.
pub open spec fn derived_rlc(rows: Seq<RowModel>, challenge: u128, idx: int) -> u128
    decreases idx,
{
    if idx <= 0 {
        0
    } else {
        rlc_step(derived_rlc(rows, challenge, idx - 1), challenge, rows[idx].value)
    }
}

/// The table row assigned for row `idx` of one unrolled bytecode: the
/// claimed columns are copied, the witness columns are derived.
pub open spec fn assigned_row(ub: UnrolledModel, challenge: u128, idx: int) -> TableRowModel {
    let r = ub.rows[idx];
    TableRowModel {
        code_hash: r.code_hash,
        tag: r.tag,
        index: r.index,
        is_code: r.is_code,
        value: r.value,
        push_data_left: derived_pdl(ub.rows, idx),
        value_rlc: derived_rlc(ub.rows, challenge, idx),
        length: ub.bytes.len() as u64,
        push_data_size: if idx == 0 {
            0
        } else {
            spec_push_size((r.value % 256) as u8)
        },
    }
}

/// The block of table rows assigned for one unrolled bytecode.
pub open spec fn assigned_rows(ub: UnrolledModel, challenge: u128) -> Seq<TableRowModel> {
    Seq::new(ub.rows.len(), |idx: int| assigned_row(ub, challenge, idx))
}

/// A zero-valued padding header row.
pub open spec fn padding_row_model() -> TableRowModel {
    TableRowModel {
        code_hash: Seq::empty(),
        tag: RowTag::Header,
        index: 0,
        is_code: false,
        value: 0,
        push_data_left: 0,
        value_rlc: 0,
        length: 0,
        push_data_size: 0,
    }
}

/// `n` padding header rows.
pub open spec fn pad_rows(n: int) -> Seq<TableRowModel> {
    Seq::new(n as nat, |i: int| padding_row_model())
}

/// The row blocks of a batch of bytecodes, concatenated in order.
pub open spec fn concat_rows(bcs: Seq<UnrolledModel>, challenge: u128) -> Seq<TableRowModel>
    decreases bcs.len(),
{
    if bcs.len() == 0 {
        Seq::empty()
    } else {
        assigned_rows(bcs[0], challenge) + concat_rows(bcs.drop_first(), challenge)
    }
}

/// The total row count of a batch of bytecodes.
pub open spec fn spec_total_rows(bcs: Seq<UnrolledModel>) -> int
    decreases bcs.len(),
{
    if bcs.len() == 0 {
        0
    } else {
        bcs[0].rows.len() + spec_total_rows(bcs.drop_first())
    }
}

/// The usable rows of the table assigned from a batch: the concatenated row
/// blocks, truncated at the usable capacity, then padded up to it with
/// zero-valued header rows.
pub open spec fn spec_table_rows(bcs: Seq<UnrolledModel>, usable: int, challenge: u128) -> Seq<
    TableRowModel,
> {
    let core = clip(concat_rows(bcs, challenge), usable);
    core + pad_rows(usable - core.len())
}

proof fn lemma_clip_step(base: Seq<TableRowModel>, a: Seq<TableRowModel>, idx: int, u: int)
    requires
        0 <= idx < a.len(),
        u >= 0,
    ensures
        base.len() + idx < u ==> clip(base + a.take(idx + 1), u) == clip(base + a.take(idx), u)
            .push(a[idx]),
        base.len() + idx >= u ==> clip(base + a.take(idx + 1), u) == clip(base + a.take(idx), u),
{
    assert(base + a.take(idx + 1) =~= (base + a.take(idx)).push(a[idx]));
    if base.len() + idx < u {
        assert(clip(base + a.take(idx + 1), u) =~= clip(base + a.take(idx), u).push(a[idx]));
    } else {
        assert(clip(base + a.take(idx + 1), u) =~= clip(base + a.take(idx), u));
    }
}

proof fn lemma_clip_absorb(a: Seq<TableRowModel>, b: Seq<TableRowModel>, u: int)
    requires
        u >= 0,
    ensures
        clip(clip(a, u) + b, u) == clip(a + b, u),
{
    if a.len() <= u {
    } else {
        assert(clip(clip(a, u) + b, u) =~= clip(a + b, u));
    }
}

/// Splitting one more bytecode off the front of a prefix.
pub(crate) proof fn lemma_concat_take_step(bcs: Seq<UnrolledModel>, challenge: u128, k: int)
    requires
        0 <= k < bcs.len(),
    ensures
        concat_rows(bcs.take(k + 1), challenge) == concat_rows(bcs.take(k), challenge)
            + assigned_rows(bcs[k], challenge),
        spec_total_rows(bcs.take(k + 1)) == spec_total_rows(bcs.take(k)) + bcs[k].rows.len(),
    decreases k,
{
    if k == 0 {
        assert(bcs.take(1).drop_first() =~= bcs.take(0));
        assert(concat_rows(bcs.take(0), challenge) =~= Seq::<TableRowModel>::empty());
        assert(concat_rows(bcs.take(1), challenge) == assigned_rows(bcs.take(1)[0], challenge)
            + concat_rows(bcs.take(1).drop_first(), challenge));
        assert(concat_rows(bcs.take(1), challenge) =~= concat_rows(bcs.take(0), challenge)
            + assigned_rows(bcs[0], challenge));
    } else {
        lemma_concat_take_step(bcs.drop_first(), challenge, k - 1);
        assert(bcs.take(k + 1).drop_first() =~= bcs.drop_first().take(k));
        assert(bcs.take(k).drop_first() =~= bcs.drop_first().take(k - 1));
        assert(bcs.drop_first()[k - 1] == bcs[k]);
        assert(concat_rows(bcs.take(k + 1), challenge) =~= concat_rows(bcs.take(k), challenge)
            + assigned_rows(bcs[k], challenge));
    }
}

/// Row totals are nonnegative.
pub(crate) proof fn lemma_total_nonneg(bcs: Seq<UnrolledModel>)
    ensures
        spec_total_rows(bcs) >= 0,
    decreases bcs.len(),
{
    if bcs.len() > 0 {
        lemma_total_nonneg(bcs.drop_first());
    }
}

/// A prefix of a batch never needs more rows than the whole batch.
pub(crate) proof fn lemma_total_take_bound(bcs: Seq<UnrolledModel>, k: int)
    requires
        0 <= k <= bcs.len(),
    ensures
        spec_total_rows(bcs.take(k)) <= spec_total_rows(bcs),
    decreases bcs.len() - k,
{
    if k == bcs.len() {
        assert(bcs.take(k) =~= bcs);
    } else {
        lemma_concat_take_step(bcs, 0, k);
        lemma_total_take_bound(bcs, k + 1);
    }
}

/// Writes one zero-valued padding header row.
fn set_padding_row(rows: &mut Vec<TableRow>)
    ensures
        final(rows)@.len() == old(rows)@.len() + 1,
        final(rows).deep_view() == old(rows).deep_view().push(padding_row_model()),
{
    rows.push(
        TableRow {
            code_hash: Vec::new(),
            tag: RowTag::Header,
            index: 0,
            is_code: false,
            value: 0,
            push_data_left: 0,
            value_rlc: 0,
            length: 0,
            push_data_size: 0,
        },
    );
    proof {
        assert(rows.deep_view() =~= old(rows).deep_view().push(padding_row_model()));
    }
}

/// Lays the row block of one bytecode at the tail of the table, deriving the
/// witness columns from the rows' claimed values. In strict mode (fail
/// fast), placement beyond the usable capacity aborts; otherwise it
/// truncates silently.
fn assign_bytecode(
    rows: &mut Vec<TableRow>,
    bytecode: &UnrolledBytecode,
    challenge: u128,
    usable: usize,
    fail_fast: bool,
) -> (r: Result<(), CapacityExceeded>)
    requires
        old(rows)@.len() <= usable,
        usable >= 1,
    ensures
        final(rows)@.len() <= usable,
        final(rows).deep_view() == clip(
            old(rows).deep_view() + assigned_rows(bytecode@, challenge),
            usable as int,
        ),
        final(rows)@.len() == min_int(
            old(rows)@.len() + bytecode.rows@.len() as int,
            usable as int,
        ),
        r is Err <==> (fail_fast && old(rows)@.len() + bytecode.rows@.len() > usable),
        r matches Err(e) ==> e.offset == usable && e.limit == (usable - 1) as usize,
{
    let ghost ub = bytecode@;
    let ghost base = old(rows).deep_view();
    let length: u64 = bytecode.bytes.len() as u64;
    let mut pdl: u64 = 0;
    let mut rlc: u128 = 0;
    let mut idx: usize = 0;
    proof {
        assert(base + assigned_rows(ub, challenge).take(0) =~= base);
    }
    while idx < bytecode.rows.len()
        invariant
            idx <= ub.rows.len(),
            ub == bytecode@,
            usable >= 1,
            base == old(rows).deep_view(),
            base.len() <= usable,
            rows@.len() <= usable,
            rows@.len() == min_int(base.len() + idx as int, usable as int),
            rows.deep_view() == clip(
                base + assigned_rows(ub, challenge).take(idx as int),
                usable as int,
            ),
            fail_fast ==> rows@.len() == base.len() + idx,
            pdl == derived_pdl(ub.rows, idx as int),
            rlc == derived_rlc(ub.rows, challenge, idx as int - 1),
            length == ub.bytes.len() as u64,
        decreases ub.rows.len() - idx,
    {
        if fail_fast && rows.len() >= usable {
            proof {
                assert(rows@.len() == usable);
                assert(base + assigned_rows(ub, challenge).take(idx as int) =~= clip(
                    base + assigned_rows(ub, challenge).take(idx as int),
                    usable as int,
                ));
                assert(base + assigned_rows(ub, challenge).take(idx as int) =~= (base
                    + assigned_rows(ub, challenge)).take((base.len() + idx) as int));
                assert(clip(base + assigned_rows(ub, challenge), usable as int) =~= (base
                    + assigned_rows(ub, challenge)).take(usable as int));
                assert(rows.deep_view() =~= clip(
                    base + assigned_rows(ub, challenge),
                    usable as int,
                ));
            }
            return Err(CapacityExceeded { offset: usable, limit: usable - 1 });
        }
        let row = &bytecode.rows[idx];
        let pds: u64 = if idx == 0 {
            0
        } else {
            get_push_size((row.value % 256) as u8)
        };
        if idx > 0 {
            rlc = rlc.wrapping_mul(challenge).wrapping_add(row.value as u128);
        }
        let ghost rows_before = rows.deep_view();
        if rows.len() < usable {
            rows.push(
                TableRow {
                    code_hash: copy_bytes(&row.code_hash),
                    tag: row.tag,
                    index: row.index,
                    is_code: row.is_code,
                    value: row.value,
                    push_data_left: pdl,
                    value_rlc: rlc,
                    length,
                    push_data_size: pds,
                },
            );
            proof {
                assert(rows@[rows@.len() - 1]@ =~= assigned_row(ub, challenge, idx as int));
                assert(rows.deep_view() =~= rows_before.push(assigned_row(ub, challenge, idx as int)));
            }
        }
        proof {
            lemma_clip_step(base, assigned_rows(ub, challenge), idx as int, usable as int);
            assert(assigned_rows(ub, challenge)[idx as int] == assigned_row(
                ub,
                challenge,
                idx as int,
            ));
        }
        if idx > 0 {
            pdl = if pdl == 0 {
                pds
            } else {
                pdl - 1
            };
        }
        idx = idx + 1;
    }
    proof {
        assert(assigned_rows(ub, challenge).take(idx as int) =~= assigned_rows(ub, challenge));
    }
    Ok(())
}

impl BytecodeCircuitConfig {
    /// Builds the configuration: the count of reserved trailing rows the
    /// backend demands, and the push-size lookup relation loaded as its
    /// auxiliary table.
    pub fn new(minimum_rows: usize) -> (c: Self)
        ensures
            c.minimum_rows == minimum_rows,
            config_well_formed(c),
    {
        BytecodeCircuitConfig { minimum_rows, push_table: push_table() }
    }

    /// Lays a batch of unrolled bytecodes into a table of capacity `size`
    /// with the configured trailing rows unusable, padding the remaining
    /// usable rows with zero-valued header rows. In strict mode (fail fast)
    /// it aborts with `CapacityExceeded` as soon as placement would exceed
    /// the usable capacity; in lenient mode it truncates silently.
    pub fn assign_internal(
        &self,
        bytecodes: &Vec<UnrolledBytecode>,
        size: usize,
        challenge: u128,
        fail_fast: bool,
    ) -> (r: Result<BytecodeTable, CapacityExceeded>)
        requires
            self.minimum_rows < size,
        ensures
            (r is Err <==> (fail_fast && spec_total_rows(bytecodes.deep_view()) > size
                - self.minimum_rows)),
            r matches Ok(t) ==> t.rows.deep_view() == spec_table_rows(
                bytecodes.deep_view(),
                (size - self.minimum_rows) as int,
                challenge,
            ) && t.size == size && t.reserved_rows == self.minimum_rows && table_well_formed(t),
            r matches Err(e) ==> e.offset == (size - self.minimum_rows) as usize && e.limit
                == (size - self.minimum_rows - 1) as usize,
    {
        let reserved_rows: usize = self.minimum_rows;
        let usable: usize = size - reserved_rows;
        let ghost bcs = bytecodes.deep_view();
        let mut rows: Vec<TableRow> = Vec::new();
        let mut bi: usize = 0;
        proof {
            assert(bcs.take(0) =~= Seq::<UnrolledModel>::empty());
            assert(rows.deep_view() =~= clip(concat_rows(bcs.take(0), challenge), usable as int));
        }
        while bi < bytecodes.len()
            invariant
                bi <= bcs.len(),
                bcs == bytecodes.deep_view(),
                reserved_rows == self.minimum_rows,
                reserved_rows < size,
                usable == size - reserved_rows,
                usable >= 1,
                rows@.len() <= usable,
                rows.deep_view() == clip(concat_rows(bcs.take(bi as int), challenge), usable as int),
                rows@.len() == min_int(spec_total_rows(bcs.take(bi as int)), usable as int),
                fail_fast ==> spec_total_rows(bcs.take(bi as int)) <= usable,
            decreases bcs.len() - bi,
        {
            proof {
                lemma_total_nonneg(bcs.take(bi as int));
            }
            match assign_bytecode(&mut rows, &bytecodes[bi], challenge, usable, fail_fast) {
                Ok(()) => {},
                Err(e) => {
                    proof {
                        lemma_concat_take_step(bcs, challenge, bi as int);
                        lemma_total_take_bound(bcs, bi as int + 1);
                    }
                    return Err(e);
                },
            }
            proof {
                lemma_concat_take_step(bcs, challenge, bi as int);
                lemma_clip_absorb(
                    concat_rows(bcs.take(bi as int), challenge),
                    assigned_rows(bcs[bi as int], challenge),
                    usable as int,
                );
                if rows@.len() < usable {
                    assert(clip(concat_rows(bcs.take(bi as int), challenge), usable as int)
                        == concat_rows(bcs.take(bi as int), challenge));
                }
            }
            bi = bi + 1;
        }
        proof {
            assert(bcs.take(bi as int) =~= bcs);
        }
        let ghost core = clip(concat_rows(bcs, challenge), usable as int);
        proof {
            assert(rows.deep_view() + pad_rows(rows@.len() - core.len()) =~= rows.deep_view());
        }
        while rows.len() < usable
            invariant
                usable <= size,
                core == clip(concat_rows(bcs, challenge), usable as int),
                core.len() <= rows@.len() <= usable,
                rows.deep_view() == core + pad_rows(rows@.len() - core.len()),
            decreases usable - rows@.len(),
        {
            set_padding_row(&mut rows);
            proof {
                assert(rows.deep_view() =~= core + pad_rows(rows@.len() - core.len()));
            }
        }
        let t = BytecodeTable { rows, size, reserved_rows };
        proof {
            assert(t.rows.deep_view() =~= spec_table_rows(bcs, usable as int, challenge));
        }
        Ok(t)
    }

    /// Strict-mode assignment: succeeds exactly when the batch's total row
    /// count plus the reserved rows fits the capacity; otherwise it reports
    /// `CapacityExceeded` and the table is not built.
    pub fn assign(
        &self,
        bytecodes: &Vec<UnrolledBytecode>,
        size: usize,
        challenge: u128,
    ) -> (r: Result<BytecodeTable, CapacityExceeded>)
        requires
            self.minimum_rows < size,
        ensures
            (r is Ok <==> spec_total_rows(bytecodes.deep_view()) + self.minimum_rows <= size),
            r matches Ok(t) ==> t.rows.deep_view() == spec_table_rows(
                bytecodes.deep_view(),
                (size - self.minimum_rows) as int,
                challenge,
            ) && t.size == size && t.reserved_rows == self.minimum_rows && table_well_formed(t),
            r matches Err(e) ==> e.offset == (size - self.minimum_rows) as usize && e.limit
                == (size - self.minimum_rows - 1) as usize,
    {
        self.assign_internal(bytecodes, size, challenge, true)
    }
}

/// Capacity boundary: when a batch's total row count plus the reserved rows
/// exceeds the capacity, raising the capacity by exactly the deficit
/// satisfies strict assignment's success condition, and no smaller raise
/// does.
pub proof fn lemma_capacity_deficit(bcs: Seq<UnrolledModel>, size: int, reserved_rows: int)
    requires
        spec_total_rows(bcs) + reserved_rows > size,
    ensures
        ({
            let deficit = spec_total_rows(bcs) + reserved_rows - size;
            &&& spec_total_rows(bcs) + reserved_rows <= size + deficit
            &&& forall|d: int|
                0 <= d < deficit ==> spec_total_rows(bcs) + reserved_rows > #[trigger] (size + d)
        }),
{
}

} // verus!
