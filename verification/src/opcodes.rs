//! Classification of byte values into push opcodes and their forced
//! push-data lengths, and the push-size lookup relation built from it.

use vstd::prelude::*;

verus! {

/// First opcode of the contiguous push range.
pub const PUSH1: u8 = 0x60;

/// Last opcode of the contiguous push range.
pub const PUSH32: u8 = 0x7f;

/// Forced push-data length introduced by a byte: 0 for anything that is not
/// a push opcode, and 1..=32 for the 32 push opcodes respectively.
pub open spec fn spec_push_size(b: u8) -> u64 {
    if PUSH1 <= b && b <= PUSH32 {
        (b - PUSH1 + 1) as u64
    } else {
        0
    }
}

/// A byte is a push opcode iff it lies in the contiguous push range.
pub fn is_push(byte: u8) -> (r: bool)
    ensures
        r == (PUSH1 <= byte && byte <= PUSH32),
{
    PUSH1 <= byte && byte <= PUSH32
}

/// Forced push-data length of a byte value.
pub fn get_push_size(byte: u8) -> (r: u64)
    ensures
        r == spec_push_size(byte),
{
    if is_push(byte) {
        (byte - PUSH1 + 1) as u64
    } else {
        0
    }
}

/// The push-size lookup relation: every byte value 0..=255 paired with its
/// forced push-data length, in order.
pub open spec fn is_push_table(tab: Seq<(u64, u64)>) -> bool {
    &&& tab.len() == 256
    &&& forall|i: int| 0 <= i < 256 ==> #[trigger] tab[i] == (i as u64, spec_push_size(i as u8))
}

/// Builds the push-size lookup relation.
pub fn push_table() -> (tab: Vec<(u64, u64)>)
    ensures
        is_push_table(tab@),
{
    let mut tab: Vec<(u64, u64)> = Vec::new();
    let mut i: usize = 0;
    while i < 256
        invariant
            i <= 256,
            tab@.len() == i,
            forall|j: int| 0 <= j < i ==> #[trigger] tab@[j] == (j as u64, spec_push_size(j as u8)),
        decreases 256 - i,
    {
        tab.push((i as u64, get_push_size(i as u8)));
        i = i + 1;
    }
    tab
}

/// Membership in the push-size relation pins the pair down: a pair belongs to
/// it iff its first component is a byte value and its second component is
/// that byte's forced push-data length.
pub proof fn lemma_push_table_membership(tab: Seq<(u64, u64)>, v: u64, p: u64)
    requires
        is_push_table(tab),
    ensures
        tab.contains((v, p)) <==> (v < 256 && p == spec_push_size(v as u8)),
{
    if tab.contains((v, p)) {
        let i = choose|i: int| 0 <= i < tab.len() && tab[i] == (v, p);
        assert(tab[i] == (i as u64, spec_push_size(i as u8)));
    }
    if v < 256 && p == spec_push_size(v as u8) {
        assert(tab[v as int] == (v, p));
    }
}

} // verus!
