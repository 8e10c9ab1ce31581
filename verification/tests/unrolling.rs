//! Unrolling tests: the canonical row sequence for a bytecode exercising
//! every byte value and every push opcode, and the row-level scenarios for
//! empty, pushing and dangling-push bytecodes.

use bytecode_circuit::checker::check_table;
use bytecode_circuit::circuit::BytecodeCircuit;
use bytecode_circuit::hashing::keccak_relation;
use bytecode_circuit::opcodes::{is_push, PUSH1, PUSH32};
use bytecode_circuit::rows::{BytecodeRow, RowTag, UnrolledBytecode};
use bytecode_circuit::table::BytecodeCircuitConfig;
use bytecode_circuit::unroller::unroll;

/// Rows the backend keeps unusable at the tail of the table.
const RESERVED_ROWS: usize = 5;

fn get_randomness() -> u128 {
    123456
}

/// Packs the batch into a table of capacity 2^k with lenient assignment,
/// builds the canonical lookup relations, and asserts the constraint set's
/// verdict.
fn run_unrolled(k: u32, bytecodes: Vec<UnrolledBytecode>, success: bool) {
    let size = 1usize << k;
    let challenge = get_randomness();
    let config = BytecodeCircuitConfig::new(RESERVED_ROWS);
    let circuit = BytecodeCircuit::new(bytecodes, size);
    let table = circuit.synthesize_sub(&config, challenge);
    let hash_rel = keccak_relation(&circuit.bytecodes, challenge);
    assert_eq!(check_table(&table, challenge, &config.push_table, &hash_rel), success);
}

/// Verify unrolling code
#[test]
fn bytecode_unrolling() {
    let k = 10;
    let mut rows: Vec<BytecodeRow> = vec![];
    let mut bytecode: Vec<u8> = vec![];
    let zero_hash = vec![0u8; 32];
    // First add all non-push bytes, which should all be seen as code
    for byte in 0u8..=255u8 {
        if !is_push(byte) {
            bytecode.push(byte);
            rows.push(BytecodeRow {
                code_hash: zero_hash.clone(),
                tag: RowTag::Byte,
                index: rows.len() as u64,
                is_code: true,
                value: byte as u64,
            });
        }
    }
    // Now add the different push ops
    for n in 1u8..=32u8 {
        let data_byte = PUSH32;
        bytecode.push(PUSH1 + n - 1);
        rows.push(BytecodeRow {
            code_hash: zero_hash.clone(),
            tag: RowTag::Byte,
            index: rows.len() as u64,
            is_code: true,
            value: (PUSH1 + n - 1) as u64,
        });
        for _ in 0..n {
            bytecode.push(data_byte);
            rows.push(BytecodeRow {
                code_hash: zero_hash.clone(),
                tag: RowTag::Byte,
                index: rows.len() as u64,
                is_code: false,
                value: data_byte as u64,
            });
        }
    }
    // Unroll the bytecode
    let unrolled = unroll(bytecode.clone());
    // Set the code_hash of the complete bytecode in the rows
    let code_hash = unrolled.rows[0].code_hash.clone();
    for row in rows.iter_mut() {
        row.code_hash = code_hash.clone();
    }
    rows.insert(
        0,
        BytecodeRow {
            code_hash,
            tag: RowTag::Header,
            index: 0,
            is_code: false,
            value: bytecode.len() as u64,
        },
    );
    // Check if the bytecode was unrolled correctly
    assert_eq!(UnrolledBytecode { bytes: bytecode, rows }, unrolled);
    // Verify the unrolling in the circuit
    run_unrolled(k, vec![unrolled], true);
}

/// Empty bytecode: the unrolling is a single header row with value 0, and it
/// is accepted for any capacity of at least one usable row.
#[test]
fn unroll_empty_rows() {
    let unrolled = unroll(vec![]);
    assert_eq!(unrolled.bytes, Vec::<u8>::new());
    assert_eq!(unrolled.rows.len(), 1);
    assert_eq!(unrolled.rows[0].tag, RowTag::Header);
    assert_eq!(unrolled.rows[0].index, 0);
    assert_eq!(unrolled.rows[0].is_code, false);
    assert_eq!(unrolled.rows[0].value, 0);
    // Smallest capacity with one usable row beyond the reserved rows.
    let size = RESERVED_ROWS + 1;
    let challenge = get_randomness();
    let config = BytecodeCircuitConfig::new(RESERVED_ROWS);
    let circuit = BytecodeCircuit::new(vec![unrolled], size);
    let table = circuit.synthesize_sub(&config, challenge);
    let hash_rel = keccak_relation(&circuit.bytecodes, challenge);
    assert!(check_table(&table, challenge, &config.push_table, &hash_rel));
}

/// Single push with data: [PUSH1, 0xFF] unrolls to a header of length 2, a
/// code row for the push opcode and a data row for the trailing byte.
#[test]
fn unroll_single_push_rows() {
    let unrolled = unroll(vec![PUSH1, 0xFF]);
    assert_eq!(unrolled.bytes, vec![PUSH1, 0xFF]);
    assert_eq!(unrolled.rows.len(), 3);
    assert_eq!(unrolled.rows[0].tag, RowTag::Header);
    assert_eq!(unrolled.rows[0].value, 2);
    assert_eq!(unrolled.rows[1].tag, RowTag::Byte);
    assert_eq!(unrolled.rows[1].index, 0);
    assert_eq!(unrolled.rows[1].is_code, true);
    assert_eq!(unrolled.rows[1].value, PUSH1 as u64);
    assert_eq!(unrolled.rows[2].tag, RowTag::Byte);
    assert_eq!(unrolled.rows[2].index, 1);
    assert_eq!(unrolled.rows[2].is_code, false);
    assert_eq!(unrolled.rows[2].value, 0xFF);
    run_unrolled(9, vec![unrolled], true);
}

/// Dangling push with no trailing data byte: the trailing PUSH1 is again
/// tagged as code because the forced-data counter returned to zero, with no
/// out-of-bounds assumption about data following the last push.
#[test]
fn unroll_dangling_push() {
    let unrolled = unroll(vec![PUSH1, 0xFF, PUSH1]);
    assert_eq!(unrolled.rows.len(), 4);
    assert_eq!(unrolled.rows[1].is_code, true);
    assert_eq!(unrolled.rows[2].is_code, false);
    assert_eq!(unrolled.rows[3].is_code, true);
    assert_eq!(unrolled.rows[3].index, 2);
    run_unrolled(9, vec![unrolled], true);
}

/// Unrolling twice yields identical rows and an identical code hash.
#[test]
fn unroll_idempotent() {
    let bytes = vec![0x01u8, PUSH1, 0xAA, PUSH32, 0x07, 0x00];
    let a = unroll(bytes.clone());
    let b = unroll(bytes.clone());
    assert_eq!(a, b);
    assert_eq!(a.rows[0].code_hash, b.rows[0].code_hash);
    // Round trip: the raw bytes are kept.
    assert_eq!(a.bytes, bytes);
}
