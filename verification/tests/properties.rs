//! Concrete-value tests: known digests, the push-size relation, the
//! fingerprint formula, the capacity boundary, word packing, and the batch
//! scenario.

use bytecode_circuit::checker::check_table;
use bytecode_circuit::circuit::{min_num_rows_block, BytecodeCircuit};
use bytecode_circuit::hashing::{into_words, keccak_relation};
use bytecode_circuit::opcodes::{get_push_size, push_table, PUSH1, PUSH32};
use bytecode_circuit::soundness::assign_and_check;
use bytecode_circuit::table::BytecodeCircuitConfig;
use bytecode_circuit::unroller::unroll;

/// Rows the backend keeps unusable at the tail of the table.
const RESERVED_ROWS: usize = 5;

/// The digest commitment of the unrolling is the Keccak-256 digest of the
/// raw bytes, checked against known digest values.
#[test]
fn keccak_known_digests() {
    let empty = unroll(vec![]);
    assert_eq!(
        hex::encode(&empty.rows[0].code_hash),
        "c5d2460186f7233c927e7db2dcc703c0e500b653ca82273b7bfad8045d85a470"
    );
    let abc = unroll(vec![0x61, 0x62, 0x63]);
    assert_eq!(
        hex::encode(&abc.rows[0].code_hash),
        "4e03657aea45a94fc7d47ba826c8d667c0d1e6e33a64a036ec44f58fa12d6c45"
    );
}

/// The push-size relation maps every byte value to its forced push-data
/// length: 0 off the push range, 1..=32 across it.
#[test]
fn push_table_values() {
    let tab = push_table();
    assert_eq!(tab.len(), 256);
    for (i, entry) in tab.iter().enumerate() {
        assert_eq!(entry.0, i as u64);
        let expected = if (i as u8) >= PUSH1 && (i as u8) <= PUSH32 {
            (i as u8 - PUSH1 + 1) as u64
        } else {
            0
        };
        assert_eq!(entry.1, expected);
    }
    assert_eq!(get_push_size(PUSH1), 1);
    assert_eq!(get_push_size(PUSH32), 32);
    assert_eq!(get_push_size(PUSH1 - 1), 0);
    assert_eq!(get_push_size(0x00), 0);
    assert_eq!(get_push_size(0xFF), 0);
}

/// The running fingerprint folds the bytes under the challenge: for bytes
/// [1, 2, 3] and challenge 1000 it is ((1 * 1000) + 2) * 1000 + 3.
#[test]
fn rlc_exact_value() {
    let challenge = 1000u128;
    let bytecodes = vec![unroll(vec![1u8, 2, 3])];
    let rel = keccak_relation(&bytecodes, challenge);
    assert_eq!(rel.len(), 1);
    assert_eq!(rel[0].value_rlc, 1_002_003);
    assert_eq!(rel[0].length, 3);
}

/// Capacity boundary: when the batch's row count plus the reserved rows
/// exceeds the capacity, strict assignment always reports CapacityExceeded,
/// and raising the capacity by exactly the deficit makes it succeed.
#[test]
fn capacity_boundary() {
    let challenge = 123456u128;
    let bytecodes = vec![unroll(vec![7u8]), unroll(vec![6u8]), unroll(vec![5u8])];
    // Six rows are needed; with five reserved rows a capacity of 10 leaves
    // only five usable rows: a deficit of one.
    let config = BytecodeCircuitConfig::new(RESERVED_ROWS);
    let r = config.assign(&bytecodes, 10, challenge);
    let err = r.expect_err("assignment must exceed capacity");
    assert_eq!(err.offset, 5);
    assert_eq!(err.limit, 4);
    // Raising the capacity by exactly the deficit makes it succeed.
    let t = config.assign(&bytecodes, 11, challenge).expect("assignment must fit");
    assert_eq!(t.rows.len(), 6);
    assert_eq!(t.size, 11);
    assert_eq!(t.reserved_rows, RESERVED_ROWS);
}

/// The minimum row budget of a batch is one header row plus one byte row per
/// byte, per bytecode.
#[test]
fn min_num_rows_of_batch() {
    let bytecodes = vec![unroll(vec![7u8]), unroll(vec![6u8, 9u8]), unroll(vec![])];
    assert_eq!(min_num_rows_block(&bytecodes), 2 + 3 + 1);
}

/// Little-endian word packing: one word per full 8-byte chunk, the trailing
/// partial chunk dropped.
#[test]
fn into_words_packs_le() {
    let message = vec![0x01u8, 0x02, 0x03, 0x04, 0x05, 0x06, 0x07, 0x08, 0xFF];
    let words = into_words(&message);
    assert_eq!(words, vec![0x0807060504030201u64]);
    assert_eq!(into_words(&[]), Vec::<u64>::new());
    let two = vec![1u8, 0, 0, 0, 0, 0, 0, 0, 2, 0, 0, 0, 0, 0, 0, 0];
    assert_eq!(into_words(&two), vec![1u64, 2u64]);
}

/// The code tags of an unrolling agree with an independent reference oracle
/// that walks the bytes applying push-size skips.
#[test]
fn is_code_matches_reference_walk() {
    let bytes = vec![
        0x01u8,
        PUSH1,
        PUSH1,
        0x03,
        PUSH1 + 6,
        0x01,
        PUSH1 + 5,
        PUSH32,
        0xAA,
        0xBB,
    ];
    // Independent oracle: mark code offsets by skipping forced data.
    let mut code_offsets = vec![false; bytes.len()];
    let mut j = 0usize;
    while j < bytes.len() {
        code_offsets[j] = true;
        j += 1 + get_push_size(bytes[j]) as usize;
    }
    let unrolled = unroll(bytes.clone());
    for i in 0..bytes.len() {
        assert_eq!(unrolled.rows[i + 1].is_code, code_offsets[i]);
    }
}

/// The whole pipeline accepts any fitting batch of unrollings and reports
/// nothing for one that exceeds the capacity.
#[test]
fn pipeline_accepts_fitting_batch() {
    let challenge = 987654321u128;
    let bytecodes = vec![unroll(vec![PUSH1, 0x42]), unroll(vec![]), unroll(vec![0x01u8])];
    // Seven rows needed; room for padding.
    let table = assign_and_check(&bytecodes, 7 + RESERVED_ROWS + 1, RESERVED_ROWS, challenge);
    assert!(table.is_some());
    assert_eq!(table.unwrap().rows.len(), 8);
    // One row short.
    let none = assign_and_check(&bytecodes, 6 + RESERVED_ROWS, RESERVED_ROWS, challenge);
    assert!(none.is_none());
}

/// Point lookups: (code_hash, index) resolves to that offset's code tag and
/// byte value, and code_hash alone resolves to the bytecode's total length.
#[test]
fn point_lookups() {
    let challenge = 123456u128;
    let bytecodes = vec![unroll(vec![PUSH1, 0xFF]), unroll(vec![0x01u8])];
    let hash_a = bytecodes[0].rows[0].code_hash.clone();
    let hash_b = bytecodes[1].rows[0].code_hash.clone();
    let config = BytecodeCircuitConfig::new(RESERVED_ROWS);
    let table = config.assign(&bytecodes, 16, challenge).expect("batch must fit");
    assert_eq!(table.lookup_byte(&hash_a, 0), Some((true, PUSH1 as u64)));
    assert_eq!(table.lookup_byte(&hash_a, 1), Some((false, 0xFF)));
    assert_eq!(table.lookup_byte(&hash_a, 2), None);
    assert_eq!(table.lookup_byte(&hash_b, 0), Some((true, 0x01)));
    assert_eq!(table.lookup_length(&hash_a), Some(2));
    assert_eq!(table.lookup_length(&hash_b), Some(1));
    assert_eq!(table.lookup_length(&vec![0u8; 32]), None);
}

/// Batch scenario: three one-byte bytecodes packed into one table, each
/// satisfying the hashing lookup at its own byte-to-header boundary.
#[test]
fn batch_table_three_bytecodes() {
    let challenge = 123456u128;
    let bytecodes = vec![unroll(vec![7u8]), unroll(vec![6u8]), unroll(vec![5u8])];
    // Capacity of at least 3 * 2 + reserved rows, with a padding row.
    let size = 3 * 2 + RESERVED_ROWS + 1;
    let config = BytecodeCircuitConfig::new(RESERVED_ROWS);
    let circuit = BytecodeCircuit::new(bytecodes, size);
    let table = circuit.synthesize_sub(&config, challenge);
    let hash_rel = keccak_relation(&circuit.bytecodes, challenge);
    assert!(check_table(&table, challenge, &config.push_table, &hash_rel));
    // Each bytecode's last byte row carries exactly its relation entry.
    for (b, entry) in [(1usize, 0usize), (3, 1), (5, 2)] {
        let row = &table.rows[b];
        assert_eq!(row.value_rlc, hash_rel[entry].value_rlc);
        assert_eq!(row.length, hash_rel[entry].length);
        assert_eq!(row.code_hash, hash_rel[entry].code_hash);
        assert_eq!(row.index + 1, row.length);
    }
}
