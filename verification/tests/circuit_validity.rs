//! Circuit validity tests:
//! each batch is laid into a table of capacity 2^k and the transition
//! constraint set must accept or reject it as expected.

use bytecode_circuit::checker::check_table;
use bytecode_circuit::circuit::BytecodeCircuit;
use bytecode_circuit::hashing::keccak_relation;
use bytecode_circuit::opcodes::{PUSH1, PUSH32};
use bytecode_circuit::rows::UnrolledBytecode;
use bytecode_circuit::table::BytecodeCircuitConfig;
use bytecode_circuit::unroller::unroll;

/// Rows the backend keeps unusable at the tail of the table.
const RESERVED_ROWS: usize = 5;

fn get_randomness() -> u128 {
    123456
}

/// Packs the batch into a table of capacity 2^k with lenient assignment,
/// builds the canonical lookup relations, and asserts the constraint set's
/// verdict.
fn test_bytecode_circuit_unrolled(k: u32, bytecodes: Vec<UnrolledBytecode>, success: bool) {
    let size = 1usize << k;
    let challenge = get_randomness();
    let config = BytecodeCircuitConfig::new(RESERVED_ROWS);
    let circuit = BytecodeCircuit::new(bytecodes, size);
    let table = circuit.synthesize_sub(&config, challenge);
    let hash_rel = keccak_relation(&circuit.bytecodes, challenge);
    assert_eq!(check_table(&table, challenge, &config.push_table, &hash_rel), success);
}

/// Adds one to a 32-byte big-endian hash value, with carry.
fn word_inc(hash: &mut Vec<u8>) {
    let mut i = hash.len();
    while i > 0 {
        i -= 1;
        let (b, carry) = hash[i].overflowing_add(1);
        hash[i] = b;
        if !carry {
            return;
        }
    }
}

/// Tests a fully empty circuit
#[test]
fn bytecode_empty() {
    let k = 9;
    test_bytecode_circuit_unrolled(k, vec![unroll(vec![])], true);
}

#[test]
fn bytecode_simple() {
    let k = 9;
    let bytecodes = vec![unroll(vec![7u8]), unroll(vec![6u8]), unroll(vec![5u8])];
    test_bytecode_circuit_unrolled(k, bytecodes, true);
}

/// Tests a fully full circuit
#[test]
fn bytecode_full() {
    let k = 9;
    test_bytecode_circuit_unrolled(k, vec![unroll(vec![7u8; 2usize.pow(k) - 7])], true);
}

/// Tests a circuit with incomplete bytecode
#[test]
fn bytecode_incomplete() {
    let k = 9;
    test_bytecode_circuit_unrolled(k, vec![unroll(vec![7u8; 2usize.pow(k) + 1])], false);
}

/// Tests multiple bytecodes in a single circuit
#[test]
fn bytecode_push() {
    let k = 9;
    // 0x01 is an ordinary (non-push) opcode.
    let add = 0x01u8;
    test_bytecode_circuit_unrolled(
        k,
        vec![
            unroll(vec![]),
            unroll(vec![PUSH32]),
            unroll(vec![PUSH32, add]),
            unroll(vec![add, PUSH32]),
            unroll(vec![add, PUSH32, add]),
        ],
        true,
    );
}

/// Test invalid code_hash data
#[test]
fn bytecode_invalid_hash_data() {
    let k = 9;
    let bytecode = vec![8u8, 2, 3, 8, 9, 7, 128];
    let unrolled = unroll(bytecode);
    test_bytecode_circuit_unrolled(k, vec![unrolled.clone()], true);
    // Change the code_hash on the first position
    {
        let mut invalid = unrolled.clone();
        word_inc(&mut invalid.rows[0].code_hash);
        test_bytecode_circuit_unrolled(k, vec![invalid], false);
    }
    // Change the code_hash on another position
    {
        let mut invalid = unrolled.clone();
        word_inc(&mut invalid.rows[4].code_hash);
        test_bytecode_circuit_unrolled(k, vec![invalid], false);
    }
    // Change all the hashes so it doesn't match the keccak lookup code_hash
    {
        let mut invalid = unrolled;
        let mut one = vec![0u8; 32];
        one[31] = 1;
        for row in invalid.rows.iter_mut() {
            row.code_hash = one.clone();
        }
        test_bytecode_circuit_unrolled(k, vec![invalid], false);
    }
}

/// Test invalid index
#[test]
fn bytecode_invalid_index() {
    let k = 9;
    let bytecode = vec![8u8, 2, 3, 8, 9, 7, 128];
    let unrolled = unroll(bytecode);
    test_bytecode_circuit_unrolled(k, vec![unrolled.clone()], true);
    // Start the index at 1
    {
        let mut invalid = unrolled.clone();
        for row in invalid.rows.iter_mut() {
            row.index += 1;
        }
        test_bytecode_circuit_unrolled(k, vec![invalid], false);
    }
    // Don't increment an index once
    {
        let mut invalid = unrolled;
        invalid.rows.last_mut().unwrap().index -= 1;
        test_bytecode_circuit_unrolled(k, vec![invalid], false);
    }
}

/// Test invalid byte data
#[test]
fn bytecode_invalid_byte_data() {
    let k = 9;
    let bytecode = vec![8u8, 2, 3, 8, 9, 7, 128];
    let unrolled = unroll(bytecode);
    test_bytecode_circuit_unrolled(k, vec![unrolled.clone()], true);
    // Change the first byte
    {
        let mut invalid = unrolled.clone();
        invalid.rows[1].value = 9;
        test_bytecode_circuit_unrolled(k, vec![invalid], false);
    }
    // Change a byte on another position
    {
        let mut invalid = unrolled.clone();
        invalid.rows[5].value = 6;
        test_bytecode_circuit_unrolled(k, vec![invalid], false);
    }
    // Set a byte value out of range
    {
        let mut invalid = unrolled;
        invalid.rows[3].value = 256;
        test_bytecode_circuit_unrolled(k, vec![invalid], false);
    }
}

/// Test invalid is_code data
#[test]
fn bytecode_invalid_is_code() {
    let k = 9;
    // 0x01 adds, 0x03 subtracts: both ordinary (non-push) opcodes.
    let add = 0x01u8;
    let sub = 0x03u8;
    let push7 = PUSH1 + 6;
    let push6 = PUSH1 + 5;
    let bytecode = vec![add, PUSH1, PUSH1, sub, push7, add, push6];
    let unrolled = unroll(bytecode);
    test_bytecode_circuit_unrolled(k, vec![unrolled.clone()], true);
    // Mark the 3rd byte as code (is push data from the first PUSH1)
    {
        let mut invalid = unrolled.clone();
        invalid.rows[3].is_code = true;
        test_bytecode_circuit_unrolled(k, vec![invalid], false);
    }
    // Mark the 4rd byte as data (is code)
    {
        let mut invalid = unrolled.clone();
        invalid.rows[4].is_code = false;
        test_bytecode_circuit_unrolled(k, vec![invalid], false);
    }
    // Mark the 7th byte as code (is data for the PUSH7)
    {
        let mut invalid = unrolled;
        invalid.rows[7].is_code = true;
        test_bytecode_circuit_unrolled(k, vec![invalid], false);
    }
}
