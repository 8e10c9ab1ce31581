//! A verified model of bytecode arithmetization: raw instruction bytes are
//! unrolled into a row table that tags every byte as executable opcode or
//! forced push data, a fixed-capacity table is assembled from many such
//! bytecodes plus padding, and a local transition-constraint set decides
//! whether a table is well formed.

pub mod checker;
pub mod circuit;
pub mod hashing;
pub mod lookup;
pub mod opcodes;
pub mod rows;
pub mod soundness;
pub mod table;
pub mod unroller;
