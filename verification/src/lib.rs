//! Witness generation and circuit constraints for a transaction list in RLP, and the public
//! inputs that commit to the block.

pub mod field;
pub mod rlc;
pub mod tags;
pub mod rlp_decoder_tables;
pub mod row;
pub mod decode;
pub mod accumulate;
pub mod keccak;
pub mod state;
pub mod expression;
pub mod config;
pub mod assign;
pub mod trace;
pub mod laws;
pub mod completeness;
pub mod acceptance;
pub mod soundness;
pub mod enforced;
pub mod filled;
pub mod one_field;
pub mod rlp_stream;
pub mod transaction;
pub mod circuit;
pub mod round_trip;
pub mod reading;
pub mod given_back;
pub mod canonical;
pub mod witness;
pub mod taiko_pi_circuit;
pub mod commitment;
