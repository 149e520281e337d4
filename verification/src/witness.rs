//! The blocks that the circuits are about.

use crate::transaction::{Transaction, Word};
use vstd::prelude::*;

verus! {

/// A transaction of a block, as far as its data is concerned.
#[derive(Debug, Clone)]
pub struct BlockTransaction {
    pub call_data: Vec<u8>,
}

/// What a block is executed with.
#[derive(Debug, Clone)]
pub struct BlockContext {
    /// The number of the block.
    pub number: u64,
    /// The hashes of the blocks before it.
    pub history_hashes: Vec<Word>,
}

/// What a proof of a block is about.
#[derive(Debug, Clone, Copy)]
pub struct ProtocolInstance {
    /// The hash of the metadata of the block.
    pub meta_hash: Word,
    pub parent_hash: Word,
    pub block_hash: Word,
    pub signal_root: Word,
    pub graffiti: Word,
}

impl Default for ProtocolInstance {
    fn default() -> (r: Self)
        ensures
            r.meta_hash@ == Seq::new(32, |i: int| 0u8),
            r.parent_hash@ == Seq::new(32, |i: int| 0u8),
            r.block_hash@ == Seq::new(32, |i: int| 0u8),
            r.signal_root@ == Seq::new(32, |i: int| 0u8),
            r.graffiti@ == Seq::new(32, |i: int| 0u8),
    {
        let zero: Word = [0u8; 32];
        assert(zero@ =~= Seq::new(32, |i: int| 0u8));
        ProtocolInstance {
            meta_hash: zero,
            parent_hash: zero,
            block_hash: zero,
            signal_root: zero,
            graffiti: zero,
        }
    }
}

/// A block: its transactions as they are executed, and as they are sent.
#[derive(Debug, Clone)]
pub struct Block {
    pub txs: Vec<BlockTransaction>,
    pub transactions: Vec<Transaction>,
    pub context: BlockContext,
    pub protocol_instance: Option<ProtocolInstance>,
}

} // verus!
