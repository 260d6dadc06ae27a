//! Message carriers handed between the components of a node.

use vstd::prelude::*;

use crate::block::Block;
use crate::transaction::Transaction;

verus! {

/// A block on its way to another component.
#[derive(Clone, Debug)]
pub struct BlockMessage {
    pub payload: Block,
}

impl BlockMessage {
    /// Wraps a block.
    pub fn new(payload: Block) -> (r: BlockMessage)
        ensures
            r.payload@ == payload@,
    {
        BlockMessage { payload }
    }
}

/// A transaction on its way to another component.
#[derive(Clone, Debug)]
pub struct TransactionMessage {
    pub payload: Transaction,
}

impl TransactionMessage {
    /// Wraps a transaction.
    pub fn new(payload: Transaction) -> (r: TransactionMessage)
        ensures
            r.payload@ == payload@,
    {
        TransactionMessage { payload }
    }
}

} // verus!
