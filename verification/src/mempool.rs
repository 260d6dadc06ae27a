//! The mempool: pending transactions, the accumulated fee-work they
//! contribute, and the bundling of the next candidate block once the
//! burn-fee curve has decayed below the available work.

use vstd::prelude::*;

use crate::block::{header_of, wf_block, Block, BlockHeader, BlockHeaderView};
use crate::blockchain::{expected_adjust, last_gt_vote};
use crate::burnfee::{adjust_start_calc, work_needed_calc, BurnFee};
use crate::transaction::{sum_amts, tx_fee, wf_tx, Transaction};

verus! {

/// Whether a mempool with `work` accumulated and `n` pending transactions
/// may bundle at time `ts` on top of a block with header `prev`: there is
/// no previous block at all, or the curve's demand at `ts` is covered and
/// something is pending.
pub open spec fn can_bundle_at(prev: Option<BlockHeaderView>, ts: u64, work: u64, n: int) -> bool {
    match prev {
        Some(p) => work_needed_calc(p.ts, ts, p.bf.start, crate::HEARTBEAT) <= work && n > 0,
        None => true,
    }
}

/// The mempool: pending blocks and transactions and the work the latter
/// contribute.
#[derive(Debug)]
pub struct Mempool {
    pub blocks: Vec<Block>,
    pub transactions: Vec<Transaction>,
    pub burnfee: BurnFee,
    pub work_available: u64,
}

impl Mempool {
    /// An empty mempool.
    pub fn new() -> (r: Mempool)
        ensures
            r.blocks@.len() == 0,
            r.transactions@.len() == 0,
            r.work_available == 0u64,
    {
        Mempool {
            blocks: Vec::new(),
            transactions: Vec::new(),
            burnfee: BurnFee::new(0, 0),
            work_available: 0,
        }
    }

    /// Queues a block received while the node is busy.
    pub fn add_block(&mut self, block: Block)
        ensures
            final(self).blocks@.len() == old(self).blocks@.len() + 1,
            final(self).transactions@ == old(self).transactions@,
            final(self).work_available == old(self).work_available,
    {
        self.blocks.push(block);
    }

    /// Appends a pending transaction and credits its fee-work, saturating
    /// at the largest representable amount.
    pub fn add_transaction(&mut self, tx: Transaction)
        requires
            sum_amts(tx@.body.from) <= u64::MAX,
            tx@.body.to.len() <= u32::MAX,
            tx@.body.from.len() <= u32::MAX,
        ensures
            final(self).transactions@.len() == old(self).transactions@.len() + 1,
            final(self).transactions@.last()@ == tx@,
            forall|i: int|
                0 <= i < old(self).transactions@.len() ==> final(self).transactions@[i]
                    == old(self).transactions@[i],
            final(self).work_available as int == if old(self).work_available + tx_fee(tx@.body)
                <= u64::MAX {
                old(self).work_available + tx_fee(tx@.body)
            } else {
                u64::MAX as int
            },
            final(self).blocks@ == old(self).blocks@,
    {
        let work = tx.return_work_available();
        if work > u64::MAX - self.work_available {
            self.work_available = u64::MAX;
        } else {
            self.work_available = self.work_available + work;
        }
        self.transactions.push(tx);
    }

    /// Empties the pending queue and resets the accumulated work.
    pub fn clear_transactions(&mut self)
        ensures
            final(self).transactions@.len() == 0,
            final(self).work_available == 0u64,
            final(self).blocks@ == old(self).blocks@,
    {
        self.transactions = Vec::new();
        self.work_available = 0;
    }

    /// Whether the mempool may bundle a block at time `ts`.
    pub fn can_bundle_block_at(&self, block_header: Option<&BlockHeader>, ts: u64) -> (r: bool)
        ensures
            r == can_bundle_at(
                match block_header {
                    Some(h) => Some(h@),
                    None => None::<BlockHeaderView>,
                },
                ts,
                self.work_available,
                self.transactions@.len() as int,
            ),
    {
        match block_header {
            Some(h) => {
                let work_needed = BurnFee::return_work_needed(
                    h.ts,
                    ts,
                    h.bf.start,
                    crate::HEARTBEAT,
                );
                work_needed <= self.work_available && self.transactions.len() > 0
            },
            None => true,
        }
    }

    /// Whether the mempool may bundle a block now. The clock decides; with
    /// no previous header bundling is always allowed, and with an empty
    /// queue never.
    pub fn can_bundle_block(&self, block_header: Option<&BlockHeader>) -> (r: bool)
        ensures
            block_header is None ==> r,
            self.transactions@.len() == 0 && block_header is Some ==> !r,
    {
        let ts = crate::helper::create_timestamp();
        self.can_bundle_block_at(block_header, ts)
    }

    /// Bundles the next candidate block for `publickey`: every pending
    /// transaction moves into the block, the monetary fields roll over
    /// from the previous header, the burn fee follows the adjusted curve,
    /// and a golden-ticket vote among the transactions nudges difficulty
    /// and paysplit. The block's timestamp comes from the clock.
    pub fn bundle_block(&mut self, publickey: Vec<u8>, previous_block_header: Option<&BlockHeader>)
        -> (r: Block)
        requires
            publickey@.len() == 33,
            forall|i: int|
                0 <= i < old(self).transactions@.len() ==> wf_tx(
                    #[trigger] old(self).transactions@[i]@,
                ),
            old(self).transactions@.len() <= u32::MAX,
            match previous_block_header {
                Some(p) => p@.bsh.len() == 32 && p@.bid < u32::MAX && p@.treasury + p@.reclaimed
                    <= u64::MAX,
                None => true,
            },
        ensures
            final(self).transactions@.len() == 0,
            final(self).work_available == 0u64,
            wf_block(r@),
            r@.body.creator == publickey@,
            r@.body.txs == crate::block::txs_view(old(self).transactions@),
            r@.is_valid == 1u8,
            match previous_block_header {
                Some(p) => {
                    &&& r@.body.id == p@.bid + 1
                    &&& r@.body.prevbsh == p@.bsh
                    &&& r@.body.coinbase as int == crate::blockchain::coinbase_calc(
                        p@.treasury,
                        p@.reclaimed,
                    )
                    &&& r@.body.treasury as int == p@.treasury + p@.reclaimed - r@.body.coinbase
                    &&& r@.body.bf.start as int == adjust_start_calc(
                        p@.bf.start,
                        p@.ts,
                        r@.body.ts,
                        crate::HEARTBEAT,
                    )
                    &&& r@.body.bf.current as int == work_needed_calc(
                        p@.ts,
                        r@.body.ts,
                        p@.bf.start,
                        crate::HEARTBEAT,
                    )
                    &&& r@.body.difficulty == expected_adjust(p@.difficulty, r@.body.txs)
                    &&& r@.body.paysplit == expected_adjust(p@.paysplit, r@.body.txs)
                    &&& r@.mintid == p@.mintid
                    &&& r@.maxtid == p@.maxtid
                },
                None => {
                    &&& r@.body.id == 1u32
                    &&& r@.body.bf == (BurnFee { start: 10u64, current: 0u64 })
                },
            },
    {
        let mut block: Block;
        match previous_block_header {
            Some(p) => {
                block = Block::new(publickey, crate::bytes::copy_bytes(&p.bsh));
                let pool: u128 = (p.treasury as u128) + (p.reclaimed as u128);
                let gp: u128 = crate::GENESIS_PERIOD as u128;
                let coinbase: u128 = (pool + gp / 2) / gp;
                proof {
                    let pi = pool as int;
                    let gi = gp as int;
                    assert((pi + gi / 2) / gi <= pi) by (nonlinear_arith)
                        requires
                            pi >= 0,
                            gi == 21500,
                    ;
                }
                block.set_id(p.bid + 1);
                block.set_mintid(p.mintid);
                block.set_maxtid(p.maxtid);
                block.set_coinbase(coinbase as u64);
                block.set_treasury((pool - coinbase) as u64);
                let bf = BurnFee::adjust_work_needed(p.bf.start, p.ts, block.body.ts, crate::HEARTBEAT);
                block.set_burnfee(bf);
                block.set_transactions(&mut self.transactions);
                let vote = crate::blockchain::find_last_gt_vote(&block.body.txs);
                let new_difficulty = match vote {
                    Some(v) => crate::blockchain::vote_adjust_exec(v, p.difficulty),
                    None => p.difficulty,
                };
                let new_paysplit = match vote {
                    Some(v) => crate::blockchain::vote_adjust_exec(v, p.paysplit),
                    None => p.paysplit,
                };
                block.set_difficulty(new_difficulty);
                block.set_paysplit(new_paysplit);
            },
            None => {
                block = Block::new(publickey, crate::bytes::zero_bytes(32));
                block.set_id(1);
                block.set_burnfee(BurnFee::new(10, 0));
                block.set_transactions(&mut self.transactions);
            },
        }
        self.clear_transactions();
        proof {
            if previous_block_header is Some && self.transactions@.len() >= 0 {
            }
        }
        block
    }
}

} // verus!
