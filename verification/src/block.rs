//! Blocks: the body carried on the wire, the derived header kept in the
//! chain index, and the canonical serialization with its round trip.
//! Difficulty and paysplit are held in hundredths; the block hash `bsh` is
//! SHA-256 over the block id, timestamp and creator, big-endian.

use vstd::prelude::*;

use crate::burnfee::BurnFee;
use crate::bytes::{
    dec_bytes, dec_u32, dec_u64, dec_u8, lemma_concat_split, lemma_dec_u32, lemma_dec_u64,
    push_bytes, push_u32_be, push_u64_be, u32_be, u64_be, zero_bytes,
};
use crate::crypto::{hex_lower_of, sha256_of};
use crate::transaction::{
    dec_tx, enc_tx, encode_tx, wf_tx, Transaction, TransactionView,
};

verus! {

/// The body of a block: everything the hash chain and the monetary rules
/// speak about.
#[derive(Clone, Debug, PartialEq)]
pub struct BlockBody {
    pub id: u32,
    pub ts: u64,
    pub prevbsh: Vec<u8>,
    pub creator: Vec<u8>,
    pub txs: Vec<Transaction>,
    pub bf: BurnFee,
    pub merkle: Vec<u8>,
    pub difficulty: u64,
    pub paysplit: u64,
    pub vote: i8,
    pub treasury: u64,
    pub coinbase: u64,
    pub reclaimed: u64,
}

/// A block: its body, a validity byte and the transaction id range it
/// covers.
#[derive(Clone, Debug, PartialEq)]
pub struct Block {
    pub body: BlockBody,
    pub is_valid: u8,
    pub mintid: u32,
    pub maxtid: u32,
}

/// The index-only projection of a block: what fork choice and bundling
/// read without loading the body.
#[derive(Clone, Debug, PartialEq)]
pub struct BlockHeader {
    pub bf: BurnFee,
    pub bsh: Vec<u8>,
    pub prevbsh: Vec<u8>,
    pub bid: u32,
    pub ts: u64,
    pub treasury: u64,
    pub reclaimed: u64,
    pub difficulty: u64,
    pub paysplit: u64,
    pub mintid: u32,
    pub maxtid: u32,
}

/// Mathematical image of a block body.
pub ghost struct BlockBodyView {
    pub id: u32,
    pub ts: u64,
    pub prevbsh: Seq<u8>,
    pub creator: Seq<u8>,
    pub txs: Seq<TransactionView>,
    pub bf: BurnFee,
    pub merkle: Seq<u8>,
    pub difficulty: u64,
    pub paysplit: u64,
    pub vote: i8,
    pub treasury: u64,
    pub coinbase: u64,
    pub reclaimed: u64,
}

/// Mathematical image of a block.
pub ghost struct BlockView {
    pub body: BlockBodyView,
    pub is_valid: u8,
    pub mintid: u32,
    pub maxtid: u32,
}

/// Mathematical image of a block header.
pub ghost struct BlockHeaderView {
    pub bf: BurnFee,
    pub bsh: Seq<u8>,
    pub prevbsh: Seq<u8>,
    pub bid: u32,
    pub ts: u64,
    pub treasury: u64,
    pub reclaimed: u64,
    pub difficulty: u64,
    pub paysplit: u64,
    pub mintid: u32,
    pub maxtid: u32,
}

/// The mathematical images of a sequence of transactions.
pub open spec fn txs_view(v: Seq<Transaction>) -> Seq<TransactionView> {
    v.map_values(|t: Transaction| t@)
}

impl View for BlockBody {
    type V = BlockBodyView;

    open spec fn view(&self) -> BlockBodyView {
        BlockBodyView {
            id: self.id,
            ts: self.ts,
            prevbsh: self.prevbsh@,
            creator: self.creator@,
            txs: txs_view(self.txs@),
            bf: self.bf,
            merkle: self.merkle@,
            difficulty: self.difficulty,
            paysplit: self.paysplit,
            vote: self.vote,
            treasury: self.treasury,
            coinbase: self.coinbase,
            reclaimed: self.reclaimed,
        }
    }
}

impl View for Block {
    type V = BlockView;

    open spec fn view(&self) -> BlockView {
        BlockView {
            body: self.body@,
            is_valid: self.is_valid,
            mintid: self.mintid,
            maxtid: self.maxtid,
        }
    }
}

impl View for BlockHeader {
    type V = BlockHeaderView;

    open spec fn view(&self) -> BlockHeaderView {
        BlockHeaderView {
            bf: self.bf,
            bsh: self.bsh@,
            prevbsh: self.prevbsh@,
            bid: self.bid,
            ts: self.ts,
            treasury: self.treasury,
            reclaimed: self.reclaimed,
            difficulty: self.difficulty,
            paysplit: self.paysplit,
            mintid: self.mintid,
            maxtid: self.maxtid,
        }
    }
}

/// A block body is well formed when its hashes and creator key have their
/// fixed lengths, its transactions are well formed and their count fits a
/// 32-bit prefix.
pub open spec fn wf_block_body(b: BlockBodyView) -> bool {
    &&& b.prevbsh.len() == 32
    &&& b.creator.len() == 33
    &&& b.merkle.len() == 32
    &&& b.txs.len() <= u32::MAX
    &&& forall|i: int| 0 <= i < b.txs.len() ==> wf_tx(#[trigger] b.txs[i])
}

/// A block is well formed when its body is.
pub open spec fn wf_block(b: BlockView) -> bool {
    wf_block_body(b.body)
}

/// The bytes hashed to identify a block: its id, timestamp and creator,
/// big-endian. Transactions are deliberately excluded; the merkle root
/// commits to them separately.
pub open spec fn bsh_preimage(b: BlockBodyView) -> Seq<u8> {
    u32_be(b.id) + u64_be(b.ts) + b.creator
}

/// The block signature hash: SHA-256 over the identifying fields.
pub open spec fn bsh_of(b: BlockBodyView) -> Seq<u8> {
    sha256_of(bsh_preimage(b))
}

/// The header a block projects to.
pub open spec fn header_of(b: BlockView) -> BlockHeaderView {
    BlockHeaderView {
        bf: b.body.bf,
        bsh: bsh_of(b.body),
        prevbsh: b.body.prevbsh,
        bid: b.body.id,
        ts: b.body.ts,
        treasury: b.body.treasury,
        reclaimed: b.body.reclaimed,
        difficulty: b.body.difficulty,
        paysplit: b.body.paysplit,
        mintid: b.mintid,
        maxtid: b.maxtid,
    }
}

/// Canonical serialization of a sequence of transactions.
pub open spec fn enc_txs(ts: Seq<TransactionView>) -> Seq<u8>
    decreases ts.len(),
{
    if ts.len() == 0 {
        Seq::<u8>::empty()
    } else {
        enc_tx(ts[0]) + enc_txs(ts.skip(1))
    }
}

/// Decoding of `n` transactions at `pos`.
pub open spec fn dec_txs(data: Seq<u8>, pos: int, n: int) -> Option<(Seq<TransactionView>, int)>
    decreases n,
{
    if n <= 0 {
        Some((Seq::<TransactionView>::empty(), pos))
    } else {
        match dec_tx(data, pos) {
            None => None,
            Some((t, p1)) => match dec_txs(data, p1, n - 1) {
                None => None,
                Some((rest, p2)) => Some((seq![t] + rest, p2)),
            },
        }
    }
}

/// Well-formed transactions encoded at `pos` decode to themselves.
pub proof fn lemma_dec_enc_txs(data: Seq<u8>, pos: int, ts: Seq<TransactionView>)
    requires
        forall|i: int| 0 <= i < ts.len() ==> wf_tx(#[trigger] ts[i]),
        0 <= pos,
        pos + enc_txs(ts).len() <= data.len(),
        data.subrange(pos, pos + enc_txs(ts).len()) == enc_txs(ts),
    ensures
        dec_txs(data, pos, ts.len() as int) == Some((ts, pos + enc_txs(ts).len())),
    decreases ts.len(),
{
    if ts.len() == 0 {
        assert(ts =~= Seq::<TransactionView>::empty());
    } else {
        let head = ts[0];
        let rest = ts.skip(1);
        lemma_concat_split(data, pos, enc_tx(head), enc_txs(rest));
        crate::transaction::lemma_dec_enc_tx(data, pos, head);
        lemma_dec_enc_txs(data, pos + enc_tx(head).len(), rest);
        assert(seq![head] + rest =~= ts);
    }
}

/// Canonical serialization of a block body: identifiers, hash links, the
/// length-prefixed transaction list, the burn fee, and the monetary
/// fields, every integer big-endian.
pub open spec fn enc_block_body(b: BlockBodyView) -> Seq<u8> {
    u32_be(b.id) + u64_be(b.ts) + b.prevbsh + b.creator + u32_be(b.txs.len() as u32) + enc_txs(
        b.txs,
    ) + u64_be(b.bf.start) + u64_be(b.bf.current) + b.merkle + u64_be(b.difficulty) + u64_be(
        b.paysplit,
    ) + seq![b.vote as u8] + u64_be(b.treasury) + u64_be(b.coinbase) + u64_be(b.reclaimed)
}

/// Canonical serialization of a block: its body, the validity byte and
/// the transaction id range.
pub open spec fn enc_block(b: BlockView) -> Seq<u8> {
    enc_block_body(b.body) + seq![b.is_valid] + u32_be(b.mintid) + u32_be(b.maxtid)
}

/// Decoding of a block body at `pos`.
pub open spec fn dec_block_body(data: Seq<u8>, pos: int) -> Option<(BlockBodyView, int)> {
    match dec_u32(data, pos) {
        None => None,
        Some((id, p1)) => match dec_u64(data, p1) {
            None => None,
            Some((ts, p2)) => match dec_bytes(data, p2, 32) {
                None => None,
                Some((prevbsh, p3)) => match dec_bytes(data, p3, 33) {
                    None => None,
                    Some((creator, p4)) => match dec_u32(data, p4) {
                        None => None,
                        Some((ntx, p5)) => match dec_txs(data, p5, ntx as int) {
                            None => None,
                            Some((txs, p6)) => match dec_u64(data, p6) {
                                None => None,
                                Some((bf_start, p7)) => match dec_u64(data, p7) {
                                    None => None,
                                    Some((bf_current, p8)) => match dec_bytes(data, p8, 32) {
                                        None => None,
                                        Some((merkle, p9)) => match dec_u64(data, p9) {
                                            None => None,
                                            Some((difficulty, p10)) => match dec_u64(data, p10) {
                                                None => None,
                                                Some((paysplit, p11)) => match dec_u8(data, p11) {
                                                    None => None,
                                                    Some((vb, p12)) => match dec_u64(data, p12) {
                                                        None => None,
                                                        Some((treasury, p13)) => match dec_u64(
                                                            data,
                                                            p13,
                                                        ) {
                                                            None => None,
                                                            Some((coinbase, p14)) => match dec_u64(
                                                                data,
                                                                p14,
                                                            ) {
                                                                None => None,
                                                                Some((reclaimed, p15)) => Some(
                                                                    (
                                                                        BlockBodyView {
                                                                            id,
                                                                            ts,
                                                                            prevbsh,
                                                                            creator,
                                                                            txs,
                                                                            bf: BurnFee {
                                                                                start: bf_start,
                                                                                current: bf_current,
                                                                            },
                                                                            merkle,
                                                                            difficulty,
                                                                            paysplit,
                                                                            vote: vb as i8,
                                                                            treasury,
                                                                            coinbase,
                                                                            reclaimed,
                                                                        },
                                                                        p15,
                                                                    ),
                                                                ),
                                                            },
                                                        },
                                                    },
                                                },
                                            },
                                        },
                                    },
                                },
                            },
                        },
                    },
                },
            },
        },
    }
}

/// Decoding of a block at `pos`.
pub open spec fn dec_block(data: Seq<u8>, pos: int) -> Option<(BlockView, int)> {
    match dec_block_body(data, pos) {
        None => None,
        Some((body, p1)) => match dec_u8(data, p1) {
            None => None,
            Some((is_valid, p2)) => match dec_u32(data, p2) {
                None => None,
                Some((mintid, p3)) => match dec_u32(data, p3) {
                    None => None,
                    Some((maxtid, p4)) => Some((BlockView { body, is_valid, mintid, maxtid }, p4)),
                },
            },
        },
    }
}

/// A well-formed block body encoded at `pos` decodes to itself.
#[verifier::rlimit(100)]
#[verifier::spinoff_prover]
pub proof fn lemma_dec_enc_block_body(data: Seq<u8>, pos: int, b: BlockBodyView)
    requires
        wf_block_body(b),
        0 <= pos,
        pos + enc_block_body(b).len() <= data.len(),
        data.subrange(pos, pos + enc_block_body(b).len()) == enc_block_body(b),
    ensures
        dec_block_body(data, pos) == Some((b, pos + enc_block_body(b).len())),
{
    let f01 = u32_be(b.id);
    let f02 = u64_be(b.ts);
    let f03 = b.prevbsh;
    let f04 = b.creator;
    let f05 = u32_be(b.txs.len() as u32);
    let f06 = enc_txs(b.txs);
    let f07 = u64_be(b.bf.start);
    let f08 = u64_be(b.bf.current);
    let f09 = b.merkle;
    let f10 = u64_be(b.difficulty);
    let f11 = u64_be(b.paysplit);
    let f12 = seq![b.vote as u8];
    let f13 = u64_be(b.treasury);
    let f14 = u64_be(b.coinbase);
    let f15 = u64_be(b.reclaimed);
    let e14 = f01 + f02 + f03 + f04 + f05 + f06 + f07 + f08 + f09 + f10 + f11 + f12 + f13 + f14;
    let e13 = f01 + f02 + f03 + f04 + f05 + f06 + f07 + f08 + f09 + f10 + f11 + f12 + f13;
    let e12 = f01 + f02 + f03 + f04 + f05 + f06 + f07 + f08 + f09 + f10 + f11 + f12;
    let e11 = f01 + f02 + f03 + f04 + f05 + f06 + f07 + f08 + f09 + f10 + f11;
    let e10 = f01 + f02 + f03 + f04 + f05 + f06 + f07 + f08 + f09 + f10;
    let e09 = f01 + f02 + f03 + f04 + f05 + f06 + f07 + f08 + f09;
    let e08 = f01 + f02 + f03 + f04 + f05 + f06 + f07 + f08;
    let e07 = f01 + f02 + f03 + f04 + f05 + f06 + f07;
    let e06 = f01 + f02 + f03 + f04 + f05 + f06;
    let e05 = f01 + f02 + f03 + f04 + f05;
    let e04 = f01 + f02 + f03 + f04;
    let e03 = f01 + f02 + f03;
    let e02 = f01 + f02;
    lemma_concat_split(data, pos, e14, f15);
    lemma_concat_split(data, pos, e13, f14);
    lemma_concat_split(data, pos, e12, f13);
    lemma_concat_split(data, pos, e11, f12);
    lemma_concat_split(data, pos, e10, f11);
    lemma_concat_split(data, pos, e09, f10);
    lemma_concat_split(data, pos, e08, f09);
    lemma_concat_split(data, pos, e07, f08);
    lemma_concat_split(data, pos, e06, f07);
    lemma_concat_split(data, pos, e05, f06);
    lemma_concat_split(data, pos, e04, f05);
    lemma_concat_split(data, pos, e03, f04);
    lemma_concat_split(data, pos, e02, f03);
    lemma_concat_split(data, pos, f01, f02);
    let p1 = pos + 4;
    let p2 = p1 + 8;
    let p3 = p2 + 32;
    let p4 = p3 + 33;
    let p5 = p4 + 4;
    let p6 = p5 + f06.len();
    let p7 = p6 + 8;
    let p8 = p7 + 8;
    let p9 = p8 + 32;
    let p10 = p9 + 8;
    let p11 = p10 + 8;
    let p12 = p11 + 1;
    let p13 = p12 + 8;
    let p14 = p13 + 8;
    let p15 = p14 + 8;
    lemma_dec_u32(data, pos, b.id);
    lemma_dec_u64(data, p1, b.ts);
    assert(data.subrange(p2, p3) == b.prevbsh);
    assert(data.subrange(p3, p4) == b.creator);
    lemma_dec_u32(data, p4, b.txs.len() as u32);
    lemma_dec_enc_txs(data, p5, b.txs);
    lemma_dec_u64(data, p6, b.bf.start);
    lemma_dec_u64(data, p7, b.bf.current);
    assert(data.subrange(p8, p9) == b.merkle);
    lemma_dec_u64(data, p9, b.difficulty);
    lemma_dec_u64(data, p10, b.paysplit);
    assert(data[p11] == b.vote as u8) by {
        assert(data.subrange(p11, p12)[0] == data[p11]);
    }
    assert((b.vote as u8) as i8 == b.vote) by {
        let v = b.vote;
        assert((v as u8) as i8 == v) by (bit_vector);
    }
    lemma_dec_u64(data, p12, b.treasury);
    lemma_dec_u64(data, p13, b.coinbase);
    lemma_dec_u64(data, p14, b.reclaimed);
    assert((b.txs.len() as u32) as int == b.txs.len() as int);
}

/// A well-formed block encoded at `pos` decodes to itself.
#[verifier::rlimit(100)]
#[verifier::spinoff_prover]
pub proof fn lemma_dec_enc_block(data: Seq<u8>, pos: int, b: BlockView)
    requires
        wf_block(b),
        0 <= pos,
        pos + enc_block(b).len() <= data.len(),
        data.subrange(pos, pos + enc_block(b).len()) == enc_block(b),
    ensures
        dec_block(data, pos) == Some((b, pos + enc_block(b).len())),
{
    let f1 = enc_block_body(b.body);
    let f2 = seq![b.is_valid];
    let f3 = u32_be(b.mintid);
    let f4 = u32_be(b.maxtid);
    lemma_concat_split(data, pos, f1 + f2 + f3, f4);
    lemma_concat_split(data, pos, f1 + f2, f3);
    lemma_concat_split(data, pos, f1, f2);
    lemma_dec_enc_block_body(data, pos, b.body);
    let p1 = pos + f1.len();
    assert(data[p1] == b.is_valid) by {
        assert(data.subrange(p1, p1 + 1)[0] == data[p1]);
    }
    lemma_dec_u32(data, p1 + 1, b.mintid);
    lemma_dec_u32(data, p1 + 5, b.maxtid);
}

impl BlockBody {
    /// A fresh block body by `block_creator` on top of `prevbsh`: no
    /// transactions, zeroed monetary fields, the current time.
    pub fn new(block_creator: Vec<u8>, prevbsh: Vec<u8>) -> (r: BlockBody)
        requires
            block_creator@.len() == 33,
            prevbsh@.len() == 32,
        ensures
            r@.id == 0u32,
            r@.prevbsh == prevbsh@,
            r@.creator == block_creator@,
            r@.txs.len() == 0,
            r@.bf == (BurnFee { start: 0u64, current: 0u64 }),
            r@.merkle.len() == 32,
            r@.difficulty == 0u64,
            r@.paysplit == 0u64,
            r@.vote == 0i8,
            r@.treasury == 0u64,
            r@.coinbase == 0u64,
            r@.reclaimed == 0u64,
            wf_block_body(r@),
    {
        let r = BlockBody {
            id: 0,
            ts: crate::helper::create_timestamp(),
            prevbsh,
            creator: block_creator,
            txs: Vec::new(),
            bf: BurnFee::new(0, 0),
            merkle: zero_bytes(32),
            difficulty: 0,
            paysplit: 0,
            vote: 0,
            treasury: 0,
            coinbase: 0,
            reclaimed: 0,
        };
        proof {
            assert(txs_view(r.txs@) =~= Seq::<TransactionView>::empty());
        }
        r
    }
}

impl Block {
    /// A fresh, superficially valid block by `creator` on top of
    /// `prevbsh`.
    pub fn new(creator: Vec<u8>, prevbsh: Vec<u8>) -> (r: Block)
        requires
            creator@.len() == 33,
            prevbsh@.len() == 32,
        ensures
            r@.body.id == 0u32,
            r@.body.prevbsh == prevbsh@,
            r@.body.creator == creator@,
            r@.body.txs.len() == 0,
            r@.body.bf == (BurnFee { start: 0u64, current: 0u64 }),
            r@.body.difficulty == 0u64,
            r@.body.paysplit == 0u64,
            r@.body.treasury == 0u64,
            r@.body.coinbase == 0u64,
            r@.body.reclaimed == 0u64,
            r@.is_valid == 1u8,
            r@.mintid == 0u32,
            r@.maxtid == 0u32,
            wf_block(r@),
    {
        Block { body: BlockBody::new(creator, prevbsh), is_valid: 1, mintid: 0, maxtid: 0 }
    }

    /// A block wrapped around an existing body.
    pub fn create_from_block_body(body: BlockBody) -> (r: Block)
        ensures
            r@.body == body@,
            r@.is_valid == 1u8,
            r@.mintid == 0u32,
            r@.maxtid == 0u32,
    {
        Block { body, is_valid: 1, mintid: 0, maxtid: 0 }
    }

    /// The header this block projects to.
    pub fn header(&self) -> (r: BlockHeader)
        requires
            wf_block(self@),
        ensures
            r@ == header_of(self@),
    {
        BlockHeader {
            bf: self.body.bf,
            bsh: self.return_bsh(),
            prevbsh: crate::bytes::copy_bytes(&self.body.prevbsh),
            bid: self.body.id,
            ts: self.body.ts,
            treasury: self.body.treasury,
            reclaimed: self.body.reclaimed,
            difficulty: self.body.difficulty,
            paysplit: self.body.paysplit,
            mintid: self.mintid,
            maxtid: self.maxtid,
        }
    }

    /// Appends a transaction.
    pub fn add_transaction(&mut self, tx: Transaction)
        ensures
            final(self)@.body.txs == old(self)@.body.txs + seq![tx@],
            final(self)@.body == (BlockBodyView {
                txs: final(self)@.body.txs,
                ..old(self)@.body
            }),
            final(self)@.is_valid == old(self)@.is_valid,
            final(self)@.mintid == old(self)@.mintid,
            final(self)@.maxtid == old(self)@.maxtid,
    {
        self.body.txs.push(tx);
        proof {
            assert(txs_view(self.body.txs@) =~= txs_view(old(self).body.txs@) + seq![
                self.body.txs@[self.body.txs@.len() - 1]@,
            ]);
        }
    }

    /// Swaps the block's transaction list with `transactions`; the block
    /// takes the given transactions and hands back its old ones.
    pub fn set_transactions(&mut self, transactions: &mut Vec<Transaction>)
        ensures
            final(self)@.body.txs == txs_view(old(transactions)@),
            txs_view(final(transactions)@) == old(self)@.body.txs,
            final(self)@.body == (BlockBodyView {
                txs: final(self)@.body.txs,
                ..old(self)@.body
            }),
            final(self)@.is_valid == old(self)@.is_valid,
            final(self)@.mintid == old(self)@.mintid,
            final(self)@.maxtid == old(self)@.maxtid,
    {
        core::mem::swap(&mut self.body.txs, transactions);
    }

    /// Replaces the burn fee.
    pub fn set_burnfee(&mut self, bf: BurnFee)
        ensures
            final(self)@.body == (BlockBodyView { bf, ..old(self)@.body }),
            final(self)@.is_valid == old(self)@.is_valid,
            final(self)@.mintid == old(self)@.mintid,
            final(self)@.maxtid == old(self)@.maxtid,
    {
        self.body.bf = bf;
    }

    /// Replaces the block id.
    pub fn set_id(&mut self, id: u32)
        ensures
            final(self)@.body == (BlockBodyView { id, ..old(self)@.body }),
            final(self)@.is_valid == old(self)@.is_valid,
            final(self)@.mintid == old(self)@.mintid,
            final(self)@.maxtid == old(self)@.maxtid,
    {
        self.body.id = id;
    }

    /// Replaces the difficulty, in hundredths.
    pub fn set_difficulty(&mut self, difficulty: u64)
        ensures
            final(self)@.body == (BlockBodyView { difficulty, ..old(self)@.body }),
            final(self)@.is_valid == old(self)@.is_valid,
            final(self)@.mintid == old(self)@.mintid,
            final(self)@.maxtid == old(self)@.maxtid,
    {
        self.body.difficulty = difficulty;
    }

    /// Replaces the paysplit, in hundredths.
    pub fn set_paysplit(&mut self, paysplit: u64)
        ensures
            final(self)@.body == (BlockBodyView { paysplit, ..old(self)@.body }),
            final(self)@.is_valid == old(self)@.is_valid,
            final(self)@.mintid == old(self)@.mintid,
            final(self)@.maxtid == old(self)@.maxtid,
    {
        self.body.paysplit = paysplit;
    }

    /// Replaces the treasury.
    pub fn set_treasury(&mut self, treasury: u64)
        ensures
            final(self)@.body == (BlockBodyView { treasury, ..old(self)@.body }),
            final(self)@.is_valid == old(self)@.is_valid,
            final(self)@.mintid == old(self)@.mintid,
            final(self)@.maxtid == old(self)@.maxtid,
    {
        self.body.treasury = treasury;
    }

    /// Replaces the coinbase.
    pub fn set_coinbase(&mut self, coinbase: u64)
        ensures
            final(self)@.body == (BlockBodyView { coinbase, ..old(self)@.body }),
            final(self)@.is_valid == old(self)@.is_valid,
            final(self)@.mintid == old(self)@.mintid,
            final(self)@.maxtid == old(self)@.maxtid,
    {
        self.body.coinbase = coinbase;
    }

    /// Replaces the reclaimed amount.
    pub fn set_reclaimed(&mut self, reclaimed: u64)
        ensures
            final(self)@.body == (BlockBodyView { reclaimed, ..old(self)@.body }),
            final(self)@.is_valid == old(self)@.is_valid,
            final(self)@.mintid == old(self)@.mintid,
            final(self)@.maxtid == old(self)@.maxtid,
    {
        self.body.reclaimed = reclaimed;
    }

    /// Replaces the previous-block hash.
    pub fn set_prevhash(&mut self, prevbsh: Vec<u8>)
        requires
            prevbsh@.len() == 32,
        ensures
            final(self)@.body == (BlockBodyView { prevbsh: prevbsh@, ..old(self)@.body }),
            final(self)@.is_valid == old(self)@.is_valid,
            final(self)@.mintid == old(self)@.mintid,
            final(self)@.maxtid == old(self)@.maxtid,
    {
        self.body.prevbsh = prevbsh;
    }

    /// Replaces the smallest covered transaction id.
    pub fn set_mintid(&mut self, mintid: u32)
        ensures
            final(self)@ == (BlockView { mintid, ..old(self)@ }),
    {
        self.mintid = mintid;
    }

    /// Replaces the largest covered transaction id.
    pub fn set_maxtid(&mut self, maxtid: u32)
        ensures
            final(self)@ == (BlockView { maxtid, ..old(self)@ }),
    {
        self.maxtid = maxtid;
    }

    /// The block's body.
    pub fn return_body(&self) -> (r: &BlockBody)
        ensures
            r@ == self@.body,
    {
        &self.body
    }

    /// The block signature hash: SHA-256 over the block id, timestamp and
    /// creator, big-endian.
    pub fn return_bsh(&self) -> (r: Vec<u8>)
        ensures
            r@ == bsh_of(self@.body),
            r@.len() == 32,
    {
        let mut data: Vec<u8> = Vec::new();
        push_u32_be(&mut data, self.body.id);
        push_u64_be(&mut data, self.body.ts);
        push_bytes(&mut data, &self.body.creator);
        assert(data@ =~= bsh_preimage(self@.body));
        crate::crypto::sha256_hash(data)
    }

    /// The block hash rendered as lowercase hexadecimal text.
    pub fn return_bsh_as_hex(&self) -> (r: String)
        ensures
            r@ == hex_lower_of(bsh_of(self@.body)),
    {
        let bsh = self.return_bsh();
        crate::crypto::hex_encode(bsh.as_slice())
    }

    /// The block creator's public key.
    pub fn return_creator(&self) -> (r: &Vec<u8>)
        ensures
            r@ == self@.body.creator,
    {
        &self.body.creator
    }

    /// The burn fee this block's creator paid.
    pub fn return_paid_burnfee(&self) -> (r: u64)
        ensures
            r == self@.body.bf.current,
    {
        self.body.bf.current
    }

    /// The block's difficulty, in hundredths.
    pub fn return_difficulty(&self) -> (r: u64)
        ensures
            r == self@.body.difficulty,
    {
        self.body.difficulty
    }

    /// The block's paysplit, in hundredths.
    pub fn return_paysplit(&self) -> (r: u64)
        ensures
            r == self@.body.paysplit,
    {
        self.body.paysplit
    }

    /// The block's coinbase.
    pub fn return_coinbase(&self) -> (r: u64)
        ensures
            r == self@.body.coinbase,
    {
        self.body.coinbase
    }

    /// The canonical serialization of this block.
    pub fn serialize(&self) -> (r: Vec<u8>)
        requires
            wf_block(self@),
        ensures
            r@ == enc_block(self@),
    {
        let mut buf: Vec<u8> = Vec::new();
        encode_block_body(&mut buf, &self.body);
        buf.push(self.is_valid);
        push_u32_be(&mut buf, self.mintid);
        push_u32_be(&mut buf, self.maxtid);
        assert(buf@ =~= enc_block(self@));
        buf
    }

    /// Reads a block back from its canonical serialization. Succeeds
    /// exactly on byte strings that decode as one whole block; the bytes
    /// are then the block's own serialization, so serializing the result
    /// reproduces the input byte for byte.
    pub fn deserialize(data: &[u8]) -> (r: Option<Block>)
        ensures
            match r {
                Some(b) => dec_block(data@, 0) == Some((b@, data@.len() as int)) && wf_block(b@),
                None => !(exists|b: BlockView, p: int|
                    dec_block(data@, 0) == Some((b, p)) && p == data@.len()),
            },
    {
        match decode_block(data, 0) {
            Some((b, p)) => {
                if p == data.len() {
                    Some(b)
                } else {
                    None
                }
            },
            None => None,
        }
    }
}

/// Appends the canonical serialization of each transaction in turn to
/// `buf`.
pub fn encode_txs(buf: &mut Vec<u8>, v: &Vec<Transaction>)
    requires
        forall|i: int| 0 <= i < v@.len() ==> wf_tx(#[trigger] txs_view(v@)[i]),
    ensures
        final(buf)@ == old(buf)@ + enc_txs(txs_view(v@)),
{
    let ghost orig = buf@;
    let n = v.len();
    let mut i: usize = 0;
    while i < n
        invariant
            n == v@.len(),
            i <= n,
            forall|j: int| 0 <= j < n ==> wf_tx(#[trigger] txs_view(v@)[j]),
            buf@ == orig + enc_txs(txs_view(v@).take(i as int)),
        decreases n - i,
    {
        assert(v@[i as int]@ == txs_view(v@)[i as int]);
        encode_tx(buf, &v[i]);
        i += 1;
        proof {
            lemma_enc_txs_snoc(txs_view(v@), i as int);
        }
    }
    proof {
        assert(txs_view(v@).take(n as int) =~= txs_view(v@));
    }
}

/// Encoding one more transaction extends the encoding of a prefix.
proof fn lemma_enc_txs_snoc(ts: Seq<TransactionView>, i: int)
    requires
        0 < i <= ts.len(),
    ensures
        enc_txs(ts.take(i)) == enc_txs(ts.take(i - 1)) + enc_tx(ts[i - 1]),
    decreases i,
{
    if i == 1 {
        assert(ts.take(1)[0] == ts[0]);
        assert(ts.take(1).skip(1) =~= Seq::<TransactionView>::empty());
        assert(ts.take(0) =~= Seq::<TransactionView>::empty());
        assert(enc_txs(ts.take(1)) == enc_tx(ts.take(1)[0]) + enc_txs(ts.take(1).skip(1)));
        assert(enc_txs(Seq::<TransactionView>::empty()) == Seq::<u8>::empty());
        assert(enc_txs(ts.take(1)) =~= enc_txs(ts.take(0)) + enc_tx(ts[0]));
    } else {
        lemma_enc_txs_snoc(ts.skip(1), i - 1);
        assert(ts.take(i)[0] == ts[0]);
        assert(ts.take(i).skip(1) =~= ts.skip(1).take(i - 1));
        assert(ts.take(i - 1)[0] == ts[0]);
        assert(ts.take(i - 1).skip(1) =~= ts.skip(1).take(i - 2));
        assert(ts.skip(1)[i - 2] == ts[i - 1]);
        assert(enc_txs(ts.take(i)) == enc_tx(ts[0]) + enc_txs(ts.skip(1).take(i - 1)));
        assert(enc_txs(ts.skip(1).take(i - 1)) == enc_txs(ts.skip(1).take(i - 2)) + enc_tx(
            ts[i - 1],
        ));
        assert(enc_txs(ts.take(i)) =~= enc_txs(ts.take(i - 1)) + enc_tx(ts[i - 1]));
    }
}

/// Appends the canonical serialization of a block body to `buf`.
#[verifier::rlimit(100)]
#[verifier::spinoff_prover]
pub fn encode_block_body(buf: &mut Vec<u8>, b: &BlockBody)
    requires
        wf_block_body(b@),
    ensures
        final(buf)@ == old(buf)@ + enc_block_body(b@),
{
    let ghost orig = buf@;
    push_u32_be(buf, b.id);
    push_u64_be(buf, b.ts);
    push_bytes(buf, &b.prevbsh);
    push_bytes(buf, &b.creator);
    push_u32_be(buf, b.txs.len() as u32);
    encode_txs(buf, &b.txs);
    push_u64_be(buf, b.bf.start);
    push_u64_be(buf, b.bf.current);
    push_bytes(buf, &b.merkle);
    push_u64_be(buf, b.difficulty);
    push_u64_be(buf, b.paysplit);
    buf.push(b.vote as u8);
    push_u64_be(buf, b.treasury);
    push_u64_be(buf, b.coinbase);
    push_u64_be(buf, b.reclaimed);
    assert(buf@ =~= orig + enc_block_body(b@));
}

/// Reads `n` transactions at `pos`, following `dec_txs`.
#[verifier::rlimit(100)]
#[verifier::spinoff_prover]
pub fn decode_txs(data: &[u8], pos: usize, n: u32) -> (r: Option<(Vec<Transaction>, usize)>)
    ensures
        match r {
            Some((v, p2)) => dec_txs(data@, pos as int, n as int) == Some(
                (txs_view(v@), p2 as int),
            ) && (forall|i: int| 0 <= i < v@.len() ==> wf_tx(#[trigger] txs_view(v@)[i]))
                && v@.len() == n,
            None => dec_txs(data@, pos as int, n as int) is None,
        },
    decreases n,
{
    if n == 0 {
        let v: Vec<Transaction> = Vec::new();
        proof {
            assert(txs_view(v@) =~= Seq::<TransactionView>::empty());
        }
        Some((v, pos))
    } else {
        let (t, p1) = match crate::transaction::decode_tx(data, pos) {
            Some(x) => x,
            None => { return None; },
        };
        let (mut rest, p2) = match decode_txs(data, p1, n - 1) {
            Some(x) => x,
            None => { return None; },
        };
        let ghost before = rest@;
        rest.insert(0, t);
        proof {
            assert(txs_view(rest@) =~= seq![t@] + txs_view(before)) by {
                assert(forall|i: int| 0 <= i < rest@.len() ==> txs_view(rest@)[i] == rest@[i]@);
            }
        }
        Some((rest, p2))
    }
}

/// Reads a block at `pos`, following `dec_block`.
#[verifier::rlimit(100)]
#[verifier::spinoff_prover]
pub fn decode_block(data: &[u8], pos: usize) -> (r: Option<(Block, usize)>)
    ensures
        match r {
            Some((b, p2)) => dec_block(data@, pos as int) == Some((b@, p2 as int)) && wf_block(b@),
            None => dec_block(data@, pos as int) is None,
        },
{
    let (id, p1) = match crate::bytes::read_u32_be(data, pos) {
        Some(x) => x,
        None => { return None; },
    };
    let (ts, p2) = match crate::bytes::read_u64_be(data, p1) {
        Some(x) => x,
        None => { return None; },
    };
    let (prevbsh, p3) = match crate::bytes::read_bytes(data, p2, 32) {
        Some(x) => x,
        None => { return None; },
    };
    let (creator, p4) = match crate::bytes::read_bytes(data, p3, 33) {
        Some(x) => x,
        None => { return None; },
    };
    let (ntx, p5) = match crate::bytes::read_u32_be(data, p4) {
        Some(x) => x,
        None => { return None; },
    };
    let (txs, p6) = match decode_txs(data, p5, ntx) {
        Some(x) => x,
        None => { return None; },
    };
    let (bf_start, p7) = match crate::bytes::read_u64_be(data, p6) {
        Some(x) => x,
        None => { return None; },
    };
    let (bf_current, p8) = match crate::bytes::read_u64_be(data, p7) {
        Some(x) => x,
        None => { return None; },
    };
    let (merkle, p9) = match crate::bytes::read_bytes(data, p8, 32) {
        Some(x) => x,
        None => { return None; },
    };
    let (difficulty, p10) = match crate::bytes::read_u64_be(data, p9) {
        Some(x) => x,
        None => { return None; },
    };
    let (paysplit, p11) = match crate::bytes::read_u64_be(data, p10) {
        Some(x) => x,
        None => { return None; },
    };
    let (vb, p12) = match crate::bytes::read_u8(data, p11) {
        Some(x) => x,
        None => { return None; },
    };
    let (treasury, p13) = match crate::bytes::read_u64_be(data, p12) {
        Some(x) => x,
        None => { return None; },
    };
    let (coinbase, p14) = match crate::bytes::read_u64_be(data, p13) {
        Some(x) => x,
        None => { return None; },
    };
    let (reclaimed, p15) = match crate::bytes::read_u64_be(data, p14) {
        Some(x) => x,
        None => { return None; },
    };
    let (is_valid, p16) = match crate::bytes::read_u8(data, p15) {
        Some(x) => x,
        None => { return None; },
    };
    let (mintid, p17) = match crate::bytes::read_u32_be(data, p16) {
        Some(x) => x,
        None => { return None; },
    };
    let (maxtid, p18) = match crate::bytes::read_u32_be(data, p17) {
        Some(x) => x,
        None => { return None; },
    };
    let b = Block {
        body: BlockBody {
            id,
            ts,
            prevbsh,
            creator,
            txs,
            bf: BurnFee { start: bf_start, current: bf_current },
            merkle,
            difficulty,
            paysplit,
            vote: vb as i8,
            treasury,
            coinbase,
            reclaimed,
        },
        is_valid,
        mintid,
        maxtid,
    };
    Some((b, p18))
}

/// A fresh copy of a block.
pub fn copy_block(b: &Block) -> (r: Block)
    ensures
        r@ == b@,
{
    let mut txs: Vec<Transaction> = Vec::new();
    let n = b.body.txs.len();
    let mut i: usize = 0;
    while i < n
        invariant
            n == b.body.txs@.len(),
            i <= n,
            txs@.len() == i,
            forall|j: int| 0 <= j < i ==> txs@[j]@ == b.body.txs@[j]@,
        decreases n - i,
    {
        txs.push(crate::transaction::copy_tx(&b.body.txs[i]));
        i += 1;
    }
    proof {
        assert(txs_view(txs@) =~= txs_view(b.body.txs@));
    }
    Block {
        body: BlockBody {
            id: b.body.id,
            ts: b.body.ts,
            prevbsh: crate::bytes::copy_bytes(&b.body.prevbsh),
            creator: crate::bytes::copy_bytes(&b.body.creator),
            txs,
            bf: b.body.bf,
            merkle: crate::bytes::copy_bytes(&b.body.merkle),
            difficulty: b.body.difficulty,
            paysplit: b.body.paysplit,
            vote: b.body.vote,
            treasury: b.body.treasury,
            coinbase: b.body.coinbase,
            reclaimed: b.body.reclaimed,
        },
        is_valid: b.is_valid,
        mintid: b.mintid,
        maxtid: b.maxtid,
    }
}

/// The total fee in this block usable by `publickey`.
pub fn return_available_fees(blk: &Block, publickey: &Vec<u8>) -> (r: u64)
    requires
        forall|i: int|
            0 <= i < blk@.body.txs.len() ==> crate::transaction::sum_amts(
                #[trigger] blk@.body.txs[i].body.from,
            ) <= u64::MAX,
        forall|i: int| 0 <= i < blk@.body.txs.len() ==> wf_tx(#[trigger] blk@.body.txs[i]),
        sum_fees_usable(blk@.body.txs, publickey@) <= u64::MAX,
    ensures
        r as int == sum_fees_usable(blk@.body.txs, publickey@),
{
    proof {
        lemma_sum_fees_usable_nonneg(blk@.body.txs, publickey@);
        assert(blk@.body.txs.skip(0) =~= blk@.body.txs);
    }
    let n = blk.body.txs.len();
    let mut acc: u64 = 0;
    let mut i: usize = 0;
    while i < n
        invariant
            n == blk.body.txs@.len(),
            i <= n,
            forall|j: int|
                0 <= j < n ==> crate::transaction::sum_amts(
                    #[trigger] blk@.body.txs[j].body.from,
                ) <= u64::MAX,
            forall|j: int| 0 <= j < n ==> wf_tx(#[trigger] blk@.body.txs[j]),
            acc + sum_fees_usable(blk@.body.txs.skip(i as int), publickey@) == sum_fees_usable(
                blk@.body.txs,
                publickey@,
            ),
            sum_fees_usable(blk@.body.txs, publickey@) <= u64::MAX,
            acc <= sum_fees_usable(blk@.body.txs, publickey@),
        decreases n - i,
    {
        proof {
            assert(blk@.body.txs.skip(i as int)[0] == blk@.body.txs[i as int]);
            assert(blk@.body.txs.skip(i as int).skip(1) =~= blk@.body.txs.skip(i + 1));
            lemma_sum_fees_usable_nonneg(blk@.body.txs.skip(i + 1), publickey@);
        }
        let f = blk.body.txs[i].return_fees_usable(publickey);
        acc = acc + f;
        i += 1;
    }
    proof {
        assert(blk@.body.txs.skip(n as int) =~= Seq::<TransactionView>::empty());
    }
    acc
}

/// The sum over a sequence of transactions of the fee usable by `addr`.
pub open spec fn sum_fees_usable(ts: Seq<TransactionView>, addr: Seq<u8>) -> int
    decreases ts.len(),
{
    if ts.len() == 0 {
        0
    } else {
        crate::transaction::tx_fees_usable(ts[0].body, addr) + sum_fees_usable(ts.skip(1), addr)
    }
}

/// Usable-fee sums are never negative.
pub proof fn lemma_sum_fees_usable_nonneg(ts: Seq<TransactionView>, addr: Seq<u8>)
    ensures
        sum_fees_usable(ts, addr) >= 0,
    decreases ts.len(),
{
    if ts.len() > 0 {
        lemma_sum_fees_usable_nonneg(ts.skip(1), addr);
    }
}

} // verus!
