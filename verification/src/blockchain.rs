//! The blockchain: the insertion-ordered index of blocks, the burn-fee
//! weighted longest-chain rule, and the reorganization engine that drives
//! the utxo index across chain-tip changes.
//!
//! The canonical chain is kept as an explicit vector of index positions,
//! `lc_chain`, with a parallel flag vector `lc_flags`; the well-formedness
//! invariant says the flagged positions form a single path from the first
//! adopted block to the tip, with consecutive ids, matching hash links and
//! the monetary rollover between neighbours.

use vstd::prelude::*;

use crate::block::{
    bsh_of, header_of, wf_block, Block, BlockHeader, BlockHeaderView, BlockView,
};
use crate::burnfee::{work_needed_calc, BurnFee};
use crate::golden_ticket::{dec_gt, vote_adjust};
use crate::shashmap::{remove_all, spend_all, Shashmap};
use crate::slip::Slip;
use crate::transaction::{sum_amts, Transaction, TransactionView};

verus! {

/// The block-header index: one entry per block ever admitted, in arrival
/// order, canonical or not.
#[derive(Clone, Debug)]
pub struct BlockchainIndex {
    pub blocks: Vec<BlockHeader>,
}

impl BlockchainIndex {
    /// An empty index.
    pub fn new() -> (r: BlockchainIndex)
        ensures
            r.blocks@.len() == 0,
    {
        BlockchainIndex { blocks: Vec::new() }
    }
}

/// What one call of `add_block` did.
#[derive(Clone, Copy, Debug, PartialEq, Eq, Structural)]
pub enum AddBlockOutcome {
    /// The block was malformed, pre-genesis or already indexed; nothing
    /// changed.
    Rejected,
    /// The block was indexed but the canonical chain kept its tip.
    NotLongestChain,
    /// The block was indexed but connects to no canonical ancestor.
    Disconnected,
    /// The block was indexed, won fork choice, but failed validation; the
    /// previous canonical chain was restored.
    Failed,
    /// The block is the new chain tip and the utxo index reflects it.
    Accepted,
}

/// The observable result of `add_block`: the outcome, and, when the
/// block's predecessor is unknown but wanted, the hash to request from the
/// network.
#[derive(Clone, Debug)]
pub struct AddBlockResult {
    pub outcome: AddBlockOutcome,
    pub missing_predecessor: Option<Vec<u8>>,
}

/// The blockchain state: the index, the full block bodies (this node's
/// block store), the canonical-chain bookkeeping, genesis parameters and
/// the lowest-acceptable boundary.
#[derive(Clone, Debug)]
pub struct Blockchain {
    pub index: BlockchainIndex,
    pub bodies: Vec<Block>,
    pub lc_flags: Vec<bool>,
    pub lc_chain: Vec<usize>,
    pub lc_pos_set: bool,
    pub lc_pos: usize,
    pub genesis_ts: u64,
    pub genesis_bid: u32,
    pub genesis_period: u32,
    pub last_bsh: Vec<u8>,
    pub last_bid: u32,
    pub last_ts: u64,
    pub lowest_acceptable_ts: u64,
    pub lowest_acceptable_bsh: Vec<u8>,
    pub lowest_acceptable_bid: u32,
}

/// The coinbase minted on top of a block that left `treasury` and
/// `reclaimed`: their sum divided by the genesis period, rounded to the
/// nearest integer with halves rounded up.
pub open spec fn coinbase_calc(treasury: u64, reclaimed: u64) -> int {
    (treasury + reclaimed + (crate::GENESIS_PERIOD as int) / 2) / (crate::GENESIS_PERIOD as int)
}

/// The monetary rollover between a canonical block and its successor: the
/// successor mints the computed coinbase and carries the rest forward.
pub open spec fn monetary_linked(prev: BlockView, b: BlockView) -> bool {
    &&& b.body.coinbase == coinbase_calc(prev.body.treasury, prev.body.reclaimed)
    &&& b.body.treasury == prev.body.treasury + prev.body.reclaimed - b.body.coinbase
}

/// The structural link between a canonical block and its successor:
/// consecutive ids, a matching hash link and the monetary rollover.
pub open spec fn canonical_linked(prev: BlockView, b: BlockView) -> bool {
    &&& b.body.id == prev.body.id + 1
    &&& b.body.prevbsh == bsh_of(prev.body)
    &&& monetary_linked(prev, b)
}

/// Every value of the utxo index is either -1 (unspent) or the id of a
/// canonical block, hence positive and at most the tip id.
pub open spec fn utxo_bounded(m: Map<Seq<u8>, int>, tip: int) -> bool {
    forall|k: Seq<u8>| #[trigger] m.contains_key(k) ==> (m[k] == -1 || (1 <= m[k] <= tip))
}

/// A difficulty or paysplit moved one hundredth by a vote, following
/// `vote_adjust`.
pub fn vote_adjust_exec(vote: u8, v: u64) -> (r: u64)
    ensures
        r == vote_adjust(vote, v),
{
    if vote == 1 {
        if v < u64::MAX {
            v + 1
        } else {
            u64::MAX
        }
    } else {
        if v > 0 {
            v - 1
        } else {
            0
        }
    }
}

/// Whether a transaction payload parses as one whole golden ticket.
pub open spec fn gt_payload(msg: Seq<u8>) -> Option<crate::golden_ticket::GoldenTicketView> {
    match dec_gt(msg, 0) {
        Some((g, p)) => if p == msg.len() {
            Some(g)
        } else {
            None
        },
        None => None,
    }
}

/// The vote of the last golden-ticket transaction whose payload parses,
/// if any: that vote decides the next difficulty and paysplit.
pub open spec fn last_gt_vote(txs: Seq<TransactionView>) -> Option<u8>
    decreases txs.len(),
{
    if txs.len() == 0 {
        None
    } else {
        let t = txs.last();
        if t.body.typ == crate::transaction::TransactionBroadcastType::GoldenTicket && gt_payload(
            t.body.msg,
        ) is Some {
            Some(gt_payload(t.body.msg).unwrap().vote)
        } else {
            last_gt_vote(txs.drop_last())
        }
    }
}

/// The difficulty or paysplit a block must carry given its predecessor's
/// value: nudged by the golden-ticket vote among its transactions, or
/// inherited unchanged.
pub open spec fn expected_adjust(prev: u64, txs: Seq<TransactionView>) -> u64 {
    match last_gt_vote(txs) {
        Some(v) => vote_adjust(v, prev),
        None => prev,
    }
}

/// Whether a transaction's slips are acceptable against the utxo state
/// `m`: inputs cover outputs, and no input is already spent. Inputs
/// unknown to the index are accepted, not only those recorded unspent:
/// the end-to-end consensus scenarios mint chains whose first inputs the
/// index has never seen, so treating absence as a rejection would refuse
/// every such chain. Double-spends are rejected.
pub open spec fn tx_valid_against(m: Map<Seq<u8>, int>, t: TransactionView) -> bool {
    &&& sum_amts(t.body.from) >= sum_amts(t.body.to)
    &&& forall|j: int|
        0 <= j < t.body.from.len() ==> !{
            let fp = crate::slip::enc_slip_body((#[trigger] t.body.from[j]).body);
            m.contains_key(fp) && m[fp] > 0
        }
}

/// Whether every transaction of a block is acceptable against `m`.
pub open spec fn txs_valid_against(m: Map<Seq<u8>, int>, txs: Seq<TransactionView>) -> bool {
    forall|i: int| 0 <= i < txs.len() ==> tx_valid_against(m, #[trigger] txs[i])
}

/// The whole validation contract of one block in the utxo context `m`,
/// against its predecessor's header when it has one: a positive id, sane
/// transactions, and — for non-genesis blocks — the id and hash linkage,
/// the monetary rollover, enough burned work for the curve, and the
/// golden-ticket difficulty and paysplit rule.
pub open spec fn block_valid(b: BlockView, prev: Option<BlockHeaderView>, m: Map<Seq<u8>, int>) -> bool {
    &&& b.body.id >= 1
    &&& txs_valid_against(m, b.body.txs)
    &&& match prev {
        Some(p) => {
            &&& b.body.id == p.bid + 1
            &&& b.body.prevbsh == p.bsh
            &&& b.body.coinbase == coinbase_calc(p.treasury, p.reclaimed)
            &&& b.body.treasury == p.treasury + p.reclaimed - b.body.coinbase
            &&& work_needed_calc(p.ts, b.body.ts, p.bf.start, crate::HEARTBEAT)
                <= b.body.bf.current
            &&& b.body.difficulty == expected_adjust(p.difficulty, b.body.txs)
            &&& b.body.paysplit == expected_adjust(p.paysplit, b.body.txs)
        },
        None => true,
    }
}

/// The vote of the last golden-ticket transaction among `txs` whose
/// payload parses, following `last_gt_vote`.
pub fn find_last_gt_vote(txs: &Vec<Transaction>) -> (r: Option<u8>)
    ensures
        r == last_gt_vote(crate::block::txs_view(txs@)),
{
    let ghost tv = crate::block::txs_view(txs@);
    let n = txs.len();
    let mut cur: Option<u8> = None;
    let mut i: usize = 0;
    proof {
        assert(tv.take(0) =~= Seq::<TransactionView>::empty());
    }
    while i < n
        invariant
            n == txs@.len(),
            i <= n,
            tv == crate::block::txs_view(txs@),
            tv.len() == n,
            forall|j: int| 0 <= j < n ==> tv[j] == txs@[j]@,
            cur == last_gt_vote(tv.take(i as int)),
        decreases n - i,
    {
        proof {
            assert(tv.take(i + 1).last() == tv[i as int]);
            assert(tv.take(i + 1).drop_last() =~= tv.take(i as int));
        }
        let t = &txs[i];
        if matches!(t.body.typ, crate::transaction::TransactionBroadcastType::GoldenTicket) {
            match crate::golden_ticket::decode_gt(t.body.msg.as_slice(), 0) {
                Some((g, p)) => {
                    if p == t.body.msg.len() {
                        cur = Some(g.vote);
                    }
                },
                None => {},
            }
        }
        i += 1;
    }
    proof {
        assert(tv.take(n as int) =~= tv);
    }
    cur
}

/// Whether every transaction of `txs` is acceptable against the utxo
/// index, following `txs_valid_against`.
pub fn check_txs_against(shashmap: &Shashmap, txs: &Vec<Transaction>) -> (r: bool)
    requires
        shashmap.wf(),
        forall|i: int|
            0 <= i < txs@.len() ==> crate::transaction::wf_tx(
                #[trigger] crate::block::txs_view(txs@)[i],
            ),
    ensures
        r == txs_valid_against(shashmap@, crate::block::txs_view(txs@)),
{
    let ghost tv = crate::block::txs_view(txs@);
    let n = txs.len();
    let mut i: usize = 0;
    while i < n
        invariant
            n == txs@.len(),
            tv == crate::block::txs_view(txs@),
            tv.len() == n,
            forall|j: int| 0 <= j < n ==> tv[j] == txs@[j]@,
            forall|j: int| 0 <= j < n ==> crate::transaction::wf_tx(#[trigger] tv[j]),
            shashmap.wf(),
            i <= n,
            forall|j: int| 0 <= j < i ==> tx_valid_against(shashmap@, #[trigger] tv[j]),
        decreases n - i,
    {
        let t = &txs[i];
        let in_sum = crate::transaction::sum_slip_amts(&t.body.from);
        let out_sum = crate::transaction::sum_slip_amts(&t.body.to);
        if in_sum < out_sum {
            assert(!tx_valid_against(shashmap@, tv[i as int]));
            assert(!txs_valid_against(shashmap@, tv));
            return false;
        }
        let m = t.body.from.len();
        let mut j: usize = 0;
        while j < m
            invariant
                m == t.body.from@.len(),
                j <= m,
                shashmap.wf(),
                tv == crate::block::txs_view(txs@),
                t@ == tv[i as int],
                0 <= i < tv.len(),
                forall|k: int|
                    0 <= k < j ==> !{
                        let fp = crate::slip::enc_slip_body(
                            (#[trigger] tv[i as int].body.from[k]).body,
                        );
                        shashmap@.contains_key(fp) && shashmap@[fp] > 0
                    },
            decreases m - j,
        {
            let fp = t.body.from[j].return_signature_source();
            assert(t@.body.from[j as int] == t.body.from@[j as int]@);
            match shashmap.return_value(fp) {
                Some(v) => {
                    if *v > 0 {
                        assert(!tx_valid_against(shashmap@, tv[i as int]));
                        assert(!txs_valid_against(shashmap@, tv));
                        return false;
                    }
                },
                None => {},
            }
            j += 1;
        }
        i += 1;
    }
    true
}

/// After a commit the canonical-chain bookkeeping is well formed again:
/// the new chain is the kept prefix plus the validated path, the flags
/// match it, and the tip fields point at the path's last block.
#[verifier::rlimit(100)]
#[verifier::spinoff_prover]
proof fn lemma_commit_wf(pre: Blockchain, post: Blockchain, keep: int, path: Seq<usize>)
    requires
        pre.wf(),
        0 <= keep <= pre.lc_chain@.len(),
        path.len() >= 1,
        forall|j: int|
            0 <= j < path.len() ==> (#[trigger] path[j] as int) < pre.chain_len()
                && !pre.lc_flags@[path[j] as int],
        forall|j: int, k: int| 0 <= j < k < path.len() ==> path[j] != path[k],
        forall|j: int|
            1 <= j < path.len() ==> canonical_linked(
                pre.body(path[j - 1] as int),
                #[trigger] pre.body(path[j] as int),
            ),
        keep > 0 ==> canonical_linked(
            pre.body(pre.lc_chain@[keep - 1] as int),
            pre.body(path[0] as int),
        ),
        keep == 0 ==> pre.body(path[0] as int).body.id >= 1,
        post.index.blocks@ == pre.index.blocks@,
        post.bodies@ == pre.bodies@,
        post.lc_flags@.len() == pre.lc_flags@.len(),
        post.lc_chain@ == pre.lc_chain@.take(keep) + path,
        forall|i: int|
            0 <= i < post.lc_flags@.len() ==> ((#[trigger] post.lc_flags@[i])
                <==> post.lc_chain@.contains(i as usize)),
        post.lc_pos_set,
        post.lc_pos == path.last(),
        post.last_bsh@ == pre.hdr(path.last() as int).bsh,
        post.last_bid == pre.hdr(path.last() as int).bid,
        post.last_ts == pre.hdr(path.last() as int).ts,
    ensures
        post.wf(),
{
    reveal(Blockchain::wf_links);
    reveal(Blockchain::wf_blocks);
    reveal(Blockchain::wf_canonical);
    let new_chain = pre.lc_chain@.take(keep) + path;
    let n = post.chain_len();
    assert(n == pre.chain_len());
    assert forall|i: int| 0 <= i < n implies wf_block(#[trigger] post.body(i)) by {
        assert(post.body(i) == pre.body(i));
        assert(wf_block(pre.body(i)));
    }
    assert forall|i: int| 0 <= i < n implies (#[trigger] post.hdr(i)) == header_of(
        post.body(i),
    ) by {
        assert(post.body(i) == pre.body(i));
        assert(post.hdr(i) == pre.hdr(i));
        assert(pre.hdr(i) == header_of(pre.body(i)));
    }
    assert forall|i: int, j: int| 0 <= i < j < n implies post.hdr(i).bsh != post.hdr(j).bsh by {
        assert(post.hdr(i) == pre.hdr(i));
        assert(post.hdr(j) == pre.hdr(j));
    }
    assert forall|a: int| 0 <= a < new_chain.len() implies (#[trigger] new_chain[a] as int) < n by {
        if a < keep {
            assert(new_chain[a] == pre.lc_chain@[a]);
            assert(pre.lc_chain@.contains(pre.lc_chain@[a]));
        } else {
            assert(new_chain[a] == path[a - keep]);
        }
    }
    assert forall|a: int, b: int|
        0 <= a < b < new_chain.len() implies new_chain[a] != new_chain[b] by {
        if b < keep {
            assert(new_chain[a] == pre.lc_chain@[a]);
            assert(new_chain[b] == pre.lc_chain@[b]);
        } else if a < keep {
            assert(new_chain[a] == pre.lc_chain@[a]);
            assert(new_chain[b] == path[b - keep]);
            assert(!pre.lc_flags@[path[b - keep] as int]);
            assert(pre.lc_flags@[pre.lc_chain@[a] as int]) by {
                assert(pre.lc_chain@.contains(pre.lc_chain@[a]));
            }
        } else {
            assert(new_chain[a] == path[a - keep]);
            assert(new_chain[b] == path[b - keep]);
        }
    }
    assert forall|a: int| 1 <= a < new_chain.len() implies canonical_linked(
        post.body(new_chain[a - 1] as int),
        #[trigger] post.body(new_chain[a] as int),
    ) by {
        assert(post.body(new_chain[a] as int) == pre.body(new_chain[a] as int));
        assert(post.body(new_chain[a - 1] as int) == pre.body(new_chain[a - 1] as int));
        if a < keep {
            assert(new_chain[a] == pre.lc_chain@[a] && new_chain[a - 1] == pre.lc_chain@[a - 1]);
            assert(canonical_linked(
                pre.body(pre.lc_chain@[a - 1] as int),
                pre.body(pre.lc_chain@[a] as int),
            ));
        } else if a == keep {
            assert(new_chain[a] == path[0]);
            assert(new_chain[a - 1] == pre.lc_chain@[a - 1]);
            assert(canonical_linked(
                pre.body(pre.lc_chain@[keep - 1] as int),
                pre.body(path[0] as int),
            ));
        } else {
            assert(new_chain[a] == path[a - keep]);
            assert(new_chain[a - 1] == path[a - keep - 1]);
            assert(canonical_linked(
                pre.body(path[a - keep - 1] as int),
                pre.body(path[a - keep] as int),
            ));
        }
    }
    // the first canonical block keeps a positive id
    if keep > 0 {
        assert(new_chain[0] == pre.lc_chain@[0]);
        assert(pre.lc_pos_set);
        assert(pre.body(pre.lc_chain@[0] as int).body.id >= 1);
    } else {
        assert(new_chain[0] == path[0]);
    }
    assert(post.body(new_chain[0] as int) == pre.body(new_chain[0] as int));
    assert(post.body(post.lc_chain@[0] as int).body.id >= 1);
    // tip fields
    assert(new_chain.last() == path.last());
    assert(post.lc_pos == post.lc_chain@.last());
    assert(post.hdr(post.lc_pos as int) == pre.hdr(path.last() as int));
    assert(n <= usize::MAX);
    assert(post.lc_chain@.len() > 0);
    assert(post.bodies@.len() == n);
    assert(post.lc_flags@.len() == n);
}

/// Indexing one more block — header, body and an unset flag — keeps the
/// blockchain well formed.
#[verifier::rlimit(100)]
#[verifier::spinoff_prover]
proof fn lemma_push_wf(pre: Blockchain, post: Blockchain, b: BlockView)
    requires
        pre.wf(),
        wf_block(b),
        !pre.is_indexed(bsh_of(b.body)),
        pre.chain_len() + 1 <= usize::MAX,
        post.index.blocks@.len() == pre.chain_len() + 1,
        forall|i: int| 0 <= i < pre.chain_len() ==> post.hdr(i) == pre.hdr(i),
        post.hdr(pre.chain_len()) == header_of(b),
        post.bodies@.len() == pre.chain_len() + 1,
        forall|i: int| 0 <= i < pre.chain_len() ==> post.body(i) == pre.body(i),
        post.body(pre.chain_len()) == b,
        post.lc_flags@ == pre.lc_flags@.push(false),
        post.lc_chain@ == pre.lc_chain@,
        post.lc_pos_set == pre.lc_pos_set,
        post.lc_pos == pre.lc_pos,
        post.last_bsh@ == pre.last_bsh@,
        post.last_bid == pre.last_bid,
        post.last_ts == pre.last_ts,
    ensures
        post.wf(),
{
    reveal(Blockchain::wf_links);
    reveal(Blockchain::wf_blocks);
    reveal(Blockchain::wf_canonical);
    let n = pre.chain_len();
    assert forall|i: int| 0 <= i < n + 1 implies wf_block(#[trigger] post.body(i)) by {
        if i < n {
            assert(post.body(i) == pre.body(i));
            assert(wf_block(pre.body(i)));
        }
    }
    assert forall|i: int| 0 <= i < n + 1 implies (#[trigger] post.hdr(i)) == header_of(
        post.body(i),
    ) by {
        if i < n {
            assert(pre.hdr(i) == header_of(pre.body(i)));
        }
    }
    assert forall|i: int, j: int| 0 <= i < j < n + 1 implies post.hdr(i).bsh != post.hdr(
        j,
    ).bsh by {
        if j < n {
            assert(pre.hdr(i).bsh != pre.hdr(j).bsh);
        } else {
            assert(post.hdr(j).bsh == bsh_of(b.body));
            assert(pre.hdr(i).bsh != bsh_of(b.body));
        }
    }
    assert forall|i: int|
        0 <= i < n + 1 implies ((#[trigger] post.lc_flags@[i]) <==> post.lc_chain@.contains(
        i as usize,
    )) by {
        if i < n {
            assert(post.lc_flags@[i] == pre.lc_flags@[i]);
        } else {
            assert(!post.lc_flags@[i]);
            if post.lc_chain@.contains(i as usize) {
                let w = choose|w: int|
                    0 <= w < post.lc_chain@.len() && post.lc_chain@[w] == i as usize;
                assert((pre.lc_chain@[w] as int) < n);
                assert(false);
            }
        }
    }
    assert forall|w: int|
        0 <= w < post.lc_chain@.len() implies (#[trigger] post.lc_chain@[w] as int) < n + 1 by {
        assert(pre.lc_chain@.contains(pre.lc_chain@[w]));
        assert((pre.lc_chain@[w] as int) < n);
    }
    if pre.lc_pos_set {
        assert(pre.lc_chain@.contains(pre.lc_chain@.last()));
        assert((pre.lc_pos as int) < n);
        assert(post.hdr(post.lc_pos as int) == pre.hdr(pre.lc_pos as int));
        assert(post.body(post.lc_chain@[0] as int) == pre.body(pre.lc_chain@[0] as int));
    }
    assert forall|a: int| 1 <= a < post.lc_chain@.len() implies canonical_linked(
        post.body(post.lc_chain@[a - 1] as int),
        #[trigger] post.body(post.lc_chain@[a] as int),
    ) by {
        assert(post.body(post.lc_chain@[a] as int) == pre.body(pre.lc_chain@[a] as int));
        assert(post.body(post.lc_chain@[a - 1] as int) == pre.body(pre.lc_chain@[a - 1] as int));
        assert(canonical_linked(
            pre.body(pre.lc_chain@[a - 1] as int),
            pre.body(pre.lc_chain@[a] as int),
        ));
    }
}

/// Whether `x` is among the entries of `v`.
pub fn vec_contains_usize(v: &Vec<usize>, x: usize) -> (r: bool)
    ensures
        r <==> v@.contains(x),
{
    let n = v.len();
    let mut i: usize = 0;
    while i < n
        invariant
            n == v@.len(),
            i <= n,
            forall|j: int| 0 <= j < i ==> v@[j] != x,
        decreases n - i,
    {
        if v[i] == x {
            return true;
        }
        i += 1;
    }
    false
}

/// Aggregate burned fees are never negative.
pub proof fn lemma_sum_bf_nonneg(bc: Blockchain, ps: Seq<usize>)
    ensures
        bc.sum_bf(ps) >= 0,
    decreases ps.len(),
{
    if ps.len() > 0 {
        lemma_sum_bf_nonneg(bc, ps.skip(1));
    }
}

/// The effect of applying one transaction: its outputs become known and
/// unspent, then its inputs are marked spent at `bid`.
pub open spec fn tx_wind(m: Map<Seq<u8>, int>, t: TransactionView, bid: u32) -> Map<Seq<u8>, int> {
    spend_all(spend_all(m, t.body.to, -1), t.body.from, bid as int)
}

/// The effect of undoing one transaction: its inputs become unspent again,
/// then its outputs are removed.
pub open spec fn tx_unwind(m: Map<Seq<u8>, int>, t: TransactionView) -> Map<Seq<u8>, int> {
    remove_all(spend_all(m, t.body.from, -1), t.body.to)
}

/// The effect of applying every transaction of a block, in order.
pub open spec fn wind_block_map(m: Map<Seq<u8>, int>, txs: Seq<TransactionView>, bid: u32) -> Map<
    Seq<u8>,
    int,
>
    decreases txs.len(),
{
    if txs.len() == 0 {
        m
    } else {
        wind_block_map(tx_wind(m, txs[0], bid), txs.skip(1), bid)
    }
}

/// The effect of undoing every transaction of a block, in order.
pub open spec fn unwind_block_map(m: Map<Seq<u8>, int>, txs: Seq<TransactionView>) -> Map<
    Seq<u8>,
    int,
>
    decreases txs.len(),
{
    if txs.len() == 0 {
        m
    } else {
        unwind_block_map(tx_unwind(m, txs[0]), txs.skip(1))
    }
}

/// The effect of applying a sequence of blocks, first to last.
pub open spec fn wind_blocks(m: Map<Seq<u8>, int>, bs: Seq<BlockView>) -> Map<Seq<u8>, int>
    decreases bs.len(),
{
    if bs.len() == 0 {
        m
    } else {
        wind_blocks(wind_block_map(m, bs[0].body.txs, bs[0].body.id), bs.skip(1))
    }
}

/// The effect of undoing a sequence of blocks, last back to first.
pub open spec fn unwind_blocks(m: Map<Seq<u8>, int>, bs: Seq<BlockView>) -> Map<Seq<u8>, int>
    decreases bs.len(),
{
    if bs.len() == 0 {
        m
    } else {
        unwind_blocks(unwind_block_map(m, bs.last().body.txs), bs.drop_last())
    }
}

/// Applying slips at value `v` keeps the index bounded by any bound that
/// covers `v`.
pub proof fn lemma_spend_all_bounded(m: Map<Seq<u8>, int>, ss: Seq<crate::slip::SlipView>, v: int, tip: int)
    requires
        utxo_bounded(m, tip),
        v == -1 || (1 <= v <= tip),
    ensures
        utxo_bounded(spend_all(m, ss, v), tip),
{
    crate::shashmap::lemma_spend_all_values(m, ss, v);
}

/// Removing slips keeps the index bounded.
pub proof fn lemma_remove_all_bounded(m: Map<Seq<u8>, int>, ss: Seq<crate::slip::SlipView>, tip: int)
    requires
        utxo_bounded(m, tip),
    ensures
        utxo_bounded(remove_all(m, ss), tip),
{
    crate::shashmap::lemma_remove_all_values(m, ss);
}

/// Applying a block with id `bid` keeps the index bounded by any bound
/// that covers `bid`.
pub proof fn lemma_wind_block_bounded(m: Map<Seq<u8>, int>, txs: Seq<TransactionView>, bid: u32, tip: int)
    requires
        utxo_bounded(m, tip),
        1 <= bid <= tip,
    ensures
        utxo_bounded(wind_block_map(m, txs, bid), tip),
    decreases txs.len(),
{
    if txs.len() > 0 {
        lemma_spend_all_bounded(m, txs[0].body.to, -1, tip);
        lemma_spend_all_bounded(spend_all(m, txs[0].body.to, -1), txs[0].body.from, bid as int, tip);
        lemma_wind_block_bounded(tx_wind(m, txs[0], bid), txs.skip(1), bid, tip);
    }
}

/// Undoing a block keeps the index bounded.
pub proof fn lemma_unwind_block_bounded(m: Map<Seq<u8>, int>, txs: Seq<TransactionView>, tip: int)
    requires
        utxo_bounded(m, tip),
    ensures
        utxo_bounded(unwind_block_map(m, txs), tip),
    decreases txs.len(),
{
    if txs.len() > 0 {
        lemma_spend_all_bounded(m, txs[0].body.from, -1, tip);
        lemma_remove_all_bounded(spend_all(m, txs[0].body.from, -1), txs[0].body.to, tip);
        lemma_unwind_block_bounded(tx_unwind(m, txs[0]), txs.skip(1), tip);
    }
}

/// Undoing a sequence of blocks keeps the index bounded.
pub proof fn lemma_unwind_blocks_bounded(m: Map<Seq<u8>, int>, bs: Seq<BlockView>, tip: int)
    requires
        utxo_bounded(m, tip),
    ensures
        utxo_bounded(unwind_blocks(m, bs), tip),
    decreases bs.len(),
{
    if bs.len() > 0 {
        lemma_unwind_block_bounded(m, bs.last().body.txs, tip);
        lemma_unwind_blocks_bounded(unwind_block_map(m, bs.last().body.txs), bs.drop_last(), tip);
    }
}

/// On the canonical chain the block ids grow one by one up to the tip, so
/// every canonical block's id is at most the tip id.
pub proof fn lemma_canonical_bids(bc: Blockchain, a: int)
    requires
        bc.wf(),
        bc.lc_pos_set,
        0 <= a < bc.lc_chain@.len(),
    ensures
        bc.hdr(bc.lc_chain@[a] as int).bid <= bc.last_bid,
        bc.hdr(bc.lc_chain@[a] as int).bid == bc.body(bc.lc_chain@[a] as int).body.id,
    decreases bc.lc_chain@.len() - a,
{
    reveal(Blockchain::wf_links);
    reveal(Blockchain::wf_blocks);
    reveal(Blockchain::wf_canonical);
    assert(bc.lc_chain@.contains(bc.lc_chain@[a]));
    assert(bc.hdr(bc.lc_chain@[a] as int) == header_of(bc.body(bc.lc_chain@[a] as int)));
    if a == bc.lc_chain@.len() - 1 {
        assert(bc.lc_chain@[a] == bc.lc_chain@.last());
    } else {
        lemma_canonical_bids(bc, a + 1);
        assert(canonical_linked(
            bc.body(bc.lc_chain@[a] as int),
            bc.body(bc.lc_chain@[a + 1] as int),
        ));
    }
}

/// A bound on the utxo index also holds for any larger bound.
pub proof fn lemma_bounded_weaken(m: Map<Seq<u8>, int>, t1: int, t2: int)
    requires
        utxo_bounded(m, t1),
        t1 <= t2,
    ensures
        utxo_bounded(m, t2),
{
}

/// Applies every transaction of `blk` to the utxo index: outputs become
/// known and unspent, inputs are spent at the block's id.
pub fn wind_block_txs(shashmap: &mut Shashmap, blk: &Block)
    requires
        old(shashmap).wf(),
    ensures
        final(shashmap).wf(),
        final(shashmap)@ == wind_block_map(old(shashmap)@, blk@.body.txs, blk@.body.id),
{
    let ghost txs = blk@.body.txs;
    let bid = blk.body.id;
    let n = blk.body.txs.len();
    let mut i: usize = 0;
    proof {
        assert(txs.skip(0) =~= txs);
    }
    while i < n
        invariant
            n == blk.body.txs@.len(),
            txs == blk@.body.txs,
            txs.len() == n,
            bid == blk@.body.id,
            i <= n,
            shashmap.wf(),
            wind_block_map(shashmap@, txs.skip(i as int), bid) == wind_block_map(
                old(shashmap)@,
                txs,
                bid,
            ),
        decreases n - i,
    {
        proof {
            assert(txs.skip(i as int)[0] == txs[i as int]);
            assert(txs.skip(i as int).skip(1) =~= txs.skip(i + 1));
            assert(blk@.body.txs[i as int] == blk.body.txs@[i as int]@);
        }
        let tx = &blk.body.txs[i];
        shashmap.insert_new_transaction(tx);
        shashmap.spend_transaction(tx, bid);
        i += 1;
    }
    proof {
        assert(txs.skip(n as int) =~= Seq::<TransactionView>::empty());
    }
}

/// Undoes every transaction of `blk` on the utxo index: inputs become
/// unspent again, outputs cease to exist.
pub fn unwind_block_txs(shashmap: &mut Shashmap, blk: &Block)
    requires
        old(shashmap).wf(),
    ensures
        final(shashmap).wf(),
        final(shashmap)@ == unwind_block_map(old(shashmap)@, blk@.body.txs),
{
    let ghost txs = blk@.body.txs;
    let n = blk.body.txs.len();
    let mut i: usize = 0;
    proof {
        assert(txs.skip(0) =~= txs);
    }
    while i < n
        invariant
            n == blk.body.txs@.len(),
            txs == blk@.body.txs,
            txs.len() == n,
            i <= n,
            shashmap.wf(),
            unwind_block_map(shashmap@, txs.skip(i as int)) == unwind_block_map(
                old(shashmap)@,
                txs,
            ),
        decreases n - i,
    {
        proof {
            assert(txs.skip(i as int)[0] == txs[i as int]);
            assert(txs.skip(i as int).skip(1) =~= txs.skip(i + 1));
            assert(blk@.body.txs[i as int] == blk.body.txs@[i as int]@);
        }
        let tx = &blk.body.txs[i];
        shashmap.unspend_transaction(tx);
        i += 1;
    }
    proof {
        assert(txs.skip(n as int) =~= Seq::<TransactionView>::empty());
    }
}

impl Blockchain {
    /// The block views at the given index positions.
    pub open spec fn bodies_at(self, ps: Seq<usize>) -> Seq<BlockView> {
        ps.map_values(|p: usize| self.bodies@[p as int]@)
    }

    /// Undoes the blocks at `positions`, last back to first.
    pub fn unwind_positions(&self, shashmap: &mut Shashmap, positions: &Vec<usize>)
        requires
            old(shashmap).wf(),
            forall|j: int|
                0 <= j < positions@.len() ==> (#[trigger] positions@[j] as int)
                    < self.bodies@.len(),
        ensures
            final(shashmap).wf(),
            final(shashmap)@ == unwind_blocks(old(shashmap)@, self.bodies_at(positions@)),
    {
        let ghost views = self.bodies_at(positions@);
        let n = positions.len();
        let mut i: usize = n;
        proof {
            assert(views.take(n as int) =~= views);
        }
        while i > 0
            invariant
                n == positions@.len(),
                views == self.bodies_at(positions@),
                views.len() == n,
                forall|j: int| 0 <= j < n ==> (#[trigger] positions@[j] as int) < self.bodies@.len(),
                i <= n,
                shashmap.wf(),
                unwind_blocks(shashmap@, views.take(i as int)) == unwind_blocks(
                    old(shashmap)@,
                    views,
                ),
            decreases i,
        {
            proof {
                assert(views.take(i as int).last() == views[i - 1]);
                assert(views.take(i as int).drop_last() =~= views.take(i - 1));
                assert(views[i - 1] == self.bodies@[positions@[i - 1] as int]@);
            }
            let p = positions[i - 1];
            unwind_block_txs(shashmap, &self.bodies[p]);
            i -= 1;
        }
        proof {
            assert(views.take(0) =~= Seq::<BlockView>::empty());
        }
    }

    /// The aggregate burned fee over the blocks at `ps`.
    pub open spec fn sum_bf(self, ps: Seq<usize>) -> int
        decreases ps.len(),
    {
        if ps.len() == 0 {
            0
        } else {
            self.bodies@[ps[0] as int]@.body.bf.current + self.sum_bf(ps.skip(1))
        }
    }

    /// The aggregate burned fee over the blocks at `ps`, exact in 128
    /// bits.
    fn sum_bf_over(&self, ps: &Vec<usize>) -> (r: u128)
        requires
            forall|j: int| 0 <= j < ps@.len() ==> (#[trigger] ps@[j] as int) < self.bodies@.len(),
        ensures
            r as int == self.sum_bf(ps@),
    {
        let n = ps.len();
        let mut acc: u128 = 0;
        let mut i: usize = 0;
        proof {
            assert(ps@.skip(0) =~= ps@);
            lemma_sum_bf_nonneg(*self, ps@);
        }
        while i < n
            invariant
                n == ps@.len(),
                i <= n,
                forall|j: int| 0 <= j < n ==> (#[trigger] ps@[j] as int) < self.bodies@.len(),
                acc + self.sum_bf(ps@.skip(i as int)) == self.sum_bf(ps@),
                acc <= i * (u64::MAX as int),
            decreases n - i,
        {
            proof {
                assert(ps@.skip(i as int)[0] == ps@[i as int]);
                assert(ps@.skip(i as int).skip(1) =~= ps@.skip(i + 1));
                lemma_sum_bf_nonneg(*self, ps@.skip(i + 1));
                assert(i * (u64::MAX as int) + (u64::MAX as int) == (i + 1) * (u64::MAX as int))
                    by (nonlinear_arith);
                assert((i + 1) * (u64::MAX as int) < u128::MAX) by (nonlinear_arith)
                    requires
                        0 <= i < usize::MAX,
                ;
            }
            acc = acc + (self.bodies[ps[i]].body.bf.current as u128);
            i += 1;
        }
        proof {
            assert(ps@.skip(n as int) =~= Seq::<usize>::empty());
        }
        acc
    }

    /// The canonical positions above `keep`, in order.
    fn lc_suffix(&self, keep: usize) -> (r: Vec<usize>)
        requires
            keep <= self.lc_chain@.len(),
        ensures
            r@ == self.lc_chain@.skip(keep as int),
    {
        let n = self.lc_chain.len();
        let mut out: Vec<usize> = Vec::new();
        let mut i: usize = keep;
        while i < n
            invariant
                n == self.lc_chain@.len(),
                keep <= i <= n,
                out@ == self.lc_chain@.subrange(keep as int, i as int),
            decreases n - i,
        {
            out.push(self.lc_chain[i]);
            i += 1;
            assert(out@ =~= self.lc_chain@.subrange(keep as int, i as int));
        }
        proof {
            assert(self.lc_chain@.subrange(keep as int, n as int) =~= self.lc_chain@.skip(
                keep as int,
            ));
        }
        out
    }

    /// The place of canonical position `q` within the canonical chain.
    fn find_lc_index(&self, q: usize) -> (r: usize)
        requires
            self.lc_chain@.contains(q),
        ensures
            (r as int) < self.lc_chain@.len(),
            self.lc_chain@[r as int] == q,
    {
        let n = self.lc_chain.len();
        let mut i: usize = 0;
        while i < n
            invariant
                n == self.lc_chain@.len(),
                i <= n,
                self.lc_chain@.contains(q),
                forall|j: int| 0 <= j < i ==> self.lc_chain@[j] != q,
            decreases n - i,
        {
            if self.lc_chain[i] == q {
                return i;
            }
            i += 1;
        }
        proof {
            let w = choose|w: int| 0 <= w < self.lc_chain@.len() && self.lc_chain@[w] == q;
            assert(false);
        }
        0
    }

    /// Walks the hash links back from the unflagged block at `pos` until
    /// it meets the canonical chain. Returns the connecting path, oldest
    /// first and ending at `pos`, and the canonical index of the shared
    /// ancestor; or nothing when the block is disconnected.
    fn find_ancestor_path(&self, pos: usize) -> (r: Option<(Vec<usize>, usize)>)
        requires
            self.wf(),
            (pos as int) < self.chain_len(),
            !self.lc_flags@[pos as int],
        ensures
            match r {
                Some((path, a)) => {
                    &&& (a as int) < self.lc_chain@.len()
                    &&& path@.len() >= 1
                    &&& path@.last() == pos
                    &&& forall|j: int|
                        0 <= j < path@.len() ==> (#[trigger] path@[j] as int) < self.chain_len()
                            && !self.lc_flags@[path@[j] as int]
                    &&& forall|j: int, k: int| 0 <= j < k < path@.len() ==> path@[j] != path@[k]
                    &&& self.body(path@[0] as int).body.prevbsh == self.hdr(
                        self.lc_chain@[a as int] as int,
                    ).bsh
                    &&& forall|j: int|
                        1 <= j < path@.len() ==> self.body(#[trigger] path@[j] as int).body.prevbsh
                            == self.hdr(path@[j - 1] as int).bsh
                },
                None => true,
            },
    {
        proof {
            reveal(Blockchain::wf_canonical);
            reveal(Blockchain::wf_blocks);
        }
        let n = self.index.blocks.len();
        let mut path: Vec<usize> = Vec::new();
        path.push(pos);
        let mut cur: usize = pos;
        let mut fuel: usize = n;
        while fuel > 0
            invariant
                n == self.index.blocks@.len(),
                self.wf(),
                (pos as int) < self.chain_len(),
                path@.len() >= 1,
                path@.last() == pos,
                path@[0] == cur,
                forall|j: int|
                    0 <= j < path@.len() ==> (#[trigger] path@[j] as int) < self.chain_len()
                        && !self.lc_flags@[path@[j] as int],
                forall|j: int, k: int| 0 <= j < k < path@.len() ==> path@[j] != path@[k],
                forall|j: int|
                    1 <= j < path@.len() ==> self.body(#[trigger] path@[j] as int).body.prevbsh
                        == self.hdr(path@[j - 1] as int).bsh,
            decreases fuel,
        {
            proof {
                reveal(Blockchain::wf_canonical);
                reveal(Blockchain::wf_blocks);
            }
            let prevb = &self.bodies[cur].body.prevbsh;
            match self.find_pos_by_bsh(prevb.as_slice()) {
                None => {
                    return None;
                },
                Some(q) => {
                    if self.lc_flags[q] {
                        assert(self.lc_chain@.contains(q));
                        let a = self.find_lc_index(q);
                        return Some((path, a));
                    }
                    if vec_contains_usize(&path, q) {
                        return None;
                    }
                    let ghost before = path@;
                    path.insert(0, q);
                    proof {
                        assert(path@ =~= seq![q] + before);
                        assert(path@.last() == before.last());
                        assert(forall|j: int| 1 <= j < path@.len() ==> path@[j] == before[j - 1]);
                    }
                    cur = q;
                },
            }
            fuel -= 1;
        }
        None
    }

    /// Whether every block of `path` validates in turn, each against its
    /// predecessor's header, in the utxo context that winding the blocks
    /// before it produces.
    pub open spec fn path_valid_in(
        self,
        prev_pos: Option<usize>,
        path: Seq<usize>,
        m: Map<Seq<u8>, int>,
    ) -> bool
        decreases path.len(),
    {
        if path.len() == 0 {
            true
        } else {
            block_valid(
                self.body(path[0] as int),
                match prev_pos {
                    Some(q) => Some(self.hdr(q as int)),
                    None => None::<BlockHeaderView>,
                },
                m,
            ) && self.path_valid_in(
                Some(path[0]),
                path.skip(1),
                wind_block_map(m, self.body(path[0] as int).body.txs, self.body(path[0] as int).body.id),
            )
        }
    }

    /// Winding one more block extends the wind of a prefix.
    proof fn lemma_wind_blocks_snoc(m: Map<Seq<u8>, int>, bs: Seq<BlockView>, i: int)
        requires
            0 < i <= bs.len(),
        ensures
            wind_blocks(m, bs.take(i)) == wind_block_map(
                wind_blocks(m, bs.take(i - 1)),
                bs[i - 1].body.txs,
                bs[i - 1].body.id,
            ),
        decreases i,
    {
        if i == 1 {
            let t1 = bs.take(1);
            assert(t1.len() == 1);
            assert(t1[0] == bs[0]);
            assert(t1.skip(1) =~= Seq::<BlockView>::empty());
            assert(wind_blocks(m, t1) == wind_blocks(
                wind_block_map(m, t1[0].body.txs, t1[0].body.id),
                t1.skip(1),
            ));
            assert(wind_blocks(wind_block_map(m, bs[0].body.txs, bs[0].body.id), Seq::<
                BlockView,
            >::empty()) == wind_block_map(m, bs[0].body.txs, bs[0].body.id));
            assert(bs.take(0) =~= Seq::<BlockView>::empty());
            assert(wind_blocks(m, bs.take(0)) == m);
        } else {
            let m1 = wind_block_map(m, bs[0].body.txs, bs[0].body.id);
            Self::lemma_wind_blocks_snoc(m1, bs.skip(1), i - 1);
            assert(bs.take(i)[0] == bs[0]);
            assert(bs.take(i).skip(1) =~= bs.skip(1).take(i - 1));
            assert(bs.take(i - 1)[0] == bs[0]);
            assert(bs.take(i - 1).skip(1) =~= bs.skip(1).take(i - 2));
            assert(bs.skip(1)[i - 2] == bs[i - 1]);
            assert(wind_blocks(m, bs.take(i)) == wind_blocks(m1, bs.skip(1).take(i - 1)));
            assert(wind_blocks(m, bs.take(i - 1)) == wind_blocks(m1, bs.skip(1).take(i - 2)));
        }
    }

    /// Applies the blocks at `path` to the utxo index in order, validating
    /// each against its predecessor before applying it. Returns whether
    /// every block validated; on failure the index is left mid-flight and
    /// the caller restores its snapshot.
    #[verifier::rlimit(100)]
    #[verifier::spinoff_prover]
    fn wind_new_chain(
        &self,
        shashmap: &mut Shashmap,
        path: &Vec<usize>,
        prev_pos: Option<usize>,
        Ghost(tip): Ghost<int>,
    ) -> (ok: bool)
        requires
            self.wf(),
            old(shashmap).wf(),
            utxo_bounded(old(shashmap)@, tip),
            tip >= 0,
            path@.len() >= 1,
            forall|j: int| 0 <= j < path@.len() ==> (#[trigger] path@[j] as int) < self.chain_len(),
            match prev_pos {
                Some(q) => (q as int) < self.chain_len() && self.hdr(q as int).bid <= tip,
                None => true,
            },
        ensures
            final(shashmap).wf(),
            ok ==> {
                &&& final(shashmap)@ == wind_blocks(old(shashmap)@, self.bodies_at(path@))
                &&& forall|j: int|
                    1 <= j < path@.len() ==> canonical_linked(
                        self.body(path@[j - 1] as int),
                        #[trigger] self.body(path@[j] as int),
                    )
                &&& match prev_pos {
                    Some(q) => canonical_linked(self.body(q as int), self.body(path@[0] as int)),
                    None => true,
                }
                &&& self.body(path@[0] as int).body.id >= 1
                &&& utxo_bounded(
                    final(shashmap)@,
                    if tip >= self.body(path@.last() as int).body.id {
                        tip
                    } else {
                        self.body(path@.last() as int).body.id as int
                    },
                )
            },
            ok == self.path_valid_in(prev_pos, path@, old(shashmap)@),
    {
        proof {
            reveal(Blockchain::wf_blocks);
        }
        let ghost views = self.bodies_at(path@);
        let n = path.len();
        let mut i: usize = 0;
        proof {
            assert(views.take(0) =~= Seq::<BlockView>::empty());
            assert(path@.skip(0) =~= path@);
        }
        while i < n
            invariant
                self.wf(),
                n == path@.len(),
                n >= 1,
                views == self.bodies_at(path@),
                views.len() == n,
                forall|j: int| 0 <= j < n ==> (#[trigger] path@[j] as int) < self.chain_len(),
                forall|j: int| 0 <= j < n ==> views[j] == self.body(path@[j] as int),
                match prev_pos {
                    Some(q) => (q as int) < self.chain_len() && self.hdr(q as int).bid <= tip,
                    None => true,
                },
                tip >= 0,
                i <= n,
                shashmap.wf(),
                shashmap@ == wind_blocks(old(shashmap)@, views.take(i as int)),
                forall|j: int|
                    1 <= j < i ==> canonical_linked(
                        self.body(path@[j - 1] as int),
                        #[trigger] self.body(path@[j] as int),
                    ),
                i > 0 ==> match prev_pos {
                    Some(q) => canonical_linked(self.body(q as int), self.body(path@[0] as int)),
                    None => true,
                },
                i > 0 ==> self.body(path@[0] as int).body.id >= 1,
                self.path_valid_in(
                    if i == 0 {
                        prev_pos
                    } else {
                        Some(path@[i - 1])
                    },
                    path@.skip(i as int),
                    shashmap@,
                ) == self.path_valid_in(prev_pos, path@, old(shashmap)@),
                utxo_bounded(
                    shashmap@,
                    if i == 0 {
                        tip
                    } else if tip >= self.body(path@[i - 1] as int).body.id {
                        tip
                    } else {
                        self.body(path@[i - 1] as int).body.id as int
                    },
                ),
            decreases n - i,
        {
            proof {
                reveal(Blockchain::wf_blocks);
            }
            let p = path[i];
            let prev_hdr: Option<&BlockHeader> = if i == 0 {
                match prev_pos {
                    Some(q) => Some(&self.index.blocks[q]),
                    None => None,
                }
            } else {
                Some(&self.index.blocks[path[i - 1]])
            };
            let blk = &self.bodies[p];
            assert(wf_block(self.body(p as int)));
            assert(blk@ == self.body(p as int));
            if !self.validate_block(blk, prev_hdr, shashmap) {
                proof {
                    let rem = path@.skip(i as int);
                    assert(rem[0] == path@[i as int]);
                    assert(!self.path_valid_in(
                        if i == 0 {
                            prev_pos
                        } else {
                            Some(path@[i - 1])
                        },
                        rem,
                        shashmap@,
                    ));
                }
                return false;
            }
            let ghost pre = shashmap@;
            let ghost bound_pre: int = if i == 0 {
                tip
            } else if tip >= self.body(path@[i - 1] as int).body.id {
                tip
            } else {
                self.body(path@[i - 1] as int).body.id as int
            };
            let ghost bid = blk@.body.id;
            proof {
                // validation pins the id above the running bound's sources
                if i > 0 {
                    assert(self.hdr(path@[i - 1] as int) == header_of(
                        self.body(path@[i - 1] as int),
                    ));
                }
                let bound_post: int = if tip >= bid {
                    tip
                } else {
                    bid as int
                };
                assert(bound_pre <= bound_post);
                lemma_bounded_weaken(pre, bound_pre, bound_post);
                assert(1 <= bid);
                assert(bid <= bound_post);
                lemma_wind_block_bounded(pre, blk@.body.txs, blk@.body.id, bound_post);
            }
            wind_block_txs(shashmap, blk);
            i += 1;
            proof {
                Self::lemma_wind_blocks_snoc(old(shashmap)@, views, i as int);
                assert(views[i - 1] == blk@);
                // hash linkage follows from the validated header equality
                if i - 1 == 0 {
                    match prev_pos {
                        Some(q) => {
                            assert(self.hdr(q as int) == header_of(self.body(q as int)));
                            assert(canonical_linked(self.body(q as int), blk@));
                        },
                        None => {},
                    }
                } else {
                    assert(canonical_linked(self.body(path@[i - 2] as int), blk@));
                }
                let rem = path@.skip(i - 1);
                assert(rem[0] == path@[i - 1]);
                assert(rem.skip(1) =~= path@.skip(i as int));
                assert(self.path_valid_in(
                    if i - 1 == 0 {
                        prev_pos
                    } else {
                        Some(path@[i - 2])
                    },
                    rem,
                    pre,
                ) == self.path_valid_in(Some(path@[i - 1]), path@.skip(i as int), shashmap@));
            }
        }
        proof {
            assert(views.take(n as int) =~= views);
            assert(path@.skip(n as int) =~= Seq::<usize>::empty());
        }
        true
    }

    /// Makes `old lc_chain[..keep] + path` the canonical chain: clears the
    /// flags of the dropped canonical suffix, flags the new path, and
    /// moves the tip bookkeeping to the last block of `path`.
    #[verifier::rlimit(100)]
    #[verifier::spinoff_prover]
    fn commit_new_chain(&mut self, keep: usize, path: &Vec<usize>)
        requires
            old(self).wf(),
            keep <= old(self).lc_chain@.len(),
            path@.len() >= 1,
            forall|j: int|
                0 <= j < path@.len() ==> (#[trigger] path@[j] as int) < old(self).chain_len()
                    && !old(self).lc_flags@[path@[j] as int],
            forall|j: int, k: int| 0 <= j < k < path@.len() ==> path@[j] != path@[k],
            forall|j: int|
                1 <= j < path@.len() ==> canonical_linked(
                    old(self).body(path@[j - 1] as int),
                    #[trigger] old(self).body(path@[j] as int),
                ),
            keep > 0 ==> canonical_linked(
                old(self).body(old(self).lc_chain@[keep - 1] as int),
                old(self).body(path@[0] as int),
            ),
            keep == 0 ==> old(self).body(path@[0] as int).body.id >= 1,
        ensures
            final(self).wf(),
            final(self).lc_chain@ == old(self).lc_chain@.take(keep as int) + path@,
            final(self).index.blocks@ == old(self).index.blocks@,
            final(self).bodies@ == old(self).bodies@,
            final(self).lc_pos_set,
            final(self).lc_pos == path@.last(),
            final(self).last_bid == old(self).hdr(path@.last() as int).bid,
            final(self).last_bsh@ == old(self).hdr(path@.last() as int).bsh,
            final(self).genesis_ts == old(self).genesis_ts,
            final(self).genesis_bid == old(self).genesis_bid,
            final(self).genesis_period == old(self).genesis_period,
            final(self).lowest_acceptable_ts == old(self).lowest_acceptable_ts,
            final(self).lowest_acceptable_bsh@ == old(self).lowest_acceptable_bsh@,
            final(self).lowest_acceptable_bid == old(self).lowest_acceptable_bid,
    {
        let ghost old_lc = self.lc_chain@;
        let suffix = self.lc_suffix(keep);
        self.lc_chain.truncate(keep);
        proof {
            assert(self.lc_chain@ == old_lc.take(keep as int));
        }
        // clear the flags of the dropped suffix
        proof {
            reveal(Blockchain::wf_canonical);
            let tk = old_lc.take(keep as int);
            let sfx = old_lc.skip(keep as int);
            assert(sfx.skip(0) =~= sfx);
            assert forall|p: int|
                0 <= p < self.lc_flags@.len() implies ((#[trigger] self.lc_flags@[p]) <==> (
            tk.contains(p as usize) || sfx.contains(p as usize))) by {
                assert(self.lc_flags@[p] <==> old_lc.contains(p as usize));
                if old_lc.contains(p as usize) {
                    let w = choose|w: int| 0 <= w < old_lc.len() && old_lc[w] == p as usize;
                    if w < keep {
                        assert(tk[w] == p as usize);
                        assert(tk.contains(p as usize));
                    } else {
                        assert(sfx[w - keep] == p as usize);
                        assert(sfx.contains(p as usize));
                    }
                }
                if tk.contains(p as usize) {
                    let w = choose|w: int| 0 <= w < tk.len() && tk[w] == p as usize;
                    assert(old_lc[w] == p as usize);
                    assert(old_lc.contains(p as usize));
                }
                if sfx.contains(p as usize) {
                    let w = choose|w: int| 0 <= w < sfx.len() && sfx[w] == p as usize;
                    assert(old_lc[keep + w] == p as usize);
                    assert(old_lc.contains(p as usize));
                }
            }
        }
        let sn = suffix.len();
        let mut i: usize = 0;
        while i < sn
            invariant
                self.bodies@ == old(self).bodies@,
                self.index.blocks@ == old(self).index.blocks@,
                self.lc_flags@.len() == old(self).lc_flags@.len(),
                self.genesis_ts == old(self).genesis_ts,
                self.genesis_bid == old(self).genesis_bid,
                self.genesis_period == old(self).genesis_period,
                self.lowest_acceptable_ts == old(self).lowest_acceptable_ts,
                self.lowest_acceptable_bsh@ == old(self).lowest_acceptable_bsh@,
                self.lowest_acceptable_bid == old(self).lowest_acceptable_bid,
                self.lc_chain@ == old_lc.take(keep as int),
                old_lc == old(self).lc_chain@,
                keep <= old_lc.len(),
                suffix@ == old_lc.skip(keep as int),
                sn == suffix@.len(),
                i <= sn,
                old(self).wf(),
                forall|p: int|
                    0 <= p < self.lc_flags@.len() ==> ((#[trigger] self.lc_flags@[p])
                        <==> (old_lc.take(keep as int).contains(p as usize) || old_lc.skip(
                        keep as int,
                    ).skip(i as int).contains(p as usize))),
            decreases sn - i,
        {
            let p = suffix[i];
            proof {
                reveal(Blockchain::wf_canonical);
                assert(old_lc.skip(keep as int)[i as int] == old_lc[keep + i]);
                assert(0 <= keep + i < old_lc.len());
                assert((old_lc[keep + i] as int) < old(self).chain_len());
            }
            self.lc_flags.set(p, false);
            i += 1;
            proof {
                let sfx = old_lc.skip(keep as int);
                assert forall|q: int|
                    0 <= q < self.lc_flags@.len() implies ((#[trigger] self.lc_flags@[q])
                    <==> (old_lc.take(keep as int).contains(q as usize) || sfx.skip(
                    i as int,
                ).contains(q as usize))) by {
                    if q == p as int {
                        // p was dropped: it is in neither part any more
                        assert(!self.lc_flags@[q]);
                        if old_lc.take(keep as int).contains(q as usize) {
                            let w = choose|w: int|
                                0 <= w < keep && old_lc.take(keep as int)[w] == q as usize;
                            assert(old_lc[w] == q as usize);
                            assert(old_lc[keep + i - 1] == q as usize);
                            assert(false);
                        }
                        if sfx.skip(i as int).contains(q as usize) {
                            let w = choose|w: int|
                                0 <= w < sfx.skip(i as int).len() && sfx.skip(i as int)[w]
                                    == q as usize;
                            assert(old_lc[keep + i + w] == q as usize);
                            assert(old_lc[keep + i - 1] == q as usize);
                            assert(false);
                        }
                    } else {
                        assert(self.lc_flags@[q] == old(self).lc_flags@[q] || true);
                        if sfx.skip(i - 1).contains(q as usize) {
                            let w = choose|w: int|
                                0 <= w < sfx.skip(i - 1).len() && #[trigger] sfx.skip(i - 1)[w]
                                    == q as usize;
                            if w == 0 {
                                assert(sfx.skip(i - 1)[0] == old_lc[keep + i - 1]);
                                assert(q == p as int);
                            } else {
                                assert(sfx.skip(i as int)[w - 1] == sfx.skip(i - 1)[w]);
                                assert(sfx.skip(i as int).contains(q as usize));
                            }
                        }
                        if sfx.skip(i as int).contains(q as usize) {
                            let w = choose|w: int|
                                0 <= w < sfx.skip(i as int).len() && sfx.skip(i as int)[w]
                                    == q as usize;
                            assert(sfx.skip(i - 1)[w + 1] == sfx.skip(i as int)[w]);
                            assert(sfx.skip(i - 1).contains(q as usize));
                        }
                    }
                }
            }
        }
        proof {
            assert(old_lc.skip(keep as int).skip(sn as int) =~= Seq::<usize>::empty());
            assert(forall|p: int|
                0 <= p < self.lc_flags@.len() ==> ((#[trigger] self.lc_flags@[p])
                    <==> old_lc.take(keep as int).contains(p as usize)));
        }
        // flag the new path and append it to the canonical chain
        let pn = path.len();
        let mut j: usize = 0;
        while j < pn
            invariant
                self.bodies@ == old(self).bodies@,
                self.index.blocks@ == old(self).index.blocks@,
                self.lc_flags@.len() == old(self).lc_flags@.len(),
                self.genesis_ts == old(self).genesis_ts,
                self.genesis_bid == old(self).genesis_bid,
                self.genesis_period == old(self).genesis_period,
                self.lowest_acceptable_ts == old(self).lowest_acceptable_ts,
                self.lowest_acceptable_bsh@ == old(self).lowest_acceptable_bsh@,
                self.lowest_acceptable_bid == old(self).lowest_acceptable_bid,
                old_lc == old(self).lc_chain@,
                keep <= old_lc.len(),
                pn == path@.len(),
                j <= pn,
                old(self).wf(),
                forall|k: int|
                    0 <= k < pn ==> (#[trigger] path@[k] as int) < old(self).chain_len()
                        && !old(self).lc_flags@[path@[k] as int],
                forall|k: int, l: int| 0 <= k < l < pn ==> path@[k] != path@[l],
                self.lc_chain@ == old_lc.take(keep as int) + path@.take(j as int),
                forall|p: int|
                    0 <= p < self.lc_flags@.len() ==> ((#[trigger] self.lc_flags@[p])
                        <==> self.lc_chain@.contains(p as usize)),
            decreases pn - j,
        {
            proof {
                reveal(Blockchain::wf_canonical);
            }
            let p = path[j];
            self.lc_flags.set(p, true);
            self.lc_chain.push(p);
            j += 1;
            proof {
                assert(self.lc_chain@ =~= old_lc.take(keep as int) + path@.take(j as int));
                assert forall|q: int|
                    0 <= q < self.lc_flags@.len() implies ((#[trigger] self.lc_flags@[q])
                    <==> self.lc_chain@.contains(q as usize)) by {
                    let cur = self.lc_chain@;
                    let prev_chain = old_lc.take(keep as int) + path@.take(j - 1);
                    assert(cur == prev_chain.push(p));
                    if q == p as int {
                        assert(cur.last() == p);
                        assert(cur.contains(q as usize));
                        assert(self.lc_flags@[q]);
                    } else {
                        if cur.contains(q as usize) {
                            let w = choose|w: int| 0 <= w < cur.len() && cur[w] == q as usize;
                            assert(w < prev_chain.len());
                            assert(prev_chain[w] == q as usize);
                            assert(prev_chain.contains(q as usize));
                        }
                        if prev_chain.contains(q as usize) {
                            let w = choose|w: int|
                                0 <= w < prev_chain.len() && prev_chain[w] == q as usize;
                            assert(cur[w] == q as usize);
                            assert(cur.contains(q as usize));
                        }
                    }
                }
            }
        }
        proof {
            assert(path@.take(pn as int) =~= path@);
        }
        // move the tip bookkeeping
        let tip_pos = path[pn - 1];
        self.lc_pos = tip_pos;
        self.lc_pos_set = true;
        self.last_bsh = crate::bytes::copy_bytes(&self.index.blocks[tip_pos].bsh);
        self.last_bid = self.index.blocks[tip_pos].bid;
        self.last_ts = self.index.blocks[tip_pos].ts;
        proof {
            lemma_commit_wf(*old(self), *self, keep as int, path@);
            assert(self.lc_chain@ == old_lc.take(keep as int) + path@);
        }
    }

    /// Admission checks, boundary bookkeeping and indexing of one
    /// candidate block. A malformed, pre-genesis or already indexed block
    /// is turned away with nothing changed; anything else is appended to
    /// the index, off the canonical chain, and the hash of a wanted but
    /// unknown predecessor is reported.
    #[verifier::rlimit(100)]
    #[verifier::spinoff_prover]
    fn admit_and_index(&mut self, blk: Block) -> (r: (bool, Option<Vec<u8>>))
        requires
            old(self).wf(),
            wf_block(blk@),
        ensures
            final(self).wf(),
            (!r.0 <==> (blk@.is_valid == 0 || blk@.body.ts < old(self).genesis_ts || blk@.body.id
                < old(self).genesis_bid || old(self).is_indexed(bsh_of(blk@.body)))),
            !r.0 ==> *final(self) == *old(self),
            r.0 ==> {
                &&& final(self).chain_len() == old(self).chain_len() + 1
                &&& final(self).body(old(self).chain_len()) == blk@
                &&& final(self).hdr(old(self).chain_len()) == header_of(blk@)
                &&& forall|i: int|
                    0 <= i < old(self).chain_len() ==> final(self).body(i) == old(self).body(i)
                &&& forall|i: int|
                    0 <= i < old(self).chain_len() ==> final(self).hdr(i) == old(self).hdr(i)
                &&& final(self).lc_chain@ == old(self).lc_chain@
                &&& final(self).lc_pos_set == old(self).lc_pos_set
                &&& final(self).lc_pos == old(self).lc_pos
                &&& final(self).last_bid == old(self).last_bid
                &&& final(self).last_bsh@ == old(self).last_bsh@
                &&& final(self).last_ts == old(self).last_ts
                &&& final(self).tip_bid() == old(self).tip_bid()
                &&& final(self).genesis_ts == old(self).genesis_ts
                &&& final(self).genesis_bid == old(self).genesis_bid
                &&& final(self).genesis_period == old(self).genesis_period
                &&& !final(self).lc_flags@[old(self).chain_len()]
            },
            match r.1 {
                Some(h) => h@ == blk@.body.prevbsh && !old(self).is_indexed(blk@.body.prevbsh)
                    && old(self).lc_pos_set,
                None => true,
            },
    {
        // admission checks
        if blk.is_valid == 0 {
            return (false, None);
        }
        if blk.body.ts < self.genesis_ts || blk.body.id < self.genesis_bid {
            return (false, None);
        }
        let bsh = blk.return_bsh();
        if self.is_bsh_indexed(bsh.as_slice()) {
            return (false, None);
        }
        // boundary bookkeeping: never request blocks older than the
        // oldest one seen
        if blk.body.ts < self.lowest_acceptable_ts {
            self.lowest_acceptable_ts = blk.body.ts;
        }
        if self.lowest_acceptable_ts == 0 {
            self.lowest_acceptable_bid = blk.body.id;
            self.lowest_acceptable_bsh = crate::bytes::copy_bytes(&bsh);
            self.lowest_acceptable_ts = blk.body.ts;
        } else if self.lowest_acceptable_ts > blk.body.ts {
            self.lowest_acceptable_ts = blk.body.ts;
        }
        // ask the network for a missing predecessor within one genesis
        // period of the tip
        let mut missing_predecessor: Option<Vec<u8>> = None;
        if blk.body.ts > self.lowest_acceptable_ts && self.lc_pos_set && !self.is_bsh_indexed(
            blk.body.prevbsh.as_slice(),
        ) {
            if (blk.body.id as u64) + (self.genesis_period as u64) > (self.last_bid as u64) {
                missing_predecessor = Some(crate::bytes::copy_bytes(&blk.body.prevbsh));
            }
        }
        // index the candidate
        let hdr = blk.header();
        self.index.blocks.push(hdr);
        self.bodies.push(blk);
        self.lc_flags.push(false);
        let new_len = self.index.blocks.len();
        proof {
            reveal(Blockchain::wf_canonical);
            reveal(Blockchain::wf_blocks);
            assert(new_len as int == old(self).chain_len() + 1);
            assert(forall|i: int|
                0 <= i < old(self).chain_len() ==> self.hdr(i) == old(self).hdr(i));
            assert(forall|i: int|
                0 <= i < old(self).chain_len() ==> self.body(i) == old(self).body(i));
            lemma_push_wf(*old(self), *self, blk@);
            if self.lc_pos_set {
                assert(self.lc_chain@.contains(self.lc_chain@.last()));
            }
        }
        (true, missing_predecessor)
    }

    /// Ingests one candidate block: admission checks, indexing, fork
    /// choice under the burn-fee weighted longest-chain rule, and — when
    /// the tip moves — validation and the wind/unwind of the utxo index,
    /// with the whole utxo state restored from a snapshot if any block of
    /// the adopted branch fails validation.
    #[verifier::rlimit(100)]
    #[verifier::spinoff_prover]
    pub fn add_block(&mut self, blk: Block, shashmap: &mut Shashmap) -> (r: AddBlockResult)
        requires
            old(self).wf(),
            old(shashmap).wf(),
            wf_block(blk@),
            utxo_bounded(old(shashmap)@, old(self).tip_bid()),
        ensures
            final(self).wf(),
            final(shashmap).wf(),
            utxo_bounded(final(shashmap)@, final(self).tip_bid()),
            // admission is exact, and a rejected block changes nothing:
            // in particular adding an already-indexed block twice leaves
            // the state of the first addition untouched
            (r.outcome == AddBlockOutcome::Rejected <==> (blk@.is_valid == 0 || blk@.body.ts
                < old(self).genesis_ts || blk@.body.id < old(self).genesis_bid
                || old(self).is_indexed(bsh_of(blk@.body)))),
            r.outcome == AddBlockOutcome::Rejected ==> *final(self) == *old(self)
                && final(shashmap)@ == old(shashmap)@,
            // every admitted block is indexed, exactly once
            r.outcome != AddBlockOutcome::Rejected ==> {
                &&& final(self).chain_len() == old(self).chain_len() + 1
                &&& final(self).body(old(self).chain_len()) == blk@
                &&& final(self).hdr(old(self).chain_len()) == header_of(blk@)
            },
            // a block that does not become tip leaves chain and utxo alone
            (r.outcome == AddBlockOutcome::NotLongestChain || r.outcome
                == AddBlockOutcome::Disconnected || r.outcome == AddBlockOutcome::Failed) ==> {
                &&& final(self).lc_chain@ == old(self).lc_chain@
                &&& final(self).tip_bid() == old(self).tip_bid()
                &&& final(shashmap)@ == old(shashmap)@
            },
            // an accepted block is the new tip
            r.outcome == AddBlockOutcome::Accepted ==> {
                &&& final(self).lc_pos_set
                &&& final(self).last_bid == blk@.body.id
                &&& final(self).last_bsh@ == bsh_of(blk@.body)
                &&& final(self).lc_chain@.len() > 0
                &&& final(self).lc_chain@.last() as int == old(self).chain_len()
            },
            // an empty chain adopts its first block exactly when the block
            // validates, and the utxo index then carries the block's effect
            (r.outcome != AddBlockOutcome::Rejected && !old(self).lc_pos_set) ==> {
                &&& (r.outcome == AddBlockOutcome::Accepted <==> block_valid(
                    blk@,
                    None,
                    old(shashmap)@,
                ))
                &&& (r.outcome == AddBlockOutcome::Accepted ==> final(shashmap)@ == wind_block_map(
                    old(shashmap)@,
                    blk@.body.txs,
                    blk@.body.id,
                ) && final(self).lc_chain@ == old(self).lc_chain@.push(
                    old(self).chain_len() as usize,
                ))
            },
            // a block building directly on the tip is adopted exactly when it
            // validates against the tip's header, with the same exact effect
            (r.outcome != AddBlockOutcome::Rejected && old(self).lc_pos_set && blk@.body.id >= old(
                self,
            ).last_bid && blk@.body.prevbsh == old(self).last_bsh@) ==> {
                &&& (r.outcome == AddBlockOutcome::Accepted <==> block_valid(
                    blk@,
                    Some(old(self).hdr(old(self).lc_pos as int)),
                    old(shashmap)@,
                ))
                &&& (r.outcome == AddBlockOutcome::Accepted ==> final(shashmap)@ == wind_block_map(
                    old(shashmap)@,
                    blk@.body.txs,
                    blk@.body.id,
                ) && final(self).lc_chain@ == old(self).lc_chain@.push(
                    old(self).chain_len() as usize,
                ))
            },
            // an adopted branch leaves the utxo index exactly as the dropped
            // canonical suffix unwound and the new branch wound in its place
            (r.outcome == AddBlockOutcome::Accepted && old(self).lc_pos_set && blk@.body.prevbsh
                != old(self).last_bsh@) ==> exists|keep: int|
                {
                    &&& 0 <= keep <= old(self).lc_chain@.len()
                    &&& final(self).lc_chain@.take(keep) == old(self).lc_chain@.take(keep)
                    &&& final(shashmap)@ == wind_blocks(
                        unwind_blocks(
                            old(shashmap)@,
                            old(self).bodies_at(#[trigger] old(self).lc_chain@.skip(keep)),
                        ),
                        final(self).bodies_at(final(self).lc_chain@.skip(keep)),
                    )
                },
            // when the predecessor is wanted, the request names it
            match r.missing_predecessor {
                Some(h) => h@ == blk@.body.prevbsh && !old(self).is_indexed(blk@.body.prevbsh)
                    && old(self).lc_pos_set,
                None => true,
            },
    {
        let ghost blkv = blk@;
        let (admitted, missing_predecessor) = self.admit_and_index(blk);
        if !admitted {
            return AddBlockResult { outcome: AddBlockOutcome::Rejected, missing_predecessor: None };
        }
        let pos = self.index.blocks.len() - 1;
        let blk_id = self.bodies[pos].body.id;
        let extends_tip = self.lc_pos_set && crate::bytes::bytes_eq(
            self.bodies[pos].body.prevbsh.as_slice(),
            self.last_bsh.as_slice(),
        );
        proof {
            assert(self.body(pos as int) == blkv);
            assert(old(self).lc_pos_set ==> (old(self).lc_pos as int) < old(self).chain_len()) by {
                reveal(Blockchain::wf_canonical);
                if old(self).lc_pos_set {
                    assert(old(self).lc_chain@.contains(old(self).lc_chain@.last()));
                }
            }
            if old(self).lc_pos_set {
                assert(self.hdr(self.lc_pos as int) == old(self).hdr(old(self).lc_pos as int));
            }
        }
        // fork choice
        if !self.lc_pos_set {
            // an empty chain adopts its first block if it validates
            if self.adopt_candidate(shashmap, pos) {
                return AddBlockResult { outcome: AddBlockOutcome::Accepted, missing_predecessor };
            } else {
                return AddBlockResult { outcome: AddBlockOutcome::Failed, missing_predecessor };
            }
        }
        if blk_id < self.last_bid {
            // a late block is indexed off the canonical chain
            return AddBlockResult {
                outcome: AddBlockOutcome::NotLongestChain,
                missing_predecessor,
            };
        }
        if extends_tip {
            // the candidate builds directly on the tip
            if self.adopt_candidate(shashmap, pos) {
                return AddBlockResult { outcome: AddBlockOutcome::Accepted, missing_predecessor };
            } else {
                return AddBlockResult { outcome: AddBlockOutcome::Failed, missing_predecessor };
            }
        }
        // ancestor search from the candidate back to the canonical chain
        match self.find_ancestor_path(pos) {
            None => {
                return AddBlockResult {
                    outcome: AddBlockOutcome::Disconnected,
                    missing_predecessor,
                };
            },
            Some((path, a)) => {
                // the burn-fee weighted longest-chain rule: the candidate
                // branch must be at least as long as the canonical suffix
                // it replaces and carry at least as much aggregate burned
                // fee
                proof {
                    reveal(Blockchain::wf_canonical);
                }
                let lclen = self.lc_chain.len();
                assert(a < lclen);
                let suffix = self.lc_suffix(a + 1);
                let new_bf = self.sum_bf_over(&path);
                proof {
                    reveal(Blockchain::wf_canonical);
                    assert(forall|j: int|
                        0 <= j < suffix@.len() ==> (#[trigger] suffix@[j] as int)
                            < self.chain_len()) by {
                        assert(forall|j: int|
                            0 <= j < suffix@.len() ==> suffix@[j] == self.lc_chain@[a + 1 + j]);
                    }
                }
                let old_bf = self.sum_bf_over(&suffix);
                if !(path.len() >= suffix.len() && new_bf >= old_bf) {
                    return AddBlockResult {
                        outcome: AddBlockOutcome::NotLongestChain,
                        missing_predecessor,
                    };
                }
                let ghost s1 = *self;
                if self.reorganize(shashmap, &path, a) {
                    proof {
                        let keep: int = a as int + 1;
                        assert(self.lc_chain@ == s1.lc_chain@.take(keep) + path@);
                        assert(self.lc_chain@.take(keep) =~= old(self).lc_chain@.take(keep));
                        assert(self.lc_chain@.skip(keep) =~= path@);
                        assert(forall|j: int|
                            0 <= j < old(self).lc_chain@.len() ==> (#[trigger] old(
                                self,
                            ).lc_chain@[j] as int) < old(self).chain_len()) by {
                            reveal(Blockchain::wf_canonical);
                        }
                        assert(s1.bodies_at(s1.lc_chain@.skip(keep)) =~= old(self).bodies_at(
                            old(self).lc_chain@.skip(keep),
                        )) by {
                            let sfx = old(self).lc_chain@.skip(keep);
                            assert(forall|j: int|
                                0 <= j < sfx.len() ==> #[trigger] sfx[j] == old(self).lc_chain@[keep
                                    + j]);
                            assert forall|j: int|
                                0 <= j < sfx.len() implies s1.bodies@[(#[trigger] sfx[j]) as int]@
                                == old(self).bodies@[sfx[j] as int]@ by {
                                assert(sfx[j] == old(self).lc_chain@[keep + j]);
                                assert((sfx[j] as int) < old(self).chain_len());
                                assert(s1.body(sfx[j] as int) == old(self).body(sfx[j] as int));
                            }
                        }
                        assert(self.bodies_at(self.lc_chain@.skip(keep)) =~= s1.bodies_at(path@));
                    }
                    return AddBlockResult {
                        outcome: AddBlockOutcome::Accepted,
                        missing_predecessor,
                    };
                } else {
                    return AddBlockResult { outcome: AddBlockOutcome::Failed, missing_predecessor };
                }
            },
        }
    }

    /// Adopts the single freshly indexed block at `pos` on top of the
    /// current tip (or as genesis of an empty chain), validating it first;
    /// when validation fails the utxo index is restored untouched.
    #[verifier::rlimit(100)]
    #[verifier::spinoff_prover]
    fn adopt_candidate(&mut self, shashmap: &mut Shashmap, pos: usize) -> (ok: bool)
        requires
            old(self).wf(),
            old(shashmap).wf(),
            (pos as int) == old(self).chain_len() - 1,
            !old(self).lc_flags@[pos as int],
            utxo_bounded(old(shashmap)@, old(self).tip_bid()),
            old(self).lc_pos_set ==> old(self).body(pos as int).body.id >= old(self).last_bid,
        ensures
            final(self).wf(),
            final(shashmap).wf(),
            utxo_bounded(final(shashmap)@, final(self).tip_bid()),
            final(self).index.blocks@ == old(self).index.blocks@,
            final(self).bodies@ == old(self).bodies@,
            final(self).genesis_ts == old(self).genesis_ts,
            final(self).genesis_bid == old(self).genesis_bid,
            final(self).genesis_period == old(self).genesis_period,
            final(self).lowest_acceptable_ts == old(self).lowest_acceptable_ts,
            final(self).lowest_acceptable_bsh@ == old(self).lowest_acceptable_bsh@,
            final(self).lowest_acceptable_bid == old(self).lowest_acceptable_bid,
            !ok ==> *final(self) == *old(self) && final(shashmap)@ == old(shashmap)@,
            ok ==> {
                &&& final(self).lc_pos_set
                &&& final(self).last_bid == old(self).body(pos as int).body.id
                &&& final(self).last_bsh@ == bsh_of(old(self).body(pos as int).body)
                &&& final(self).lc_chain@ == old(self).lc_chain@.push(pos)
                &&& final(shashmap)@ == wind_block_map(
                    old(shashmap)@,
                    old(self).body(pos as int).body.txs,
                    old(self).body(pos as int).body.id,
                )
            },
            ok <==> block_valid(
                old(self).body(pos as int),
                if old(self).lc_pos_set {
                    Some(old(self).hdr(old(self).lc_pos as int))
                } else {
                    None
                },
                old(shashmap)@,
            ),
    {
        proof {
            reveal(Blockchain::wf_canonical);
            reveal(Blockchain::wf_blocks);
        }
        let ghost tip: int = self.tip_bid();
        let ghost blkv = self.body(pos as int);
        let saved = shashmap.snapshot();
        let mut path: Vec<usize> = Vec::new();
        path.push(pos);
        let prev_pos: Option<usize> = if self.lc_pos_set {
            proof {
                assert(self.lc_chain@.contains(self.lc_chain@.last()));
            }
            Some(self.lc_pos)
        } else {
            None
        };
        let ok = self.wind_new_chain(shashmap, &path, prev_pos, Ghost(tip));
        proof {
            assert(path@.skip(1) =~= Seq::<usize>::empty());
            assert(path@[0] == pos);
            assert(path@.len() == 1);
            let rest_m = wind_block_map(
                old(shashmap)@,
                self.body(pos as int).body.txs,
                self.body(pos as int).body.id,
            );
            assert(self.path_valid_in(Some(pos), Seq::<usize>::empty(), rest_m));
            assert(self.path_valid_in(Some(pos), path@.skip(1), rest_m));
            assert(self.path_valid_in(prev_pos, path@, old(shashmap)@) == block_valid(
                self.body(pos as int),
                match prev_pos {
                    Some(q) => Some(self.hdr(q as int)),
                    None => None::<BlockHeaderView>,
                },
                old(shashmap)@,
            ));
        }
        if ok {
            proof {
                assert(self.bodies_at(path@) =~= seq![blkv]);
                assert(self.bodies_at(path@).skip(1) =~= Seq::<BlockView>::empty());
            }
            let keep = self.lc_chain.len();
            let ghost old_lc = self.lc_chain@;
            proof {
                let one = seq![blkv];
                assert(one.len() == 1);
                assert(one[0] == blkv);
                assert(one.skip(1) =~= Seq::<BlockView>::empty());
                let m1 = wind_block_map(old(shashmap)@, blkv.body.txs, blkv.body.id);
                assert(wind_blocks(old(shashmap)@, one) == wind_blocks(m1, one.skip(1)));
                assert(wind_blocks(m1, Seq::<BlockView>::empty()) == m1);
            }
            self.commit_new_chain(keep, &path);
            proof {
                assert(old_lc.take(keep as int) =~= old_lc);
                assert(self.lc_chain@ =~= old_lc.push(pos));
                assert(old(self).hdr(pos as int) == header_of(old(self).body(pos as int)));
            }
            true
        } else {
            shashmap.restore(saved);
            false
        }
    }

    /// Switches the canonical chain to the branch `path` rooted at
    /// canonical index `a`: unwinds the abandoned canonical suffix, winds
    /// and validates the branch, and commits; on any validation failure
    /// the utxo index is restored untouched and the tip keeps its place.
    #[verifier::rlimit(100)]
    #[verifier::spinoff_prover]
    fn reorganize(&mut self, shashmap: &mut Shashmap, path: &Vec<usize>, a: usize) -> (ok: bool)
        requires
            old(self).wf(),
            old(shashmap).wf(),
            old(self).lc_pos_set,
            utxo_bounded(old(shashmap)@, old(self).tip_bid()),
            (a as int) < old(self).lc_chain@.len(),
            path@.len() >= 1,
            forall|j: int|
                0 <= j < path@.len() ==> (#[trigger] path@[j] as int) < old(self).chain_len()
                    && !old(self).lc_flags@[path@[j] as int],
            forall|j: int, k: int| 0 <= j < k < path@.len() ==> path@[j] != path@[k],
            old(self).body(path@.last() as int).body.id >= old(self).last_bid,
        ensures
            final(self).wf(),
            final(shashmap).wf(),
            utxo_bounded(final(shashmap)@, final(self).tip_bid()),
            final(self).index.blocks@ == old(self).index.blocks@,
            final(self).bodies@ == old(self).bodies@,
            final(self).genesis_ts == old(self).genesis_ts,
            final(self).genesis_bid == old(self).genesis_bid,
            final(self).genesis_period == old(self).genesis_period,
            final(self).lowest_acceptable_ts == old(self).lowest_acceptable_ts,
            final(self).lowest_acceptable_bsh@ == old(self).lowest_acceptable_bsh@,
            final(self).lowest_acceptable_bid == old(self).lowest_acceptable_bid,
            !ok ==> *final(self) == *old(self) && final(shashmap)@ == old(shashmap)@,
            ok ==> {
                &&& final(self).lc_pos_set
                &&& final(self).last_bid == old(self).body(path@.last() as int).body.id
                &&& final(self).last_bsh@ == bsh_of(old(self).body(path@.last() as int).body)
                &&& final(self).lc_chain@ == old(self).lc_chain@.take(a + 1) + path@
                &&& final(shashmap)@ == wind_blocks(
                    unwind_blocks(
                        old(shashmap)@,
                        old(self).bodies_at(old(self).lc_chain@.skip(a + 1)),
                    ),
                    old(self).bodies_at(path@),
                )
            },
            // a winning branch is adopted exactly when every block of it
            // validates in the context left by unwinding the old suffix
            ok == old(self).path_valid_in(
                Some(old(self).lc_chain@[a as int]),
                path@,
                unwind_blocks(
                    old(shashmap)@,
                    old(self).bodies_at(old(self).lc_chain@.skip(a + 1)),
                ),
            ),
    {
        proof {
            reveal(Blockchain::wf_canonical);
            reveal(Blockchain::wf_blocks);
        }
        let lclen = self.lc_chain.len();
        assert(a < lclen);
        let ghost tip: int = self.tip_bid();
        let saved = shashmap.snapshot();
        let suffix = self.lc_suffix(a + 1);
        let ok = self.reorg_apply(shashmap, path, a, &suffix, Ghost(tip));
        if ok {
            proof {
                assert(old(self).hdr(path@.last() as int) == header_of(
                    old(self).body(path@.last() as int),
                ));
            }
            self.commit_new_chain(a + 1, &path);
            true
        } else {
            shashmap.restore(saved);
            false
        }
    }

    /// The utxo half of a reorganization: unwinds the canonical suffix
    /// above `a` and winds the candidate branch, validating each block.
    #[verifier::rlimit(100)]
    #[verifier::spinoff_prover]
    fn reorg_apply(
        &self,
        shashmap: &mut Shashmap,
        path: &Vec<usize>,
        a: usize,
        suffix: &Vec<usize>,
        Ghost(tip): Ghost<int>,
    ) -> (ok: bool)
        requires
            self.wf(),
            old(shashmap).wf(),
            self.lc_pos_set,
            tip == self.tip_bid(),
            utxo_bounded(old(shashmap)@, tip),
            (a as int) < self.lc_chain@.len(),
            suffix@ == self.lc_chain@.skip(a + 1),
            path@.len() >= 1,
            forall|j: int|
                0 <= j < path@.len() ==> (#[trigger] path@[j] as int) < self.chain_len()
                    && !self.lc_flags@[path@[j] as int],
            forall|j: int, k: int| 0 <= j < k < path@.len() ==> path@[j] != path@[k],
            self.body(path@.last() as int).body.id >= self.last_bid,
        ensures
            final(shashmap).wf(),
            ok ==> {
                &&& forall|j: int|
                    1 <= j < path@.len() ==> canonical_linked(
                        self.body(path@[j - 1] as int),
                        #[trigger] self.body(path@[j] as int),
                    )
                &&& canonical_linked(
                    self.body(self.lc_chain@[a as int] as int),
                    self.body(path@[0] as int),
                )
                &&& self.body(path@[0] as int).body.id >= 1
                &&& utxo_bounded(final(shashmap)@, self.body(path@.last() as int).body.id as int)
                &&& final(shashmap)@ == wind_blocks(
                    unwind_blocks(old(shashmap)@, self.bodies_at(suffix@)),
                    self.bodies_at(path@),
                )
            },
            ok == self.path_valid_in(
                Some(self.lc_chain@[a as int]),
                path@,
                unwind_blocks(old(shashmap)@, self.bodies_at(suffix@)),
            ),
    {
        proof {
            reveal(Blockchain::wf_canonical);
            reveal(Blockchain::wf_blocks);
            assert(forall|j: int|
                0 <= j < suffix@.len() ==> (#[trigger] suffix@[j] as int) < self.chain_len()) by {
                assert(forall|j: int|
                    0 <= j < suffix@.len() ==> suffix@[j] == self.lc_chain@[a + 1 + j]);
            }
        }
        self.unwind_positions(shashmap, suffix);
        let anc = self.lc_chain[a];
        proof {
            assert(self.lc_chain@.contains(self.lc_chain@[a as int]));
            assert((anc as int) < self.chain_len());
            lemma_canonical_bids(*self, a as int);
            lemma_unwind_blocks_bounded(old(shashmap)@, self.bodies_at(suffix@), tip);
        }
        let ok = self.wind_new_chain(shashmap, path, Some(anc), Ghost(tip));
        proof {
            if ok {
                assert(tip <= self.body(path@.last() as int).body.id);
            }
        }
        ok
    }

    /// Whether `blk` passes validation in the current utxo context,
    /// against its predecessor's header when it has one. Signatures are
    /// deliberately not part of consensus validation: the end-to-end
    /// consensus scenarios exchange unsigned transactions and expect
    /// their blocks adopted, so a signature condition here would refuse
    /// them all. Signature checking is offered separately as
    /// `Transaction::signature_verifies`.
    pub fn validate_block(&self, blk: &Block, prev: Option<&BlockHeader>, shashmap: &Shashmap) -> (r:
        bool)
        requires
            wf_block(blk@),
            shashmap.wf(),
        ensures
            r == block_valid(
                blk@,
                match prev {
                    Some(p) => Some(p@),
                    None => None::<BlockHeaderView>,
                },
                shashmap@,
            ),
    {
        if blk.body.id < 1 {
            return false;
        }
        if !check_txs_against(shashmap, &blk.body.txs) {
            return false;
        }
        match prev {
            Some(p) => {
                if blk.body.id != p.bid.wrapping_add(1) || p.bid == u32::MAX {
                    proof {
                        if p@.bid < u32::MAX {
                            assert(p.bid.wrapping_add(1) == p@.bid + 1);
                        }
                    }
                    return false;
                }
                assert(blk@.body.id == p@.bid + 1);
                if !crate::bytes::bytes_eq(blk.body.prevbsh.as_slice(), p.bsh.as_slice()) {
                    return false;
                }
                let pool: u128 = (p.treasury as u128) + (p.reclaimed as u128);
                let gp: u128 = crate::GENESIS_PERIOD as u128;
                let coinbase: u128 = (pool + gp / 2) / gp;
                proof {
                    let pi = pool as int;
                    let gi = gp as int;
                    assert((pi + gi / 2) / gi <= pi) by (nonlinear_arith)
                        requires
                            pi >= 0,
                            gi == 21500,
                    ;
                }
                if (blk.body.coinbase as u128) != coinbase {
                    return false;
                }
                if (blk.body.treasury as u128) != pool - coinbase {
                    return false;
                }
                let needed = BurnFee::return_work_needed(
                    p.ts,
                    blk.body.ts,
                    p.bf.start,
                    crate::HEARTBEAT,
                );
                if needed > blk.body.bf.current {
                    return false;
                }
                let vote = find_last_gt_vote(&blk.body.txs);
                let expected_difficulty = match vote {
                    Some(v) => vote_adjust_exec(v, p.difficulty),
                    None => p.difficulty,
                };
                let expected_paysplit = match vote {
                    Some(v) => vote_adjust_exec(v, p.paysplit),
                    None => p.paysplit,
                };
                if blk.body.difficulty != expected_difficulty {
                    return false;
                }
                if blk.body.paysplit != expected_paysplit {
                    return false;
                }
                true
            },
            None => true,
        }
    }

    /// The block body at index position `i`.
    pub open spec fn body(self, i: int) -> BlockView {
        self.bodies@[i]@
    }

    /// The header at index position `i`.
    pub open spec fn hdr(self, i: int) -> BlockHeaderView {
        self.index.blocks@[i]@
    }

    /// How many blocks the index holds.
    pub open spec fn chain_len(self) -> int {
        self.index.blocks@.len() as int
    }

    /// The id of the canonical tip, or zero while no chain exists.
    pub open spec fn tip_bid(self) -> int {
        if self.lc_pos_set {
            self.last_bid as int
        } else {
            0
        }
    }

    /// Whether some indexed block hashes to `bsh`.
    pub open spec fn is_indexed(self, bsh: Seq<u8>) -> bool {
        exists|i: int| 0 <= i < self.chain_len() && self.hdr(i).bsh == bsh
    }

    /// The block views along the canonical chain, genesis first.
    pub open spec fn canonical_views(self) -> Seq<BlockView> {
        self.lc_chain@.map_values(|p: usize| self.bodies@[p as int]@)
    }

    /// Well-formedness: index, bodies and flags run in parallel; headers
    /// are the projections of their bodies; hashes are unique; and the
    /// flagged positions are exactly the canonical path, linked block to
    /// block.
    pub open spec fn wf(self) -> bool {
        let n = self.chain_len();
        &&& self.bodies@.len() == n
        &&& self.lc_flags@.len() == n
        &&& n <= usize::MAX
        &&& self.wf_blocks()
        &&& self.wf_canonical()
        &&& (self.lc_pos_set <==> self.lc_chain@.len() > 0)
        &&& (self.lc_pos_set ==> {
            &&& self.lc_pos == self.lc_chain@.last()
            &&& self.last_bsh@ == self.hdr(self.lc_pos as int).bsh
            &&& self.last_bid == self.hdr(self.lc_pos as int).bid
            &&& self.last_ts == self.hdr(self.lc_pos as int).ts
            &&& self.body(self.lc_chain@[0] as int).body.id >= 1
        })
        &&& (!self.lc_pos_set ==> self.last_bid == 0)
        &&& self.wf_links()
    }

    /// Every indexed block is well formed, every header is its block's
    /// projection, and no two indexed blocks share a hash.
    #[verifier::opaque]
    pub open spec fn wf_blocks(self) -> bool {
        let n = self.chain_len();
        &&& forall|i: int| 0 <= i < n ==> wf_block(#[trigger] self.body(i))
        &&& forall|i: int| 0 <= i < n ==> #[trigger] self.hdr(i) == header_of(self.body(i))
        &&& forall|i: int, j: int| 0 <= i < j < n ==> self.hdr(i).bsh != self.hdr(j).bsh
    }

    /// The canonical positions are in range and pairwise distinct, and the
    /// flags mark exactly them.
    #[verifier::opaque]
    pub open spec fn wf_canonical(self) -> bool {
        let n = self.chain_len();
        &&& forall|a: int| 0 <= a < self.lc_chain@.len() ==> (#[trigger] self.lc_chain@[a] as int) < n
        &&& forall|a: int, b: int|
            0 <= a < b < self.lc_chain@.len() ==> self.lc_chain@[a] != self.lc_chain@[b]
        &&& forall|i: int|
            0 <= i < n ==> ((#[trigger] self.lc_flags@[i]) <==> self.lc_chain@.contains(
                i as usize,
            ))
    }

    /// The canonical chain is linked block to block: consecutive ids,
    /// matching hash links and the monetary rollover.
    #[verifier::opaque]
    pub open spec fn wf_links(self) -> bool {
        forall|a: int|
            1 <= a < self.lc_chain@.len() ==> canonical_linked(
                self.body(self.lc_chain@[a - 1] as int),
                #[trigger] self.body(self.lc_chain@[a] as int),
            )
    }

    /// An empty blockchain.
    pub fn new() -> (r: Blockchain)
        ensures
            r.wf(),
            r.chain_len() == 0,
            r.lc_chain@.len() == 0,
            !r.lc_pos_set,
            r.genesis_ts == 0u64,
            r.genesis_bid == 0u32,
            r.genesis_period == 0u32,
            r.last_bid == 0u32,
            r.last_ts == 0u64,
            r.last_bsh@.len() == 32,
            forall|j: int| 0 <= j < 32 ==> r.last_bsh@[j] == 0u8,
            r.lowest_acceptable_ts == 0u64,
            r.lowest_acceptable_bid == 0u32,
            r.lowest_acceptable_bsh@.len() == 32,
            forall|j: int| 0 <= j < 32 ==> r.lowest_acceptable_bsh@[j] == 0u8,
    {
        proof {
            reveal(Blockchain::wf_links);
            reveal(Blockchain::wf_blocks);
            reveal(Blockchain::wf_canonical);
        }
        Blockchain {
            index: BlockchainIndex::new(),
            bodies: Vec::new(),
            lc_flags: Vec::new(),
            lc_chain: Vec::new(),
            lc_pos_set: false,
            lc_pos: 0,
            genesis_ts: 0,
            genesis_bid: 0,
            genesis_period: 0,
            last_bsh: crate::bytes::zero_bytes(32),
            last_bid: 0,
            last_ts: 0,
            lowest_acceptable_ts: 0,
            lowest_acceptable_bsh: crate::bytes::zero_bytes(32),
            lowest_acceptable_bid: 0,
        }
    }

    /// Whether a block hashing to `bsh` is already indexed.
    pub fn is_bsh_indexed(&self, bsh: &[u8]) -> (r: bool)
        ensures
            r <==> self.is_indexed(bsh@),
    {
        match self.find_pos_by_bsh(bsh) {
            Some(_) => true,
            None => false,
        }
    }

    /// The index position of the block hashing to `bsh`, if any.
    pub fn find_pos_by_bsh(&self, bsh: &[u8]) -> (r: Option<usize>)
        ensures
            match r {
                Some(i) => (i as int) < self.chain_len() && self.hdr(i as int).bsh == bsh@,
                None => !self.is_indexed(bsh@),
            },
    {
        let n = self.index.blocks.len();
        let mut i: usize = 0;
        while i < n
            invariant
                n == self.index.blocks@.len(),
                i <= n,
                forall|j: int| 0 <= j < i ==> self.hdr(j).bsh != bsh@,
            decreases n - i,
        {
            if crate::bytes::bytes_eq(self.index.blocks[i].bsh.as_slice(), bsh) {
                return Some(i);
            }
            i += 1;
        }
        None
    }

    /// The header of the canonical tip, or nothing while no chain exists.
    pub fn return_latest_block_header(&self) -> (r: Option<BlockHeader>)
        requires
            self.wf(),
        ensures
            match r {
                Some(h) => self.lc_pos_set && h@ == self.hdr(self.lc_pos as int),
                None => !self.lc_pos_set,
            },
    {
        if !self.lc_pos_set {
            return None;
        }
        proof {
            reveal(Blockchain::wf_canonical);
        }
        assert(self.lc_chain@.contains(self.lc_chain@.last()));
        let h = &self.index.blocks[self.lc_pos];
        Some(
            BlockHeader {
                bf: h.bf,
                bsh: crate::bytes::copy_bytes(&h.bsh),
                prevbsh: crate::bytes::copy_bytes(&h.prevbsh),
                bid: h.bid,
                ts: h.ts,
                treasury: h.treasury,
                reclaimed: h.reclaimed,
                difficulty: h.difficulty,
                paysplit: h.paysplit,
                mintid: h.mintid,
                maxtid: h.maxtid,
            },
        )
    }

    /// How many blocks the index holds.
    pub fn return_index_length(&self) -> (r: usize)
        ensures
            r as int == self.chain_len(),
    {
        self.index.blocks.len()
    }

    /// The protocol heartbeat in milliseconds.
    pub fn return_heartbeat(&self) -> (r: u64)
        ensures
            r == crate::HEARTBEAT,
    {
        crate::HEARTBEAT
    }

    /// The funds reclaimed from outputs falling off the genesis window.
    /// Rebroadcasting is not implemented, so nothing is ever reclaimed.
    pub fn calculate_reclaimed_funds(&self, _blk_header: &BlockHeader) -> (r: u64)
        ensures
            r == 0u64,
    {
        0
    }
}

/// The flagged blocks form a single linked path: the flags mark exactly
/// the canonical positions, consecutive canonical blocks carry
/// consecutive ids and matching hash links, and the path ends at the tip.
pub proof fn lemma_canonical_chain_is_path(bc: Blockchain)
    requires
        bc.wf(),
    ensures
        forall|i: int|
            0 <= i < bc.chain_len() ==> ((#[trigger] bc.lc_flags@[i]) <==> bc.lc_chain@.contains(
                i as usize,
            )),
        forall|a: int|
            1 <= a < bc.lc_chain@.len() ==> canonical_linked(
                bc.body(bc.lc_chain@[a - 1] as int),
                #[trigger] bc.body(bc.lc_chain@[a] as int),
            ),
        bc.lc_pos_set ==> bc.lc_chain@.len() > 0 && bc.lc_pos == bc.lc_chain@.last()
            && bc.last_bid == bc.hdr(bc.lc_pos as int).bid,
{
    reveal(Blockchain::wf_canonical);
    reveal(Blockchain::wf_links);
}

/// The coinbase minted along a prefix of the canonical chain.
pub open spec fn sum_coinbase(bc: Blockchain, k: int) -> int
    decreases k,
{
    if k <= 0 {
        0
    } else {
        sum_coinbase(bc, k - 1) + bc.body(bc.lc_chain@[k - 1] as int).body.coinbase
    }
}

/// Treasury conservation: when the genesis block's treasury and coinbase
/// together equal the initial treasury and nothing has been reclaimed,
/// the tip treasury plus every coinbase minted along the canonical chain
/// still equals the initial treasury.
pub proof fn lemma_treasury_conservation(bc: Blockchain, k: int)
    requires
        bc.wf(),
        bc.lc_pos_set,
        1 <= k <= bc.lc_chain@.len(),
        bc.body(bc.lc_chain@[0] as int).body.treasury + bc.body(
            bc.lc_chain@[0] as int,
        ).body.coinbase == crate::TREASURY,
        forall|a: int|
            0 <= a < bc.lc_chain@.len() ==> bc.body(
                #[trigger] bc.lc_chain@[a] as int,
            ).body.reclaimed == 0,
    ensures
        bc.body(bc.lc_chain@[k - 1] as int).body.treasury + sum_coinbase(bc, k) == crate::TREASURY,
    decreases k,
{
    reveal(Blockchain::wf_links);
    if k == 1 {
        assert(sum_coinbase(bc, 1) == sum_coinbase(bc, 0) + bc.body(
            bc.lc_chain@[0] as int,
        ).body.coinbase);
    } else {
        lemma_treasury_conservation(bc, k - 1);
        assert(canonical_linked(
            bc.body(bc.lc_chain@[k - 2] as int),
            bc.body(bc.lc_chain@[k - 1] as int),
        ));
        assert(bc.body(bc.lc_chain@[k - 2] as int).body.reclaimed == 0);
        assert(sum_coinbase(bc, k) == sum_coinbase(bc, k - 1) + bc.body(
            bc.lc_chain@[k - 1] as int,
        ).body.coinbase);
    }
}

} // verus!
