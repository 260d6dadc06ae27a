use saito_core::block::{Block, BlockHeader};
use saito_core::slip::SlipSpentStatus;
use saito_core::wallet::{apply_block_to_wallet, Wallet};
use saito_core::burnfee::BurnFee;
use saito_core::crypto::generate_keys;
use saito_core::golden_ticket::GoldenTicket;
use saito_core::mempool::Mempool;
use saito_core::slip::Slip;
use saito_core::transaction::{Transaction, TransactionBroadcastType};

fn header(ts: u64, bf_start: u64, difficulty: u64, paysplit: u64) -> BlockHeader {
    BlockHeader {
        bf: BurnFee { start: bf_start, current: 0 },
        bsh: vec![0; 32],
        prevbsh: vec![0; 32],
        bid: 1,
        ts,
        treasury: 0,
        reclaimed: 0,
        difficulty,
        paysplit,
        mintid: 0,
        maxtid: 0,
    }
}

#[test]
fn bundle_waits_for_the_curve() {
    let (_, publickey) = generate_keys();
    let mut mempool = Mempool::new();

    // one pending transaction contributing one hundred units of work
    let mut tx = Transaction::new();
    let mut slip = Slip::new(publickey.clone());
    slip.set_amt(100);
    tx.add_from_slip(slip);
    mempool.add_transaction(tx);
    assert_eq!(mempool.work_available, 100);

    // after one millisecond the curve still demands a million
    let prev = header(1_000, 1_000_000, 0, 0);
    assert!(!mempool.can_bundle_block_at(Some(&prev), 1_001));

    // once enough time has passed the demand decays below the available
    // work and a block comes out, emptying the mempool
    assert!(mempool.can_bundle_block_at(Some(&prev), 11_000));
    let blk = mempool.bundle_block(publickey, Some(&prev));
    assert_eq!(blk.body.txs.len(), 1);
    assert_eq!(blk.body.id, 2);
    assert_eq!(mempool.transactions.len(), 0);
    assert_eq!(mempool.work_available, 0);
}

#[test]
fn golden_ticket_vote_adjusts_difficulty_and_paysplit() {
    let (_, publickey) = generate_keys();
    let mut mempool = Mempool::new();

    // previous block: difficulty 2.00 and paysplit 0.50, in hundredths
    let prev = header(1_000, 0, 200, 50);

    let gt = GoldenTicket::new(1, vec![0; 32], vec![0; 32], publickey.clone());
    let mut tx = Transaction::new();
    tx.set_tx_type(TransactionBroadcastType::GoldenTicket);
    tx.set_msg(gt.serialize());
    mempool.add_transaction(tx);

    let blk = mempool.bundle_block(publickey, Some(&prev));
    assert_eq!(blk.body.difficulty, 201);
    assert_eq!(blk.body.paysplit, 51);
}

#[test]
fn bundling_with_no_previous_block_is_always_allowed() {
    let mempool = Mempool::new();
    assert!(mempool.can_bundle_block(None));
}

#[test]
fn accepted_block_updates_the_wallet() {
    let mut wallet = Wallet::new();
    let my_key = wallet.return_publickey().clone();
    let (_, other_key) = generate_keys();

    // the wallet holds one slip that the block spends
    let mut held = Slip::new(my_key.clone());
    held.set_amt(900);
    wallet.add_slip(held.clone());

    let mut blk = Block::new(my_key.clone(), vec![0; 32]);
    let mut tx = Transaction::new();
    tx.add_from_slip(held.clone());
    let mut payout = Slip::new(my_key.clone());
    payout.set_amt(300);
    tx.add_to_slip(payout.clone());
    let mut stranger = Slip::new(other_key);
    stranger.set_amt(600);
    tx.add_to_slip(stranger);
    blk.add_transaction(tx);

    apply_block_to_wallet(&mut wallet, &blk);

    // the spent slip is gone, the payout credited, the stranger's ignored
    assert_eq!(wallet.body.slips.len(), 1);
    assert_eq!(wallet.body.slips[0].return_amt(), 300);
    assert_eq!(wallet.return_balance(), 0); // fresh slips are not marked unspent
}

#[test]
fn wallet_picks_the_first_sufficient_inputs() {
    let mut wallet = Wallet::new();
    let key = wallet.return_publickey().clone();
    for amt in [100u64, 200, 400] {
        let mut s = Slip::new(key.clone());
        s.set_amt(amt);
        s.spent_status = SlipSpentStatus::Unspent;
        wallet.add_slip(s);
    }

    // 100 + 200 already exceed 250, so the third slip stays untouched
    let picked = wallet.return_available_inputs(250).unwrap();
    assert_eq!(picked.len(), 2);
    assert_eq!(picked[0].return_amt(), 100);
    assert_eq!(picked[1].return_amt(), 200);

    // all three together cannot exceed 700
    assert!(wallet.return_available_inputs(700).is_none());

    let tx = wallet
        .create_transaction(key, saito_core::transaction::TransactionBroadcastType::Normal, 250, 0)
        .unwrap();
    assert_eq!(tx.body.from.len(), 2);
    assert_eq!(tx.body.to[0].return_amt(), 50);
}
