use saito_core::block::Block;
use saito_core::blockchain::{AddBlockOutcome, Blockchain};
use saito_core::crypto::generate_keys;
use saito_core::shashmap::Shashmap;
use saito_core::slip::Slip;
use saito_core::transaction::Transaction;

fn create_new_transaction(publickey: Vec<u8>, amt: u64) -> Transaction {
    let mut tx: Transaction = Transaction::new();
    let mut slip: Slip = Slip::new(publickey);

    slip.set_amt(amt);
    tx.add_from_slip(slip.clone());

    tx
}

#[test]
fn test_add_block() {
    let (_, publickey) = generate_keys();

    let mut blockchain = Blockchain::new();
    let mut shashmap = Shashmap::new();

    let mut blk = Block::new(publickey, vec![0; 32]);
    blk.body.id = 1;
    blk.is_valid = 1;

    let blk_header = blk.header();
    blockchain.add_block(blk, &mut shashmap);

    assert_eq!(blockchain.return_latest_block_header(), Some(blk_header));
}

#[test]
fn test_validate_chain() {
    // assert that the shashmap has all of the inputs provided in the blocks
    let (_, publickey) = generate_keys();

    let mut blockchain = Blockchain::new();
    let mut shashmap = Shashmap::new();

    let mut blk = Block::new(publickey.clone(), vec![0; 32]);

    let mut tx: Transaction = Transaction::new();
    let mut slip: Slip = Slip::new(publickey);

    slip.set_amt(200_000_000);

    tx.add_from_slip(slip.clone());

    let mut transactions = vec![tx];

    blk.set_transactions(&mut transactions);

    blk.body.id = 1;
    blk.is_valid = 1;

    blockchain.add_block(blk, &mut shashmap);

    assert_eq!(shashmap.return_value(slip.return_signature_source()), Some(&1));
}

#[test]
fn test_wind_unwind_chain() {
    let (_, publickey) = generate_keys();

    let mut blockchain = Blockchain::new();
    let mut shashmap = Shashmap::new();

    let mut blk1 = Block::new(publickey.clone(), vec![0; 32]);
    blk1.body.id = 1;

    let mut blk2 = Block::new(publickey.clone(), blk1.return_bsh());
    blk2.body.id = 2;

    let mut blk3 = Block::new(publickey.clone(), blk2.return_bsh());
    blk3.body.id = 3;

    // introduce our forks

    let mut blk4 = Block::new(publickey.clone(), blk3.return_bsh());
    blk4.body.id = 4;
    blk4.set_transactions(&mut vec![create_new_transaction(publickey.clone(), 4_000)]);

    let mut blk5 = Block::new(publickey.clone(), blk4.return_bsh());
    blk5.body.id = 5;
    blk5.set_transactions(&mut vec![create_new_transaction(publickey.clone(), 5_000)]);

    let mut blk6 = Block::new(publickey.clone(), blk5.return_bsh());
    blk6.body.id = 6;
    blk6.set_transactions(&mut vec![create_new_transaction(publickey.clone(), 6_000)]);

    let mut blk7 = Block::new(publickey.clone(), blk6.return_bsh());
    blk7.body.id = 7;
    blk7.set_transactions(&mut vec![create_new_transaction(publickey.clone(), 7_000)]);

    let mut blk8 = Block::new(publickey.clone(), blk3.return_bsh());
    blk8.body.id = 4;
    // the fork is minted a second later, so its block hashes differ
    blk8.body.ts += 1_000;
    blk8.set_transactions(&mut vec![create_new_transaction(publickey.clone(), 8_000)]);

    let mut blk9 = Block::new(publickey.clone(), blk8.return_bsh());
    blk9.body.id = 5;
    // the fork is minted a second later, so its block hashes differ
    blk9.body.ts += 1_000;
    blk9.set_transactions(&mut vec![create_new_transaction(publickey.clone(), 9_000)]);

    let mut blk10 = Block::new(publickey.clone(), blk9.return_bsh());
    blk10.body.id = 6;
    // the fork is minted a second later, so its block hashes differ
    blk10.body.ts += 1_000;
    blk10.set_transactions(&mut vec![create_new_transaction(publickey.clone(), 10_000)]);

    let mut blk11 = Block::new(publickey.clone(), blk10.return_bsh());
    blk11.body.id = 7;
    // the fork is minted a second later, so its block hashes differ
    blk11.body.ts += 1_000;
    blk11.set_transactions(&mut vec![create_new_transaction(publickey.clone(), 11_000)]);

    let blocks = vec![blk1, blk2, blk3, blk4, blk5, blk6, blk7, blk8, blk9, blk10, blk11];

    for blk in blocks {
        blockchain.add_block(blk, &mut shashmap);
    }

    assert_eq!(
        shashmap.return_value(
            create_new_transaction(publickey.clone(), 4_000).return_from_slips()[0]
                .return_signature_source()
        ),
        Some(&-1)
    );
    assert_eq!(
        shashmap.return_value(
            create_new_transaction(publickey.clone(), 5_000).return_from_slips()[0]
                .return_signature_source()
        ),
        Some(&-1)
    );
    assert_eq!(
        shashmap.return_value(
            create_new_transaction(publickey.clone(), 6_000).return_from_slips()[0]
                .return_signature_source()
        ),
        Some(&-1)
    );
    assert_eq!(
        shashmap.return_value(
            create_new_transaction(publickey.clone(), 7_000).return_from_slips()[0]
                .return_signature_source()
        ),
        Some(&-1)
    );

    assert_eq!(
        shashmap.return_value(
            create_new_transaction(publickey.clone(), 8_000).return_from_slips()[0]
                .return_signature_source()
        ),
        Some(&4)
    );
    assert_eq!(
        shashmap.return_value(
            create_new_transaction(publickey.clone(), 9_000).return_from_slips()[0]
                .return_signature_source()
        ),
        Some(&5)
    );
    assert_eq!(
        shashmap.return_value(
            create_new_transaction(publickey.clone(), 10_000).return_from_slips()[0]
                .return_signature_source()
        ),
        Some(&6)
    );
    assert_eq!(
        shashmap.return_value(
            create_new_transaction(publickey.clone(), 11_000).return_from_slips()[0]
                .return_signature_source()
        ),
        Some(&7)
    );
}

#[test]
fn linear_five_block_chain() {
    let (_, publickey) = generate_keys();

    let mut blockchain = Blockchain::new();
    let mut shashmap = Shashmap::new();

    let mut prev_bsh = vec![0u8; 32];
    let mut slips = Vec::new();
    for id in 1..=5u32 {
        let mut blk = Block::new(publickey.clone(), prev_bsh.clone());
        blk.body.id = id;
        let mut tx = Transaction::new();
        let mut slip = Slip::new(publickey.clone());
        slip.set_amt(10_000);
        slip.body.sid = id;
        tx.add_from_slip(slip.clone());
        slips.push(slip);
        blk.set_transactions(&mut vec![tx]);
        prev_bsh = blk.return_bsh();
        let r = blockchain.add_block(blk, &mut shashmap);
        assert_eq!(r.outcome, AddBlockOutcome::Accepted);
    }

    assert_eq!(blockchain.return_latest_block_header().unwrap().bid, 5);
    for (i, slip) in slips.iter().enumerate() {
        let want = (i + 1) as i64;
        assert_eq!(shashmap.return_value(slip.return_signature_source()), Some(&want));
    }
}

#[test]
fn failed_validation_rollback() {
    let (_, publickey) = generate_keys();

    let mut blockchain = Blockchain::new();
    let mut shashmap = Shashmap::new();

    let mut spent_slip = Slip::new(publickey.clone());
    spent_slip.set_amt(777);

    let mut blk1 = Block::new(publickey.clone(), vec![0; 32]);
    blk1.body.id = 1;
    let mut tx1 = Transaction::new();
    tx1.add_from_slip(spent_slip.clone());
    blk1.set_transactions(&mut vec![tx1]);
    let b1_bsh = blk1.return_bsh();
    assert_eq!(blockchain.add_block(blk1, &mut shashmap).outcome, AddBlockOutcome::Accepted);

    let mut blk2 = Block::new(publickey.clone(), b1_bsh);
    blk2.body.id = 2;
    let b2_bsh = blk2.return_bsh();
    assert_eq!(blockchain.add_block(blk2, &mut shashmap).outcome, AddBlockOutcome::Accepted);

    let mut blk3 = Block::new(publickey.clone(), b2_bsh);
    blk3.body.id = 3;
    let b3_bsh = blk3.return_bsh();
    assert_eq!(blockchain.add_block(blk3, &mut shashmap).outcome, AddBlockOutcome::Accepted);

    let before = shashmap.clone();

    // b4' double-spends the slip already spent by block 1
    let mut blk4 = Block::new(publickey.clone(), b3_bsh);
    blk4.body.id = 4;
    let mut tx4 = Transaction::new();
    tx4.add_from_slip(spent_slip.clone());
    blk4.set_transactions(&mut vec![tx4]);
    let r = blockchain.add_block(blk4, &mut shashmap);
    assert_eq!(r.outcome, AddBlockOutcome::Failed);

    // the tip and the whole utxo index are exactly what they were
    assert_eq!(blockchain.return_latest_block_header().unwrap().bid, 3);
    assert_eq!(
        shashmap.return_value(spent_slip.return_signature_source()),
        before.return_value(spent_slip.return_signature_source())
    );
    assert_eq!(shashmap.entries.len(), before.entries.len());
}

#[test]
fn duplicate_block_is_rejected() {
    let (_, publickey) = generate_keys();

    let mut blockchain = Blockchain::new();
    let mut shashmap = Shashmap::new();

    let mut blk = Block::new(publickey.clone(), vec![0; 32]);
    blk.body.id = 1;
    let twin = blk.clone();

    assert_eq!(blockchain.add_block(blk, &mut shashmap).outcome, AddBlockOutcome::Accepted);
    let len_after_first = blockchain.return_index_length();
    // adding the same block again changes nothing
    assert_eq!(blockchain.add_block(twin, &mut shashmap).outcome, AddBlockOutcome::Rejected);
    assert_eq!(blockchain.return_index_length(), len_after_first);
}
