use saito_core::block::Block;
use saito_core::burnfee::BurnFee;
use saito_core::crypto::generate_keys;
use saito_core::golden_ticket::GoldenTicket;
use saito_core::slip::Slip;
use saito_core::transaction::{Transaction, TransactionBroadcastType};

#[test]
fn block_serialization_round_trip() {
    let (_, publickey) = generate_keys();

    let mut blk = Block::new(publickey.clone(), vec![7; 32]);
    blk.body.id = 42;
    blk.set_difficulty(200);
    blk.set_paysplit(50);
    blk.set_treasury(1_000_000);
    blk.set_coinbase(46);

    let mut tx = Transaction::new();
    let mut from = Slip::new(publickey.clone());
    from.set_amt(5_000);
    tx.add_from_slip(from);
    let mut to = Slip::new(publickey.clone());
    to.set_amt(4_000);
    tx.add_to_slip(to);
    tx.set_msg(vec![1, 2, 3, 4]);
    tx.set_tx_type(TransactionBroadcastType::GoldenTicket);
    blk.add_transaction(tx);

    let bytes = blk.serialize();
    let again = Block::deserialize(bytes.as_slice()).expect("a serialized block reads back");
    let bytes_again = again.serialize();
    assert_eq!(bytes, bytes_again);
    assert_eq!(again.body.id, 42);
    assert_eq!(again.body.txs.len(), 1);
    assert_eq!(again.body.txs[0].body.msg, vec![1, 2, 3, 4]);
}

#[test]
fn truncated_block_is_refused() {
    let (_, publickey) = generate_keys();
    let blk = Block::new(publickey, vec![0; 32]);
    let mut bytes = blk.serialize();
    bytes.pop();
    assert!(Block::deserialize(bytes.as_slice()).is_none());
}

#[test]
fn golden_ticket_round_trip() {
    let (_, publickey) = generate_keys();
    let gt = GoldenTicket::new(1, vec![9; 32], vec![8; 32], publickey);
    let bytes = gt.serialize();
    assert_eq!(bytes.len(), 98);
    let (back, used) = saito_core::golden_ticket::decode_gt(bytes.as_slice(), 0).unwrap();
    assert_eq!(used, 98);
    assert_eq!(back, gt);
}

#[test]
fn work_needed_follows_the_curve() {
    // the curve starts at 1_000_000: after one millisecond the whole
    // start is demanded, after 10_000 it has decayed to 100
    assert_eq!(BurnFee::return_work_needed(0, 1, 1_000_000, 100_000), 1_000_000);
    assert_eq!(BurnFee::return_work_needed(0, 10_000, 1_000_000, 100_000), 100);
    // equal timestamps count as one elapsed millisecond
    assert_eq!(BurnFee::return_work_needed(5, 5, 600, 100_000), 600);
    // a stall longer than two heartbeats makes the next block free
    assert_eq!(BurnFee::return_work_needed(0, 200_001, 1_000_000, 100_000), 0);
}

#[test]
fn hex_rendering_of_block_hash() {
    let (_, publickey) = generate_keys();
    let blk = Block::new(publickey, vec![0; 32]);
    let hex = blk.return_bsh_as_hex();
    let bsh = blk.return_bsh();
    assert_eq!(hex.len(), 64);
    let expected: String = bsh.iter().map(|b| format!("{:02x}", b)).collect();
    assert_eq!(hex, expected);
}

#[test]
fn slip_fingerprint_is_canonical() {
    let (_, publickey) = generate_keys();
    let mut slip = Slip::new(publickey.clone());
    slip.set_amt(123);
    let fp = slip.return_signature_source();
    assert_eq!(fp.len(), 86);
    let mut twin = Slip::new(publickey);
    twin.set_amt(123);
    assert_eq!(twin.return_signature_source(), fp);
}

#[test]
fn transaction_signature_round_trip() {
    let (privatekey, publickey) = generate_keys();

    let mut tx = Transaction::new();
    let mut slip = Slip::new(publickey.clone());
    slip.set_amt(42);
    tx.add_from_slip(slip);

    // sign the body with the signature field zeroed, as verification reads it
    let mut wallet_like = saito_core::wallet::Wallet::new();
    wallet_like.body.privatekey = privatekey;
    wallet_like.body.publickey = publickey.clone();
    let sig = wallet_like.create_signature(tx.return_signing_source().as_slice());
    tx.set_sig(sig);

    assert!(tx.signature_verifies(&publickey));

    // any other key refuses the signature
    let (_, other_key) = generate_keys();
    assert!(!tx.signature_verifies(&other_key));

    // tampering with the body breaks verification
    let mut tampered = tx.clone();
    tampered.body.ts += 1;
    assert!(!tampered.signature_verifies(&publickey));
}
