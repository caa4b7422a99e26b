use poa_ledger::block::random_block;
use poa_ledger::blockchain::Blockchain;
use poa_ledger::errors::{DecodeError, NodeError};
use poa_ledger::keypair::KeyPair;
use poa_ledger::node::{apply_decoded, create_new_block, genesis_block, handle_rpc_payload, Handled};
use poa_ledger::rpc::{default_rpc_decode, Decoded, Message, MESSAGE_TYPE_BLOCK, MESSAGE_TYPE_TX};
use poa_ledger::transaction::Transaction;
use poa_ledger::txpool::TxPool;

#[test]
fn rpc_decode_transaction_message() {
    let mut t = Transaction::new([0; 20], 5);
    t.sign(&KeyPair::new(0));
    let msg = Message::new(MESSAGE_TYPE_TX, t.encode());
    let bytes = msg.bytes();
    assert_eq!(bytes[0], 0x01);
    match default_rpc_decode(&bytes) {
        Ok(Decoded::Transaction(d)) => assert_eq!(d.hash(), t.hash()),
        _ => panic!("expected a transaction payload"),
    }
}

#[test]
fn rpc_decode_block_message() {
    let b = random_block(0, Vec::new());
    let msg = Message::new(MESSAGE_TYPE_BLOCK, b.encode());
    let bytes = msg.bytes();
    assert_eq!(bytes[0], 0x02);
    match default_rpc_decode(&bytes) {
        Ok(Decoded::Block(d)) => assert_eq!(d.hash(), b.hash()),
        _ => panic!("expected a block payload"),
    }
}

#[test]
fn rpc_decode_unknown_type_and_empty() {
    let bytes = vec![0x99u8, 1, 2, 3];
    assert!(matches!(
        default_rpc_decode(&bytes),
        Err(DecodeError::UnknownMessageType(0x99))
    ));
    assert!(matches!(
        default_rpc_decode(&Vec::new()),
        Err(DecodeError::EmptyPayload)
    ));
}

#[test]
fn rpc_decode_garbage_payload_is_parse_error() {
    let bytes = vec![0x01u8, b'n', b'o', b't', b' ', b'j', b's', b'o', b'n'];
    assert!(matches!(default_rpc_decode(&bytes), Err(DecodeError::ParseError)));
    let bytes = vec![0x02u8, b'{'];
    assert!(matches!(default_rpc_decode(&bytes), Err(DecodeError::ParseError)));
}

#[test]
fn message_frames_payload_under_type_byte() {
    let msg = Message::new(MESSAGE_TYPE_TX, vec![0xaa, 0xbb]);
    assert_eq!(msg.bytes(), vec![0x01, 0xaa, 0xbb]);
}

#[test]
fn pool_add_same_hash_twice_keeps_len_one() {
    let mut pool = TxPool::new();
    let mut t1 = Transaction::new([0; 20], 5);
    t1.sign(&KeyPair::new(0));
    // same transfer data, so the same hash, signed by someone else
    let mut t2 = Transaction::new([0; 20], 5);
    t2.sign(&KeyPair::new(1));

    pool.add(t1);
    assert_eq!(pool.len(), 1);
    pool.add(t2);
    assert_eq!(pool.len(), 1);
}

#[test]
fn pool_membership_and_snapshot() {
    let mut pool = TxPool::new();
    let t1 = Transaction::new([0; 20], 5);
    let t2 = Transaction::new([1; 20], 6);
    assert!(!pool.has(&t1));
    pool.add(t1.clone());
    assert!(pool.has(&t1));
    assert!(!pool.has(&t2));
    pool.add(t2.clone());
    assert_eq!(pool.len(), 2);
    let snapshot = pool.transactions();
    assert_eq!(snapshot.len(), 2);
}

#[test]
fn handle_rpc_transaction_fills_mempool() {
    let mut chain = Blockchain::new(random_block(0, Vec::new()));
    let mut pool = TxPool::new();
    let mut t = Transaction::new([3; 20], 7);
    t.sign(&KeyPair::new(0));
    let bytes = Message::new(MESSAGE_TYPE_TX, t.encode()).bytes();
    let r = handle_rpc_payload(&mut chain, &mut pool, &bytes);
    assert!(matches!(r, Ok(Handled::TransactionAdded)));
    assert_eq!(pool.len(), 1);
    assert!(pool.has(&t));
    assert_eq!(chain.height(), 0);
}

#[test]
fn handle_rpc_block_appends_to_chain() {
    let mut chain = Blockchain::new(random_block(0, Vec::new()));
    let mut pool = TxPool::new();
    let prev_hash = chain.get_block(0).unwrap().hash();
    let block = random_block(1, prev_hash);
    let bytes = Message::new(MESSAGE_TYPE_BLOCK, block.encode()).bytes();
    let r = handle_rpc_payload(&mut chain, &mut pool, &bytes);
    assert!(matches!(r, Ok(Handled::BlockAppended)));
    assert_eq!(chain.height(), 1);
    assert_eq!(pool.len(), 0);
}

#[test]
fn handle_rpc_rejected_block_leaves_chain_unchanged() {
    let mut chain = Blockchain::new(random_block(0, Vec::new()));
    let mut pool = TxPool::new();
    // a block claiming the occupied height
    let block = random_block(0, Vec::new());
    let bytes = Message::new(MESSAGE_TYPE_BLOCK, block.encode()).bytes();
    let r = handle_rpc_payload(&mut chain, &mut pool, &bytes);
    assert!(matches!(r, Err(NodeError::Validation(_))));
    assert_eq!(chain.height(), 0);
}

#[test]
fn validator_mints_sequential_blocks() {
    let mut chain = Blockchain::new(genesis_block());
    assert_eq!(create_new_block(&mut chain), Ok(()));
    assert_eq!(create_new_block(&mut chain), Ok(()));
    assert_eq!(chain.height(), 2);
}

#[test]
fn apply_decoded_feeds_chain_and_pool() {
    let mut chain = Blockchain::new(random_block(0, Vec::new()));
    let mut pool = TxPool::new();
    let prev_hash = chain.get_block(0).unwrap().hash();
    let block = random_block(1, prev_hash);
    assert!(block.check_wf());
    let r = apply_decoded(&mut chain, &mut pool, Decoded::Block(block));
    assert!(matches!(r, Ok(Handled::BlockAppended)));
    assert_eq!(chain.height(), 1);

    let mut t = Transaction::new([9; 20], 4);
    t.sign(&KeyPair::new(0));
    let r = apply_decoded(&mut chain, &mut pool, Decoded::Transaction(t));
    assert!(matches!(r, Ok(Handled::TransactionAdded)));
    assert_eq!(pool.len(), 1);
}

#[test]
fn check_wf_rejects_unprintable_strings() {
    let mut t = Transaction::new([0; 20], 1);
    assert!(t.check_wf());
    t.signature = Some(vec![0x01]);
    assert!(!t.check_wf());

    let mut b = random_block(0, Vec::new());
    assert!(b.check_wf());
    b.header.data_hash = vec![0x00];
    assert!(!b.check_wf());
}
