use poa_ledger::block::{calculate_data_hash, decode_block, new_block, new_block_from_prev_header, new_header, random_block};
use poa_ledger::blockchain::Blockchain;
use poa_ledger::errors::ValidationError;
use poa_ledger::keypair::KeyPair;
use poa_ledger::node::genesis_block;
use poa_ledger::transaction::{decode_transaction, Transaction};

#[test]
fn test_encode_decode_block() {
    let b = random_block(0, Vec::new());

    let data = b.encode();
    println!("{}", String::from_utf8(data.clone()).unwrap());
    let b_decode = decode_block(&data).unwrap();

    assert_eq!(b.hash() == b_decode.hash(), true);
}

#[test]
fn test_verify_block() {
    let mut b = random_block(0, Vec::new());

    assert_eq!(b.verify().is_ok(), true);

    let other_tx = Transaction::new([0; 20], 5);
    // don't sign transaction
    b.transactions.push(other_tx);

    assert_eq!(b.verify().is_ok(), false);

    // remove transaction
    b.transactions.pop();
    assert_eq!(b.verify().is_ok(), true);

    b.header.data_hash = b"invalid hash".to_vec();
    assert_eq!(b.verify().is_ok(), false);
}

fn new_blockchain_with_genesis() -> Blockchain {
    let block = random_block(0, Vec::new());
    Blockchain::new(block)
}

fn prev_block_hash(bc: &Blockchain, height: u32) -> Vec<u8> {
    let prev_block = bc.get_block(height - 1);
    prev_block.unwrap().header.hash()
}

#[test]
fn test_add_block() {
    let mut bc = new_blockchain_with_genesis();
    let new_block = random_block(1, prev_block_hash(&bc, 1));
    let r = bc.add_block(new_block);
    println!("{:?}", r);
    println!("{}", r.is_ok());
    println!("{:?}", bc);
}

#[test]
fn test_encode_decode_transaction() {
    let t = Transaction::new([0; 20], 5);
    println!("{}", String::from_utf8(t.hash()).unwrap());

    let mut data = t.encode();

    println!("{}", String::from_utf8(data.clone()).unwrap());
    let t_decode1 = decode_transaction(&data);
    assert_eq!(t_decode1.is_ok(), true);
    assert_eq!(t.hash() == t_decode1.unwrap().hash(), true);

    data.push(b'a');
    let t_decode2 = decode_transaction(&data);
    assert_eq!(t_decode2.is_err(), true);
}

#[test]
fn test_sign() {
    let key_pair = KeyPair::new(0);
    let mut t = Transaction::new([0; 20], 5);
    println!("{}", String::from_utf8(t.hash()).unwrap());

    t.sign(&key_pair);
    assert_eq!(t.verify(), Ok(()));
}

#[test]
fn tx_hash_is_exact_digest_of_canonical_encoding() {
    // sha256 of `{"to":[0,...,0],"amount":5}`, twenty zero bytes.
    let t = Transaction::new([0; 20], 5);
    assert_eq!(
        t.encode_for_hash(),
        b"{\"to\":[0,0,0,0,0,0,0,0,0,0,0,0,0,0,0,0,0,0,0,0],\"amount\":5}".to_vec()
    );
    assert_eq!(
        t.hash(),
        b"e074458e6c12a15013ffa3019b1bcec2223e1a0501f3ef27303b56f8cd75f137".to_vec()
    );
}

#[test]
fn tx_hash_stable_across_signing() {
    let mut t = Transaction::new([7; 20], 123456789);
    let before = t.hash();
    t.sign(&KeyPair::new(3));
    assert_eq!(t.hash(), before);
}

#[test]
fn unsigned_transaction_fails_with_missing_signature() {
    let t = Transaction::new([1; 20], 9);
    assert_eq!(t.verify(), Err(ValidationError::MissingSignature));
}

#[test]
fn tampered_signature_fails_with_invalid_signature() {
    let mut t = Transaction::new([1; 20], 9);
    t.sign(&KeyPair::new(0));
    // signature taken from a different transaction
    let mut other = Transaction::new([2; 20], 10);
    other.sign(&KeyPair::new(0));
    t.signature = other.signature.clone();
    assert_eq!(t.verify(), Err(ValidationError::InvalidSignature));
}

#[test]
fn genesis_then_successor_reaches_height_one() {
    // genesis at height 0 carrying one signed transfer of 5 to the zero address
    let genesis = random_block(0, Vec::new());
    let mut bc = Blockchain::new(genesis);
    assert_eq!(bc.height(), 0);

    let prev = bc.get_header(0).unwrap().clone();
    let block = new_block_from_prev_header(&prev, Vec::new());
    assert_eq!(bc.add_block(block), Ok(()));
    assert_eq!(bc.height(), 1);
}

#[test]
fn second_block_at_height_one_is_rejected() {
    let genesis = random_block(0, Vec::new());
    let mut bc = Blockchain::new(genesis);
    let prev = bc.get_header(0).unwrap().clone();
    let block = new_block_from_prev_header(&prev, Vec::new());
    assert_eq!(bc.add_block(block), Ok(()));
    assert_eq!(bc.height(), 1);

    let second = new_block_from_prev_header(&prev, Vec::new());
    assert_eq!(bc.add_block(second), Err(ValidationError::DuplicateHeight));
    assert_eq!(bc.height(), 1);
}

#[test]
fn skipping_a_height_is_rejected() {
    let mut bc = new_blockchain_with_genesis();
    let prev = bc.get_header(0).unwrap().clone();
    let mut block = new_block_from_prev_header(&prev, Vec::new());
    block.header.height = 5;
    assert_eq!(bc.add_block(block), Err(ValidationError::HeightMismatch));
}

#[test]
fn wrong_previous_hash_is_rejected() {
    let mut bc = new_blockchain_with_genesis();
    let prev = bc.get_header(0).unwrap().clone();
    let mut block = new_block_from_prev_header(&prev, Vec::new());
    block.header.prev_block_hash = b"0000".to_vec();
    assert_eq!(bc.add_block(block), Err(ValidationError::InvalidLink));
}

#[test]
fn corrupt_data_hash_is_rejected_with_block_hash() {
    let mut bc = new_blockchain_with_genesis();
    let prev = bc.get_header(0).unwrap().clone();
    let mut block = new_block_from_prev_header(&prev, Vec::new());
    block.header.data_hash = b"not the digest".to_vec();
    let expected_hash = block.hash();
    assert_eq!(
        bc.add_block(block),
        Err(ValidationError::DataHashMismatch(expected_hash))
    );
    assert_eq!(bc.height(), 0);
}

#[test]
fn get_block_beyond_head_is_out_of_range() {
    let bc = new_blockchain_with_genesis();
    assert!(bc.get_block(0).is_ok());
    assert_eq!(bc.get_block(1).err(), Some(ValidationError::HeightOutOfRange));
    assert_eq!(bc.get_header(7).err(), Some(ValidationError::HeightOutOfRange));
    assert!(bc.has_block(0));
    assert!(!bc.has_block(1));
}

#[test]
fn data_hash_binds_transaction_set() {
    let mut t1 = Transaction::new([0; 20], 1);
    t1.sign(&KeyPair::new(0));
    let mut t2 = Transaction::new([1; 20], 2);
    t2.sign(&KeyPair::new(0));
    let one = calculate_data_hash(&vec![t1.clone()]);
    let two = calculate_data_hash(&vec![t1.clone(), t2.clone()]);
    assert_ne!(one, two);

    let header = new_header(0, two.clone(), Vec::new(), 0, 0);
    let block = new_block(header, vec![t1, t2]);
    assert_eq!(block.verify(), Ok(()));
}

#[test]
fn genesis_block_shape() {
    let g = genesis_block();
    assert_eq!(g.header.version, 1);
    assert_eq!(g.header.height, 0);
    assert_eq!(g.header.timestamp, 0);
    assert!(g.header.data_hash.is_empty());
    assert!(g.header.prev_block_hash.is_empty());
    assert!(g.transactions.is_empty());
}

#[test]
fn header_with_negative_timestamp_round_trips() {
    let mut b = random_block(0, Vec::new());
    b.header.timestamp = -12345;
    let data = b.encode();
    let d = decode_block(&data).unwrap();
    assert_eq!(d.header.timestamp, -12345);
    assert_eq!(d.hash(), b.hash());
}

#[test]
fn max_amount_round_trips() {
    let t = Transaction::new([0xff; 20], u64::MAX);
    let d = decode_transaction(&t.encode()).unwrap();
    assert_eq!(d.hash(), t.hash());
}

#[test]
fn oversized_amount_is_rejected() {
    let zeros = ["0"; 20].join(",");
    // one digit more than u64 can hold
    let json = format!(
        "{{\"public_key\":null,\"signature\":null,\"data\":{{\"to\":[{}],\"amount\":99999999999999999999}}}}",
        zeros
    );
    let r = decode_transaction(&json.into_bytes());
    assert!(r.is_err());
}
