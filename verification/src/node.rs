//! Node-level logic shared by the dispatch loop and the validator: the
//! genesis block, block production on top of the current head, and the
//! handling of one decoded gossip message against the ledger and mempool.

use vstd::prelude::*;
use crate::block::{
    Block, Header, new_block, new_block_from_prev_header, new_header, header_encoding,
    header_hash, block_parts, spec_decode_block, txs_first_err,
};
use crate::blockchain::{Blockchain, chain_accepts};
use crate::codec::push_bytes;
use crate::errors::{DecodeError, NodeError, ValidationError};
use crate::rpc::{default_rpc_decode, Decoded, MESSAGE_TYPE_TX, MESSAGE_TYPE_BLOCK};
use crate::transaction::{Transaction, tx_hash, tx_parts, spec_decode_tx};
use crate::txpool::{TxPool, contains_hash};

verus! {

/// The fixed block every chain starts from: height zero, no transactions,
/// empty hashes.
pub fn genesis_block() -> (b: Block)
    ensures
        b.wf(),
        b.header.version == 1,
        b.header.height == 0,
        b.header.timestamp == 0,
        b.header.data_hash@ == Seq::<u8>::empty(),
        b.header.prev_block_hash@ == Seq::<u8>::empty(),
        b.transactions@ == Seq::<Transaction>::empty(),
{
    let header = new_header(1, Vec::new(), Vec::new(), 0, 0);
    new_block(header, Vec::new())
}

/// A copy of a header, field by field.
fn clone_header(h: &Header) -> (r: Header)
    ensures
        r.version == h.version,
        r.data_hash@ == h.data_hash@,
        r.timestamp == h.timestamp,
        r.prev_block_hash@ == h.prev_block_hash@,
        r.height == h.height,
{
    let mut data_hash: Vec<u8> = Vec::new();
    push_bytes(&mut data_hash, &h.data_hash);
    let mut prev_block_hash: Vec<u8> = Vec::new();
    push_bytes(&mut prev_block_hash, &h.prev_block_hash);
    Header {
        version: h.version,
        data_hash,
        timestamp: h.timestamp,
        prev_block_hash,
        height: h.height,
    }
}

/// Mint the next block on top of the chain head, with no transactions, and
/// append it; a block built this way is always accepted.
pub fn create_new_block(chain: &mut Blockchain) -> (r: Result<(), ValidationError>)
    requires
        old(chain).wf(),
        old(chain).spec_height() < u32::MAX,
    ensures
        final(chain).wf(),
        r is Ok,
        final(chain).blocks_view().len() == old(chain).blocks_view().len() + 1,
        final(chain).blocks_view().last().header.prev_block_hash@
            == header_hash(old(chain).blocks_view().last().header),
{
    let height = chain.height();
    let prev = match chain.get_header(height) {
        Ok(h) => clone_header(h),
        Err(_) => {
            proof {
                assert(false);
            }
            return Err(ValidationError::HeightOutOfRange);
        }
    };
    proof {
        assert(chain.blocks_view()[height as int] == chain.blocks_view().last());
        assert(chain.blocks_view().last().wf());
        assert(header_encoding(prev) == header_encoding(chain.blocks_view().last().header));
    }
    let block = new_block_from_prev_header(&prev, Vec::new());
    proof {
        assert(txs_first_err(block.transactions@) is Ok);
        assert(chain_accepts(*chain, block));
    }
    let r = chain.add_block(block);
    proof {
        assert(r is Ok);
    }
    r
}

/// What handling one wire message did to the node's state.
#[derive(Debug, Clone, PartialEq, Eq)]
pub enum Handled {
    /// The payload was a transaction; it is now in the mempool.
    TransactionAdded,
    /// The payload was a block; it was validated and appended.
    BlockAppended,
}

/// Apply one decoded gossip payload: a transaction is put in the mempool, a
/// block is validated against the chain and appended. No failure mutates any
/// state. The decoder is a configuration point; this is the step every
/// decoder feeds.
pub fn apply_decoded(chain: &mut Blockchain, pool: &mut TxPool, d: Decoded)
    -> (r: Result<Handled, NodeError>)
    requires
        old(chain).wf(),
        old(pool).wf(),
        d matches Decoded::Block(b) ==> b.wf(),
    ensures
        final(chain).wf(),
        final(pool).wf(),
        r is Err ==> final(chain).blocks_view() == old(chain).blocks_view()
            && final(pool).pool_view() == old(pool).pool_view(),
        match d {
            Decoded::Transaction(t) => r == Ok::<Handled, NodeError>(Handled::TransactionAdded)
                && final(chain).blocks_view() == old(chain).blocks_view()
                && contains_hash(final(pool).pool_view(), tx_hash(t.data)),
            Decoded::Block(b) => match r {
                Ok(h) => h == Handled::BlockAppended
                    && final(pool).pool_view() == old(pool).pool_view()
                    && chain_accepts(*old(chain), b)
                    && final(chain).blocks_view() == old(chain).blocks_view().push(b),
                Err(e) => !chain_accepts(*old(chain), b)
                    && (e matches NodeError::Validation(_)),
            },
        },
{
    match d {
        Decoded::Transaction(t) => {
            pool.add(t);
            Ok(Handled::TransactionAdded)
        }
        Decoded::Block(b) => {
            match chain.add_block(b) {
                Ok(_) => Ok(Handled::BlockAppended),
                Err(e) => Err(NodeError::Validation(e)),
            }
        }
    }
}

/// Apply one received wire message under the standard decoder: a transaction
/// is put in the mempool, a block is validated against the chain and
/// appended. No failure mutates any state.
pub fn handle_rpc_payload(chain: &mut Blockchain, pool: &mut TxPool, data: &Vec<u8>)
    -> (r: Result<Handled, NodeError>)
    requires
        old(chain).wf(),
        old(pool).wf(),
    ensures
        final(chain).wf(),
        final(pool).wf(),
        r is Err ==> final(chain).blocks_view() == old(chain).blocks_view()
            && final(pool).pool_view() == old(pool).pool_view(),
        data@.len() == 0
            ==> r == Err::<Handled, NodeError>(NodeError::Decode(DecodeError::EmptyPayload)),
        data@.len() > 0 && data@[0] != MESSAGE_TYPE_TX && data@[0] != MESSAGE_TYPE_BLOCK
            ==> r == Err::<Handled, NodeError>(NodeError::Decode(
                DecodeError::UnknownMessageType(data@[0]))),
        data@.len() > 0 && data@[0] == MESSAGE_TYPE_TX ==> (match r {
            Ok(h) => h == Handled::TransactionAdded
                && final(chain).blocks_view() == old(chain).blocks_view()
                && exists|t: Transaction| #![auto]
                    spec_decode_tx(data@.drop_first()) == Some(tx_parts(t))
                    && contains_hash(final(pool).pool_view(), tx_hash(t.data)),
            Err(e) => e == NodeError::Decode(DecodeError::ParseError)
                && spec_decode_tx(data@.drop_first()) is None,
        }),
        data@.len() > 0 && data@[0] == MESSAGE_TYPE_BLOCK ==> (match r {
            Ok(h) => h == Handled::BlockAppended
                && final(pool).pool_view() == old(pool).pool_view()
                && exists|b: Block| #![auto]
                    spec_decode_block(data@.drop_first()) == Some(block_parts(b))
                    && chain_accepts(*old(chain), b)
                    && final(chain).blocks_view() == old(chain).blocks_view().push(b),
            Err(NodeError::Decode(e)) => e == DecodeError::ParseError
                && spec_decode_block(data@.drop_first()) is None,
            Err(NodeError::Validation(e)) => exists|b: Block| #![auto]
                spec_decode_block(data@.drop_first()) == Some(block_parts(b))
                && !chain_accepts(*old(chain), b),
        }),
{
    match default_rpc_decode(data) {
        Err(e) => Err(NodeError::Decode(e)),
        Ok(d) => {
            let ghost gd = d;
            apply_decoded(chain, pool, d)
        }
    }
}

} // verus!
