//! The ledger: an append-only, hash-linked sequence of blocks, indexed by
//! height with no gaps, accepting exactly the next sequential, correctly
//! linked, internally valid block.

use vstd::prelude::*;
use crate::block::{
    Block, Header, header_hash, spec_block_ok, txs_first_err, spec_data_hash,
    lemma_txs_first_err_kind,
};
use crate::codec::bytes_eq;
use crate::errors::ValidationError;

verus! {

/// The append-only chain. Index in the block sequence equals block height.
#[derive(Debug)]
pub struct Blockchain {
    blocks: Vec<Block>,
}

/// Whether the chain accepts `b` as its next block: the next sequential
/// height, linked to the current head, and internally valid.
pub open spec fn chain_accepts(c: Blockchain, b: Block) -> bool {
    &&& b.header.height == c.blocks_view().len()
    &&& b.header.prev_block_hash@ == header_hash(c.blocks_view().last().header)
    &&& spec_block_ok(b)
}

impl Blockchain {
    /// The blocks, in height order.
    pub closed spec fn blocks_view(self) -> Seq<Block> {
        self.blocks@
    }

    /// The height of the chain head: the sequence is never empty.
    pub open spec fn spec_height(self) -> int {
        self.blocks_view().len() - 1
    }

    /// Chain invariant: non-empty; each block well formed, stored at its own
    /// height; every block past the genesis linked to its predecessor by
    /// hash.
    pub open spec fn wf(self) -> bool {
        &&& self.blocks_view().len() >= 1
        &&& forall|i: int| 0 <= i < self.blocks_view().len()
            ==> (#[trigger] self.blocks_view()[i]).header.height == i
        &&& forall|i: int| 0 <= i < self.blocks_view().len()
            ==> (#[trigger] self.blocks_view()[i]).wf()
        &&& forall|i: int| 1 <= i < self.blocks_view().len()
            ==> (#[trigger] self.blocks_view()[i]).header.prev_block_hash@
                == header_hash(self.blocks_view()[i - 1].header)
    }

    /// Start a chain from its genesis block, which sits at height zero.
    pub fn new(genesis: Block) -> (c: Blockchain)
        requires
            genesis.wf(),
            genesis.header.height == 0,
        ensures
            c.wf(),
            c.blocks_view() == seq![genesis],
    {
        let mut blocks: Vec<Block> = Vec::new();
        blocks.push(genesis);
        let c = Blockchain { blocks };
        proof {
            assert(c.blocks_view() =~= seq![genesis]);
        }
        c
    }

    /// The height of the chain head.
    pub fn height(&self) -> (r: u32)
        requires
            self.wf(),
        ensures
            r == self.spec_height(),
    {
        proof {
            assert(self.blocks_view()[self.blocks_view().len() - 1].header.height
                == self.blocks_view().len() - 1);
        }
        (self.blocks.len() - 1) as u32
    }

    /// Whether some block already occupies the given height.
    pub fn has_block(&self, height: u32) -> (r: bool)
        requires
            self.wf(),
        ensures
            r == (height <= self.spec_height()),
    {
        height <= self.height()
    }

    /// The block at a height; heights beyond the head are out of range.
    pub fn get_block(&self, height: u32) -> (r: Result<&Block, ValidationError>)
        requires
            self.wf(),
        ensures
            match r {
                Ok(b) => height <= self.spec_height() && *b == self.blocks_view()[height as int],
                Err(e) => height > self.spec_height() && e == ValidationError::HeightOutOfRange,
            },
    {
        if height > self.height() {
            return Err(ValidationError::HeightOutOfRange);
        }
        Ok(&self.blocks[height as usize])
    }

    /// The header at a height; heights beyond the head are out of range.
    pub fn get_header(&self, height: u32) -> (r: Result<&Header, ValidationError>)
        requires
            self.wf(),
        ensures
            match r {
                Ok(h) => height <= self.spec_height()
                    && *h == self.blocks_view()[height as int].header,
                Err(e) => height > self.spec_height() && e == ValidationError::HeightOutOfRange,
            },
    {
        let block = self.get_block(height)?;
        Ok(&block.header)
    }

    /// Validate a candidate block against the chain, in order: an occupied
    /// height, then a height that skips ahead, then a broken link to the
    /// head, then the block's own validity.
    pub fn verify(&self, block: &Block) -> (r: Result<(), ValidationError>)
        requires
            self.wf(),
            block.wf(),
        ensures
            r is Ok <==> chain_accepts(*self, *block),
            (r == Err::<(), ValidationError>(ValidationError::DuplicateHeight))
                <==> block.header.height <= self.spec_height(),
            (r == Err::<(), ValidationError>(ValidationError::HeightMismatch))
                <==> block.header.height > self.spec_height() + 1,
            (r == Err::<(), ValidationError>(ValidationError::InvalidLink))
                <==> (block.header.height == self.spec_height() + 1
                    && block.header.prev_block_hash@
                        != header_hash(self.blocks_view().last().header)),
            block.header.height == self.spec_height() + 1
                && block.header.prev_block_hash@ == header_hash(self.blocks_view().last().header)
                && txs_first_err(block.transactions@) is Err
                ==> r == txs_first_err(block.transactions@),
            block.header.height == self.spec_height() + 1
                && block.header.prev_block_hash@ == header_hash(self.blocks_view().last().header)
                && txs_first_err(block.transactions@) is Ok
                && block.header.data_hash@ != spec_data_hash(block.transactions@)
                ==> (r matches Err(ValidationError::DataHashMismatch(h))
                    && h@ == header_hash(block.header)),
    {
        if self.has_block(block.header.height) {
            return Err(ValidationError::DuplicateHeight);
        }
        if block.header.height != self.height() + 1 {
            return Err(ValidationError::HeightMismatch);
        }
        let prev_header = match self.get_header(block.header.height - 1) {
            Ok(h) => h,
            Err(_) => {
                return Err(ValidationError::HeightOutOfRange);
            }
        };
        proof {
            assert(self.blocks_view()[self.spec_height()].wf());
            assert(self.blocks_view().last() == self.blocks_view()[self.spec_height()]);
        }
        let prev_hash = prev_header.hash();
        if !bytes_eq(&block.header.prev_block_hash, &prev_hash) {
            return Err(ValidationError::InvalidLink);
        }
        let r = block.verify();
        proof {
            lemma_txs_first_err_kind(block.transactions@);
        }
        r
    }

    /// Validate, then append: on any failure the chain is unchanged; on
    /// success the block becomes the new head.
    pub fn add_block(&mut self, block: Block) -> (r: Result<(), ValidationError>)
        requires
            old(self).wf(),
            block.wf(),
        ensures
            final(self).wf(),
            r is Ok <==> chain_accepts(*old(self), block),
            r is Ok ==> final(self).blocks_view() == old(self).blocks_view().push(block),
            r is Err ==> final(self).blocks_view() == old(self).blocks_view(),
            (r == Err::<(), ValidationError>(ValidationError::DuplicateHeight))
                <==> block.header.height <= old(self).spec_height(),
            (r == Err::<(), ValidationError>(ValidationError::HeightMismatch))
                <==> block.header.height > old(self).spec_height() + 1,
            (r == Err::<(), ValidationError>(ValidationError::InvalidLink))
                <==> (block.header.height == old(self).spec_height() + 1
                    && block.header.prev_block_hash@
                        != header_hash(old(self).blocks_view().last().header)),
    {
        match self.verify(&block) {
            Err(e) => {
                return Err(e);
            }
            Ok(_) => {}
        }
        let ghost pre = self.blocks@;
        self.blocks.push(block);
        proof {
            let post = self.blocks@;
            assert(post == pre.push(block));
            assert forall|i: int| 0 <= i < post.len()
                implies (#[trigger] post[i]).header.height == i by {
                if i < pre.len() {
                    assert(post[i] == pre[i]);
                }
            }
            assert forall|i: int| 0 <= i < post.len() implies (#[trigger] post[i]).wf() by {
                if i < pre.len() {
                    assert(post[i] == pre[i]);
                }
            }
            assert forall|i: int| 1 <= i < post.len()
                implies (#[trigger] post[i]).header.prev_block_hash@
                    == header_hash(post[i - 1].header) by {
                if i < pre.len() {
                    assert(post[i] == pre[i]);
                    assert(post[i - 1] == pre[i - 1]);
                } else {
                    assert(post[i] == block);
                    assert(post[i - 1] == pre.last());
                }
            }
        }
        Ok(())
    }
}

} // verus!
