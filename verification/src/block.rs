//! Headers and blocks.
//!
//! A header is hash-linked to its predecessor; its hash is the digest of its
//! canonical encoding. A block binds its ordered transactions to the header
//! through `data_hash`, the digest of the concatenated transaction hashes, so
//! a block's hash is simply its header's hash.

use vstd::prelude::*;
use crate::codec::{
    hex, plain, is_plain, lemma_hex_is_plain, quoted, dec_rep, dec_rep_i64,
    push_bytes, push_quoted, push_u64, push_i64, bytes_eq,
    lit_hdr_version, lit_hdr_data_hash, lit_hdr_timestamp, lit_hdr_prev, lit_hdr_height,
    lit_blk_header, lit_blk_txs,
    lit_hdr_version_vec, lit_hdr_data_hash_vec, lit_hdr_timestamp_vec, lit_hdr_prev_vec,
    lit_hdr_height_vec, lit_blk_header_vec, lit_blk_txs_vec,
    sp_lit, sp_byte, sp_nat, sp_int, sp_string, is_digit_byte,
    eat_lit, eat_byte, eat_nat, eat_i64, eat_string,
    lemma_sp_nat_inversion, lemma_sp_int_inversion, lemma_sp_string_inversion,
    lemma_sp_string_plain, lemma_peel,
};
use crate::errors::{DecodeError, ValidationError};
use crate::keypair::{digest_of, KeyPair, sha256_hex};
use crate::transaction::{
    Transaction, TxParts, tx_parts, tx_hash, tx_encoding, spec_tx_verify,
    sp_tx, eat_tx, lemma_sp_tx_at, lemma_tx_encoding_first,
};

verus! {

/// Per-block metadata: version, content digest, timestamp, linkage and
/// height. The header's hash is the digest of its canonical encoding.
#[derive(Debug, Clone)]
pub struct Header {
    pub version: u32,
    pub data_hash: crate::transaction::Hash,
    pub timestamp: i64,
    pub prev_block_hash: crate::transaction::Hash,
    pub height: u32,
}

/// Canonical encoding of a header: the input of its hash.
pub open spec fn header_encoding(h: Header) -> Seq<u8> {
    lit_hdr_version() + dec_rep(h.version as nat) + lit_hdr_data_hash() + quoted(h.data_hash@)
        + lit_hdr_timestamp() + dec_rep_i64(h.timestamp) + lit_hdr_prev()
        + quoted(h.prev_block_hash@) + lit_hdr_height() + dec_rep(h.height as nat)
        + seq![0x7du8]
}

/// The digest identifying a header (and the block it heads).
pub open spec fn header_hash(h: Header) -> Seq<u8> {
    digest_of(header_encoding(h))
}

impl Header {
    /// Both hash strings are plain, so the header has a canonical encoding.
    pub open spec fn wf(self) -> bool {
        plain(self.data_hash@) && plain(self.prev_block_hash@)
    }

    /// Runtime test for well-formedness, for callers at the trust boundary.
    pub fn check_wf(&self) -> (r: bool)
        ensures
            r == self.wf(),
    {
        is_plain(&self.data_hash) && is_plain(&self.prev_block_hash)
    }

    /// Canonical encoding: the hash input.
    pub fn encode(&self) -> (r: Vec<u8>)
        requires
            self.wf(),
        ensures
            r@ == header_encoding(*self),
    {
        let mut out: Vec<u8> = Vec::new();
        let l = lit_hdr_version_vec();
        push_bytes(&mut out, &l);
        push_u64(&mut out, self.version as u64);
        let l = lit_hdr_data_hash_vec();
        push_bytes(&mut out, &l);
        push_quoted(&mut out, &self.data_hash);
        let l = lit_hdr_timestamp_vec();
        push_bytes(&mut out, &l);
        push_i64(&mut out, self.timestamp);
        let l = lit_hdr_prev_vec();
        push_bytes(&mut out, &l);
        push_quoted(&mut out, &self.prev_block_hash);
        let l = lit_hdr_height_vec();
        push_bytes(&mut out, &l);
        push_u64(&mut out, self.height as u64);
        out.push(0x7d);
        assert(out@ =~= header_encoding(*self));
        out
    }

    /// The identifying digest of this header.
    pub fn hash(&self) -> (r: crate::transaction::Hash)
        requires
            self.wf(),
        ensures
            r@ == header_hash(*self),
            hex(r@),
    {
        let enc = self.encode();
        sha256_hex(&enc)
    }
}

/// Build a header from explicit fields.
pub fn new_header(version: u32, data_hash: crate::transaction::Hash, prev_block_hash: crate::transaction::Hash, timestamp: i64, height: u32)
    -> (h: Header)
    ensures
        h.version == version,
        h.data_hash@ == data_hash@,
        h.timestamp == timestamp,
        h.prev_block_hash@ == prev_block_hash@,
        h.height == height,
{
    Header { version, data_hash, timestamp, prev_block_hash, height }
}

/// An ordered batch of transactions under the header that binds them.
#[derive(Debug, Clone)]
pub struct Block {
    pub header: Header,
    pub transactions: Vec<Transaction>,
}

/// The concatenated hashes of a transaction list, in order: the input of a
/// block's data hash.
pub open spec fn concat_tx_hashes(ts: Seq<Transaction>) -> Seq<u8>
    decreases ts.len(),
{
    if ts.len() == 0 {
        seq![]
    } else {
        tx_hash(ts[0].data) + concat_tx_hashes(ts.drop_first())
    }
}

/// The digest binding a transaction list to a header.
pub open spec fn spec_data_hash(ts: Seq<Transaction>) -> Seq<u8> {
    digest_of(concat_tx_hashes(ts))
}

/// The first validation failure among the transactions, in order.
pub open spec fn txs_first_err(ts: Seq<Transaction>) -> Result<(), ValidationError>
    decreases ts.len(),
{
    if ts.len() == 0 {
        Ok(())
    } else if spec_tx_verify(ts[0]) is Err {
        spec_tx_verify(ts[0])
    } else {
        txs_first_err(ts.drop_first())
    }
}

/// A block is internally valid when every transaction verifies and the
/// declared data hash matches the transactions.
pub open spec fn spec_block_ok(b: Block) -> bool {
    txs_first_err(b.transactions@) is Ok
        && b.header.data_hash@ == spec_data_hash(b.transactions@)
}

impl Block {
    /// The header and every transaction can be canonically encoded.
    pub open spec fn wf(self) -> bool {
        &&& self.header.wf()
        &&& forall|k: int| 0 <= k < self.transactions@.len()
            ==> (#[trigger] self.transactions@[k]).wf()
    }

    /// Runtime test for well-formedness, for callers at the trust boundary.
    pub fn check_wf(&self) -> (r: bool)
        ensures
            r == self.wf(),
    {
        if !self.header.check_wf() {
            return false;
        }
        let n = self.transactions.len();
        let mut k: usize = 0;
        while k < n
            invariant
                n == self.transactions@.len(),
                k <= n,
                forall|m: int| 0 <= m < k ==> (#[trigger] self.transactions@[m]).wf(),
            decreases n - k,
        {
            if !self.transactions[k].check_wf() {
                return false;
            }
            k = k + 1;
        }
        true
    }

    /// A block's hash is its header's hash; the body is bound to the header
    /// through `data_hash`, not hashed directly.
    pub fn hash(&self) -> (r: crate::transaction::Hash)
        requires
            self.header.wf(),
        ensures
            r@ == header_hash(self.header),
            hex(r@),
    {
        self.header.hash()
    }

    /// Validate this block in isolation: every transaction must verify, in
    /// order, and the recomputed data hash must match the header's.
    pub fn verify(&self) -> (r: Result<(), ValidationError>)
        requires
            self.wf(),
        ensures
            r is Ok <==> spec_block_ok(*self),
            txs_first_err(self.transactions@) is Err ==> r == txs_first_err(self.transactions@),
            txs_first_err(self.transactions@) is Ok
                && self.header.data_hash@ != spec_data_hash(self.transactions@)
                ==> (r matches Err(ValidationError::DataHashMismatch(h))
                    && h@ == header_hash(self.header)),
    {
        let ghost ts = self.transactions@;
        let n = self.transactions.len();
        let mut k: usize = 0;
        while k < n
            invariant
                ts == self.transactions@,
                n == ts.len(),
                k <= n,
                self.wf(),
                forall|m: int| 0 <= m < k ==> spec_tx_verify(#[trigger] ts[m]) is Ok,
            decreases n - k,
        {
            match self.transactions[k].verify() {
                Ok(_) => {}
                Err(e) => {
                    proof {
                        lemma_txs_first_err_skip(ts, k as int);
                        assert(ts.skip(k as int)[0] == ts[k as int]);
                    }
                    return Err(e);
                }
            }
            k = k + 1;
        }
        proof {
            lemma_txs_first_err_skip(ts, n as int);
            assert(ts.skip(n as int) =~= Seq::<Transaction>::empty());
        }
        let data_hash = calculate_data_hash(&self.transactions);
        if !bytes_eq(&data_hash, &self.header.data_hash) {
            return Err(ValidationError::DataHashMismatch(self.hash()));
        }
        Ok(())
    }
}

/// When the first `k` transactions verify, the first failure (if any) lies in
/// the remainder.
proof fn lemma_txs_first_err_skip(ts: Seq<Transaction>, k: int)
    requires
        0 <= k <= ts.len(),
        forall|m: int| 0 <= m < k ==> spec_tx_verify(#[trigger] ts[m]) is Ok,
    ensures
        txs_first_err(ts) == txs_first_err(ts.skip(k)),
    decreases k,
{
    if k > 0 {
        lemma_txs_first_err_skip(ts, k - 1);
        let u = ts.skip(k - 1);
        assert(u[0] == ts[k - 1]);
        assert(u.drop_first() =~= ts.skip(k));
    } else {
        assert(ts.skip(0) =~= ts);
    }
}

/// When every transaction verifies, none is the first failure: a block whose
/// transactions all verify and whose data hash matches is valid.
pub proof fn lemma_all_txs_verify(ts: Seq<Transaction>)
    requires
        forall|k: int| 0 <= k < ts.len() ==> spec_tx_verify(#[trigger] ts[k]) is Ok,
    ensures
        txs_first_err(ts) is Ok,
    decreases ts.len(),
{
    if ts.len() > 0 {
        assert(forall|k: int| 0 <= k < ts.drop_first().len()
            ==> ts.drop_first()[k] == ts[k + 1]);
        lemma_all_txs_verify(ts.drop_first());
    }
}

/// A block holding a transaction that does not verify is invalid, whatever
/// its data hash says.
pub proof fn lemma_failing_tx_at(ts: Seq<Transaction>, k: int)
    requires
        0 <= k < ts.len(),
        spec_tx_verify(ts[k]) is Err,
    ensures
        txs_first_err(ts) is Err,
    decreases k,
{
    if !(spec_tx_verify(ts[0]) is Err) {
        assert(k > 0);
        assert(ts.drop_first()[k - 1] == ts[k]);
        lemma_failing_tx_at(ts.drop_first(), k - 1);
    }
}

/// Appending a transaction that does not verify to a block's batch makes the
/// block invalid.
pub proof fn lemma_invalid_tx_rejected(b: Block, c: Block, t: Transaction)
    requires
        c.transactions@ == b.transactions@.push(t),
        spec_tx_verify(t) is Err,
    ensures
        !spec_block_ok(c),
{
    assert(c.transactions@[b.transactions@.len() as int] == t);
    lemma_failing_tx_at(c.transactions@, b.transactions@.len() as int);
}

/// Replacing a valid block's data hash with any other value makes it invalid.
pub proof fn lemma_corrupt_data_hash_rejected(b: Block, c: Block)
    requires
        spec_block_ok(b),
        c.transactions@ == b.transactions@,
        c.header.data_hash@ != b.header.data_hash@,
    ensures
        !spec_block_ok(c),
{
}

/// A transaction-level failure is always a signature failure.
pub proof fn lemma_txs_first_err_kind(ts: Seq<Transaction>)
    ensures
        txs_first_err(ts) matches Err(e)
            ==> (e == ValidationError::MissingSignature || e == ValidationError::InvalidSignature),
    decreases ts.len(),
{
    if ts.len() > 0 && !(spec_tx_verify(ts[0]) is Err) {
        lemma_txs_first_err_kind(ts.drop_first());
    }
}

/// Build a block from a header and a transaction batch.
pub fn new_block(header: Header, transactions: Vec<Transaction>) -> (b: Block)
    ensures
        b.header == header,
        b.transactions@ == transactions@,
{
    Block { header, transactions }
}

/// Digest of the concatenated transaction hashes, in order.
pub fn calculate_data_hash(transactions: &Vec<Transaction>) -> (r: crate::transaction::Hash)
    ensures
        r@ == spec_data_hash(transactions@),
        hex(r@),
{
    let ghost ts = transactions@;
    let n = transactions.len();
    let mut joined: Vec<u8> = Vec::new();
    assert(ts.skip(0) =~= ts);
    let mut k: usize = 0;
    while k < n
        invariant
            ts == transactions@,
            n == ts.len(),
            k <= n,
            joined@ + concat_tx_hashes(ts.skip(k as int)) == concat_tx_hashes(ts),
        decreases n - k,
    {
        proof {
            assert(ts.skip(k as int)[0] == ts[k as int]);
            assert(ts.skip(k as int).drop_first() =~= ts.skip(k as int + 1));
        }
        let h = transactions[k].hash();
        push_bytes(&mut joined, &h);
        k = k + 1;
    }
    proof {
        assert(concat_tx_hashes(ts.skip(n as int)) =~= Seq::<u8>::empty());
        assert(joined@ =~= joined@ + concat_tx_hashes(ts.skip(n as int)));
    }
    sha256_hex(&joined)
}

/// Relies on std::time::SystemTime for the wall clock in milliseconds;
/// nothing is assumed of the value.
#[verifier::external_body]
fn now_millis() -> i64 {
    match std::time::SystemTime::now().duration_since(std::time::UNIX_EPOCH) {
        Ok(d) => d.as_millis() as i64,
        Err(_) => 0,
    }
}

/// Derive the successor block of `prev_header` carrying `transactions`: the
/// data hash is recomputed, the height is one higher, the linkage hash is the
/// predecessor's hash and the timestamp is the wall clock now.
pub fn new_block_from_prev_header(prev_header: &Header, transactions: Vec<Transaction>)
    -> (b: Block)
    requires
        prev_header.wf(),
        prev_header.height < u32::MAX,
    ensures
        b.header.version == 0,
        b.header.data_hash@ == spec_data_hash(b.transactions@),
        b.header.height == prev_header.height + 1,
        b.header.prev_block_hash@ == header_hash(*prev_header),
        b.transactions@ == transactions@,
        b.header.wf(),
    {
        let data_hash = calculate_data_hash(&transactions);
        proof {
            lemma_hex_is_plain(data_hash@);
        }
        let prev_hash = prev_header.hash();
        proof {
            lemma_hex_is_plain(prev_hash@);
        }
        let header = Header {
            version: 0,
            data_hash,
            timestamp: now_millis(),
            height: prev_header.height + 1,
            prev_block_hash: prev_hash,
        };
        new_block(header, transactions)
    }

/// A ready-made internally valid block for exercising the chain: one signed
/// transfer of 5 to the zero address, under a header carrying the given
/// height and predecessor hash.
pub fn random_block(height: u32, prev_hash: crate::transaction::Hash) -> (b: Block)
    requires
        plain(prev_hash@),
    ensures
        b.wf(),
        spec_block_ok(b),
        b.header.height == height,
        b.header.prev_block_hash@ == prev_hash@,
        b.header.version == 0,
        b.header.timestamp == 0,
    {
        let mut tx = Transaction::new([0; 20], 5);
        let key_pair = KeyPair::new(0);
        tx.sign(&key_pair);
        let mut txs: Vec<Transaction> = Vec::new();
        txs.push(tx);
        let data_hash = calculate_data_hash(&txs);
        proof {
            lemma_hex_is_plain(data_hash@);
        }
        let header = new_header(0, data_hash, prev_hash, 0, height);
        let b = Block { header, transactions: txs };
        proof {
            assert(b.transactions@.skip(1) =~= Seq::<Transaction>::empty());
            assert(txs_first_err(b.transactions@.skip(1)) is Ok);
        }
        b
    }

// ---------------------------------------------------------------------------
// Wire codec for headers and blocks.
// ---------------------------------------------------------------------------

/// The parsed fields of a header: version, data hash, timestamp, previous
/// block hash, height.
pub type HeaderParts = (u32, Seq<u8>, i64, Seq<u8>, u32);

/// The fields a header contributes to the wire format.
pub open spec fn header_parts(h: Header) -> HeaderParts {
    (h.version, h.data_hash@, h.timestamp, h.prev_block_hash@, h.height)
}

/// The parsed fields of a block: its header's fields and its transactions'.
pub type BlockParts = (HeaderParts, Seq<TxParts>);

/// The fields of each transaction in a list, in order.
pub open spec fn txs_parts(ts: Seq<Transaction>) -> Seq<TxParts>
    decreases ts.len(),
{
    if ts.len() == 0 {
        seq![]
    } else {
        seq![tx_parts(ts[0])] + txs_parts(ts.drop_first())
    }
}

/// The fields a block contributes to the wire format.
pub open spec fn block_parts(b: Block) -> BlockParts {
    (header_parts(b.header), txs_parts(b.transactions@))
}

/// Canonical encoding of a transaction list: encodings joined by commas.
pub open spec fn enc_tx_seq(ts: Seq<Transaction>) -> Seq<u8>
    decreases ts.len(),
{
    if ts.len() == 0 {
        seq![]
    } else if ts.len() == 1 {
        tx_encoding(ts[0])
    } else {
        tx_encoding(ts[0]) + seq![0x2cu8] + enc_tx_seq(ts.drop_first())
    }
}

/// Canonical encoding of a whole block as sent on the wire.
pub open spec fn block_encoding(b: Block) -> Seq<u8> {
    lit_blk_header() + header_encoding(b.header) + lit_blk_txs()
        + enc_tx_seq(b.transactions@) + seq![0x5du8, 0x7d]
}

impl Block {
    /// Full canonical encoding: the header followed by every transaction.
    pub fn encode(&self) -> (r: Vec<u8>)
        requires
            self.wf(),
        ensures
            r@ == block_encoding(*self),
    {
        let ghost ts = self.transactions@;
        let mut out: Vec<u8> = Vec::new();
        let l = lit_blk_header_vec();
        push_bytes(&mut out, &l);
        let he = self.header.encode();
        push_bytes(&mut out, &he);
        let l = lit_blk_txs_vec();
        push_bytes(&mut out, &l);
        let ghost mid = out@;
        let n = self.transactions.len();
        assert(ts.skip(0) =~= ts);
        let mut k: usize = 0;
        while k < n
            invariant
                ts == self.transactions@,
                n == ts.len(),
                k <= n,
                self.wf(),
                out@ + enc_tx_seq(ts.skip(k as int)) == mid + enc_tx_seq(ts),
            decreases n - k,
        {
            proof {
                assert(ts.skip(k as int).len() == n - k);
                assert(ts.skip(k as int)[0] == ts[k as int]);
                if k + 1 < n {
                    assert(ts.skip(k as int).drop_first() =~= ts.skip(k as int + 1));
                }
            }
            let te = self.transactions[k].encode();
            push_bytes(&mut out, &te);
            if k + 1 < n {
                out.push(0x2c);
                assert(out@ + enc_tx_seq(ts.skip(k as int + 1)) =~= mid + enc_tx_seq(ts));
            } else {
                assert(ts.skip(k as int + 1) =~= Seq::<Transaction>::empty());
                assert(out@ + enc_tx_seq(ts.skip(k as int + 1)) =~= mid + enc_tx_seq(ts));
            }
            k = k + 1;
        }
        proof {
            assert(enc_tx_seq(ts.skip(n as int)) =~= Seq::<u8>::empty());
            assert(out@ =~= out@ + enc_tx_seq(ts.skip(n as int)));
        }
        out.push(0x5d);
        out.push(0x7d);
        assert(out@ =~= block_encoding(*self));
        out
    }
}

/// Parse a header object.
pub open spec fn sp_header(s: Seq<u8>, i: int) -> Option<(HeaderParts, int)> {
    match sp_lit(s, i, lit_hdr_version()) {
        Some(j1) => match sp_nat(s, j1) {
            Some((ver, j2)) => if ver <= u32::MAX {
                match sp_lit(s, j2, lit_hdr_data_hash()) {
                    Some(j3) => match sp_string(s, j3) {
                        Some((dh, j4)) => match sp_lit(s, j4, lit_hdr_timestamp()) {
                            Some(j5) => match sp_int(s, j5) {
                                Some((ts, j6)) => if i64::MIN <= ts <= i64::MAX {
                                    match sp_lit(s, j6, lit_hdr_prev()) {
                                        Some(j7) => match sp_string(s, j7) {
                                            Some((pbh, j8)) => match sp_lit(s, j8, lit_hdr_height()) {
                                                Some(j9) => match sp_nat(s, j9) {
                                                    Some((hei, j10)) => if hei <= u32::MAX {
                                                        match sp_byte(s, j10, 0x7d) {
                                                            Some(j11) => Some((
                                                                (ver as u32, dh, ts as i64, pbh, hei as u32),
                                                                j11,
                                                            )),
                                                            None => None,
                                                        }
                                                    } else {
                                                        None
                                                    },
                                                    None => None,
                                                },
                                                None => None,
                                            },
                                            None => None,
                                        },
                                        None => None,
                                    }
                                } else {
                                    None
                                },
                                None => None,
                            },
                            None => None,
                        },
                        None => None,
                    },
                    None => None,
                }
            } else {
                None
            },
            None => None,
        },
        None => None,
    }
}

/// Parse one or more comma-separated transactions.
pub open spec fn sp_tx_list(s: Seq<u8>, i: int) -> Option<(Seq<TxParts>, int)>
    decreases s.len() - i when 0 <= i <= s.len()
{
    match sp_tx(s, i) {
        Some((t, j)) => {
            if j < s.len() && s[j] == 0x2c {
                if i < j + 1 {
                    match sp_tx_list(s, j + 1) {
                        Some((rest, m)) => Some((seq![t] + rest, m)),
                        None => None,
                    }
                } else {
                    None
                }
            } else {
                Some((seq![t], j))
            }
        }
        None => None,
    }
}

/// Parse a block object.
pub open spec fn sp_block(s: Seq<u8>, i: int) -> Option<(BlockParts, int)> {
    match sp_lit(s, i, lit_blk_header()) {
        Some(j1) => match sp_header(s, j1) {
            Some((h, j2)) => match sp_lit(s, j2, lit_blk_txs()) {
                Some(j3) => if sp_byte(s, j3, 0x5d) is Some {
                    match sp_byte(s, j3 + 1, 0x7d) {
                        Some(j4) => Some(((h, seq![]), j4)),
                        None => None,
                    }
                } else {
                    match sp_tx_list(s, j3) {
                        Some((ts, j4)) => match sp_byte(s, j4, 0x5d) {
                            Some(j5) => match sp_byte(s, j5, 0x7d) {
                                Some(j6) => Some(((h, ts), j6)),
                                None => None,
                            },
                            None => None,
                        },
                        None => None,
                    }
                },
                None => None,
            },
            None => None,
        },
        None => None,
    }
}

/// Decode of a full buffer: a block that consumes every byte.
pub open spec fn spec_decode_block(s: Seq<u8>) -> Option<BlockParts> {
    match sp_block(s, 0) {
        Some((b, j)) => if j == s.len() {
            Some(b)
        } else {
            None
        },
        None => None,
    }
}

/// Parse a header object.
pub(crate) fn eat_header(s: &Vec<u8>, i: usize) -> (r: Option<(Header, usize)>)
    ensures
        match r {
            Some(hj) => sp_header(s@, i as int) == Some((header_parts(hj.0), hj.1 as int))
                && hj.0.wf() && i < hj.1 <= s@.len(),
            None => sp_header(s@, i as int) is None,
        },
{
    let l = lit_hdr_version_vec();
    let j1 = match eat_lit(s, i, &l) {
        Some(j) => j,
        None => {
            return None;
        }
    };
    let (ver, j2) = match eat_nat(s, j1, 0xffff_ffffu64) {
        Some(v) => v,
        None => {
            return None;
        }
    };
    let l = lit_hdr_data_hash_vec();
    let j3 = match eat_lit(s, j2, &l) {
        Some(j) => j,
        None => {
            return None;
        }
    };
    let (dh, j4) = match eat_string(s, j3) {
        Some(v) => v,
        None => {
            return None;
        }
    };
    let l = lit_hdr_timestamp_vec();
    let j5 = match eat_lit(s, j4, &l) {
        Some(j) => j,
        None => {
            return None;
        }
    };
    let (ts, j6) = match eat_i64(s, j5) {
        Some(v) => v,
        None => {
            return None;
        }
    };
    let l = lit_hdr_prev_vec();
    let j7 = match eat_lit(s, j6, &l) {
        Some(j) => j,
        None => {
            return None;
        }
    };
    let (pbh, j8) = match eat_string(s, j7) {
        Some(v) => v,
        None => {
            return None;
        }
    };
    let l = lit_hdr_height_vec();
    let j9 = match eat_lit(s, j8, &l) {
        Some(j) => j,
        None => {
            return None;
        }
    };
    let (hei, j10) = match eat_nat(s, j9, 0xffff_ffffu64) {
        Some(v) => v,
        None => {
            return None;
        }
    };
    let j11 = match eat_byte(s, j10, 0x7d) {
        Some(j) => j,
        None => {
            return None;
        }
    };
    proof {
        lemma_sp_string_plain(s@, j3 as int);
        lemma_sp_string_plain(s@, j7 as int);
    }
    let h = Header {
        version: ver as u32,
        data_hash: dh,
        timestamp: ts,
        prev_block_hash: pbh,
        height: hei as u32,
    };
    Some((h, j11))
}

/// Parse one or more comma-separated transactions.
pub(crate) fn eat_tx_list(s: &Vec<u8>, i: usize) -> (r: Option<(Vec<Transaction>, usize)>)
    requires
        i <= s@.len(),
    ensures
        match r {
            Some(vj) => sp_tx_list(s@, i as int) == Some((txs_parts(vj.0@), vj.1 as int))
                && (forall|k: int| 0 <= k < vj.0@.len() ==> (#[trigger] vj.0@[k]).wf())
                && i < vj.1 <= s@.len(),
            None => sp_tx_list(s@, i as int) is None,
        },
    decreases s@.len() - i,
{
    let (t, j) = match eat_tx(s, i) {
        Some(v) => v,
        None => {
            return None;
        }
    };
    if j < s.len() && s[j] == 0x2c {
        match eat_tx_list(s, j + 1) {
            Some((rest, m)) => {
                let ghost rv = rest@;
                let mut out: Vec<Transaction> = Vec::new();
                out.push(t);
                let mut rest = rest;
                out.append(&mut rest);
                proof {
                    assert(out@ =~= seq![t] + rv);
                    assert(out@[0] == t);
                    assert(out@.drop_first() =~= rv);
                    assert(txs_parts(out@) == seq![tx_parts(t)] + txs_parts(rv));
                }
                Some((out, m))
            }
            None => None,
        }
    } else {
        let mut out: Vec<Transaction> = Vec::new();
        out.push(t);
        proof {
            assert(out@ =~= seq![t]);
            assert(out@[0] == t);
            assert(out@.drop_first() =~= Seq::<Transaction>::empty());
            assert(txs_parts(Seq::<Transaction>::empty()) == Seq::<TxParts>::empty());
            assert(txs_parts(out@) =~= seq![tx_parts(t)]);
        }
        Some((out, j))
    }
}

/// Parse a block object.
pub(crate) fn eat_block(s: &Vec<u8>, i: usize) -> (r: Option<(Block, usize)>)
    ensures
        match r {
            Some(bj) => sp_block(s@, i as int) == Some((block_parts(bj.0), bj.1 as int))
                && bj.0.wf() && i < bj.1 <= s@.len(),
            None => sp_block(s@, i as int) is None,
        },
{
    let l = lit_blk_header_vec();
    let j1 = match eat_lit(s, i, &l) {
        Some(j) => j,
        None => {
            return None;
        }
    };
    let (h, j2) = match eat_header(s, j1) {
        Some(v) => v,
        None => {
            return None;
        }
    };
    let l = lit_blk_txs_vec();
    let j3 = match eat_lit(s, j2, &l) {
        Some(j) => j,
        None => {
            return None;
        }
    };
    if j3 < s.len() && s[j3] == 0x5d {
        let j4 = match eat_byte(s, j3 + 1, 0x7d) {
            Some(j) => j,
            None => {
                return None;
            }
        };
        let b = Block { header: h, transactions: Vec::new() };
        proof {
            assert(txs_parts(b.transactions@) =~= Seq::<TxParts>::empty());
        }
        Some((b, j4))
    } else {
        assert(sp_byte(s@, j3 as int, 0x5d) is None);
        let (ts, j4) = match eat_tx_list(s, j3) {
            Some(v) => v,
            None => {
                return None;
            }
        };
        let j5 = match eat_byte(s, j4, 0x5d) {
            Some(j) => j,
            None => {
                return None;
            }
        };
        let j6 = match eat_byte(s, j5, 0x7d) {
            Some(j) => j,
            None => {
                return None;
            }
        };
        let b = Block { header: h, transactions: ts };
        Some((b, j6))
    }
}

/// Decode a block from wire bytes; fails on anything that is not a complete
/// canonical block.
pub fn decode_block(data: &Vec<u8>) -> (r: Result<Block, DecodeError>)
    ensures
        match r {
            Ok(b) => spec_decode_block(data@) == Some(block_parts(b)) && b.wf(),
            Err(e) => spec_decode_block(data@) is None && e == DecodeError::ParseError,
        },
{
    match eat_block(data, 0) {
        Some((b, j)) => {
            if j == data.len() {
                Ok(b)
            } else {
                Err(DecodeError::ParseError)
            }
        }
        None => Err(DecodeError::ParseError),
    }
}

/// Parsing the canonical encoding of a well-formed header embedded at `i`
/// yields its fields.
#[verifier::rlimit(80)]
pub proof fn lemma_sp_header_at(s: Seq<u8>, i: int, h: Header)
    requires
        h.wf(),
        0 <= i,
        i + header_encoding(h).len() <= s.len(),
        s.subrange(i, i + header_encoding(h).len() as int) == header_encoding(h),
    ensures
        sp_header(s, i) == Some((header_parts(h), i + header_encoding(h).len() as int)),
{
    let e = header_encoding(h);
    let dv = dec_rep(h.version as nat);
    let qd = quoted(h.data_hash@);
    let dt = dec_rep_i64(h.timestamp);
    let qp = quoted(h.prev_block_hash@);
    let dh = dec_rep(h.height as nat);
    let o1 = i + lit_hdr_version().len() as int;
    let o2 = o1 + dv.len() as int;
    let o3 = o2 + lit_hdr_data_hash().len() as int;
    let o4 = o3 + qd.len() as int;
    let o5 = o4 + lit_hdr_timestamp().len() as int;
    let o6 = o5 + dt.len() as int;
    let o7 = o6 + lit_hdr_prev().len() as int;
    let o8 = o7 + qp.len() as int;
    let o9 = o8 + lit_hdr_height().len() as int;
    let o10 = o9 + dh.len() as int;
    assert(e == lit_hdr_version() + dv + lit_hdr_data_hash() + qd + lit_hdr_timestamp() + dt
        + lit_hdr_prev() + qp + lit_hdr_height() + dh + seq![0x7du8]);
    reveal(lit_hdr_data_hash);
    reveal(lit_hdr_prev);
    assert(forall|k: int| 0 <= k < e.len() ==> s[i + k] == #[trigger] e[k]) by {
        assert(forall|k: int| 0 <= k < e.len()
            ==> s.subrange(i, i + e.len() as int)[k] == #[trigger] e[k]);
    }
    assert forall|k: int| 0 <= k < lit_hdr_version().len()
        implies s.subrange(i, o1)[k] == lit_hdr_version()[k] by {
        assert(s[i + k] == e[k]);
        assert(e[k] == lit_hdr_version()[k]);
    }
    assert(s.subrange(i, o1) =~= lit_hdr_version());
    assert(sp_lit(s, i, lit_hdr_version()) == Some(o1));
    assert forall|k: int| 0 <= k < dv.len() implies s.subrange(o1, o2)[k] == dv[k] by {
        assert(s[o1 + k] == e[o1 - i + k]);
        assert(e[o1 - i + k] == dv[k]);
    }
    assert(s.subrange(o1, o2) =~= dv);
    assert(e[o2 - i] == lit_hdr_data_hash()[0]);
    assert(!is_digit_byte(s[o2]));
    lemma_sp_nat_inversion(s, o1, h.version as nat);
    assert forall|k: int| 0 <= k < lit_hdr_data_hash().len()
        implies s.subrange(o2, o3)[k] == lit_hdr_data_hash()[k] by {
        assert(s[o2 + k] == e[o2 - i + k]);
        assert(e[o2 - i + k] == lit_hdr_data_hash()[k]);
    }
    assert(s.subrange(o2, o3) =~= lit_hdr_data_hash());
    assert(sp_lit(s, o2, lit_hdr_data_hash()) == Some(o3));
    assert forall|k: int| 0 <= k < qd.len() implies s.subrange(o3, o4)[k] == qd[k] by {
        assert(s[o3 + k] == e[o3 - i + k]);
        assert(e[o3 - i + k] == qd[k]);
    }
    assert(s.subrange(o3, o4) =~= qd);
    lemma_sp_string_inversion(s, o3, h.data_hash@);
    assert forall|k: int| 0 <= k < lit_hdr_timestamp().len()
        implies s.subrange(o4, o5)[k] == lit_hdr_timestamp()[k] by {
        assert(s[o4 + k] == e[o4 - i + k]);
        assert(e[o4 - i + k] == lit_hdr_timestamp()[k]);
    }
    assert(s.subrange(o4, o5) =~= lit_hdr_timestamp());
    assert(sp_lit(s, o4, lit_hdr_timestamp()) == Some(o5));
    assert forall|k: int| 0 <= k < dt.len() implies s.subrange(o5, o6)[k] == dt[k] by {
        assert(s[o5 + k] == e[o5 - i + k]);
        assert(e[o5 - i + k] == dt[k]);
    }
    assert(s.subrange(o5, o6) =~= dt);
    assert(e[o6 - i] == lit_hdr_prev()[0]);
    assert(!is_digit_byte(s[o6]));
    lemma_sp_int_inversion(s, o5, h.timestamp);
    assert forall|k: int| 0 <= k < lit_hdr_prev().len()
        implies s.subrange(o6, o7)[k] == lit_hdr_prev()[k] by {
        assert(s[o6 + k] == e[o6 - i + k]);
        assert(e[o6 - i + k] == lit_hdr_prev()[k]);
    }
    assert(s.subrange(o6, o7) =~= lit_hdr_prev());
    assert(sp_lit(s, o6, lit_hdr_prev()) == Some(o7));
    assert forall|k: int| 0 <= k < qp.len() implies s.subrange(o7, o8)[k] == qp[k] by {
        assert(s[o7 + k] == e[o7 - i + k]);
        assert(e[o7 - i + k] == qp[k]);
    }
    assert(s.subrange(o7, o8) =~= qp);
    lemma_sp_string_inversion(s, o7, h.prev_block_hash@);
    assert forall|k: int| 0 <= k < lit_hdr_height().len()
        implies s.subrange(o8, o9)[k] == lit_hdr_height()[k] by {
        assert(s[o8 + k] == e[o8 - i + k]);
        assert(e[o8 - i + k] == lit_hdr_height()[k]);
    }
    assert(s.subrange(o8, o9) =~= lit_hdr_height());
    assert(sp_lit(s, o8, lit_hdr_height()) == Some(o9));
    assert forall|k: int| 0 <= k < dh.len() implies s.subrange(o9, o10)[k] == dh[k] by {
        assert(s[o9 + k] == e[o9 - i + k]);
        assert(e[o9 - i + k] == dh[k]);
    }
    assert(s.subrange(o9, o10) =~= dh);
    assert(e[o10 - i] == 0x7d);
    assert(!is_digit_byte(s[o10]));
    lemma_sp_nat_inversion(s, o9, h.height as nat);
    assert(sp_byte(s, o10, 0x7d) == Some(o10 + 1));
    assert(sp_header(s, i) == Some((header_parts(h), o10 + 1)));
}

/// Parsing the canonical encoding of a non-empty, well-formed transaction
/// list embedded at `i` yields the transactions' fields, provided the byte
/// after it is not a comma.
pub proof fn lemma_sp_tx_list_at(s: Seq<u8>, i: int, ts: Seq<Transaction>)
    requires
        0 <= i,
        ts.len() >= 1,
        forall|k: int| 0 <= k < ts.len() ==> (#[trigger] ts[k]).wf(),
        i + enc_tx_seq(ts).len() < s.len(),
        s.subrange(i, i + enc_tx_seq(ts).len() as int) == enc_tx_seq(ts),
        s[i + enc_tx_seq(ts).len()] != 0x2c,
    ensures
        sp_tx_list(s, i) == Some((txs_parts(ts), i + enc_tx_seq(ts).len() as int)),
    decreases ts.len(),
{
    let e = enc_tx_seq(ts);
    let e0 = tx_encoding(ts[0]);
    assert(forall|k: int| 0 <= k < e.len() ==> s[i + k] == #[trigger] e[k]) by {
        assert(forall|k: int| 0 <= k < e.len()
            ==> s.subrange(i, i + e.len() as int)[k] == #[trigger] e[k]);
    }
    if ts.len() == 1 {
        assert(e == e0);
        assert(s.subrange(i, i + e0.len() as int) =~= e0);
        lemma_sp_tx_at(s, i, ts[0]);
        let j = i + e0.len() as int;
        assert(s[j] != 0x2c);
        assert(txs_parts(ts) =~= seq![tx_parts(ts[0])]);
    } else {
        let rest = ts.drop_first();
        let er = enc_tx_seq(rest);
        assert(e == e0 + seq![0x2cu8] + er);
        assert forall|k: int| 0 <= k < e0.len() implies s.subrange(i, i + e0.len() as int)[k] == e0[k] by {
            assert(s[i + k] == e[k]);
            assert(e[k] == e0[k]);
        }
        assert(s.subrange(i, i + e0.len() as int) =~= e0);
        lemma_sp_tx_at(s, i, ts[0]);
        let j = i + e0.len() as int;
        assert(e[j - i] == 0x2c);
        assert(s[j] == 0x2c);
        assert forall|k: int| 0 <= k < er.len()
            implies s.subrange(j + 1, j + 1 + er.len() as int)[k] == er[k] by {
            assert(s[j + 1 + k] == e[j + 1 - i + k]);
            assert(e[j + 1 - i + k] == er[k]);
        }
        assert(s.subrange(j + 1, j + 1 + er.len() as int) =~= er);
        assert(forall|k: int| 0 <= k < rest.len() ==> (#[trigger] rest[k]).wf()) by {
            assert(forall|k: int| 0 <= k < rest.len() ==> rest[k] == ts[k + 1]);
        }
        lemma_sp_tx_list_at(s, j + 1, rest);
        assert(txs_parts(ts) =~= seq![tx_parts(ts[0])] + txs_parts(rest));
    }
}

/// Decoding the canonical encoding of any well-formed block yields exactly
/// its fields: its header's fields and each transaction's, in order.
/// Decoding the canonical encoding of any well-formed block yields exactly
/// its fields: its header's fields and each transaction's, in order.
#[verifier::rlimit(100)]
#[verifier::spinoff_prover]
pub proof fn lemma_block_round_trip(b: Block)
    requires
        b.wf(),
    ensures
        spec_decode_block(block_encoding(b)) == Some(block_parts(b)),
{
    let s = block_encoding(b);
    let he = header_encoding(b.header);
    let etl = enc_tx_seq(b.transactions@);
    let tail = seq![0x5du8, 0x7d];
    let o1 = lit_blk_header().len() as int;
    let o2 = o1 + he.len() as int;
    let o3 = o2 + lit_blk_txs().len() as int;
    let o4 = o3 + etl.len() as int;
    assert(s.subrange(0, s.len() as int) =~= s);
    assert(s =~= lit_blk_header() + (he + (lit_blk_txs() + (etl + tail))));
    lemma_peel(s, 0, lit_blk_header(), he + (lit_blk_txs() + (etl + tail)));
    lemma_peel(s, o1, he, lit_blk_txs() + (etl + tail));
    lemma_peel(s, o2, lit_blk_txs(), etl + tail);
    lemma_peel(s, o3, etl, tail);
    assert(sp_lit(s, 0, lit_blk_header()) == Some(o1));
    lemma_sp_header_at(s, o1, b.header);
    assert(sp_lit(s, o2, lit_blk_txs()) == Some(o3));
    assert(s[o4] == 0x5d && s[o4 + 1] == 0x7d && o4 + 2 == s.len()) by {
        assert(s.subrange(o4, s.len() as int) == tail);
        assert(s[o4] == s.subrange(o4, s.len() as int)[0]);
        assert(s[o4 + 1] == s.subrange(o4, s.len() as int)[1]);
    }
    if b.transactions@.len() == 0 {
        assert(etl == Seq::<u8>::empty());
        assert(o3 == o4);
        assert(sp_byte(s, o3, 0x5d) == Some(o3 + 1));
        assert(sp_byte(s, o3 + 1, 0x7d) == Some(o3 + 2));
        assert(txs_parts(b.transactions@) =~= Seq::<TxParts>::empty());
        assert(sp_block(s, 0) == Some((block_parts(b), s.len() as int)));
    } else {
        assert(sp_byte(s, o3, 0x5d) is None) by {
            lemma_tx_encoding_first(b.transactions@[0]);
            assert(s[o3] == s.subrange(o3, o4)[0]);
            assert(etl[0] == tx_encoding(b.transactions@[0])[0]);
        }
        lemma_sp_tx_list_at(s, o3, b.transactions@);
        assert(sp_byte(s, o4, 0x5d) == Some(o4 + 1));
        assert(sp_byte(s, o4 + 1, 0x7d) == Some(o4 + 2));
        assert(sp_block(s, 0) == Some((block_parts(b), s.len() as int)));
    }
    assert(spec_decode_block(s) == Some(block_parts(b)));
}

} // verus!
