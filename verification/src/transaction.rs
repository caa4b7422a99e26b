//! Signed transfer transactions.
//!
//! A transaction's hash is the digest of the canonical encoding of its
//! transfer data alone, so it never changes when the transaction is signed.

use vstd::prelude::*;
use crate::codec::{
    hex, plain, is_plain, lemma_hex_is_plain, opt_view, opt_quoted, quoted, dec_rep, enc_u8_seq,
    is_digit_byte, push_bytes, push_opt_quoted, push_u64, push_u8_vec,
    lit_tx_pk, lit_tx_sig, lit_tx_data, lit_data_to, lit_data_amount,
    lit_tx_pk_vec, lit_tx_sig_vec, lit_tx_data_vec, lit_data_to_vec, lit_data_amount_vec,
    sp_lit, sp_byte, sp_nat, sp_opt_string, sp_u8_list,
    eat_lit, eat_byte, eat_nat, eat_opt_string, eat_u8_list,
    lemma_sp_nat_inversion, lemma_sp_u8_list_inversion, lemma_sp_opt_string_inversion,
    lemma_sp_string_plain, lemma_sp_u8_list_len,
};
use crate::errors::{DecodeError, ValidationError};
use crate::keypair::{
    digest_of, msg_of, public_key_of, signature_of, sig_verifies, KeyPair,
    sha256_hex, public_key_hex, verify_strings, fold_digest,
};

verus! {

/// A 20-byte account address.
pub type Address = [u8; 20];

/// A hex-digest string identifying a transaction, header or block.
pub type Hash = Vec<u8>;

/// The transfer payload that a transaction's hash binds.
#[derive(Debug, Clone)]
pub struct Data {
    pub(crate) to: Vec<u8>,
    pub(crate) amount: u64,
}

impl Data {
    /// The recipient address bytes.
    pub closed spec fn spec_to(self) -> Seq<u8> {
        self.to@
    }

    /// The transferred amount.
    pub closed spec fn spec_amount(self) -> u64 {
        self.amount
    }
}

/// A signed transfer record; the signature and public key are held in their
/// canonical string forms and are excluded from the hash.
#[derive(Debug, Clone)]
pub struct Transaction {
    pub public_key: Option<Vec<u8>>,
    pub signature: Option<Vec<u8>>,
    pub data: Data,
}

/// Canonical encoding of the transfer data: the hash input.
pub closed spec fn data_encoding(d: Data) -> Seq<u8> {
    lit_data_to() + enc_u8_seq(d.to@) + lit_data_amount() + dec_rep(d.amount as nat)
        + seq![0x7du8]
}

/// Canonical encoding of a whole transaction as sent on the wire.
pub closed spec fn tx_encoding(t: Transaction) -> Seq<u8> {
    lit_tx_pk() + opt_quoted(opt_view(t.public_key)) + lit_tx_sig()
        + opt_quoted(opt_view(t.signature)) + lit_tx_data() + data_encoding(t.data)
        + seq![0x7du8]
}

/// The digest identifying a transaction: a function of its transfer data
/// alone.
pub open spec fn tx_hash(d: Data) -> Seq<u8> {
    digest_of(data_encoding(d))
}

/// Outcome of validating a transaction.
pub open spec fn spec_tx_verify(t: Transaction) -> Result<(), ValidationError> {
    if t.signature is None || t.public_key is None {
        Err(ValidationError::MissingSignature)
    } else if !sig_verifies(t.signature->0@, t.public_key->0@, msg_of(data_encoding(t.data))) {
        Err(ValidationError::InvalidSignature)
    } else {
        Ok(())
    }
}

impl Transaction {
    /// The address is 20 bytes and the string fields are plain, so the
    /// transaction has a canonical encoding.
    pub open spec fn wf(self) -> bool {
        &&& self.data.spec_to().len() == 20
        &&& (self.public_key matches Some(pk) ==> plain(pk@))
        &&& (self.signature matches Some(sg) ==> plain(sg@))
    }

    /// Runtime test for well-formedness, for callers at the trust boundary.
    pub fn check_wf(&self) -> (r: bool)
        ensures
            r == self.wf(),
    {
        if self.data.to.len() != 20 {
            return false;
        }
        if let Some(pk) = &self.public_key {
            if !is_plain(pk) {
                return false;
            }
        }
        if let Some(sg) = &self.signature {
            if !is_plain(sg) {
                return false;
            }
        }
        true
    }

    /// A fresh, unsigned transfer.
    pub fn new(to: Address, amount: u64) -> (t: Transaction)
        ensures
            t.public_key is None,
            t.signature is None,
            t.data.spec_to() == to@,
            t.data.spec_amount() == amount,
            t.wf(),
    {
        let mut v: Vec<u8> = Vec::new();
        let mut k: usize = 0;
        while k < 20
            invariant
                k <= 20,
                v@ == to@.subrange(0, k as int),
            decreases 20 - k,
        {
            v.push(to[k]);
            assert(v@ =~= to@.subrange(0, k as int + 1));
            k = k + 1;
        }
        assert(v@ =~= to@);
        Transaction { public_key: None, signature: None, data: Data { to: v, amount } }
    }

    /// Canonical encoding of the transfer data: the hash input.
    pub fn encode_for_hash(&self) -> (r: Vec<u8>)
        ensures
            r@ == data_encoding(self.data),
    {
        let mut out: Vec<u8> = Vec::new();
        let l = lit_data_to_vec();
        push_bytes(&mut out, &l);
        push_u8_vec(&mut out, &self.data.to);
        let l = lit_data_amount_vec();
        push_bytes(&mut out, &l);
        push_u64(&mut out, self.data.amount);
        out.push(0x7d);
        assert(out@ =~= data_encoding(self.data));
        out
    }

    /// Full canonical encoding, with the signature and public key written as
    /// strings and the memoised hash left out.
    pub fn encode(&self) -> (r: Vec<u8>)
        requires
            self.wf(),
        ensures
            r@ == tx_encoding(*self),
    {
        let mut out: Vec<u8> = Vec::new();
        let l = lit_tx_pk_vec();
        push_bytes(&mut out, &l);
        push_opt_quoted(&mut out, &self.public_key);
        let l = lit_tx_sig_vec();
        push_bytes(&mut out, &l);
        push_opt_quoted(&mut out, &self.signature);
        let l = lit_tx_data_vec();
        push_bytes(&mut out, &l);
        let d = self.encode_for_hash();
        push_bytes(&mut out, &d);
        out.push(0x7d);
        assert(out@ =~= tx_encoding(*self));
        out
    }

    /// The identifying digest of the transfer data; stable across signing.
    pub fn hash(&self) -> (r: Hash)
        ensures
            r@ == tx_hash(self.data),
            hex(r@),
    {
        let enc = self.encode_for_hash();
        sha256_hex(&enc)
    }

    /// Sign the canonical hash input and store the signature and the signing
    /// key's public key; the data, and hence the hash, are unchanged, and the
    /// signed transaction verifies.
    pub fn sign(&mut self, key_pair: &KeyPair)
        ensures
            final(self).data == old(self).data,
            opt_view(final(self).signature)
                == Some(signature_of(key_pair.spec_seed(), msg_of(data_encoding(old(self).data)))),
            opt_view(final(self).public_key) == Some(public_key_of(key_pair.spec_seed())),
            spec_tx_verify(*final(self)) == Ok::<(), ValidationError>(()),
            old(self).wf() ==> final(self).wf(),
    {
        let enc = self.encode_for_hash();
        let sig = key_pair.sign(&enc);
        let pk = public_key_hex(key_pair);
        proof {
            lemma_hex_is_plain(sig.signature@);
            lemma_hex_is_plain(pk@);
        }
        self.signature = Some(sig.signature);
        self.public_key = Some(pk);
    }

    /// Validate: both fields must be present, and the signature must verify
    /// over the canonical encoding of the data.
    pub fn verify(&self) -> (r: Result<(), ValidationError>)
        ensures
            r == spec_tx_verify(*self),
    {
        let sig = match &self.signature {
            Some(s) => s,
            None => {
                return Err(ValidationError::MissingSignature);
            }
        };
        let pk = match &self.public_key {
            Some(p) => p,
            None => {
                return Err(ValidationError::MissingSignature);
            }
        };
        let enc = self.encode_for_hash();
        let digest = sha256_hex(&enc);
        let msg = fold_digest(&digest);
        if verify_strings(sig, pk, &msg) {
            Ok(())
        } else {
            Err(ValidationError::InvalidSignature)
        }
    }
}

/// The parsed fields of a transaction: public key, signature, recipient
/// bytes, amount.
pub type TxParts = (Option<Seq<u8>>, Option<Seq<u8>>, Seq<u8>, u64);

/// The fields a transaction contributes to the wire format.
pub closed spec fn tx_parts(t: Transaction) -> TxParts {
    (opt_view(t.public_key), opt_view(t.signature), t.data.to@, t.data.amount)
}

/// Parse the transfer-data object.
pub open spec fn sp_data(s: Seq<u8>, i: int) -> Option<((Seq<u8>, u64), int)> {
    match sp_lit(s, i, lit_data_to()) {
        Some(j1) => match sp_u8_list(s, j1, 20) {
            Some((to, j2)) => match sp_lit(s, j2, lit_data_amount()) {
                Some(j3) => match sp_nat(s, j3) {
                    Some((amt, j4)) => if amt <= u64::MAX {
                        match sp_byte(s, j4, 0x7d) {
                            Some(j5) => Some(((to, amt as u64), j5)),
                            None => None,
                        }
                    } else {
                        None
                    },
                    None => None,
                },
                None => None,
            },
            None => None,
        },
        None => None,
    }
}

/// Parse a whole transaction object.
pub open spec fn sp_tx(s: Seq<u8>, i: int) -> Option<(TxParts, int)> {
    match sp_lit(s, i, lit_tx_pk()) {
        Some(j1) => match sp_opt_string(s, j1) {
            Some((pk, j2)) => match sp_lit(s, j2, lit_tx_sig()) {
                Some(j3) => match sp_opt_string(s, j3) {
                    Some((sg, j4)) => match sp_lit(s, j4, lit_tx_data()) {
                        Some(j5) => match sp_data(s, j5) {
                            Some(((to, amt), j6)) => match sp_byte(s, j6, 0x7d) {
                                Some(j7) => Some(((pk, sg, to, amt), j7)),
                                None => None,
                            },
                            None => None,
                        },
                        None => None,
                    },
                    None => None,
                },
                None => None,
            },
            None => None,
        },
        None => None,
    }
}

/// Decode of a full buffer: a transaction that consumes every byte.
pub open spec fn spec_decode_tx(s: Seq<u8>) -> Option<TxParts> {
    match sp_tx(s, 0) {
        Some((t, j)) => if j == s.len() {
            Some(t)
        } else {
            None
        },
        None => None,
    }
}

/// Parse the transfer-data object.
pub(crate) fn eat_data(s: &Vec<u8>, i: usize) -> (r: Option<((Vec<u8>, u64), usize)>)
    ensures
        match r {
            Some(vj) => sp_data(s@, i as int) == Some((((vj.0).0@, (vj.0).1), vj.1 as int))
                && i < vj.1 <= s@.len(),
            None => sp_data(s@, i as int) is None,
        },
{
    let l = lit_data_to_vec();
    let j1 = match eat_lit(s, i, &l) {
        Some(j) => j,
        None => {
            return None;
        }
    };
    let (to, j2) = match eat_u8_list(s, j1, 20) {
        Some(v) => v,
        None => {
            return None;
        }
    };
    let l = lit_data_amount_vec();
    let j3 = match eat_lit(s, j2, &l) {
        Some(j) => j,
        None => {
            return None;
        }
    };
    let (amt, j4) = match eat_nat(s, j3, u64::MAX) {
        Some(v) => v,
        None => {
            return None;
        }
    };
    let j5 = match eat_byte(s, j4, 0x7d) {
        Some(j) => j,
        None => {
            return None;
        }
    };
    Some(((to, amt), j5))
}

/// Parse a whole transaction object.
pub(crate) fn eat_tx(s: &Vec<u8>, i: usize) -> (r: Option<(Transaction, usize)>)
    ensures
        match r {
            Some(tj) => sp_tx(s@, i as int) == Some((tx_parts(tj.0), tj.1 as int))
                && tj.0.wf() && i < tj.1 <= s@.len(),
            None => sp_tx(s@, i as int) is None,
        },
{
    let l = lit_tx_pk_vec();
    let j1 = match eat_lit(s, i, &l) {
        Some(j) => j,
        None => {
            return None;
        }
    };
    let (pk, j2) = match eat_opt_string(s, j1) {
        Some(v) => v,
        None => {
            return None;
        }
    };
    let l = lit_tx_sig_vec();
    let j3 = match eat_lit(s, j2, &l) {
        Some(j) => j,
        None => {
            return None;
        }
    };
    let (sg, j4) = match eat_opt_string(s, j3) {
        Some(v) => v,
        None => {
            return None;
        }
    };
    let l = lit_tx_data_vec();
    let j5 = match eat_lit(s, j4, &l) {
        Some(j) => j,
        None => {
            return None;
        }
    };
    let ((to, amt), j6) = match eat_data(s, j5) {
        Some(v) => v,
        None => {
            return None;
        }
    };
    let j7 = match eat_byte(s, j6, 0x7d) {
        Some(j) => j,
        None => {
            return None;
        }
    };
    proof {
        if pk is Some {
            lemma_sp_string_plain(s@, j1 as int);
        }
        if sg is Some {
            lemma_sp_string_plain(s@, j3 as int);
        }
        lemma_sp_u8_list_len(s@, sp_lit(s@, j5 as int, lit_data_to())->0, 20);
    }
    let t = Transaction { public_key: pk, signature: sg, data: Data { to, amount: amt } };
    Some((t, j7))
}

/// Decode a transaction from wire bytes; fails on anything that is not a
/// complete canonical transaction.
pub fn decode_transaction(data: &Vec<u8>) -> (r: Result<Transaction, DecodeError>)
    ensures
        match r {
            Ok(t) => spec_decode_tx(data@) == Some(tx_parts(t)) && t.wf(),
            Err(e) => spec_decode_tx(data@) is None && e == DecodeError::ParseError,
        },
{
    match eat_tx(data, 0) {
        Some((t, j)) => {
            if j == data.len() {
                Ok(t)
            } else {
                Err(DecodeError::ParseError)
            }
        }
        None => Err(DecodeError::ParseError),
    }
}

/// Decoding the canonical encoding of any well-formed transaction yields
/// exactly its fields, so any transaction decoded from it carries the same
/// transfer data, and with it the same hash.
pub proof fn lemma_tx_round_trip(t: Transaction)
    requires
        t.wf(),
    ensures
        spec_decode_tx(tx_encoding(t)) == Some(tx_parts(t)),
        forall|u: Transaction| #![auto] tx_parts(u) == tx_parts(t)
            ==> tx_hash(u.data) == tx_hash(t.data),
{
    let s = tx_encoding(t);
    assert(s.subrange(0, s.len() as int) =~= s);
    lemma_sp_tx_at(s, 0, t);
    assert forall|u: Transaction| #![auto] tx_parts(u) == tx_parts(t)
        implies tx_hash(u.data) == tx_hash(t.data) by {
        lemma_tx_parts_same_hash(u, t);
    }
}

/// Parsing the canonical encoding of a well-formed transaction embedded at
/// `i` yields its fields.
#[verifier::rlimit(50)]
pub proof fn lemma_sp_tx_at(s: Seq<u8>, i: int, t: Transaction)
    requires
        t.wf(),
        0 <= i,
        i + tx_encoding(t).len() <= s.len(),
        s.subrange(i, i + tx_encoding(t).len() as int) == tx_encoding(t),
    ensures
        sp_tx(s, i) == Some((tx_parts(t), i + tx_encoding(t).len() as int)),
{
    let e = tx_encoding(t);
    let pkq = opt_quoted(opt_view(t.public_key));
    let sgq = opt_quoted(opt_view(t.signature));
    let de = data_encoding(t.data);
    let o1 = i + lit_tx_pk().len() as int;
    let o2 = o1 + pkq.len() as int;
    let o3 = o2 + lit_tx_sig().len() as int;
    let o4 = o3 + sgq.len() as int;
    let o5 = o4 + lit_tx_data().len() as int;
    let o6 = o5 + de.len() as int;
    assert(e == lit_tx_pk() + pkq + lit_tx_sig() + sgq + lit_tx_data() + de + seq![0x7du8]);
    assert(forall|k: int| 0 <= k < e.len() ==> s[i + k] == #[trigger] e[k]) by {
        assert(forall|k: int| 0 <= k < e.len()
            ==> s.subrange(i, i + e.len() as int)[k] == #[trigger] e[k]);
    }
    assert forall|k: int| 0 <= k < lit_tx_pk().len()
        implies s.subrange(i, o1)[k] == lit_tx_pk()[k] by {
        assert(s[i + k] == e[k]);
        assert(e[k] == lit_tx_pk()[k]);
    }
    assert(s.subrange(i, o1) =~= lit_tx_pk());
    assert(sp_lit(s, i, lit_tx_pk()) == Some(o1));
    assert forall|k: int| 0 <= k < pkq.len() implies s.subrange(o1, o2)[k] == pkq[k] by {
        assert(s[o1 + k] == e[o1 - i + k]);
        assert(e[o1 - i + k] == pkq[k]);
    }
    assert(s.subrange(o1, o2) =~= pkq);
    lemma_sp_opt_string_inversion(s, o1, opt_view(t.public_key));
    assert forall|k: int| 0 <= k < lit_tx_sig().len()
        implies s.subrange(o2, o3)[k] == lit_tx_sig()[k] by {
        assert(s[o2 + k] == e[o2 - i + k]);
        assert(e[o2 - i + k] == lit_tx_sig()[k]);
    }
    assert(s.subrange(o2, o3) =~= lit_tx_sig());
    assert(sp_lit(s, o2, lit_tx_sig()) == Some(o3));
    assert forall|k: int| 0 <= k < sgq.len() implies s.subrange(o3, o4)[k] == sgq[k] by {
        assert(s[o3 + k] == e[o3 - i + k]);
        assert(e[o3 - i + k] == sgq[k]);
    }
    assert(s.subrange(o3, o4) =~= sgq);
    lemma_sp_opt_string_inversion(s, o3, opt_view(t.signature));
    assert forall|k: int| 0 <= k < lit_tx_data().len()
        implies s.subrange(o4, o5)[k] == lit_tx_data()[k] by {
        assert(s[o4 + k] == e[o4 - i + k]);
        assert(e[o4 - i + k] == lit_tx_data()[k]);
    }
    assert(s.subrange(o4, o5) =~= lit_tx_data());
    assert(sp_lit(s, o4, lit_tx_data()) == Some(o5));
    assert forall|k: int| 0 <= k < de.len() implies s.subrange(o5, o6)[k] == de[k] by {
        assert(s[o5 + k] == e[o5 - i + k]);
        assert(e[o5 - i + k] == de[k]);
    }
    assert(s.subrange(o5, o6) =~= de);
    lemma_sp_data_at(s, o5, t.data);
    assert(s[o6] == e[o6 - i]);
    assert(e[o6 - i] == 0x7d);
    assert(sp_byte(s, o6, 0x7d) == Some(o6 + 1));
    assert(sp_tx(s, i) == Some((tx_parts(t), o6 + 1)));
}

/// Parsing the canonical transfer-data encoding embedded at `i` yields the
/// data's fields.
pub proof fn lemma_sp_data_at(s: Seq<u8>, i: int, d: Data)
    requires
        0 <= i,
        d.spec_to().len() == 20,
        i + data_encoding(d).len() <= s.len(),
        s.subrange(i, i + data_encoding(d).len() as int) == data_encoding(d),
    ensures
        sp_data(s, i) == Some(((d.spec_to(), d.spec_amount()), i + data_encoding(d).len() as int)),
{
    let de = data_encoding(d);
    let eu = enc_u8_seq(d.to@);
    let da = dec_rep(d.amount as nat);
    let p1 = i + lit_data_to().len() as int;
    let p2 = p1 + eu.len() as int;
    let p3 = p2 + lit_data_amount().len() as int;
    let p4 = p3 + da.len() as int;
    assert(forall|k: int| 0 <= k < de.len() ==> s[i + k] == #[trigger] de[k]) by {
        assert(forall|k: int| 0 <= k < de.len()
            ==> s.subrange(i, i + de.len() as int)[k] == #[trigger] de[k]);
    }
    assert(de == lit_data_to() + eu + lit_data_amount() + da + seq![0x7du8]);
    reveal(lit_data_amount);
    assert forall|k: int| 0 <= k < lit_data_to().len()
        implies s.subrange(i, p1)[k] == lit_data_to()[k] by {
        assert(s[i + k] == de[k]);
        assert(de[k] == lit_data_to()[k]);
    }
    assert(s.subrange(i, p1) =~= lit_data_to());
    assert(sp_lit(s, i, lit_data_to()) == Some(p1));
    assert forall|k: int| 0 <= k < eu.len() implies s.subrange(p1, p2)[k] == eu[k] by {
        assert(s[p1 + k] == de[p1 - i + k]);
        assert(de[p1 - i + k] == eu[k]);
    }
    assert(s.subrange(p1, p2) =~= eu);
    assert(de[p2 - i] == lit_data_amount()[0]);
    assert(s[p2] == 0x5d);
    assert(!is_digit_byte(0x5d));
    lemma_sp_u8_list_inversion(s, p1, d.to@);
    assert forall|k: int| 0 <= k < lit_data_amount().len()
        implies s.subrange(p2, p3)[k] == lit_data_amount()[k] by {
        assert(s[p2 + k] == de[p2 - i + k]);
        assert(de[p2 - i + k] == lit_data_amount()[k]);
    }
    assert(s.subrange(p2, p3) =~= lit_data_amount());
    assert(sp_lit(s, p2, lit_data_amount()) == Some(p3));
    assert forall|k: int| 0 <= k < da.len() implies s.subrange(p3, p4)[k] == da[k] by {
        assert(s[p3 + k] == de[p3 - i + k]);
        assert(de[p3 - i + k] == da[k]);
    }
    assert(s.subrange(p3, p4) =~= da);
    assert(de[p4 - i] == 0x7d);
    assert(s[p4] == 0x7d);
    assert(!is_digit_byte(0x7d));
    lemma_sp_nat_inversion(s, p3, d.amount as nat);
    assert(sp_byte(s, p4, 0x7d) == Some(p4 + 1));
    assert(p4 + 1 == i + de.len());
}

/// A transaction missing its signature or its public key never verifies,
/// and fails for that reason.
pub proof fn lemma_unsigned_tx_missing_signature(t: Transaction)
    requires
        t.signature is None || t.public_key is None,
    ensures
        spec_tx_verify(t) == Err::<(), ValidationError>(ValidationError::MissingSignature),
{
}

/// Transactions with the same wire fields carry the same transfer data, and
/// so the same hash; with the round trip this says a decoded transaction
/// hashes like the one encoded.
pub proof fn lemma_tx_parts_same_hash(t1: Transaction, t2: Transaction)
    requires
        tx_parts(t1) == tx_parts(t2),
    ensures
        tx_hash(t1.data) == tx_hash(t2.data),
{
    assert(data_encoding(t1.data) == data_encoding(t2.data));
}

/// A canonical transaction encoding starts with an opening brace.
pub proof fn lemma_tx_encoding_first(t: Transaction)
    ensures
        tx_encoding(t).len() > 0,
        tx_encoding(t)[0] == 0x7b,
{
    reveal(lit_tx_pk);
    assert(tx_encoding(t)[0] == lit_tx_pk()[0]);
}

} // verus!
