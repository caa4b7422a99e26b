//! Crypto primitives: deterministic keypair generation, signing and
//! verification over the canonical encodings.
//!
//! The key material lives in secp256k1 types and is opaque here; since a
//! keypair is generated deterministically from its seed, every contract
//! speaks of the seed and of named functions of it.

use vstd::prelude::*;
use core::str::FromStr;
use secp256k1::rand::SeedableRng;
use crate::codec::hex;

verus! {

/// Hex digest of the SHA-256 of a byte sequence, exactly as the sha256 crate
/// prints it: a function of the input bytes alone.
pub uninterp spec fn digest_of(data: Seq<u8>) -> Seq<u8>;

/// Canonical string form of the public key generated from a seed.
pub uninterp spec fn public_key_of(seed: u64) -> Seq<u8>;

/// Canonical string form of the signature the key of `seed` produces over a
/// 32-byte message (signing uses deterministic RFC 6979 nonces).
pub uninterp spec fn signature_of(seed: u64, msg: Seq<u8>) -> Seq<u8>;

/// Whether a signature string verifies under a public key string over a
/// message; parsing either string may fail, in which case it does not verify.
pub uninterp spec fn sig_verifies(sig: Seq<u8>, pk: Seq<u8>, msg: Seq<u8>) -> bool;

#[verifier::external_type_specification]
#[verifier::external_body]
pub struct ExSecretKey(secp256k1::SecretKey);

#[verifier::external_type_specification]
#[verifier::external_body]
pub struct ExPublicKey(secp256k1::PublicKey);

/// Relies on sha256::digest: the result is 64 lowercase hex digits that
/// depend on the input bytes alone.
#[verifier::external_body]
pub(crate) fn sha256_hex(data: &Vec<u8>) -> (r: Vec<u8>)
    ensures
        r@ == digest_of(data@),
        r@.len() == 64,
        hex(r@),
{
    sha256::digest(data).into_bytes()
}

/// The 32 bytes actually handed to the signature algorithm: adjacent digits
/// of the hex digest string are summed pairwise.
pub open spec fn fold_pair(d: Seq<u8>) -> Seq<u8> {
    Seq::new(32, |k: int| ((d[2 * k] + d[2 * k + 1]) % 256) as u8)
}

/// The message signed for a given payload: its digest string, folded.
pub open spec fn msg_of(data: Seq<u8>) -> Seq<u8> {
    fold_pair(digest_of(data))
}

/// Fold a 64-digit hex string into the 32-byte message to sign.
pub(crate) fn fold_digest(d: &Vec<u8>) -> (r: Vec<u8>)
    requires
        d@.len() == 64,
        hex(d@),
    ensures
        r@ == fold_pair(d@),
        r@.len() == 32,
{
    let mut r: Vec<u8> = Vec::new();
    let mut k: usize = 0;
    while k < 32
        invariant
            d@.len() == 64,
            hex(d@),
            k <= 32,
            r@.len() == k,
            forall|m: int| 0 <= m < k ==> r@[m] == fold_pair(d@)[m],
        decreases 32 - k,
    {
        let a = d[2 * k];
        let b = d[2 * k + 1];
        assert(a <= 0x66 && b <= 0x66);
        r.push(a + b);
        k = k + 1;
    }
    assert(r@ =~= fold_pair(d@));
    r
}

/// A deterministic signing keypair. The seed pins the key material, so the
/// contracts of signing speak of the seed alone.
pub struct KeyPair {
    seed: u64,
    private_key: secp256k1::SecretKey,
    public_key: secp256k1::PublicKey,
}

impl KeyPair {
    /// The seed this keypair was generated from.
    pub closed spec fn spec_seed(self) -> u64 {
        self.seed
    }

    /// Relies on secp256k1::Secp256k1::generate_keypair drawing from a
    /// rand::StdRng seeded with seed_from_u64: the generated pair is a
    /// function of the seed.
    #[verifier::external_body]
    pub fn new(seed: u64) -> (kp: KeyPair)
        ensures
            kp.spec_seed() == seed,
    {
        let secp = secp256k1::Secp256k1::new();
        let mut rng = secp256k1::rand::rngs::StdRng::seed_from_u64(seed);
        let (private_key, public_key) = secp.generate_keypair(&mut rng);
        KeyPair { seed, private_key, public_key }
    }

    /// The canonical lowercase-hex string of this keypair's public key.
    pub fn public_key_bytes(&self) -> (r: Vec<u8>)
        ensures
            r@ == public_key_of(self.spec_seed()),
            hex(r@),
    {
        public_key_hex(self)
    }

    /// Sign a payload: digest it, fold the digest into the 32-byte message,
    /// and sign that. The returned signature verifies under this keypair's
    /// public key.
    pub fn sign(&self, data: &Vec<u8>) -> (sig: Sig)
        ensures
            sig.signature@ == signature_of(self.spec_seed(), msg_of(data@)),
            sig_verifies(sig.signature@, public_key_of(self.spec_seed()), msg_of(data@)),
            hex(sig.signature@),
    {
        let digest = sha256_hex(data);
        let msg = fold_digest(&digest);
        let signature = sign_digest32(self, &msg);
        Sig { signature }
    }
}

/// Relies on secp256k1::Secp256k1::sign, which uses deterministic RFC 6979
/// nonces, and on Signature's Display, which prints the DER bytes as
/// lowercase hex; a signature produced by a secret key verifies under the
/// matching public key.
#[verifier::external_body]
fn sign_digest32(kp: &KeyPair, msg: &Vec<u8>) -> (sig: Vec<u8>)
    requires
        msg@.len() == 32,
    ensures
        sig@ == signature_of(kp.spec_seed(), msg@),
        sig_verifies(sig@, public_key_of(kp.spec_seed()), msg@),
        hex(sig@),
{
    let secp = secp256k1::Secp256k1::new();
    let m = secp256k1::Message::from_slice(&msg[..]).unwrap();
    let s = secp.sign(&m, &kp.private_key);
    s.to_string().into_bytes()
}

/// Relies on PublicKey's Display, which prints the compressed key as
/// lowercase hex: a function of the key, hence of the seed.
#[verifier::external_body]
pub(crate) fn public_key_hex(kp: &KeyPair) -> (r: Vec<u8>)
    ensures
        r@ == public_key_of(kp.spec_seed()),
        hex(r@),
{
    kp.public_key.to_string().into_bytes()
}

/// Relies on Signature::from_str, PublicKey::from_str, Message::from_slice
/// and Secp256k1::verify: the outcome is a function of the signature string,
/// the key string and the message bytes; a string that does not parse never
/// verifies.
#[verifier::external_body]
pub(crate) fn verify_strings(sig: &Vec<u8>, pk: &Vec<u8>, msg: &Vec<u8>) -> (r: bool)
    ensures
        r == sig_verifies(sig@, pk@, msg@),
{
    let sig_str = match core::str::from_utf8(sig) { Ok(v) => v, Err(_) => return false };
    let pk_str = match core::str::from_utf8(pk) { Ok(v) => v, Err(_) => return false };
    let sig = match secp256k1::Signature::from_str(sig_str) { Ok(v) => v, Err(_) => return false };
    let pk = match secp256k1::PublicKey::from_str(pk_str) { Ok(v) => v, Err(_) => return false };
    let m = match secp256k1::Message::from_slice(&msg[..]) { Ok(v) => v, Err(_) => return false };
    let secp = secp256k1::Secp256k1::new();
    secp.verify(&m, &sig, &pk).is_ok()
}

/// A signature held in its canonical lowercase-hex string form.
pub struct Sig {
    pub signature: Vec<u8>,
}

impl Sig {
    /// Check this signature against a public key string and a payload.
    pub fn verify(&self, public_key: &Vec<u8>, data: &Vec<u8>) -> (r: bool)
        ensures
            r == sig_verifies(self.signature@, public_key@, msg_of(data@)),
    {
        let digest = sha256_hex(data);
        let msg = fold_digest(&digest);
        verify_strings(&self.signature, public_key, &msg)
    }
}

} // verus!
