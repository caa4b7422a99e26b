//! Canonical byte-level encoding primitives for the wire format.
//!
//! Every entity is serialized as compact JSON over ASCII bytes; the hashes of
//! transactions and headers are digests of these canonical encodings, so the
//! format is specified exactly and the encoders and parsers are verified
//! against it.

use vstd::prelude::*;

verus! {

/// ASCII decimal digit.
pub open spec fn is_digit_byte(b: u8) -> bool {
    0x30 <= b <= 0x39
}

/// Numeric value of an ASCII digit.
pub open spec fn digit_val(b: u8) -> nat {
    (b - 0x30) as nat
}

/// ASCII digit for a value below ten.
pub open spec fn digit_byte(d: nat) -> u8 {
    (0x30 + d) as u8
}

/// Canonical decimal representation of a natural number, most significant
/// digit first, no leading zeros (except for zero itself).
pub open spec fn dec_rep(n: nat) -> Seq<u8>
    decreases n,
{
    if n < 10 {
        seq![digit_byte(n)]
    } else {
        dec_rep(n / 10) + seq![digit_byte(n % 10)]
    }
}

pub proof fn lemma_dec_rep_digits(n: nat)
    ensures
        dec_rep(n).len() >= 1,
        forall|k: int| 0 <= k < dec_rep(n).len() ==> is_digit_byte(#[trigger] dec_rep(n)[k]),
    decreases n,
{
    if n >= 10 {
        lemma_dec_rep_digits(n / 10);
    }
}

/// Append the decimal digits of `n` to `out`.
pub fn push_u64(out: &mut Vec<u8>, n: u64)
    ensures
        final(out)@ == old(out)@ + dec_rep(n as nat),
    decreases n,
{
    if n < 10 {
        out.push(0x30 + (n as u8));
        assert(out@ =~= old(out)@ + dec_rep(n as nat));
    } else {
        push_u64(out, n / 10);
        out.push(0x30 + ((n % 10) as u8));
        assert(out@ =~= old(out)@ + dec_rep(n as nat));
    }
}

/// The literal `{"public_key":`.
#[verifier::opaque]
pub open spec fn lit_tx_pk() -> Seq<u8> {
    seq![0x7bu8, 0x22, 0x70, 0x75, 0x62, 0x6c, 0x69, 0x63, 0x5f, 0x6b, 0x65, 0x79, 0x22, 0x3a]
}

pub fn lit_tx_pk_vec() -> (v: Vec<u8>)
    ensures
        v@ == lit_tx_pk(),
{
    let mut v: Vec<u8> = Vec::new();
    v.push(0x7b);
    v.push(0x22);
    v.push(0x70);
    v.push(0x75);
    v.push(0x62);
    v.push(0x6c);
    v.push(0x69);
    v.push(0x63);
    v.push(0x5f);
    v.push(0x6b);
    v.push(0x65);
    v.push(0x79);
    v.push(0x22);
    v.push(0x3a);
    proof {
        reveal(lit_tx_pk);
    }
    assert(v@ =~= lit_tx_pk());
    v
}

/// The literal `,"signature":`.
#[verifier::opaque]
pub open spec fn lit_tx_sig() -> Seq<u8> {
    seq![0x2cu8, 0x22, 0x73, 0x69, 0x67, 0x6e, 0x61, 0x74, 0x75, 0x72, 0x65, 0x22, 0x3a]
}

pub fn lit_tx_sig_vec() -> (v: Vec<u8>)
    ensures
        v@ == lit_tx_sig(),
{
    let mut v: Vec<u8> = Vec::new();
    v.push(0x2c);
    v.push(0x22);
    v.push(0x73);
    v.push(0x69);
    v.push(0x67);
    v.push(0x6e);
    v.push(0x61);
    v.push(0x74);
    v.push(0x75);
    v.push(0x72);
    v.push(0x65);
    v.push(0x22);
    v.push(0x3a);
    proof {
        reveal(lit_tx_sig);
    }
    assert(v@ =~= lit_tx_sig());
    v
}

/// The literal `,"data":`.
#[verifier::opaque]
pub open spec fn lit_tx_data() -> Seq<u8> {
    seq![0x2cu8, 0x22, 0x64, 0x61, 0x74, 0x61, 0x22, 0x3a]
}

pub fn lit_tx_data_vec() -> (v: Vec<u8>)
    ensures
        v@ == lit_tx_data(),
{
    let mut v: Vec<u8> = Vec::new();
    v.push(0x2c);
    v.push(0x22);
    v.push(0x64);
    v.push(0x61);
    v.push(0x74);
    v.push(0x61);
    v.push(0x22);
    v.push(0x3a);
    proof {
        reveal(lit_tx_data);
    }
    assert(v@ =~= lit_tx_data());
    v
}

/// The literal `{"to":[`.
#[verifier::opaque]
pub open spec fn lit_data_to() -> Seq<u8> {
    seq![0x7bu8, 0x22, 0x74, 0x6f, 0x22, 0x3a, 0x5b]
}

pub fn lit_data_to_vec() -> (v: Vec<u8>)
    ensures
        v@ == lit_data_to(),
{
    let mut v: Vec<u8> = Vec::new();
    v.push(0x7b);
    v.push(0x22);
    v.push(0x74);
    v.push(0x6f);
    v.push(0x22);
    v.push(0x3a);
    v.push(0x5b);
    proof {
        reveal(lit_data_to);
    }
    assert(v@ =~= lit_data_to());
    v
}

/// The literal `],"amount":`.
#[verifier::opaque]
pub open spec fn lit_data_amount() -> Seq<u8> {
    seq![0x5du8, 0x2c, 0x22, 0x61, 0x6d, 0x6f, 0x75, 0x6e, 0x74, 0x22, 0x3a]
}

pub fn lit_data_amount_vec() -> (v: Vec<u8>)
    ensures
        v@ == lit_data_amount(),
{
    let mut v: Vec<u8> = Vec::new();
    v.push(0x5d);
    v.push(0x2c);
    v.push(0x22);
    v.push(0x61);
    v.push(0x6d);
    v.push(0x6f);
    v.push(0x75);
    v.push(0x6e);
    v.push(0x74);
    v.push(0x22);
    v.push(0x3a);
    proof {
        reveal(lit_data_amount);
    }
    assert(v@ =~= lit_data_amount());
    v
}

/// The literal `{"version":`.
#[verifier::opaque]
pub open spec fn lit_hdr_version() -> Seq<u8> {
    seq![0x7bu8, 0x22, 0x76, 0x65, 0x72, 0x73, 0x69, 0x6f, 0x6e, 0x22, 0x3a]
}

pub fn lit_hdr_version_vec() -> (v: Vec<u8>)
    ensures
        v@ == lit_hdr_version(),
{
    let mut v: Vec<u8> = Vec::new();
    v.push(0x7b);
    v.push(0x22);
    v.push(0x76);
    v.push(0x65);
    v.push(0x72);
    v.push(0x73);
    v.push(0x69);
    v.push(0x6f);
    v.push(0x6e);
    v.push(0x22);
    v.push(0x3a);
    proof {
        reveal(lit_hdr_version);
    }
    assert(v@ =~= lit_hdr_version());
    v
}

/// The literal `,"data_hash":`.
#[verifier::opaque]
pub open spec fn lit_hdr_data_hash() -> Seq<u8> {
    seq![0x2cu8, 0x22, 0x64, 0x61, 0x74, 0x61, 0x5f, 0x68, 0x61, 0x73, 0x68, 0x22, 0x3a]
}

pub fn lit_hdr_data_hash_vec() -> (v: Vec<u8>)
    ensures
        v@ == lit_hdr_data_hash(),
{
    let mut v: Vec<u8> = Vec::new();
    v.push(0x2c);
    v.push(0x22);
    v.push(0x64);
    v.push(0x61);
    v.push(0x74);
    v.push(0x61);
    v.push(0x5f);
    v.push(0x68);
    v.push(0x61);
    v.push(0x73);
    v.push(0x68);
    v.push(0x22);
    v.push(0x3a);
    proof {
        reveal(lit_hdr_data_hash);
    }
    assert(v@ =~= lit_hdr_data_hash());
    v
}

/// The literal `,"timestamp":`.
#[verifier::opaque]
pub open spec fn lit_hdr_timestamp() -> Seq<u8> {
    seq![0x2cu8, 0x22, 0x74, 0x69, 0x6d, 0x65, 0x73, 0x74, 0x61, 0x6d, 0x70, 0x22, 0x3a]
}

pub fn lit_hdr_timestamp_vec() -> (v: Vec<u8>)
    ensures
        v@ == lit_hdr_timestamp(),
{
    let mut v: Vec<u8> = Vec::new();
    v.push(0x2c);
    v.push(0x22);
    v.push(0x74);
    v.push(0x69);
    v.push(0x6d);
    v.push(0x65);
    v.push(0x73);
    v.push(0x74);
    v.push(0x61);
    v.push(0x6d);
    v.push(0x70);
    v.push(0x22);
    v.push(0x3a);
    proof {
        reveal(lit_hdr_timestamp);
    }
    assert(v@ =~= lit_hdr_timestamp());
    v
}

/// The literal `,"prev_block_hash":`.
#[verifier::opaque]
pub open spec fn lit_hdr_prev() -> Seq<u8> {
    seq![0x2cu8, 0x22, 0x70, 0x72, 0x65, 0x76, 0x5f, 0x62, 0x6c, 0x6f, 0x63, 0x6b, 0x5f, 0x68, 0x61, 0x73, 0x68, 0x22, 0x3a]
}

pub fn lit_hdr_prev_vec() -> (v: Vec<u8>)
    ensures
        v@ == lit_hdr_prev(),
{
    let mut v: Vec<u8> = Vec::new();
    v.push(0x2c);
    v.push(0x22);
    v.push(0x70);
    v.push(0x72);
    v.push(0x65);
    v.push(0x76);
    v.push(0x5f);
    v.push(0x62);
    v.push(0x6c);
    v.push(0x6f);
    v.push(0x63);
    v.push(0x6b);
    v.push(0x5f);
    v.push(0x68);
    v.push(0x61);
    v.push(0x73);
    v.push(0x68);
    v.push(0x22);
    v.push(0x3a);
    proof {
        reveal(lit_hdr_prev);
    }
    assert(v@ =~= lit_hdr_prev());
    v
}

/// The literal `,"height":`.
#[verifier::opaque]
pub open spec fn lit_hdr_height() -> Seq<u8> {
    seq![0x2cu8, 0x22, 0x68, 0x65, 0x69, 0x67, 0x68, 0x74, 0x22, 0x3a]
}

pub fn lit_hdr_height_vec() -> (v: Vec<u8>)
    ensures
        v@ == lit_hdr_height(),
{
    let mut v: Vec<u8> = Vec::new();
    v.push(0x2c);
    v.push(0x22);
    v.push(0x68);
    v.push(0x65);
    v.push(0x69);
    v.push(0x67);
    v.push(0x68);
    v.push(0x74);
    v.push(0x22);
    v.push(0x3a);
    proof {
        reveal(lit_hdr_height);
    }
    assert(v@ =~= lit_hdr_height());
    v
}

/// The literal `{"header":`.
#[verifier::opaque]
pub open spec fn lit_blk_header() -> Seq<u8> {
    seq![0x7bu8, 0x22, 0x68, 0x65, 0x61, 0x64, 0x65, 0x72, 0x22, 0x3a]
}

pub fn lit_blk_header_vec() -> (v: Vec<u8>)
    ensures
        v@ == lit_blk_header(),
{
    let mut v: Vec<u8> = Vec::new();
    v.push(0x7b);
    v.push(0x22);
    v.push(0x68);
    v.push(0x65);
    v.push(0x61);
    v.push(0x64);
    v.push(0x65);
    v.push(0x72);
    v.push(0x22);
    v.push(0x3a);
    proof {
        reveal(lit_blk_header);
    }
    assert(v@ =~= lit_blk_header());
    v
}

/// The literal `,"transactions":[`.
#[verifier::opaque]
pub open spec fn lit_blk_txs() -> Seq<u8> {
    seq![0x2cu8, 0x22, 0x74, 0x72, 0x61, 0x6e, 0x73, 0x61, 0x63, 0x74, 0x69, 0x6f, 0x6e, 0x73, 0x22, 0x3a, 0x5b]
}

pub fn lit_blk_txs_vec() -> (v: Vec<u8>)
    ensures
        v@ == lit_blk_txs(),
{
    let mut v: Vec<u8> = Vec::new();
    v.push(0x2c);
    v.push(0x22);
    v.push(0x74);
    v.push(0x72);
    v.push(0x61);
    v.push(0x6e);
    v.push(0x73);
    v.push(0x61);
    v.push(0x63);
    v.push(0x74);
    v.push(0x69);
    v.push(0x6f);
    v.push(0x6e);
    v.push(0x73);
    v.push(0x22);
    v.push(0x3a);
    v.push(0x5b);
    proof {
        reveal(lit_blk_txs);
    }
    assert(v@ =~= lit_blk_txs());
    v
}

/// The literal `null`.
#[verifier::opaque]
pub open spec fn lit_null() -> Seq<u8> {
    seq![0x6eu8, 0x75, 0x6c, 0x6c]
}

pub fn lit_null_vec() -> (v: Vec<u8>)
    ensures
        v@ == lit_null(),
{
    let mut v: Vec<u8> = Vec::new();
    v.push(0x6e);
    v.push(0x75);
    v.push(0x6c);
    v.push(0x6c);
    proof {
        reveal(lit_null);
    }
    assert(v@ =~= lit_null());
    v
}


/// A byte that may stand unescaped inside a JSON string: printable ASCII
/// other than the quote and the backslash.
pub open spec fn plain_byte(b: u8) -> bool {
    0x20 <= b <= 0x7e && b != 0x22 && b != 0x5c
}

/// A byte sequence fit for embedding between quotes with no escaping.
pub open spec fn plain(s: Seq<u8>) -> bool {
    forall|k: int| 0 <= k < s.len() ==> plain_byte(#[trigger] s[k])
}

/// A lowercase ASCII hex digit.
pub open spec fn hex_byte(b: u8) -> bool {
    (0x30 <= b <= 0x39) || (0x61 <= b <= 0x66)
}

/// A byte sequence of lowercase ASCII hex digits.
pub open spec fn hex(s: Seq<u8>) -> bool {
    forall|k: int| 0 <= k < s.len() ==> hex_byte(#[trigger] s[k])
}

pub proof fn lemma_hex_is_plain(s: Seq<u8>)
    requires
        hex(s),
    ensures
        plain(s),
{
}

/// A byte sequence wrapped in quotes.
pub open spec fn quoted(s: Seq<u8>) -> Seq<u8> {
    seq![0x22u8] + s + seq![0x22u8]
}

/// `null` for a missing field, the quoted bytes for a present one.
pub open spec fn opt_quoted(s: Option<Seq<u8>>) -> Seq<u8> {
    match s {
        Some(v) => quoted(v),
        None => lit_null(),
    }
}

/// Canonical decimal representation of a signed value.
pub open spec fn dec_rep_i64(n: i64) -> Seq<u8> {
    if n < 0 {
        seq![0x2du8] + dec_rep((-(n as int)) as nat)
    } else {
        dec_rep(n as nat)
    }
}

/// Append the decimal representation of a signed value.
pub fn push_i64(out: &mut Vec<u8>, n: i64)
    ensures
        final(out)@ == old(out)@ + dec_rep_i64(n),
{
    if n < 0 {
        out.push(0x2d);
        let m: u64 = ((-(n as i128)) as u64);
        assert(m as nat == (-(n as int)) as nat);
        push_u64(out, m);
        assert(out@ =~= old(out)@ + dec_rep_i64(n));
    } else {
        push_u64(out, n as u64);
    }
}

/// Append bytes taken from another vector.
pub fn push_bytes(out: &mut Vec<u8>, src: &Vec<u8>)
    ensures
        final(out)@ == old(out)@ + src@,
{
    let n = src.len();
    let mut k: usize = 0;
    while k < n
        invariant
            n == src@.len(),
            k <= n,
            out@ == old(out)@ + src@.subrange(0, k as int),
        decreases n - k,
    {
        out.push(src[k]);
        assert(out@ =~= old(out)@ + src@.subrange(0, k as int + 1));
        k = k + 1;
    }
    assert(out@ =~= old(out)@ + src@);
}

/// Append a quoted string.
pub fn push_quoted(out: &mut Vec<u8>, src: &Vec<u8>)
    ensures
        final(out)@ == old(out)@ + quoted(src@),
{
    out.push(0x22);
    push_bytes(out, src);
    out.push(0x22);
    assert(out@ =~= old(out)@ + quoted(src@));
}

// ---------------------------------------------------------------------------
// Specification-level parsing.
//
// Each `sp_` function consumes from index `i` of `s` and yields the parsed
// value with the index just past it, or `None` where the input does not match
// the canonical grammar.
// ---------------------------------------------------------------------------

/// Match an exact literal.
pub open spec fn sp_lit(s: Seq<u8>, i: int, lit: Seq<u8>) -> Option<int> {
    if 0 <= i && i + lit.len() <= s.len() && s.subrange(i, i + lit.len() as int) == lit {
        Some(i + lit.len() as int)
    } else {
        None
    }
}

/// Match a single byte.
pub open spec fn sp_byte(s: Seq<u8>, i: int, b: u8) -> Option<int> {
    if 0 <= i < s.len() && s[i] == b {
        Some(i + 1)
    } else {
        None
    }
}

/// End of the maximal run of decimal digits from `i`.
pub open spec fn digits_end(s: Seq<u8>, i: int) -> int
    decreases s.len() - i when 0 <= i <= s.len()
{
    if i < s.len() && is_digit_byte(s[i]) {
        digits_end(s, i + 1)
    } else {
        i
    }
}

/// Left fold of the digits in `s[i..j)` onto `acc`.
pub open spec fn digits_val(s: Seq<u8>, i: int, j: int, acc: nat) -> nat
    decreases j - i when i <= j
{
    if i < j {
        digits_val(s, i + 1, j, acc * 10 + digit_val(s[i]))
    } else {
        acc
    }
}

/// Parse a natural number written in decimal; at least one digit, greedy.
pub open spec fn sp_nat(s: Seq<u8>, i: int) -> Option<(nat, int)> {
    if 0 <= i < s.len() && is_digit_byte(s[i]) {
        Some((digits_val(s, i, digits_end(s, i), 0), digits_end(s, i)))
    } else {
        None
    }
}

/// Parse an integer: an optional minus sign, then digits.
pub open spec fn sp_int(s: Seq<u8>, i: int) -> Option<(int, int)> {
    if 0 <= i < s.len() && s[i] == 0x2d {
        match sp_nat(s, i + 1) {
            Some((v, j)) => Some((-(v as int), j)),
            None => None,
        }
    } else {
        match sp_nat(s, i) {
            Some((v, j)) => Some((v as int, j)),
            None => None,
        }
    }
}

/// Index of the closing quote of a string body starting at `i`, where every
/// byte before it is plain.
pub open spec fn str_body_end(s: Seq<u8>, i: int) -> Option<int>
    decreases s.len() - i when 0 <= i <= s.len()
{
    if i < s.len() {
        if s[i] == 0x22 {
            Some(i)
        } else if plain_byte(s[i]) {
            str_body_end(s, i + 1)
        } else {
            None
        }
    } else {
        None
    }
}

/// Parse a quoted string of plain bytes.
pub open spec fn sp_string(s: Seq<u8>, i: int) -> Option<(Seq<u8>, int)> {
    if 0 <= i < s.len() && s[i] == 0x22 {
        match str_body_end(s, i + 1) {
            Some(j) => Some((s.subrange(i + 1, j), j + 1)),
            None => None,
        }
    } else {
        None
    }
}

/// Parse `null` or a quoted string.
pub open spec fn sp_opt_string(s: Seq<u8>, i: int) -> Option<(Option<Seq<u8>>, int)> {
    if 0 <= i < s.len() && s[i] == 0x22 {
        match sp_string(s, i) {
            Some((v, j)) => Some((Some(v), j)),
            None => None,
        }
    } else {
        match sp_lit(s, i, lit_null()) {
            Some(j) => Some((None, j)),
            None => None,
        }
    }
}

// ---------------------------------------------------------------------------
// Inversion lemmas: parsing a canonical encoding embedded in a larger
// sequence yields the encoded value and stops right after it.
// ---------------------------------------------------------------------------

/// Digit folding peels the last digit.
proof fn lemma_digits_val_last(s: Seq<u8>, i: int, j: int, acc: nat)
    requires
        i < j,
    ensures
        digits_val(s, i, j, acc) == digits_val(s, i, j - 1, acc) * 10 + digit_val(s[j - 1]),
    decreases j - i,
{
    let acc2 = acc * 10 + digit_val(s[i]);
    assert(digits_val(s, i, j, acc) == digits_val(s, i + 1, j, acc2));
    if i + 1 < j {
        lemma_digits_val_last(s, i + 1, j, acc2);
        assert(digits_val(s, i, j - 1, acc) == digits_val(s, i + 1, j - 1, acc2));
    } else {
        assert(digits_val(s, i + 1, j, acc2) == acc2);
        assert(digits_val(s, i, j - 1, acc) == acc);
    }
}

/// Value of a standalone digit sequence.
pub open spec fn seq_val(ds: Seq<u8>) -> nat
    decreases ds.len(),
{
    if ds.len() == 0 {
        0
    } else {
        seq_val(ds.drop_last()) * 10 + digit_val(ds.last())
    }
}

proof fn lemma_digits_val_seq(s: Seq<u8>, i: int, j: int)
    requires
        0 <= i <= j <= s.len(),
    ensures
        digits_val(s, i, j, 0) == seq_val(s.subrange(i, j)),
    decreases j - i,
{
    if i < j {
        lemma_digits_val_last(s, i, j, 0);
        lemma_digits_val_seq(s, i, j - 1);
        assert(s.subrange(i, j).drop_last() =~= s.subrange(i, j - 1));
        assert(s.subrange(i, j).last() == s[j - 1]);
    } else {
        assert(s.subrange(i, j) =~= Seq::<u8>::empty());
    }
}

proof fn lemma_seq_val_dec_rep(n: nat)
    ensures
        seq_val(dec_rep(n)) == n,
    decreases n,
{
    if n < 10 {
        assert(dec_rep(n).drop_last() =~= Seq::<u8>::empty());
        assert(dec_rep(n).last() == digit_byte(n));
        assert(digit_val(digit_byte(n)) == n);
        assert(seq_val(Seq::<u8>::empty()) == 0);
        assert(seq_val(dec_rep(n))
            == seq_val(dec_rep(n).drop_last()) * 10 + digit_val(dec_rep(n).last()));
    } else {
        lemma_seq_val_dec_rep(n / 10);
        assert(dec_rep(n).drop_last() =~= dec_rep(n / 10));
        assert(dec_rep(n).last() == digit_byte(n % 10));
        assert(digit_val(digit_byte(n % 10)) == n % 10);
        assert(n / 10 * 10 + n % 10 == n) by {
            vstd::arithmetic::div_mod::lemma_fundamental_div_mod(n as int, 10);
        }
    }
}

proof fn lemma_digits_end_run(s: Seq<u8>, i: int, j: int)
    requires
        0 <= i <= j <= s.len(),
        forall|k: int| i <= k < j ==> is_digit_byte(#[trigger] s[k]),
        j == s.len() || !is_digit_byte(s[j]),
    ensures
        digits_end(s, i) == j,
    decreases j - i,
{
    if i < j {
        lemma_digits_end_run(s, i + 1, j);
    }
}

/// Parsing the canonical decimal of `n` embedded at `i` yields `n`, provided
/// the byte after it (if any) is not a digit.
pub proof fn lemma_sp_nat_inversion(s: Seq<u8>, i: int, n: nat)
    requires
        0 <= i,
        i + dec_rep(n).len() <= s.len(),
        s.subrange(i, i + dec_rep(n).len() as int) == dec_rep(n),
        i + dec_rep(n).len() == s.len() || !is_digit_byte(s[i + dec_rep(n).len()]),
    ensures
        sp_nat(s, i) == Some((n, i + dec_rep(n).len() as int)),
{
    let j = i + dec_rep(n).len() as int;
    lemma_dec_rep_digits(n);
    assert(forall|k: int| i <= k < j ==> is_digit_byte(#[trigger] s[k])) by {
        assert(forall|k: int| i <= k < j ==> s[k] == dec_rep(n)[k - i]);
    }
    lemma_digits_end_run(s, i, j);
    assert(is_digit_byte(s[i]));
    lemma_digits_val_seq(s, i, j);
    lemma_seq_val_dec_rep(n);
}

/// The signed form of the inversion.
pub proof fn lemma_sp_int_inversion(s: Seq<u8>, i: int, n: i64)
    requires
        0 <= i,
        i + dec_rep_i64(n).len() <= s.len(),
        s.subrange(i, i + dec_rep_i64(n).len() as int) == dec_rep_i64(n),
        i + dec_rep_i64(n).len() == s.len() || !is_digit_byte(s[i + dec_rep_i64(n).len()]),
    ensures
        sp_int(s, i) == Some((n as int, i + dec_rep_i64(n).len() as int)),
{
    if n < 0 {
        let m = (-(n as int)) as nat;
        assert(s[i] == s.subrange(i, i + dec_rep_i64(n).len() as int)[0]);
        assert(s[i] == 0x2d);
        assert(s.subrange(i + 1, i + 1 + dec_rep(m).len() as int) =~= dec_rep(m)) by {
            assert(forall|k: int| 0 <= k < dec_rep(m).len()
                ==> s.subrange(i, i + dec_rep_i64(n).len() as int)[k + 1]
                    == #[trigger] dec_rep(m)[k]);
        }
        lemma_sp_nat_inversion(s, i + 1, m);
        lemma_dec_rep_digits(m);
        assert(!is_digit_byte(0x2d));
    } else {
        lemma_sp_nat_inversion(s, i, n as nat);
        lemma_dec_rep_digits(n as nat);
        assert(dec_rep_i64(n) == dec_rep(n as nat));
        assert(s[i] == dec_rep(n as nat)[0]);
    }
}

/// Parsing a quoted plain body embedded at `i` yields the body.
pub proof fn lemma_sp_string_inversion(s: Seq<u8>, i: int, body: Seq<u8>)
    requires
        0 <= i,
        plain(body),
        i + quoted(body).len() <= s.len(),
        s.subrange(i, i + quoted(body).len() as int) == quoted(body),
    ensures
        sp_string(s, i) == Some((body, i + quoted(body).len() as int)),
{
    let q = quoted(body);
    let j = i + q.len() as int;
    assert(forall|k: int| i <= k < j ==> s[k] == q[k - i]);
    assert(s[i] == 0x22);
    assert(s[j - 1] == 0x22);
    assert(forall|k: int| i + 1 <= k < j - 1 ==> #[trigger] s[k] == body[k - i - 1]);
    lemma_str_body_run(s, i + 1, j - 1);
    assert(s.subrange(i + 1, j - 1) =~= body);
}

proof fn lemma_str_body_run(s: Seq<u8>, i: int, j: int)
    requires
        0 <= i <= j < s.len(),
        forall|k: int| i <= k < j ==> plain_byte(#[trigger] s[k]),
        s[j] == 0x22,
    ensures
        str_body_end(s, i) == Some(j),
    decreases j - i,
{
    if i < j {
        assert(s[i] != 0x22 && s[i] != 0x5c);
        lemma_str_body_run(s, i + 1, j);
    }
}

/// Parsing `opt_quoted` of an optional plain body.
pub proof fn lemma_sp_opt_string_inversion(s: Seq<u8>, i: int, body: Option<Seq<u8>>)
    requires
        0 <= i,
        body is Some ==> plain(body->0),
        i + opt_quoted(body).len() <= s.len(),
        s.subrange(i, i + opt_quoted(body).len() as int) == opt_quoted(body),
    ensures
        sp_opt_string(s, i) == Some((body, i + opt_quoted(body).len() as int)),
{
    match body {
        Some(b) => {
            lemma_sp_string_inversion(s, i, b);
            assert(s[i] == opt_quoted(body)[0]);
        }
        None => {
            reveal(lit_null);
            assert(s[i] == lit_null()[0]);
            assert(s[i] != 0x22);
        }
    }
}

// ---------------------------------------------------------------------------
// Executable parsers, each proved against its specification counterpart.
// ---------------------------------------------------------------------------

/// Match a literal at `i`.
pub fn eat_lit(s: &Vec<u8>, i: usize, lit: &Vec<u8>) -> (r: Option<usize>)
    ensures
        match r {
            Some(j) => sp_lit(s@, i as int, lit@) == Some(j as int),
            None => sp_lit(s@, i as int, lit@) is None,
        },
{
    let n = lit.len();
    if i > s.len() {
        return None;
    }
    if n > s.len() - i {
        return None;
    }
    let mut k: usize = 0;
    while k < n
        invariant
            n == lit@.len(),
            i + n <= s@.len(),
            i + n <= usize::MAX,
            k <= n,
            forall|m: int| 0 <= m < k ==> s@[i + m] == lit@[m],
        decreases n - k,
    {
        if s[i + k] != lit[k] {
            assert(s@.subrange(i as int, i + n as int)[k as int] != lit@[k as int]);
            return None;
        }
        k = k + 1;
    }
    assert(s@.subrange(i as int, i + n as int) =~= lit@);
    Some(i + n)
}

/// Match one byte at `i`.
pub fn eat_byte(s: &Vec<u8>, i: usize, b: u8) -> (r: Option<usize>)
    ensures
        match r {
            Some(j) => sp_byte(s@, i as int, b) == Some(j as int),
            None => sp_byte(s@, i as int, b) is None,
        },
{
    if i < s.len() && s[i] == b {
        Some(i + 1)
    } else {
        None
    }
}

/// Parse a decimal number that must fit in `u64`; rejects anything the
/// specification rejects and any value beyond `bound`.
pub fn eat_nat(s: &Vec<u8>, i: usize, bound: u64) -> (r: Option<(u64, usize)>)
    ensures
        match r {
            Some(vj) => sp_nat(s@, i as int) == Some((vj.0 as nat, vj.1 as int))
                && vj.0 <= bound && i < vj.1 <= s@.len(),
            None => sp_nat(s@, i as int) matches Some(vj) ==> vj.0 > bound,
        },
{
    if i >= s.len() || s[i] < 0x30 || s[i] > 0x39 {
        return None;
    }
    let mut j: usize = i;
    let mut v: u64 = 0;
    let ghost mut acc: nat = 0nat;
    let mut over: bool = false;
    while j < s.len() && s[j] >= 0x30 && s[j] <= 0x39
        invariant
            i <= j <= s@.len(),
            i < s@.len() && is_digit_byte(s@[i as int]),
            digits_end(s@, i as int) == digits_end(s@, j as int),
            digits_val(s@, i as int, digits_end(s@, i as int), 0)
                == digits_val(s@, j as int, digits_end(s@, j as int), acc),
            !over ==> acc == v as nat && v <= bound,
            over ==> acc > bound,
        decreases s@.len() - j,
    {
        let d: u8 = s[j] - 0x30;
        proof {
            lemma_digits_end_bounds(s@, j + 1 as int);
            assert(digits_end(s@, j as int) == digits_end(s@, j + 1 as int));
            assert(j < digits_end(s@, j as int));
            assert(digits_val(s@, j as int, digits_end(s@, j as int), acc)
                == digits_val(s@, j + 1 as int, digits_end(s@, j + 1 as int),
                    acc * 10 + digit_val(s@[j as int])));
        }
        if !over {
            let w: u128 = (v as u128) * 10 + (d as u128);
            if w > (bound as u128) {
                over = true;
            } else {
                v = w as u64;
            }
            proof {
                acc = acc * 10 + digit_val(s@[j as int]);
            }
        } else {
            proof {
                let a0 = acc;
                acc = acc * 10 + digit_val(s@[j as int]);
                assert(a0 * 10 >= a0) by (nonlinear_arith);
            }
        }
        j = j + 1;
    }
    proof {
        assert(digits_end(s@, j as int) == j);
        assert(digits_val(s@, j as int, j as int, acc) == acc);
        assert(sp_nat(s@, i as int) == Some((acc, j as int)));
        assert(digits_end(s@, i as int) == digits_end(s@, i + 1 as int));
        lemma_digits_end_bounds(s@, i + 1 as int);
        assert(j > i);
    }
    if over {
        None
    } else {
        Some((v, j))
    }
}

pub proof fn lemma_digits_end_bounds(s: Seq<u8>, i: int)
    requires
        0 <= i <= s.len(),
    ensures
        i <= digits_end(s, i) <= s.len(),
    decreases s.len() - i,
{
    if i < s.len() && is_digit_byte(s[i]) {
        lemma_digits_end_bounds(s, i + 1);
    }
}

/// Parse a signed decimal that must fit in `i64`.
pub fn eat_i64(s: &Vec<u8>, i: usize) -> (r: Option<(i64, usize)>)
    ensures
        match r {
            Some(vj) => sp_int(s@, i as int) == Some((vj.0 as int, vj.1 as int))
                && i < vj.1 <= s@.len(),
            None => sp_int(s@, i as int) matches Some(vj)
                ==> !(i64::MIN <= vj.0 <= i64::MAX),
        },
{
    if i < s.len() && s[i] == 0x2d {
        match eat_nat(s, i + 1, u64::MAX) {
            Some((v, j)) => {
                if v > 0x8000_0000_0000_0000u64 {
                    return None;
                }
                let w: i64 = (-(v as i128)) as i64;
                Some((w, j))
            }
            None => None,
        }
    } else {
        match eat_nat(s, i, u64::MAX) {
            Some((v, j)) => {
                if v > i64::MAX as u64 {
                    return None;
                }
                Some((v as i64, j))
            }
            None => None,
        }
    }
}

/// Parse a quoted string of plain bytes.
pub fn eat_string(s: &Vec<u8>, i: usize) -> (r: Option<(Vec<u8>, usize)>)
    ensures
        match r {
            Some(vj) => sp_string(s@, i as int) == Some((vj.0@, vj.1 as int))
                && i < vj.1 <= s@.len(),
            None => sp_string(s@, i as int) is None,
        },
{
    if i >= s.len() || s[i] != 0x22 {
        return None;
    }
    let mut j: usize = i + 1;
    let mut body: Vec<u8> = Vec::new();
    loop
        invariant
            i + 1 <= j <= s@.len(),
            s@[i as int] == 0x22,
            0 <= i < s@.len(),
            forall|k: int| i + 1 <= k < j ==> plain_byte(#[trigger] s@[k]) && s@[k] != 0x22,
            str_body_end(s@, i + 1 as int) == str_body_end(s@, j as int),
            body@ == s@.subrange(i + 1 as int, j as int),
        decreases s@.len() - j,
    {
        if j >= s.len() {
            return None;
        }
        let b = s[j];
        if b == 0x22 {
            assert(str_body_end(s@, j as int) == Some(j as int));
            assert(s@.subrange(i + 1 as int, j as int) == body@);
            return Some((body, j + 1));
        }
        if b < 0x20 || b > 0x7e || b == 0x5c {
            assert(!plain_byte(s@[j as int]));
            return None;
        }
        body.push(b);
        assert(body@ =~= s@.subrange(i + 1 as int, j + 1 as int));
        j = j + 1;
    }
}

/// Parse `null` or a quoted string.
pub fn eat_opt_string(s: &Vec<u8>, i: usize) -> (r: Option<(Option<Vec<u8>>, usize)>)
    ensures
        match r {
            Some(vj) => sp_opt_string(s@, i as int) == Some((
                match vj.0 {
                    Some(v) => Some(v@),
                    None => None,
                },
                vj.1 as int,
            )) && i < vj.1 <= s@.len(),
            None => sp_opt_string(s@, i as int) is None,
        },
{
    if i < s.len() && s[i] == 0x22 {
        match eat_string(s, i) {
            Some((v, j)) => Some((Some(v), j)),
            None => None,
        }
    } else {
        let nl = lit_null_vec();
        proof {
            reveal(lit_null);
        }
        match eat_lit(s, i, &nl) {
            Some(j) => Some((None, j)),
            None => None,
        }
    }
}

// ---------------------------------------------------------------------------
// Comma-separated lists of byte values (addresses are written this way).
// ---------------------------------------------------------------------------

/// Canonical encoding of a list of byte values: decimal numbers joined by
/// commas, no brackets.
pub open spec fn enc_u8_seq(bs: Seq<u8>) -> Seq<u8>
    decreases bs.len(),
{
    if bs.len() == 0 {
        seq![]
    } else if bs.len() == 1 {
        dec_rep(bs[0] as nat)
    } else {
        dec_rep(bs[0] as nat) + seq![0x2cu8] + enc_u8_seq(bs.drop_first())
    }
}

/// Parse exactly `count` comma-separated byte values.
pub open spec fn sp_u8_list(s: Seq<u8>, i: int, count: nat) -> Option<(Seq<u8>, int)>
    decreases count,
{
    if count == 0 {
        Some((seq![], i))
    } else {
        match sp_nat(s, i) {
            Some((v, j)) => {
                if v > 255 {
                    None
                } else if count == 1 {
                    Some((seq![v as u8], j))
                } else {
                    match sp_byte(s, j, 0x2c) {
                        Some(j2) => match sp_u8_list(s, j2, (count - 1) as nat) {
                            Some((rest, j3)) => Some((seq![v as u8] + rest, j3)),
                            None => None,
                        },
                        None => None,
                    }
                }
            }
            None => None,
        }
    }
}

/// Parsing the canonical list embedded at `i` yields the bytes, provided the
/// byte after it (if any) is not a digit.
pub proof fn lemma_sp_u8_list_inversion(s: Seq<u8>, i: int, bs: Seq<u8>)
    requires
        0 <= i,
        bs.len() >= 1,
        i + enc_u8_seq(bs).len() <= s.len(),
        s.subrange(i, i + enc_u8_seq(bs).len() as int) == enc_u8_seq(bs),
        i + enc_u8_seq(bs).len() == s.len()
            || !is_digit_byte(s[i + enc_u8_seq(bs).len()]),
    ensures
        sp_u8_list(s, i, bs.len()) == Some((bs, i + enc_u8_seq(bs).len() as int)),
    decreases bs.len(),
{
    let e = enc_u8_seq(bs);
    let d0 = dec_rep(bs[0] as nat);
    lemma_dec_rep_digits(bs[0] as nat);
    assert(forall|k: int| 0 <= k < e.len() ==> s[i + k] == e[k]) by {
        assert(forall|k: int| 0 <= k < e.len()
            ==> s.subrange(i, i + e.len() as int)[k] == #[trigger] e[k]);
    }
    if bs.len() == 1 {
        assert(s.subrange(i, i + d0.len() as int) =~= d0);
        lemma_sp_nat_inversion(s, i, bs[0] as nat);
        assert(seq![bs[0]] =~= bs);
    } else {
        assert(e[d0.len() as int] == 0x2c);
        assert(s.subrange(i, i + d0.len() as int) =~= d0);
        assert(!is_digit_byte(0x2c));
        lemma_sp_nat_inversion(s, i, bs[0] as nat);
        let j = i + d0.len() as int;
        assert(s[j] == 0x2c);
        assert(sp_byte(s, j, 0x2c) == Some(j + 1));
        let rest = bs.drop_first();
        let er = enc_u8_seq(rest);
        assert(e =~= d0 + seq![0x2cu8] + er);
        assert forall|k: int| 0 <= k < er.len()
            implies s.subrange(j + 1, j + 1 + er.len() as int)[k] == er[k] by {
            assert(s[j + 1 + k] == e[d0.len() + 1 + k]);
            assert(e[d0.len() + 1 + k] == er[k]);
        }
        assert(s.subrange(j + 1, j + 1 + er.len() as int) =~= er);
        lemma_sp_u8_list_inversion(s, j + 1, rest);
        assert(seq![bs[0]] + rest =~= bs);
    }
}

/// Parse `count` comma-separated byte values.
pub fn eat_u8_list(s: &Vec<u8>, i: usize, count: usize) -> (r: Option<(Vec<u8>, usize)>)
    requires
        i <= s@.len(),
    ensures
        match r {
            Some(vj) => sp_u8_list(s@, i as int, count as nat) == Some((vj.0@, vj.1 as int))
                && i <= vj.1 <= s@.len(),
            None => sp_u8_list(s@, i as int, count as nat) is None,
        },
    decreases count,
{
    if count == 0 {
        let out: Vec<u8> = Vec::new();
        assert(out@ =~= Seq::<u8>::empty());
        return Some((out, i));
    }
    match eat_nat(s, i, 255) {
        None => None,
        Some((v, j)) => {
            if count == 1 {
                let mut out: Vec<u8> = Vec::new();
                out.push(v as u8);
                assert(out@ =~= seq![((sp_nat(s@, i as int)->0).0) as u8]);
                Some((out, j))
            } else {
                match eat_byte(s, j, 0x2c) {
                    None => None,
                    Some(j2) => match eat_u8_list(s, j2, count - 1) {
                        None => None,
                        Some((mut rest, j3)) => {
                            let mut out: Vec<u8> = Vec::new();
                            out.push(v as u8);
                            out.append(&mut rest);
                            assert(out@ =~= seq![((sp_nat(s@, i as int)->0).0) as u8]
                                + (sp_u8_list(s@, j2 as int, (count - 1) as nat)->0).0);
                            Some((out, j3))
                        }
                    },
                }
            }
        }
    }
}

/// Append the canonical encoding of a list of byte values.
pub fn push_u8_vec(out: &mut Vec<u8>, arr: &Vec<u8>)
    ensures
        final(out)@ == old(out)@ + enc_u8_seq(arr@),
{
    let n = arr.len();
    assert(arr@.skip(0) =~= arr@);
    let mut k: usize = 0;
    while k < n
        invariant
            n == arr@.len(),
            k <= n,
            out@ + enc_u8_seq(arr@.skip(k as int)) == old(out)@ + enc_u8_seq(arr@),
        decreases n - k,
    {
        proof {
            assert(arr@.skip(k as int).len() == n - k);
            assert(arr@.skip(k as int)[0] == arr@[k as int]);
            if k + 1 < n {
                assert(arr@.skip(k as int).drop_first() =~= arr@.skip(k as int + 1));
            }
        }
        push_u64(out, arr[k] as u64);
        if k + 1 < n {
            out.push(0x2c);
            assert(out@ + enc_u8_seq(arr@.skip(k as int + 1)) =~= old(out)@ + enc_u8_seq(arr@));
        } else {
            assert(arr@.skip(k as int + 1) =~= Seq::<u8>::empty());
            assert(out@ + enc_u8_seq(arr@.skip(k as int + 1)) =~= old(out)@ + enc_u8_seq(arr@));
        }
        k = k + 1;
    }
    assert(enc_u8_seq(arr@.skip(n as int)) =~= Seq::<u8>::empty());
    assert(out@ =~= out@ + enc_u8_seq(arr@.skip(n as int)));
}

/// Every byte of a parsed string body is plain, and the body came from `s`.
pub proof fn lemma_str_body_plain(s: Seq<u8>, i: int)
    requires
        0 <= i <= s.len(),
        str_body_end(s, i) is Some,
    ensures
        i <= str_body_end(s, i)->0 < s.len(),
        forall|k: int| i <= k < str_body_end(s, i)->0 ==> plain_byte(#[trigger] s[k]),
    decreases s.len() - i,
{
    if i < s.len() && s[i] != 0x22 && plain_byte(s[i]) {
        lemma_str_body_plain(s, i + 1);
    }
}

/// A successfully parsed string has a plain body and advances the cursor.
pub proof fn lemma_sp_string_plain(s: Seq<u8>, i: int)
    requires
        sp_string(s, i) is Some,
    ensures
        plain((sp_string(s, i)->0).0),
        i < (sp_string(s, i)->0).1 <= s.len(),
{
    lemma_str_body_plain(s, i + 1);
    let j = str_body_end(s, i + 1)->0;
    assert(forall|k: int| 0 <= k < j - i - 1
        ==> plain_byte(#[trigger] s.subrange(i + 1, j)[k]));
}

/// A parsed list of `count` byte values has exactly `count` entries.
pub proof fn lemma_sp_u8_list_len(s: Seq<u8>, i: int, count: nat)
    requires
        sp_u8_list(s, i, count) is Some,
    ensures
        (sp_u8_list(s, i, count)->0).0.len() == count,
    decreases count,
{
    if count > 0 {
        match sp_nat(s, i) {
            Some((v, j)) => {
                if count > 1 {
                    match sp_byte(s, j, 0x2c) {
                        Some(j2) => lemma_sp_u8_list_len(s, j2, (count - 1) as nat),
                        None => {}
                    }
                }
            }
            None => {}
        }
    }
}

/// View of an optional byte vector.
pub open spec fn opt_view(o: Option<Vec<u8>>) -> Option<Seq<u8>> {
    match o {
        Some(v) => Some(v@),
        None => None,
    }
}

/// Append `null` or a quoted string.
pub fn push_opt_quoted(out: &mut Vec<u8>, src: &Option<Vec<u8>>)
    ensures
        final(out)@ == old(out)@ + opt_quoted(opt_view(*src)),
{
    match src {
        Some(v) => push_quoted(out, v),
        None => {
            let nl = lit_null_vec();
            push_bytes(out, &nl);
        }
    }
}

/// Byte-for-byte equality of two vectors.
pub fn bytes_eq(a: &Vec<u8>, b: &Vec<u8>) -> (r: bool)
    ensures
        r == (a@ == b@),
{
    if a.len() != b.len() {
        return false;
    }
    let n = a.len();
    let mut k: usize = 0;
    while k < n
        invariant
            n == a@.len() == b@.len(),
            k <= n,
            forall|m: int| 0 <= m < k ==> a@[m] == b@[m],
        decreases n - k,
    {
        if a[k] != b[k] {
            return false;
        }
        k = k + 1;
    }
    assert(a@ =~= b@);
    true
}

/// Runtime test for `plain`.
pub fn is_plain(v: &Vec<u8>) -> (r: bool)
    ensures
        r == plain(v@),
{
    let n = v.len();
    let mut k: usize = 0;
    while k < n
        invariant
            n == v@.len(),
            k <= n,
            forall|m: int| 0 <= m < k ==> plain_byte(#[trigger] v@[m]),
        decreases n - k,
    {
        let b = v[k];
        if b < 0x20 || b > 0x7e || b == 0x22 || b == 0x5c {
            assert(!plain_byte(v@[k as int]));
            return false;
        }
        k = k + 1;
    }
    true
}

/// Split a known concatenation: the head segment and the tail occupy the
/// expected subranges.
pub proof fn lemma_peel(s: Seq<u8>, i: int, a: Seq<u8>, rest: Seq<u8>)
    requires
        0 <= i <= s.len(),
        s.subrange(i, s.len() as int) == a + rest,
    ensures
        i + a.len() <= s.len(),
        s.subrange(i, i + a.len() as int) == a,
        s.subrange(i + a.len() as int, s.len() as int) == rest,
{
    assert(s.subrange(i, s.len() as int).len() == a.len() + rest.len());
    assert forall|k: int| 0 <= k < a.len()
        implies s.subrange(i, i + a.len() as int)[k] == a[k] by {
        assert(s.subrange(i, s.len() as int)[k] == (a + rest)[k]);
    }
    assert(s.subrange(i, i + a.len() as int) =~= a);
    assert forall|k: int| 0 <= k < rest.len()
        implies s.subrange(i + a.len() as int, s.len() as int)[k] == rest[k] by {
        assert(s.subrange(i + a.len() as int, s.len() as int)[k] == s[i + a.len() + k]);
        assert(s.subrange(i, s.len() as int)[a.len() + k] == s[i + a.len() + k]);
        assert((a + rest)[a.len() + k] == rest[k]);
    }
    assert(s.subrange(i + a.len() as int, s.len() as int) =~= rest);
}

} // verus!
