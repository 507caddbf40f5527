//! Integrity verification of a downloaded feed body.
//!
//! The companion endpoint publishes the expected digest as the first
//! whitespace-delimited token of its text (anything after it, such as a file
//! name, is ignored). The body's SHA-256 digest, written as lowercase hex,
//! must equal that token; a mismatch is fatal and carries both digests for
//! diagnosis.

use vstd::prelude::*;

use sha2::Digest;

use crate::text::bytes_eq;
use crate::text::split_columns;
use crate::text::tokens_of;
use crate::text::views_of;

verus! {

/// The SHA-256 digest of a byte sequence.
pub uninterp spec fn sha256_of(bytes: Seq<u8>) -> Seq<u8>;

/// Relies on sha2::Sha256 through the Digest trait: the SHA-256 digest is a
/// function of the input bytes alone, 32 bytes long.
#[verifier::external_body]
fn sha256(bytes: &Vec<u8>) -> (r: Vec<u8>)
    ensures
        r@ == sha256_of(bytes@),
        r@.len() == 32,
{
    sha2::Sha256::digest(bytes).to_vec()
}

/// The lowercase hex digit for a value below 16.
pub open spec fn hex_digit(n: u8) -> u8 {
    if n < 10 {
        (48 + n) as u8
    } else {
        (87 + n) as u8
    }
}

/// A byte sequence written as lowercase hex, two digits per byte.
pub open spec fn hex_of(bytes: Seq<u8>) -> Seq<u8>
    decreases bytes.len(),
{
    if bytes.len() == 0 {
        Seq::empty()
    } else {
        hex_of(bytes.drop_last()) + seq![
            hex_digit(bytes.last() / 16),
            hex_digit(bytes.last() % 16),
        ]
    }
}

/// Writes bytes as lowercase hex, two digits per byte.
pub fn to_hex(bytes: &Vec<u8>) -> (r: Vec<u8>)
    ensures
        r@ == hex_of(bytes@),
{
    let n = bytes.len();
    let mut out: Vec<u8> = Vec::new();
    let mut i: usize = 0;
    proof {
        assert(bytes@.subrange(0, 0) =~= Seq::<u8>::empty());
    }
    while i < n
        invariant
            i <= n,
            n == bytes@.len(),
            out@ == hex_of(bytes@.subrange(0, i as int)),
        decreases n - i,
    {
        let ghost pre = bytes@.subrange(0, i as int);
        let ghost cur = bytes@.subrange(0, i + 1);
        proof {
            assert(cur.drop_last() =~= pre);
            assert(cur.last() == bytes@[i as int]);
        }
        let b = bytes[i];
        let hi = b / 16;
        let lo = b % 16;
        out.push(if hi < 10 { 48 + hi } else { 87 + hi });
        out.push(if lo < 10 { 48 + lo } else { 87 + lo });
        assert(out@ =~= hex_of(pre) + seq![hex_digit(cur.last() / 16), hex_digit(cur.last() % 16)]);
        i = i + 1;
    }
    proof {
        assert(bytes@.subrange(0, n as int) =~= bytes@);
    }
    out
}

/// The first whitespace-delimited token of a text; empty when the text has
/// no token at all.
pub open spec fn first_token_of(s: Seq<u8>) -> Seq<u8> {
    if tokens_of(s).len() > 0 {
        tokens_of(s)[0]
    } else {
        Seq::empty()
    }
}

/// Extracts the expected digest from the companion text: its first
/// whitespace-delimited token, defensively ignoring trailing metadata.
pub fn first_token(text: &Vec<u8>) -> (r: Vec<u8>)
    ensures
        r@ == first_token_of(text@),
{
    let mut cols = split_columns(text);
    if cols.len() > 0 {
        assert(views_of(cols@)[0] == tokens_of(text@)[0]);
        let head = cols.remove(0);
        head
    } else {
        Vec::new()
    }
}

/// What a failed verification reports: both digests, as lowercase hex.
pub struct IntegrityMismatch {
    pub expected: Vec<u8>,
    pub computed: Vec<u8>,
}

/// Whether the body's SHA-256 digest, as lowercase hex, equals the first
/// token of the companion text.
pub open spec fn digest_matches(body: Seq<u8>, digest_text: Seq<u8>) -> bool {
    hex_of(sha256_of(body)) == first_token_of(digest_text)
}

/// Verifies a downloaded body against the companion digest text. Succeeds
/// exactly when the body's SHA-256 digest, written as lowercase hex, equals
/// the first whitespace-delimited token of the text; otherwise both digests
/// come back for diagnosis.
pub fn verify_integrity(body: &Vec<u8>, digest_text: &Vec<u8>) -> (r: Result<
    (),
    IntegrityMismatch,
>)
    ensures
        r is Ok <==> digest_matches(body@, digest_text@),
        r matches Err(m) ==> m.expected@ == first_token_of(digest_text@) && m.computed@ == hex_of(
            sha256_of(body@),
        ),
{
    let expected = first_token(digest_text);
    let digest = sha256(body);
    let computed = to_hex(&digest);
    if bytes_eq(&computed, &expected) {
        Result::Ok(())
    } else {
        Result::Err(IntegrityMismatch { expected, computed })
    }
}

} // verus!
