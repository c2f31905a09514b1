//! Digests, identifiers and content types of uploaded payloads.

use rand::Rng;
use sha2::Digest;
use vstd::prelude::*;
use vstd::string::StringSliceAdditionalSpecFns;

verus! {

/// Bytes in a content digest.
pub const DIGEST_LEN: usize = 32;

/// Bytes in an identifier.
pub const IDENTIFIER_LEN: usize = 10;

/// The SHA-256 digest of a byte sequence.
pub uninterp spec fn sha256_of(b: Seq<u8>) -> Seq<u8>;

/// `b` is an ASCII letter or digit.
pub open spec fn is_alphanumeric(b: u8) -> bool {
    (48 <= b <= 57) || (65 <= b <= 90) || (97 <= b <= 122)
}

/// `s` encodes an identifier: exactly `IDENTIFIER_LEN` ASCII bytes.
pub open spec fn valid_identifier(s: Seq<u8>) -> bool {
    &&& s.len() == IDENTIFIER_LEN
    &&& forall|i: int| 0 <= i < s.len() ==> #[trigger] s[i] < 128
}

/// Relies on sha2's `Sha256`: the digest of all of `bytes`.
#[verifier::external_body]
fn sha256(bytes: &[u8]) -> (r: [u8; 32])
    ensures
        r@ == sha256_of(bytes@),
{
    sha2::Sha256::digest(bytes).into()
}

/// The content digest of a payload; any payload, the empty one included.
pub fn content_digest(bytes: &[u8]) -> (r: [u8; 32])
    ensures
        r@ == sha256_of(bytes@),
{
    sha256(bytes)
}

/// Relies on rand's `Alphanumeric` distribution sampled from `thread_rng`:
/// one byte out of `A-Z`, `a-z`, `0-9`.
#[verifier::external_body]
fn random_alphanumeric() -> (r: u8)
    ensures
        is_alphanumeric(r),
{
    rand::thread_rng().sample(rand::distributions::Alphanumeric)
}

/// A fresh random identifier of `IDENTIFIER_LEN` letters and digits. It is
/// not checked against identifiers already handed out.
pub fn generate_identifier() -> (r: [u8; 10])
    ensures
        valid_identifier(r@),
        forall|i: int| 0 <= i < IDENTIFIER_LEN ==> is_alphanumeric(#[trigger] r@[i]),
{
    let mut id: [u8; 10] = [48u8; 10];
    let mut i: usize = 0;
    while i < IDENTIFIER_LEN
        invariant
            i <= IDENTIFIER_LEN,
            forall|j: int| 0 <= j < IDENTIFIER_LEN ==> is_alphanumeric(#[trigger] id@[j]),
        decreases IDENTIFIER_LEN - i,
    {
        let b = random_alphanumeric();
        id[i] = b;
        i = i + 1;
    }
    id
}

/// The public name of stored content: the identifier, a dot, the extension.
pub open spec fn public_name_of(id: Seq<u8>, extension: Seq<u8>) -> Seq<u8> {
    id + seq![46u8] + extension
}

/// Builds the name `{identifier}.{extension}` as bytes.
pub fn public_name(id: &[u8; 10], extension: &str) -> (r: Vec<u8>)
    ensures
        r@ == public_name_of(id@, extension.spec_bytes()),
{
    let ext = extension.as_bytes();
    let mut out: Vec<u8> = Vec::new();
    let mut i: usize = 0;
    while i < IDENTIFIER_LEN
        invariant
            i <= IDENTIFIER_LEN,
            out@ == id@.subrange(0, i as int),
        decreases IDENTIFIER_LEN - i,
    {
        out.push(id[i]);
        i = i + 1;
    }
    out.push(46u8);
    let mut j: usize = 0;
    while j < ext.len()
        invariant
            j <= ext@.len(),
            ext@ == extension.spec_bytes(),
            out@ == id@ + seq![46u8] + ext@.subrange(0, j as int),
        decreases ext@.len() - j,
    {
        out.push(ext[j]);
        j = j + 1;
    }
    assert(id@.subrange(0, 10) =~= id@);
    assert(ext@.subrange(0, ext@.len() as int) =~= ext@);
    out
}

} // verus!
