//! Fresh table keys: a random 128-bit identifier in URL-safe base64.

use vstd::prelude::*;

verus! {

/// What `data_encoding::BASE64URL_NOPAD` encodes a byte string to.
pub uninterp spec fn base64url_nopad(b: Seq<u8>) -> Seq<char>;

/// Relies on `uuid::Uuid::new_v4`: a random identifier of sixteen bytes.
#[verifier::external_body]
fn random_id() -> (r: Vec<u8>)
    ensures
        r@.len() == 16,
{
    uuid::Uuid::new_v4().as_bytes().to_vec()
}

/// Relies on `data_encoding::BASE64URL_NOPAD.encode`: URL-safe base64
/// without padding. `encode_len` asserts that the input is at most
/// `usize::MAX / 512` bytes long.
#[verifier::external_body]
fn encode_base64url(b: &[u8]) -> (r: String)
    requires
        b@.len() <= usize::MAX / 512,
    ensures
        r@ == base64url_nopad(b@),
{
    data_encoding::BASE64URL_NOPAD.encode(b)
}

/// A fresh key: the URL-safe base64 text of a random sixteen-byte identifier.
pub fn generate_key() -> (r: String)
    ensures
        exists|b: Seq<u8>| b.len() == 16 && r@ == base64url_nopad(b),
{
    let id = random_id();
    let r = encode_base64url(id.as_slice());
    assert(id@.len() == 16 && r@ == base64url_nopad(id@));
    r
}

} // verus!
