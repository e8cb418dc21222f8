use vstd::prelude::*;

use base64::Engine;

verus! {

/// What the outside standard base64 decoder makes of a text: `None` where the
/// text is not a well-formed base64 encoding, else the decoded bytes.
pub uninterp spec fn b64_decoded(s: Seq<char>) -> Option<Seq<u8>>;

/// The standard base64 encoding of a byte sequence, as the outside encoder
/// writes it.
pub uninterp spec fn b64_encoded(b: Seq<u8>) -> Seq<char>;

/// The public key that the outside elliptic-curve primitive derives from a
/// 32-byte private key: base-point scalar multiplication by the private
/// scalar. A function of the private key bytes alone.
pub uninterp spec fn x25519_public_of(private: Seq<u8>) -> Seq<u8>;

/// Relies on `base64::engine::general_purpose::STANDARD`'s `decode`: the
/// standard alphabet with padding required.
#[verifier::external_body]
fn b64_decode(s: &str) -> (r: Option<Vec<u8>>)
    ensures
        r is Some <==> b64_decoded(s@) is Some,
        r matches Some(v) ==> b64_decoded(s@) == Some(v@),
{
    base64::engine::general_purpose::STANDARD.decode(s).ok()
}

/// Relies on `base64::engine::general_purpose::STANDARD`'s `encode`: the
/// standard alphabet with padding.
#[verifier::external_body]
fn b64_encode(b: &[u8]) -> (r: String)
    ensures
        r@ == b64_encoded(b@),
{
    base64::engine::general_purpose::STANDARD.encode(b)
}

/// Relies on `x25519_dalek::PublicKey::from(&StaticSecret)`: the public key
/// derived from a 32-byte secret, a deterministic function of those bytes.
#[verifier::external_body]
fn x25519_derive(private: &[u8]) -> (r: Vec<u8>)
    requires
        private@.len() == 32,
    ensures
        r@ == x25519_public_of(private@),
{
    let bytes: [u8; 32] = private.try_into().unwrap();
    let secret = x25519_dalek::StaticSecret::from(bytes);
    let public = x25519_dalek::PublicKey::from(&secret);
    public.as_bytes().to_vec()
}

/// The decoded private key bytes of a key text, provided the text decodes to
/// exactly 32 bytes; `None` otherwise.
pub open spec fn key_bytes(s: Seq<char>) -> Option<Seq<u8>> {
    match b64_decoded(s) {
        Some(b) => if b.len() == 32 {
            Some(b)
        } else {
            None
        },
        None => None,
    }
}

/// The base64 text of the public key derived from a private key text whose
/// `key_bytes` exist.
pub open spec fn spec_public_key(s: Seq<char>) -> Seq<char> {
    b64_encoded(x25519_public_of(key_bytes(s).unwrap()))
}

/// Derives the public key for a base64-encoded private key: decodes the text,
/// requires exactly 32 bytes, derives by the fixed elliptic-curve primitive,
/// and encodes the result. Returns `None` exactly when the text is not the
/// base64 encoding of 32 bytes.
pub fn derive_public(private_key: &str) -> (r: Option<String>)
    ensures
        r is Some <==> key_bytes(private_key@) is Some,
        r matches Some(p) ==> p@ == spec_public_key(private_key@),
{
    match b64_decode(private_key) {
        Some(bytes) => {
            if bytes.len() == 32 {
                let public = x25519_derive(bytes.as_slice());
                Some(b64_encode(public.as_slice()))
            } else {
                None
            }
        },
        None => None,
    }
}

/// Derivation is a pure function of the private key text: equal key texts
/// always yield the same derived public key text.
pub proof fn lemma_derivation_deterministic(k1: Seq<char>, k2: Seq<char>)
    requires
        k1 == k2,
    ensures
        spec_public_key(k1) == spec_public_key(k2),
        key_bytes(k1) == key_bytes(k2),
{
}

} // verus!
