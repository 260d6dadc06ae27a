//! Cryptographic primitives: SHA-256 hashing, secp256k1 key generation and
//! signing, and hexadecimal rendering. The computations are done by outside
//! crates behind trusted wrappers; everything downstream works on plain bytes.

use vstd::prelude::*;

verus! {

/// The SHA-256 digest of a byte string. The digest itself is far too
/// involved to state here; contracts speak of it by this name.
pub uninterp spec fn sha256_of(data: Seq<u8>) -> Seq<u8>;

/// A public key rendered as text for configuration files.
#[derive(Debug, Clone)]
pub struct ReadablePublicKey(pub String);

/// A private key rendered as text for configuration files.
#[derive(Debug, Clone)]
pub struct ReadablePrivateKey(pub String);

/// Relies on sha2's `Sha256`: a 32-byte digest that is a function of the
/// input bytes alone.
#[verifier::external_body]
pub fn sha256_hash(data: Vec<u8>) -> (r: Vec<u8>)
    ensures
        r@ == sha256_of(data@),
        r@.len() == 32,
{
    <sha2::Sha256 as sha2::Digest>::digest(&data).to_vec()
}

/// Relies on secp256k1's key types and rand's `random`: a fresh keypair as
/// a 32-byte secret key and a 33-byte compressed public key. The result is
/// random; nothing beyond the lengths is promised.
#[verifier::external_body]
pub fn generate_keys() -> (r: (Vec<u8>, Vec<u8>))
    ensures
        r.0@.len() == 32,
        r.1@.len() == 33,
{
    loop {
        let seed: [u8; 32] = rand::random();
        if let Ok(sk) = secp256k1::SecretKey::from_byte_array(seed) {
            let pk = secp256k1::PublicKey::from_secret_key(&sk);
            return (sk.secret_bytes().to_vec(), pk.serialize().to_vec());
        }
    }
}

/// Relies on secp256k1's `SecretKey::sign_ecdsa` and
/// `Signature::serialize_compact`: a 64-byte compact ECDSA signature over
/// the given 32-byte digest.
#[verifier::external_body]
pub fn sign_digest(privatekey: &[u8], digest: &[u8]) -> (r: Vec<u8>)
    requires
        privatekey@.len() == 32,
        digest@.len() == 32,
    ensures
        r@.len() == 64,
{
    let mut sk_bytes = [0u8; 32];
    sk_bytes.copy_from_slice(privatekey);
    let mut dg_bytes = [0u8; 32];
    dg_bytes.copy_from_slice(digest);
    match secp256k1::SecretKey::from_byte_array(sk_bytes) {
        Ok(sk) => {
            let msg = secp256k1::Message::from_digest(dg_bytes);
            sk.sign_ecdsa(msg).serialize_compact().to_vec()
        }
        Err(_) => [0u8; 64].to_vec(),
    }
}

/// Whether the 64-byte compact ECDSA signature verifies for the 32-byte
/// digest under the 33-byte compressed public key. Verification is a
/// function of the three inputs alone; contracts speak of it by this
/// name.
pub uninterp spec fn ecdsa_verifies(publickey: Seq<u8>, digest: Seq<u8>, sig: Seq<u8>) -> bool;

/// Relies on secp256k1's `PublicKey::from_byte_array_compressed`,
/// `Signature::from_compact`, `Message::from_digest` and
/// `Signature::verify`: whether the signature verifies for the digest
/// under the key. A key or signature that does not parse verifies as
/// false.
#[verifier::external_body]
pub fn verify_signature(publickey: &[u8], digest: &[u8], sig: &[u8]) -> (r: bool)
    requires
        publickey@.len() == 33,
        digest@.len() == 32,
        sig@.len() == 64,
    ensures
        r == ecdsa_verifies(publickey@, digest@, sig@),
{
    let mut pk_bytes = [0u8; 33];
    pk_bytes.copy_from_slice(publickey);
    let mut dg_bytes = [0u8; 32];
    dg_bytes.copy_from_slice(digest);
    let pk = match secp256k1::PublicKey::from_byte_array_compressed(pk_bytes) {
        Ok(pk) => pk,
        Err(_) => return false,
    };
    let signature = match secp256k1::ecdsa::Signature::from_compact(sig) {
        Ok(s) => s,
        Err(_) => return false,
    };
    let msg = secp256k1::Message::from_digest(dg_bytes);
    signature.verify(msg, &pk).is_ok()
}

/// The lowercase hexadecimal digit for a value below sixteen.
pub open spec fn hex_digit(v: u8) -> char
    recommends
        v < 16,
{
    if v < 10 {
        (('0' as u8) + v) as char
    } else {
        (('a' as u8) + (v - 10)) as char
    }
}

/// The lowercase hexadecimal rendering of a byte string: two digits per
/// byte, high nibble first.
pub open spec fn hex_lower_of(data: Seq<u8>) -> Seq<char>
    decreases data.len(),
{
    if data.len() == 0 {
        Seq::<char>::empty()
    } else {
        seq![hex_digit(data[0] / 16), hex_digit(data[0] % 16)] + hex_lower_of(data.skip(1))
    }
}

/// Relies on data-encoding's `HEXLOWER.encode`: the lowercase hexadecimal
/// rendering of the input, two digits per byte, high nibble first.
#[verifier::external_body]
pub fn hex_encode(data: &[u8]) -> (r: String)
    ensures
        r@ == hex_lower_of(data@),
{
    data_encoding::HEXLOWER.encode(data)
}

} // verus!
