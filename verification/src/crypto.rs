//! The cryptographic primitives and the other outside functions that the
//! node builds on, each with a name for what it computes.
//!
//! Nothing in this file is proved. Each function makes one call into an
//! outside crate and states what the crate documents of it.

use chacha20poly1305::aead::Aead;
use chacha20poly1305::KeyInit;
use ed25519_dalek::Signer;
use ed25519_dalek::Verifier;
use rand::RngCore;
use vstd::prelude::*;
use vstd::utf8::decode_utf8;
use vstd::utf8::valid_utf8;

verus! {

/// The BLAKE3 hash of a byte string, 32 bytes long.
pub uninterp spec fn blake3_digest(input: Seq<u8>) -> Seq<u8>;

/// What ChaCha20-Poly1305 makes of a plaintext under a key and a nonce:
/// the ciphertext followed by its tag, or nothing for a plaintext that is
/// too long for the cipher.
pub uninterp spec fn aead_seal(key: Seq<u8>, nonce: Seq<u8>, plaintext: Seq<u8>) -> Option<Seq<u8>>;

/// What ChaCha20-Poly1305 recovers from a sealed byte string under a key
/// and a nonce: the plaintext, or nothing where the tag does not match.
pub uninterp spec fn aead_open(key: Seq<u8>, nonce: Seq<u8>, sealed: Seq<u8>) -> Option<Seq<u8>>;

/// The Ed25519 public key of a secret key.
pub uninterp spec fn ed25519_public(secret: Seq<u8>) -> Seq<u8>;

/// The Ed25519 signature that a secret key gives a message.
pub uninterp spec fn ed25519_signature(secret: Seq<u8>, message: Seq<u8>) -> Seq<u8>;

/// Whether 32 bytes decode to a point that can serve as an Ed25519 public key.
pub uninterp spec fn ed25519_decodes(public: Seq<u8>) -> bool;

/// Whether a signature on a message verifies under a public key.
pub uninterp spec fn ed25519_verifies(
    public: Seq<u8>,
    message: Seq<u8>,
    signature: Seq<u8>,
) -> bool;

/// The X25519 function: the scalar `k`, clamped, times the point with
/// u-coordinate `u`.
pub uninterp spec fn x25519_point(k: Seq<u8>, u: Seq<u8>) -> Seq<u8>;

/// The node id that a text spells as a UUID, in any of the forms that the
/// `uuid` crate reads, or nothing.
pub uninterp spec fn uuid_parse(text: Seq<char>) -> Option<u128>;

/// The hyphenated lower-case text of a node id.
pub uninterp spec fn uuid_text(id: u128) -> Seq<char>;

/// The u-coordinate of the Curve25519 base point: nine, then zeros.
pub open spec fn x25519_basepoint() -> Seq<u8> {
    Seq::new(32, |i: int| if i == 0 { 9u8 } else { 0u8 })
}

/// The longest plaintext that ChaCha20-Poly1305 seals has fewer than
/// 2^32 - 1 blocks of 64 bytes.
pub open spec fn aead_sealable(len: nat) -> bool {
    len / 64 < 0xffff_ffff
}

/// `blake3::hash`: the hash of the input.
#[verifier::external_body]
pub(crate) fn blake3_hash(input: &[u8]) -> (digest: [u8; 32])
    ensures
        digest@ == blake3_digest(input@),
{
    *blake3::hash(input).as_bytes()
}

/// `Aead::encrypt` of `ChaCha20Poly1305`, without associated data. It seals
/// every plaintext of fewer than 2^32 - 1 blocks and refuses the others.
/// The result is 16 bytes longer than the plaintext, and opening it under
/// the same key and nonce gives the plaintext back.
#[verifier::external_body]
pub(crate) fn chacha_seal(
    key: &[u8; 32],
    nonce: &[u8; 12],
    plaintext: &[u8],
) -> (sealed: Option<Vec<u8>>)
    ensures
        sealed.is_some() == aead_sealable(plaintext@.len()),
        sealed.is_some() == aead_seal(key@, nonce@, plaintext@).is_some(),
        sealed.is_some() ==> aead_seal(key@, nonce@, plaintext@) == Some(sealed.unwrap()@),
        sealed.is_some() ==> sealed.unwrap()@.len() == plaintext@.len() + 16,
        sealed.is_some() ==> aead_open(key@, nonce@, sealed.unwrap()@) == Some(plaintext@),
{
    let cipher = chacha20poly1305::ChaCha20Poly1305::new(chacha20poly1305::Key::from_slice(key));
    cipher.encrypt(chacha20poly1305::Nonce::from_slice(nonce), plaintext).ok()
}

/// `Aead::decrypt` of `ChaCha20Poly1305`, without associated data: the
/// plaintext, 16 bytes shorter than what was sealed, or nothing where the
/// tag does not match.
#[verifier::external_body]
pub(crate) fn chacha_open(
    key: &[u8; 32],
    nonce: &[u8; 12],
    sealed: &[u8],
) -> (plain: Option<Vec<u8>>)
    ensures
        plain.is_some() == aead_open(key@, nonce@, sealed@).is_some(),
        plain.is_some() ==> aead_open(key@, nonce@, sealed@) == Some(plain.unwrap()@),
        plain.is_some() ==> sealed@.len() == plain.unwrap()@.len() + 16,
{
    let cipher = chacha20poly1305::ChaCha20Poly1305::new(chacha20poly1305::Key::from_slice(key));
    cipher.decrypt(chacha20poly1305::Nonce::from_slice(nonce), sealed).ok()
}

/// `SigningKey::verifying_key` of `ed25519_dalek`, on the key made from
/// `secret`: the public key, which always decodes.
#[verifier::external_body]
pub(crate) fn ed25519_public_key(secret: &[u8; 32]) -> (public: [u8; 32])
    ensures
        public@ == ed25519_public(secret@),
        ed25519_decodes(public@),
{
    ed25519_dalek::SigningKey::from_bytes(secret).verifying_key().to_bytes()
}

/// `Signer::sign` of `ed25519_dalek::SigningKey`: the signature of the
/// message, which verifies under the public key of the same secret.
#[verifier::external_body]
pub(crate) fn ed25519_sign(secret: &[u8; 32], message: &[u8]) -> (signature: [u8; 64])
    ensures
        signature@ == ed25519_signature(secret@, message@),
        ed25519_verifies(ed25519_public(secret@), message@, signature@),
{
    ed25519_dalek::SigningKey::from_bytes(secret).sign(message).to_bytes()
}

/// `VerifyingKey::from_bytes` of `ed25519_dalek`: whether the bytes decode
/// to a public key.
#[verifier::external_body]
pub(crate) fn ed25519_key_decodes(public: &[u8; 32]) -> (ok: bool)
    ensures
        ok == ed25519_decodes(public@),
{
    ed25519_dalek::VerifyingKey::from_bytes(public).is_ok()
}

/// `Verifier::verify` of `ed25519_dalek::VerifyingKey`: whether the
/// signature on the message verifies under a public key that decodes.
#[verifier::external_body]
pub(crate) fn ed25519_verify(public: &[u8; 32], message: &[u8], signature: &[u8; 64]) -> (ok: bool)
    requires
        ed25519_decodes(public@),
    ensures
        ok == ed25519_verifies(public@, message@, signature@),
{
    let key = ed25519_dalek::VerifyingKey::from_bytes(public).unwrap();
    key.verify(message, &ed25519_dalek::Signature::from_bytes(signature)).is_ok()
}

/// `x25519_dalek::x25519`. Where `u` is the base point the result is the
/// public key of `k`, and the two sides of a Diffie-Hellman exchange agree:
/// any secret `j` applied to this public key gives what `k` applied to the
/// public key of `j` gives.
#[verifier::external_body]
pub(crate) fn x25519(k: &[u8; 32], u: &[u8; 32]) -> (point: [u8; 32])
    ensures
        point@ == x25519_point(k@, u@),
        u@ == x25519_basepoint() ==>
            forall|j: Seq<u8>|
                j.len() == 32 ==> #[trigger] x25519_point(j, point@) == x25519_point(
                    k@,
                    x25519_point(j, x25519_basepoint()),
                ),
{
    x25519_dalek::x25519(*k, *u)
}

/// `Uuid::parse_str`: the node id that the text spells, as a number, or
/// nothing where the text is no UUID.
#[verifier::external_body]
pub(crate) fn parse_uuid(text: &str) -> (id: Option<u128>)
    ensures
        id == uuid_parse(text@),
{
    match uuid::Uuid::parse_str(text) {
        Ok(id) => Some(id.as_u128()),
        Err(_) => None,
    }
}

/// `Uuid::to_string`: the hyphenated text of a node id, which parses back
/// to the same id.
#[verifier::external_body]
pub(crate) fn format_uuid(id: u128) -> (text: String)
    ensures
        text@ == uuid_text(id),
        uuid_parse(text@) == Some(id),
{
    uuid::Uuid::from_u128(id).to_string()
}

/// `rand::random` for a 64-bit number. Nothing is known of the result.
#[verifier::external_body]
pub(crate) fn random_u64() -> u64 {
    rand::random::<u64>()
}

/// `rand::random` for 32 bytes. Nothing is known of the result.
#[verifier::external_body]
pub(crate) fn random_bytes32() -> [u8; 32] {
    rand::random::<[u8; 32]>()
}

/// `RngCore::try_fill_bytes` of `rand::rngs::OsRng`, on 32 bytes: the
/// bytes, or nothing where the system gives no randomness. Nothing is
/// known of the bytes.
#[verifier::external_body]
pub(crate) fn os_random_bytes32() -> Option<[u8; 32]> {
    let mut bytes = [0u8; 32];
    match rand::rngs::OsRng.try_fill_bytes(&mut bytes) {
        Ok(()) => Some(bytes),
        Err(_) => None,
    }
}

/// `String::from_utf8`: the text that the bytes encode, where they are
/// valid UTF-8, and nothing otherwise.
#[verifier::external_body]
pub(crate) fn string_from_utf8(bytes: Vec<u8>) -> (text: Option<String>)
    ensures
        text.is_some() == valid_utf8(bytes@),
        text.is_some() ==> text.unwrap()@ == decode_utf8(bytes@),
{
    String::from_utf8(bytes).ok()
}

} // verus!
