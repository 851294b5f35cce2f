//! The cryptographic primitives the codec is built on. Nothing in this file
//! is proved: each function hands its arguments to another crate and its
//! contract records what that crate's source shows of the answer.

use argon2::{Algorithm, Argon2, Params, Version};
use base64::engine::general_purpose::URL_SAFE_NO_PAD;
use base64::engine::Engine;
use chacha20poly1305::aead::{Aead, KeyInit};
use chacha20poly1305::{Key, XChaCha20Poly1305, XNonce};
use rand::RngCore;
use vstd::prelude::*;
use zeroize::Zeroize;

verus! {

/// What XChaCha20-Poly1305 makes of a plaintext under a key and a nonce, with
/// no associated data: the encrypted bytes followed by the 16-byte tag.
pub uninterp spec fn xchacha20poly1305_seal(
    key: Seq<u8>,
    nonce: Seq<u8>,
    plaintext: Seq<u8>,
) -> Seq<u8>;

/// What XChaCha20-Poly1305 recovers from sealed bytes under a key and a
/// nonce, with no associated data; `None` where the tag does not match.
pub uninterp spec fn xchacha20poly1305_open(
    key: Seq<u8>,
    nonce: Seq<u8>,
    sealed: Seq<u8>,
) -> Option<Seq<u8>>;

/// The Argon2id (version 0x13) hash of a password and a salt, 32 bytes long,
/// at the given memory cost in KiB, number of passes and number of lanes.
pub uninterp spec fn argon2id_hash(
    password: Seq<u8>,
    salt: Seq<u8>,
    memory_kib: u32,
    passes: u32,
    lanes: u32,
) -> Option<Seq<u8>>;

/// The URL-safe base64 text of some bytes, without padding.
pub uninterp spec fn base64url_text(bytes: Seq<u8>) -> Seq<char>;

/// The bytes that a URL-safe, unpadded base64 text stands for; `None` where
/// the text is not canonical base64 of that alphabet.
pub uninterp spec fn base64url_bytes(text: Seq<char>) -> Option<Seq<u8>>;

/// Number of characters in the unpadded base64 text of `n` bytes.
pub open spec fn base64_unpadded_len(n: nat) -> nat {
    4 * (n / 3) + if n % 3 == 0 {
        0nat
    } else {
        n % 3 + 1
    }
}

/// Calls `Aead::encrypt` of `XChaCha20Poly1305`. The cipher refuses only a
/// message of `u32::MAX` blocks of 64 bytes or more. What it returns is the
/// message encrypted in place with the tag appended, and the same cipher's
/// `decrypt` recomputes that tag over the same bytes and undoes the keystream,
/// so it opens to the message again.
#[verifier::external_body]
pub(crate) fn aead_seal(key: &[u8; 32], nonce: &[u8; 24], plaintext: &[u8]) -> (sealed: Option<
    Vec<u8>,
>)
    ensures
        plaintext@.len() / 64 < 0xFFFF_FFFF ==> sealed is Some,
        sealed matches Some(ct) ==> {
            &&& ct@ == xchacha20poly1305_seal(key@, nonce@, plaintext@)
            &&& ct@.len() == plaintext@.len() + 16
            &&& xchacha20poly1305_open(key@, nonce@, ct@) == Some(plaintext@)
        },
{
    let cipher = XChaCha20Poly1305::new(Key::from_slice(key));
    cipher.encrypt(XNonce::from_slice(nonce), plaintext).ok()
}

/// Calls `Aead::decrypt` of `XChaCha20Poly1305`. It fails on fewer bytes than
/// a tag and on a tag that does not match; otherwise the plaintext is the
/// input without its last 16 bytes, decrypted.
#[verifier::external_body]
pub(crate) fn aead_open(key: &[u8; 32], nonce: &[u8; 24], sealed: &[u8]) -> (opened: Option<
    Vec<u8>,
>)
    ensures
        match opened {
            Some(pt) => xchacha20poly1305_open(key@, nonce@, sealed@) == Some(pt@),
            None => xchacha20poly1305_open(key@, nonce@, sealed@) is None,
        },
        opened matches Some(pt) ==> sealed@.len() >= 16 && pt@.len() == sealed@.len() - 16,
{
    let cipher = XChaCha20Poly1305::new(Key::from_slice(key));
    cipher.decrypt(XNonce::from_slice(nonce), sealed).ok()
}

/// Calls `Argon2::hash_password_into` with the Argon2id algorithm, version
/// 0x13 and a 32-byte output. `Params::new` accepts the costs named in the
/// first clause, and the hash then fails only on a password of more than
/// `0xFFFFFFFF` bytes. The hash allocates the memory cost at once, so the
/// cost is kept to a gibibyte.
#[verifier::external_body]
pub(crate) fn argon2id_key(
    password: &[u8],
    salt: &[u8; 16],
    memory_kib: u32,
    passes: u32,
    lanes: u32,
) -> (key: Option<[u8; 32]>)
    requires
        lanes <= 0xFF_FFFF,
        memory_kib <= 0x10_0000,
    ensures
        8 <= memory_kib && 8 * lanes <= memory_kib && 1 <= passes && 1 <= lanes
            && password@.len() <= 0xFFFF_FFFF ==> key is Some,
        match key {
            Some(k) => argon2id_hash(password@, salt@, memory_kib, passes, lanes) == Some(k@),
            None => argon2id_hash(password@, salt@, memory_kib, passes, lanes) is None,
        },
{
    let mut key = [0u8; 32];
    let params = Params::new(memory_kib, passes, lanes, Some(key.len())).ok()?;
    let hasher = Argon2::new(Algorithm::Argon2id, Version::V0x13, params);
    hasher.hash_password_into(password, salt, &mut key).ok()?;
    Some(key)
}

/// Calls `Engine::encode` of `URL_SAFE_NO_PAD`, which panics only where the
/// length of the text would not fit in `usize`. The text has the length that
/// the crate's `encoded_len` computes, and the same engine decodes it to the
/// bytes it was made from.
#[verifier::external_body]
pub(crate) fn base64url_encode(bytes: &[u8]) -> (text: String)
    requires
        bytes@.len() <= usize::MAX / 2,
    ensures
        text@ == base64url_text(bytes@),
        text@.len() == base64_unpadded_len(bytes@.len()),
        base64url_bytes(text@) == Some(bytes@),
{
    URL_SAFE_NO_PAD.encode(bytes)
}

/// Calls `Engine::decode` of `URL_SAFE_NO_PAD`.
#[verifier::external_body]
pub(crate) fn base64url_decode(text: &str) -> (bytes: Option<Vec<u8>>)
    ensures
        match bytes {
            Some(b) => base64url_bytes(text@) == Some(b@),
            None => base64url_bytes(text@) is None,
        },
{
    URL_SAFE_NO_PAD.decode(text).ok()
}

/// Calls `RngCore::fill_bytes` on the thread's generator: `N` bytes of which
/// nothing is known beforehand.
#[verifier::external_body]
pub(crate) fn random_array<const N: usize>() -> [u8; N] {
    let mut bytes = [0u8; N];
    rand::rng().fill_bytes(&mut bytes);
    bytes
}

/// Calls `getrandom::fill`: `N` bytes from the system's source, or `None`
/// where the system has none to give.
#[verifier::external_body]
pub(crate) fn system_random_array<const N: usize>() -> Option<[u8; N]> {
    let mut bytes = [0u8; N];
    getrandom::fill(&mut bytes).ok()?;
    Some(bytes)
}

/// Calls `rand::random` for a `u64`.
#[verifier::external_body]
pub(crate) fn random_u64() -> u64 {
    rand::random::<u64>()
}

/// Calls `Zeroize::zeroize` on the array, which writes a zero over every
/// byte with writes the compiler may not remove.
#[verifier::external_body]
pub(crate) fn wipe_array(bytes: &mut [u8; 32])
    ensures
        forall|i: int| 0 <= i < 32 ==> final(bytes)@[i] == 0u8,
{
    bytes.zeroize();
}

/// Calls `Zeroize::zeroize` on the bytes of the vector as a slice, which
/// writes a zero over every byte and leaves the length as it is.
#[verifier::external_body]
pub(crate) fn wipe_bytes(bytes: &mut Vec<u8>)
    ensures
        final(bytes)@.len() == old(bytes)@.len(),
        forall|i: int| 0 <= i < final(bytes)@.len() ==> final(bytes)@[i] == 0u8,
{
    bytes.as_mut_slice().zeroize();
}

} // verus!
