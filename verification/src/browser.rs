//! The codec as the browser side calls it: whole buffers in and out, and the
//! key as the URL-safe base64 text of the URL fragment.

use crate::crypto::{
    chunk_nonce, decoded, decrypt_blob as decrypt_with_key, derive_chunk_nonce, encoded,
    encoded_len, encrypt_with_nonce, chunk_count, header_original_size, header_total_chunks,
    key_of_text, CodecError, EncryptionKey, FrameFault, KeyError,
};
use crate::primitives::{
    aead_open, aead_seal, system_random_array, xchacha20poly1305_open, xchacha20poly1305_seal,
};
use vstd::prelude::*;
use vstd::slice::slice_subrange;

verus! {

/// Why a call of the browser side failed.
#[derive(Debug, Clone, Copy, PartialEq, Eq, Structural)]
pub enum BrowserError {
    /// The key text is no key.
    Key(KeyError),
    /// The system gave no random bytes for a nonce.
    Random,
    /// The base nonce has this many bytes, fewer than 24.
    ShortNonce(usize),
    /// The cipher refused a chunk of this many bytes as too long.
    ChunkTooLong(usize),
    /// The blob or chunk did not decode.
    Codec(CodecError),
}

/// What `decrypt_blob` makes of a blob and a key text. A blob too short for
/// a header is reported before the key is looked at.
pub open spec fn blob_decoded(data: Seq<u8>, key_text: Seq<char>) -> Result<Seq<u8>, BrowserError> {
    if data.len() < 40 {
        Err(BrowserError::Codec(CodecError::CorruptFrame(FrameFault::TruncatedHeader)))
    } else {
        match key_of_text(key_text) {
            Err(e) => Err(BrowserError::Key(e)),
            Ok(key) => match decoded(data, key) {
                Ok(plaintext) => Ok(plaintext),
                Err(e) => Err(BrowserError::Codec(e)),
            },
        }
    }
}

/// What `encrypt_chunk` returns on success: the chunk sealed under its nonce.
pub open spec fn chunk_sealed(
    chunk: Seq<u8>,
    key: Seq<u8>,
    nonce_bytes: Seq<u8>,
    chunk_index: u64,
) -> Seq<u8> {
    xchacha20poly1305_seal(key, chunk_nonce(nonce_bytes.subrange(0, 24), chunk_index), chunk)
}

/// What `decrypt_chunk` makes of a sealed chunk, a key text and a base nonce.
pub open spec fn chunk_opened(
    sealed: Seq<u8>,
    key_text: Seq<char>,
    nonce_bytes: Seq<u8>,
    chunk_index: u64,
) -> Result<Seq<u8>, BrowserError> {
    match key_of_text(key_text) {
        Err(e) => Err(BrowserError::Key(e)),
        Ok(key) => if nonce_bytes.len() < 24 {
            Err(BrowserError::ShortNonce(nonce_bytes.len() as usize))
        } else {
            match xchacha20poly1305_open(
                key,
                chunk_nonce(nonce_bytes.subrange(0, 24), chunk_index),
                sealed,
            ) {
                Some(plaintext) => Ok(plaintext),
                None => Err(BrowserError::Codec(CodecError::AuthFailure(chunk_index))),
            }
        },
    }
}

/// The view of what a call of the browser side returns.
pub open spec fn outcome_view(res: Result<Vec<u8>, BrowserError>) -> Result<Seq<u8>, BrowserError> {
    match res {
        Ok(bytes) => Ok(bytes@),
        Err(e) => Err(e),
    }
}

fn first_24(bytes: &[u8]) -> (nonce: [u8; 24])
    requires
        bytes@.len() >= 24,
    ensures
        nonce@ == bytes@.subrange(0, 24),
{
    let mut nonce = [0u8; 24];
    let mut i: usize = 0;
    while i < 24
        invariant
            i <= 24,
            bytes@.len() >= 24,
            forall|j: int| 0 <= j < i ==> nonce@[j] == bytes@[j],
        decreases 24 - i,
    {
        nonce[i] = bytes[i];
        i += 1;
    }
    assert(nonce@ =~= bytes@.subrange(0, 24));
    nonce
}

/// Encodes a whole plaintext under the key that `key_base64` spells and a
/// fresh random base nonce. A key text that is no key is always refused; with
/// a key, the call fails only where the system has no random bytes to give.
pub fn encrypt_blob(plaintext: &[u8], key_base64: &str) -> (res: Result<Vec<u8>, BrowserError>)
    ensures
        match res {
            Ok(blob) => key_of_text(key_base64@) matches Ok(key) && {
                &&& blob@ == encoded(plaintext@, key, blob@.subrange(0, 24))
                &&& blob@.len() == encoded_len(plaintext@.len())
                &&& header_total_chunks(blob@) == chunk_count(plaintext@.len())
                &&& header_original_size(blob@) == plaintext@.len()
                &&& decoded(blob@, key) == Ok::<Seq<u8>, CodecError>(plaintext@)
            },
            Err(BrowserError::Key(e)) => key_of_text(key_base64@) == Err::<Seq<u8>, KeyError>(e),
            Err(BrowserError::Random) => key_of_text(key_base64@) is Ok,
            Err(_) => false,
        },
{
    let mut key = match EncryptionKey::from_url_safe(key_base64) {
        Ok(key) => key,
        Err(e) => {
            return Err(BrowserError::Key(e));
        },
    };
    let nonce = match system_random_array::<24>() {
        Some(nonce) => nonce,
        None => {
            key.zeroize();
            return Err(BrowserError::Random);
        },
    };
    let quiet = |_done: u64| {};
    let blob = encrypt_with_nonce(plaintext, &key, nonce, &quiet);
    let len = plaintext.len();
    proof {
        let count = chunk_count(len as nat) as u64;
        crate::crypto::lemma_header_roundtrip(nonce@, count, len as u64);
        let header = crate::crypto::header_bytes(nonce@, count, len as u64);
        assert(blob@.subrange(0, 24) =~= header.subrange(0, 24));
        assert(blob@.subrange(24, 32) =~= header.subrange(24, 32));
        assert(blob@.subrange(32, 40) =~= header.subrange(32, 40));
    }
    key.zeroize();
    Ok(blob)
}

/// Seals one chunk of a stream under the key that `key_base64` spells, the
/// first 24 bytes of `nonce_bytes` as the base nonce, and the chunk's index.
pub fn encrypt_chunk(
    chunk_data: &[u8],
    key_base64: &str,
    nonce_bytes: &[u8],
    chunk_index: u64,
) -> (res: Result<Vec<u8>, BrowserError>)
    ensures
        match res {
            Ok(sealed) => key_of_text(key_base64@) matches Ok(key) && nonce_bytes@.len() >= 24
                && sealed@ == chunk_sealed(chunk_data@, key, nonce_bytes@, chunk_index)
                && sealed@.len() == chunk_data@.len() + 16,
            Err(BrowserError::Key(e)) => key_of_text(key_base64@) == Err::<Seq<u8>, KeyError>(e),
            Err(BrowserError::ShortNonce(n)) => key_of_text(key_base64@) is Ok && n
                == nonce_bytes@.len() && n < 24,
            Err(BrowserError::ChunkTooLong(n)) => key_of_text(key_base64@) is Ok
                && nonce_bytes@.len() >= 24 && n == chunk_data@.len() && n / 64 >= 0xFFFF_FFFF,
            Err(_) => false,
        },
{
    let mut key = match EncryptionKey::from_url_safe(key_base64) {
        Ok(key) => key,
        Err(e) => {
            return Err(BrowserError::Key(e));
        },
    };
    if nonce_bytes.len() < 24 {
        key.zeroize();
        return Err(BrowserError::ShortNonce(nonce_bytes.len()));
    }
    let base = first_24(nonce_bytes);
    let nonce = derive_chunk_nonce(&base, chunk_index);
    let sealed = aead_seal(&key.0, &nonce, chunk_data);
    key.zeroize();
    match sealed {
        Some(sealed) => Ok(sealed),
        None => Err(BrowserError::ChunkTooLong(chunk_data.len())),
    }
}

/// Opens one sealed chunk of a stream; the counterpart of `encrypt_chunk`.
/// Fails with `AuthFailure` of the chunk's index where the tag does not match.
pub fn decrypt_chunk(
    encrypted_chunk: &[u8],
    key_base64: &str,
    nonce_bytes: &[u8],
    chunk_index: u64,
) -> (res: Result<Vec<u8>, BrowserError>)
    ensures
        outcome_view(res) == chunk_opened(encrypted_chunk@, key_base64@, nonce_bytes@, chunk_index),
{
    let mut key = match EncryptionKey::from_url_safe(key_base64) {
        Ok(key) => key,
        Err(e) => {
            return Err(BrowserError::Key(e));
        },
    };
    if nonce_bytes.len() < 24 {
        key.zeroize();
        return Err(BrowserError::ShortNonce(nonce_bytes.len()));
    }
    let base = first_24(nonce_bytes);
    let nonce = derive_chunk_nonce(&base, chunk_index);
    let opened = aead_open(&key.0, &nonce, encrypted_chunk);
    key.zeroize();
    match opened {
        Some(plaintext) => Ok(plaintext),
        None => Err(BrowserError::Codec(CodecError::AuthFailure(chunk_index))),
    }
}

/// The 40 bytes of header at the front of a blob: the nonce, the chunk count
/// and the plaintext size, as they stand.
pub fn parse_header(data: &[u8]) -> (res: Result<Vec<u8>, BrowserError>)
    ensures
        match res {
            Ok(header) => data@.len() >= 40 && header@ == data@.subrange(0, 40),
            Err(e) => data@.len() < 40 && e == BrowserError::Codec(
                CodecError::CorruptFrame(FrameFault::TruncatedHeader),
            ),
        },
{
    if data.len() < 40 {
        return Err(BrowserError::Codec(CodecError::CorruptFrame(FrameFault::TruncatedHeader)));
    }
    Ok(vstd::slice::slice_to_vec(slice_subrange(data, 0, 40)))
}

/// Decodes a whole blob under the key that `key_base64` spells.
pub fn decrypt_blob(encrypted_data: &[u8], key_base64: &str) -> (res: Result<
    Vec<u8>,
    BrowserError,
>)
    ensures
        outcome_view(res) == blob_decoded(encrypted_data@, key_base64@),
{
    if encrypted_data.len() < 40 {
        return Err(BrowserError::Codec(CodecError::CorruptFrame(FrameFault::TruncatedHeader)));
    }
    let mut key = match EncryptionKey::from_url_safe(key_base64) {
        Ok(key) => key,
        Err(e) => {
            return Err(BrowserError::Key(e));
        },
    };
    let res = decrypt_with_key(encrypted_data, &key);
    key.zeroize();
    match res {
        Ok(plaintext) => Ok(plaintext),
        Err(e) => Err(BrowserError::Codec(e)),
    }
}

} // verus!
