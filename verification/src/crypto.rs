//! Chunked XChaCha20-Poly1305 codec: header, per-chunk nonces, frames.

use crate::primitives::{
    aead_open, aead_seal, argon2id_hash, argon2id_key, base64url_bytes, base64url_decode,
    base64url_encode, base64url_text, random_array, wipe_array, xchacha20poly1305_open,
    xchacha20poly1305_seal,
};
use vstd::bytes::*;
use vstd::prelude::*;
use vstd::slice::slice_subrange;

verus! {

/// Plaintext bytes sealed into one chunk; only the last chunk may be shorter.
pub const CHUNK_SIZE: usize = 65536;

/// Bytes of authentication tag at the end of every sealed chunk.
pub const AUTH_TAG_SIZE: usize = 16;

/// Bytes of the base nonce that opens the header.
pub const NONCE_SIZE: usize = 24;

/// The nonce of chunk `index`: the little-endian bytes of the index XORed
/// into the first eight bytes of the base nonce, the other sixteen unchanged.
pub open spec fn chunk_nonce(base: Seq<u8>, index: u64) -> Seq<u8> {
    Seq::new(
        24,
        |i: int|
            if i < 8 {
                base[i] ^ spec_u64_to_le_bytes(index)[i]
            } else {
                base[i]
            },
    )
}

/// Derives the nonce of one chunk from the blob's base nonce.
pub fn derive_chunk_nonce(base_nonce: &[u8; 24], chunk_index: u64) -> (nonce: [u8; 24])
    ensures
        nonce@ == chunk_nonce(base_nonce@, chunk_index),
{
    let idx_bytes = u64_to_le_bytes(chunk_index);
    proof {
        lemma_auto_spec_u64_to_from_le_bytes();
    }
    let mut nonce: [u8; 24] = *base_nonce;
    let mut i: usize = 0;
    while i < 8
        invariant
            i <= 8,
            idx_bytes@ == spec_u64_to_le_bytes(chunk_index),
            idx_bytes@.len() == 8,
            forall|j: int| 0 <= j < i ==> nonce@[j] == base_nonce@[j] ^ idx_bytes@[j],
            forall|j: int| i <= j < 24 ==> nonce@[j] == base_nonce@[j],
        decreases 8 - i,
    {
        nonce[i] = base_nonce[i] ^ idx_bytes[i];
        i += 1;
    }
    assert(nonce@ =~= chunk_nonce(base_nonce@, chunk_index));
    nonce
}

/// Why a key could not be had.
#[derive(Debug, Clone, Copy, PartialEq, Eq, Structural)]
pub enum KeyError {
    /// The text is not URL-safe base64 without padding.
    InvalidEncoding,
    /// The text decodes, but to this many bytes instead of 32.
    InvalidLength(usize),
    /// The key derivation refused its input.
    Derivation,
}

/// What is wrong with the layout of a blob.
#[derive(Debug, Clone, Copy, PartialEq, Eq, Structural)]
pub enum FrameFault {
    /// Fewer than 40 bytes: no room for a header.
    TruncatedHeader,
    /// The header announces no chunk at all.
    ZeroChunks,
    /// The input ends inside the length prefix of the chunk of this index.
    TruncatedChunkLength(u64),
    /// The chunk of this index announces more bytes than are left.
    TruncatedChunkBody(u64),
}

/// Why a blob could not be decoded.
#[derive(Debug, Clone, Copy, PartialEq, Eq, Structural)]
pub enum CodecError {
    /// The bytes are not laid out as a header and its chunks.
    CorruptFrame(FrameFault),
    /// The chunk of this index does not carry the tag that the key gives it.
    AuthFailure(u64),
}

/// A 256-bit secret key.
#[derive(Clone)]
pub struct EncryptionKey(pub [u8; 32]);

impl View for EncryptionKey {
    type V = Seq<u8>;

    open spec fn view(&self) -> Seq<u8> {
        self.0@
    }
}

/// Memory cost of the key derivation, in KiB (64 MiB).
pub const KDF_MEMORY_KIB: u32 = 65536;

/// Number of passes of the key derivation.
pub const KDF_PASSES: u32 = 3;

/// Number of lanes of the key derivation. One, because the peer in the
/// browser runs single-threaded and both sides must agree.
pub const KDF_LANES: u32 = 1;

/// The key that a password and a salt derive, as a byte sequence.
pub open spec fn derived_key(password: Seq<char>, salt: Seq<u8>) -> Option<Seq<u8>> {
    argon2id_hash(
        vstd::utf8::encode_utf8(password),
        salt,
        KDF_MEMORY_KIB,
        KDF_PASSES,
        KDF_LANES,
    )
}

/// What a text decodes to as a key: its base64 bytes, if there are 32.
pub open spec fn key_of_text(text: Seq<char>) -> Result<Seq<u8>, KeyError> {
    match base64url_bytes(text) {
        None => Err(KeyError::InvalidEncoding),
        Some(bytes) => if bytes.len() == 32 {
            Ok(bytes)
        } else {
            Err(KeyError::InvalidLength(bytes.len() as usize))
        },
    }
}

/// A text reads as a key exactly where it decodes to 32 bytes, and then as
/// those bytes; a text that decodes to any other number of bytes is
/// rejected for its length.
pub proof fn lemma_key_text_needs_32_bytes(text: Seq<char>)
    ensures
        key_of_text(text) is Ok <==> (base64url_bytes(text) matches Some(bytes) && bytes.len()
            == 32),
        key_of_text(text) matches Ok(key) ==> base64url_bytes(text) == Some(key),
        base64url_bytes(text) matches Some(bytes) ==> (bytes.len() != 32 ==> key_of_text(text)
            == Err::<Seq<u8>, KeyError>(KeyError::InvalidLength(bytes.len() as usize))),
{
}

/// A fresh salt of 16 random bytes for a drop with a password.
pub fn generate_salt() -> [u8; 16] {
    random_array::<16>()
}

impl EncryptionKey {
    /// A fresh key of 32 random bytes.
    pub fn generate() -> EncryptionKey {
        EncryptionKey(random_array::<32>())
    }

    /// Derives the key from a password and a 16-byte salt with Argon2id at the
    /// fixed costs above. The same password and salt always give the same
    /// key; a password of more than `0xFFFFFFFF` bytes is the only one refused.
    pub fn from_password(password: &str, salt: &[u8; 16]) -> (res: Result<EncryptionKey, KeyError>)
        ensures
            match res {
                Ok(key) => derived_key(password@, salt@) == Some(key@),
                Err(e) => e == KeyError::Derivation && derived_key(password@, salt@) is None,
            },
            vstd::utf8::encode_utf8(password@).len() <= 0xFFFF_FFFF ==> res is Ok,
    {
        match argon2id_key(password.as_bytes(), salt, KDF_MEMORY_KIB, KDF_PASSES, KDF_LANES) {
            Some(bytes) => Ok(EncryptionKey(bytes)),
            None => Err(KeyError::Derivation),
        }
    }

    /// The key as 43 characters of URL-safe base64 without padding, fit for a
    /// URL fragment. Reading the text back gives this key.
    pub fn to_url_safe(&self) -> (text: String)
        ensures
            text@ == base64url_text(self@),
            text@.len() == 43,
            key_of_text(text@) == Ok::<Seq<u8>, KeyError>(self@),
    {
        base64url_encode(self.0.as_slice())
    }

    /// Makes a key of 32 bytes; any other number of bytes is refused.
    pub fn from_bytes(bytes: &[u8]) -> (res: Result<EncryptionKey, KeyError>)
        ensures
            match res {
                Ok(key) => bytes@.len() == 32 && key@ == bytes@,
                Err(e) => bytes@.len() != 32 && e == KeyError::InvalidLength(bytes@.len() as usize),
            },
    {
        if bytes.len() != 32 {
            return Err(KeyError::InvalidLength(bytes.len()));
        }
        let mut key = [0u8; 32];
        let mut i: usize = 0;
        while i < 32
            invariant
                i <= 32,
                bytes@.len() == 32,
                forall|j: int| 0 <= j < i ==> key@[j] == bytes@[j],
            decreases 32 - i,
        {
            key[i] = bytes[i];
            i += 1;
        }
        assert(key@ =~= bytes@);
        Ok(EncryptionKey(key))
    }

    /// Reads a key from URL-safe base64 without padding. Fails on text that
    /// is not such base64, and on text that decodes to other than 32 bytes.
    pub fn from_url_safe(encoded: &str) -> (res: Result<EncryptionKey, KeyError>)
        ensures
            match res {
                Ok(key) => key_of_text(encoded@) == Ok::<Seq<u8>, KeyError>(key@),
                Err(e) => key_of_text(encoded@) == Err::<Seq<u8>, KeyError>(e),
            },
    {
        match base64url_decode(encoded) {
            None => Err(KeyError::InvalidEncoding),
            Some(bytes) => EncryptionKey::from_bytes(bytes.as_slice()),
        }
    }

    /// Overwrites the key with zeros.
    pub fn zeroize(&mut self)
        ensures
            final(self)@ == Seq::new(32, |i: int| 0u8),
    {
        wipe_array(&mut self.0);
        assert(self@ =~= Seq::new(32, |i: int| 0u8));
    }
}

/// The prologue of every blob: the base nonce, the number of chunks that
/// follow and the number of plaintext bytes they hold.
#[derive(Debug)]
pub struct EncryptedHeader {
    pub nonce: [u8; 24],
    pub total_chunks: u64,
    pub original_size: u64,
}

/// The 40 bytes of a header: the nonce, then the two counts, little-endian.
pub open spec fn header_bytes(nonce: Seq<u8>, total_chunks: u64, original_size: u64) -> Seq<u8> {
    nonce + spec_u64_to_le_bytes(total_chunks) + spec_u64_to_le_bytes(original_size)
}

/// The chunk count that the first 40 bytes of `data` announce.
pub open spec fn header_total_chunks(data: Seq<u8>) -> u64 {
    spec_u64_from_le_bytes(data.subrange(24, 32))
}

/// The plaintext size that the first 40 bytes of `data` announce.
pub open spec fn header_original_size(data: Seq<u8>) -> u64 {
    spec_u64_from_le_bytes(data.subrange(32, 40))
}

impl EncryptedHeader {
    /// Bytes in an encoded header.
    pub const SIZE: usize = 40;

    /// The encoded header as a byte sequence.
    pub open spec fn spec_bytes(&self) -> Seq<u8> {
        header_bytes(self.nonce@, self.total_chunks, self.original_size)
    }

    /// Encodes the header into its 40 bytes.
    pub fn to_bytes(&self) -> (buf: Vec<u8>)
        ensures
            buf@ == self.spec_bytes(),
            buf@.len() == 40,
    {
        let mut buf: Vec<u8> = Vec::new();
        let mut i: usize = 0;
        while i < 24
            invariant
                i <= 24,
                buf@ == self.nonce@.take(i as int),
            decreases 24 - i,
        {
            buf.push(self.nonce[i]);
            assert(self.nonce@.take(i + 1) =~= self.nonce@.take(i as int).push(self.nonce@[i as int]));
            i += 1;
        }
        assert(self.nonce@.take(24) =~= self.nonce@);
        let mut chunks = u64_to_le_bytes(self.total_chunks);
        let mut size = u64_to_le_bytes(self.original_size);
        proof {
            lemma_auto_spec_u64_to_from_le_bytes();
        }
        buf.append(&mut chunks);
        buf.append(&mut size);
        buf
    }

    /// Reads a header from the first 40 bytes of `data`; fails on fewer.
    pub fn from_bytes(data: &[u8]) -> (res: Result<EncryptedHeader, CodecError>)
        ensures
            match res {
                Ok(header) => {
                    &&& data@.len() >= 40
                    &&& header.nonce@ == data@.subrange(0, 24)
                    &&& header.total_chunks == header_total_chunks(data@)
                    &&& header.original_size == header_original_size(data@)
                },
                Err(e) => data@.len() < 40 && e == CodecError::CorruptFrame(
                    FrameFault::TruncatedHeader,
                ),
            },
    {
        if data.len() < 40 {
            return Err(CodecError::CorruptFrame(FrameFault::TruncatedHeader));
        }
        let mut nonce = [0u8; 24];
        let mut i: usize = 0;
        while i < 24
            invariant
                i <= 24,
                data@.len() >= 40,
                forall|j: int| 0 <= j < i ==> nonce@[j] == data@[j],
            decreases 24 - i,
        {
            nonce[i] = data[i];
            i += 1;
        }
        assert(nonce@ =~= data@.subrange(0, 24));
        let total_chunks = u64_from_le_bytes(slice_subrange(data, 24, 32));
        let original_size = u64_from_le_bytes(slice_subrange(data, 32, 40));
        Ok(EncryptedHeader { nonce, total_chunks, original_size })
    }
}

/// An encoded header reads back as the header it was made from.
pub proof fn lemma_header_roundtrip(nonce: Seq<u8>, total_chunks: u64, original_size: u64)
    requires
        nonce.len() == 24,
    ensures
        header_bytes(nonce, total_chunks, original_size).len() == 40,
        header_bytes(nonce, total_chunks, original_size).subrange(0, 24) == nonce,
        header_total_chunks(header_bytes(nonce, total_chunks, original_size)) == total_chunks,
        header_original_size(header_bytes(nonce, total_chunks, original_size)) == original_size,
{
    lemma_auto_spec_u64_to_from_le_bytes();
    let bytes = header_bytes(nonce, total_chunks, original_size);
    assert(bytes.subrange(0, 24) =~= nonce);
    assert(bytes.subrange(24, 32) =~= spec_u64_to_le_bytes(total_chunks));
    assert(bytes.subrange(32, 40) =~= spec_u64_to_le_bytes(original_size));
}

/// Where an encrypted file was written, and what it holds.
pub struct EncryptedFileInfo {
    pub path: String,
    pub total_size: u64,
    pub original_size: u64,
    pub total_chunks: u64,
}

/// One frame of a blob: the length of the sealed chunk as four little-endian
/// bytes, then the chunk sealed under its own nonce.
pub open spec fn frame(key: Seq<u8>, base: Seq<u8>, index: nat, chunk: Seq<u8>) -> Seq<u8> {
    let sealed = xchacha20poly1305_seal(key, chunk_nonce(base, index as u64), chunk);
    spec_u32_to_le_bytes(sealed.len() as u32) + sealed
}

/// The frames of `chunks` in order, the first of them with index `start`.
pub open spec fn frames(key: Seq<u8>, base: Seq<u8>, chunks: Seq<Seq<u8>>, start: nat) -> Seq<u8>
    decreases chunks.len(),
{
    if chunks.len() == 0 {
        Seq::empty()
    } else {
        frames(key, base, chunks.drop_last(), start) + frame(
            key,
            base,
            (start + chunks.len() - 1) as nat,
            chunks.last(),
        )
    }
}

/// All the chunks joined end to end.
pub open spec fn concat(chunks: Seq<Seq<u8>>) -> Seq<u8>
    decreases chunks.len(),
{
    if chunks.len() == 0 {
        Seq::empty()
    } else {
        concat(chunks.drop_last()) + chunks.last()
    }
}

/// `head` put before what `rest` holds, where `rest` holds anything.
pub open spec fn prepend(head: Seq<u8>, rest: Result<Seq<u8>, CodecError>) -> Result<
    Seq<u8>,
    CodecError,
> {
    match rest {
        Ok(tail) => Ok(head + tail),
        Err(e) => Err(e),
    }
}

/// What the frames at the front of `body` open to, read in order from chunk
/// `index` up to, not including, chunk `total`. The first frame that is cut
/// short or fails its tag decides the error, and nothing of it is returned.
pub open spec fn open_frames(
    key: Seq<u8>,
    base: Seq<u8>,
    body: Seq<u8>,
    index: nat,
    total: nat,
) -> Result<Seq<u8>, CodecError>
    decreases total - index,
{
    if index >= total {
        Ok(Seq::empty())
    } else if body.len() < 4 {
        Err(CodecError::CorruptFrame(FrameFault::TruncatedChunkLength(index as u64)))
    } else {
        let len = spec_u32_from_le_bytes(body.subrange(0, 4)) as int;
        if body.len() - 4 < len {
            Err(CodecError::CorruptFrame(FrameFault::TruncatedChunkBody(index as u64)))
        } else {
            match xchacha20poly1305_open(
                key,
                chunk_nonce(base, index as u64),
                body.subrange(4, 4 + len),
            ) {
                None => Err(CodecError::AuthFailure(index as u64)),
                Some(chunk) => prepend(
                    chunk,
                    open_frames(key, base, body.skip(4 + len), index + 1, total),
                ),
            }
        }
    }
}

/// What a whole blob decodes to under a key: the plaintext of its chunks in
/// order, or the first fault met. Bytes after the last chunk are not read.
pub open spec fn decoded(data: Seq<u8>, key: Seq<u8>) -> Result<Seq<u8>, CodecError> {
    if data.len() < 40 {
        Err(CodecError::CorruptFrame(FrameFault::TruncatedHeader))
    } else if header_total_chunks(data) == 0 {
        Err(CodecError::CorruptFrame(FrameFault::ZeroChunks))
    } else {
        open_frames(key, data.subrange(0, 24), data.skip(40), 0, header_total_chunks(data) as nat)
    }
}

/// The view of what a decoder returns.
pub open spec fn decoding_view(res: Result<Vec<u8>, CodecError>) -> Result<Seq<u8>, CodecError> {
    match res {
        Ok(plaintext) => Ok(plaintext@),
        Err(e) => Err(e),
    }
}

/// The cipher gives the chunk of this index a sealed form 16 bytes longer
/// than the chunk, and opens that form to the chunk again.
pub open spec fn chunk_seals_open(key: Seq<u8>, base: Seq<u8>, index: nat, chunk: Seq<u8>) -> bool {
    let nonce = chunk_nonce(base, index as u64);
    let sealed = xchacha20poly1305_seal(key, nonce, chunk);
    &&& chunk.len() <= CHUNK_SIZE
    &&& sealed.len() == chunk.len() + 16
    &&& xchacha20poly1305_open(key, nonce, sealed) == Some(chunk)
}

/// `chunk_seals_open` of every chunk, the first of them with index `start`.
pub open spec fn seals_open(key: Seq<u8>, base: Seq<u8>, chunks: Seq<Seq<u8>>, start: nat) -> bool {
    forall|i: int|
        #![trigger chunks[i]]
        0 <= i < chunks.len() ==> chunk_seals_open(key, base, (start + i) as nat, chunks[i])
}

/// A frame at the front of the input opens to its chunk, and decoding goes
/// on behind it.
pub proof fn lemma_open_one_frame(
    key: Seq<u8>,
    base: Seq<u8>,
    index: nat,
    total: nat,
    chunk: Seq<u8>,
    tail: Seq<u8>,
)
    requires
        index < total,
        chunk_seals_open(key, base, index, chunk),
    ensures
        open_frames(key, base, frame(key, base, index, chunk) + tail, index, total) == prepend(
            chunk,
            open_frames(key, base, tail, index + 1, total),
        ),
{
    lemma_auto_spec_u32_to_from_le_bytes();
    let sealed = xchacha20poly1305_seal(key, chunk_nonce(base, index as u64), chunk);
    let body = frame(key, base, index, chunk) + tail;
    let len = sealed.len() as u32;
    assert(len as int == sealed.len());
    assert(body.subrange(0, 4) =~= spec_u32_to_le_bytes(len));
    assert(body.subrange(4, 4 + len as int) =~= sealed);
    assert(body.skip(4 + len as int) =~= tail);
}

/// Frames at the front of the input open to their chunks joined, and
/// decoding goes on behind them.
pub proof fn lemma_open_frames_of_frames(
    key: Seq<u8>,
    base: Seq<u8>,
    chunks: Seq<Seq<u8>>,
    start: nat,
    total: nat,
    tail: Seq<u8>,
)
    requires
        start + chunks.len() <= total,
        seals_open(key, base, chunks, start),
    ensures
        open_frames(key, base, frames(key, base, chunks, start) + tail, start, total) == prepend(
            concat(chunks),
            open_frames(key, base, tail, start + chunks.len(), total),
        ),
    decreases chunks.len(),
{
    if chunks.len() == 0 {
        assert(frames(key, base, chunks, start) + tail =~= tail);
        let rest = open_frames(key, base, tail, start, total);
        match rest {
            Ok(t) => {
                assert(concat(chunks) + t =~= t);
            },
            Err(_) => {},
        }
    } else {
        let init = chunks.drop_last();
        let last = chunks.last();
        let last_index = (start + chunks.len() - 1) as nat;
        let last_frame = frame(key, base, last_index, last);
        assert(seals_open(key, base, init, start)) by {
            assert forall|i: int| 0 <= i < init.len() implies chunk_seals_open(
                key,
                base,
                (start + i) as nat,
                #[trigger] init[i],
            ) by {
                assert(init[i] == chunks[i]);
            }
        }
        assert(chunk_seals_open(key, base, last_index, last)) by {
            assert(chunks[chunks.len() - 1] == last);
        }
        lemma_open_frames_of_frames(key, base, init, start, total, last_frame + tail);
        lemma_open_one_frame(key, base, last_index, total, last, tail);
        assert(frames(key, base, chunks, start) + tail =~= frames(key, base, init, start) + (
        last_frame + tail));
        let rest = open_frames(key, base, tail, start + chunks.len(), total);
        match rest {
            Ok(t) => {
                assert(concat(init) + (last + t) =~= concat(chunks) + t);
            },
            Err(_) => {},
        }
    }
}

/// Decoding inverts encoding: a header that counts the chunks, followed by
/// their frames, decodes under the same key to the chunks joined, whatever
/// follows the last frame.
pub proof fn lemma_decode_inverts_encode(
    key: Seq<u8>,
    nonce: Seq<u8>,
    chunks: Seq<Seq<u8>>,
    original_size: u64,
    trailer: Seq<u8>,
)
    requires
        nonce.len() == 24,
        1 <= chunks.len() <= u64::MAX,
        seals_open(key, nonce, chunks, 0),
    ensures
        decoded(
            header_bytes(nonce, chunks.len() as u64, original_size) + frames(key, nonce, chunks, 0)
                + trailer,
            key,
        ) == Ok::<Seq<u8>, CodecError>(concat(chunks)),
{
    let total = chunks.len() as u64;
    let header = header_bytes(nonce, total, original_size);
    let body = frames(key, nonce, chunks, 0) + trailer;
    let data = header + frames(key, nonce, chunks, 0) + trailer;
    lemma_header_roundtrip(nonce, total, original_size);
    assert(data.subrange(0, 24) =~= header.subrange(0, 24));
    assert(data.subrange(24, 32) =~= header.subrange(24, 32));
    assert(data.skip(40) =~= body);
    lemma_open_frames_of_frames(key, nonce, chunks, 0, total as nat, trailer);
    assert(concat(chunks) + Seq::<u8>::empty() =~= concat(chunks));
}

/// Decodes a whole blob: reads the header, then opens chunk after chunk in
/// index order. Fails with `CorruptFrame` on a header or chunk that is cut
/// short and on a header that announces no chunk, with `AuthFailure` on the
/// first chunk whose tag does not match; no plaintext is returned then.
pub fn decrypt_blob(data: &[u8], key: &EncryptionKey) -> (res: Result<Vec<u8>, CodecError>)
    ensures
        decoding_view(res) == decoded(data@, key@),
{
    let header = match EncryptedHeader::from_bytes(data) {
        Ok(header) => header,
        Err(e) => {
            return Err(e);
        },
    };
    if header.total_chunks == 0 {
        return Err(CodecError::CorruptFrame(FrameFault::ZeroChunks));
    }
    let body = slice_subrange(data, 40, data.len());
    let mut plaintext: Vec<u8> = Vec::new();
    let mut offset: usize = 0;
    let mut index: u64 = 0;
    assert(body@.skip(0) =~= data@.skip(40));
    assert(prepend(
        plaintext@,
        open_frames(key@, header.nonce@, body@, 0, header.total_chunks as nat),
    ) == decoded(data@, key@)) by {
        let rest = open_frames(key@, header.nonce@, body@, 0, header.total_chunks as nat);
        match rest {
            Ok(t) => {
                assert(plaintext@ + t =~= t);
            },
            Err(_) => {},
        }
    }
    while index < header.total_chunks
        invariant
            offset <= body@.len(),
            index <= header.total_chunks,
            decoded(data@, key@) == prepend(
                plaintext@,
                open_frames(
                    key@,
                    header.nonce@,
                    body@.skip(offset as int),
                    index as nat,
                    header.total_chunks as nat,
                ),
            ),
        decreases header.total_chunks - index,
    {
        let ghost rest = body@.skip(offset as int);
        if body.len() - offset < 4 {
            return Err(CodecError::CorruptFrame(FrameFault::TruncatedChunkLength(index)));
        }
        let chunk_len = u32_from_le_bytes(slice_subrange(body, offset, offset + 4)) as usize;
        assert(body@.subrange(offset as int, offset + 4) =~= rest.subrange(0, 4));
        offset += 4;
        if body.len() - offset < chunk_len {
            return Err(CodecError::CorruptFrame(FrameFault::TruncatedChunkBody(index)));
        }
        let sealed = slice_subrange(body, offset, offset + chunk_len);
        assert(sealed@ =~= rest.subrange(4, 4 + chunk_len));
        offset += chunk_len;
        assert(body@.skip(offset as int) =~= rest.skip(4 + chunk_len));
        let nonce = derive_chunk_nonce(&header.nonce, index);
        match aead_open(&key.0, &nonce, sealed) {
            None => {
                return Err(CodecError::AuthFailure(index));
            },
            Some(chunk) => {
                let mut chunk = chunk;
                let ghost before = plaintext@;
                let ghost opened = chunk@;
                plaintext.append(&mut chunk);
                proof {
                    let behind = open_frames(
                        key@,
                        header.nonce@,
                        body@.skip(offset as int),
                        index as nat + 1,
                        header.total_chunks as nat,
                    );
                    match behind {
                        Ok(t) => {
                            assert(before + (opened + t) =~= (before + opened) + t);
                        },
                        Err(_) => {},
                    }
                }
            },
        }
        index += 1;
    }
    assert(plaintext@ + Seq::<u8>::empty() =~= plaintext@);
    Ok(plaintext)
}

/// Seals a stream chunk by chunk under one key and one base nonce, counting
/// what it has sealed for the header that closes the stream.
pub struct StreamEncoder<'a> {
    key: &'a EncryptionKey,
    nonce: [u8; 24],
    chunk_index: u64,
    bytes_processed: u64,
    chunks: Ghost<Seq<Seq<u8>>>,
}

/// The chunks a finished stream holds: those sealed, or one empty chunk
/// where none was, so that a blob never holds zero chunks.
pub open spec fn closed_chunks(sealed: Seq<Seq<u8>>) -> Seq<Seq<u8>> {
    if sealed.len() == 0 {
        seq![Seq::<u8>::empty()]
    } else {
        sealed
    }
}

impl<'a> StreamEncoder<'a> {
    #[verifier::type_invariant]
    spec fn inv(self) -> bool {
        &&& self.chunk_index == self.chunks@.len()
        &&& self.bytes_processed == concat(self.chunks@).len()
        &&& seals_open(self.key@, self.nonce@, self.chunks@, 0)
    }

    /// The key the stream is sealed under.
    pub closed spec fn key(&self) -> Seq<u8> {
        self.key@
    }

    /// The base nonce of the stream.
    pub closed spec fn base_nonce(&self) -> Seq<u8> {
        self.nonce@
    }

    /// The chunks sealed so far, in order.
    pub closed spec fn sealed_chunks(&self) -> Seq<Seq<u8>> {
        self.chunks@
    }

    /// An encoder under a fresh random base nonce.
    pub fn new(key: &'a EncryptionKey) -> (enc: Self)
        ensures
            enc.key() == key@,
            enc.base_nonce().len() == 24,
            enc.sealed_chunks() == Seq::<Seq<u8>>::empty(),
    {
        Self::with_nonce(key, random_array::<24>())
    }

    /// An encoder under the given base nonce, which must not have served
    /// with this key before.
    pub fn with_nonce(key: &'a EncryptionKey, nonce: [u8; 24]) -> (enc: Self)
        ensures
            enc.key() == key@,
            enc.base_nonce() == nonce@,
            enc.sealed_chunks() == Seq::<Seq<u8>>::empty(),
    {
        StreamEncoder { key, nonce, chunk_index: 0, bytes_processed: 0, chunks: Ghost(Seq::empty()) }
    }

    /// The base nonce.
    pub fn nonce(&self) -> (nonce: [u8; 24])
        ensures
            nonce@ == self.base_nonce(),
    {
        self.nonce
    }

    /// Number of chunks sealed so far.
    pub fn chunks_sealed(&self) -> (n: u64)
        ensures
            n == self.sealed_chunks().len(),
    {
        proof {
            use_type_invariant(self);
        }
        self.chunk_index
    }

    /// Number of plaintext bytes sealed so far.
    pub fn bytes_processed(&self) -> (n: u64)
        ensures
            n == concat(self.sealed_chunks()).len(),
    {
        proof {
            use_type_invariant(self);
        }
        self.bytes_processed
    }

    /// Seals the next chunk and returns its frame: four bytes of length, the
    /// encrypted chunk and its tag. The two counts of the header have 64 bits
    /// each, and the stream must stay within them.
    pub fn seal_chunk(&mut self, chunk: &[u8]) -> (sealed_frame: Vec<u8>)
        requires
            chunk@.len() <= CHUNK_SIZE,
            old(self).sealed_chunks().len() < u64::MAX,
            concat(old(self).sealed_chunks()).len() + chunk@.len() <= u64::MAX,
        ensures
            final(self).key() == old(self).key(),
            final(self).base_nonce() == old(self).base_nonce(),
            final(self).sealed_chunks() == old(self).sealed_chunks().push(chunk@),
            sealed_frame@ == frame(
                old(self).key(),
                old(self).base_nonce(),
                old(self).sealed_chunks().len(),
                chunk@,
            ),
            sealed_frame@.len() == chunk@.len() + 20,
    {
        proof {
            use_type_invariant(&*self);
            lemma_auto_spec_u32_to_from_le_bytes();
        }
        let chunk_nonce = derive_chunk_nonce(&self.nonce, self.chunk_index);
        let mut sealed = match aead_seal(&self.key.0, &chunk_nonce, chunk) {
            Some(sealed) => sealed,
            None => {
                assert(false);
                Vec::new()
            },
        };
        let mut sealed_frame = u32_to_le_bytes(sealed.len() as u32);
        sealed_frame.append(&mut sealed);
        let ghost before = self.chunks@;
        let ghost after = before.push(chunk@);
        proof {
            assert(after.drop_last() =~= before);
            assert(after.last() == chunk@);
            assert(seals_open(self.key@, self.nonce@, after, 0)) by {
                assert forall|i: int| 0 <= i < after.len() implies chunk_seals_open(
                    self.key@,
                    self.nonce@,
                    (0 + i) as nat,
                    #[trigger] after[i],
                ) by {
                    if i < before.len() {
                        assert(after[i] == before[i]);
                    }
                }
            }
        }
        *self = StreamEncoder {
            key: self.key,
            nonce: self.nonce,
            chunk_index: self.chunk_index + 1,
            bytes_processed: self.bytes_processed + chunk.len() as u64,
            chunks: Ghost(after),
        };
        sealed_frame
    }

    /// Closes the stream. Returns the frame still to be written behind the
    /// others (that of one empty chunk where nothing was sealed, else nothing)
    /// and the header to be written before them. Header, frames and that last
    /// frame together decode under the key to the plaintext sealed.
    pub fn finish(self) -> (res: (Vec<u8>, EncryptedHeader))
        ensures
            res.1.nonce@ == self.base_nonce(),
            res.1.total_chunks == closed_chunks(self.sealed_chunks()).len(),
            res.1.original_size == concat(self.sealed_chunks()).len(),
            concat(closed_chunks(self.sealed_chunks())) == concat(self.sealed_chunks()),
            frames(self.key(), self.base_nonce(), closed_chunks(self.sealed_chunks()), 0) == frames(
                self.key(),
                self.base_nonce(),
                self.sealed_chunks(),
                0,
            ) + res.0@,
            res.0@.len() == (if self.sealed_chunks().len() == 0 {
                20nat
            } else {
                0nat
            }),
            decoded(
                res.1.spec_bytes() + frames(
                    self.key(),
                    self.base_nonce(),
                    closed_chunks(self.sealed_chunks()),
                    0,
                ),
                self.key(),
            ) == Ok::<Seq<u8>, CodecError>(concat(self.sealed_chunks())),
    {
        proof {
            use_type_invariant(&self);
        }
        let ghost sealed = self.chunks@;
        let mut enc = self;
        let tail = if enc.chunk_index == 0 {
            let nothing: Vec<u8> = Vec::new();
            enc.seal_chunk(nothing.as_slice())
        } else {
            Vec::new()
        };
        proof {
            use_type_invariant(&enc);
            let all = enc.chunks@;
            if sealed.len() == 0 {
                assert(all =~= closed_chunks(sealed));
                assert(all.drop_last() =~= sealed);
                assert(concat(all) =~= concat(sealed));
                assert(frames(enc.key@, enc.nonce@, sealed, 0) =~= Seq::<u8>::empty());
            } else {
                assert(frames(enc.key@, enc.nonce@, sealed, 0) + tail@ =~= frames(
                    enc.key@,
                    enc.nonce@,
                    sealed,
                    0,
                ));
            }
            lemma_decode_inverts_encode(
                enc.key@,
                enc.nonce@,
                all,
                enc.bytes_processed,
                Seq::empty(),
            );
            assert(header_bytes(enc.nonce@, all.len() as u64, enc.bytes_processed) + frames(
                enc.key@,
                enc.nonce@,
                all,
                0,
            ) + Seq::<u8>::empty() =~= header_bytes(
                enc.nonce@,
                all.len() as u64,
                enc.bytes_processed,
            ) + frames(enc.key@, enc.nonce@, all, 0));
        }
        let header = EncryptedHeader {
            nonce: enc.nonce,
            total_chunks: enc.chunk_index,
            original_size: enc.bytes_processed,
        };
        (tail, header)
    }
}

/// Number of chunks that a plaintext of `len` bytes is cut into: one for an
/// empty plaintext, else as many as it takes at `CHUNK_SIZE` bytes each.
pub open spec fn chunk_count(len: nat) -> nat {
    if len == 0 {
        1
    } else {
        ((len + CHUNK_SIZE - 1) / CHUNK_SIZE as int) as nat
    }
}

/// A plaintext of no more than one chunk's size is held in one chunk.
pub proof fn lemma_small_plaintext_is_one_chunk(len: nat)
    requires
        len <= CHUNK_SIZE,
    ensures
        chunk_count(len) == 1,
{
}

/// The chunks that a plaintext is cut into: all of `CHUNK_SIZE` bytes but
/// the last, which holds what is left.
pub open spec fn split_chunks(data: Seq<u8>) -> Seq<Seq<u8>> {
    Seq::new(
        chunk_count(data.len()),
        |i: int|
            data.subrange(
                i * CHUNK_SIZE,
                if (i + 1) * CHUNK_SIZE <= data.len() {
                    (i + 1) * CHUNK_SIZE
                } else {
                    data.len() as int
                },
            ),
    )
}

/// The blob that a plaintext encodes to under a key and a base nonce.
pub open spec fn encoded(data: Seq<u8>, key: Seq<u8>, nonce: Seq<u8>) -> Seq<u8> {
    header_bytes(nonce, chunk_count(data.len()) as u64, data.len() as u64) + frames(
        key,
        nonce,
        split_chunks(data),
        0,
    )
}

/// Number of bytes in the blob of a plaintext of `len` bytes: the header,
/// the plaintext, and a length prefix and a tag for every chunk.
pub open spec fn encoded_len(len: nat) -> nat {
    40 + len + 20 * chunk_count(len)
}

/// Encodes a whole plaintext under the given base nonce, reporting the
/// number of plaintext bytes sealed after every chunk.
pub fn encrypt_with_nonce<F: Fn(u64)>(
    data: &[u8],
    key: &EncryptionKey,
    nonce: [u8; 24],
    progress_callback: &F,
) -> (blob: Vec<u8>)
    requires
        forall|n: u64| progress_callback.requires((n,)),
    ensures
        blob@ == encoded(data@, key@, nonce@),
        blob@.len() == encoded_len(data@.len()),
        decoded(blob@, key@) == Ok::<Seq<u8>, CodecError>(data@),
{
    let mut enc = StreamEncoder::with_nonce(key, nonce);
    let mut body: Vec<u8> = Vec::new();
    let mut offset: usize = 0;
    let ghost all = split_chunks(data@);
    proof {
        assert(all.take(0) =~= Seq::<Seq<u8>>::empty());
        assert(data@.take(0) =~= Seq::<u8>::empty());
    }
    while offset < data.len()
        invariant
            offset <= data@.len(),
            offset % CHUNK_SIZE == 0 || offset == data@.len(),
            all == split_chunks(data@),
            enc.key() == key@,
            enc.base_nonce() == nonce@,
            enc.sealed_chunks().len() == (offset + CHUNK_SIZE - 1) / CHUNK_SIZE as int,
            enc.sealed_chunks() == all.take(enc.sealed_chunks().len() as int),
            concat(enc.sealed_chunks()) == data@.take(offset as int),
            body@ == frames(key@, nonce@, enc.sealed_chunks(), 0),
            body@.len() == offset + 20 * enc.sealed_chunks().len(),
            forall|n: u64| progress_callback.requires((n,)),
        decreases data@.len() - offset,
    {
        let end = if data.len() - offset > CHUNK_SIZE {
            offset + CHUNK_SIZE
        } else {
            data.len()
        };
        let ghost before = enc.sealed_chunks();
        let ghost k = before.len() as int;
        proof {
            assert(k * CHUNK_SIZE == offset);
            assert(k < all.len());
            assert(all[k] =~= data@.subrange(offset as int, end as int));
        }
        let mut sealed_frame = enc.seal_chunk(slice_subrange(data, offset, end));
        proof {
            let after = enc.sealed_chunks();
            assert(after.drop_last() =~= before);
            assert(after =~= all.take(k + 1));
            assert(data@.take(offset as int) + data@.subrange(offset as int, end as int)
                =~= data@.take(end as int));
        }
        body.append(&mut sealed_frame);
        offset = end;
        progress_callback(enc.bytes_processed());
    }
    let ghost sealed = enc.sealed_chunks();
    let (mut tail, header) = enc.finish();
    proof {
        assert(data@.take(data@.len() as int) =~= data@);
        if data@.len() == 0 {
            assert(closed_chunks(sealed) =~= all);
        } else {
            assert(sealed =~= all);
        }
    }
    let mut blob = header.to_bytes();
    body.append(&mut tail);
    blob.append(&mut body);
    blob
}

/// Encodes a whole plaintext in memory under a fresh random base nonce. The
/// blob opens with that nonce; its header counts the chunks and the bytes
/// of the plaintext, and it decodes under the same key to the plaintext.
pub fn encrypt_file_streaming<F: Fn(u64)>(
    data: &[u8],
    key: &EncryptionKey,
    progress_callback: F,
) -> (res: Result<Vec<u8>, CodecError>)
    requires
        forall|n: u64| progress_callback.requires((n,)),
    ensures
        res matches Ok(blob) && {
            &&& blob@ == encoded(data@, key@, blob@.subrange(0, 24))
            &&& blob@.len() == encoded_len(data@.len())
            &&& header_total_chunks(blob@) == chunk_count(data@.len())
            &&& header_original_size(blob@) == data@.len()
            &&& decoded(blob@, key@) == Ok::<Seq<u8>, CodecError>(data@)
        },
{
    let nonce = random_array::<24>();
    let blob = encrypt_with_nonce(data, key, nonce, &progress_callback);
    let len = data.len();
    proof {
        assert(chunk_count(len as nat) <= len + 1);
        lemma_header_roundtrip(nonce@, chunk_count(data@.len()) as u64, data@.len() as u64);
        let header = header_bytes(nonce@, chunk_count(data@.len()) as u64, data@.len() as u64);
        assert(blob@.subrange(0, 24) =~= header.subrange(0, 24));
        assert(blob@.subrange(24, 32) =~= header.subrange(24, 32));
        assert(blob@.subrange(32, 40) =~= header.subrange(32, 40));
    }
    Ok(blob)
}

/// A chunk that the cipher rejects aborts the decoding at that chunk: where
/// the chunks before it open and the bytes in its frame do not, the blob
/// decodes to the authentication failure of that chunk, and to no plaintext,
/// whatever follows.
pub proof fn lemma_rejected_chunk_aborts(
    key: Seq<u8>,
    nonce: Seq<u8>,
    before: Seq<Seq<u8>>,
    rejected: Seq<u8>,
    rest: Seq<u8>,
    total_chunks: u64,
    original_size: u64,
)
    requires
        nonce.len() == 24,
        before.len() < total_chunks,
        seals_open(key, nonce, before, 0),
        rejected.len() <= u32::MAX,
        xchacha20poly1305_open(key, chunk_nonce(nonce, before.len() as u64), rejected) is None,
    ensures
        decoded(
            header_bytes(nonce, total_chunks, original_size) + frames(key, nonce, before, 0) + (
            spec_u32_to_le_bytes(rejected.len() as u32) + rejected + rest),
            key,
        ) == Err::<Seq<u8>, CodecError>(CodecError::AuthFailure(before.len() as u64)),
{
    lemma_auto_spec_u32_to_from_le_bytes();
    let header = header_bytes(nonce, total_chunks, original_size);
    let tail = spec_u32_to_le_bytes(rejected.len() as u32) + rejected + rest;
    let body = frames(key, nonce, before, 0) + tail;
    let data = header + frames(key, nonce, before, 0) + tail;
    lemma_header_roundtrip(nonce, total_chunks, original_size);
    assert(data.subrange(0, 24) =~= header.subrange(0, 24));
    assert(data.subrange(24, 32) =~= header.subrange(24, 32));
    assert(data.skip(40) =~= body);
    lemma_open_frames_of_frames(key, nonce, before, 0, total_chunks as nat, tail);
    assert(tail.subrange(0, 4) =~= spec_u32_to_le_bytes(rejected.len() as u32));
    assert(tail.subrange(4, 4 + rejected.len() as int) =~= rejected);
}

/// A decoding that either succeeded or failed on a tag.
pub open spec fn ok_or_auth_failure(res: Result<Seq<u8>, CodecError>) -> bool {
    match res {
        Ok(_) => true,
        Err(CodecError::AuthFailure(_)) => true,
        Err(CodecError::CorruptFrame(_)) => false,
    }
}

proof fn lemma_other_key_one_frame(
    key: Seq<u8>,
    other: Seq<u8>,
    base: Seq<u8>,
    index: nat,
    total: nat,
    chunk: Seq<u8>,
    tail: Seq<u8>,
)
    requires
        index < total,
        chunk_seals_open(key, base, index, chunk),
        ok_or_auth_failure(open_frames(other, base, tail, index + 1, total)),
    ensures
        ok_or_auth_failure(
            open_frames(other, base, frame(key, base, index, chunk) + tail, index, total),
        ),
{
    lemma_auto_spec_u32_to_from_le_bytes();
    let sealed = xchacha20poly1305_seal(key, chunk_nonce(base, index as u64), chunk);
    let body = frame(key, base, index, chunk) + tail;
    let len = sealed.len() as u32;
    assert(len as int == sealed.len());
    assert(body.subrange(0, 4) =~= spec_u32_to_le_bytes(len));
    assert(body.subrange(4, 4 + len as int) =~= sealed);
    assert(body.skip(4 + len as int) =~= tail);
}

proof fn lemma_other_key_frames(
    key: Seq<u8>,
    other: Seq<u8>,
    base: Seq<u8>,
    chunks: Seq<Seq<u8>>,
    start: nat,
    total: nat,
    tail: Seq<u8>,
)
    requires
        start + chunks.len() <= total,
        seals_open(key, base, chunks, start),
        ok_or_auth_failure(open_frames(other, base, tail, start + chunks.len(), total)),
    ensures
        ok_or_auth_failure(
            open_frames(other, base, frames(key, base, chunks, start) + tail, start, total),
        ),
    decreases chunks.len(),
{
    if chunks.len() == 0 {
        assert(frames(key, base, chunks, start) + tail =~= tail);
    } else {
        let init = chunks.drop_last();
        let last = chunks.last();
        let last_index = (start + chunks.len() - 1) as nat;
        let last_frame = frame(key, base, last_index, last);
        assert(seals_open(key, base, init, start)) by {
            assert forall|i: int| 0 <= i < init.len() implies chunk_seals_open(
                key,
                base,
                (start + i) as nat,
                #[trigger] init[i],
            ) by {
                assert(init[i] == chunks[i]);
            }
        }
        assert(chunk_seals_open(key, base, last_index, last)) by {
            assert(chunks[chunks.len() - 1] == last);
        }
        lemma_other_key_one_frame(key, other, base, last_index, total, last, tail);
        lemma_other_key_frames(key, other, base, init, start, total, last_frame + tail);
        assert(frames(key, base, chunks, start) + tail =~= frames(key, base, init, start) + (
        last_frame + tail));
    }
}

/// Under any other key an encoded blob is still well laid out: decoding it
/// never reports a corrupt frame, so that where it fails, it fails on the
/// tag of a chunk.
pub proof fn lemma_other_key_fails_on_tag_only(
    key: Seq<u8>,
    other: Seq<u8>,
    nonce: Seq<u8>,
    chunks: Seq<Seq<u8>>,
    original_size: u64,
)
    requires
        nonce.len() == 24,
        1 <= chunks.len() <= u64::MAX,
        seals_open(key, nonce, chunks, 0),
    ensures
        ok_or_auth_failure(
            decoded(
                header_bytes(nonce, chunks.len() as u64, original_size) + frames(
                    key,
                    nonce,
                    chunks,
                    0,
                ),
                other,
            ),
        ),
{
    let total = chunks.len() as u64;
    let header = header_bytes(nonce, total, original_size);
    let body = frames(key, nonce, chunks, 0);
    let data = header + body;
    lemma_header_roundtrip(nonce, total, original_size);
    assert(data.subrange(0, 24) =~= header.subrange(0, 24));
    assert(data.subrange(24, 32) =~= header.subrange(24, 32));
    assert(data.skip(40) =~= body + Seq::<u8>::empty());
    lemma_other_key_frames(key, other, nonce, chunks, 0, total as nat, Seq::empty());
}

impl EncryptedFileInfo {
    /// What is known of an encrypted file once its header is written.
    pub fn new(path: String, header: &EncryptedHeader, total_size: u64) -> (info:
        EncryptedFileInfo)
        ensures
            info.path@ == path@,
            info.total_size == total_size,
            info.original_size == header.original_size,
            info.total_chunks == header.total_chunks,
    {
        EncryptedFileInfo {
            path,
            total_size,
            original_size: header.original_size,
            total_chunks: header.total_chunks,
        }
    }
}

} // verus!
