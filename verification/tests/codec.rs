use deadrop::browser::{
    decrypt_blob as browser_decrypt_blob, decrypt_chunk, encrypt_blob, encrypt_chunk,
    parse_header, BrowserError,
};
use deadrop::crypto::{
    decrypt_blob, derive_chunk_nonce, encrypt_file_streaming, encrypt_with_nonce, CodecError,
    EncryptedFileInfo, EncryptedHeader, EncryptionKey, FrameFault, KeyError, StreamEncoder,
    AUTH_TAG_SIZE, CHUNK_SIZE, NONCE_SIZE,
};
use std::cell::RefCell;

fn key_of(byte: u8) -> EncryptionKey {
    EncryptionKey([byte; 32])
}

fn pattern(len: usize) -> Vec<u8> {
    (0..len).map(|i| (i * 31 + 7) as u8).collect()
}

#[test]
fn constants_match_the_frame_format() {
    assert_eq!(CHUNK_SIZE, 65_536);
    assert_eq!(AUTH_TAG_SIZE, 16);
    assert_eq!(NONCE_SIZE, 24);
    assert_eq!(EncryptedHeader::SIZE, 40);
}

#[test]
fn chunk_nonce_xors_index_into_first_eight_bytes() {
    let base = [0xAAu8; 24];
    assert_eq!(derive_chunk_nonce(&base, 0), base);
    let n = derive_chunk_nonce(&base, 0x0102_0304_0506_0708);
    assert_eq!(
        &n[..8],
        &[0xAA ^ 0x08, 0xAA ^ 0x07, 0xAA ^ 0x06, 0xAA ^ 0x05, 0xAA ^ 0x04, 0xAA ^ 0x03, 0xAA ^ 0x02, 0xAA ^ 0x01]
    );
    assert_eq!(&n[8..], &[0xAAu8; 16]);
    let one = derive_chunk_nonce(&[0u8; 24], 1);
    assert_eq!(one[0], 1);
    assert_eq!(&one[1..], &[0u8; 23]);
}

#[test]
fn header_encodes_to_forty_little_endian_bytes() {
    let mut nonce = [0u8; 24];
    for (i, b) in nonce.iter_mut().enumerate() {
        *b = i as u8;
    }
    let header = EncryptedHeader { nonce, total_chunks: 0x0102, original_size: 70_000 };
    let bytes = header.to_bytes();
    assert_eq!(bytes.len(), 40);
    assert_eq!(&bytes[..24], &nonce);
    assert_eq!(&bytes[24..32], &[0x02, 0x01, 0, 0, 0, 0, 0, 0]);
    assert_eq!(&bytes[32..40], &70_000u64.to_le_bytes());

    let back = EncryptedHeader::from_bytes(&bytes).unwrap();
    assert_eq!(back.nonce, nonce);
    assert_eq!(back.total_chunks, 0x0102);
    assert_eq!(back.original_size, 70_000);
}

#[test]
fn header_from_bytes_rejects_short_input() {
    for len in [0usize, 1, 39] {
        let err = EncryptedHeader::from_bytes(&vec![0u8; len]).unwrap_err();
        assert_eq!(err, CodecError::CorruptFrame(FrameFault::TruncatedHeader));
    }
    assert!(EncryptedHeader::from_bytes(&[0u8; 40]).is_ok());
    // bytes behind the header are not looked at
    assert!(EncryptedHeader::from_bytes(&[0u8; 41]).is_ok());
}

#[test]
fn roundtrip_holds_for_many_sizes() {
    let key = EncryptionKey::generate();
    for len in [0usize, 1, 11, 65_535, 65_536, 65_537, 131_072, 200_000] {
        let plain = pattern(len);
        let blob = encrypt_file_streaming(&plain, &key, |_| {}).unwrap();
        assert_eq!(decrypt_blob(&blob, &key).unwrap(), plain, "len {}", len);
    }
}

#[test]
fn header_reports_chunks_and_size() {
    let key = key_of(3);
    let cases: [(usize, u64); 7] = [
        (0, 1),
        (1, 1),
        (65_535, 1),
        (65_536, 1),
        (65_537, 2),
        (131_072, 2),
        (131_073, 3),
    ];
    for (len, chunks) in cases {
        let blob = encrypt_file_streaming(&pattern(len), &key, |_| {}).unwrap();
        let header = EncryptedHeader::from_bytes(&blob).unwrap();
        assert_eq!(header.total_chunks, chunks, "len {}", len);
        assert_eq!(header.original_size, len as u64);
        assert_eq!(blob.len(), 40 + len + 20 * chunks as usize);
    }
}

#[test]
fn hello_world_blob_has_71_bytes() {
    let blob = encrypt_file_streaming(b"hello world", &key_of(1), |_| {}).unwrap();
    assert_eq!(blob.len(), 71);
    // the one frame announces 11 + 16 bytes
    assert_eq!(&blob[40..44], &27u32.to_le_bytes());
}

#[test]
fn empty_plaintext_is_one_empty_chunk() {
    let key = key_of(9);
    let blob = encrypt_file_streaming(&[], &key, |_| {}).unwrap();
    assert_eq!(blob.len(), 40 + 4 + 16);
    let header = EncryptedHeader::from_bytes(&blob).unwrap();
    assert_eq!(header.total_chunks, 1);
    assert_eq!(header.original_size, 0);
    assert_eq!(&blob[40..44], &16u32.to_le_bytes());
    assert_eq!(decrypt_blob(&blob, &key).unwrap(), Vec::<u8>::new());
}

#[test]
fn progress_reports_bytes_after_each_chunk() {
    let seen = RefCell::new(Vec::new());
    let plain = pattern(150_000);
    encrypt_file_streaming(&plain, &key_of(2), |n| seen.borrow_mut().push(n)).unwrap();
    assert_eq!(*seen.borrow(), vec![65_536, 131_072, 150_000]);
}

#[test]
fn encoding_is_fixed_by_key_and_nonce() {
    let key = key_of(5);
    let nonce = [7u8; 24];
    let a = encrypt_with_nonce(b"same input", &key, nonce, &|_| {});
    let b = encrypt_with_nonce(b"same input", &key, nonce, &|_| {});
    assert_eq!(a, b);
    assert_eq!(&a[..24], &nonce);
    let c = encrypt_with_nonce(b"same input", &key, [8u8; 24], &|_| {});
    assert_ne!(a[44..], c[44..]);
}

#[test]
fn fresh_nonce_for_every_blob() {
    let key = key_of(5);
    let a = encrypt_file_streaming(b"x", &key, |_| {}).unwrap();
    let b = encrypt_file_streaming(b"x", &key, |_| {}).unwrap();
    assert_ne!(a[..24], b[..24]);
}

#[test]
fn wrong_key_fails_with_auth_failure_on_first_chunk() {
    let blob = encrypt_file_streaming(&pattern(70_000), &key_of(1), |_| {}).unwrap();
    assert_eq!(decrypt_blob(&blob, &key_of(2)), Err(CodecError::AuthFailure(0)));
}

#[test]
fn flipped_bit_fails_the_chunk_it_is_in() {
    let key = key_of(4);
    let plain = pattern(70_000);
    let blob = encrypt_file_streaming(&plain, &key, |_| {}).unwrap();

    // first chunk: body starts at 44
    let mut first = blob.clone();
    first[44] ^= 0x01;
    assert_eq!(decrypt_blob(&first, &key), Err(CodecError::AuthFailure(0)));

    // the tag of the first chunk: its last 16 bytes
    let mut tag = blob.clone();
    tag[44 + 65_536 + 15] ^= 0x80;
    assert_eq!(decrypt_blob(&tag, &key), Err(CodecError::AuthFailure(0)));

    // second chunk: behind the first frame and its own length prefix
    let second_body = 40 + 4 + 65_536 + 16 + 4;
    let mut second = blob.clone();
    second[second_body + 100] ^= 0x10;
    assert_eq!(decrypt_blob(&second, &key), Err(CodecError::AuthFailure(1)));

    // the nonce in the header
    let mut nonce = blob.clone();
    nonce[0] ^= 0x01;
    assert_eq!(decrypt_blob(&nonce, &key), Err(CodecError::AuthFailure(0)));

    assert_eq!(decrypt_blob(&blob, &key).unwrap(), plain);
}

#[test]
fn swapped_chunks_fail_authentication() {
    let key = key_of(6);
    let blob = encrypt_file_streaming(&pattern(131_072), &key, |_| {}).unwrap();
    let frame = 4 + 65_536 + 16;
    let mut swapped = blob[..40].to_vec();
    swapped.extend_from_slice(&blob[40 + frame..40 + 2 * frame]);
    swapped.extend_from_slice(&blob[40..40 + frame]);
    assert_eq!(decrypt_blob(&swapped, &key), Err(CodecError::AuthFailure(0)));
}

#[test]
fn corrupt_frames_are_told_apart() {
    let key = key_of(7);
    let blob = encrypt_file_streaming(b"hello world", &key, |_| {}).unwrap();

    assert_eq!(
        decrypt_blob(&blob[..39], &key),
        Err(CodecError::CorruptFrame(FrameFault::TruncatedHeader))
    );
    assert_eq!(
        decrypt_blob(&[], &key),
        Err(CodecError::CorruptFrame(FrameFault::TruncatedHeader))
    );

    let mut zero = blob.clone();
    zero[24..32].copy_from_slice(&0u64.to_le_bytes());
    assert_eq!(
        decrypt_blob(&zero, &key),
        Err(CodecError::CorruptFrame(FrameFault::ZeroChunks))
    );

    assert_eq!(
        decrypt_blob(&blob[..40], &key),
        Err(CodecError::CorruptFrame(FrameFault::TruncatedChunkLength(0)))
    );
    assert_eq!(
        decrypt_blob(&blob[..43], &key),
        Err(CodecError::CorruptFrame(FrameFault::TruncatedChunkLength(0)))
    );
    assert_eq!(
        decrypt_blob(&blob[..44], &key),
        Err(CodecError::CorruptFrame(FrameFault::TruncatedChunkBody(0)))
    );
    assert_eq!(
        decrypt_blob(&blob[..blob.len() - 1], &key),
        Err(CodecError::CorruptFrame(FrameFault::TruncatedChunkBody(0)))
    );

    // the header promises a second chunk that is not there
    let mut two = blob.clone();
    two[24..32].copy_from_slice(&2u64.to_le_bytes());
    assert_eq!(
        decrypt_blob(&two, &key),
        Err(CodecError::CorruptFrame(FrameFault::TruncatedChunkLength(1)))
    );

    // a length prefix larger than what is left
    let mut long = blob.clone();
    long[40..44].copy_from_slice(&u32::MAX.to_le_bytes());
    assert_eq!(
        decrypt_blob(&long, &key),
        Err(CodecError::CorruptFrame(FrameFault::TruncatedChunkBody(0)))
    );

    // a chunk shorter than a tag cannot be opened
    let mut short = blob[..40].to_vec();
    short.extend_from_slice(&3u32.to_le_bytes());
    short.extend_from_slice(&[1, 2, 3]);
    assert_eq!(decrypt_blob(&short, &key), Err(CodecError::AuthFailure(0)));
}

#[test]
fn bytes_behind_the_last_chunk_are_ignored() {
    let key = key_of(8);
    let mut blob = encrypt_file_streaming(b"payload", &key, |_| {}).unwrap();
    blob.extend_from_slice(b"trailing");
    assert_eq!(decrypt_blob(&blob, &key).unwrap(), b"payload".to_vec());
}

#[test]
fn stream_encoder_matches_whole_buffer_encoding() {
    let key = key_of(11);
    let nonce = [3u8; 24];
    let plain = pattern(65_536 + 123);

    let mut enc = StreamEncoder::with_nonce(&key, nonce);
    assert_eq!(enc.nonce(), nonce);
    assert_eq!(enc.chunks_sealed(), 0);
    let mut body = Vec::new();
    body.extend(enc.seal_chunk(&plain[..65_536]));
    assert_eq!(enc.chunks_sealed(), 1);
    assert_eq!(enc.bytes_processed(), 65_536);
    body.extend(enc.seal_chunk(&plain[65_536..]));
    assert_eq!(enc.bytes_processed(), plain.len() as u64);
    let (tail, header) = enc.finish();
    assert!(tail.is_empty());
    assert_eq!(header.total_chunks, 2);
    assert_eq!(header.original_size, plain.len() as u64);

    let mut blob = header.to_bytes();
    blob.extend(body);
    assert_eq!(blob, encrypt_with_nonce(&plain, &key, nonce, &|_| {}));
    assert_eq!(decrypt_blob(&blob, &key).unwrap(), plain);

    let info = EncryptedFileInfo::new("/tmp/x".to_string(), &header, blob.len() as u64);
    assert_eq!(info.path, "/tmp/x");
    assert_eq!(info.total_size, blob.len() as u64);
    assert_eq!(info.original_size, plain.len() as u64);
    assert_eq!(info.total_chunks, 2);
}

#[test]
fn stream_encoder_closes_an_empty_stream_with_one_chunk() {
    let key = key_of(12);
    let enc = StreamEncoder::new(&key);
    let (tail, header) = enc.finish();
    assert_eq!(tail.len(), 20);
    assert_eq!(header.total_chunks, 1);
    assert_eq!(header.original_size, 0);
    let mut blob = header.to_bytes();
    blob.extend(tail);
    assert_eq!(decrypt_blob(&blob, &key).unwrap(), Vec::<u8>::new());
}

#[test]
fn disk_threshold_file_has_the_stated_size() {
    let key = EncryptionKey::generate();
    let len = 60 * 1024 * 1024;
    let mut plain = vec![0u8; len];
    let mut state: u64 = 0x9E37_79B9_7F4A_7C15;
    for chunk in plain.chunks_mut(8) {
        state ^= state << 13;
        state ^= state >> 7;
        state ^= state << 17;
        let bytes = state.to_le_bytes();
        chunk.copy_from_slice(&bytes[..chunk.len()]);
    }
    assert_eq!(
        deadrop::server::choose_backend(len as u64),
        deadrop::server::BackendKind::Disk
    );
    let blob = encrypt_file_streaming(&plain, &key, |_| {}).unwrap();
    assert_eq!(blob.len(), 62_914_560 + 40 + 960 * 20);
    assert_eq!(blob.len(), 62_933_800);
    assert!(decrypt_blob(&blob, &key).unwrap() == plain);
}

#[test]
fn key_text_roundtrips_and_has_43_characters() {
    let key = EncryptionKey::generate();
    let text = key.to_url_safe();
    assert_eq!(text.len(), 43);
    assert!(text.chars().all(|c| c.is_ascii_alphanumeric() || c == '-' || c == '_'));
    assert_eq!(EncryptionKey::from_url_safe(&text).unwrap().0, key.0);
}

#[test]
fn key_text_of_known_bytes() {
    assert_eq!(key_of(0).to_url_safe(), "A".repeat(43));
    assert_eq!(
        key_of(0xFF).to_url_safe(),
        format!("{}8", "_".repeat(42))
    );
    assert_eq!(EncryptionKey::from_url_safe(&"A".repeat(43)).unwrap().0, [0u8; 32]);
}

#[test]
fn key_text_of_wrong_length_or_alphabet_is_rejected() {
    // 16 bytes
    assert_eq!(
        EncryptionKey::from_url_safe("AAAAAAAAAAAAAAAAAAAAAA").err(),
        Some(KeyError::InvalidLength(16))
    );
    // 33 bytes
    assert_eq!(
        EncryptionKey::from_url_safe(&"A".repeat(44)).err(),
        Some(KeyError::InvalidLength(33))
    );
    assert_eq!(EncryptionKey::from_url_safe("").err(), Some(KeyError::InvalidLength(0)));
    // padding, the standard alphabet and stray characters are no URL-safe text
    assert_eq!(
        EncryptionKey::from_url_safe(&format!("{}=", "A".repeat(43))).err(),
        Some(KeyError::InvalidEncoding)
    );
    assert_eq!(
        EncryptionKey::from_url_safe(&format!("{}+", "A".repeat(42))).err(),
        Some(KeyError::InvalidEncoding)
    );
    assert_eq!(
        EncryptionKey::from_url_safe("not base64!").err(),
        Some(KeyError::InvalidEncoding)
    );
}

#[test]
fn generated_keys_differ() {
    assert_ne!(EncryptionKey::generate().0, EncryptionKey::generate().0);
}

#[test]
fn zeroize_clears_the_key() {
    let mut key = key_of(0x5A);
    key.zeroize();
    assert_eq!(key.0, [0u8; 32]);
}

#[test]
fn derived_key_depends_on_salt_and_is_not_the_password() {
    let a = EncryptionKey::from_password("hunter2", &[1u8; 16]).unwrap();
    let b = EncryptionKey::from_password("hunter2", &[2u8; 16]).unwrap();
    assert_ne!(a.0, b.0);
    assert_ne!(&a.0[..7], b"hunter2");
    assert!(EncryptionKey::from_password("", &[0u8; 16]).is_ok());
}

#[test]
fn password_drop_opens_with_the_password_only() {
    let salt = [9u8; 16];
    let key = EncryptionKey::from_password("hunter2", &salt).unwrap();
    let fragment = deadrop::server::key_fragment(&key, Some(&salt));
    assert!(fragment.starts_with("pw:"));
    assert_eq!(fragment.len(), 3 + 22);
    assert_eq!(fragment, "pw:CQkJCQkJCQkJCQkJCQkJCQ");

    let blob = encrypt_file_streaming(b"for your eyes only", &key, |_| {}).unwrap();
    let right = EncryptionKey::from_password("hunter2", &salt).unwrap();
    assert_eq!(decrypt_blob(&blob, &right).unwrap(), b"for your eyes only".to_vec());
    let wrong = EncryptionKey::from_password("hunter3", &salt).unwrap();
    assert_eq!(decrypt_blob(&blob, &wrong), Err(CodecError::AuthFailure(0)));
}

#[test]
fn browser_and_server_decode_each_other() {
    let key = EncryptionKey::generate();
    let text = key.to_url_safe();
    let plain = pattern(100_000);

    let from_browser = encrypt_blob(&plain, &text).unwrap();
    assert_eq!(from_browser.len(), 40 + plain.len() + 2 * 20);
    assert_eq!(decrypt_blob(&from_browser, &key).unwrap(), plain);

    let from_server = encrypt_file_streaming(&plain, &key, |_| {}).unwrap();
    assert_eq!(browser_decrypt_blob(&from_server, &text).unwrap(), plain);
}

#[test]
fn browser_blob_of_empty_input_has_one_chunk() {
    let text = key_of(1).to_url_safe();
    let blob = encrypt_blob(&[], &text).unwrap();
    assert_eq!(blob.len(), 60);
    assert_eq!(&parse_header(&blob).unwrap()[24..32], &1u64.to_le_bytes());
    assert_eq!(browser_decrypt_blob(&blob, &text).unwrap(), Vec::<u8>::new());
}

#[test]
fn browser_rejects_bad_keys() {
    let short = "AAAAAAAAAAAAAAAAAAAAAA";
    assert_eq!(
        encrypt_blob(b"x", short),
        Err(BrowserError::Key(KeyError::InvalidLength(16)))
    );
    assert_eq!(
        encrypt_blob(b"x", "***"),
        Err(BrowserError::Key(KeyError::InvalidEncoding))
    );
    let blob = encrypt_blob(b"x", &key_of(1).to_url_safe()).unwrap();
    assert_eq!(
        browser_decrypt_blob(&blob, short),
        Err(BrowserError::Key(KeyError::InvalidLength(16)))
    );
    assert_eq!(
        encrypt_chunk(b"x", "***", &[0u8; 24], 0),
        Err(BrowserError::Key(KeyError::InvalidEncoding))
    );
    assert_eq!(
        decrypt_chunk(b"x", "***", &[0u8; 24], 0),
        Err(BrowserError::Key(KeyError::InvalidEncoding))
    );
}

#[test]
fn browser_reports_short_blob_before_bad_key() {
    assert_eq!(
        browser_decrypt_blob(&[0u8; 39], "***"),
        Err(BrowserError::Codec(CodecError::CorruptFrame(FrameFault::TruncatedHeader)))
    );
    assert_eq!(
        parse_header(&[0u8; 39]),
        Err(BrowserError::Codec(CodecError::CorruptFrame(FrameFault::TruncatedHeader)))
    );
}

#[test]
fn browser_decrypt_reports_wrong_key_as_auth_failure() {
    let blob = encrypt_blob(b"secret", &key_of(1).to_url_safe()).unwrap();
    assert_eq!(
        browser_decrypt_blob(&blob, &key_of(2).to_url_safe()),
        Err(BrowserError::Codec(CodecError::AuthFailure(0)))
    );
}

#[test]
fn parse_header_returns_the_first_forty_bytes() {
    let blob = encrypt_blob(b"abc", &key_of(1).to_url_safe()).unwrap();
    assert_eq!(parse_header(&blob).unwrap(), blob[..40].to_vec());
}

#[test]
fn browser_chunks_match_the_blob_format() {
    let key = key_of(13);
    let text = key.to_url_safe();
    let nonce = [5u8; 24];
    let plain = pattern(65_536 + 10);
    let blob = encrypt_with_nonce(&plain, &key, nonce, &|_| {});

    let first = encrypt_chunk(&plain[..65_536], &text, &nonce, 0).unwrap();
    let second = encrypt_chunk(&plain[65_536..], &text, &nonce, 1).unwrap();
    assert_eq!(first.len(), 65_536 + 16);
    assert_eq!(&blob[44..44 + first.len()], first.as_slice());
    assert_eq!(&blob[44 + first.len() + 4..], second.as_slice());

    assert_eq!(decrypt_chunk(&first, &text, &nonce, 0).unwrap(), plain[..65_536].to_vec());
    assert_eq!(decrypt_chunk(&second, &text, &nonce, 1).unwrap(), plain[65_536..].to_vec());
    // a chunk opens under its own index only
    assert_eq!(
        decrypt_chunk(&second, &text, &nonce, 0),
        Err(BrowserError::Codec(CodecError::AuthFailure(0)))
    );
    // bytes of the nonce behind the first 24 are not used
    let mut long = nonce.to_vec();
    long.extend_from_slice(b"ignored");
    assert_eq!(encrypt_chunk(b"x", &text, &long, 3), encrypt_chunk(b"x", &text, &nonce, 3));
}

#[test]
fn browser_chunks_need_a_whole_nonce() {
    let text = key_of(1).to_url_safe();
    assert_eq!(encrypt_chunk(b"x", &text, &[0u8; 23], 0), Err(BrowserError::ShortNonce(23)));
    assert_eq!(decrypt_chunk(b"x", &text, &[], 0), Err(BrowserError::ShortNonce(0)));
}
