use deadrop::browser::encrypt_blob;
use deadrop::crypto::{
    decrypt_blob, encrypt_file_streaming, CodecError, EncryptionKey, FrameFault,
};
use deadrop::receive::{
    decrypt_uploaded_blob, receive_upload, sanitize_filename, upload_filename, ReceiveState,
    UploadError, WsFrame, WsStep, WsUpload, SHUTDOWN_DELAY_SECS,
};
use deadrop::server::{
    check_pin, choose_backend, download_url, drop_id_from, finish_download, guess_mime,
    is_tunnel_request, jitter_millis, key_fragment, new_drop_id, not_found_delay_millis,
    receive_url, resolve_client_ip, serve_blob, serve_meta, ws_frames, ws_start_message,
    AppState, BackendKind, MetaReply, Peer, PinVerdict, ServeError, BURNED_BODY, DISK_THRESHOLD,
    DRAIN_GRACE_SECS, REAP_INTERVAL_SECS, WS_DONE_MESSAGE, WS_FRAME_SIZE,
};
use deadrop::store::{Backing, BlobStore, Drop};

const HOUR: i64 = 3_600_000;

fn peer(ip: &str) -> Peer {
    Peer { ip: ip.to_string(), is_loopback: false, cf_connecting_ip: None, x_forwarded_for: None }
}

fn front(client: &str) -> Peer {
    Peer {
        ip: "127.0.0.1".to_string(),
        is_loopback: true,
        cf_connecting_ip: Some(client.to_string()),
        x_forwarded_for: None,
    }
}

fn store_with(id: &str, blob: Vec<u8>, max_downloads: u32) -> BlobStore {
    let mut store = BlobStore::new();
    let size = blob.len() as u64;
    store
        .insert(Drop::new(
            id.to_string(),
            Backing::memory(blob),
            size,
            "hello.txt".to_string(),
            "text/plain".to_string(),
            11,
            0,
            HOUR,
            max_downloads,
            false,
        ))
        .unwrap();
    store
}

fn payload(backing: &Backing) -> Vec<u8> {
    match backing {
        Backing::Memory(bytes) => bytes.as_ref().clone(),
        Backing::Disk(_) => panic!("expected a buffer"),
    }
}

#[test]
fn small_file_one_download() {
    let key = EncryptionKey::generate();
    let blob = encrypt_file_streaming(b"hello world", &key, |_| {}).unwrap();
    let fragment = key_fragment(&key, None);
    assert_eq!(fragment.len(), 43);
    let mut state = AppState { store: store_with("0011223344556677", blob.clone(), 1) };

    let delivery = serve_blob(&mut state.store, "0011223344556677", &peer("192.168.1.20")).unwrap();
    assert_eq!(delivery.count, 1);
    assert_eq!(delivery.max_downloads, 1);
    assert!(delivery.should_delete);
    assert_eq!(delivery.encrypted_size, blob.len() as u64);
    assert_eq!(delivery.encrypted_size, 71);
    let recipient_key = EncryptionKey::from_url_safe(&fragment).unwrap();
    assert_eq!(
        decrypt_blob(&payload(&delivery.backing), &recipient_key).unwrap(),
        b"hello world".to_vec()
    );

    // a second GET, even within the grace window, is answered with 410
    let second = serve_blob(&mut state.store, "0011223344556677", &peer("192.168.1.20"));
    assert_eq!(second.err(), Some(ServeError::Burned));
    assert_eq!(ServeError::Burned.status(), 410);

    // after the grace period the drop is destroyed and the service shuts down
    assert_eq!(DRAIN_GRACE_SECS, 5);
    let (removed, shutdown) = finish_download(&mut state.store, "0011223344556677");
    assert_eq!(removed.unwrap().id, "0011223344556677");
    assert!(shutdown);
    assert_eq!(
        serve_blob(&mut state.store, "0011223344556677", &peer("192.168.1.20")).err(),
        Some(ServeError::Burned)
    );
}

#[test]
fn unknown_id_is_not_found() {
    let mut store = BlobStore::new();
    assert_eq!(serve_blob(&mut store, "nope", &peer("1.1.1.1")).err(), Some(ServeError::NotFound));
    assert_eq!(ServeError::NotFound.status(), 404);
    assert_eq!(ServeError::Forbidden.status(), 403);
    assert!(matches!(serve_meta(&store, "nope"), MetaReply::NotFound));
}

#[test]
fn ip_pin_first_client_wins() {
    let mut store = store_with("pinned", vec![0; 4], 0);
    assert!(serve_blob(&mut store, "pinned", &peer("10.0.0.1")).is_ok());
    assert_eq!(store.get("pinned").unwrap().pinned_ip.as_deref(), Some("10.0.0.1"));

    assert_eq!(
        serve_blob(&mut store, "pinned", &peer("10.0.0.2")).err(),
        Some(ServeError::Forbidden)
    );
    // the refused request is not counted and does not move the pin
    let drop = store.get("pinned").unwrap();
    assert_eq!(drop.download_count, 1);
    assert_eq!(drop.pinned_ip.as_deref(), Some("10.0.0.1"));

    let again = serve_blob(&mut store, "pinned", &peer("10.0.0.1")).unwrap();
    assert_eq!(again.count, 2);
    assert!(!again.should_delete);
}

#[test]
fn ip_pin_exactly_one_of_two_clients_succeeds() {
    for (first, second) in [("10.0.0.1", "10.0.0.2"), ("10.0.0.2", "10.0.0.1")] {
        let mut store = store_with("race", vec![0; 4], 0);
        let a = serve_blob(&mut store, "race", &peer(first));
        let b = serve_blob(&mut store, "race", &peer(second));
        assert!(a.is_ok());
        assert_eq!(b.err(), Some(ServeError::Forbidden));
    }
}

#[test]
fn trusted_front_bypasses_the_pin() {
    let mut store = store_with("tunnel", vec![0; 4], 0);
    assert!(serve_blob(&mut store, "tunnel", &front("203.0.113.5")).is_ok());
    assert_eq!(store.get("tunnel").unwrap().pinned_ip.as_deref(), Some("203.0.113.5"));
    // another client through the front is admitted and the pin stays
    assert!(serve_blob(&mut store, "tunnel", &front("198.51.100.7")).is_ok());
    assert_eq!(store.get("tunnel").unwrap().pinned_ip.as_deref(), Some("203.0.113.5"));
    assert_eq!(store.get("tunnel").unwrap().download_count, 2);
    // without the front the other client is refused
    assert_eq!(
        serve_blob(&mut store, "tunnel", &peer("198.51.100.7")).err(),
        Some(ServeError::Forbidden)
    );
}

#[test]
fn forwarded_header_is_believed_from_loopback_only() {
    let mut outside = peer("198.51.100.9");
    outside.cf_connecting_ip = Some("10.0.0.1".to_string());
    outside.x_forwarded_for = Some("10.0.0.1".to_string());
    assert_eq!(resolve_client_ip(&outside), "198.51.100.9");
    assert!(!is_tunnel_request(&outside));

    assert_eq!(resolve_client_ip(&front("203.0.113.5")), "203.0.113.5");
    assert!(is_tunnel_request(&front("203.0.113.5")));
}

#[test]
fn client_ip_is_the_first_hop_trimmed() {
    let mut p = peer("127.0.0.1");
    p.is_loopback = true;
    assert_eq!(resolve_client_ip(&p), "127.0.0.1");
    assert!(!is_tunnel_request(&p));

    p.x_forwarded_for = Some("  203.0.113.5 , 10.0.0.1, 10.0.0.2".to_string());
    assert_eq!(resolve_client_ip(&p), "203.0.113.5");
    // the list of forwarders alone does not make a request one of the front
    assert!(!is_tunnel_request(&p));

    p.x_forwarded_for = Some("\t198.51.100.1\u{a0}".to_string());
    assert_eq!(resolve_client_ip(&p), "198.51.100.1");

    // the header of the front goes before the list
    p.cf_connecting_ip = Some("192.0.2.1".to_string());
    assert_eq!(resolve_client_ip(&p), "192.0.2.1");

    // a header that names nobody falls back to the peer
    p.cf_connecting_ip = Some("  ,10.0.0.1".to_string());
    assert_eq!(resolve_client_ip(&p), "127.0.0.1");
    p.cf_connecting_ip = Some(String::new());
    assert_eq!(resolve_client_ip(&p), "127.0.0.1");
}

#[test]
fn pin_policy_by_cases() {
    assert_eq!(check_pin(&None, "a", false), PinVerdict::Install);
    assert_eq!(check_pin(&None, "a", true), PinVerdict::Install);
    assert_eq!(check_pin(&Some("a".to_string()), "a", false), PinVerdict::Admit);
    assert_eq!(check_pin(&Some("a".to_string()), "b", true), PinVerdict::Admit);
    assert_eq!(check_pin(&Some("a".to_string()), "b", false), PinVerdict::Refuse);
    assert_eq!(check_pin(&Some("a".to_string()), "A", false), PinVerdict::Refuse);
}

#[test]
fn meta_of_a_live_drop() {
    let mut store = BlobStore::new();
    store
        .insert(Drop::new(
            "m".to_string(),
            Backing::disk("/tmp/m".to_string()),
            2_000,
            "report.pdf".to_string(),
            "application/pdf".to_string(),
            1_536,
            0,
            86_400_000,
            3,
            true,
        ))
        .unwrap();
    let MetaReply::Live(meta) = serve_meta(&store, "m") else { panic!("expected a live drop") };
    assert_eq!(meta.filename, "report.pdf");
    assert_eq!(meta.size_bytes, 1_536);
    assert_eq!(meta.size_human, bytesize::ByteSize::b(1_536).to_string());
    assert_ne!(meta.size_human, "1536");
    assert!(meta.size_human.starts_with("1.5"));
    assert_eq!(meta.mime, "application/pdf");
    assert_eq!(meta.expires_at, 86_400_000);
    assert_eq!(meta.expires_at_text.as_deref(), Some("1970-01-02T00:00:00+00:00"));
    assert_eq!(meta.downloads_remaining, Some(3));
    assert_eq!(meta.downloads_remaining_text(), "3");
    assert!(meta.has_password);

    serve_blob(&mut store, "m", &peer("1.2.3.4")).unwrap();
    let MetaReply::Live(meta) = serve_meta(&store, "m") else { panic!("expected a live drop") };
    assert_eq!(meta.downloads_remaining, Some(2));
}

#[test]
fn meta_of_unlimited_drop_has_no_count() {
    let store = store_with("u", vec![], 0);
    let MetaReply::Live(meta) = serve_meta(&store, "u") else { panic!("expected a live drop") };
    assert_eq!(meta.downloads_remaining, None);
    assert_eq!(meta.downloads_remaining_text(), "unlimited");
    assert!(!meta.has_password);
}

#[test]
fn meta_time_out_of_the_calendar_has_no_text() {
    let mut store = BlobStore::new();
    store
        .insert(Drop::new(
            "far".to_string(),
            Backing::memory(vec![]),
            0,
            "f".to_string(),
            "m".to_string(),
            0,
            i64::MAX,
            0,
            0,
            false,
        ))
        .unwrap();
    let MetaReply::Live(meta) = serve_meta(&store, "far") else { panic!("expected a live drop") };
    assert_eq!(meta.expires_at, i64::MAX);
    assert_eq!(meta.expires_at_text, None);
}

#[test]
fn tombstone_visibility() {
    let mut store = store_with("t", vec![0; 4], 1);
    assert!(serve_blob(&mut store, "t", &peer("1.2.3.4")).unwrap().should_delete);
    store.remove_at("t", 1_000);
    assert!(matches!(serve_meta(&store, "t"), MetaReply::Burned));
    store.reap_at(1_000 + HOUR - 1);
    assert!(matches!(serve_meta(&store, "t"), MetaReply::Burned));
    store.reap_at(1_000 + HOUR);
    assert!(matches!(serve_meta(&store, "t"), MetaReply::NotFound));
    assert_eq!(REAP_INTERVAL_SECS, 5);
}

#[test]
fn finish_download_signals_shutdown_when_the_store_is_empty() {
    let mut store = store_with("a", vec![], 1);
    store
        .insert(Drop::new(
            "b".to_string(),
            Backing::memory(vec![]),
            0,
            "f".to_string(),
            "m".to_string(),
            0,
            0,
            HOUR,
            1,
            false,
        ))
        .unwrap();
    let (removed, shutdown) = finish_download(&mut store, "a");
    assert!(removed.is_some());
    assert!(!shutdown);
    let (removed, shutdown) = finish_download(&mut store, "missing");
    assert!(removed.is_none());
    assert!(!shutdown);
    let (removed, shutdown) = finish_download(&mut store, "b");
    assert!(removed.is_some());
    assert!(shutdown);
}

#[test]
fn backend_is_chosen_by_the_threshold() {
    assert_eq!(DISK_THRESHOLD, 50 * 1024 * 1024);
    assert_eq!(choose_backend(0), BackendKind::Memory);
    assert_eq!(choose_backend(DISK_THRESHOLD), BackendKind::Memory);
    assert_eq!(choose_backend(DISK_THRESHOLD + 1), BackendKind::Disk);
    assert_eq!(choose_backend(u64::MAX), BackendKind::Disk);
}

#[test]
fn jitter_is_between_50_and_199() {
    assert_eq!(jitter_millis(0), 50);
    assert_eq!(jitter_millis(149), 199);
    assert_eq!(jitter_millis(150), 50);
    assert_eq!(jitter_millis(u64::MAX), 50 + u64::MAX % 150);
    let mut seen = std::collections::HashSet::new();
    for _ in 0..200 {
        let d = not_found_delay_millis();
        assert!((50..200).contains(&d));
        seen.insert(d);
    }
    assert!(seen.len() > 1);
}

#[test]
fn drop_ids_have_sixteen_hex_digits() {
    let a = new_drop_id();
    let b = new_drop_id();
    assert_eq!(a.len(), 16);
    assert!(a.chars().all(|c| c.is_ascii_digit() || ('a'..='f').contains(&c)));
    assert_ne!(a, b);
    assert_eq!(
        drop_id_from("0123456789abcdef0123456789abcdef", "fedcba9876543210fedcba9876543210"),
        "01234567fedcba98"
    );
    assert_eq!(drop_id_from("abc", "0123456789"), "abc01234567");
}

#[test]
fn links_carry_the_key_in_the_fragment() {
    assert_eq!(
        download_url("192.168.1.5", 8080, "0011223344556677", "KEY"),
        "http://192.168.1.5:8080/d/0011223344556677#KEY"
    );
    assert_eq!(download_url("localhost", 0, "i", ""), "http://localhost:0/d/i#");
    assert_eq!(download_url("h", 65_535, "i", "f"), "http://h:65535/d/i#f");
    assert_eq!(receive_url("10.0.0.3", 9000, "KEY"), "http://10.0.0.3:9000/#KEY");
    assert_eq!(receive_url("h", 7, "f"), "http://h:7/#f");

    let key = EncryptionKey([0u8; 32]);
    assert_eq!(key_fragment(&key, None), "A".repeat(43));
    assert_eq!(key_fragment(&key, Some(&[0u8; 16])), format!("pw:{}", "A".repeat(22)));
}

#[test]
fn mime_is_guessed_from_the_extension() {
    assert_eq!(guess_mime("photo.png"), "image/png");
    assert_eq!(guess_mime("PHOTO.PNG"), "image/png");
    assert_eq!(guess_mime("notes.txt"), "text/plain");
    assert_eq!(guess_mime("archive.tar.gz"), mime_guess::from_path("archive.tar.gz").first_or_octet_stream().to_string());
    assert_eq!(guess_mime("README"), "application/octet-stream");
    assert_eq!(guess_mime(".png"), "application/octet-stream");
    assert_eq!(guess_mime(".hidden.png"), "image/png");
    assert_eq!(guess_mime("trailing."), "application/octet-stream");
    assert_eq!(guess_mime(""), "application/octet-stream");
    assert_eq!(guess_mime("x.unknownext"), "application/octet-stream");
}

#[test]
fn ws_frames_cut_the_blob_in_64_kib_pieces() {
    assert_eq!(WS_FRAME_SIZE, 65_536);
    assert!(ws_frames(&[]).is_empty());
    let data: Vec<u8> = (0..150_000usize).map(|i| i as u8).collect();
    let frames = ws_frames(&data);
    assert_eq!(frames.iter().map(|f| f.len()).collect::<Vec<_>>(), vec![65_536, 65_536, 18_928]);
    assert_eq!(frames.concat(), data);
    assert_eq!(ws_frames(&data[..65_536]).len(), 1);
    assert_eq!(ws_frames(&data[..65_537]).len(), 2);
    assert_eq!(ws_frames(&data[..1])[0], &data[..1]);
}

#[test]
fn filenames_are_sanitized() {
    assert_eq!(sanitize_filename("report.pdf"), "report.pdf");
    assert_eq!(sanitize_filename("../../etc/passwd"), "etcpasswd");
    assert_eq!(sanitize_filename("..\\..\\boot.ini"), "boot.ini");
    assert_eq!(sanitize_filename("a/b\\c"), "abc");
    assert_eq!(sanitize_filename("..."), ".");
    assert_eq!(sanitize_filename("...."), "received_file");
    assert_eq!(sanitize_filename(""), "received_file");
    assert_eq!(sanitize_filename("../"), "received_file");
    assert_eq!(sanitize_filename("/\\/"), "received_file");
    assert_eq!(sanitize_filename("naïve ünïcode.txt"), "naïve ünïcode.txt");
    // pairs of dots are removed before the separators are
    assert_eq!(sanitize_filename("./."), "..");
}

#[test]
fn upload_filename_is_decoded_and_sanitized() {
    assert_eq!(upload_filename(None), "received_file");
    assert_eq!(upload_filename(Some("my%20file.txt")), "my file.txt");
    assert_eq!(upload_filename(Some("plain.txt")), "plain.txt");
    assert_eq!(upload_filename(Some("%2E%2E%2Fsecret")), "secret");
    assert_eq!(upload_filename(Some("caf%C3%A9.txt")), "café.txt");
    // not UTF-8 once decoded
    assert_eq!(upload_filename(Some("%FF%FE")), "received_file");
    assert_eq!(upload_filename(Some("")), "received_file");
    assert_eq!(upload_filename(Some("100%")), "100%");
}

#[test]
fn receive_path_takes_one_upload() {
    let key = EncryptionKey::generate();
    let plain: Vec<u8> = (0..1_048_576usize).map(|i| (i % 251) as u8).collect();
    let blob = encrypt_blob(&plain, &key.to_url_safe()).unwrap();
    let mut state = ReceiveState::new(EncryptionKey(key.0), "/tmp/out".to_string());
    assert!(state.check_open().is_ok());

    let upload = receive_upload(&state, Some("..%2Fholiday%20photo.jpg"), &blob).unwrap();
    assert_eq!(upload.filename, "holiday photo.jpg");
    assert!(upload.plaintext == plain);
    assert_eq!(state.output_dir, "/tmp/out");

    state.mark_received();
    assert!(state.received);
    assert_eq!(state.check_open(), Err(UploadError::Gone));
    assert_eq!(receive_upload(&state, Some("again.jpg"), &blob).err(), Some(UploadError::Gone));
    assert_eq!(SHUTDOWN_DELAY_SECS, 2);
}

#[test]
fn upload_that_does_not_decrypt_is_refused() {
    let state = ReceiveState::new(EncryptionKey([1u8; 32]), ".".to_string());
    let blob = encrypt_file_streaming(b"data", &EncryptionKey([2u8; 32]), |_| {}).unwrap();
    assert_eq!(
        receive_upload(&state, None, &blob).err(),
        Some(UploadError::DecryptionFailed(CodecError::AuthFailure(0)))
    );
    assert_eq!(
        receive_upload(&state, None, b"short").err(),
        Some(UploadError::DecryptionFailed(CodecError::CorruptFrame(FrameFault::TruncatedHeader)))
    );
    // a failed upload does not close the service
    assert!(!state.received);
    assert_eq!(
        decrypt_uploaded_blob(b"short", &state.key),
        Err(CodecError::CorruptFrame(FrameFault::TruncatedHeader))
    );
}

#[test]
fn websocket_upload_is_put_together_from_frames() {
    let key = EncryptionKey::generate();
    let plain = b"sent in pieces".to_vec();
    let blob = encrypt_file_streaming(&plain, &key, |_| {}).unwrap();
    let state = ReceiveState::new(EncryptionKey(key.0), ".".to_string());

    let mut upload = WsUpload::new();
    assert_eq!(upload.filename, "received_file");
    // data before the start frame is dropped
    assert_eq!(upload.on_frame(WsFrame::Binary(b"early")), Ok(WsStep::Continue));
    assert!(upload.data.is_empty());
    assert_eq!(
        upload.on_frame(WsFrame::Text(r#"{"type":"start","filename":"../notes.txt","size":54}"#)),
        Ok(WsStep::Continue)
    );
    assert!(upload.started);
    assert_eq!(upload.filename, "notes.txt");
    // fragments need not align to chunks
    assert_eq!(upload.on_frame(WsFrame::Binary(&blob[..7])), Ok(WsStep::Continue));
    assert_eq!(upload.on_frame(WsFrame::Other), Ok(WsStep::Continue));
    assert_eq!(upload.on_frame(WsFrame::Text(r#"{"type":"noise"}"#)), Ok(WsStep::Continue));
    assert_eq!(upload.on_frame(WsFrame::Text("[1,2]")), Ok(WsStep::Continue));
    assert_eq!(upload.on_frame(WsFrame::Binary(&blob[7..])), Ok(WsStep::Continue));
    assert_eq!(upload.on_frame(WsFrame::Text(r#"{"type":"done"}"#)), Ok(WsStep::Finish));

    let accepted = upload.finish(&state).unwrap();
    assert_eq!(accepted.filename, "notes.txt");
    assert_eq!(accepted.plaintext, plain);
}

#[test]
fn websocket_upload_keeps_default_name_and_ends_on_close() {
    let key = EncryptionKey([3u8; 32]);
    let blob = encrypt_file_streaming(b"x", &key, |_| {}).unwrap();
    let state = ReceiveState::new(EncryptionKey(key.0), ".".to_string());
    let mut upload = WsUpload::new();
    assert_eq!(upload.on_frame(WsFrame::Text(r#"{"type":"start"}"#)), Ok(WsStep::Continue));
    assert_eq!(upload.filename, "received_file");
    upload.on_frame(WsFrame::Binary(&blob)).unwrap();
    // a name that sanitizes to nothing falls back as well
    assert_eq!(
        upload.on_frame(WsFrame::Text(r#"{"type":"start","filename":"../.."}"#)),
        Ok(WsStep::Continue)
    );
    assert_eq!(upload.filename, "received_file");
    assert_eq!(upload.on_frame(WsFrame::Close), Ok(WsStep::Finish));
    assert_eq!(upload.finish(&state).unwrap().plaintext, b"x".to_vec());
}

#[test]
fn websocket_upload_errors() {
    let state = ReceiveState::new(EncryptionKey([3u8; 32]), ".".to_string());

    let mut bad = WsUpload::new();
    assert_eq!(bad.on_frame(WsFrame::Text("not json")), Err(UploadError::BadControlFrame));
    assert!(!bad.started);

    assert_eq!(WsUpload::new().finish(&state).err(), Some(UploadError::NoData));

    let mut garbage = WsUpload::new();
    garbage.on_frame(WsFrame::Text(r#"{"type":"start"}"#)).unwrap();
    garbage.on_frame(WsFrame::Binary(&[0u8; 10])).unwrap();
    assert_eq!(
        garbage.finish(&state).err(),
        Some(UploadError::DecryptionFailed(CodecError::CorruptFrame(FrameFault::TruncatedHeader)))
    );
}

#[test]
fn websocket_download_is_opened_and_closed_with_json() {
    assert_eq!(ws_start_message(71), r#"{"type":"start","encrypted_size":71}"#);
    assert_eq!(ws_start_message(0), r#"{"type":"start","encrypted_size":0}"#);
    assert_eq!(
        ws_start_message(u64::MAX),
        r#"{"type":"start","encrypted_size":18446744073709551615}"#
    );
    let parsed: serde_json::Value = serde_json::from_str(&ws_start_message(62_933_800)).unwrap();
    assert_eq!(parsed["type"].as_str(), Some("start"));
    assert_eq!(parsed["encrypted_size"].as_u64(), Some(62_933_800));
    assert_eq!(WS_DONE_MESSAGE, r#"{"type":"done"}"#);
    assert_eq!(BURNED_BODY, r#"{"burned":true}"#);
}

#[test]
fn security_headers_have_their_values() {
    assert_eq!(deadrop::server::X_FRAME_OPTIONS, "DENY");
    assert_eq!(deadrop::server::X_CONTENT_TYPE_OPTIONS, "nosniff");
    assert_eq!(deadrop::server::REFERRER_POLICY, "no-referrer");
    assert_eq!(
        deadrop::server::PERMISSIONS_POLICY,
        "camera=(), microphone=(), geolocation=()"
    );
    assert_eq!(deadrop::server::CACHE_CONTROL, "no-store, no-cache, must-revalidate");
    assert_eq!(deadrop::server::PRAGMA, "no-cache");
    let csp = deadrop::server::CONTENT_SECURITY_POLICY;
    assert!(csp.contains("default-src 'self'"));
    assert!(csp.contains("'wasm-unsafe-eval'"));
    assert!(csp.contains("img-src 'self' data:"));
    assert_eq!(deadrop::server::RATE_PER_SECOND, 2);
    assert_eq!(deadrop::server::RATE_BURST, 5);
}
