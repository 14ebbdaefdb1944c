use aes_gcm::aead::{Aead, KeyInit, Payload};
use aes_gcm::{Aes256Gcm, Key, Nonce};

use lima::crypto::{
    decrypt_ler, ler_from_plaintext, parse_ler, reconstruct_lf, CryptoError, Ler, LER_LEN,
    LF_CIPHER_LEN, LF_FULL_LEN, LF_STRIPPED_LEN, PLAINTEXT_LEN,
};
use lima::display::AppState;
use lima::frames::RawFrame;
use lima::wire::LimaPayload;

/// Build a valid 182B stripped blob by encrypting a known LER.
fn make_test_blob(ler: &Ler) -> (Vec<u8>, [u8; 32]) {
    let key_bytes = [0x42u8; 32];
    let nonce_bytes = [0x01u8; 12];

    let mut ler_bytes = [0u8; LER_LEN];
    ler_bytes[0..6].copy_from_slice(&ler.node_id);
    ler_bytes[6] = ler.event_type;
    ler_bytes[7] = 0x00;
    ler_bytes[8..12].copy_from_slice(&ler.sequence.to_le_bytes());
    ler_bytes[12..16].copy_from_slice(&ler.timestamp_ms.to_le_bytes());
    ler_bytes[16..20].copy_from_slice(&f32::from_bits(ler.accel_g_bits).to_le_bytes());
    ler_bytes[20..24].copy_from_slice(&f32::from_bits(ler.delta_pa_bits).to_le_bytes());

    let mut plaintext = [0u8; PLAINTEXT_LEN];
    plaintext[..LER_LEN].copy_from_slice(&ler_bytes);

    let aad = [0x02u8, ler.event_type, 0x00, 0x00];

    let cipher = Aes256Gcm::new(Key::<Aes256Gcm>::from_slice(&key_bytes));
    let nonce = Nonce::from_slice(&nonce_bytes);
    let ct_with_tag = cipher
        .encrypt(nonce, Payload { msg: &plaintext, aad: &aad })
        .unwrap();

    let ciphertext = &ct_with_tag[..LF_CIPHER_LEN];
    let tag = &ct_with_tag[LF_CIPHER_LEN..];

    let mut lf = [0u8; LF_FULL_LEN];
    lf[0] = 0x02;
    lf[1] = ler.event_type;
    lf[2..4].copy_from_slice(&[0x00, 0x00]);
    lf[4..16].copy_from_slice(&nonce_bytes);
    lf[16..104].copy_from_slice(ciphertext);
    lf[104..120].copy_from_slice(tag);

    let blob = lf[2..].to_vec();
    (blob, key_bytes)
}

fn test_ler() -> Ler {
    Ler {
        node_id: [0xAA, 0xBB, 0xCC, 0xDD, 0xEE, 0xFF],
        event_type: 0x01,
        sequence: 42,
        timestamp_ms: 1_700_000_000,
        accel_g_bits: 1.23f32.to_bits(),
        delta_pa_bits: (-0.45f32).to_bits(),
    }
}

// ── reconstruct_lf ───────────────────────────────────────────────────────────

#[test]
fn test_reconstruct_lf_correct_length() {
    let stripped = vec![0u8; LF_STRIPPED_LEN];
    let full = reconstruct_lf(&stripped, 0x01).unwrap();
    assert_eq!(full.len(), LF_FULL_LEN);
}

#[test]
fn test_reconstruct_lf_proto_version() {
    let stripped = vec![0u8; LF_STRIPPED_LEN];
    let full = reconstruct_lf(&stripped, 0x01).unwrap();
    assert_eq!(full[0], 0x02);
}

#[test]
fn test_reconstruct_lf_rejects_wrong_length() {
    let short = vec![0u8; 100];
    assert!(reconstruct_lf(&short, 0x01).is_err());

    let long = vec![0u8; 200];
    assert!(reconstruct_lf(&long, 0x01).is_err());
}

#[test]
fn test_reconstruct_lf_preserves_payload() {
    let mut stripped = vec![0u8; LF_STRIPPED_LEN];
    stripped[2] = 0xAB;

    let full = reconstruct_lf(&stripped, 0x05).unwrap();
    assert_eq!(full[1], 0x05);
    assert_eq!(full[4], 0xAB);
}

#[test]
fn reconstruct_lf_reports_the_blob_length() {
    assert_eq!(
        reconstruct_lf(&[0u8; 100], 0x01).unwrap_err(),
        CryptoError::BlobLength { got: 100 }
    );
    let stripped: Vec<u8> = (0..182).map(|i| i as u8).collect();
    let full = reconstruct_lf(&stripped, 0x09).unwrap();
    assert_eq!(&full[2..], stripped.as_slice());
}

// ── parse_ler ────────────────────────────────────────────────────────────────

#[test]
fn test_parse_ler_round_trip() {
    let expected_ler = test_ler();
    let mut bytes = [0u8; LER_LEN];
    bytes[0..6].copy_from_slice(&expected_ler.node_id);
    bytes[6] = expected_ler.event_type;
    bytes[7] = 0x00;
    bytes[8..12].copy_from_slice(&expected_ler.sequence.to_le_bytes());
    bytes[12..16].copy_from_slice(&expected_ler.timestamp_ms.to_le_bytes());
    bytes[16..20].copy_from_slice(&1.23f32.to_le_bytes());
    bytes[20..24].copy_from_slice(&(-0.45f32).to_le_bytes());

    let parsed = parse_ler(&bytes).unwrap();
    assert_eq!(parsed, expected_ler);
}

#[test]
fn test_parse_ler_rejects_wrong_length() {
    assert!(parse_ler(&[0u8; 23]).is_err());
    assert!(parse_ler(&[0u8; 25]).is_err());
}

#[test]
fn test_parse_ler_little_endian_sequence() {
    let mut bytes = [0u8; LER_LEN];
    bytes[8..12].copy_from_slice(&[0x04, 0x03, 0x02, 0x01]);
    let parsed = parse_ler(&bytes).unwrap();
    assert_eq!(parsed.sequence, 0x01020304);
}

#[test]
fn parse_ler_reads_every_field() {
    let bytes: Vec<u8> = (1..=24).collect();
    let l = parse_ler(&bytes).unwrap();
    assert_eq!(l.node_id, [1, 2, 3, 4, 5, 6]);
    assert_eq!(l.event_type, 7);
    assert_eq!(l.sequence, 0x0C0B0A09);
    assert_eq!(l.timestamp_ms, 0x100F0E0D);
    assert_eq!(l.accel_g_bits, 0x14131211);
    assert_eq!(l.delta_pa_bits, 0x18171615);
    assert_eq!(parse_ler(&[0u8; 23]).unwrap_err(), CryptoError::LerLength);
}

#[test]
fn parse_ler_of_serialized_payload_keeps_fields() {
    let p = LimaPayload {
        node_id: [0xE3, 0x79, 0x63, 0x12, 0xEF, 0xB1],
        event_type: 0x03,
        reserved: 0x77,
        sequence: 0xDEADBEEF,
        timestamp_ms: 123_456,
        accel_g_bits: 2.5f32.to_bits(),
        delta_pa_bits: (-12.75f32).to_bits(),
    };
    let l = parse_ler(&p.to_bytes()).unwrap();
    assert_eq!(l.node_id, p.node_id);
    assert_eq!(l.event_type, p.event_type);
    assert_eq!(l.sequence, p.sequence);
    assert_eq!(l.timestamp_ms, p.timestamp_ms);
    assert_eq!(f32::from_bits(l.accel_g_bits), 2.5);
    assert_eq!(f32::from_bits(l.delta_pa_bits), -12.75);
}

#[test]
fn ler_from_plaintext_checks_length() {
    assert_eq!(
        ler_from_plaintext(&[0u8; 87]).unwrap_err(),
        CryptoError::PlaintextLength { got: 87 }
    );
    let mut p = [0u8; 88];
    p[6] = 4;
    p[8] = 1;
    let l = ler_from_plaintext(&p).unwrap();
    assert_eq!(l.event_type, 4);
    assert_eq!(l.sequence, 1);
}

// ── decrypt_ler ──────────────────────────────────────────────────────────────

#[test]
fn test_decrypt_ler_round_trip() {
    let expected_ler = test_ler();
    let (blob, key) = make_test_blob(&expected_ler);

    let decrypted = decrypt_ler(&blob, 0x01, &key).unwrap();
    assert_eq!(decrypted, expected_ler);
}

#[test]
fn test_decrypt_ler_wrong_key_fails() {
    let (blob, _) = make_test_blob(&test_ler());
    let wrong_key = [0xFFu8; 32];

    let result = decrypt_ler(&blob, 0x01, &wrong_key);
    assert!(result.is_err());
}

#[test]
fn test_decrypt_ler_corrupted_ciphertext_fails() {
    let (mut blob, key) = make_test_blob(&test_ler());
    blob[20] ^= 0xFF;

    let result = decrypt_ler(&blob, 0x01, &key);
    assert!(result.is_err());
}

#[test]
fn test_decrypt_ler_corrupted_tag_fails() {
    let (mut blob, key) = make_test_blob(&test_ler());
    blob[110] ^= 0xFF;

    let result = decrypt_ler(&blob, 0x01, &key);
    assert!(result.is_err());
}

#[test]
fn test_decrypt_ler_wrong_blob_length_fails() {
    let key = [0x42u8; 32];
    assert!(decrypt_ler(&[0u8; 100], 0x01, &key).is_err());
    assert!(decrypt_ler(&[0u8; 184], 0x01, &key).is_err());
}

#[test]
fn decrypt_ler_errors_name_the_cause() {
    let (blob, key) = make_test_blob(&test_ler());
    // The event type is authenticated as associated data.
    assert_eq!(
        decrypt_ler(&blob, 0x02, &key).unwrap_err(),
        CryptoError::DecryptFailed
    );
    assert_eq!(
        decrypt_ler(&blob, 0x01, &[0xFFu8; 32]).unwrap_err(),
        CryptoError::DecryptFailed
    );
    assert_eq!(
        decrypt_ler(&[0u8; 184], 0x01, &key).unwrap_err(),
        CryptoError::BlobLength { got: 184 }
    );
}

#[test]
fn crypto_error_messages() {
    assert_eq!(
        CryptoError::BlobLength { got: 100 }.message(),
        "expected 182B stripped blob, got 100B"
    );
    assert_eq!(
        CryptoError::DecryptFailed.message(),
        "AES-256-GCM decrypt failed — wrong key or corrupted frame"
    );
    assert_eq!(
        CryptoError::PlaintextLength { got: 0 }.message(),
        "unexpected plaintext length: expected 88B, got 0B"
    );
    assert_eq!(CryptoError::LerLength.message(), "LER must be 24 bytes");
}

fn raw_frame(rowid: i64, blob: Vec<u8>, event_type: u8) -> RawFrame {
    RawFrame {
        rowid,
        node_id: format!("dev_{}", rowid),
        received_at: 1000 + rowid,
        event_type,
        rssi: -50,
        raw_blob: blob,
    }
}

#[test]
fn polled_frames_become_events_or_row_errors() {
    let ler = test_ler();
    let (blob, key) = make_test_blob(&ler);
    let frames = vec![
        raw_frame(5, blob.clone(), ler.event_type),
        raw_frame(6, vec![0u8; 10], ler.event_type),
        raw_frame(7, blob.clone(), 0x03),
        raw_frame(8, blob.clone(), ler.event_type),
    ];
    let mut app = AppState::new();
    let mut cursor: i64 = 4;
    app.ingest_frames(&frames, &key, &mut cursor);

    assert_eq!(cursor, 8);
    assert_eq!(app.events.len(), 2);
    assert_eq!(app.events[0].rowid, 5);
    assert_eq!(app.events[0].node_id, "dev_5");
    assert_eq!(app.events[0].received_at, 1005);
    assert_eq!(app.events[0].ler, ler);
    assert!(!app.events[0].acked);
    assert_eq!(app.events[1].rowid, 8);
    assert_eq!(app.list_state.selected(), Some(0));
    assert_eq!(app.errors.len(), 2);
    assert_eq!(
        app.errors[0].message,
        "row 6: decrypt failed — expected 182B stripped blob, got 10B"
    );
    // A wrong event type changes the associated data, so the tag fails.
    assert_eq!(
        app.errors[1].message,
        "row 7: decrypt failed — AES-256-GCM decrypt failed — wrong key or corrupted frame"
    );

    let mut again = AppState::new();
    let mut unchanged: i64 = 9;
    again.ingest_frames(&Vec::new(), &key, &mut unchanged);
    assert_eq!(unchanged, 9);
    assert!(again.events.is_empty());
    assert_eq!(again.list_state.selected(), None);
}
