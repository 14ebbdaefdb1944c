use lima::wire::{LimaEventType, LimaPayload, HKDF_INFO, PACKET_LEN, PLAINTEXT_LEN, CIPHERTEXT_LEN};

fn sample() -> LimaPayload {
    LimaPayload {
        node_id: [0xE3, 0x79, 0x63, 0x12, 0xEF, 0xB1],
        event_type: 0x02,
        reserved: 0x00,
        sequence: 0x01020304,
        timestamp_ms: 0xA0B0C0D0,
        accel_g_bits: 1.5f32.to_bits(),
        delta_pa_bits: (-3.25f32).to_bits(),
    }
}

#[test]
fn payload_serializes_little_endian() {
    let b = sample().to_bytes();
    assert_eq!(&b[0..6], &[0xE3, 0x79, 0x63, 0x12, 0xEF, 0xB1]);
    assert_eq!(b[6], 0x02);
    assert_eq!(&b[8..12], &[0x04, 0x03, 0x02, 0x01]);
    assert_eq!(&b[12..16], &[0xD0, 0xC0, 0xB0, 0xA0]);
    assert_eq!(&b[16..20], &1.5f32.to_le_bytes());
    assert_eq!(&b[20..24], &(-3.25f32).to_le_bytes());
}

#[test]
fn payload_round_trips() {
    let p = sample();
    assert_eq!(LimaPayload::from_bytes(&p.to_bytes()), p);
    let raw: [u8; 24] = core::array::from_fn(|i| (i * 7 + 3) as u8);
    assert_eq!(LimaPayload::from_bytes(&raw).to_bytes(), raw);
}

#[test]
fn node_id_string_is_upper_case_mac() {
    assert_eq!(sample().node_id_str(), "E3:79:63:12:EF:B1");
}

#[test]
fn event_type_codes() {
    assert_eq!(LimaEventType::from(0x01), LimaEventType::MotionOnly);
    assert_eq!(LimaEventType::from(0x02), LimaEventType::BaroOnly);
    assert_eq!(LimaEventType::from(0x03), LimaEventType::DualBreach);
    assert_eq!(LimaEventType::from(0x04), LimaEventType::Heartbeat);
    assert_eq!(LimaEventType::from(0x00), LimaEventType::Unknown);
    assert_eq!(LimaEventType::from(0x05), LimaEventType::Unknown);
    for t in [
        LimaEventType::MotionOnly,
        LimaEventType::BaroOnly,
        LimaEventType::DualBreach,
        LimaEventType::Heartbeat,
        LimaEventType::Unknown,
    ] {
        assert_eq!(LimaEventType::from(t.code()), t);
    }
    assert_eq!(LimaEventType::Unknown.code(), 0xFF);
}

#[test]
fn frame_sizes() {
    assert_eq!(PLAINTEXT_LEN, 88);
    assert_eq!(CIPHERTEXT_LEN, 104);
    assert_eq!(PACKET_LEN, 184);
}

#[test]
fn hkdf_info_matches_the_firmware_bytes() {
    assert_eq!(HKDF_INFO.len(), 32);
    assert_eq!(HKDF_INFO[0], 0x2e);
    assert_eq!(HKDF_INFO[15], 0xfd);
    assert_eq!(HKDF_INFO[31], 0x6f);
}
