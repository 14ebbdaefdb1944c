use p256::ecdsa::signature::Signer;
use p256::ecdsa::{Signature, SigningKey, VerifyingKey};

use lima::frames::{frames_from_rows, EventRow};
use lima::gateway::{
    build_event_record, format_timestamp, handle_report, rssi_cell, health_frame, mqtt_frame_for, mqtt_next,
    mqtt_topic_frames, notify_due, strip_blanks, test_node_pubkey_sec1, verify_outer_sig, App,
    EventRecord, MqttAction, MqttEvent,
};
use lima::hciconfig::{hci_index_for_address, REALTEK_BD_ADDR};

fn signing_key() -> SigningKey {
    SigningKey::from_slice(&[7u8; 32]).unwrap()
}

fn signed_payload(sk: &SigningKey, mfr_id: u16) -> Vec<u8> {
    let mut lf = [0u8; 184];
    lf[0] = (mfr_id & 0xFF) as u8;
    lf[1] = (mfr_id >> 8) as u8;
    for (i, b) in lf[4..120].iter_mut().enumerate() {
        *b = i as u8;
    }
    let sig: Signature = sk.sign(&lf[..120]);
    lf[120..184].copy_from_slice(&sig.to_bytes());
    lf[2..].to_vec()
}

fn pubkey(sk: &SigningKey) -> Vec<u8> {
    sk.verifying_key().to_encoded_point(false).as_bytes().to_vec()
}

#[test]
fn outer_signature_is_checked_over_the_rebuilt_frame() {
    let sk = signing_key();
    let pk = pubkey(&sk);
    let payload = signed_payload(&sk, 0x0402);
    assert!(verify_outer_sig(0x0402, &payload, &pk));
    // The first two frame bytes come from the manufacturer id.
    assert!(!verify_outer_sig(0x0302, &payload, &pk));
    let mut bad = payload.clone();
    bad[50] ^= 1;
    assert!(!verify_outer_sig(0x0402, &bad, &pk));
    assert!(!verify_outer_sig(0x0402, &payload[..181], &pk));
    assert!(!verify_outer_sig(0x0402, &payload, &[0x04, 0x01]));
}

#[test]
fn only_verified_reports_are_published_and_notified() {
    let sk = signing_key();
    let pk = pubkey(&sk);
    let payload = signed_payload(&sk, 0x0402);
    let mac = "dev_E3_79_63_12_EF_B1".to_string();

    let ok = handle_report(mac.clone(), -64, 0x0402, &payload, &pk, 1234, None);
    assert!(ok.record.sig_verified);
    assert_eq!(ok.record.frame_type, 0x04);
    assert_eq!(ok.record.node_id, mac);
    assert_eq!(ok.record.raw_blob_hex.len(), 364);
    let f = ok.publish.expect("verified frame is published");
    assert_eq!(f.topic, "lima/nodes/dev-E3-79-63-12-EF-B1/frames");
    assert_eq!(
        f.payload,
        format!(
            r#"{{"node_id":"dev_E3_79_63_12_EF_B1","received_at":1234,"rssi":-64,"lf":"{}"}}"#,
            ok.record.raw_blob_hex
        )
    );
    assert!(!f.retain);
    assert!(ok.notify);
    assert!(!handle_report(mac.clone(), -64, 0x0402, &payload, &pk, 1234, Some(5)).notify);
    assert!(handle_report(mac.clone(), -64, 0x0402, &payload, &pk, 1234, Some(6)).notify);

    let mut tampered = payload.clone();
    tampered[10] ^= 0x80;
    let bad = handle_report(mac.clone(), -70, 0x0402, &tampered, &pk, 99, None);
    assert!(!bad.record.sig_verified);
    assert!(bad.publish.is_none());
    assert!(!bad.notify);
    assert_eq!(bad.record.rssi, -70);
    assert_eq!(bad.record.received_at, 99);
}

#[test]
fn provisioned_node_key_decodes() {
    let k = test_node_pubkey_sec1().unwrap();
    assert_eq!(k.len(), 65);
    assert_eq!(k[0], 0x04);
    assert_eq!(k[1], 0x8d);
    assert_eq!(k[64], 0xd7);
    assert!(VerifyingKey::from_sec1_bytes(&k).is_ok());
    assert_eq!(strip_blanks(" a b\nc  d\n"), "abcd");
}

#[test]
fn topics_and_payloads() {
    assert_eq!(
        mqtt_topic_frames("dev_E3_79_63_12_EF_B1"),
        "lima/nodes/dev-E3-79-63-12-EF-B1/frames"
    );
    assert_eq!(mqtt_topic_frames("a/b_c"), "lima/nodes/a-b-c/frames");
    let rec = build_event_record("dev_E3_79_63_12_EF_B1".to_string(), -64, 0x0402, &[0xAB, 0x01], true, 1234);
    assert_eq!(rec.frame_type, 0x04);
    assert_eq!(rec.raw_blob_hex, "ab01");
    assert_eq!(rec.id, 0);
    let f = mqtt_frame_for(&rec);
    assert_eq!(f.topic, "lima/nodes/dev-E3-79-63-12-EF-B1/frames");
    assert_eq!(
        f.payload,
        r#"{"node_id":"dev_E3_79_63_12_EF_B1","received_at":1234,"rssi":-64,"lf":"ab01"}"#
    );
    assert!(!f.retain);
    let h = health_frame(false);
    assert_eq!(h.topic, "lima/gateway/health");
    assert_eq!(h.payload, "offline");
    assert!(h.retain);
    assert_eq!(health_frame(true).payload, "online");
}

#[test]
fn publish_loop_and_notify_decisions() {
    assert_eq!(mqtt_next(MqttEvent::Published), MqttAction::KeepPublishing);
    assert_eq!(mqtt_next(MqttEvent::QueueClosed), MqttAction::Stop);
    assert_eq!(mqtt_next(MqttEvent::ConnectionLost), MqttAction::Reconnect);
    assert_eq!(mqtt_next(MqttEvent::PublishFailed), MqttAction::Reconnect);
    assert_eq!(mqtt_next(MqttEvent::PublishTimedOut), MqttAction::Reconnect);
    assert!(notify_due(true, None));
    assert!(notify_due(true, Some(6)));
    assert!(!notify_due(true, Some(5)));
    assert!(!notify_due(false, None));
}

#[test]
fn timestamps_format_as_time_of_day() {
    assert_eq!(format_timestamp(0), "00:00:00");
    assert_eq!(format_timestamp(3_723_999), "01:02:03");
    assert_eq!(format_timestamp(86_399_000), "23:59:59");
    assert_eq!(format_timestamp(86_400_000 + 61_000), "00:01:01");
    assert_eq!(format_timestamp(u64::MAX).len(), 8);
}

fn record(verified: bool, blob: &[u8], at: u64) -> EventRecord {
    build_event_record("n".to_string(), -1, 0x0102, blob, verified, at)
}

#[test]
fn console_keeps_the_newest_hundred_and_tallies() {
    let mut app = App::new();
    for i in 0..150u64 {
        app.push(record(i % 3 != 0, &[i as u8], i));
    }
    assert_eq!(app.events.len(), 100);
    assert_eq!(app.events[0].received_at, 149);
    assert_eq!(app.events[99].received_at, 50);
    assert_eq!(app.total_rx, 150);
    assert_eq!(app.total_valid + app.total_invalid, 150);
    assert_eq!(app.total_invalid, 50);
    assert_eq!(app.last_event_at, Some(149));
}

#[test]
fn console_cells() {
    let mut blob = vec![0u8; 182];
    blob[1] = 0x04;
    blob[118] = 0xDE;
    blob[119] = 0xAD;
    blob[120] = 0xBE;
    blob[121] = 0xEF;
    let rec = record(true, &blob, 0);
    // The event-type cell shows the frame type (high byte of 0x0102).
    assert_eq!(rec.evt_label(), "0x01");
    assert_eq!(rec.sig_fingerprint(), Some("DEADBEEF".to_string()));
    assert_eq!(rec.sig_cell(), "✅ DEADBEEF");
    let short = record(false, &[0x01], 0);
    assert_eq!(short.evt_label(), "0x01");
    assert_eq!(short.sig_fingerprint(), None);
    assert_eq!(short.sig_cell(), "❌ ?");
    let heartbeat = build_event_record("n".to_string(), -1, 0xAB02, &blob, true, 0);
    assert_eq!(heartbeat.evt_label(), "0xAB");
    assert_eq!(rssi_cell(-64), "-64 dBm");
    assert_eq!(rssi_cell(0), "0 dBm");
    let mut app = App::new();
    assert_eq!(app.last_summary(), "--");
    assert_eq!(app.header_title(), " LIMA Gateway  |  rx: 0  valid: 0  invalid: 0");
    assert_eq!(
        app.footer_title(),
        " q: quit  |  DB: lima_gateway.db  |  last: --  |  last_rx: -- "
    );
    app.push(short);
    assert_eq!(app.last_summary(), "✗ INVALID  sig[0..3]=????");
    app.push(record(true, &blob, 3_723_000));
    assert_eq!(app.last_summary(), "✓ VALID  sig[0..3]=DEADBEEF");
    assert_eq!(app.header_title(), " LIMA Gateway  |  rx: 2  valid: 1  invalid: 1");
    assert_eq!(
        app.footer_title(),
        " q: quit  |  DB: lima_gateway.db  |  last: ✓ VALID  sig[0..3]=DEADBEEF  |  last_rx: 01:02:03 "
    );
}

#[test]
fn stored_hex_blobs_decode_back_on_the_client() {
    let blob: Vec<u8> = (0..=255u8).collect();
    let rec = record(true, &blob, 5);
    let rows = vec![
        EventRow {
            rowid: 1,
            node_id: "a".to_string(),
            received_at: 10,
            event_type: 4,
            rssi: -3,
            raw_blob_hex: rec.raw_blob_hex.clone(),
        },
        EventRow {
            rowid: 2,
            node_id: "b".to_string(),
            received_at: 11,
            event_type: 1,
            rssi: 0,
            raw_blob_hex: "abc".to_string(),
        },
        EventRow {
            rowid: 3,
            node_id: "c".to_string(),
            received_at: 12,
            event_type: 2,
            rssi: 1,
            raw_blob_hex: "AB".repeat(182),
        },
    ];
    let (frames, skipped) = frames_from_rows(&rows);
    assert_eq!(frames.len(), 2);
    assert_eq!(frames[0].raw_blob, blob);
    assert_eq!(frames[0].rowid, 1);
    assert_eq!(frames[0].node_id, "a");
    assert_eq!(frames[0].event_type, 4);
    assert_eq!(frames[0].rssi, -3);
    assert_eq!(frames[0].received_at, 10);
    assert_eq!(frames[1].rowid, 3);
    assert_eq!(frames[1].raw_blob.len(), 182);
    assert!(frames[1].raw_blob.iter().all(|&b| b == 0xAB));
    assert_eq!(skipped.len(), 1);
    assert_eq!(skipped[0].0, 2);
}

#[test]
fn adapter_index_from_hciconfig_output() {
    let text = "hci1:\tType: Primary  Bus: UART\n\tBD Address: B8:27:EB:00:00:01  ACL MTU: 1021:8\r\n\nhci0:\tType: Primary  Bus: USB\r\n\tBD Address: A0:AD:9F:71:13:98  ACL MTU: 1021:6\n";
    assert_eq!(hci_index_for_address(text, REALTEK_BD_ADDR), Some(0));
    assert_eq!(hci_index_for_address(text, "B8:27:EB:00:00:01"), Some(1));
    assert_eq!(hci_index_for_address(text, "00:00:00:00:00:00"), None);
    assert_eq!(hci_index_for_address("hciX: A0:AD:9F:71:13:98", REALTEK_BD_ADDR), None);
    assert_eq!(hci_index_for_address("hci12 A0:AD:9F:71:13:98", REALTEK_BD_ADDR), Some(12));
    assert_eq!(
        hci_index_for_address("hci99999999999999999999\nA0:AD:9F:71:13:98", REALTEK_BD_ADDR),
        None
    );
    assert_eq!(hci_index_for_address("", REALTEK_BD_ADDR), None);
}
