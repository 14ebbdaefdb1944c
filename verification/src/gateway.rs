//! Gateway logic: outer-signature check of received frames (through the
//! `p256` crate), the audit records and console tallies, MQTT topics and
//! payloads, and the decisions of the publish and notify paths.

use p256::ecdsa::signature::Verifier;
use p256::ecdsa::{Signature, VerifyingKey};
use vstd::prelude::*;
use vstd::string::*;
use vstd::utf8::*;

use crate::text::{
    decimal, hex_byte_upper, hex_decode, hex_decode_spec, hex_encode, hex_encode_spec,
    push_char, push_decimal, push_hex_byte, push_signed_decimal, push_str, push_two_digits,
    signed_decimal, two_digits, all_digits, digits_value, leading_digits, lemma_decimal_reads_back,
    lemma_leading_digits_of_run,
};
use crate::wire::{LF_LEN, LF_OFFSET_OUTER_SIG, LF_SIGNED_BYTES, OUTER_SIG_LEN};

verus! {

/// SEC1 public key of the provisioned test node, in hex; blanks are ignored.
pub const TEST_NODE_PUBKEY_HEX: &'static str = "04 8d a8 7d 0a 4d df c4  16 c4 01 82 6e d8 ea 0d b2 9e c3 65 13 50 69 69  b8 8c 83 79 de 06 e3 10 3e 42 a3 9e 66 e8 f3 e7  aa 62 d2 aa 24 18 4d 88 e1 1f 2c 7a aa 9d e8 a0  48 84 90 5b 59 ed 48 7f d7";
/// Gateway database file.
pub const DB_PATH: &'static str = "lima_gateway.db";
/// MQTT broker host.
pub const MQTT_HOST: &'static str = "localhost";
/// MQTT broker port.
pub const MQTT_PORT: u16 = 1883;
/// MQTT client id.
pub const MQTT_CLIENT_ID: &'static str = "lima-gateway";
/// Topic of the retained gateway online/offline status.
pub const MQTT_TOPIC_HEALTH: &'static str = "lima/gateway/health";
/// Minimum number of seconds between two push notifications.
pub const NTFY_DEBOUNCE_SECS: u64 = 5;
/// Most records the console keeps.
pub const MAX_EVENTS: usize = 100;

// ── outer signature ──────────────────────────────────────────────────────────

/// Name for what ECDSA-P256 verification (p256's `VerifyingKey::verify`, with
/// SHA-256) decides for a SEC1-encoded public key, a message and a 64-byte
/// `r || s` signature; false where the key or the signature does not parse.
pub uninterp spec fn p256_ecdsa_verify(pubkey_sec1: Seq<u8>, msg: Seq<u8>, sig: Seq<u8>) -> bool;

/// p256's `VerifyingKey::from_sec1_bytes`, `Signature::from_slice` and
/// `Verifier::verify`: true when the key parses, the signature parses and it
/// verifies over `msg`. Its result is named `p256_ecdsa_verify`; as ecdsa's
/// source shows, a signature that is not 64 bytes never parses.
#[verifier::external_body]
fn ecdsa_p256_verify(pubkey_sec1: &[u8], msg: &[u8], sig: &[u8]) -> (ok: bool)
    ensures
        ok == p256_ecdsa_verify(pubkey_sec1@, msg@, sig@),
        sig@.len() != 64 ==> !ok,
{
    match (VerifyingKey::from_sec1_bytes(pubkey_sec1), Signature::from_slice(sig)) {
        (Ok(vk), Ok(s)) => vk.verify(msg, &s).is_ok(),
        _ => false,
    }
}

/// The full frame rebuilt from a manufacturer id (protocol version in the low
/// byte, event type in the high byte) and the 182 bytes after it.
pub open spec fn frame_from_adv(mfr_id: u16, payload: Seq<u8>) -> Seq<u8> {
    seq![(mfr_id % 256) as u8, (mfr_id / 256) as u8] + payload
}

/// Whether a received frame carries a valid outer signature: the payload is
/// 182 bytes and the signature in frame bytes 120..184 verifies over bytes
/// 0..120.
pub open spec fn outer_sig_ok(mfr_id: u16, payload: Seq<u8>, pubkey_sec1: Seq<u8>) -> bool {
    let lf = frame_from_adv(mfr_id, payload);
    &&& payload.len() == LF_LEN - 2
    &&& p256_ecdsa_verify(
        pubkey_sec1,
        lf.subrange(0, LF_SIGNED_BYTES as int),
        lf.subrange(LF_OFFSET_OUTER_SIG as int, LF_LEN as int),
    )
}

/// Verifies the ECDSA-P256 outer signature of a received frame.
pub fn verify_outer_sig(mfr_id: u16, payload: &[u8], pubkey_sec1: &[u8]) -> (r: bool)
    ensures
        r == outer_sig_ok(mfr_id, payload@, pubkey_sec1@),
        payload@.len() != LF_LEN - 2 ==> !r,
{
    if payload.len() != LF_LEN - 2 {
        return false;
    }
    let mut full_lf = [0u8; 184];
    full_lf[0] = (mfr_id % 256) as u8;
    full_lf[1] = (mfr_id / 256) as u8;
    let mut i: usize = 0;
    while i < LF_LEN - 2
        invariant
            0 <= i <= LF_LEN - 2,
            payload@.len() == LF_LEN - 2,
            full_lf@[0] == (mfr_id % 256) as u8,
            full_lf@[1] == (mfr_id / 256) as u8,
            forall|j: int| 0 <= j < i ==> full_lf@[j + 2] == payload@[j],
        decreases LF_LEN - 2 - i,
    {
        full_lf[i + 2] = payload[i];
        i = i + 1;
    }
    assert(full_lf@ =~= frame_from_adv(mfr_id, payload@));
    let lf: &[u8] = &full_lf;
    let signed = &lf[0..LF_SIGNED_BYTES];
    let sig_bytes = &lf[LF_OFFSET_OUTER_SIG..LF_OFFSET_OUTER_SIG + OUTER_SIG_LEN];
    ecdsa_p256_verify(pubkey_sec1, signed, sig_bytes)
}

/// The frame the client rebuilds from a stored blob and its frame type is the
/// frame the gateway verified: for an advertisement with protocol version 2
/// in the low byte of the manufacturer id, putting the version and the high
/// byte (the stored frame type) back in front of the payload gives the same
/// bytes as rebuilding from the manufacturer id.
pub proof fn lemma_client_rebuilds_gateway_frame(mfr_id: u16, payload: Seq<u8>)
    requires
        mfr_id % 256 == 2,
    ensures
        crate::crypto::full_frame(payload, (mfr_id / 256) as u8) == frame_from_adv(mfr_id, payload),
{
    assert(crate::crypto::full_frame(payload, (mfr_id / 256) as u8) =~= frame_from_adv(
        mfr_id,
        payload,
    ));
}

/// `s` without its spaces and newlines.
pub open spec fn without_blanks(s: Seq<char>) -> Seq<char>
    decreases s.len(),
{
    if s.len() == 0 {
        seq![]
    } else if s.last() == ' ' || s.last() == '\n' {
        without_blanks(s.drop_last())
    } else {
        without_blanks(s.drop_last()).push(s.last())
    }
}

/// Removes spaces and newlines.
pub fn strip_blanks(s: &str) -> (r: String)
    ensures
        r@ == without_blanks(s@),
{
    let n = s.unicode_len();
    let mut out = String::new();
    let mut i: usize = 0;
    while i < n
        invariant
            0 <= i <= n,
            n == s@.len(),
            out@ == without_blanks(s@.subrange(0, i as int)),
        decreases n - i,
    {
        let c = s.get_char(i);
        proof {
            let post = s@.subrange(0, i + 1);
            assert(post.drop_last() =~= s@.subrange(0, i as int));
            assert(post.last() == c);
        }
        if c != ' ' && c != '\n' {
            push_char(&mut out, c);
        }
        i = i + 1;
    }
    assert(s@.subrange(0, n as int) =~= s@);
    out
}

/// The SEC1 bytes of the provisioned test node key: its hex text without
/// blanks, decoded.
pub fn test_node_pubkey_sec1() -> (r: Result<Vec<u8>, hex::FromHexError>)
    ensures
        r is Ok <==> hex_decode_spec(encode_utf8(without_blanks(TEST_NODE_PUBKEY_HEX@))) is Some,
        r matches Ok(k) ==> hex_decode_spec(encode_utf8(without_blanks(TEST_NODE_PUBKEY_HEX@)))
            == Some(k@),
{
    let compact = strip_blanks(TEST_NODE_PUBKEY_HEX);
    hex_decode(compact.as_str().as_bytes())
}

// ── MQTT ─────────────────────────────────────────────────────────────────────

/// A node id made safe for a topic level: `/` and `_` become `-`.
pub open spec fn topic_safe(node_id: Seq<char>) -> Seq<char> {
    node_id.map_values(|c: char| if c == '/' || c == '_' { '-' } else { c })
}

/// The topic that carries the frames of a node.
pub open spec fn frames_topic(node_id: Seq<char>) -> Seq<char> {
    "lima/nodes/"@ + topic_safe(node_id) + "/frames"@
}

/// The node level of a frames topic holds neither `/` nor `_`.
pub proof fn lemma_topic_safe_has_no_separators(node_id: Seq<char>)
    ensures
        forall|i: int|
            0 <= i < topic_safe(node_id).len() ==> #[trigger] topic_safe(node_id)[i] != '/'
                && topic_safe(node_id)[i] != '_',
{
}

/// The topic that carries the frames of a node: `lima/nodes/{node}/frames`.
pub fn mqtt_topic_frames(node_id: &str) -> (r: String)
    ensures
        r@ == frames_topic(node_id@),
{
    let n = node_id.unicode_len();
    let mut clean = String::new();
    let mut i: usize = 0;
    while i < n
        invariant
            0 <= i <= n,
            n == node_id@.len(),
            clean@ == topic_safe(node_id@.subrange(0, i as int)),
        decreases n - i,
    {
        let c = node_id.get_char(i);
        let d = if c == '/' || c == '_' {
            '-'
        } else {
            c
        };
        push_char(&mut clean, d);
        proof {
            assert(clean@ =~= topic_safe(node_id@.subrange(0, i + 1)));
        }
        i = i + 1;
    }
    assert(node_id@.subrange(0, n as int) =~= node_id@);
    let mut topic = String::from_str("lima/nodes/");
    push_str(&mut topic, clean.as_str());
    push_str(&mut topic, "/frames");
    topic
}

/// A message queued for the MQTT publisher.
#[derive(Debug, Clone)]
pub struct MqttFrame {
    pub topic: String,
    pub payload: String,
    pub retain: bool,
}

/// The retained health message: `online` or `offline`.
pub fn health_frame(online: bool) -> (r: MqttFrame)
    ensures
        r.topic@ == MQTT_TOPIC_HEALTH@,
        r.payload@ == (if online {
            "online"@
        } else {
            "offline"@
        }),
        r.retain,
{
    MqttFrame {
        topic: String::from_str(MQTT_TOPIC_HEALTH),
        payload: if online {
            String::from_str("online")
        } else {
            String::from_str("offline")
        },
        retain: true,
    }
}

/// What happened in the publish loop.
#[derive(Debug, Clone, Copy, PartialEq, Eq, Structural)]
pub enum MqttEvent {
    /// The connection's event loop died.
    ConnectionLost,
    /// Every sender of the frame queue is gone.
    QueueClosed,
    /// A frame was published.
    Published,
    /// Publishing a frame failed.
    PublishFailed,
    /// Publishing a frame did not finish in time.
    PublishTimedOut,
}

/// What the publish loop does next.
#[derive(Debug, Clone, Copy, PartialEq, Eq, Structural)]
pub enum MqttAction {
    /// Take the next queued frame.
    KeepPublishing,
    /// Wait, then open a new connection.
    Reconnect,
    /// Leave the publisher.
    Stop,
}

/// The publish loop's decision after an event: only a closed queue stops it,
/// only a success keeps the connection.
pub open spec fn mqtt_next_spec(ev: MqttEvent) -> MqttAction {
    match ev {
        MqttEvent::QueueClosed => MqttAction::Stop,
        MqttEvent::Published => MqttAction::KeepPublishing,
        _ => MqttAction::Reconnect,
    }
}

/// The publish loop's decision after an event.
pub fn mqtt_next(ev: MqttEvent) -> (r: MqttAction)
    ensures
        r == mqtt_next_spec(ev),
{
    match ev {
        MqttEvent::QueueClosed => MqttAction::Stop,
        MqttEvent::Published => MqttAction::KeepPublishing,
        MqttEvent::ConnectionLost => MqttAction::Reconnect,
        MqttEvent::PublishFailed => MqttAction::Reconnect,
        MqttEvent::PublishTimedOut => MqttAction::Reconnect,
    }
}

/// Whether a verified frame triggers a push notification: when none was sent
/// yet, or the last one is more than five seconds old.
pub fn notify_due(sig_verified: bool, secs_since_last: Option<u64>) -> (r: bool)
    ensures
        r == (sig_verified && match secs_since_last {
            None => true,
            Some(t) => t > NTFY_DEBOUNCE_SECS,
        }),
{
    if !sig_verified {
        return false;
    }
    match secs_since_last {
        None => true,
        Some(t) => t > NTFY_DEBOUNCE_SECS,
    }
}

// ── audit records and console tallies ────────────────────────────────────────

/// A received frame as the gateway logs and shows it.
#[derive(Debug, Clone)]
pub struct EventRecord {
    pub id: i64,
    pub node_id: String,
    pub received_at: u64,
    pub sig_verified: bool,
    pub rssi: i8,
    pub frame_type: u8,
    pub raw_blob_hex: String,
}

/// Builds the record of a received frame: the frame type is the high byte of
/// the manufacturer id, the blob is kept hex-encoded, the id is not yet known.
pub fn build_event_record(
    mac: String,
    rssi: i8,
    mfr_id: u16,
    payload: &[u8],
    sig_verified: bool,
    received_at: u64,
) -> (r: EventRecord)
    ensures
        r.id == 0,
        r.node_id@ == mac@,
        r.received_at == received_at,
        r.sig_verified == sig_verified,
        r.rssi == rssi,
        r.frame_type == mfr_id / 256,
        r.raw_blob_hex@ == hex_encode_spec(payload@),
{
    EventRecord {
        id: 0,
        node_id: mac,
        received_at,
        sig_verified,
        rssi,
        frame_type: (mfr_id / 256) as u8,
        raw_blob_hex: hex_encode(payload),
    }
}

/// The JSON payload published for a verified frame.
pub open spec fn frame_json(rec: EventRecord) -> Seq<char> {
    "{\"node_id\":\""@ + rec.node_id@ + "\",\"received_at\":"@ + decimal(rec.received_at as nat)
        + ",\"rssi\":"@ + signed_decimal(rec.rssi as int) + ",\"lf\":\""@ + rec.raw_blob_hex@
        + "\"}"@
}

/// The MQTT message for a verified frame: on the node's frames topic, not
/// retained.
pub fn mqtt_frame_for(rec: &EventRecord) -> (r: MqttFrame)
    ensures
        r.topic@ == frames_topic(rec.node_id@),
        r.payload@ == frame_json(*rec),
        !r.retain,
        ({
            let head = "{\"node_id\":\""@ + rec.node_id@ + "\",\"received_at\":"@;
            &&& r.payload@.subrange(0, head.len() as int) == head
            &&& leading_digits(r.payload@.skip(head.len() as int)).len() > 0
            &&& digits_value(leading_digits(r.payload@.skip(head.len() as int)))
                == rec.received_at
        }),
{
    let topic = mqtt_topic_frames(rec.node_id.as_str());
    let mut p = String::from_str("{\"node_id\":\"");
    push_str(&mut p, rec.node_id.as_str());
    push_str(&mut p, "\",\"received_at\":");
    push_decimal(&mut p, rec.received_at);
    push_str(&mut p, ",\"rssi\":");
    push_signed_decimal(&mut p, rec.rssi as i64);
    push_str(&mut p, ",\"lf\":\"");
    push_str(&mut p, rec.raw_blob_hex.as_str());
    push_str(&mut p, "\"}");
    assert(p@ =~= frame_json(*rec));
    proof {
        lemma_frame_json_received_at_reads_back(*rec);
    }
    MqttFrame { topic, payload: p, retain: false }
}

/// What the gateway does with one accepted advertisement.
#[derive(Debug, Clone)]
pub struct ReportOutcome {
    /// The record to log and show.
    pub record: EventRecord,
    /// The message to publish, for a verified frame only.
    pub publish: Option<MqttFrame>,
    /// Whether to send a push notification.
    pub notify: bool,
}

/// Handles one advertisement that `parse_ext_adv_report` accepted: checks
/// its outer signature, builds its record and decides on publishing and
/// notifying. Only a frame whose signature verifies is published, and only
/// such a frame can trigger a notification.
pub fn handle_report(
    mac: String,
    rssi: i8,
    mfr_id: u16,
    payload: &[u8],
    pubkey_sec1: &[u8],
    received_at: u64,
    secs_since_last_notify: Option<u64>,
) -> (r: ReportOutcome)
    ensures
        r.record.sig_verified == outer_sig_ok(mfr_id, payload@, pubkey_sec1@),
        r.record.id == 0,
        r.record.node_id@ == mac@,
        r.record.received_at == received_at,
        r.record.rssi == rssi,
        r.record.frame_type == mfr_id / 256,
        r.record.raw_blob_hex@ == hex_encode_spec(payload@),
        r.publish is Some <==> r.record.sig_verified,
        r.publish matches Some(f) ==> f.topic@ == frames_topic(mac@) && f.payload@ == frame_json(
            r.record,
        ) && !f.retain,
        r.notify == (r.record.sig_verified && match secs_since_last_notify {
            None => true,
            Some(t) => t > NTFY_DEBOUNCE_SECS,
        }),
{
    let sig_verified = verify_outer_sig(mfr_id, payload, pubkey_sec1);
    let record = build_event_record(mac, rssi, mfr_id, payload, sig_verified, received_at);
    let publish = if sig_verified {
        Some(mqtt_frame_for(&record))
    } else {
        None
    };
    let notify = notify_due(sig_verified, secs_since_last_notify);
    ReportOutcome { record, publish, notify }
}

/// The `received_at` field of the JSON payload reads back, as a decimal
/// number, as the record's reception time, for every `u64` value: right after
/// the node id and the `received_at` key comes a non-empty run of digits whose
/// value is `rec.received_at`.
pub proof fn lemma_frame_json_received_at_reads_back(rec: EventRecord)
    ensures
        ({
            let head = "{\"node_id\":\""@ + rec.node_id@ + "\",\"received_at\":"@;
            let j = frame_json(rec);
            &&& j.subrange(0, head.len() as int) == head
            &&& leading_digits(j.skip(head.len() as int)).len() > 0
            &&& digits_value(leading_digits(j.skip(head.len() as int))) == rec.received_at
        }),
{
    let head = "{\"node_id\":\""@ + rec.node_id@ + "\",\"received_at\":"@;
    let d = decimal(rec.received_at as nat);
    let tail = ",\"rssi\":"@ + signed_decimal(rec.rssi as int) + ",\"lf\":\""@ + rec.raw_blob_hex@
        + "\"}"@;
    let j = frame_json(rec);
    assert(j =~= head + d + tail);
    assert(j.subrange(0, head.len() as int) =~= head);
    assert(j.skip(head.len() as int) =~= d + tail);
    reveal_strlit(",\"rssi\":");
    assert(tail[0] == ',');
    lemma_decimal_reads_back(rec.received_at as nat);
    lemma_leading_digits_of_run(d, tail);
}

/// Console state: the latest records, newest first, and the tallies.
pub struct App {
    pub events: Vec<EventRecord>,
    pub total_rx: u64,
    pub total_valid: u64,
    pub total_invalid: u64,
    pub last_event_at: Option<u64>,
}

impl App {
    /// The tallies add up and at most 100 records are kept.
    pub open spec fn consistent(&self) -> bool {
        &&& self.total_rx == self.total_valid + self.total_invalid
        &&& self.events@.len() <= MAX_EVENTS
    }

    /// Whether one more record can be tallied without overflow.
    pub open spec fn can_push(&self, rec: EventRecord) -> bool {
        &&& self.total_rx < u64::MAX
        &&& rec.sig_verified ==> self.total_valid < u64::MAX
        &&& !rec.sig_verified ==> self.total_invalid < u64::MAX
    }

    /// No records, all tallies zero.
    pub fn new() -> (r: Self)
        ensures
            r.events@ == Seq::<EventRecord>::empty(),
            r.total_rx == 0,
            r.total_valid == 0,
            r.total_invalid == 0,
            r.last_event_at == None::<u64>,
            r.consistent(),
    {
        App {
            events: Vec::new(),
            total_rx: 0,
            total_valid: 0,
            total_invalid: 0,
            last_event_at: None,
        }
    }

    /// Tallies a record and puts it first; only the 100 newest are kept.
    pub fn push(&mut self, rec: EventRecord)
        requires
            old(self).can_push(rec),
        ensures
            final(self).total_rx == old(self).total_rx + 1,
            final(self).total_valid == old(self).total_valid + (if rec.sig_verified {
                1int
            } else {
                0int
            }),
            final(self).total_invalid == old(self).total_invalid + (if rec.sig_verified {
                0int
            } else {
                1int
            }),
            final(self).last_event_at == Some(rec.received_at),
            final(self).events@ == (seq![rec] + old(self).events@).take(
                if old(self).events@.len() + 1 > MAX_EVENTS {
                    MAX_EVENTS as int
                } else {
                    old(self).events@.len() + 1int
                },
            ),
            final(self).events@.len() <= MAX_EVENTS,
            old(self).consistent() ==> final(self).consistent(),
    {
        self.total_rx = self.total_rx + 1;
        self.last_event_at = Some(rec.received_at);
        if rec.sig_verified {
            self.total_valid = self.total_valid + 1;
        } else {
            self.total_invalid = self.total_invalid + 1;
        }
        let ghost before = self.events@;
        let ghost r = rec;
        self.events.insert(0, rec);
        assert(self.events@ =~= seq![r] + before);
        if self.events.len() > MAX_EVENTS {
            self.events.truncate(MAX_EVENTS);
        }
        assert(self.events@ =~= (seq![r] + before).take(
            if before.len() + 1 > MAX_EVENTS {
                MAX_EVENTS as int
            } else {
                before.len() + 1int
            },
        ));
    }
}

// ── console cells ────────────────────────────────────────────────────────────

/// The bytes of a record's blob; empty when its hex does not decode.
pub open spec fn blob_of(rec: EventRecord) -> Seq<u8> {
    match hex_decode_spec(encode_utf8(rec.raw_blob_hex@)) {
        Some(b) => b,
        None => seq![],
    }
}

/// The event-type cell: `0x` and the record's frame type in upper-case hex.
/// The frame layout puts the event type in frame byte 1, which travels as the
/// high byte of the manufacturer id and is stored as the frame type; the
/// stored blob starts at frame byte 2, so its own bytes 0 and 1 are the
/// reserved header bytes and carry no event type.
pub open spec fn evt_cell(frame_type: u8) -> Seq<char> {
    "0x"@ + hex_byte_upper(frame_type)
}

/// The signature fingerprint: the first four outer-signature bytes (blob
/// bytes 118..122) in upper-case hex, when the blob holds them.
pub open spec fn sig_fingerprint_of(blob: Seq<u8>) -> Option<Seq<char>> {
    if blob.len() >= 122 {
        Some(
            hex_byte_upper(blob[118]) + hex_byte_upper(blob[119]) + hex_byte_upper(blob[120])
                + hex_byte_upper(blob[121]),
        )
    } else {
        None
    }
}

impl EventRecord {
    /// The blob bytes; empty when the stored hex does not decode.
    pub fn blob_bytes(&self) -> (r: Vec<u8>)
        ensures
            r@ == blob_of(*self),
    {
        match hex_decode(self.raw_blob_hex.as_str().as_bytes()) {
            Ok(b) => b,
            Err(_) => Vec::new(),
        }
    }

    /// The event-type cell of this record: its frame type (frame byte 1),
    /// not a byte of the stored blob, whose first two bytes are reserved.
    pub fn evt_label(&self) -> (r: String)
        ensures
            r@ == evt_cell(self.frame_type),
    {
        let mut s = String::from_str("0x");
        push_hex_byte(&mut s, self.frame_type, true);
        s
    }

    /// The signature fingerprint of this record, when its blob holds one.
    pub fn sig_fingerprint(&self) -> (r: Option<String>)
        ensures
            match sig_fingerprint_of(blob_of(*self)) {
                Some(f) => r matches Some(s) && s@ == f,
                None => r is None,
            },
    {
        let raw = self.blob_bytes();
        if raw.len() >= 122 {
            let mut s = String::new();
            push_hex_byte(&mut s, raw[118], true);
            push_hex_byte(&mut s, raw[119], true);
            push_hex_byte(&mut s, raw[120], true);
            push_hex_byte(&mut s, raw[121], true);
            assert(s@ =~= sig_fingerprint_of(blob_of(*self))->0);
            Some(s)
        } else {
            None
        }
    }
}

/// The footer's summary of the newest record: its verdict and fingerprint
/// (`????` when the blob holds none), or `--` when there is no record.
pub open spec fn last_summary_of(events: Seq<EventRecord>) -> Seq<char> {
    if events.len() == 0 {
        "--"@
    } else {
        let e = events[0];
        (if e.sig_verified {
            "✓ VALID"@
        } else {
            "✗ INVALID"@
        }) + "  sig[0..3]="@ + match sig_fingerprint_of(blob_of(e)) {
            Some(f) => f,
            None => "????"@,
        }
    }
}

impl App {
    /// The footer's summary of the newest record.
    pub fn last_summary(&self) -> (r: String)
        ensures
            r@ == last_summary_of(self.events@),
    {
        if self.events.len() == 0 {
            return String::from_str("--");
        }
        let e = &self.events[0];
        let mut s = if e.sig_verified {
            String::from_str("✓ VALID")
        } else {
            String::from_str("✗ INVALID")
        };
        push_str(&mut s, "  sig[0..3]=");
        match e.sig_fingerprint() {
            Some(f) => push_str(&mut s, f.as_str()),
            None => push_str(&mut s, "????"),
        }
        s
    }
}

/// The console header: the received, valid and invalid tallies.
pub open spec fn header_text(a: App) -> Seq<char> {
    " LIMA Gateway  |  rx: "@ + decimal(a.total_rx as nat) + "  valid: "@ + decimal(
        a.total_valid as nat,
    ) + "  invalid: "@ + decimal(a.total_invalid as nat)
}

/// The console footer: the database file, the newest record's summary and
/// the time of the last reception (`--` before any).
pub open spec fn footer_text(a: App) -> Seq<char> {
    " q: quit  |  DB: "@ + DB_PATH@ + "  |  last: "@ + last_summary_of(a.events@)
        + "  |  last_rx: "@ + match a.last_event_at {
        Some(t) => time_of_day(t),
        None => "--"@,
    } + " "@
}

/// The RSSI cell: the signed value and `dBm`.
pub open spec fn rssi_text(rssi: i8) -> Seq<char> {
    signed_decimal(rssi as int) + " dBm"@
}

/// The signature cell: a check mark or a cross for the verdict, then the
/// fingerprint (`?` when the blob holds none).
pub open spec fn sig_cell_text(rec: EventRecord) -> Seq<char> {
    (if rec.sig_verified {
        "✅ "@
    } else {
        "❌ "@
    }) + match sig_fingerprint_of(blob_of(rec)) {
        Some(f) => f,
        None => "?"@,
    }
}

/// The header's three numbers read back as the tallies: the digits after
/// `rx: ` are the received count, those after `valid: ` the valid count and
/// those after `invalid: ` the invalid count.
pub proof fn lemma_header_reads_back(a: App)
    ensures
        exists|x: Seq<char>, y: Seq<char>, z: Seq<char>|
            #![trigger digits_value(x), digits_value(y), digits_value(z)]
            {
                &&& header_text(a) == " LIMA Gateway  |  rx: "@ + x + "  valid: "@ + y
                    + "  invalid: "@ + z
                &&& x.len() > 0 && all_digits(x) && digits_value(x) == a.total_rx
                &&& y.len() > 0 && all_digits(y) && digits_value(y) == a.total_valid
                &&& z.len() > 0 && all_digits(z) && digits_value(z) == a.total_invalid
            },
{
    lemma_decimal_reads_back(a.total_rx as nat);
    lemma_decimal_reads_back(a.total_valid as nat);
    lemma_decimal_reads_back(a.total_invalid as nat);
    let x = decimal(a.total_rx as nat);
    let y = decimal(a.total_valid as nat);
    let z = decimal(a.total_invalid as nat);
    assert(digits_value(x) == a.total_rx && digits_value(y) == a.total_valid && digits_value(z)
        == a.total_invalid);
}

impl App {
    /// The console header.
    pub fn header_title(&self) -> (r: String)
        ensures
            r@ == header_text(*self),
            exists|x: Seq<char>, y: Seq<char>, z: Seq<char>|
                #![trigger digits_value(x), digits_value(y), digits_value(z)]
                {
                    &&& r@ == " LIMA Gateway  |  rx: "@ + x + "  valid: "@ + y + "  invalid: "@
                        + z
                    &&& x.len() > 0 && all_digits(x) && digits_value(x) == self.total_rx
                    &&& y.len() > 0 && all_digits(y) && digits_value(y) == self.total_valid
                    &&& z.len() > 0 && all_digits(z) && digits_value(z) == self.total_invalid
                },
    {
        proof {
            lemma_header_reads_back(*self);
        }
        let mut s = String::from_str(" LIMA Gateway  |  rx: ");
        push_decimal(&mut s, self.total_rx);
        push_str(&mut s, "  valid: ");
        push_decimal(&mut s, self.total_valid);
        push_str(&mut s, "  invalid: ");
        push_decimal(&mut s, self.total_invalid);
        s
    }

    /// The console footer.
    pub fn footer_title(&self) -> (r: String)
        ensures
            r@ == footer_text(*self),
    {
        let mut s = String::from_str(" q: quit  |  DB: ");
        push_str(&mut s, DB_PATH);
        push_str(&mut s, "  |  last: ");
        let last = self.last_summary();
        push_str(&mut s, last.as_str());
        push_str(&mut s, "  |  last_rx: ");
        match self.last_event_at {
            Some(t) => {
                let ts = format_timestamp(t);
                push_str(&mut s, ts.as_str());
            },
            None => push_str(&mut s, "--"),
        }
        push_str(&mut s, " ");
        s
    }
}

/// The RSSI cell of a record.
pub fn rssi_cell(rssi: i8) -> (r: String)
    ensures
        r@ == rssi_text(rssi),
{
    let mut s = String::new();
    push_signed_decimal(&mut s, rssi as i64);
    push_str(&mut s, " dBm");
    s
}

impl EventRecord {
    /// The signature cell of this record.
    pub fn sig_cell(&self) -> (r: String)
        ensures
            r@ == sig_cell_text(*self),
    {
        let mut s = if self.sig_verified {
            String::from_str("✅ ")
        } else {
            String::from_str("❌ ")
        };
        match self.sig_fingerprint() {
            Some(f) => push_str(&mut s, f.as_str()),
            None => push_str(&mut s, "?"),
        }
        s
    }
}

/// `HH:MM:SS` (UTC time of day) of a millisecond timestamp.
pub open spec fn time_of_day(ts_ms: u64) -> Seq<char> {
    let secs = ts_ms / 1000;
    two_digits(((secs % 86400) / 3600) as int) + seq![':'] + two_digits(((secs % 3600) / 60) as int)
        + seq![':'] + two_digits((secs % 60) as int)
}

/// Formats a millisecond timestamp as `HH:MM:SS`.
pub fn format_timestamp(ts_ms: u64) -> (r: String)
    ensures
        r@ == time_of_day(ts_ms),
        r@.len() == 8,
{
    let secs = ts_ms / 1000;
    let h = (secs % 86400) / 3600;
    let m = (secs % 3600) / 60;
    let s = secs % 60;
    let mut out = String::new();
    push_two_digits(&mut out, h);
    push_char(&mut out, ':');
    push_two_digits(&mut out, m);
    push_char(&mut out, ':');
    push_two_digits(&mut out, s);
    assert(out@ =~= time_of_day(ts_ms));
    out
}

} // verus!
