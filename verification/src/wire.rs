//! Shared LIMA wire-format constants and types (payload record, event types).

use vstd::prelude::*;

use crate::text::{colon_hex, push_colon_hex};

verus! {

/// Length of the event record payload on the wire.
pub const PAYLOAD_LEN: usize = 24;
/// ECDSA-P256 signature over the plaintext.
pub const INNER_SIG_LEN: usize = 64;
/// Payload followed by its inner signature.
pub const PLAINTEXT_LEN: usize = PAYLOAD_LEN + INNER_SIG_LEN;
/// AES-256-GCM nonce length.
pub const NONCE_LEN: usize = 12;
/// AES-256-GCM authentication tag length.
pub const TAG_LEN: usize = 16;
/// ECDSA-P256 signature over the header, nonce, ciphertext and tag.
pub const OUTER_SIG_LEN: usize = 64;
/// Frame header length (protocol version, event type, two reserved bytes).
pub const HEADER_LEN: usize = 4;
/// Ciphertext followed by its tag.
pub const CIPHERTEXT_LEN: usize = PLAINTEXT_LEN + TAG_LEN;
/// Full frame length.
pub const PACKET_LEN: usize = HEADER_LEN + NONCE_LEN + CIPHERTEXT_LEN + OUTER_SIG_LEN;
/// Full frame length, as the gateway names it.
pub const LF_LEN: usize = 184;
/// Number of leading frame bytes covered by the outer signature.
pub const LF_SIGNED_BYTES: usize = 120;
/// Offset of the outer signature inside the frame.
pub const LF_OFFSET_OUTER_SIG: usize = 120;
/// Protocol version carried in the first frame byte.
pub const PROTO_VERSION: u8 = 2;
/// HKDF info string of the key derivation; the node firmware uses the same
/// bytes.
pub const HKDF_INFO: [u8; 32] = [
    0x2e, 0x29, 0xee, 0x16, 0xe8, 0x10, 0x6d, 0x8a,
    0xdd, 0xbb, 0x50, 0xe2, 0x12, 0x16, 0x3d, 0xfd,
    0xa8, 0xf4, 0x24, 0xe2, 0xc9, 0x7d, 0x4b, 0xd3,
    0x17, 0xb9, 0x9a, 0x96, 0xe0, 0x7e, 0x5c, 0x6f,
];

/// Event type carried in an event record.
#[derive(Debug, Clone, Copy, PartialEq, Eq, Structural)]
pub enum LimaEventType {
    MotionOnly,
    BaroOnly,
    DualBreach,
    Heartbeat,
    Unknown,
}

/// Wire code of each event type.
pub open spec fn event_type_code(t: LimaEventType) -> u8 {
    match t {
        LimaEventType::MotionOnly => 1,
        LimaEventType::BaroOnly => 2,
        LimaEventType::DualBreach => 3,
        LimaEventType::Heartbeat => 4,
        LimaEventType::Unknown => 255,
    }
}

/// Event type that a wire code denotes; every unassigned code is `Unknown`.
pub open spec fn event_type_of(v: u8) -> LimaEventType {
    if v == 1 {
        LimaEventType::MotionOnly
    } else if v == 2 {
        LimaEventType::BaroOnly
    } else if v == 3 {
        LimaEventType::DualBreach
    } else if v == 4 {
        LimaEventType::Heartbeat
    } else {
        LimaEventType::Unknown
    }
}

impl LimaEventType {
    /// The wire code of this event type.
    pub fn code(&self) -> (r: u8)
        ensures
            r == event_type_code(*self),
    {
        match self {
            LimaEventType::MotionOnly => 1,
            LimaEventType::BaroOnly => 2,
            LimaEventType::DualBreach => 3,
            LimaEventType::Heartbeat => 4,
            LimaEventType::Unknown => 255,
        }
    }
}

impl vstd::std_specs::convert::FromSpecImpl<u8> for LimaEventType {
    open spec fn obeys_from_spec() -> bool {
        true
    }

    open spec fn from_spec(v: u8) -> Self {
        event_type_of(v)
    }
}

impl From<u8> for LimaEventType {
    fn from(v: u8) -> (r: Self) {
        if v == 1 {
            LimaEventType::MotionOnly
        } else if v == 2 {
            LimaEventType::BaroOnly
        } else if v == 3 {
            LimaEventType::DualBreach
        } else if v == 4 {
            LimaEventType::Heartbeat
        } else {
            LimaEventType::Unknown
        }
    }
}

/// Decoding the wire code of an event type gives that event type back.
pub proof fn lemma_event_type_code_round_trip(t: LimaEventType)
    ensures
        event_type_of(event_type_code(t)) == t,
{
}


// ── little-endian integers ───────────────────────────────────────────────────

/// The `u32` whose little-endian bytes are `b[off..off + 4]`.
pub open spec fn le_u32(b: Seq<u8>, off: int) -> u32 {
    (b[off] + b[off + 1] * 256 + b[off + 2] * 65536 + b[off + 3] * 16777216) as u32
}

/// The four little-endian bytes of `v`.
pub open spec fn le_bytes(v: u32) -> Seq<u8> {
    seq![
        (v % 256) as u8,
        ((v / 256) % 256) as u8,
        ((v / 65536) % 256) as u8,
        (v / 16777216) as u8,
    ]
}

/// Reading back the little-endian bytes of a `u32` gives the `u32`.
pub proof fn lemma_le_u32_of_bytes(v: u32)
    ensures
        le_u32(le_bytes(v), 0) == v,
{
    let b = le_bytes(v);
    assert(b[0] + b[1] * 256 + b[2] * 65536 + b[3] * 16777216 == v) by (nonlinear_arith)
        requires
            b[0] == v % 256,
            b[1] == (v / 256) % 256,
            b[2] == (v / 65536) % 256,
            b[3] == v / 16777216,
            v < 0x1_0000_0000,
    ;
}

/// The little-endian bytes of a `u32` read from four bytes are those bytes.
pub proof fn lemma_le_bytes_of_u32(b: Seq<u8>, off: int)
    requires
        0 <= off,
        off + 4 <= b.len(),
    ensures
        le_bytes(le_u32(b, off)) == b.subrange(off, off + 4),
{
    let b0 = b[off];
    let b1 = b[off + 1];
    let b2 = b[off + 2];
    let b3 = b[off + 3];
    let v: int = b0 + b1 * 256 + b2 * 65536 + b3 * 16777216;
    assert(v % 256 == b0 && (v / 256) % 256 == b1 && (v / 65536) % 256 == b2 && v / 16777216 == b3)
        by (nonlinear_arith)
        requires
            v == b0 + b1 * 256 + b2 * 65536 + b3 * 16777216,
            0 <= b0 < 256,
            0 <= b1 < 256,
            0 <= b2 < 256,
            0 <= b3 < 256,
    ;
    assert(le_bytes(le_u32(b, off)) =~= b.subrange(off, off + 4));
}

/// Reads the little-endian `u32` at `b[off..off + 4]`.
pub fn read_le_u32(b: &[u8], off: usize) -> (r: u32)
    requires
        off + 4 <= b@.len(),
    ensures
        r == le_u32(b@, off as int),
{
    let b0 = b[off] as u32;
    let b1 = b[off + 1] as u32;
    let b2 = b[off + 2] as u32;
    let b3 = b[off + 3] as u32;
    b0 + b1 * 256 + b2 * 65536 + b3 * 16777216
}

/// Writes the little-endian bytes of `v` at `buf[off..off + 4]`.
pub(crate) fn write_le_u32(buf: &mut [u8; 24], off: usize, v: u32)
    requires
        off + 4 <= 24,
    ensures
        final(buf)@ == old(buf)@.subrange(0, off as int) + le_bytes(v) + old(buf)@.subrange(
            off + 4,
            24,
        ),
{
    buf[off] = (v % 256) as u8;
    buf[off + 1] = ((v / 256) % 256) as u8;
    buf[off + 2] = ((v / 65536) % 256) as u8;
    buf[off + 3] = (v / 16777216) as u8;
    assert(final(buf)@ =~= old(buf)@.subrange(0, off as int) + le_bytes(v) + old(buf)@.subrange(
        off + 4,
        24,
    ));
}

// ── payload record ───────────────────────────────────────────────────────────

/// The 24-byte payload record. The two sensor readings are IEEE-754 `f32`
/// values; they are held here as their bit patterns (`f32::to_bits`).
#[derive(Debug, Clone, Copy, PartialEq, Eq)]
pub struct LimaPayload {
    pub node_id: [u8; 6],
    pub event_type: u8,
    pub reserved: u8,
    pub sequence: u32,
    pub timestamp_ms: u32,
    pub accel_g_bits: u32,
    pub delta_pa_bits: u32,
}

impl LimaPayload {
    /// Wire layout: node id, event type, reserved byte, then sequence,
    /// timestamp, acceleration and pressure delta, each little-endian.
    pub open spec fn wire(&self) -> Seq<u8> {
        self.node_id@ + seq![self.event_type, self.reserved] + le_bytes(self.sequence) + le_bytes(
            self.timestamp_ms,
        ) + le_bytes(self.accel_g_bits) + le_bytes(self.delta_pa_bits)
    }

    /// The payload record that the 24 bytes `b` encode.
    pub open spec fn decodes_from(&self, b: Seq<u8>) -> bool {
        &&& self.node_id@ == b.subrange(0, 6)
        &&& self.event_type == b[6]
        &&& self.reserved == b[7]
        &&& self.sequence == le_u32(b, 8)
        &&& self.timestamp_ms == le_u32(b, 12)
        &&& self.accel_g_bits == le_u32(b, 16)
        &&& self.delta_pa_bits == le_u32(b, 20)
    }

    /// Serializes to the 24-byte wire format.
    pub fn to_bytes(&self) -> (r: [u8; 24])
        ensures
            r@ == self.wire(),
    {
        let mut buf = [0u8; 24];
        let mut i: usize = 0;
        while i < 6
            invariant
                0 <= i <= 6,
                forall|j: int| 0 <= j < i ==> buf@[j] == self.node_id@[j],
            decreases 6 - i,
        {
            buf[i] = self.node_id[i];
            i = i + 1;
        }
        buf[6] = self.event_type;
        buf[7] = self.reserved;
        write_le_u32(&mut buf, 8, self.sequence);
        write_le_u32(&mut buf, 12, self.timestamp_ms);
        write_le_u32(&mut buf, 16, self.accel_g_bits);
        write_le_u32(&mut buf, 20, self.delta_pa_bits);
        assert(buf@ =~= self.wire());
        buf
    }

    /// The node id as an upper-case MAC string (`AA:BB:CC:DD:EE:FF`).
    pub fn node_id_str(&self) -> (r: String)
        ensures
            r@ == colon_hex(self.node_id@, true),
    {
        let mut s = String::new();
        let id: &[u8] = &self.node_id;
        push_colon_hex(&mut s, id, true);
        s
    }

    /// Deserializes from the 24-byte wire format.
    pub fn from_bytes(data: &[u8; 24]) -> (r: Self)
        ensures
            r.decodes_from(data@),
    {
        let mut node_id = [0u8; 6];
        let mut i: usize = 0;
        while i < 6
            invariant
                0 <= i <= 6,
                forall|j: int| 0 <= j < i ==> node_id@[j] == data@[j],
            decreases 6 - i,
        {
            node_id[i] = data[i];
            i = i + 1;
        }
        assert(node_id@ =~= data@.subrange(0, 6));
        let d: &[u8] = data;
        LimaPayload {
            node_id,
            event_type: data[6],
            reserved: data[7],
            sequence: read_le_u32(d, 8),
            timestamp_ms: read_le_u32(d, 12),
            accel_g_bits: read_le_u32(d, 16),
            delta_pa_bits: read_le_u32(d, 20),
        }
    }
}

/// Decoding the wire bytes of a payload record gives that record back.
pub proof fn lemma_payload_wire_round_trip(p: LimaPayload, q: LimaPayload)
    requires
        q.decodes_from(p.wire()),
    ensures
        q == p,
{
    let w = p.wire();
    assert(w.subrange(8, 12) =~= le_bytes(p.sequence));
    assert(w.subrange(12, 16) =~= le_bytes(p.timestamp_ms));
    assert(w.subrange(16, 20) =~= le_bytes(p.accel_g_bits));
    assert(w.subrange(20, 24) =~= le_bytes(p.delta_pa_bits));
    lemma_le_u32_of_bytes(p.sequence);
    lemma_le_u32_of_bytes(p.timestamp_ms);
    lemma_le_u32_of_bytes(p.accel_g_bits);
    lemma_le_u32_of_bytes(p.delta_pa_bits);
    assert(le_u32(w, 8) == le_u32(le_bytes(p.sequence), 0));
    assert(le_u32(w, 12) == le_u32(le_bytes(p.timestamp_ms), 0));
    assert(le_u32(w, 16) == le_u32(le_bytes(p.accel_g_bits), 0));
    assert(le_u32(w, 20) == le_u32(le_bytes(p.delta_pa_bits), 0));
    assert(q.node_id@ =~= p.node_id@);
    assert(q.node_id == p.node_id);
}

/// Serializing the record decoded from 24 bytes gives those bytes back.
pub proof fn lemma_payload_bytes_round_trip(b: Seq<u8>, q: LimaPayload)
    requires
        b.len() == 24,
        q.decodes_from(b),
    ensures
        q.wire() == b,
{
    lemma_le_bytes_of_u32(b, 8);
    lemma_le_bytes_of_u32(b, 12);
    lemma_le_bytes_of_u32(b, 16);
    lemma_le_bytes_of_u32(b, 20);
    assert(q.wire() =~= b);
}

} // verus!
