//! Client-side frame decryption: rebuilding the full frame from the stored
//! blob, AES-256-GCM decryption (through the `aes-gcm` crate) and parsing of
//! the event record.

use aes_gcm::aead::{Aead, KeyInit, Payload};
use aes_gcm::{Aes256Gcm, Key, Nonce};
use vstd::prelude::*;
use vstd::string::*;

use crate::text::{decimal, push_decimal, push_str};
use crate::wire::{le_u32, read_le_u32, LimaPayload, PROTO_VERSION};

verus! {

/// Full frame length.
pub const LF_FULL_LEN: usize = 184;
/// Stored blob length: the frame without its first two bytes.
pub const LF_STRIPPED_LEN: usize = 182;
/// Header bytes, authenticated as associated data.
pub const LF_HEADER_LEN: usize = 4;
/// Offset of the nonce in the frame.
pub const LF_NONCE_OFFSET: usize = 4;
/// Nonce length.
pub const LF_NONCE_LEN: usize = 12;
/// Offset of the ciphertext in the frame.
pub const LF_CIPHER_OFFSET: usize = 16;
/// Ciphertext length.
pub const LF_CIPHER_LEN: usize = 88;
/// Offset of the authentication tag in the frame.
pub const LF_TAG_OFFSET: usize = 104;
/// Authentication tag length.
pub const LF_TAG_LEN: usize = 16;
/// Event record length.
pub const LER_LEN: usize = 24;
/// Node id length inside the event record.
pub const LER_NODE_ID_LEN: usize = 6;
/// Inner signature length, after the event record in the plaintext.
pub const INNER_SIG_LEN: usize = 64;
/// Decrypted plaintext length.
pub const PLAINTEXT_LEN: usize = LER_LEN + INNER_SIG_LEN;

/// A decrypted event record. The two sensor readings are IEEE-754 `f32`
/// values held as their bit patterns (`f32::to_bits`).
#[derive(Debug, Clone, Copy, PartialEq, Eq)]
pub struct Ler {
    pub node_id: [u8; 6],
    pub event_type: u8,
    pub sequence: u32,
    pub timestamp_ms: u32,
    pub accel_g_bits: u32,
    pub delta_pa_bits: u32,
}

impl Ler {
    /// This record is the one that the 24 bytes `b` encode (byte 7 is
    /// reserved and ignored).
    pub open spec fn decodes_from(&self, b: Seq<u8>) -> bool {
        &&& self.node_id@ == b.subrange(0, 6)
        &&& self.event_type == b[6]
        &&& self.sequence == le_u32(b, 8)
        &&& self.timestamp_ms == le_u32(b, 12)
        &&& self.accel_g_bits == le_u32(b, 16)
        &&& self.delta_pa_bits == le_u32(b, 20)
    }
}

/// Why a blob could not be turned into an event record.
#[derive(Debug, Clone, Copy, PartialEq, Eq, Structural)]
pub enum CryptoError {
    /// The stored blob is not 182 bytes long.
    BlobLength { got: usize },
    /// AES-256-GCM refused the frame: wrong key or corrupted frame.
    DecryptFailed,
    /// The plaintext is not 88 bytes long.
    PlaintextLength { got: usize },
    /// The event record is not 24 bytes long.
    LerLength,
}

/// The text that describes each error.
pub open spec fn crypto_error_message(e: CryptoError) -> Seq<char> {
    match e {
        CryptoError::BlobLength { got } => "expected 182B stripped blob, got "@ + decimal(
            got as nat,
        ) + "B"@,
        CryptoError::DecryptFailed => "AES-256-GCM decrypt failed — wrong key or corrupted frame"@,
        CryptoError::PlaintextLength { got } => "unexpected plaintext length: expected 88B, got "@
            + decimal(got as nat) + "B"@,
        CryptoError::LerLength => "LER must be 24 bytes"@,
    }
}

impl CryptoError {
    /// The text that describes this error.
    pub fn message(&self) -> (r: String)
        ensures
            r@ == crypto_error_message(*self),
    {
        match self {
            CryptoError::BlobLength { got } => {
                let mut s = String::from_str("expected 182B stripped blob, got ");
                push_decimal(&mut s, *got as u64);
                push_str(&mut s, "B");
                s
            },
            CryptoError::DecryptFailed => String::from_str(
                "AES-256-GCM decrypt failed — wrong key or corrupted frame",
            ),
            CryptoError::PlaintextLength { got } => {
                let mut s = String::from_str("unexpected plaintext length: expected 88B, got ");
                push_decimal(&mut s, *got as u64);
                push_str(&mut s, "B");
                s
            },
            CryptoError::LerLength => String::from_str("LER must be 24 bytes"),
        }
    }
}

/// The full frame rebuilt from a stored blob: protocol version, event type,
/// then the blob.
pub open spec fn full_frame(stripped: Seq<u8>, event_type: u8) -> Seq<u8> {
    seq![PROTO_VERSION, event_type] + stripped
}

/// Rebuilds the full 184-byte frame from the 182-byte stored blob by putting
/// back the protocol version and the event type in front of it.
pub fn reconstruct_lf(stripped: &[u8], event_type: u8) -> (r: Result<[u8; 184], CryptoError>)
    ensures
        r is Ok <==> stripped@.len() == LF_STRIPPED_LEN,
        r matches Ok(full) ==> full@ == full_frame(stripped@, event_type),
        r matches Err(e) ==> e == (CryptoError::BlobLength { got: stripped@.len() as usize }),
{
    if stripped.len() != LF_STRIPPED_LEN {
        return Err(CryptoError::BlobLength { got: stripped.len() });
    }
    let mut full = [0u8; 184];
    full[0] = PROTO_VERSION;
    full[1] = event_type;
    let mut i: usize = 0;
    while i < LF_STRIPPED_LEN
        invariant
            0 <= i <= LF_STRIPPED_LEN,
            stripped@.len() == LF_STRIPPED_LEN,
            full@[0] == PROTO_VERSION,
            full@[1] == event_type,
            forall|j: int| 0 <= j < i ==> full@[j + 2] == stripped@[j],
        decreases LF_STRIPPED_LEN - i,
    {
        full[i + 2] = stripped[i];
        i = i + 1;
    }
    assert(full@ =~= full_frame(stripped@, event_type));
    Ok(full)
}

/// Parses a 24-byte event record; multi-byte fields are little-endian.
pub fn parse_ler(bytes: &[u8]) -> (r: Result<Ler, CryptoError>)
    ensures
        bytes@.len() != LER_LEN ==> r == Err::<Ler, CryptoError>(CryptoError::LerLength),
        bytes@.len() == LER_LEN ==> (r matches Ok(l) && l.decodes_from(bytes@)),
{
    if bytes.len() != LER_LEN {
        return Err(CryptoError::LerLength);
    }
    let mut node_id = [0u8; 6];
    let mut i: usize = 0;
    while i < LER_NODE_ID_LEN
        invariant
            0 <= i <= LER_NODE_ID_LEN,
            bytes@.len() == LER_LEN,
            forall|j: int| 0 <= j < i ==> node_id@[j] == bytes@[j],
        decreases LER_NODE_ID_LEN - i,
    {
        node_id[i] = bytes[i];
        i = i + 1;
    }
    assert(node_id@ =~= bytes@.subrange(0, 6));
    Ok(
        Ler {
            node_id,
            event_type: bytes[6],
            sequence: read_le_u32(bytes, 8),
            timestamp_ms: read_le_u32(bytes, 12),
            accel_g_bits: read_le_u32(bytes, 16),
            delta_pa_bits: read_le_u32(bytes, 20),
        },
    )
}

/// What the decryption pipeline returns for a given plaintext: the
/// plaintext must be 88 bytes, and its first 24 bytes are the event record.
pub open spec fn plaintext_outcome(p: Seq<u8>, r: Result<Ler, CryptoError>) -> bool {
    if p.len() != PLAINTEXT_LEN {
        r == Err::<Ler, CryptoError>(CryptoError::PlaintextLength { got: p.len() as usize })
    } else {
        r matches Ok(l) && l.decodes_from(p.subrange(0, LER_LEN as int))
    }
}

/// Turns a decrypted plaintext into the event record it starts with; the
/// 64-byte inner signature after it is not checked.
pub fn ler_from_plaintext(plaintext: &[u8]) -> (r: Result<Ler, CryptoError>)
    ensures
        plaintext_outcome(plaintext@, r),
{
    if plaintext.len() != PLAINTEXT_LEN {
        return Err(CryptoError::PlaintextLength { got: plaintext.len() });
    }
    let record = &plaintext[0..LER_LEN];
    parse_ler(record)
}

/// Name for what AES-256-GCM decryption (aes-gcm's `Aes256Gcm::decrypt`)
/// gives for a key, a nonce, a ciphertext followed by its tag, and associated
/// data: the plaintext, or `None` where the tag does not authenticate.
pub uninterp spec fn aes256gcm_decrypt(
    key: Seq<u8>,
    nonce: Seq<u8>,
    ciphertext_and_tag: Seq<u8>,
    aad: Seq<u8>,
) -> Option<Seq<u8>>;

/// The `aes-gcm` crate's (opaque) decryption error.
#[verifier::external_type_specification]
#[verifier::external_body]
pub struct ExAeadError(aes_gcm::Error);

/// `Aes256Gcm::decrypt` with the 32-byte key, a 12-byte nonce, the ciphertext
/// followed by its 16-byte tag, and the associated data. Its result is named
/// `aes256gcm_decrypt`; as aes-gcm's source shows, a plaintext it returns is
/// the input without its 16-byte tag, so input shorter than a tag always fails.
#[verifier::external_body]
fn aes256gcm_open(key: &[u8; 32], nonce: &[u8], ciphertext_and_tag: &[u8], aad: &[u8]) -> (r:
    Result<Vec<u8>, aes_gcm::Error>)
    requires
        nonce@.len() == 12,
    ensures
        r is Ok <==> aes256gcm_decrypt(key@, nonce@, ciphertext_and_tag@, aad@) is Some,
        r matches Ok(p) ==> aes256gcm_decrypt(key@, nonce@, ciphertext_and_tag@, aad@) == Some(
            p@,
        ),
        r matches Ok(p) ==> ciphertext_and_tag@.len() >= 16 && p@.len()
            == ciphertext_and_tag@.len() - 16,
{
    let cipher = Aes256Gcm::new(Key::<Aes256Gcm>::from_slice(key));
    cipher.decrypt(Nonce::from_slice(nonce), Payload { msg: ciphertext_and_tag, aad })
}

/// What `decrypt_ler` returns for a stored blob, its event type and a key.
pub open spec fn decrypt_outcome(
    blob: Seq<u8>,
    event_type: u8,
    key: Seq<u8>,
    r: Result<Ler, CryptoError>,
) -> bool {
    if blob.len() != LF_STRIPPED_LEN {
        r == Err::<Ler, CryptoError>(CryptoError::BlobLength { got: blob.len() as usize })
    } else {
        let lf = full_frame(blob, event_type);
        match aes256gcm_decrypt(
            key,
            lf.subrange(4, 16),
            lf.subrange(16, 120),
            lf.subrange(0, 4),
        ) {
            None => r == Err::<Ler, CryptoError>(CryptoError::DecryptFailed),
            Some(p) => plaintext_outcome(p, r),
        }
    }
}

/// The event record that 24 bytes encode.
pub open spec fn ler_of(b: Seq<u8>) -> Ler {
    choose|l: Ler| l.decodes_from(b)
}

/// Only one event record decodes from given bytes.
pub proof fn lemma_ler_of_unique(l: Ler, b: Seq<u8>)
    requires
        l.decodes_from(b),
    ensures
        ler_of(b) == l,
{
    let m = ler_of(b);
    assert(m.decodes_from(b));
    assert(m.node_id =~= l.node_id);
}

/// What `decrypt_ler` returns for a stored blob, its event type and a key,
/// as a value.
pub open spec fn decrypt_result(blob: Seq<u8>, event_type: u8, key: Seq<u8>) -> Result<
    Ler,
    CryptoError,
> {
    if blob.len() != LF_STRIPPED_LEN {
        Err(CryptoError::BlobLength { got: blob.len() as usize })
    } else {
        let lf = full_frame(blob, event_type);
        match aes256gcm_decrypt(key, lf.subrange(4, 16), lf.subrange(16, 120), lf.subrange(0, 4)) {
            None => Err(CryptoError::DecryptFailed),
            Some(p) => if p.len() != PLAINTEXT_LEN {
                Err(CryptoError::PlaintextLength { got: p.len() as usize })
            } else {
                Ok(ler_of(p.subrange(0, LER_LEN as int)))
            },
        }
    }
}

/// The outcome that `decrypt_outcome` describes is `decrypt_result`.
pub proof fn lemma_decrypt_outcome_is_result(
    blob: Seq<u8>,
    event_type: u8,
    key: Seq<u8>,
    r: Result<Ler, CryptoError>,
)
    requires
        decrypt_outcome(blob, event_type, key, r),
    ensures
        r == decrypt_result(blob, event_type, key),
{
    if let Ok(l) = r {
        let lf = full_frame(blob, event_type);
        let p = aes256gcm_decrypt(key, lf.subrange(4, 16), lf.subrange(16, 120), lf.subrange(0, 4))->0;
        lemma_ler_of_unique(l, p.subrange(0, LER_LEN as int));
    }
}

/// Decrypts a stored 182-byte blob and parses the event record inside: the
/// frame is rebuilt, its header is the associated data, bytes 4..16 are the
/// nonce and bytes 16..120 the ciphertext with its tag.
pub fn decrypt_ler(raw_blob: &[u8], event_type: u8, key: &[u8; 32]) -> (r: Result<
    Ler,
    CryptoError,
>)
    ensures
        decrypt_outcome(raw_blob@, event_type, key@, r),
        r == decrypt_result(raw_blob@, event_type, key@),
{
    let r = match reconstruct_lf(raw_blob, event_type) {
        Err(e) => Err(e),
        Ok(lf) => {
            let frame: &[u8] = &lf;
            let aad = &frame[0..LF_HEADER_LEN];
            let nonce = &frame[LF_NONCE_OFFSET..LF_NONCE_OFFSET + LF_NONCE_LEN];
            let sealed = &frame[LF_CIPHER_OFFSET..LF_TAG_OFFSET + LF_TAG_LEN];
            match aes256gcm_open(key, nonce, sealed, aad) {
                Ok(plaintext) => ler_from_plaintext(plaintext.as_slice()),
                Err(_) => Err(CryptoError::DecryptFailed),
            }
        },
    };
    proof {
        lemma_decrypt_outcome_is_result(raw_blob@, event_type, key@, r);
    }
    r
}

/// An event record parsed from the wire bytes of a payload record carries
/// that record's fields.
pub proof fn lemma_ler_of_payload_wire(p: LimaPayload, l: Ler)
    requires
        l.decodes_from(p.wire()),
    ensures
        l.node_id == p.node_id,
        l.event_type == p.event_type,
        l.sequence == p.sequence,
        l.timestamp_ms == p.timestamp_ms,
        l.accel_g_bits == p.accel_g_bits,
        l.delta_pa_bits == p.delta_pa_bits,
{
    let q = LimaPayload {
        node_id: l.node_id,
        event_type: l.event_type,
        reserved: p.reserved,
        sequence: l.sequence,
        timestamp_ms: l.timestamp_ms,
        accel_g_bits: l.accel_g_bits,
        delta_pa_bits: l.delta_pa_bits,
    };
    assert(q.decodes_from(p.wire()));
    crate::wire::lemma_payload_wire_round_trip(p, q);
}

/// Decrypting a stored blob whose plaintext starts with the wire bytes of a
/// payload record yields an event record with that record's fields.
pub proof fn lemma_decrypted_record_fields(
    blob: Seq<u8>,
    event_type: u8,
    key: Seq<u8>,
    p: LimaPayload,
    r: Result<Ler, CryptoError>,
)
    requires
        decrypt_outcome(blob, event_type, key, r),
        blob.len() == LF_STRIPPED_LEN,
        ({
            let lf = full_frame(blob, event_type);
            aes256gcm_decrypt(key, lf.subrange(4, 16), lf.subrange(16, 120), lf.subrange(0, 4))
                matches Some(pt) && pt.len() == PLAINTEXT_LEN && pt.subrange(0, LER_LEN as int)
                == p.wire()
        }),
    ensures
        r matches Ok(l) && l.node_id == p.node_id && l.event_type == p.event_type && l.sequence
            == p.sequence && l.timestamp_ms == p.timestamp_ms && l.accel_g_bits == p.accel_g_bits
            && l.delta_pa_bits == p.delta_pa_bits,
{
    let l = r->Ok_0;
    lemma_ler_of_payload_wire(p, l);
}

} // verus!
