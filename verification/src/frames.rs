//! Frames polled from the gateway database: each stored row carries its blob
//! hex-encoded; decoding turns rows into frames and sets aside the rows whose
//! blob is not valid hex.

use vstd::prelude::*;
use vstd::string::*;
use vstd::utf8::*;

use crate::text::{hex_decode, hex_decode_spec, hex_encode_spec, lemma_hex_round_trip};

verus! {

/// A row of the gateway's `events` table, as read from the database.
#[derive(Debug, Clone)]
pub struct EventRow {
    pub rowid: i64,
    pub node_id: String,
    pub received_at: i64,
    pub event_type: u8,
    pub rssi: i32,
    pub raw_blob_hex: String,
}

/// A frame as read from the gateway `events` table, its blob decoded.
/// Only signature-verified rows are read, so every frame here was verified.
#[derive(Debug, Clone)]
pub struct RawFrame {
    pub rowid: i64,
    pub node_id: String,
    pub received_at: i64,
    pub event_type: u8,
    pub rssi: i32,
    pub raw_blob: Vec<u8>,
}

/// The blob of a row is valid hex.
pub open spec fn row_decodes(r: EventRow) -> bool {
    hex_decode_spec(encode_utf8(r.raw_blob_hex@)) is Some
}

/// `f` is the frame that row `r` decodes to.
pub open spec fn frame_of_row(f: RawFrame, r: EventRow) -> bool {
    &&& f.rowid == r.rowid
    &&& f.node_id@ == r.node_id@
    &&& f.received_at == r.received_at
    &&& f.event_type == r.event_type
    &&& f.rssi == r.rssi
    &&& hex_decode_spec(encode_utf8(r.raw_blob_hex@)) == Some(f.raw_blob@)
}

/// The rows whose blob decodes, in order.
pub open spec fn decodable_rows(rows: Seq<EventRow>) -> Seq<EventRow>
    decreases rows.len(),
{
    if rows.len() == 0 {
        seq![]
    } else if row_decodes(rows.last()) {
        decodable_rows(rows.drop_last()).push(rows.last())
    } else {
        decodable_rows(rows.drop_last())
    }
}

/// The row ids of the rows whose blob does not decode, in order.
pub open spec fn undecodable_rowids(rows: Seq<EventRow>) -> Seq<i64>
    decreases rows.len(),
{
    if rows.len() == 0 {
        seq![]
    } else if row_decodes(rows.last()) {
        undecodable_rowids(rows.drop_last())
    } else {
        undecodable_rowids(rows.drop_last()).push(rows.last().rowid)
    }
}

/// A row whose blob text is the hex rendering of some bytes (as the gateway
/// stores it) decodes to exactly those bytes.
pub proof fn lemma_stored_blob_decodes(row: EventRow, blob: Seq<u8>)
    requires
        row.raw_blob_hex@ == hex_encode_spec(blob),
    ensures
        row_decodes(row),
        hex_decode_spec(encode_utf8(row.raw_blob_hex@)) == Some(blob),
{
    lemma_hex_round_trip(blob);
}

/// Decodes the blob of every row, in order: rows whose blob is valid hex
/// become frames; the others are returned apart with the decoding error.
pub fn frames_from_rows(rows: &Vec<EventRow>) -> (r: (Vec<RawFrame>, Vec<(i64, hex::FromHexError)>))
    ensures
        r.0@.len() == decodable_rows(rows@).len(),
        forall|k: int|
            0 <= k < r.0@.len() ==> frame_of_row(#[trigger] r.0@[k], decodable_rows(rows@)[k]),
        r.1@.len() == undecodable_rowids(rows@).len(),
        forall|k: int| 0 <= k < r.1@.len() ==> (#[trigger] r.1@[k]).0 == undecodable_rowids(rows@)[k],
{
    let mut frames: Vec<RawFrame> = Vec::new();
    let mut skipped: Vec<(i64, hex::FromHexError)> = Vec::new();
    let mut i: usize = 0;
    while i < rows.len()
        invariant
            0 <= i <= rows@.len(),
            frames@.len() == decodable_rows(rows@.subrange(0, i as int)).len(),
            forall|k: int|
                0 <= k < frames@.len() ==> frame_of_row(
                    #[trigger] frames@[k],
                    decodable_rows(rows@.subrange(0, i as int))[k],
                ),
            skipped@.len() == undecodable_rowids(rows@.subrange(0, i as int)).len(),
            forall|k: int|
                0 <= k < skipped@.len() ==> (#[trigger] skipped@[k]).0 == undecodable_rowids(
                    rows@.subrange(0, i as int),
                )[k],
        decreases rows@.len() - i,
    {
        let ghost pre = rows@.subrange(0, i as int);
        let ghost post = rows@.subrange(0, i + 1);
        proof {
            assert(post.drop_last() =~= pre);
            assert(post.last() == rows@[i as int]);
        }
        let row = &rows[i];
        match hex_decode(row.raw_blob_hex.as_str().as_bytes()) {
            Ok(bytes) => {
                frames.push(
                    RawFrame {
                        rowid: row.rowid,
                        node_id: row.node_id.clone(),
                        received_at: row.received_at,
                        event_type: row.event_type,
                        rssi: row.rssi,
                        raw_blob: bytes,
                    },
                );
            },
            Err(e) => {
                skipped.push((row.rowid, e));
            },
        }
        i = i + 1;
    }
    assert(rows@.subrange(0, rows@.len() as int) =~= rows@);
    (frames, skipped)
}

} // verus!
