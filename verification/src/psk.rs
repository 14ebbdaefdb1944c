//! Client start-up inputs: the pre-shared key typed by the operator and the
//! database path.

use vstd::prelude::*;
use vstd::string::*;
use vstd::utf8::*;

use crate::text::{
    decimal, hex_decodable, hex_decode, hex_decode_spec, hex_value, push_decimal, trim_spec, trim_str,
};

verus! {

/// Database path used when `LIMA_DB` is not set.
pub const DEFAULT_DB_PATH: &'static str = "/home/arx/lima-node/gateway/lima_gateway.db";

/// Why a pre-shared key was refused.
#[derive(Debug, Clone, Copy, PartialEq, Eq, Structural)]
pub enum PskError {
    /// The trimmed input is not valid hex.
    NotHex,
    /// The input decodes to a number of bytes other than 32.
    WrongLength { got: usize },
}

/// The text that describes each error.
pub open spec fn psk_error_message(e: PskError) -> Seq<char> {
    match e {
        PskError::NotHex => "PSK is not valid hex"@,
        PskError::WrongLength { got } => "PSK must be 32 bytes (64 hex chars), got "@ + decimal(
            got as nat,
        ),
    }
}

impl PskError {
    /// The text that describes this error.
    pub fn message(&self) -> (r: String)
        ensures
            r@ == psk_error_message(*self),
    {
        match self {
            PskError::NotHex => String::from_str("PSK is not valid hex"),
            PskError::WrongLength { got } => {
                let mut s = String::from_str("PSK must be 32 bytes (64 hex chars), got ");
                push_decimal(&mut s, *got as u64);
                s
            },
        }
    }
}

/// What `parse_psk` returns for an input: the input without surrounding
/// white space must be hex for exactly 32 bytes.
pub open spec fn psk_outcome(raw: Seq<char>, r: Result<[u8; 32], PskError>) -> bool {
    match hex_decode_spec(encode_utf8(trim_spec(raw))) {
        None => r == Err::<[u8; 32], PskError>(PskError::NotHex),
        Some(b) => if b.len() == 32 {
            r matches Ok(k) && k@ == b
        } else {
            r == Err::<[u8; 32], PskError>(PskError::WrongLength { got: b.len() as usize })
        },
    }
}

/// A key is accepted exactly when the trimmed input is 64 hex digits, and
/// then it is that input decoded byte for byte: key byte `i` is the value of
/// hex digits `2i` (high nibble) and `2i + 1` (low nibble).
pub proof fn lemma_psk_key_bytes(raw: Seq<char>, r: Result<[u8; 32], PskError>)
    requires
        psk_outcome(raw, r),
    ensures
        ({
            let t = encode_utf8(trim_spec(raw));
            &&& r is Ok <==> (t.len() == 64 && hex_decodable(t))
            &&& r is Ok ==> forall|i: int|
                0 <= i < 32 ==> #[trigger] r->Ok_0@[i] == hex_value(t[2 * i])->0 * 16 + hex_value(
                    t[2 * i + 1],
                )->0
        }),
{
    let t = encode_utf8(trim_spec(raw));
    if hex_decodable(t) {
        let b = hex_decode_spec(t)->0;
        assert(b.len() == t.len() / 2);
        if r is Ok {
            assert forall|i: int| 0 <= i < 32 implies #[trigger] r->Ok_0@[i] == hex_value(
                t[2 * i],
            )->0 * 16 + hex_value(t[2 * i + 1])->0 by {
                assert(hex_value(t[2 * i]) is Some);
                assert(hex_value(t[2 * i + 1]) is Some);
                assert(b[i] == (hex_value(t[2 * i])->0 * 16 + hex_value(t[2 * i + 1])->0) as u8);
            }
        }
    }
}

/// Decodes and checks a hex pre-shared key; white space around it is ignored.
pub fn parse_psk(raw: &str) -> (r: Result<[u8; 32], PskError>)
    ensures
        psk_outcome(raw@, r),
        ({
            let t = encode_utf8(trim_spec(raw@));
            &&& r is Ok <==> (t.len() == 64 && hex_decodable(t))
            &&& r is Ok ==> forall|i: int|
                0 <= i < 32 ==> #[trigger] r->Ok_0@[i] == hex_value(t[2 * i])->0 * 16 + hex_value(
                    t[2 * i + 1],
                )->0
        }),
{
    let trimmed = trim_str(raw);
    let bytes = match hex_decode(trimmed.as_bytes()) {
        Ok(b) => b,
        Err(_) => {
            let r = Err(PskError::NotHex);
            proof {
                lemma_psk_key_bytes(raw@, r);
            }
            return r;
        },
    };
    if bytes.len() != 32 {
        let r = Err(PskError::WrongLength { got: bytes.len() });
        proof {
            lemma_psk_key_bytes(raw@, r);
        }
        return r;
    }
    let mut key = [0u8; 32];
    let mut i: usize = 0;
    while i < 32
        invariant
            0 <= i <= 32,
            bytes@.len() == 32,
            forall|j: int| 0 <= j < i ==> key@[j] == bytes@[j],
        decreases 32 - i,
    {
        key[i] = bytes[i];
        i = i + 1;
    }
    assert(key@ =~= bytes@);
    proof {
        lemma_psk_key_bytes(raw@, Ok(key));
    }
    Ok(key)
}

/// The database path: the value of `LIMA_DB` when it is set, else the
/// compiled-in default.
pub fn resolve_db_path_from(lima_db: Option<String>) -> (r: String)
    ensures
        match lima_db {
            Some(v) => r@ == v@,
            None => r@ == DEFAULT_DB_PATH@,
        },
{
    match lima_db {
        Some(v) => v,
        None => String::from_str(DEFAULT_DB_PATH),
    }
}

} // verus!
