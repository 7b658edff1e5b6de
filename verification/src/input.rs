//! Decoding of raw keyboard transition records.
//!
//! A device delivers fixed-size binary records; each carries a type field, a
//! key-code field and a value field at fixed offsets. Only key-class records
//! with value 0 (release) or 1 (press) become key events; autorepeat records
//! (value 2) and everything else are dropped. The fields are read as
//! little-endian integers at fixed offsets, so no memory reinterpretation is
//! needed.

use vstd::prelude::*;

verus! {

/// A normalized key transition: which key, and whether it went down.
#[derive(Clone, Copy, Debug, PartialEq, Eq, Structural)]
pub struct KeyEvent {
    /// Hardware-defined numeric key identifier.
    pub code: u32,
    /// True for a press, false for a release.
    pub pressed: bool,
}

/// Length in bytes of one raw input record: a 16-byte timestamp, then a
/// 16-bit type, a 16-bit code and a 32-bit value, all little-endian.
pub const RECORD_LEN: usize = 24;

/// Event type tag of key-class records.
pub const EV_KEY_TYPE: u16 = 1;

/// A 16-bit little-endian integer from two bytes.
pub open spec fn le16(b0: u8, b1: u8) -> u16 {
    (b0 + b1 * 256) as u16
}

/// A 32-bit little-endian integer from four bytes.
pub open spec fn le32(b0: u8, b1: u8, b2: u8, b3: u8) -> u32 {
    (b0 + b1 * 256 + b2 * 65536 + b3 * 16777216) as u32
}

/// What a raw record decodes to: a key event for key-class records whose
/// value is 0 (release) or 1 (press), and nothing for every other record,
/// autorepeat (value 2) included.
pub open spec fn spec_record_event(b: Seq<u8>) -> Option<KeyEvent>
    recommends
        b.len() == RECORD_LEN,
{
    let ty = le16(b[16], b[17]);
    let code = le16(b[18], b[19]);
    let value = le32(b[20], b[21], b[22], b[23]);
    if ty == EV_KEY_TYPE && (value == 0 || value == 1) {
        Some(KeyEvent { code: code as u32, pressed: value == 1 })
    } else {
        None
    }
}

/// Relies on `input_event_codes_hashmap::EV`: its entry for "KEY", the type
/// tag of key-class records, is 1.
#[verifier::external_body]
fn ev_key_type() -> (r: u16)
    ensures
        r == EV_KEY_TYPE,
{
    input_event_codes_hashmap::EV["KEY"] as u16
}

/// Decodes one raw record; returns the key event it carries, if any.
pub fn key_event_from_record(buf: &[u8; 24]) -> (r: Option<KeyEvent>)
    ensures
        r == spec_record_event(buf@),
{
    let ty: u16 = buf[16] as u16 + (buf[17] as u16) * 256;
    let code: u16 = buf[18] as u16 + (buf[19] as u16) * 256;
    let value: u32 = buf[20] as u32 + (buf[21] as u32) * 256 + (buf[22] as u32) * 65536 + (
    buf[23] as u32) * 16777216;
    let ev_key = ev_key_type();
    if ty == ev_key && value <= 1 {
        Some(KeyEvent { code: code as u32, pressed: value == 1 })
    } else {
        None
    }
}

/// Autorepeat suppression: a raw record whose value field is 2 never decodes
/// to a key event, whatever its type and code fields hold.
pub proof fn lemma_autorepeat_suppressed(b: Seq<u8>)
    requires
        b.len() == RECORD_LEN,
        le32(b[20], b[21], b[22], b[23]) == 2,
    ensures
        spec_record_event(b) is None,
{
}

} // verus!
