use livesplit_hotkeys::input::{key_event_from_record, KeyEvent, RECORD_LEN};

fn record(ty: u16, code: u16, value: u32) -> [u8; 24] {
    let mut b = [0u8; RECORD_LEN];
    b[16..18].copy_from_slice(&ty.to_le_bytes());
    b[18..20].copy_from_slice(&code.to_le_bytes());
    b[20..24].copy_from_slice(&value.to_le_bytes());
    b
}

#[test]
fn press_record_decodes() {
    let r = key_event_from_record(&record(1, 57, 1));
    assert_eq!(r, Some(KeyEvent { code: 57, pressed: true }));
}

#[test]
fn release_record_decodes() {
    let r = key_event_from_record(&record(1, 57, 0));
    assert_eq!(r, Some(KeyEvent { code: 57, pressed: false }));
}

#[test]
fn autorepeat_record_is_dropped() {
    assert_eq!(key_event_from_record(&record(1, 57, 2)), None);
    assert_eq!(key_event_from_record(&record(1, 1, 2)), None);
    assert_eq!(key_event_from_record(&record(1, 0xffff, 2)), None);
}

#[test]
fn non_key_record_is_dropped() {
    // Type 2 is a relative-axis record; only key-class records pass.
    assert_eq!(key_event_from_record(&record(2, 57, 1)), None);
    assert_eq!(key_event_from_record(&record(0, 0, 0)), None);
}

#[test]
fn fields_read_little_endian() {
    let r = key_event_from_record(&record(1, 0x1234, 1));
    assert_eq!(r, Some(KeyEvent { code: 0x1234, pressed: true }));
    let mut b = record(1, 0, 1);
    // A stray timestamp never influences the decode.
    b[0] = 0xaa;
    b[8] = 0x55;
    assert_eq!(key_event_from_record(&b), Some(KeyEvent { code: 0, pressed: true }));
}
