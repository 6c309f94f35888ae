use firmware_setup::key::{key, Key, TextInputKey};
use firmware_setup::Status;

fn raw(scan_code: u16, unicode_char: u16) -> TextInputKey {
    TextInputKey { scan_code, unicode_char }
}

#[test]
fn decodes_control_characters() {
    assert_eq!(Key::from(raw(0, 8)), Key::Backspace);
    assert_eq!(Key::from(raw(0, 9)), Key::Tab);
    assert_eq!(Key::from(raw(0, 13)), Key::Enter);
}

#[test]
fn decodes_printable_characters() {
    assert_eq!(Key::from(raw(0, 'a' as u16)), Key::Character('a'));
    assert_eq!(Key::from(raw(0, '7' as u16)), Key::Character('7'));
    assert_eq!(Key::from(raw(0, 0x00e9)), Key::Character('\u{e9}'));
}

#[test]
fn lone_surrogate_becomes_replacement_character() {
    assert_eq!(Key::from(raw(0, 0xd800)), Key::Character('\u{fffd}'));
    assert_eq!(Key::from(raw(0, 0xdfff)), Key::Character('\u{fffd}'));
}

#[test]
fn decodes_scan_codes() {
    assert_eq!(Key::from(raw(1, 0)), Key::Up);
    assert_eq!(Key::from(raw(2, 0)), Key::Down);
    assert_eq!(Key::from(raw(3, 0)), Key::Right);
    assert_eq!(Key::from(raw(4, 0)), Key::Left);
    assert_eq!(Key::from(raw(9, 0)), Key::PageUp);
    assert_eq!(Key::from(raw(10, 0)), Key::PageDown);
    assert_eq!(Key::from(raw(11, 0)), Key::F1);
    assert_eq!(Key::from(raw(22, 0)), Key::F12);
    assert_eq!(Key::from(raw(23, 0)), Key::Escape);
    assert_eq!(Key::from(raw(0x100, 0)), Key::Scancode(0x100));
}

#[test]
fn key_passes_read_failure_on() {
    assert_eq!(key(Err(Status::NotReady)), Err(Status::NotReady));
    assert_eq!(key(Err(Status::Failure(7))), Err(Status::Failure(7)));
    assert_eq!(key(Ok(raw(23, 0))), Ok(Key::Escape));
}
