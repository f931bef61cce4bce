use nomad::input::{Button, Key};
use nomad::keymap::{fallback_code, positional_code, to_inject_button, to_inject_key, InjectButton, InjectKey};
use nomad::protocol::Os;

#[test]
fn rdev_letters_roundtrip_through_core_to_enigo() {
    // Every captured letter must give an injectable key.
    for core in [Key::A, Key::Z, Key::Num5, Key::Return, Key::ShiftLeft] {
        for os in [Os::MacOs, Os::Windows, Os::Linux, Os::Other] {
            assert!(to_inject_key(core, os).is_some(), "{core:?} should be injectable");
        }
    }
}

#[test]
fn unknown_rdev_key_falls_back_to_raw() {
    for os in [Os::MacOs, Os::Windows, Os::Linux] {
        assert!(to_inject_key(Key::Raw(999), os).is_none());
    }
}

#[test]
fn buttons_roundtrip() {
    assert_eq!(to_inject_button(Button::Left), InjectButton::Left);
    assert_eq!(to_inject_button(Button::Right), InjectButton::Right);
    assert_eq!(to_inject_button(Button::Middle), InjectButton::Middle);
}

#[test]
fn positional_codes_per_platform() {
    assert_eq!(positional_code(Key::A, Os::MacOs), Some(0x00));
    assert_eq!(positional_code(Key::A, Os::Windows), Some(0x41));
    assert_eq!(positional_code(Key::A, Os::Linux), None);
    assert_eq!(positional_code(Key::F1, Os::MacOs), None);
}

#[test]
fn symbolic_keys_off_mac_and_windows() {
    assert_eq!(to_inject_key(Key::A, Os::Linux), Some(InjectKey::Unicode('a')));
    assert_eq!(to_inject_key(Key::Num5, Os::Linux), Some(InjectKey::Unicode('5')));
    assert_eq!(to_inject_key(Key::F1, Os::Linux), Some(InjectKey::F1));
    assert_eq!(to_inject_key(Key::A, Os::MacOs), Some(InjectKey::Other(0x00)));
    assert!(to_inject_key(Key::Insert, Os::Windows).is_none());
}

#[test]
fn fallback_codes_are_out_of_scan_code_range() {
    // FNV-1a of "" is 0x811c9dc5; with the top bit set it stays.
    assert_eq!(fallback_code(b""), 0x811c_9dc5);
    // FNV-1a of "a" is 0xe40c292c.
    assert_eq!(fallback_code(b"a"), 0xe40c_292c);
    assert!(fallback_code(b"Unknown(42)") >= 0x8000_0000);
    assert_eq!(fallback_code(b"KeyQ"), fallback_code(b"KeyQ"));
}
