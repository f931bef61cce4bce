//! Mapping between the portable keys and what the injection layer needs:
//! positional virtual key codes where the target platform has them,
//! otherwise the symbolic key (US character for letters, digits and
//! punctuation).

use vstd::prelude::*;

use crate::input::{Button, Key};
use crate::protocol::Os;

verus! {

/// A key as the injection backend takes it.
#[derive(Debug, Clone, Copy, PartialEq, Eq, Structural)]
pub enum InjectKey {
    /// The key producing this character (US layout).
    Unicode(char),
    /// A platform virtual key code (positional: the layout of the target
    /// machine decides the character produced).
    Other(u32),
    F1, F2, F3, F4, F5, F6, F7, F8, F9, F10, F11, F12,
    Escape, Tab, CapsLock, Space, Return, Backspace, Delete,
    Home, End, PageUp, PageDown,
    UpArrow, DownArrow, LeftArrow, RightArrow,
    Shift, Control, Alt, Meta,
}

/// A mouse button as the injection backend takes it.
#[derive(Debug, Clone, Copy, PartialEq, Eq, Structural)]
pub enum InjectButton {
    Left,
    Right,
    Middle,
}

/// Converts a portable button into an injectable button.
pub fn to_inject_button(b: Button) -> (r: InjectButton)
    ensures
        b == Button::Left ==> r == InjectButton::Left,
        b == Button::Right ==> r == InjectButton::Right,
        b == Button::Middle ==> r == InjectButton::Middle,
{
    match b {
        Button::Left => InjectButton::Left,
        Button::Right => InjectButton::Right,
        Button::Middle => InjectButton::Middle,
    }
}

/// macOS `kVK_ANSI_*` virtual key codes (HIToolbox/Events.h), independent of
/// the layout: the layout of the client decides the character produced.
pub open spec fn macos_code(k: Key) -> Option<u32> {
    match k {
        Key::A => Some(0x00u32),
        Key::S => Some(0x01u32),
        Key::D => Some(0x02u32),
        Key::F => Some(0x03u32),
        Key::H => Some(0x04u32),
        Key::G => Some(0x05u32),
        Key::Z => Some(0x06u32),
        Key::X => Some(0x07u32),
        Key::C => Some(0x08u32),
        Key::V => Some(0x09u32),
        Key::B => Some(0x0Bu32),
        Key::Q => Some(0x0Cu32),
        Key::W => Some(0x0Du32),
        Key::E => Some(0x0Eu32),
        Key::R => Some(0x0Fu32),
        Key::Y => Some(0x10u32),
        Key::T => Some(0x11u32),
        Key::Num1 => Some(0x12u32),
        Key::Num2 => Some(0x13u32),
        Key::Num3 => Some(0x14u32),
        Key::Num4 => Some(0x15u32),
        Key::Num6 => Some(0x16u32),
        Key::Num5 => Some(0x17u32),
        Key::Equal => Some(0x18u32),
        Key::Num9 => Some(0x19u32),
        Key::Num7 => Some(0x1Au32),
        Key::Minus => Some(0x1Bu32),
        Key::Num8 => Some(0x1Cu32),
        Key::Num0 => Some(0x1Du32),
        Key::RightBracket => Some(0x1Eu32),
        Key::O => Some(0x1Fu32),
        Key::U => Some(0x20u32),
        Key::LeftBracket => Some(0x21u32),
        Key::I => Some(0x22u32),
        Key::P => Some(0x23u32),
        Key::L => Some(0x25u32),
        Key::J => Some(0x26u32),
        Key::Quote => Some(0x27u32),
        Key::K => Some(0x28u32),
        Key::SemiColon => Some(0x29u32),
        Key::BackSlash => Some(0x2Au32),
        Key::Comma => Some(0x2Bu32),
        Key::Slash => Some(0x2Cu32),
        Key::N => Some(0x2Du32),
        Key::M => Some(0x2Eu32),
        Key::Dot => Some(0x2Fu32),
        Key::BackQuote => Some(0x32u32),
        _ => None,
    }
}

/// Windows `VK_*` codes (the layout of the client applies to letters).
pub open spec fn windows_code(k: Key) -> Option<u32> {
    match k {
        Key::A => Some(0x41u32),
        Key::B => Some(0x42u32),
        Key::C => Some(0x43u32),
        Key::D => Some(0x44u32),
        Key::E => Some(0x45u32),
        Key::F => Some(0x46u32),
        Key::G => Some(0x47u32),
        Key::H => Some(0x48u32),
        Key::I => Some(0x49u32),
        Key::J => Some(0x4Au32),
        Key::K => Some(0x4Bu32),
        Key::L => Some(0x4Cu32),
        Key::M => Some(0x4Du32),
        Key::N => Some(0x4Eu32),
        Key::O => Some(0x4Fu32),
        Key::P => Some(0x50u32),
        Key::Q => Some(0x51u32),
        Key::R => Some(0x52u32),
        Key::S => Some(0x53u32),
        Key::T => Some(0x54u32),
        Key::U => Some(0x55u32),
        Key::V => Some(0x56u32),
        Key::W => Some(0x57u32),
        Key::X => Some(0x58u32),
        Key::Y => Some(0x59u32),
        Key::Z => Some(0x5Au32),
        Key::Num0 => Some(0x30u32),
        Key::Num1 => Some(0x31u32),
        Key::Num2 => Some(0x32u32),
        Key::Num3 => Some(0x33u32),
        Key::Num4 => Some(0x34u32),
        Key::Num5 => Some(0x35u32),
        Key::Num6 => Some(0x36u32),
        Key::Num7 => Some(0x37u32),
        Key::Num8 => Some(0x38u32),
        Key::Num9 => Some(0x39u32),
        Key::Minus => Some(0xBDu32),
        Key::Equal => Some(0xBBu32),
        Key::LeftBracket => Some(0xDBu32),
        Key::RightBracket => Some(0xDDu32),
        Key::BackSlash => Some(0xDCu32),
        Key::SemiColon => Some(0xBAu32),
        Key::Quote => Some(0xDEu32),
        Key::BackQuote => Some(0xC0u32),
        Key::Comma => Some(0xBCu32),
        Key::Dot => Some(0xBEu32),
        Key::Slash => Some(0xBFu32),
        _ => None,
    }
}

/// Positional virtual key code of `k` on the target platform `os`. Linux
/// has none (the injection backend takes a symbolic keysym there), nor do
/// other systems.
pub open spec fn positional_code_spec(k: Key, os: Os) -> Option<u32> {
    match os {
        Os::MacOs => macos_code(k),
        Os::Windows => windows_code(k),
        _ => None,
    }
}

/// Positional virtual key code of `k` on the target platform `os`, when it
/// has one.
pub fn positional_code(k: Key, os: Os) -> (r: Option<u32>)
    ensures
        r == positional_code_spec(k, os),
{
    match os {
        Os::MacOs => match k {
                Key::A => Some(0x00u32),
                Key::S => Some(0x01u32),
                Key::D => Some(0x02u32),
                Key::F => Some(0x03u32),
                Key::H => Some(0x04u32),
                Key::G => Some(0x05u32),
                Key::Z => Some(0x06u32),
                Key::X => Some(0x07u32),
                Key::C => Some(0x08u32),
                Key::V => Some(0x09u32),
                Key::B => Some(0x0Bu32),
                Key::Q => Some(0x0Cu32),
                Key::W => Some(0x0Du32),
                Key::E => Some(0x0Eu32),
                Key::R => Some(0x0Fu32),
                Key::Y => Some(0x10u32),
                Key::T => Some(0x11u32),
                Key::Num1 => Some(0x12u32),
                Key::Num2 => Some(0x13u32),
                Key::Num3 => Some(0x14u32),
                Key::Num4 => Some(0x15u32),
                Key::Num6 => Some(0x16u32),
                Key::Num5 => Some(0x17u32),
                Key::Equal => Some(0x18u32),
                Key::Num9 => Some(0x19u32),
                Key::Num7 => Some(0x1Au32),
                Key::Minus => Some(0x1Bu32),
                Key::Num8 => Some(0x1Cu32),
                Key::Num0 => Some(0x1Du32),
                Key::RightBracket => Some(0x1Eu32),
                Key::O => Some(0x1Fu32),
                Key::U => Some(0x20u32),
                Key::LeftBracket => Some(0x21u32),
                Key::I => Some(0x22u32),
                Key::P => Some(0x23u32),
                Key::L => Some(0x25u32),
                Key::J => Some(0x26u32),
                Key::Quote => Some(0x27u32),
                Key::K => Some(0x28u32),
                Key::SemiColon => Some(0x29u32),
                Key::BackSlash => Some(0x2Au32),
                Key::Comma => Some(0x2Bu32),
                Key::Slash => Some(0x2Cu32),
                Key::N => Some(0x2Du32),
                Key::M => Some(0x2Eu32),
                Key::Dot => Some(0x2Fu32),
                Key::BackQuote => Some(0x32u32),
                _ => None,
        },
        Os::Windows => match k {
                Key::A => Some(0x41u32),
                Key::B => Some(0x42u32),
                Key::C => Some(0x43u32),
                Key::D => Some(0x44u32),
                Key::E => Some(0x45u32),
                Key::F => Some(0x46u32),
                Key::G => Some(0x47u32),
                Key::H => Some(0x48u32),
                Key::I => Some(0x49u32),
                Key::J => Some(0x4Au32),
                Key::K => Some(0x4Bu32),
                Key::L => Some(0x4Cu32),
                Key::M => Some(0x4Du32),
                Key::N => Some(0x4Eu32),
                Key::O => Some(0x4Fu32),
                Key::P => Some(0x50u32),
                Key::Q => Some(0x51u32),
                Key::R => Some(0x52u32),
                Key::S => Some(0x53u32),
                Key::T => Some(0x54u32),
                Key::U => Some(0x55u32),
                Key::V => Some(0x56u32),
                Key::W => Some(0x57u32),
                Key::X => Some(0x58u32),
                Key::Y => Some(0x59u32),
                Key::Z => Some(0x5Au32),
                Key::Num0 => Some(0x30u32),
                Key::Num1 => Some(0x31u32),
                Key::Num2 => Some(0x32u32),
                Key::Num3 => Some(0x33u32),
                Key::Num4 => Some(0x34u32),
                Key::Num5 => Some(0x35u32),
                Key::Num6 => Some(0x36u32),
                Key::Num7 => Some(0x37u32),
                Key::Num8 => Some(0x38u32),
                Key::Num9 => Some(0x39u32),
                Key::Minus => Some(0xBDu32),
                Key::Equal => Some(0xBBu32),
                Key::LeftBracket => Some(0xDBu32),
                Key::RightBracket => Some(0xDDu32),
                Key::BackSlash => Some(0xDCu32),
                Key::SemiColon => Some(0xBAu32),
                Key::Quote => Some(0xDEu32),
                Key::BackQuote => Some(0xC0u32),
                Key::Comma => Some(0xBCu32),
                Key::Dot => Some(0xBEu32),
                Key::Slash => Some(0xBFu32),
                _ => None,
        },
        _ => None,
    }
}

/// Symbolic injectable key of `k` (US character for letters, digits and
/// punctuation), `None` when `k` is not injectable.
pub open spec fn symbolic_key(k: Key) -> Option<InjectKey> {
    match k {
        Key::A => Some(InjectKey::Unicode('a')),
        Key::B => Some(InjectKey::Unicode('b')),
        Key::C => Some(InjectKey::Unicode('c')),
        Key::D => Some(InjectKey::Unicode('d')),
        Key::E => Some(InjectKey::Unicode('e')),
        Key::F => Some(InjectKey::Unicode('f')),
        Key::G => Some(InjectKey::Unicode('g')),
        Key::H => Some(InjectKey::Unicode('h')),
        Key::I => Some(InjectKey::Unicode('i')),
        Key::J => Some(InjectKey::Unicode('j')),
        Key::K => Some(InjectKey::Unicode('k')),
        Key::L => Some(InjectKey::Unicode('l')),
        Key::M => Some(InjectKey::Unicode('m')),
        Key::N => Some(InjectKey::Unicode('n')),
        Key::O => Some(InjectKey::Unicode('o')),
        Key::P => Some(InjectKey::Unicode('p')),
        Key::Q => Some(InjectKey::Unicode('q')),
        Key::R => Some(InjectKey::Unicode('r')),
        Key::S => Some(InjectKey::Unicode('s')),
        Key::T => Some(InjectKey::Unicode('t')),
        Key::U => Some(InjectKey::Unicode('u')),
        Key::V => Some(InjectKey::Unicode('v')),
        Key::W => Some(InjectKey::Unicode('w')),
        Key::X => Some(InjectKey::Unicode('x')),
        Key::Y => Some(InjectKey::Unicode('y')),
        Key::Z => Some(InjectKey::Unicode('z')),
        Key::Num0 => Some(InjectKey::Unicode('0')),
        Key::Num1 => Some(InjectKey::Unicode('1')),
        Key::Num2 => Some(InjectKey::Unicode('2')),
        Key::Num3 => Some(InjectKey::Unicode('3')),
        Key::Num4 => Some(InjectKey::Unicode('4')),
        Key::Num5 => Some(InjectKey::Unicode('5')),
        Key::Num6 => Some(InjectKey::Unicode('6')),
        Key::Num7 => Some(InjectKey::Unicode('7')),
        Key::Num8 => Some(InjectKey::Unicode('8')),
        Key::Num9 => Some(InjectKey::Unicode('9')),
        Key::F1 => Some(InjectKey::F1),
        Key::F2 => Some(InjectKey::F2),
        Key::F3 => Some(InjectKey::F3),
        Key::F4 => Some(InjectKey::F4),
        Key::F5 => Some(InjectKey::F5),
        Key::F6 => Some(InjectKey::F6),
        Key::F7 => Some(InjectKey::F7),
        Key::F8 => Some(InjectKey::F8),
        Key::F9 => Some(InjectKey::F9),
        Key::F10 => Some(InjectKey::F10),
        Key::F11 => Some(InjectKey::F11),
        Key::F12 => Some(InjectKey::F12),
        Key::Escape => Some(InjectKey::Escape),
        Key::Tab => Some(InjectKey::Tab),
        Key::CapsLock => Some(InjectKey::CapsLock),
        Key::Space => Some(InjectKey::Space),
        Key::Return => Some(InjectKey::Return),
        Key::Backspace => Some(InjectKey::Backspace),
        Key::Delete => Some(InjectKey::Delete),
        Key::Home => Some(InjectKey::Home),
        Key::End => Some(InjectKey::End),
        Key::PageUp => Some(InjectKey::PageUp),
        Key::PageDown => Some(InjectKey::PageDown),
        Key::UpArrow => Some(InjectKey::UpArrow),
        Key::DownArrow => Some(InjectKey::DownArrow),
        Key::LeftArrow => Some(InjectKey::LeftArrow),
        Key::RightArrow => Some(InjectKey::RightArrow),
        Key::ShiftLeft => Some(InjectKey::Shift),
        Key::ShiftRight => Some(InjectKey::Shift),
        Key::ControlLeft => Some(InjectKey::Control),
        Key::ControlRight => Some(InjectKey::Control),
        Key::AltLeft => Some(InjectKey::Alt),
        Key::AltRight => Some(InjectKey::Alt),
        Key::MetaLeft => Some(InjectKey::Meta),
        Key::MetaRight => Some(InjectKey::Meta),
        Key::Minus => Some(InjectKey::Unicode('-')),
        Key::Equal => Some(InjectKey::Unicode('=')),
        Key::LeftBracket => Some(InjectKey::Unicode('[')),
        Key::RightBracket => Some(InjectKey::Unicode(']')),
        Key::BackSlash => Some(InjectKey::Unicode('\\')),
        Key::SemiColon => Some(InjectKey::Unicode(';')),
        Key::Quote => Some(InjectKey::Unicode('\'')),
        Key::BackQuote => Some(InjectKey::Unicode('`')),
        Key::Comma => Some(InjectKey::Unicode(',')),
        Key::Dot => Some(InjectKey::Unicode('.')),
        Key::Slash => Some(InjectKey::Unicode('/')),
        Key::Insert | Key::Raw(_) => None,
    }
}

/// The injectable key of `k` on `os`: its positional code where the platform
/// has one, else its symbolic key.
pub open spec fn inject_key_spec(k: Key, os: Os) -> Option<InjectKey> {
    match positional_code_spec(k, os) {
        Some(code) => Some(InjectKey::Other(code)),
        None => symbolic_key(k),
    }
}

/// Converts a portable key into an injectable key.
///
/// Where the platform allows it (macOS, Windows), letters, digits and
/// punctuation are injected by positional virtual key code; otherwise by
/// US character. `None` when the key is not injectable (`Insert`, `Raw`).
pub fn to_inject_key(k: Key, os: Os) -> (r: Option<InjectKey>)
    ensures
        r == inject_key_spec(k, os),
        r is None <==> (k == Key::Insert || k is Raw),
{
    if let Some(code) = positional_code(k, os) {
        return Some(InjectKey::Other(code));
    }
    match k {
            Key::A => Some(InjectKey::Unicode('a')),
            Key::B => Some(InjectKey::Unicode('b')),
            Key::C => Some(InjectKey::Unicode('c')),
            Key::D => Some(InjectKey::Unicode('d')),
            Key::E => Some(InjectKey::Unicode('e')),
            Key::F => Some(InjectKey::Unicode('f')),
            Key::G => Some(InjectKey::Unicode('g')),
            Key::H => Some(InjectKey::Unicode('h')),
            Key::I => Some(InjectKey::Unicode('i')),
            Key::J => Some(InjectKey::Unicode('j')),
            Key::K => Some(InjectKey::Unicode('k')),
            Key::L => Some(InjectKey::Unicode('l')),
            Key::M => Some(InjectKey::Unicode('m')),
            Key::N => Some(InjectKey::Unicode('n')),
            Key::O => Some(InjectKey::Unicode('o')),
            Key::P => Some(InjectKey::Unicode('p')),
            Key::Q => Some(InjectKey::Unicode('q')),
            Key::R => Some(InjectKey::Unicode('r')),
            Key::S => Some(InjectKey::Unicode('s')),
            Key::T => Some(InjectKey::Unicode('t')),
            Key::U => Some(InjectKey::Unicode('u')),
            Key::V => Some(InjectKey::Unicode('v')),
            Key::W => Some(InjectKey::Unicode('w')),
            Key::X => Some(InjectKey::Unicode('x')),
            Key::Y => Some(InjectKey::Unicode('y')),
            Key::Z => Some(InjectKey::Unicode('z')),
            Key::Num0 => Some(InjectKey::Unicode('0')),
            Key::Num1 => Some(InjectKey::Unicode('1')),
            Key::Num2 => Some(InjectKey::Unicode('2')),
            Key::Num3 => Some(InjectKey::Unicode('3')),
            Key::Num4 => Some(InjectKey::Unicode('4')),
            Key::Num5 => Some(InjectKey::Unicode('5')),
            Key::Num6 => Some(InjectKey::Unicode('6')),
            Key::Num7 => Some(InjectKey::Unicode('7')),
            Key::Num8 => Some(InjectKey::Unicode('8')),
            Key::Num9 => Some(InjectKey::Unicode('9')),
            Key::F1 => Some(InjectKey::F1),
            Key::F2 => Some(InjectKey::F2),
            Key::F3 => Some(InjectKey::F3),
            Key::F4 => Some(InjectKey::F4),
            Key::F5 => Some(InjectKey::F5),
            Key::F6 => Some(InjectKey::F6),
            Key::F7 => Some(InjectKey::F7),
            Key::F8 => Some(InjectKey::F8),
            Key::F9 => Some(InjectKey::F9),
            Key::F10 => Some(InjectKey::F10),
            Key::F11 => Some(InjectKey::F11),
            Key::F12 => Some(InjectKey::F12),
            Key::Escape => Some(InjectKey::Escape),
            Key::Tab => Some(InjectKey::Tab),
            Key::CapsLock => Some(InjectKey::CapsLock),
            Key::Space => Some(InjectKey::Space),
            Key::Return => Some(InjectKey::Return),
            Key::Backspace => Some(InjectKey::Backspace),
            Key::Delete => Some(InjectKey::Delete),
            Key::Home => Some(InjectKey::Home),
            Key::End => Some(InjectKey::End),
            Key::PageUp => Some(InjectKey::PageUp),
            Key::PageDown => Some(InjectKey::PageDown),
            Key::UpArrow => Some(InjectKey::UpArrow),
            Key::DownArrow => Some(InjectKey::DownArrow),
            Key::LeftArrow => Some(InjectKey::LeftArrow),
            Key::RightArrow => Some(InjectKey::RightArrow),
            Key::ShiftLeft => Some(InjectKey::Shift),
            Key::ShiftRight => Some(InjectKey::Shift),
            Key::ControlLeft => Some(InjectKey::Control),
            Key::ControlRight => Some(InjectKey::Control),
            Key::AltLeft => Some(InjectKey::Alt),
            Key::AltRight => Some(InjectKey::Alt),
            Key::MetaLeft => Some(InjectKey::Meta),
            Key::MetaRight => Some(InjectKey::Meta),
            Key::Minus => Some(InjectKey::Unicode('-')),
            Key::Equal => Some(InjectKey::Unicode('=')),
            Key::LeftBracket => Some(InjectKey::Unicode('[')),
            Key::RightBracket => Some(InjectKey::Unicode(']')),
            Key::BackSlash => Some(InjectKey::Unicode('\\')),
            Key::SemiColon => Some(InjectKey::Unicode(';')),
            Key::Quote => Some(InjectKey::Unicode('\'')),
            Key::BackQuote => Some(InjectKey::Unicode('`')),
            Key::Comma => Some(InjectKey::Unicode(',')),
            Key::Dot => Some(InjectKey::Unicode('.')),
            Key::Slash => Some(InjectKey::Unicode('/')),
            Key::Insert | Key::Raw(_) => None,
    }
}

/// Law: on each platform, two different keys never share a positional code,
/// and every positional code is a byte.
pub proof fn lemma_positional_codes_distinct(k1: Key, k2: Key, os: Os)
    ensures
        positional_code_spec(k1, os) is Some && positional_code_spec(k1, os)
            == positional_code_spec(k2, os) ==> k1 == k2,
        positional_code_spec(k1, os) matches Some(c) ==> c < 256,
{
}

/// FNV-1a hash (32 bits) of `bytes`.
pub open spec fn fnv1a(bytes: Seq<u8>) -> u32
    decreases bytes.len(),
{
    if bytes.len() == 0 {
        2166136261u32
    } else {
        vstd::wrapping::u32_specs::wrapping_mul(
            fnv1a(bytes.drop_last()) ^ (bytes.last() as u32),
            16777619u32,
        )
    }
}

/// Stable fallback code for a key that the capture backend reports without a
/// scan code, derived from the name of the key: its FNV-1a hash, moved out of
/// the range of real scan codes (top bit set) so that it never collides with
/// one.
pub fn fallback_code(name: &[u8]) -> (code: u32)
    ensures
        code == (fnv1a(name@) & 0x7fff_ffffu32) | 0x8000_0000u32,
        code >= 0x8000_0000u32,
{
    let mut h: u32 = 2166136261;
    let n = name.len();
    let mut i: usize = 0;
    while i < n
        invariant
            n == name@.len(),
            i <= n,
            h == fnv1a(name@.take(i as int)),
        decreases n - i,
    {
        assert(name@.take(i + 1).drop_last() =~= name@.take(i as int));
        h = (h ^ name[i] as u32).wrapping_mul(16777619);
        i += 1;
    }
    assert(name@.take(n as int) =~= name@);
    let code = 0x8000_0000u32 | (h & 0x7fff_ffffu32);
    assert(code == (h & 0x7fff_ffffu32) | 0x8000_0000u32 && code >= 0x8000_0000u32) by (bit_vector)
        requires
            code == 0x8000_0000u32 | (h & 0x7fff_ffffu32),
    ;
    code
}

/// The letter keys, in alphabetical order.
pub open spec fn letter_keys() -> Seq<Key> {
    seq![Key::A, Key::B, Key::C, Key::D, Key::E, Key::F, Key::G, Key::H, Key::I, Key::J, Key::K, Key::L, Key::M, Key::N, Key::O, Key::P, Key::Q, Key::R, Key::S, Key::T, Key::U, Key::V, Key::W, Key::X, Key::Y, Key::Z]
}

/// Law: on a platform without positional codes, the letter keys, in
/// alphabetical order, inject the characters `'a'` to `'z'` in order.
pub proof fn lemma_letters_in_order(os: Os)
    requires
        os != Os::MacOs && os != Os::Windows,
    ensures
        letter_keys().len() == 26,
        forall|i: int|
            0 <= i < 26 ==> inject_key_spec(#[trigger] letter_keys()[i], os) == Some(
                InjectKey::Unicode(('a' as int + i) as char),
            ),
{
    assert forall|i: int| 0 <= i < 26 implies inject_key_spec(#[trigger] letter_keys()[i], os)
        == Some(InjectKey::Unicode(('a' as int + i) as char)) by {
        if i == 0 {
            assert(letter_keys()[0] == Key::A);
        } else if i == 1 {
            assert(letter_keys()[1] == Key::B);
        } else if i == 2 {
            assert(letter_keys()[2] == Key::C);
        } else if i == 3 {
            assert(letter_keys()[3] == Key::D);
        } else if i == 4 {
            assert(letter_keys()[4] == Key::E);
        } else if i == 5 {
            assert(letter_keys()[5] == Key::F);
        } else if i == 6 {
            assert(letter_keys()[6] == Key::G);
        } else if i == 7 {
            assert(letter_keys()[7] == Key::H);
        } else if i == 8 {
            assert(letter_keys()[8] == Key::I);
        } else if i == 9 {
            assert(letter_keys()[9] == Key::J);
        } else if i == 10 {
            assert(letter_keys()[10] == Key::K);
        } else if i == 11 {
            assert(letter_keys()[11] == Key::L);
        } else if i == 12 {
            assert(letter_keys()[12] == Key::M);
        } else if i == 13 {
            assert(letter_keys()[13] == Key::N);
        } else if i == 14 {
            assert(letter_keys()[14] == Key::O);
        } else if i == 15 {
            assert(letter_keys()[15] == Key::P);
        } else if i == 16 {
            assert(letter_keys()[16] == Key::Q);
        } else if i == 17 {
            assert(letter_keys()[17] == Key::R);
        } else if i == 18 {
            assert(letter_keys()[18] == Key::S);
        } else if i == 19 {
            assert(letter_keys()[19] == Key::T);
        } else if i == 20 {
            assert(letter_keys()[20] == Key::U);
        } else if i == 21 {
            assert(letter_keys()[21] == Key::V);
        } else if i == 22 {
            assert(letter_keys()[22] == Key::W);
        } else if i == 23 {
            assert(letter_keys()[23] == Key::X);
        } else if i == 24 {
            assert(letter_keys()[24] == Key::Y);
        } else if i == 25 {
            assert(letter_keys()[25] == Key::Z);
        }
    }
}

/// Law: on a platform without positional codes a letter or digit key injects
/// the character that its Windows virtual-key code stands for: `VK_A` to
/// `VK_Z` are the upper-case letters, injected in lower case, and `VK_0` to
/// `VK_9` the digits.
pub proof fn lemma_symbols_match_windows_codes(k: Key, os: Os)
    requires
        os != Os::MacOs && os != Os::Windows,
    ensures
        windows_code(k) is Some && 0x41 <= windows_code(k)->0 <= 0x5A ==> inject_key_spec(k, os)
            == Some(InjectKey::Unicode((windows_code(k)->0 + 0x20) as char)),
        windows_code(k) is Some && 0x30 <= windows_code(k)->0 <= 0x39 ==> inject_key_spec(k, os)
            == Some(InjectKey::Unicode(windows_code(k)->0 as char)),
{
}

} // verus!
