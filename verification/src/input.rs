//! Portable input events (independent of the OS and of the capture and
//! injection backends). The capture layer translates its events into these
//! types and the injection layer translates them back; keeping this
//! vocabulary neutral decouples the network protocol from any backend.

use vstd::prelude::*;

verus! {

/// Mouse buttons.
#[derive(Debug, Clone, Copy, PartialEq, Eq, Structural, Hash)]
pub enum Button {
    Left,
    Right,
    Middle,
}

/// Portable keyboard key.
///
/// Covers the usual keys. Any other key travels as [`Key::Raw`] (raw scan
/// code of the source platform), which degrades gracefully when the symbolic
/// mapping is not known on both sides.
#[derive(Debug, Clone, Copy, PartialEq, Eq, Structural, Hash)]
pub enum Key {
    A,
    B,
    C,
    D,
    E,
    F,
    G,
    H,
    I,
    J,
    K,
    L,
    M,
    N,
    O,
    P,
    Q,
    R,
    S,
    T,
    U,
    V,
    W,
    X,
    Y,
    Z,
    Num0,
    Num1,
    Num2,
    Num3,
    Num4,
    Num5,
    Num6,
    Num7,
    Num8,
    Num9,
    F1,
    F2,
    F3,
    F4,
    F5,
    F6,
    F7,
    F8,
    F9,
    F10,
    F11,
    F12,
    Escape,
    Tab,
    CapsLock,
    Space,
    Return,
    Backspace,
    Delete,
    Insert,
    Home,
    End,
    PageUp,
    PageDown,
    UpArrow,
    DownArrow,
    LeftArrow,
    RightArrow,
    ShiftLeft,
    ShiftRight,
    ControlLeft,
    ControlRight,
    AltLeft,
    AltRight,
    MetaLeft,
    MetaRight,
    Minus,
    Equal,
    LeftBracket,
    RightBracket,
    BackSlash,
    SemiColon,
    Quote,
    BackQuote,
    Comma,
    Dot,
    Slash,
    /// Key without a symbolic mapping: raw scan code of the source platform.
    Raw(u32),
}

} // verus!
