//! The user's keyboard and mouse, turned into input for the agent.
//!
//! Keys go as physical positions (USB HID usages), never as characters: the
//! host applies its own layout, so AltGr and dead keys behave exactly as they
//! would on a keyboard plugged into it.

use super::fit::{normalise, normalised, PARTS};
use crate::input::{Held, Input, BACK, FORWARD, LEFT, MIDDLE, RIGHT};
use crate::text::{chars_of, control, is_control};
use vstd::prelude::*;

verus! {

/// A physical key, by what a US keyboard prints on it.
#[derive(Debug, Clone, Copy, PartialEq, Eq, Structural)]
pub enum KeyCode {
    KeyA,
    KeyB,
    KeyC,
    KeyD,
    KeyE,
    KeyF,
    KeyG,
    KeyH,
    KeyI,
    KeyJ,
    KeyK,
    KeyL,
    KeyM,
    KeyN,
    KeyO,
    KeyP,
    KeyQ,
    KeyR,
    KeyS,
    KeyT,
    KeyU,
    KeyV,
    KeyW,
    KeyX,
    KeyY,
    KeyZ,
    Digit1,
    Digit2,
    Digit3,
    Digit4,
    Digit5,
    Digit6,
    Digit7,
    Digit8,
    Digit9,
    Digit0,
    Enter,
    Escape,
    Backspace,
    Tab,
    Space,
    Minus,
    Equal,
    BracketLeft,
    BracketRight,
    Backslash,
    Semicolon,
    Quote,
    Backquote,
    Comma,
    Period,
    Slash,
    CapsLock,
    F1,
    F2,
    F3,
    F4,
    F5,
    F6,
    F7,
    F8,
    F9,
    F10,
    F11,
    F12,
    PrintScreen,
    ScrollLock,
    Pause,
    Insert,
    Home,
    PageUp,
    Delete,
    End,
    PageDown,
    ArrowRight,
    ArrowLeft,
    ArrowDown,
    ArrowUp,
    NumLock,
    NumpadDivide,
    NumpadMultiply,
    NumpadSubtract,
    NumpadAdd,
    NumpadEnter,
    Numpad1,
    Numpad2,
    Numpad3,
    Numpad4,
    Numpad5,
    Numpad6,
    Numpad7,
    Numpad8,
    Numpad9,
    Numpad0,
    NumpadDecimal,
    IntlBackslash,
    ContextMenu,
    Power,
    NumpadEqual,
    F13,
    F14,
    F15,
    F16,
    F17,
    F18,
    F19,
    F20,
    F21,
    F22,
    F23,
    F24,
    AudioVolumeMute,
    AudioVolumeUp,
    AudioVolumeDown,
    NumpadComma,
    IntlRo,
    KanaMode,
    IntlYen,
    Convert,
    NonConvert,
    ControlLeft,
    ShiftLeft,
    AltLeft,
    SuperLeft,
    ControlRight,
    ShiftRight,
    AltRight,
    SuperRight,
    /// A key with no place of its own on the page.
    Other,
}

pub open spec fn usage_of_key(code: KeyCode) -> Option<u16> {
    match code {
        KeyCode::KeyA => Some(0x04),
        KeyCode::KeyB => Some(0x05),
        KeyCode::KeyC => Some(0x06),
        KeyCode::KeyD => Some(0x07),
        KeyCode::KeyE => Some(0x08),
        KeyCode::KeyF => Some(0x09),
        KeyCode::KeyG => Some(0x0A),
        KeyCode::KeyH => Some(0x0B),
        KeyCode::KeyI => Some(0x0C),
        KeyCode::KeyJ => Some(0x0D),
        KeyCode::KeyK => Some(0x0E),
        KeyCode::KeyL => Some(0x0F),
        KeyCode::KeyM => Some(0x10),
        KeyCode::KeyN => Some(0x11),
        KeyCode::KeyO => Some(0x12),
        KeyCode::KeyP => Some(0x13),
        KeyCode::KeyQ => Some(0x14),
        KeyCode::KeyR => Some(0x15),
        KeyCode::KeyS => Some(0x16),
        KeyCode::KeyT => Some(0x17),
        KeyCode::KeyU => Some(0x18),
        KeyCode::KeyV => Some(0x19),
        KeyCode::KeyW => Some(0x1A),
        KeyCode::KeyX => Some(0x1B),
        KeyCode::KeyY => Some(0x1C),
        KeyCode::KeyZ => Some(0x1D),
        KeyCode::Digit1 => Some(0x1E),
        KeyCode::Digit2 => Some(0x1F),
        KeyCode::Digit3 => Some(0x20),
        KeyCode::Digit4 => Some(0x21),
        KeyCode::Digit5 => Some(0x22),
        KeyCode::Digit6 => Some(0x23),
        KeyCode::Digit7 => Some(0x24),
        KeyCode::Digit8 => Some(0x25),
        KeyCode::Digit9 => Some(0x26),
        KeyCode::Digit0 => Some(0x27),
        KeyCode::Enter => Some(0x28),
        KeyCode::Escape => Some(0x29),
        KeyCode::Backspace => Some(0x2A),
        KeyCode::Tab => Some(0x2B),
        KeyCode::Space => Some(0x2C),
        KeyCode::Minus => Some(0x2D),
        KeyCode::Equal => Some(0x2E),
        KeyCode::BracketLeft => Some(0x2F),
        KeyCode::BracketRight => Some(0x30),
        KeyCode::Backslash => Some(0x31),
        KeyCode::Semicolon => Some(0x33),
        KeyCode::Quote => Some(0x34),
        KeyCode::Backquote => Some(0x35),
        KeyCode::Comma => Some(0x36),
        KeyCode::Period => Some(0x37),
        KeyCode::Slash => Some(0x38),
        KeyCode::CapsLock => Some(0x39),
        KeyCode::F1 => Some(0x3A),
        KeyCode::F2 => Some(0x3B),
        KeyCode::F3 => Some(0x3C),
        KeyCode::F4 => Some(0x3D),
        KeyCode::F5 => Some(0x3E),
        KeyCode::F6 => Some(0x3F),
        KeyCode::F7 => Some(0x40),
        KeyCode::F8 => Some(0x41),
        KeyCode::F9 => Some(0x42),
        KeyCode::F10 => Some(0x43),
        KeyCode::F11 => Some(0x44),
        KeyCode::F12 => Some(0x45),
        KeyCode::PrintScreen => Some(0x46),
        KeyCode::ScrollLock => Some(0x47),
        KeyCode::Pause => Some(0x48),
        KeyCode::Insert => Some(0x49),
        KeyCode::Home => Some(0x4A),
        KeyCode::PageUp => Some(0x4B),
        KeyCode::Delete => Some(0x4C),
        KeyCode::End => Some(0x4D),
        KeyCode::PageDown => Some(0x4E),
        KeyCode::ArrowRight => Some(0x4F),
        KeyCode::ArrowLeft => Some(0x50),
        KeyCode::ArrowDown => Some(0x51),
        KeyCode::ArrowUp => Some(0x52),
        KeyCode::NumLock => Some(0x53),
        KeyCode::NumpadDivide => Some(0x54),
        KeyCode::NumpadMultiply => Some(0x55),
        KeyCode::NumpadSubtract => Some(0x56),
        KeyCode::NumpadAdd => Some(0x57),
        KeyCode::NumpadEnter => Some(0x58),
        KeyCode::Numpad1 => Some(0x59),
        KeyCode::Numpad2 => Some(0x5A),
        KeyCode::Numpad3 => Some(0x5B),
        KeyCode::Numpad4 => Some(0x5C),
        KeyCode::Numpad5 => Some(0x5D),
        KeyCode::Numpad6 => Some(0x5E),
        KeyCode::Numpad7 => Some(0x5F),
        KeyCode::Numpad8 => Some(0x60),
        KeyCode::Numpad9 => Some(0x61),
        KeyCode::Numpad0 => Some(0x62),
        KeyCode::NumpadDecimal => Some(0x63),
        KeyCode::IntlBackslash => Some(0x64),
        KeyCode::ContextMenu => Some(0x65),
        KeyCode::Power => Some(0x66),
        KeyCode::NumpadEqual => Some(0x67),
        KeyCode::F13 => Some(0x68),
        KeyCode::F14 => Some(0x69),
        KeyCode::F15 => Some(0x6A),
        KeyCode::F16 => Some(0x6B),
        KeyCode::F17 => Some(0x6C),
        KeyCode::F18 => Some(0x6D),
        KeyCode::F19 => Some(0x6E),
        KeyCode::F20 => Some(0x6F),
        KeyCode::F21 => Some(0x70),
        KeyCode::F22 => Some(0x71),
        KeyCode::F23 => Some(0x72),
        KeyCode::F24 => Some(0x73),
        KeyCode::AudioVolumeMute => Some(0x7F),
        KeyCode::AudioVolumeUp => Some(0x80),
        KeyCode::AudioVolumeDown => Some(0x81),
        KeyCode::NumpadComma => Some(0x85),
        KeyCode::IntlRo => Some(0x87),
        KeyCode::KanaMode => Some(0x88),
        KeyCode::IntlYen => Some(0x89),
        KeyCode::Convert => Some(0x8A),
        KeyCode::NonConvert => Some(0x8B),
        KeyCode::ControlLeft => Some(0xE0),
        KeyCode::ShiftLeft => Some(0xE1),
        KeyCode::AltLeft => Some(0xE2),
        KeyCode::SuperLeft => Some(0xE3),
        KeyCode::ControlRight => Some(0xE4),
        KeyCode::ShiftRight => Some(0xE5),
        KeyCode::AltRight => Some(0xE6),
        KeyCode::SuperRight => Some(0xE7),
        KeyCode::Other => None,
    }
}

/// USB HID keyboard usage (page 0x07) for a physical key.
pub fn hid_usage(code: KeyCode) -> (usage: Option<u16>)
    ensures
        usage == usage_of_key(code),
{
    match code {
        KeyCode::KeyA => Some(0x04),
        KeyCode::KeyB => Some(0x05),
        KeyCode::KeyC => Some(0x06),
        KeyCode::KeyD => Some(0x07),
        KeyCode::KeyE => Some(0x08),
        KeyCode::KeyF => Some(0x09),
        KeyCode::KeyG => Some(0x0A),
        KeyCode::KeyH => Some(0x0B),
        KeyCode::KeyI => Some(0x0C),
        KeyCode::KeyJ => Some(0x0D),
        KeyCode::KeyK => Some(0x0E),
        KeyCode::KeyL => Some(0x0F),
        KeyCode::KeyM => Some(0x10),
        KeyCode::KeyN => Some(0x11),
        KeyCode::KeyO => Some(0x12),
        KeyCode::KeyP => Some(0x13),
        KeyCode::KeyQ => Some(0x14),
        KeyCode::KeyR => Some(0x15),
        KeyCode::KeyS => Some(0x16),
        KeyCode::KeyT => Some(0x17),
        KeyCode::KeyU => Some(0x18),
        KeyCode::KeyV => Some(0x19),
        KeyCode::KeyW => Some(0x1A),
        KeyCode::KeyX => Some(0x1B),
        KeyCode::KeyY => Some(0x1C),
        KeyCode::KeyZ => Some(0x1D),
        KeyCode::Digit1 => Some(0x1E),
        KeyCode::Digit2 => Some(0x1F),
        KeyCode::Digit3 => Some(0x20),
        KeyCode::Digit4 => Some(0x21),
        KeyCode::Digit5 => Some(0x22),
        KeyCode::Digit6 => Some(0x23),
        KeyCode::Digit7 => Some(0x24),
        KeyCode::Digit8 => Some(0x25),
        KeyCode::Digit9 => Some(0x26),
        KeyCode::Digit0 => Some(0x27),
        KeyCode::Enter => Some(0x28),
        KeyCode::Escape => Some(0x29),
        KeyCode::Backspace => Some(0x2A),
        KeyCode::Tab => Some(0x2B),
        KeyCode::Space => Some(0x2C),
        KeyCode::Minus => Some(0x2D),
        KeyCode::Equal => Some(0x2E),
        KeyCode::BracketLeft => Some(0x2F),
        KeyCode::BracketRight => Some(0x30),
        KeyCode::Backslash => Some(0x31),
        KeyCode::Semicolon => Some(0x33),
        KeyCode::Quote => Some(0x34),
        KeyCode::Backquote => Some(0x35),
        KeyCode::Comma => Some(0x36),
        KeyCode::Period => Some(0x37),
        KeyCode::Slash => Some(0x38),
        KeyCode::CapsLock => Some(0x39),
        KeyCode::F1 => Some(0x3A),
        KeyCode::F2 => Some(0x3B),
        KeyCode::F3 => Some(0x3C),
        KeyCode::F4 => Some(0x3D),
        KeyCode::F5 => Some(0x3E),
        KeyCode::F6 => Some(0x3F),
        KeyCode::F7 => Some(0x40),
        KeyCode::F8 => Some(0x41),
        KeyCode::F9 => Some(0x42),
        KeyCode::F10 => Some(0x43),
        KeyCode::F11 => Some(0x44),
        KeyCode::F12 => Some(0x45),
        KeyCode::PrintScreen => Some(0x46),
        KeyCode::ScrollLock => Some(0x47),
        KeyCode::Pause => Some(0x48),
        KeyCode::Insert => Some(0x49),
        KeyCode::Home => Some(0x4A),
        KeyCode::PageUp => Some(0x4B),
        KeyCode::Delete => Some(0x4C),
        KeyCode::End => Some(0x4D),
        KeyCode::PageDown => Some(0x4E),
        KeyCode::ArrowRight => Some(0x4F),
        KeyCode::ArrowLeft => Some(0x50),
        KeyCode::ArrowDown => Some(0x51),
        KeyCode::ArrowUp => Some(0x52),
        KeyCode::NumLock => Some(0x53),
        KeyCode::NumpadDivide => Some(0x54),
        KeyCode::NumpadMultiply => Some(0x55),
        KeyCode::NumpadSubtract => Some(0x56),
        KeyCode::NumpadAdd => Some(0x57),
        KeyCode::NumpadEnter => Some(0x58),
        KeyCode::Numpad1 => Some(0x59),
        KeyCode::Numpad2 => Some(0x5A),
        KeyCode::Numpad3 => Some(0x5B),
        KeyCode::Numpad4 => Some(0x5C),
        KeyCode::Numpad5 => Some(0x5D),
        KeyCode::Numpad6 => Some(0x5E),
        KeyCode::Numpad7 => Some(0x5F),
        KeyCode::Numpad8 => Some(0x60),
        KeyCode::Numpad9 => Some(0x61),
        KeyCode::Numpad0 => Some(0x62),
        KeyCode::NumpadDecimal => Some(0x63),
        KeyCode::IntlBackslash => Some(0x64),
        KeyCode::ContextMenu => Some(0x65),
        KeyCode::Power => Some(0x66),
        KeyCode::NumpadEqual => Some(0x67),
        KeyCode::F13 => Some(0x68),
        KeyCode::F14 => Some(0x69),
        KeyCode::F15 => Some(0x6A),
        KeyCode::F16 => Some(0x6B),
        KeyCode::F17 => Some(0x6C),
        KeyCode::F18 => Some(0x6D),
        KeyCode::F19 => Some(0x6E),
        KeyCode::F20 => Some(0x6F),
        KeyCode::F21 => Some(0x70),
        KeyCode::F22 => Some(0x71),
        KeyCode::F23 => Some(0x72),
        KeyCode::F24 => Some(0x73),
        KeyCode::AudioVolumeMute => Some(0x7F),
        KeyCode::AudioVolumeUp => Some(0x80),
        KeyCode::AudioVolumeDown => Some(0x81),
        KeyCode::NumpadComma => Some(0x85),
        KeyCode::IntlRo => Some(0x87),
        KeyCode::KanaMode => Some(0x88),
        KeyCode::IntlYen => Some(0x89),
        KeyCode::Convert => Some(0x8A),
        KeyCode::NonConvert => Some(0x8B),
        KeyCode::ControlLeft => Some(0xE0),
        KeyCode::ShiftLeft => Some(0xE1),
        KeyCode::AltLeft => Some(0xE2),
        KeyCode::SuperLeft => Some(0xE3),
        KeyCode::ControlRight => Some(0xE4),
        KeyCode::ShiftRight => Some(0xE5),
        KeyCode::AltRight => Some(0xE6),
        KeyCode::SuperRight => Some(0xE7),
        KeyCode::Other => None,
    }
}

/// The key at a usage: the other way round.
pub open spec fn key_of_usage(usage: u16) -> Option<KeyCode> {
    match usage {
        0x04 => Some(KeyCode::KeyA),
        0x05 => Some(KeyCode::KeyB),
        0x06 => Some(KeyCode::KeyC),
        0x07 => Some(KeyCode::KeyD),
        0x08 => Some(KeyCode::KeyE),
        0x09 => Some(KeyCode::KeyF),
        0x0A => Some(KeyCode::KeyG),
        0x0B => Some(KeyCode::KeyH),
        0x0C => Some(KeyCode::KeyI),
        0x0D => Some(KeyCode::KeyJ),
        0x0E => Some(KeyCode::KeyK),
        0x0F => Some(KeyCode::KeyL),
        0x10 => Some(KeyCode::KeyM),
        0x11 => Some(KeyCode::KeyN),
        0x12 => Some(KeyCode::KeyO),
        0x13 => Some(KeyCode::KeyP),
        0x14 => Some(KeyCode::KeyQ),
        0x15 => Some(KeyCode::KeyR),
        0x16 => Some(KeyCode::KeyS),
        0x17 => Some(KeyCode::KeyT),
        0x18 => Some(KeyCode::KeyU),
        0x19 => Some(KeyCode::KeyV),
        0x1A => Some(KeyCode::KeyW),
        0x1B => Some(KeyCode::KeyX),
        0x1C => Some(KeyCode::KeyY),
        0x1D => Some(KeyCode::KeyZ),
        0x1E => Some(KeyCode::Digit1),
        0x1F => Some(KeyCode::Digit2),
        0x20 => Some(KeyCode::Digit3),
        0x21 => Some(KeyCode::Digit4),
        0x22 => Some(KeyCode::Digit5),
        0x23 => Some(KeyCode::Digit6),
        0x24 => Some(KeyCode::Digit7),
        0x25 => Some(KeyCode::Digit8),
        0x26 => Some(KeyCode::Digit9),
        0x27 => Some(KeyCode::Digit0),
        0x28 => Some(KeyCode::Enter),
        0x29 => Some(KeyCode::Escape),
        0x2A => Some(KeyCode::Backspace),
        0x2B => Some(KeyCode::Tab),
        0x2C => Some(KeyCode::Space),
        0x2D => Some(KeyCode::Minus),
        0x2E => Some(KeyCode::Equal),
        0x2F => Some(KeyCode::BracketLeft),
        0x30 => Some(KeyCode::BracketRight),
        0x31 => Some(KeyCode::Backslash),
        0x33 => Some(KeyCode::Semicolon),
        0x34 => Some(KeyCode::Quote),
        0x35 => Some(KeyCode::Backquote),
        0x36 => Some(KeyCode::Comma),
        0x37 => Some(KeyCode::Period),
        0x38 => Some(KeyCode::Slash),
        0x39 => Some(KeyCode::CapsLock),
        0x3A => Some(KeyCode::F1),
        0x3B => Some(KeyCode::F2),
        0x3C => Some(KeyCode::F3),
        0x3D => Some(KeyCode::F4),
        0x3E => Some(KeyCode::F5),
        0x3F => Some(KeyCode::F6),
        0x40 => Some(KeyCode::F7),
        0x41 => Some(KeyCode::F8),
        0x42 => Some(KeyCode::F9),
        0x43 => Some(KeyCode::F10),
        0x44 => Some(KeyCode::F11),
        0x45 => Some(KeyCode::F12),
        0x46 => Some(KeyCode::PrintScreen),
        0x47 => Some(KeyCode::ScrollLock),
        0x48 => Some(KeyCode::Pause),
        0x49 => Some(KeyCode::Insert),
        0x4A => Some(KeyCode::Home),
        0x4B => Some(KeyCode::PageUp),
        0x4C => Some(KeyCode::Delete),
        0x4D => Some(KeyCode::End),
        0x4E => Some(KeyCode::PageDown),
        0x4F => Some(KeyCode::ArrowRight),
        0x50 => Some(KeyCode::ArrowLeft),
        0x51 => Some(KeyCode::ArrowDown),
        0x52 => Some(KeyCode::ArrowUp),
        0x53 => Some(KeyCode::NumLock),
        0x54 => Some(KeyCode::NumpadDivide),
        0x55 => Some(KeyCode::NumpadMultiply),
        0x56 => Some(KeyCode::NumpadSubtract),
        0x57 => Some(KeyCode::NumpadAdd),
        0x58 => Some(KeyCode::NumpadEnter),
        0x59 => Some(KeyCode::Numpad1),
        0x5A => Some(KeyCode::Numpad2),
        0x5B => Some(KeyCode::Numpad3),
        0x5C => Some(KeyCode::Numpad4),
        0x5D => Some(KeyCode::Numpad5),
        0x5E => Some(KeyCode::Numpad6),
        0x5F => Some(KeyCode::Numpad7),
        0x60 => Some(KeyCode::Numpad8),
        0x61 => Some(KeyCode::Numpad9),
        0x62 => Some(KeyCode::Numpad0),
        0x63 => Some(KeyCode::NumpadDecimal),
        0x64 => Some(KeyCode::IntlBackslash),
        0x65 => Some(KeyCode::ContextMenu),
        0x66 => Some(KeyCode::Power),
        0x67 => Some(KeyCode::NumpadEqual),
        0x68 => Some(KeyCode::F13),
        0x69 => Some(KeyCode::F14),
        0x6A => Some(KeyCode::F15),
        0x6B => Some(KeyCode::F16),
        0x6C => Some(KeyCode::F17),
        0x6D => Some(KeyCode::F18),
        0x6E => Some(KeyCode::F19),
        0x6F => Some(KeyCode::F20),
        0x70 => Some(KeyCode::F21),
        0x71 => Some(KeyCode::F22),
        0x72 => Some(KeyCode::F23),
        0x73 => Some(KeyCode::F24),
        0x7F => Some(KeyCode::AudioVolumeMute),
        0x80 => Some(KeyCode::AudioVolumeUp),
        0x81 => Some(KeyCode::AudioVolumeDown),
        0x85 => Some(KeyCode::NumpadComma),
        0x87 => Some(KeyCode::IntlRo),
        0x88 => Some(KeyCode::KanaMode),
        0x89 => Some(KeyCode::IntlYen),
        0x8A => Some(KeyCode::Convert),
        0x8B => Some(KeyCode::NonConvert),
        0xE0 => Some(KeyCode::ControlLeft),
        0xE1 => Some(KeyCode::ShiftLeft),
        0xE2 => Some(KeyCode::AltLeft),
        0xE3 => Some(KeyCode::SuperLeft),
        0xE4 => Some(KeyCode::ControlRight),
        0xE5 => Some(KeyCode::ShiftRight),
        0xE6 => Some(KeyCode::AltRight),
        0xE7 => Some(KeyCode::SuperRight),
        _ => None,
    }
}

/// Every mapped key has its own usage.
pub proof fn lemma_usages_distinct(a: KeyCode, b: KeyCode)
    requires
        usage_of_key(a) is Some,
        usage_of_key(a) == usage_of_key(b),
    ensures
        a == b,
{
    assert(key_of_usage(usage_of_key(a)->0) == Some(a));
    assert(key_of_usage(usage_of_key(b)->0) == Some(b));
}

/// Every key the viewer sends has a scan code, or is Pause: the host can
/// press whatever the viewer can.
pub proof fn lemma_every_key_can_be_pressed(code: KeyCode, down: bool)
    requires
        usage_of_key(code) is Some,
    ensures
        crate::input::key_event_of(usage_of_key(code)->0, down) is Some,
{
}

/// These keys are at the usages from `first` on, one after the other.
pub open spec fn at_usages(keys: Seq<KeyCode>, first: u16) -> bool {
    forall|i: int|
        0 <= i < keys.len() ==> usage_of_key(#[trigger] keys[i]) == Some((first + i) as u16)
}

/// Usages go through the keys by name: the letters by the alphabet, the digits
/// with the nought last, the function keys by number, the keypad by its digits.
pub proof fn lemma_usages_are_in_order()
    ensures
        at_usages(
            seq![
                KeyCode::KeyA, KeyCode::KeyB, KeyCode::KeyC, KeyCode::KeyD, KeyCode::KeyE,
                KeyCode::KeyF, KeyCode::KeyG, KeyCode::KeyH, KeyCode::KeyI, KeyCode::KeyJ,
                KeyCode::KeyK, KeyCode::KeyL, KeyCode::KeyM, KeyCode::KeyN, KeyCode::KeyO,
                KeyCode::KeyP, KeyCode::KeyQ, KeyCode::KeyR, KeyCode::KeyS, KeyCode::KeyT,
                KeyCode::KeyU, KeyCode::KeyV, KeyCode::KeyW, KeyCode::KeyX, KeyCode::KeyY,
                KeyCode::KeyZ, KeyCode::Digit1, KeyCode::Digit2, KeyCode::Digit3,
                KeyCode::Digit4, KeyCode::Digit5, KeyCode::Digit6, KeyCode::Digit7,
                KeyCode::Digit8, KeyCode::Digit9, KeyCode::Digit0, KeyCode::Enter,
                KeyCode::Escape, KeyCode::Backspace, KeyCode::Tab, KeyCode::Space,
                KeyCode::Minus, KeyCode::Equal, KeyCode::BracketLeft, KeyCode::BracketRight,
                KeyCode::Backslash,
            ],
            0x04,
        ),
        at_usages(
            seq![
                KeyCode::Semicolon, KeyCode::Quote, KeyCode::Backquote, KeyCode::Comma,
                KeyCode::Period, KeyCode::Slash, KeyCode::CapsLock, KeyCode::F1, KeyCode::F2,
                KeyCode::F3, KeyCode::F4, KeyCode::F5, KeyCode::F6, KeyCode::F7, KeyCode::F8,
                KeyCode::F9, KeyCode::F10, KeyCode::F11, KeyCode::F12, KeyCode::PrintScreen,
                KeyCode::ScrollLock, KeyCode::Pause, KeyCode::Insert, KeyCode::Home,
                KeyCode::PageUp, KeyCode::Delete, KeyCode::End, KeyCode::PageDown,
                KeyCode::ArrowRight, KeyCode::ArrowLeft, KeyCode::ArrowDown, KeyCode::ArrowUp,
                KeyCode::NumLock, KeyCode::NumpadDivide, KeyCode::NumpadMultiply,
                KeyCode::NumpadSubtract, KeyCode::NumpadAdd, KeyCode::NumpadEnter,
                KeyCode::Numpad1, KeyCode::Numpad2, KeyCode::Numpad3, KeyCode::Numpad4,
                KeyCode::Numpad5, KeyCode::Numpad6, KeyCode::Numpad7, KeyCode::Numpad8,
                KeyCode::Numpad9, KeyCode::Numpad0, KeyCode::NumpadDecimal,
                KeyCode::IntlBackslash, KeyCode::ContextMenu, KeyCode::Power,
                KeyCode::NumpadEqual, KeyCode::F13, KeyCode::F14, KeyCode::F15, KeyCode::F16,
                KeyCode::F17, KeyCode::F18, KeyCode::F19, KeyCode::F20, KeyCode::F21,
                KeyCode::F22, KeyCode::F23, KeyCode::F24,
            ],
            0x33,
        ),
        at_usages(
            seq![
                KeyCode::AudioVolumeMute, KeyCode::AudioVolumeUp, KeyCode::AudioVolumeDown,
            ],
            0x7F,
        ),
        usage_of_key(KeyCode::NumpadComma) == Some(0x85u16),
        at_usages(
            seq![
                KeyCode::IntlRo, KeyCode::KanaMode, KeyCode::IntlYen, KeyCode::Convert,
                KeyCode::NonConvert,
            ],
            0x87,
        ),
        at_usages(
            seq![
                KeyCode::ControlLeft, KeyCode::ShiftLeft, KeyCode::AltLeft, KeyCode::SuperLeft,
                KeyCode::ControlRight, KeyCode::ShiftRight, KeyCode::AltRight,
                KeyCode::SuperRight,
            ],
            0xE0,
        ),
        usage_of_key(KeyCode::Other) is None,
{
}

// --- Forwarding --------------------------------------------------------------------------

/// A mouse button as a window reports it.
#[derive(Debug, Clone, Copy, PartialEq, Eq, Structural)]
pub enum MouseButton {
    Left,
    Right,
    Middle,
    Back,
    Forward,
    Other,
}

pub open spec fn number_of_button(button: MouseButton) -> Option<u8> {
    match button {
        MouseButton::Left => Some(LEFT),
        MouseButton::Right => Some(RIGHT),
        MouseButton::Middle => Some(MIDDLE),
        MouseButton::Back => Some(BACK),
        MouseButton::Forward => Some(FORWARD),
        MouseButton::Other => None,
    }
}

/// The printable part of a text.
pub open spec fn printable(s: Seq<char>) -> Seq<char> {
    s.filter(|c: char| !is_control(c))
}

fn without_control(text: &str) -> (rest: String)
    ensures
        rest@ == printable(text@),
{
    let chars = chars_of(text);
    let mut rest = String::new();
    let mut i: usize = 0;
    proof {
        reveal(Seq::filter);
        assert(rest@ =~= printable(chars@.take(0)));
    }
    while i < chars.len()
        invariant
            i <= chars@.len(),
            rest@ == printable(chars@.take(i as int)),
        decreases chars.len() - i,
    {
        proof {
            reveal(Seq::filter);
            assert(chars@.take(i + 1).drop_last() =~= chars@.take(i as int));
            assert(chars@.take(i + 1).last() == chars@[i as int]);
        }
        if !control(chars[i]) {
            rest.push(chars[i]);
        }
        i = i + 1;
    }
    assert(chars@.take(i as int) =~= chars@);
    rest
}

/// What the wheel counts for one notch.
pub const WHEEL_NOTCH: i64 = 120;

/// The whole units in `parts`, towards none.
pub open spec fn whole_units(parts: int) -> int {
    if parts >= 0 {
        parts / PARTS as int
    } else {
        -((-parts) / PARTS as int)
    }
}

/// As much of `n` as fits.
pub open spec fn as_short(n: int) -> int {
    if n > i16::MAX {
        i16::MAX as int
    } else if n < i16::MIN {
        i16::MIN as int
    } else {
        n
    }
}

fn units(parts: i128) -> (whole: i128)
    requires
        -0x1_0000_0000_0000_0000_0000 <= parts <= 0x1_0000_0000_0000_0000_0000,
    ensures
        whole == whole_units(parts as int),
        -65_536 < parts - whole * 65_536 < 65_536,
{
    if parts >= 0 {
        parts / 65_536
    } else {
        -((-parts) / 65_536)
    }
}

fn clamp_short(n: i128) -> (short: i16)
    ensures
        short == as_short(n as int),
{
    if n > 32_767 {
        32_767
    } else if n < -32_768 {
        -32_768
    } else {
        n as i16
    }
}

/// What the wheel does: `before` and `after` are what is left to send.
pub open spec fn wheel_does(
    before: (int, int),
    x: int,
    y: int,
    after: (int, int),
    event: Option<Input>,
) -> bool {
    let (across, away) = (before.0 - x * WHEEL_NOTCH, before.1 + y * WHEEL_NOTCH);
    let (dx, dy) = (whole_units(across), whole_units(away));
    &&& after == (across - dx * PARTS, away - dy * PARTS)
    &&& if dx == 0 && dy == 0 {
        event is None
    } else {
        &&& event matches Some(Input::Wheel { dx: right, dy: up })
        &&& right == as_short(dx)
        &&& up == as_short(dy)
    }
}

/// What a key does: `before` and `after` are the keys that are down.
pub open spec fn key_does(
    before: Set<u16>,
    code: KeyCode,
    down: bool,
    text: Option<Seq<char>>,
    after: Set<u16>,
    event: Option<Input>,
) -> bool {
    match usage_of_key(code) {
        Some(scancode) => {
            &&& event == (if down || before.contains(scancode) {
                Some(Input::Key { scancode, down })
            } else {
                None
            })
            &&& after == (if down {
                before.insert(scancode)
            } else {
                before.remove(scancode)
            })
        },
        None => {
            &&& after == before
            &&& match text {
                Some(typed) => if down && printable(typed).len() > 0 {
                    event matches Some(Input::Text(sent)) && sent@ == printable(typed)
                } else {
                    event is None
                },
                None => event is None,
            }
        },
    }
}

/// What the window's keyboard and mouse send, and what they hold down.
#[derive(Debug)]
pub struct Forwarder {
    held: Held,
    focused: bool,
    /// Wheel movement too small to send yet, in parts of a unit.
    rest_x: i64,
    rest_y: i64,
}

impl Forwarder {
    pub closed spec fn keys(&self) -> Seq<u16> {
        self.held.keys()
    }

    pub closed spec fn buttons(&self) -> Seq<u8> {
        self.held.buttons()
    }

    pub closed spec fn focused(&self) -> bool {
        self.focused
    }

    /// Wheel movement that was not sent yet.
    pub closed spec fn rest(&self) -> (int, int) {
        (self.rest_x as int, self.rest_y as int)
    }

    pub open spec fn wf(&self) -> bool {
        &&& self.keys().no_duplicates() && self.buttons().no_duplicates()
        &&& -PARTS < self.rest().0 < PARTS
        &&& -PARTS < self.rest().1 < PARTS
    }

    pub fn new() -> (forwarder: Forwarder)
        ensures
            forwarder.wf(),
            forwarder.focused(),
            forwarder.keys() == Seq::<u16>::empty(),
            forwarder.buttons() == Seq::<u8>::empty(),
            forwarder.rest() == (0int, 0int),
    {
        Forwarder { held: Held::new(), focused: true, rest_x: 0, rest_y: 0 }
    }

    /// The window gained or lost the focus. Whatever is held on losing it
    /// gets released into another window, so the agent is told now.
    pub fn focus(&mut self, focused: bool) -> (events: Vec<Input>)
        requires
            old(self).wf(),
        ensures
            final(self).wf(),
            final(self).focused() == focused,
            final(self).rest() == old(self).rest(),
            if focused {
                &&& events@.len() == 0
                &&& final(self).keys() == old(self).keys()
                &&& final(self).buttons() == old(self).buttons()
            } else {
                &&& events@ == let_go(old(self).keys(), old(self).buttons())
                &&& final(self).keys() == Seq::<u16>::empty()
                &&& final(self).buttons() == Seq::<u8>::empty()
            },
    {
        self.focused = focused;
        let mut events: Vec<Input> = Vec::new();
        if focused {
            return events;
        }
        let (keys, buttons) = self.held.take();
        let mut i: usize = 0;
        while i < keys.len()
            invariant
                i <= keys@.len(),
                events@ == keys@.take(i as int).map_values(
                    |scancode: u16| (Input::Key { scancode, down: false }),
                ),
            decreases keys.len() - i,
        {
            events.push(Input::Key { scancode: keys[i], down: false });
            assert(events@ =~= keys@.take(i + 1).map_values(
                |scancode: u16| (Input::Key { scancode, down: false }),
            ));
            i = i + 1;
        }
        assert(keys@.take(i as int) =~= keys@);
        let ghost ups = events@;
        let mut j: usize = 0;
        while j < buttons.len()
            invariant
                j <= buttons@.len(),
                events@ == ups + buttons@.take(j as int).map_values(
                    |button: u8| (Input::MouseButton { button, down: false }),
                ),
            decreases buttons.len() - j,
        {
            events.push(Input::MouseButton { button: buttons[j], down: false });
            assert(events@ =~= ups + buttons@.take(j + 1).map_values(
                |button: u8| (Input::MouseButton { button, down: false }),
            ));
            j = j + 1;
        }
        assert(buttons@.take(j as int) =~= buttons@);
        events
    }

    /// Ctrl+Alt+Del on the host.
    pub fn secure_attention(&self) -> (event: Input)
        ensures
            event is SecureAttention,
    {
        Input::SecureAttention
    }

    /// Move the remote pointer to where the local one is over the video, if
    /// the window has the focus. Outside the picture, over the letterbox bars,
    /// it is clamped to the nearest edge. `at` is in parts of a pixel.
    pub fn cursor(&self, at: (i64, i64), window: (u32, u32), video: (u32, u32)) -> (event: Option<
        Input,
    >)
        ensures
            match event {
                Some(event) => {
                    &&& self.focused()
                    &&& event matches Input::MouseMove { x, y }
                    &&& (x as int, y as int) == normalised(
                        (at.0 as int, at.1 as int),
                        window,
                        video,
                    )
                },
                None => !self.focused(),
            },
    {
        if self.focused {
            let (x, y) = normalise(at, window, video);
            Some(Input::MouseMove { x, y })
        } else {
            None
        }
    }

    /// A mouse button went down or up. Buttons the protocol has no number for
    /// stay here.
    pub fn button(&mut self, button: MouseButton, down: bool) -> (event: Option<Input>)
        requires
            old(self).wf(),
        ensures
            final(self).wf(),
            final(self).focused() == old(self).focused(),
            final(self).rest() == old(self).rest(),
            final(self).keys() == old(self).keys(),
            match number_of_button(button) {
                Some(number) => {
                    &&& event == Some(Input::MouseButton { button: number, down })
                    &&& final(self).buttons().to_set() == (if down {
                        old(self).buttons().to_set().insert(number)
                    } else {
                        old(self).buttons().to_set().remove(number)
                    })
                },
                None => event is None && final(self).buttons() == old(self).buttons(),
            },
    {
        let number: u8 = match button {
            MouseButton::Left => LEFT,
            MouseButton::Right => RIGHT,
            MouseButton::Middle => MIDDLE,
            MouseButton::Back => BACK,
            MouseButton::Forward => FORWARD,
            MouseButton::Other => return None,
        };
        self.held.button(number, down);
        Some(Input::MouseButton { button: number, down })
    }

    /// The wheel moved, by parts of a notch, left and away from the user
    /// being positive. Whole units are sent, and what is left is kept for the
    /// next time; nothing is sent for none.
    pub fn wheel(&mut self, x: i64, y: i64) -> (event: Option<Input>)
        requires
            old(self).wf(),
        ensures
            final(self).wf(),
            final(self).focused() == old(self).focused(),
            final(self).keys() == old(self).keys(),
            final(self).buttons() == old(self).buttons(),
            wheel_does(old(self).rest(), x as int, y as int, final(self).rest(), event),
    {
        let across: i128 = self.rest_x as i128 - x as i128 * 120;
        let away: i128 = self.rest_y as i128 + y as i128 * 120;
        let dx: i128 = units(across);
        let dy: i128 = units(away);
        self.rest_x = (across - dx * 65_536) as i64;
        self.rest_y = (away - dy * 65_536) as i64;
        if dx != 0 || dy != 0 {
            Some(Input::Wheel { dx: clamp_short(dx), dy: clamp_short(dy) })
        } else {
            None
        }
    }

    /// A key went down or up; `text` is what it typed, if anything. A release
    /// without a press sent is not the agent's business. A key without a
    /// physical position falls back to the characters it produced.
    pub fn key(&mut self, code: KeyCode, down: bool, text: Option<&str>) -> (event: Option<Input>)
        requires
            old(self).wf(),
        ensures
            final(self).wf(),
            final(self).focused() == old(self).focused(),
            final(self).rest() == old(self).rest(),
            final(self).buttons() == old(self).buttons(),
            key_does(
                old(self).keys().to_set(),
                code,
                down,
                match text {
                    Some(typed) => Some(typed@),
                    None => None,
                },
                final(self).keys().to_set(),
                event,
            ),
            usage_of_key(code) is None ==> final(self).keys() == old(self).keys(),
    {
        match hid_usage(code) {
            Some(scancode) => {
                let was_down = self.held.key(scancode, down);
                if down || was_down {
                    Some(Input::Key { scancode, down })
                } else {
                    None
                }
            },
            None => {
                if !down {
                    return None;
                }
                match text {
                    Some(typed) => {
                        let typed = without_control(typed);
                        if typed.as_str().is_empty() {
                            None
                        } else {
                            Some(Input::Text(typed))
                        }
                    },
                    None => None,
                }
            },
        }
    }
}

/// No wheel movement is lost: what is sent and what is kept add up to what
/// was kept before and what came.
pub proof fn lemma_wheel_movement_is_kept(parts: int)
    ensures
        -PARTS < parts - whole_units(parts) * PARTS < PARTS,
        parts >= 0 ==> parts - whole_units(parts) * PARTS >= 0,
        parts <= 0 ==> parts - whole_units(parts) * PARTS <= 0,
{
}

/// A release for every key, then for every button.
pub open spec fn let_go(keys: Seq<u16>, buttons: Seq<u8>) -> Seq<Input> {
    keys.map_values(|scancode: u16| (Input::Key { scancode, down: false })) + buttons.map_values(
        |button: u8| (Input::MouseButton { button, down: false }),
    )
}

/// Turning the wheel moves the host's by as much, 120 to a notch, in the end:
/// what is sent, as far as it can be, and what is left to send make up what was
/// left before and what came. Towards the left here is backwards there, where
/// the right is positive; away from the user is positive at both. Nothing is
/// sent only if less than one of the host's units came together either way.
pub proof fn lemma_wheel_movement_is_forwarded(
    before: (int, int),
    x: int,
    y: int,
    after: (int, int),
    event: Option<Input>,
)
    requires
        wheel_does(before, x, y, after, event),
    ensures
        -65_536 < after.0 < 65_536,
        -65_536 < after.1 < 65_536,
        match event {
            Some(Input::Wheel { dx, dy }) => {
                &&& dx != 0 || dy != 0
                &&& -32_768 < dx < 32_767 ==> dx * 65_536 + after.0 == before.0 - 120 * x
                &&& -32_768 < dy < 32_767 ==> dy * 65_536 + after.1 == before.1 + 120 * y
                &&& dx == 32_767 ==> before.0 - 120 * x >= 32_767 * 65_536
                &&& dx == -32_768 ==> before.0 - 120 * x <= -32_768 * 65_536
                &&& dy == 32_767 ==> before.1 + 120 * y >= 32_767 * 65_536
                &&& dy == -32_768 ==> before.1 + 120 * y <= -32_768 * 65_536
            },
            Some(_) => false,
            None => {
                &&& after.0 == before.0 - 120 * x
                &&& after.1 == before.1 + 120 * y
            },
        },
{
    lemma_wheel_movement_is_kept(before.0 - x * WHEEL_NOTCH);
    lemma_wheel_movement_is_kept(before.1 + y * WHEEL_NOTCH);
}

/// What is pressed is let go again, once: a key that goes down is sent, and is
/// down from then on; one that goes up is sent if it was down, and is not from
/// then on. No other key changes.
pub proof fn lemma_a_release_follows_its_press(
    before: Set<u16>,
    code: KeyCode,
    down: bool,
    text: Option<Seq<char>>,
    after: Set<u16>,
    event: Option<Input>,
    scancode: u16,
)
    requires
        usage_of_key(code) == Some(scancode),
        key_does(before, code, down, text, after, event),
    ensures
        after.contains(scancode) <==> down,
        forall|other: u16| other != scancode ==> (after.contains(other) <==> before.contains(other)),
        event is None <==> !down && !before.contains(scancode),
        event matches Some(sent) ==> (sent matches Input::Key { scancode: key, down: pressed }
            && key == scancode && pressed == down),
{
}

/// A key that has no place on the page types what it types, without control
/// characters, when it goes down.
pub proof fn lemma_other_keys_type(
    before: Set<u16>,
    text: Option<Seq<char>>,
    down: bool,
    after: Set<u16>,
    event: Option<Input>,
)
    requires
        key_does(before, KeyCode::Other, down, text, after, event),
    ensures
        after == before,
        event matches Some(sent) ==> {
            &&& down
            &&& text matches Some(typed)
            &&& sent matches Input::Text(characters)
            &&& characters@.len() > 0
            &&& forall|i: int|
                0 <= i < characters@.len() ==> !((#[trigger] characters@[i]) < ' ') && !('\u{7F}'
                    <= characters@[i] <= '\u{9F}')
        },
        event is None && down ==> (text matches Some(typed) ==> forall|i: int|
            0 <= i < typed.len() ==> (#[trigger] typed[i]) < ' ' || '\u{7F}' <= typed[i]
                <= '\u{9F}'),
{
    if let Some(typed) = text {
        let keeps = |c: char| !is_control(c);
        assert forall|i: int| 0 <= i < printable(typed).len() implies !is_control(
            #[trigger] printable(typed)[i],
        ) by {
            typed.lemma_filter_pred(keeps, i);
        }
        if event is None && down {
            assert forall|i: int| 0 <= i < typed.len() implies (#[trigger] typed[i]) < ' '
                || '\u{7F}' <= typed[i] <= '\u{9F}' by {
                if keeps(typed[i]) {
                    typed.lemma_filter_contains(keeps, i);
                }
            }
        }
    }
}

/// The buttons go by number, as the host takes them: what is pressed here is
/// what is pressed there.
pub proof fn lemma_buttons_arrive(button: MouseButton, down: bool)
    ensures
        match button {
            MouseButton::Left => number_of_button(button) == Some(0u8),
            MouseButton::Right => number_of_button(button) == Some(1u8),
            MouseButton::Middle => number_of_button(button) == Some(2u8),
            MouseButton::Back => number_of_button(button) == Some(3u8),
            MouseButton::Forward => number_of_button(button) == Some(4u8),
            MouseButton::Other => number_of_button(button) is None,
        },
        number_of_button(button) matches Some(number) ==> crate::input::button_flags_of(number, down)
            == Some(
            match button {
                MouseButton::Left => (if down { 0x0002u32 } else { 0x0004u32 }, 0u32),
                MouseButton::Right => (if down { 0x0008u32 } else { 0x0010u32 }, 0u32),
                MouseButton::Middle => (if down { 0x0020u32 } else { 0x0040u32 }, 0u32),
                MouseButton::Back => (if down { 0x0080u32 } else { 0x0100u32 }, 1u32),
                _ => (if down { 0x0080u32 } else { 0x0100u32 }, 2u32),
            },
        ),
{
}

/// Losing the focus lets go of everything that is down, once each.
pub proof fn lemma_losing_the_focus_lets_go(keys: Seq<u16>, buttons: Seq<u8>, i: int)
    requires
        0 <= i < keys.len() + buttons.len(),
    ensures
        let_go(keys, buttons).len() == keys.len() + buttons.len(),
        i < keys.len() ==> (let_go(keys, buttons)[i] matches Input::Key { scancode, down } && scancode
            == keys[i] && !down),
        i >= keys.len() ==> (let_go(keys, buttons)[i] matches Input::MouseButton { button, down }
            && button == buttons[i - keys.len()] && !down),
{
}

}
