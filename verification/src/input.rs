//! Keyboard and mouse for the host: what the viewer sends, as the events
//! Windows' `SendInput` takes.
//!
//! Keys travel as physical positions (USB HID usages) and are injected as
//! scan codes, so the host applies its own layout.

use vstd::prelude::*;

verus! {

/// USB HID keyboard usage to PC/AT scan code set 1, which is what Windows
/// speaks. `0xE0xx` marks an extended key.
pub open spec fn scan_code_of(usage: u16) -> Option<u16> {
    if 0x1E <= usage <= 0x27 {
        Some((usage - 0x1E + 0x02) as u16)
    } else if 0x3A <= usage <= 0x43 {
        Some((usage - 0x3A + 0x3B) as u16)
    } else if 0x68 <= usage <= 0x6E {
        Some((usage - 0x68 + 0x64) as u16)
    } else {
        match usage {
            0x04 => Some(0x1E),
            0x05 => Some(0x30),
            0x06 => Some(0x2E),
            0x07 => Some(0x20),
            0x08 => Some(0x12),
            0x09 => Some(0x21),
            0x0A => Some(0x22),
            0x0B => Some(0x23),
            0x0C => Some(0x17),
            0x0D => Some(0x24),
            0x0E => Some(0x25),
            0x0F => Some(0x26),
            0x10 => Some(0x32),
            0x11 => Some(0x31),
            0x12 => Some(0x18),
            0x13 => Some(0x19),
            0x14 => Some(0x10),
            0x15 => Some(0x13),
            0x16 => Some(0x1F),
            0x17 => Some(0x14),
            0x18 => Some(0x16),
            0x19 => Some(0x2F),
            0x1A => Some(0x11),
            0x1B => Some(0x2D),
            0x1C => Some(0x15),
            0x1D => Some(0x2C),
            0x28 => Some(0x1C),
            0x29 => Some(0x01),
            0x2A => Some(0x0E),
            0x2B => Some(0x0F),
            0x2C => Some(0x39),
            0x2D => Some(0x0C),
            0x2E => Some(0x0D),
            0x2F => Some(0x1A),
            0x30 => Some(0x1B),
            0x31 => Some(0x2B),
            0x32 => Some(0x2B),
            0x33 => Some(0x27),
            0x34 => Some(0x28),
            0x35 => Some(0x29),
            0x36 => Some(0x33),
            0x37 => Some(0x34),
            0x38 => Some(0x35),
            0x39 => Some(0x3A),
            0x44 => Some(0x57),
            0x45 => Some(0x58),
            0x46 => Some(0xE037),
            0x47 => Some(0x46),
            0x49 => Some(0xE052),
            0x4A => Some(0xE047),
            0x4B => Some(0xE049),
            0x4C => Some(0xE053),
            0x4D => Some(0xE04F),
            0x4E => Some(0xE051),
            0x4F => Some(0xE04D),
            0x50 => Some(0xE04B),
            0x51 => Some(0xE050),
            0x52 => Some(0xE048),
            0x53 => Some(0xE045),
            0x54 => Some(0xE035),
            0x55 => Some(0x37),
            0x56 => Some(0x4A),
            0x57 => Some(0x4E),
            0x58 => Some(0xE01C),
            0x59 => Some(0x4F),
            0x5A => Some(0x50),
            0x5B => Some(0x51),
            0x5C => Some(0x4B),
            0x5D => Some(0x4C),
            0x5E => Some(0x4D),
            0x5F => Some(0x47),
            0x60 => Some(0x48),
            0x61 => Some(0x49),
            0x62 => Some(0x52),
            0x63 => Some(0x53),
            0x64 => Some(0x56),
            0x65 => Some(0xE05D),
            0x66 => Some(0xE05E),
            0x67 => Some(0x59),
            0x6F => Some(0x6B),
            0x70 => Some(0x6C),
            0x71 => Some(0x6D),
            0x72 => Some(0x6E),
            0x73 => Some(0x76),
            0x7F => Some(0xE020),
            0x80 => Some(0xE030),
            0x81 => Some(0xE02E),
            0x85 => Some(0x7E),
            0x87 => Some(0x73),
            0x88 => Some(0x70),
            0x89 => Some(0x7D),
            0x8A => Some(0x79),
            0x8B => Some(0x7B),
            0xE0 => Some(0x1D),
            0xE1 => Some(0x2A),
            0xE2 => Some(0x38),
            0xE3 => Some(0xE05B),
            0xE4 => Some(0xE01D),
            0xE5 => Some(0x36),
            0xE6 => Some(0xE038),
            0xE7 => Some(0xE05C),
            _ => None,
        }
    }
}

pub fn scan_code(usage: u16) -> (scan: Option<u16>)
    ensures
        scan == scan_code_of(usage),
{
    match usage {
        0x1E..=0x27 => Some(usage - 0x1E + 0x02),  // 1 to 9, then 0
        0x3A..=0x43 => Some(usage - 0x3A + 0x3B),  // F1 to F10
        0x68..=0x6E => Some(usage - 0x68 + 0x64),  // F13 to F19
        0x04 => Some(0x1E),  // A
        0x05 => Some(0x30),  // B
        0x06 => Some(0x2E),  // C
        0x07 => Some(0x20),  // D
        0x08 => Some(0x12),  // E
        0x09 => Some(0x21),  // F
        0x0A => Some(0x22),  // G
        0x0B => Some(0x23),  // H
        0x0C => Some(0x17),  // I
        0x0D => Some(0x24),  // J
        0x0E => Some(0x25),  // K
        0x0F => Some(0x26),  // L
        0x10 => Some(0x32),  // M
        0x11 => Some(0x31),  // N
        0x12 => Some(0x18),  // O
        0x13 => Some(0x19),  // P
        0x14 => Some(0x10),  // Q
        0x15 => Some(0x13),  // R
        0x16 => Some(0x1F),  // S
        0x17 => Some(0x14),  // T
        0x18 => Some(0x16),  // U
        0x19 => Some(0x2F),  // V
        0x1A => Some(0x11),  // W
        0x1B => Some(0x2D),  // X
        0x1C => Some(0x15),  // Y
        0x1D => Some(0x2C),  // Z
        0x28 => Some(0x1C),  // Enter
        0x29 => Some(0x01),  // Escape
        0x2A => Some(0x0E),  // Backspace
        0x2B => Some(0x0F),  // Tab
        0x2C => Some(0x39),  // Space
        0x2D => Some(0x0C),  // - _
        0x2E => Some(0x0D),  // = +
        0x2F => Some(0x1A),  // [ {
        0x30 => Some(0x1B),  // ] }
        0x31 => Some(0x2B),  // \ |
        0x32 => Some(0x2B),  // ISO # ~, the same key position as \
        0x33 => Some(0x27),  // ; :
        0x34 => Some(0x28),  // ' "
        0x35 => Some(0x29),  // ` ~
        0x36 => Some(0x33),  // , <
        0x37 => Some(0x34),  // . >
        0x38 => Some(0x35),  // / ?
        0x39 => Some(0x3A),  // Caps Lock
        0x44 => Some(0x57),  // F11
        0x45 => Some(0x58),  // F12
        0x46 => Some(0xE037),  // Print Screen
        0x47 => Some(0x46),  // Scroll Lock
        0x49 => Some(0xE052),  // Insert
        0x4A => Some(0xE047),  // Home
        0x4B => Some(0xE049),  // Page Up
        0x4C => Some(0xE053),  // Delete
        0x4D => Some(0xE04F),  // End
        0x4E => Some(0xE051),  // Page Down
        0x4F => Some(0xE04D),  // Right
        0x50 => Some(0xE04B),  // Left
        0x51 => Some(0xE050),  // Down
        0x52 => Some(0xE048),  // Up
        0x53 => Some(0xE045),  // Num Lock
        0x54 => Some(0xE035),  // Keypad /
        0x55 => Some(0x37),  // Keypad *
        0x56 => Some(0x4A),  // Keypad -
        0x57 => Some(0x4E),  // Keypad +
        0x58 => Some(0xE01C),  // Keypad Enter
        0x59 => Some(0x4F),  // Keypad 1
        0x5A => Some(0x50),  // Keypad 2
        0x5B => Some(0x51),  // Keypad 3
        0x5C => Some(0x4B),  // Keypad 4
        0x5D => Some(0x4C),  // Keypad 5
        0x5E => Some(0x4D),  // Keypad 6
        0x5F => Some(0x47),  // Keypad 7
        0x60 => Some(0x48),  // Keypad 8
        0x61 => Some(0x49),  // Keypad 9
        0x62 => Some(0x52),  // Keypad 0
        0x63 => Some(0x53),  // Keypad .
        0x64 => Some(0x56),  // ISO \ |, left of Z
        0x65 => Some(0xE05D),  // Application (context menu)
        0x66 => Some(0xE05E),  // Power
        0x67 => Some(0x59),  // Keypad =
        0x6F => Some(0x6B),  // F20
        0x70 => Some(0x6C),  // F21
        0x71 => Some(0x6D),  // F22
        0x72 => Some(0x6E),  // F23
        0x73 => Some(0x76),  // F24
        0x7F => Some(0xE020),  // Mute
        0x80 => Some(0xE030),  // Volume Up
        0x81 => Some(0xE02E),  // Volume Down
        0x85 => Some(0x7E),  // Keypad , (Brazilian)
        0x87 => Some(0x73),  // International1: Ro
        0x88 => Some(0x70),  // International2: Katakana/Hiragana
        0x89 => Some(0x7D),  // International3: Yen
        0x8A => Some(0x79),  // International4: Henkan
        0x8B => Some(0x7B),  // International5: Muhenkan
        0xE0 => Some(0x1D),  // Left Ctrl
        0xE1 => Some(0x2A),  // Left Shift
        0xE2 => Some(0x38),  // Left Alt
        0xE3 => Some(0xE05B),  // Left Windows
        0xE4 => Some(0xE01D),  // Right Ctrl
        0xE5 => Some(0x36),  // Right Shift
        0xE6 => Some(0xE038),  // Right Alt (AltGr)
        0xE7 => Some(0xE05C),  // Right Windows
        _ => None,
    }
}

/// The key behind a scan code: the other way round. The position that ISO and
/// ANSI keyboards label differently is named by its ANSI usage.
pub open spec fn usage_of(scan: u16) -> Option<u16> {
    if 0x02 <= scan <= 0x0B {
        Some((scan - 0x02 + 0x1E) as u16)
    } else if 0x3B <= scan <= 0x44 {
        Some((scan - 0x3B + 0x3A) as u16)
    } else if 0x64 <= scan <= 0x6A {
        Some((scan - 0x64 + 0x68) as u16)
    } else {
        match scan {
            0x1E => Some(0x04),
            0x30 => Some(0x05),
            0x2E => Some(0x06),
            0x20 => Some(0x07),
            0x12 => Some(0x08),
            0x21 => Some(0x09),
            0x22 => Some(0x0A),
            0x23 => Some(0x0B),
            0x17 => Some(0x0C),
            0x24 => Some(0x0D),
            0x25 => Some(0x0E),
            0x26 => Some(0x0F),
            0x32 => Some(0x10),
            0x31 => Some(0x11),
            0x18 => Some(0x12),
            0x19 => Some(0x13),
            0x10 => Some(0x14),
            0x13 => Some(0x15),
            0x1F => Some(0x16),
            0x14 => Some(0x17),
            0x16 => Some(0x18),
            0x2F => Some(0x19),
            0x11 => Some(0x1A),
            0x2D => Some(0x1B),
            0x15 => Some(0x1C),
            0x2C => Some(0x1D),
            0x1C => Some(0x28),
            0x01 => Some(0x29),
            0x0E => Some(0x2A),
            0x0F => Some(0x2B),
            0x39 => Some(0x2C),
            0x0C => Some(0x2D),
            0x0D => Some(0x2E),
            0x1A => Some(0x2F),
            0x1B => Some(0x30),
            0x2B => Some(0x31),
            0x27 => Some(0x33),
            0x28 => Some(0x34),
            0x29 => Some(0x35),
            0x33 => Some(0x36),
            0x34 => Some(0x37),
            0x35 => Some(0x38),
            0x3A => Some(0x39),
            0x57 => Some(0x44),
            0x58 => Some(0x45),
            0xE037 => Some(0x46),
            0x46 => Some(0x47),
            0xE052 => Some(0x49),
            0xE047 => Some(0x4A),
            0xE049 => Some(0x4B),
            0xE053 => Some(0x4C),
            0xE04F => Some(0x4D),
            0xE051 => Some(0x4E),
            0xE04D => Some(0x4F),
            0xE04B => Some(0x50),
            0xE050 => Some(0x51),
            0xE048 => Some(0x52),
            0xE045 => Some(0x53),
            0xE035 => Some(0x54),
            0x37 => Some(0x55),
            0x4A => Some(0x56),
            0x4E => Some(0x57),
            0xE01C => Some(0x58),
            0x4F => Some(0x59),
            0x50 => Some(0x5A),
            0x51 => Some(0x5B),
            0x4B => Some(0x5C),
            0x4C => Some(0x5D),
            0x4D => Some(0x5E),
            0x47 => Some(0x5F),
            0x48 => Some(0x60),
            0x49 => Some(0x61),
            0x52 => Some(0x62),
            0x53 => Some(0x63),
            0x56 => Some(0x64),
            0xE05D => Some(0x65),
            0xE05E => Some(0x66),
            0x59 => Some(0x67),
            0x6B => Some(0x6F),
            0x6C => Some(0x70),
            0x6D => Some(0x71),
            0x6E => Some(0x72),
            0x76 => Some(0x73),
            0xE020 => Some(0x7F),
            0xE030 => Some(0x80),
            0xE02E => Some(0x81),
            0x7E => Some(0x85),
            0x73 => Some(0x87),
            0x70 => Some(0x88),
            0x7D => Some(0x89),
            0x79 => Some(0x8A),
            0x7B => Some(0x8B),
            0x1D => Some(0xE0),
            0x2A => Some(0xE1),
            0x38 => Some(0xE2),
            0xE05B => Some(0xE3),
            0xE01D => Some(0xE4),
            0x36 => Some(0xE5),
            0xE038 => Some(0xE6),
            0xE05C => Some(0xE7),
            _ => None,
        }
    }
}

proof fn lemma_usage_of_scan_code(usage: u16)
    requires
        usage != 0x32,
        scan_code_of(usage) is Some,
    ensures
        usage_of(scan_code_of(usage)->0) == Some(usage),
{
}

/// No two keys share a scan code, but for the ISO key by Enter (0x32), which
/// is the ANSI backslash, physically.
pub proof fn lemma_scan_codes_distinct(a: u16, b: u16)
    requires
        a != 0x32,
        b != 0x32,
        scan_code_of(a) is Some,
        scan_code_of(a) == scan_code_of(b),
    ensures
        a == b,
{
    lemma_usage_of_scan_code(a);
    lemma_usage_of_scan_code(b);
}

/// The keys of `usages`, in a row, have scan codes that follow one another from
/// `first` on.
pub open spec fn in_a_row(usages: Seq<u16>, first: u16) -> bool {
    forall|i: int|
        0 <= i < usages.len() ==> scan_code_of(#[trigger] usages[i]) == Some((first + i) as u16)
}

/// Scan codes go along the rows of the keyboard: from Escape over the digits,
/// from Tab over the row of Q, from Ctrl over the row of A, from Shift over the
/// row of Z, then the keypad's star, Alt, Space and Caps Lock.
pub proof fn lemma_scan_codes_follow_the_rows()
    ensures
        in_a_row(
            seq![
                0x29u16, 0x1E, 0x1F, 0x20, 0x21, 0x22, 0x23, 0x24, 0x25, 0x26, 0x27, 0x2D, 0x2E, 0x2A,
            ],
            0x01,
        ),
        in_a_row(
            seq![
                0x2Bu16, 0x14, 0x1A, 0x08, 0x15, 0x17, 0x1C, 0x18, 0x0C, 0x12, 0x13, 0x2F, 0x30, 0x28,
            ],
            0x0F,
        ),
        in_a_row(
            seq![
                0xE0u16, 0x04, 0x16, 0x07, 0x09, 0x0A, 0x0B, 0x0D, 0x0E, 0x0F, 0x33, 0x34, 0x35,
            ],
            0x1D,
        ),
        in_a_row(
            seq![
                0xE1u16, 0x31, 0x1D, 0x1B, 0x06, 0x19, 0x05, 0x11, 0x10, 0x36, 0x37, 0x38, 0xE5,
            ],
            0x2A,
        ),
        in_a_row(seq![0x55u16, 0xE2, 0x2C, 0x39], 0x37),
{
}

/// The function keys are in order, and so is the keypad, from the top row to
/// the bottom with the sign at the end of each; between them is Scroll Lock.
pub proof fn lemma_scan_codes_of_functions_and_keypad()
    ensures
        in_a_row(
            seq![0x3Au16, 0x3B, 0x3C, 0x3D, 0x3E, 0x3F, 0x40, 0x41, 0x42, 0x43],
            0x3B,
        ),
        in_a_row(
            seq![
                0x47u16, 0x5F, 0x60, 0x61, 0x56, 0x5C, 0x5D, 0x5E, 0x57, 0x59, 0x5A, 0x5B, 0x62, 0x63,
            ],
            0x46,
        ),
        in_a_row(seq![0x64u16, 0x44, 0x45, 0x67], 0x56),
        in_a_row(seq![0x68u16, 0x69, 0x6A, 0x6B, 0x6C, 0x6D, 0x6E], 0x64),
        in_a_row(seq![0x6Fu16, 0x70, 0x71, 0x72], 0x6B),
        scan_code_of(0x73) == Some(0x76u16),
{
}

/// `key` is the extended twin of `plain`: the same code, marked.
pub open spec fn extends(key: u16, plain: u16) -> bool {
    scan_code_of(plain) matches Some(code) && code < 0x100 && scan_code_of(key) == Some(
        (0xE000 + code) as u16,
    )
}

/// Keys that older keyboards had elsewhere are those keys, extended: the
/// navigation keys the keypad's, the right Ctrl and Alt the left ones, the
/// keypad's Enter and slash the others, Print Screen its star. Those that are
/// no older key's twin are extended too.
pub proof fn lemma_extended_keys_are_twins()
    ensures
        extends(0x4A, 0x5F),
        extends(0x52, 0x60),
        extends(0x4B, 0x61),
        extends(0x50, 0x5C),
        extends(0x4F, 0x5E),
        extends(0x4D, 0x59),
        extends(0x51, 0x5A),
        extends(0x4E, 0x5B),
        extends(0x49, 0x62),
        extends(0x4C, 0x63),
        extends(0xE4, 0xE0),
        extends(0xE6, 0xE2),
        extends(0x58, 0x28),
        extends(0x54, 0x38),
        extends(0x46, 0x55),
        scan_code_of(0x53) == Some(0xE045u16),
        scan_code_of(0xE3) == Some(0xE05Bu16),
        scan_code_of(0xE7) == Some(0xE05Cu16),
        scan_code_of(0x65) == Some(0xE05Du16),
        scan_code_of(0x66) == Some(0xE05Eu16),
        scan_code_of(0x7F) == Some(0xE020u16),
        scan_code_of(0x80) == Some(0xE030u16),
        scan_code_of(0x81) == Some(0xE02Eu16),
{
}

/// The keys of Brazilian and Japanese keyboards, the ISO key that is the ANSI
/// backslash, and no key beside all these: what has no scan code is not sent
/// by one.
pub proof fn lemma_no_other_keys_have_scan_codes(usage: u16)
    ensures
        scan_code_of(0x85) == Some(0x7Eu16),
        scan_code_of(0x87) == Some(0x73u16),
        scan_code_of(0x88) == Some(0x70u16),
        scan_code_of(0x89) == Some(0x7Du16),
        scan_code_of(0x8A) == Some(0x79u16),
        scan_code_of(0x8B) == Some(0x7Bu16),
        scan_code_of(0x32) == scan_code_of(0x31),
        scan_code_of(usage) is Some <==> (0x04 <= usage <= 0x73 && usage != 0x48) || (0x7F <= usage
            <= 0x81) || usage == 0x85 || (0x87 <= usage <= 0x8B) || (0xE0 <= usage <= 0xE7),
{
}

// --- What travels ------------------------------------------------------------

/// One thing the viewer's keyboard or mouse did.
#[derive(Debug)]
pub enum Input {
    /// The pointer, on the watched display: `0..=65535` along each side.
    MouseMove { x: u16, y: u16 },
    MouseButton { button: u8, down: bool },
    /// In 120ths of a notch; right and away from the user are positive.
    Wheel { dx: i16, dy: i16 },
    /// A physical key, by USB HID usage.
    Key { scancode: u16, down: bool },
    /// Characters no physical key stands for.
    Text(String),
    /// Ctrl+Alt+Del on the host.
    SecureAttention,
}

/// Mouse buttons, as they travel.
pub const LEFT: u8 = 0;

pub const RIGHT: u8 = 1;

pub const MIDDLE: u8 = 2;

pub const BACK: u8 = 3;

pub const FORWARD: u8 = 4;

#[derive(Debug)]
pub enum Error {
    Unsupported,
    PermissionDenied,
    Backend(String),
}

impl Error {
    pub open spec fn says(&self) -> Seq<char> {
        match self {
            Error::Unsupported => "no input backend available on this platform"@,
            Error::PermissionDenied =>
                "the OS refused the injection (missing Accessibility permission?)"@,
            Error::Backend(what) => "input backend failure: "@ + what@,
        }
    }

    /// The error in words.
    pub fn message(&self) -> (text: String)
        ensures
            text@ == self.says(),
    {
        match self {
            Error::Unsupported => "no input backend available on this platform".to_owned(),
            Error::PermissionDenied =>
                "the OS refused the injection (missing Accessibility permission?)".to_owned(),
            Error::Backend(what) => {
                let mut text = "input backend failure: ".to_owned();
                text.append(what);
                text
            },
        }
    }
}

/// The display that normalised coordinates map onto.
#[derive(Debug, Clone, Copy, PartialEq, Eq, Structural)]
pub struct Target {
    pub width: u16,
    pub height: u16,
    pub x: i16,
    pub y: i16,
}

/// The whole virtual desktop, in pixels.
#[derive(Debug, Clone, Copy, PartialEq, Eq, Structural)]
pub struct Desk {
    pub left: i32,
    pub top: i32,
    pub width: i32,
    pub height: i32,
}

/// One event as `SendInput` takes it, with Windows' own numbers.
#[derive(Debug, Clone, Copy, PartialEq, Eq, Structural)]
pub enum Event {
    Mouse { dx: i32, dy: i32, data: u32, flags: u32 },
    Keyboard { key: u16, scan: u16, flags: u32 },
}

pub const MOUSEEVENTF_MOVE: u32 = 0x0001;

pub const MOUSEEVENTF_LEFTDOWN: u32 = 0x0002;

pub const MOUSEEVENTF_LEFTUP: u32 = 0x0004;

pub const MOUSEEVENTF_RIGHTDOWN: u32 = 0x0008;

pub const MOUSEEVENTF_RIGHTUP: u32 = 0x0010;

pub const MOUSEEVENTF_MIDDLEDOWN: u32 = 0x0020;

pub const MOUSEEVENTF_MIDDLEUP: u32 = 0x0040;

pub const MOUSEEVENTF_XDOWN: u32 = 0x0080;

pub const MOUSEEVENTF_XUP: u32 = 0x0100;

pub const MOUSEEVENTF_WHEEL: u32 = 0x0800;

pub const MOUSEEVENTF_HWHEEL: u32 = 0x1000;

pub const MOUSEEVENTF_VIRTUALDESK: u32 = 0x4000;

pub const MOUSEEVENTF_ABSOLUTE: u32 = 0x8000;

pub const XBUTTON1: u32 = 1;

pub const XBUTTON2: u32 = 2;

pub const KEYEVENTF_EXTENDEDKEY: u32 = 0x0001;

pub const KEYEVENTF_KEYUP: u32 = 0x0002;

pub const KEYEVENTF_UNICODE: u32 = 0x0004;

pub const KEYEVENTF_SCANCODE: u32 = 0x0008;

pub const VK_PAUSE: u16 = 0x13;

/// HID keyboard usage for Pause, the one key whose scan code `SendInput`
/// cannot express; its virtual key reaches applications the same way.
pub const PAUSE: u16 = 0x48;

// --- The pointer -------------------------------------------------------------

/// Where `value` of `0..=65535` falls on an axis `extent` pixels long.
pub open spec fn denormalised(value: u16, extent: u16) -> int {
    value as int * (if extent == 0 {
        1
    } else {
        extent as int
    }) / 65535
}

/// Map a normalised 0..=65535 coordinate onto a target display.
pub fn denormalise(value: u16, extent: u16) -> (pixel: i32)
    ensures
        pixel == denormalised(value, extent),
        0 <= pixel <= 65535,
{
    let extent: u32 = if extent == 0 {
        1
    } else {
        extent as u32
    };
    assert(0 <= value as int * extent as int <= 65535 * 65535) by (nonlinear_arith)
        requires
            value <= 65535,
            extent <= 65535,
    ;
    (value as u32 * extent / 65535) as i32
}

/// The pixel `offset` of `extent`, aimed at its centre, in `SendInput`'s
/// 0..=65535; what lies outside is taken for the nearest edge.
pub open spec fn scaled(offset: int, extent: int) -> int {
    let size = if extent < 1 {
        1
    } else {
        extent
    };
    let inside = if offset < 0 {
        0
    } else if offset > size - 1 {
        size - 1
    } else {
        offset
    };
    (inside * 2 + 1) * 65536 / (2 * size)
}

fn scale(offset: i64, extent: i32) -> (point: i32)
    ensures
        point == scaled(offset as int, extent as int),
        0 <= point <= 65535,
{
    let size: i64 = if extent < 1 {
        1
    } else {
        extent as i64
    };
    let inside: i64 = if offset < 0 {
        0
    } else if offset > size - 1 {
        size - 1
    } else {
        offset
    };
    assert(0 <= (inside * 2 + 1) * 65536 / (2 * size) <= 65535) by (nonlinear_arith)
        requires
            1 <= size,
            0 <= inside <= size - 1,
    ;
    ((inside * 2 + 1) * 65536 / (2 * size)) as i32
}

/// A pixel on the virtual desktop as `SendInput`'s 0..=65535 coordinates,
/// aimed at the pixel's centre so rounding cannot land on its neighbour.
pub fn virtual_desk_point(x: i32, y: i32, desk: Desk) -> (point: (i32, i32))
    ensures
        point.0 == scaled(x - desk.left, desk.width as int),
        point.1 == scaled(y - desk.top, desk.height as int),
        0 <= point.0 <= 65535,
        0 <= point.1 <= 65535,
{
    (scale(x as i64 - desk.left as i64, desk.width), scale(y as i64 - desk.top as i64, desk.height))
}

/// Two pixels of the desktop never share a point, as long as it is no more
/// than 65536 pixels long: each is aimed at on its own.
pub proof fn lemma_desk_points_distinct(a: int, b: int, extent: int)
    requires
        0 <= a < b < extent <= 65536,
    ensures
        scaled(a, extent) < scaled(b, extent),
{
    let p = (a * 2 + 1) * 65536;
    let q = (b * 2 + 1) * 65536;
    let d = 2 * extent;
    assert(q - p >= d);
    vstd::arithmetic::div_mod::lemma_div_is_ordered(p + d, q, d);
    vstd::arithmetic::div_mod::lemma_div_plus_one(p, d);
}

// --- Buttons, wheel, keys, text ------------------------------------------------

pub open spec fn button_flags_of(button: u8, down: bool) -> Option<(u32, u32)> {
    if button == LEFT {
        Some((if down { MOUSEEVENTF_LEFTDOWN } else { MOUSEEVENTF_LEFTUP }, 0))
    } else if button == RIGHT {
        Some((if down { MOUSEEVENTF_RIGHTDOWN } else { MOUSEEVENTF_RIGHTUP }, 0))
    } else if button == MIDDLE {
        Some((if down { MOUSEEVENTF_MIDDLEDOWN } else { MOUSEEVENTF_MIDDLEUP }, 0))
    } else if button == BACK {
        Some((if down { MOUSEEVENTF_XDOWN } else { MOUSEEVENTF_XUP }, XBUTTON1))
    } else if button == FORWARD {
        Some((if down { MOUSEEVENTF_XDOWN } else { MOUSEEVENTF_XUP }, XBUTTON2))
    } else {
        None
    }
}

/// The flags and data that press or release a mouse button.
pub fn button_flags(button: u8, down: bool) -> (flags: Option<(u32, u32)>)
    ensures
        flags == button_flags_of(button, down),
{
    if button == LEFT {
        Some((if down { MOUSEEVENTF_LEFTDOWN } else { MOUSEEVENTF_LEFTUP }, 0))
    } else if button == RIGHT {
        Some((if down { MOUSEEVENTF_RIGHTDOWN } else { MOUSEEVENTF_RIGHTUP }, 0))
    } else if button == MIDDLE {
        Some((if down { MOUSEEVENTF_MIDDLEDOWN } else { MOUSEEVENTF_MIDDLEUP }, 0))
    } else if button == BACK {
        Some((if down { MOUSEEVENTF_XDOWN } else { MOUSEEVENTF_XUP }, XBUTTON1))
    } else if button == FORWARD {
        Some((if down { MOUSEEVENTF_XDOWN } else { MOUSEEVENTF_XUP }, XBUTTON2))
    } else {
        None
    }
}

pub open spec fn button_event_of(button: u8, down: bool) -> Option<Event> {
    match button_flags_of(button, down) {
        Some((flags, data)) => Some(Event::Mouse { dx: 0, dy: 0, data, flags }),
        None => None,
    }
}

fn button_event(button: u8, down: bool) -> (event: Option<Event>)
    ensures
        event == button_event_of(button, down),
{
    match button_flags(button, down) {
        Some((flags, data)) => Some(Event::Mouse { dx: 0, dy: 0, data, flags }),
        None => None,
    }
}

/// A signed wheel movement as the unsigned word that carries it.
pub open spec fn wheel_word(movement: i16) -> int {
    if movement < 0 {
        movement + 0x1_0000_0000
    } else {
        movement as int
    }
}

fn wheel_data(movement: i16) -> (word: u32)
    ensures
        word == wheel_word(movement),
{
    if movement < 0 {
        (0x1_0000_0000i64 + movement as i64) as u32
    } else {
        movement as u32
    }
}

/// What presses or releases the key at `usage`, if any scan code does. The
/// scan code's low byte travels, and a flag says whether it is extended.
pub open spec fn key_event_of(usage: u16, down: bool) -> Option<Event> {
    let up: int = if down { 0 } else { KEYEVENTF_KEYUP as int };
    if usage == PAUSE {
        Some(Event::Keyboard { key: VK_PAUSE, scan: 0, flags: up as u32 })
    } else {
        match scan_code_of(usage) {
            None => None,
            Some(scan) => {
                let extended: int = if scan >= 0xE000 { KEYEVENTF_EXTENDEDKEY as int } else { 0 };
                Some(Event::Keyboard {
                    key: 0,
                    scan: (scan as int % 256) as u16,
                    flags: (KEYEVENTF_SCANCODE + extended + up) as u32,
                })
            },
        }
    }
}

pub fn key_input(usage: u16, down: bool) -> (event: Option<Event>)
    ensures
        event == key_event_of(usage, down),
{
    let up: u32 = if down { 0 } else { KEYEVENTF_KEYUP };
    if usage == PAUSE {
        return Some(Event::Keyboard { key: VK_PAUSE, scan: 0, flags: up });
    }
    match scan_code(usage) {
        None => None,
        Some(scan) => {
            let extended: u32 = if scan >= 0xE000 { KEYEVENTF_EXTENDEDKEY } else { 0 };
            Some(Event::Keyboard {
                key: 0,
                scan: scan % 256,
                flags: KEYEVENTF_SCANCODE + extended + up,
            })
        },
    }
}

/// A character as UTF-16: one unit, or a surrogate pair.
pub open spec fn utf16_of(c: char) -> Seq<u16> {
    let v = c as int;
    if v < 0x10000 {
        seq![v as u16]
    } else {
        seq![
            (0xD800 + (v - 0x10000) / 0x400) as u16,
            (0xDC00 + (v - 0x10000) % 0x400) as u16,
        ]
    }
}

pub open spec fn utf16(s: Seq<char>) -> Seq<u16>
    decreases s.len(),
{
    if s.len() == 0 {
        Seq::empty()
    } else {
        utf16(s.drop_last()) + utf16_of(s.last())
    }
}

pub open spec fn unicode_event(unit: u16, down: bool) -> Event {
    Event::Keyboard {
        key: 0,
        scan: unit,
        flags: (KEYEVENTF_UNICODE + (if down { 0 } else { KEYEVENTF_KEYUP as int })) as u32,
    }
}

/// Each unit pressed, then released.
pub open spec fn unit_events(units: Seq<u16>) -> Seq<Event> {
    Seq::new(2 * units.len(), |i: int| unicode_event(units[i / 2], i % 2 == 0))
}

proof fn lemma_unit_events_push(units: Seq<u16>, unit: u16)
    ensures
        unit_events(units.push(unit)) == unit_events(units).push(unicode_event(unit, true)).push(
            unicode_event(unit, false),
        ),
{
    let more = units.push(unit);
    assert forall|i: int| 0 <= i < 2 * more.len() implies unit_events(more)[i] == unit_events(
        units,
    ).push(unicode_event(unit, true)).push(unicode_event(unit, false))[i] by {
        if i < 2 * units.len() {
            assert(more[i / 2] == units[i / 2]);
        }
    }
    assert(unit_events(more) =~= unit_events(units).push(unicode_event(unit, true)).push(
        unicode_event(unit, false),
    ));
}

fn push_unit(events: &mut Vec<Event>, unit: u16, Ghost(units): Ghost<Seq<u16>>)
    requires
        old(events)@ == unit_events(units),
    ensures
        final(events)@ == unit_events(units.push(unit)),
{
    proof {
        lemma_unit_events_push(units, unit);
    }
    events.push(Event::Keyboard { key: 0, scan: unit, flags: KEYEVENTF_UNICODE });
    events.push(Event::Keyboard { key: 0, scan: unit, flags: KEYEVENTF_UNICODE + KEYEVENTF_KEYUP });
}

/// The events that type `text` where no key does.
pub fn text_events(text: &str) -> (events: Vec<Event>)
    ensures
        events@ == unit_events(utf16(text@)),
{
    let chars = crate::text::chars_of(text);
    let mut events: Vec<Event> = Vec::new();
    let mut i: usize = 0;
    assert(events@ =~= unit_events(utf16(chars@.take(0))));
    while i < chars.len()
        invariant
            i <= chars@.len(),
            events@ == unit_events(utf16(chars@.take(i as int))),
        decreases chars.len() - i,
    {
        let ghost units = utf16(chars@.take(i as int));
        let c = chars[i];
        proof {
            assert(chars@.take(i + 1).drop_last() =~= chars@.take(i as int));
            assert(chars@.take(i + 1).last() == c);
            assert(utf16(chars@.take(i + 1)) == units + utf16_of(c));
        }
        let v: u32 = c as u32;
        proof {
            crate::text::lemma_char_number(c);
        }
        if v < 0x10000 {
            assert(units + utf16_of(c) =~= units.push(v as u16));
            push_unit(&mut events, v as u16, Ghost(units));
        } else {
            let high: u16 = (0xD800 + (v - 0x10000) / 0x400) as u16;
            let low: u16 = (0xDC00 + (v - 0x10000) % 0x400) as u16;
            assert(units + utf16_of(c) =~= units.push(high).push(low));
            push_unit(&mut events, high, Ghost(units));
            push_unit(&mut events, low, Ghost(units.push(high)));
        }
        i = i + 1;
    }
    assert(chars@.take(i as int) =~= chars@);
    events
}

// --- What is held down -----------------------------------------------------------

/// The keys and buttons pressed and not yet released.
#[derive(Debug)]
pub struct Held {
    keys: Vec<u16>,
    buttons: Vec<u8>,
}

impl Held {
    pub closed spec fn keys(&self) -> Seq<u16> {
        self.keys@
    }

    pub closed spec fn buttons(&self) -> Seq<u8> {
        self.buttons@
    }

    /// Nothing is held twice.
    pub open spec fn wf(&self) -> bool {
        self.keys().no_duplicates() && self.buttons().no_duplicates()
    }

    pub fn new() -> (held: Held)
        ensures
            held.wf(),
            held.keys() == Seq::<u16>::empty(),
            held.buttons() == Seq::<u8>::empty(),
    {
        Held { keys: Vec::new(), buttons: Vec::new() }
    }

    /// Note a key going down or up; whether it was down before.
    pub fn key(&mut self, code: u16, down: bool) -> (was_down: bool)
        requires
            old(self).wf(),
        ensures
            final(self).wf(),
            was_down == old(self).keys().contains(code),
            final(self).buttons() == old(self).buttons(),
            forall|k: u16| #[trigger]
                final(self).keys().contains(k) <==> if k == code {
                    down
                } else {
                    old(self).keys().contains(k)
                },
            final(self).keys().to_set() == (if down {
                old(self).keys().to_set().insert(code)
            } else {
                old(self).keys().to_set().remove(code)
            }),
    {
        let ghost before = self.keys@;
        let mut i: usize = 0;
        while i < self.keys.len() && self.keys[i] != code
            invariant
                i <= self.keys@.len(),
                self.keys@ == before,
                forall|j: int| 0 <= j < i ==> before[j] != code,
            decreases self.keys.len() - i,
        {
            i = i + 1;
        }
        let was_down = i < self.keys.len();
        if was_down {
            assert(before[i as int] == code);
        }
        if down && !was_down {
            self.keys.push(code);
            proof {
                assert forall|k: u16| #[trigger] self.keys@.contains(k) <==> (k == code
                    || before.contains(k)) by {
                    if before.contains(k) {
                        let j = choose|j: int| 0 <= j < before.len() && before[j] == k;
                        assert(self.keys@[j] == k);
                    }
                    if k == code {
                        assert(self.keys@[before.len() as int] == k);
                    }
                }
            }
        }
        if !down && was_down {
            let gone: u16 = self.keys.remove(i);
            proof {
                assert forall|k: u16| #[trigger] self.keys@.contains(k) <==> (k != code
                    && before.contains(k)) by {
                    if before.contains(k) && k != code {
                        let j = choose|j: int| 0 <= j < before.len() && before[j] == k;
                        if j < i {
                            assert(self.keys@[j] == k);
                        } else {
                            assert(self.keys@[j - 1] == k);
                        }
                    }
                    if self.keys@.contains(k) {
                        let j = choose|j: int| 0 <= j < self.keys@.len() && self.keys@[j] == k;
                        if j < i {
                            assert(before[j] == k);
                        } else {
                            assert(before[j + 1] == k);
                        }
                    }
                }
            }
        }
        proof {
            assert(self.keys@.to_set() =~= (if down {
                before.to_set().insert(code)
            } else {
                before.to_set().remove(code)
            }));
        }
        was_down
    }

    /// Note a mouse button going down or up.
    pub fn button(&mut self, button: u8, down: bool)
        requires
            old(self).wf(),
        ensures
            final(self).wf(),
            final(self).keys() == old(self).keys(),
            forall|b: u8| #[trigger]
                final(self).buttons().contains(b) <==> if b == button {
                    down
                } else {
                    old(self).buttons().contains(b)
                },
            final(self).buttons().to_set() == (if down {
                old(self).buttons().to_set().insert(button)
            } else {
                old(self).buttons().to_set().remove(button)
            }),
    {
        let ghost before = self.buttons@;
        let mut i: usize = 0;
        while i < self.buttons.len() && self.buttons[i] != button
            invariant
                i <= self.buttons@.len(),
                self.buttons@ == before,
                forall|j: int| 0 <= j < i ==> before[j] != button,
            decreases self.buttons.len() - i,
        {
            i = i + 1;
        }
        let was_down = i < self.buttons.len();
        if was_down {
            assert(before[i as int] == button);
        }
        if down && !was_down {
            self.buttons.push(button);
            proof {
                assert forall|b: u8| #[trigger] self.buttons@.contains(b) <==> (b == button
                    || before.contains(b)) by {
                    if before.contains(b) {
                        let j = choose|j: int| 0 <= j < before.len() && before[j] == b;
                        assert(self.buttons@[j] == b);
                    }
                    if b == button {
                        assert(self.buttons@[before.len() as int] == b);
                    }
                }
            }
        }
        if !down && was_down {
            let gone: u8 = self.buttons.remove(i);
            proof {
                assert forall|b: u8| #[trigger] self.buttons@.contains(b) <==> (b != button
                    && before.contains(b)) by {
                    if before.contains(b) && b != button {
                        let j = choose|j: int| 0 <= j < before.len() && before[j] == b;
                        if j < i {
                            assert(self.buttons@[j] == b);
                        } else {
                            assert(self.buttons@[j - 1] == b);
                        }
                    }
                    if self.buttons@.contains(b) {
                        let j = choose|j: int| 0 <= j < self.buttons@.len() && self.buttons@[j] == b;
                        if j < i {
                            assert(before[j] == b);
                        } else {
                            assert(before[j + 1] == b);
                        }
                    }
                }
            }
        }
        proof {
            assert(self.buttons@.to_set() =~= (if down {
                before.to_set().insert(button)
            } else {
                before.to_set().remove(button)
            }));
        }
    }

    /// Hand over what is held, and hold nothing from then on.
    pub fn take(&mut self) -> (held: (Vec<u16>, Vec<u8>))
        ensures
            held.0@ == old(self).keys(),
            held.1@ == old(self).buttons(),
            final(self).wf(),
            final(self).keys() == Seq::<u16>::empty(),
            final(self).buttons() == Seq::<u8>::empty(),
    {
        let mut keys: Vec<u16> = Vec::new();
        let mut buttons: Vec<u8> = Vec::new();
        std::mem::swap(&mut keys, &mut self.keys);
        std::mem::swap(&mut buttons, &mut self.buttons);
        (keys, buttons)
    }
}

// --- Injecting -------------------------------------------------------------------

/// Turns the viewer's input into `SendInput` events, and keeps track of what
/// it leaves pressed.
#[derive(Debug)]
pub struct SendInputInjector {
    target: Target,
    held: Held,
}

/// What injecting `event` sends, or why it cannot.
pub open spec fn events_of(target: Target, desk: Desk, event: &Input) -> Result<
    Seq<Event>,
    Seq<char>,
> {
    match event {
        Input::MouseMove { x, y } => Ok(
            seq![
                Event::Mouse {
                    dx: scaled(
                        target.x + denormalised(*x, target.width) - desk.left,
                        desk.width as int,
                    ) as i32,
                    dy: scaled(
                        target.y + denormalised(*y, target.height) - desk.top,
                        desk.height as int,
                    ) as i32,
                    data: 0,
                    flags: (MOUSEEVENTF_MOVE + MOUSEEVENTF_ABSOLUTE + MOUSEEVENTF_VIRTUALDESK)
                        as u32,
                },
            ],
        ),
        Input::MouseButton { button, down } => match button_event_of(*button, *down) {
            Some(one) => Ok(seq![one]),
            None => Err("no mouse button "@ + crate::text::decimal(*button as nat)),
        },
        Input::Wheel { dx, dy } => Ok(
            (if *dy != 0 {
                seq![
                    Event::Mouse {
                        dx: 0,
                        dy: 0,
                        data: wheel_word(*dy) as u32,
                        flags: MOUSEEVENTF_WHEEL,
                    },
                ]
            } else {
                Seq::empty()
            }) + (if *dx != 0 {
                seq![
                    Event::Mouse {
                        dx: 0,
                        dy: 0,
                        data: wheel_word(*dx) as u32,
                        flags: MOUSEEVENTF_HWHEEL,
                    },
                ]
            } else {
                Seq::empty()
            }),
        ),
        Input::Key { scancode, down } => match key_event_of(*scancode, *down) {
            Some(one) => Ok(seq![one]),
            None => Err("no scan code for HID usage 0x"@ + padded_hex(*scancode)),
        },
        Input::Text(text) => Ok(unit_events(utf16(text@))),
        Input::SecureAttention => Err(Seq::empty()),
    }
}

/// At least two hexadecimal digits.
pub open spec fn padded_hex(n: u16) -> Seq<char> {
    if n < 16 {
        seq!['0'] + crate::hex::hex_number(n as nat)
    } else {
        crate::hex::hex_number(n as nat)
    }
}

impl SendInputInjector {
    pub closed spec fn target(&self) -> Target {
        self.target
    }

    pub closed spec fn keys(&self) -> Seq<u16> {
        self.held.keys()
    }

    pub closed spec fn buttons(&self) -> Seq<u8> {
        self.held.buttons()
    }

    /// Only what has an event of its own is ever held, and nothing twice.
    pub open spec fn wf(&self) -> bool {
        &&& self.keys().no_duplicates()
        &&& self.buttons().no_duplicates()
        &&& forall|i: int|
            0 <= i < self.keys().len() ==> key_event_of(#[trigger] self.keys()[i], false) is Some
        &&& forall|i: int|
            0 <= i < self.buttons().len() ==> button_event_of(
                #[trigger] self.buttons()[i],
                false,
            ) is Some
    }

    pub fn open(target: Target) -> (injector: SendInputInjector)
        ensures
            injector.wf(),
            injector.target() == target,
            injector.keys() == Seq::<u16>::empty(),
            injector.buttons() == Seq::<u8>::empty(),
    {
        SendInputInjector { target, held: Held::new() }
    }

    /// The events that apply one input to the host, to be sent together.
    pub fn inject(&self, event: &Input, desk: Desk) -> (planned: Result<Vec<Event>, Error>)
        requires
            !(event is SecureAttention),
        ensures
            match planned {
                Ok(events) => events_of(self.target(), desk, event) == Ok::<Seq<Event>, Seq<char>>(
                    events@,
                ),
                Err(error) => error matches Error::Backend(what) && events_of(
                    self.target(),
                    desk,
                    event,
                ) == Err::<Seq<Event>, Seq<char>>(what@),
            },
    {
        match event {
            Input::MouseMove { x, y } => {
                let px: i32 = self.target.x as i32 + denormalise(*x, self.target.width);
                let py: i32 = self.target.y as i32 + denormalise(*y, self.target.height);
                let (dx, dy) = virtual_desk_point(px, py, desk);
                let mut events: Vec<Event> = Vec::new();
                events.push(
                    Event::Mouse {
                        dx,
                        dy,
                        data: 0,
                        flags: MOUSEEVENTF_MOVE + MOUSEEVENTF_ABSOLUTE + MOUSEEVENTF_VIRTUALDESK,
                    },
                );
                proof {
                    let spec = events_of(self.target(), desk, event)->Ok_0;
                    assert(events@ =~= spec);
                }
                Ok(events)
            },
            Input::MouseButton { button, down } => match button_event(*button, *down) {
                Some(one) => {
                    let mut events: Vec<Event> = Vec::new();
                    events.push(one);
                    assert(events@ =~= seq![one]);
                    Ok(events)
                },
                None => {
                    let mut what = "no mouse button ".to_owned();
                    crate::text::push_decimal(&mut what, *button as u64);
                    Err(Error::Backend(what))
                },
            },
            Input::Wheel { dx, dy } => {
                let mut events: Vec<Event> = Vec::new();
                if *dy != 0 {
                    events.push(
                        Event::Mouse { dx: 0, dy: 0, data: wheel_data(*dy), flags: MOUSEEVENTF_WHEEL },
                    );
                }
                if *dx != 0 {
                    events.push(
                        Event::Mouse { dx: 0, dy: 0, data: wheel_data(*dx), flags: MOUSEEVENTF_HWHEEL },
                    );
                }
                proof {
                    let spec = events_of(self.target(), desk, event)->Ok_0;
                    assert(events@ =~= spec);
                }
                Ok(events)
            },
            Input::Key { scancode, down } => match key_input(*scancode, *down) {
                Some(one) => {
                    let mut events: Vec<Event> = Vec::new();
                    events.push(one);
                    assert(events@ =~= seq![one]);
                    Ok(events)
                },
                None => {
                    let mut what = "no scan code for HID usage 0x".to_owned();
                    let ghost start = what@;
                    if *scancode < 16 {
                        what.push('0');
                    }
                    crate::hex::push_hex_number(&mut what, *scancode as u64);
                    assert(what@ =~= start + padded_hex(*scancode));
                    Err(Error::Backend(what))
                },
            },
            Input::Text(text) => Ok(text_events(text)),
            Input::SecureAttention => Err(Error::Unsupported),
        }
    }

    /// Note that the events of one input went out: what is pressed changes
    /// only once it is.
    pub fn injected(&mut self, event: &Input)
        requires
            old(self).wf(),
            event matches Input::Key { scancode, .. } ==> key_event_of(*scancode, false) is Some,
            event matches Input::MouseButton { button, .. } ==> button_event_of(
                *button,
                false,
            ) is Some,
        ensures
            final(self).wf(),
            final(self).target() == old(self).target(),
            match event {
                Input::Key { scancode, down } => {
                    &&& final(self).buttons() == old(self).buttons()
                    &&& final(self).keys().to_set() == (if *down {
                        old(self).keys().to_set().insert(*scancode)
                    } else {
                        old(self).keys().to_set().remove(*scancode)
                    })
                },
                Input::MouseButton { button, down } => {
                    &&& final(self).keys() == old(self).keys()
                    &&& final(self).buttons().to_set() == (if *down {
                        old(self).buttons().to_set().insert(*button)
                    } else {
                        old(self).buttons().to_set().remove(*button)
                    })
                },
                _ => *final(self) == *old(self),
            },
    {
        match event {
            Input::Key { scancode, down } => {
                let was_down = self.held.key(*scancode, *down);
                proof {
                    assert forall|i: int| 0 <= i < self.keys().len() implies key_event_of(
                        #[trigger] self.keys()[i],
                        false,
                    ) is Some by {
                        let k = self.keys()[i];
                        assert(self.held.keys().contains(k));
                        if k != *scancode {
                            assert(old(self).held.keys().contains(k));
                            let j = choose|j: int|
                                0 <= j < old(self).keys().len() && old(self).keys()[j] == k;
                            assert(key_event_of(old(self).keys()[j], false) is Some);
                        }
                    }
                }
            },
            Input::MouseButton { button, down } => {
                self.held.button(*button, *down);
                proof {
                    assert forall|i: int| 0 <= i < self.buttons().len() implies button_event_of(
                        #[trigger] self.buttons()[i],
                        false,
                    ) is Some by {
                        let b = self.buttons()[i];
                        assert(self.held.buttons().contains(b));
                        if b != *button {
                            assert(old(self).held.buttons().contains(b));
                            let j = choose|j: int|
                                0 <= j < old(self).buttons().len() && old(self).buttons()[j] == b;
                            assert(button_event_of(old(self).buttons()[j], false) is Some);
                        }
                    }
                }
            },
            _ => {},
        }
    }

    /// Follow a monitor change.
    pub fn set_target(&mut self, target: Target)
        ensures
            final(self).target() == target,
            final(self).keys() == old(self).keys(),
            final(self).buttons() == old(self).buttons(),
    {
        self.target = target;
    }

    /// The events that release every key and button still held, keys first.
    /// Nothing is held from then on.
    pub fn release_all(&mut self) -> (events: Vec<Event>)
        requires
            old(self).wf(),
        ensures
            final(self).wf(),
            final(self).target() == old(self).target(),
            final(self).keys() == Seq::<u16>::empty(),
            final(self).buttons() == Seq::<u8>::empty(),
            events@ == released(old(self).keys(), old(self).buttons()),
    {
        let (keys, buttons) = self.held.take();
        let mut events: Vec<Event> = Vec::new();
        let mut i: usize = 0;
        while i < keys.len()
            invariant
                i <= keys@.len(),
                keys@ == old(self).keys(),
                old(self).wf(),
                events@ == keys@.take(i as int).map_values(|k: u16| key_event_of(k, false)->0),
            decreases keys.len() - i,
        {
            assert(key_event_of(old(self).keys()[i as int], false) is Some);
            if let Some(event) = key_input(keys[i], false) {
                events.push(event);
            }
            assert(events@ =~= keys@.take(i + 1).map_values(|k: u16| key_event_of(k, false)->0));
            i = i + 1;
        }
        assert(keys@.take(i as int) =~= keys@);
        let ghost ups = events@;
        let mut j: usize = 0;
        while j < buttons.len()
            invariant
                j <= buttons@.len(),
                buttons@ == old(self).buttons(),
                old(self).wf(),
                events@ == ups + buttons@.take(j as int).map_values(
                    |b: u8| button_event_of(b, false)->0,
                ),
            decreases buttons.len() - j,
        {
            assert(button_event_of(old(self).buttons()[j as int], false) is Some);
            if let Some(event) = button_event(buttons[j], false) {
                events.push(event);
            }
            assert(events@ =~= ups + buttons@.take(j + 1).map_values(
                |b: u8| button_event_of(b, false)->0,
            ));
            j = j + 1;
        }
        assert(buttons@.take(j as int) =~= buttons@);
        events
    }
}

/// A release for every key, then for every button.
pub open spec fn released(keys: Seq<u16>, buttons: Seq<u8>) -> Seq<Event> {
    keys.map_values(|k: u16| key_event_of(k, false)->0) + buttons.map_values(
        |b: u8| button_event_of(b, false)->0,
    )
}

// --- What is sent ---------------------------------------------------------------

/// Each button is pressed and released by flags of its own: twice the press is
/// the release. The two at the side share theirs, and go by number.
pub proof fn lemma_buttons_are_told_apart(button: u8, down: bool)
    ensures
        button_flags_of(0, down) == Some((if down { 0x0002u32 } else { 0x0004u32 }, 0u32)),
        button_flags_of(1, down) == Some((if down { 0x0008u32 } else { 0x0010u32 }, 0u32)),
        button_flags_of(2, down) == Some((if down { 0x0020u32 } else { 0x0040u32 }, 0u32)),
        button_flags_of(3, down) == Some((if down { 0x0080u32 } else { 0x0100u32 }, 1u32)),
        button_flags_of(4, down) == Some((if down { 0x0080u32 } else { 0x0100u32 }, 2u32)),
        button_flags_of(button, down) is Some <==> button <= 4,
        button_flags_of(button, true) matches Some((press, data)) ==> button_flags_of(button, false)
            == Some(((2 * press) as u32, data)),
{
}

/// No two buttons are pressed by the same flags and data.
pub proof fn lemma_buttons_are_distinct(a: u8, b: u8, down: bool)
    requires
        button_flags_of(a, down) is Some,
        button_flags_of(a, down) == button_flags_of(b, down),
    ensures
        a == b,
{
}

/// Injecting a button, at wherever the pointer is, sends its flags and nothing
/// else.
pub proof fn lemma_a_button_is_injected(target: Target, desk: Desk, button: u8, down: bool)
    requires
        button <= 4,
    ensures
        ({
            let sent = events_of(target, desk, &Input::MouseButton { button, down });
            &&& sent matches Ok(events) && events.len() == 1
            &&& sent->Ok_0[0] matches Event::Mouse { dx, dy, data, flags }
            &&& dx == 0 && dy == 0
            &&& data == (if button < 3 { 0int } else { button - 2 })
            &&& flags == (if button == 0 {
                0x0002int
            } else if button == 1 {
                0x0008
            } else if button == 2 {
                0x0020
            } else {
                0x0080
            }) * (if down { 1int } else { 2 })
        }),
{
}

/// A key is injected by its scan code: the low byte travels, bit 0 of the flags
/// says that it is extended, bit 1 that the key goes up, bit 3 that this is a
/// scan code. Pause, which has none, goes by its virtual key.
pub proof fn lemma_a_key_is_injected(target: Target, desk: Desk, scancode: u16, down: bool)
    ensures
        ({
            let sent = events_of(target, desk, &Input::Key { scancode, down });
            if scancode == 0x48 {
                &&& sent matches Ok(events) && events.len() == 1
                &&& sent->Ok_0[0] == (Event::Keyboard {
                    key: 0x13,
                    scan: 0,
                    flags: if down { 0 } else { 2 },
                })
            } else {
                match scan_code_of(scancode) {
                    Some(code) => {
                        &&& sent matches Ok(events) && events.len() == 1
                        &&& sent->Ok_0[0] matches Event::Keyboard { key, scan, flags }
                        &&& key == 0 && scan < 0x100
                        &&& if code < 0x100 {
                            scan == code && flags == (if down { 0x8int } else { 0xA })
                        } else {
                            scan == code - 0xE000 && flags == (if down { 0x9int } else { 0xB })
                        }
                    },
                    None => sent is Err,
                }
            }
        }),
{
    assert(forall|code: u16| scan_code_of(scancode) == Some(code) ==> code < 0x100 || 0xE000 <= code
        < 0xE100);
}

/// Turning the wheel sends its vertical movement as such and its horizontal
/// movement as such, each as a 32-bit number in two's complement, and nothing
/// where there is none.
pub proof fn lemma_the_wheel_is_injected(target: Target, desk: Desk, dx: i16, dy: i16)
    ensures
        ({
            let sent = events_of(target, desk, &Input::Wheel { dx, dy })->Ok_0;
            &&& events_of(target, desk, &Input::Wheel { dx, dy }) is Ok
            &&& sent.len() == (if dx != 0 { 1int } else { 0 }) + (if dy != 0 { 1int } else { 0 })
            &&& dy != 0 ==> (sent.first() matches Event::Mouse { dx: x, dy: y, data, flags } && x
                == 0 && y == 0 && flags == 0x0800 && data == (if dy < 0 {
                0x1_0000_0000 + dy
            } else {
                dy as int
            }))
            &&& dx != 0 ==> (sent.last() matches Event::Mouse { dx: x, dy: y, data, flags } && x
                == 0 && y == 0 && flags == 0x1000 && data == (if dx < 0 {
                0x1_0000_0000 + dx
            } else {
                dx as int
            }))
        }),
{
}

/// A share of a side falls on the pixel that it falls on, and all of the side
/// behind the last.
pub proof fn lemma_a_share_of_a_side(value: u16, extent: u16)
    requires
        extent >= 1,
    ensures
        denormalised(value, extent) * 65535 <= value * extent < (denormalised(value, extent) + 1)
            * 65535,
        denormalised(0, extent) == 0,
        denormalised(65535, extent) == extent,
{
    let v = value * extent;
    assert(v >= 0) by (nonlinear_arith)
        requires
            v == value * extent,
            value >= 0,
            extent >= 1,
    ;
    assert(65535 * extent / 65535 == extent);
    assert(0 * extent == 0);
}

/// A pointer that is put at a pixel of the desktop is aimed at its middle: on
/// each side the share that is sent is that of the pixel's middle, rounded
/// down.
pub proof fn lemma_a_pixel_is_aimed_at(offset: int, extent: int)
    requires
        0 <= offset < extent,
    ensures
        scaled(offset, extent) * (2 * extent) <= (2 * offset + 1) * 65536 < (scaled(offset, extent)
            + 1) * (2 * extent),
        0 <= scaled(offset, extent) <= 65535,
{
    let top = (offset * 2 + 1) * 65536;
    let size = 2 * extent;
    let q = top / size;
    assert(q * size <= top < (q + 1) * size) by (nonlinear_arith)
        requires
            q == top / size,
            size > 0,
    ;
    assert(0 <= q <= 65535) by (nonlinear_arith)
        requires
            q == top / size,
            size == 2 * extent,
            top == (offset * 2 + 1) * 65536,
            0 <= offset < extent,
    ;
}

/// Moving the pointer puts it at a pixel of the desktop, as an absolute
/// position on all of it: `x` of the watched display's width from its left,
/// `y` of its height from its top. Outside the desktop that is its edge.
pub proof fn lemma_the_pointer_is_moved(target: Target, desk: Desk, x: u16, y: u16)
    requires
        target.width >= 1 && target.height >= 1,
        desk.width >= 1 && desk.height >= 1,
    ensures
        ({
            let sent = events_of(target, desk, &Input::MouseMove { x, y });
            let px = target.x + x * target.width / 65535 - desk.left;
            let py = target.y + y * target.height / 65535 - desk.top;
            &&& sent matches Ok(events) && events.len() == 1
            &&& sent->Ok_0[0] matches Event::Mouse { dx, dy, data, flags }
            &&& data == 0 && flags == 0xC001
            &&& 0 <= px < desk.width ==> dx * (2 * desk.width) <= (2 * px + 1) * 65536 < (dx + 1)
                * (2 * desk.width)
            &&& 0 <= py < desk.height ==> dy * (2 * desk.height) <= (2 * py + 1) * 65536 < (dy + 1)
                * (2 * desk.height)
            &&& px < 0 ==> dx == scaled(0, desk.width as int)
            &&& py < 0 ==> dy == scaled(0, desk.height as int)
            &&& px >= desk.width ==> dx == scaled(desk.width - 1, desk.width as int)
            &&& py >= desk.height ==> dy == scaled(desk.height - 1, desk.height as int)
        }),
{
    let px = target.x + x * target.width / 65535 - desk.left;
    let py = target.y + y * target.height / 65535 - desk.top;
    let (w, h) = (desk.width as int, desk.height as int);
    lemma_a_pixel_is_aimed_at(0, w);
    lemma_a_pixel_is_aimed_at(0, h);
    lemma_a_pixel_is_aimed_at(w - 1, w);
    lemma_a_pixel_is_aimed_at(h - 1, h);
    if 0 <= px < w {
        lemma_a_pixel_is_aimed_at(px, w);
    }
    if 0 <= py < h {
        lemma_a_pixel_is_aimed_at(py, h);
    }
    assert(scaled(px, w) == (if px < 0 {
        scaled(0, w)
    } else if px >= w {
        scaled(w - 1, w)
    } else {
        scaled(px, w)
    }));
    assert(scaled(py, h) == (if py < 0 {
        scaled(0, h)
    } else if py >= h {
        scaled(h - 1, h)
    } else {
        scaled(py, h)
    }));
}

/// A character reads back from its units: a unit that is no surrogate is one,
/// and a high and a low surrogate carry ten bits each of what is above 0xFFFF.
pub proof fn lemma_units_read_back(c: char)
    ensures
        ({
            let units = utf16_of(c);
            if (c as int) < 0x10000 {
                units.len() == 1 && units[0] == c as int
            } else {
                &&& units.len() == 2
                &&& 0xD800 <= units[0] < 0xDC00
                &&& 0xDC00 <= units[1] < 0xE000
                &&& 0x10000 + (units[0] - 0xD800) * 0x400 + (units[1] - 0xDC00) == c as int
            }
        }),
{
    crate::text::lemma_char_number(c);
    let v = c as int;
    if v >= 0x10000 {
        assert(v <= 0x10FFFF);
        assert(0 <= (v - 0x10000) / 0x400 < 0x400);
    }
}

/// Text is typed character by character: what types `a` and then `b` types
/// both.
pub proof fn lemma_text_is_typed_in_order(a: Seq<char>, b: Seq<char>, c: char)
    ensures
        utf16(a + b) == utf16(a) + utf16(b),
        utf16(seq![c]) == utf16_of(c),
    decreases b.len(),
{
    assert(seq![c].drop_last() =~= Seq::<char>::empty());
    assert(utf16(seq![c].drop_last()) =~= Seq::<u16>::empty());
    assert(Seq::<u16>::empty() + utf16_of(c) =~= utf16_of(c));
    if b.len() == 0 {
        assert(a + b =~= a);
        assert(utf16(a) + utf16(b) =~= utf16(a));
    } else {
        lemma_text_is_typed_in_order(a, b.drop_last(), c);
        assert((a + b).drop_last() =~= a + b.drop_last());
        assert(utf16(a + b) =~= utf16(a) + utf16(b));
    }
}

/// Injecting text presses and releases each of its units in turn, marked as
/// characters rather than keys.
pub proof fn lemma_text_is_injected(target: Target, desk: Desk, text: String, i: int)
    requires
        0 <= i < utf16(text@).len(),
    ensures
        ({
            let sent = events_of(target, desk, &Input::Text(text));
            &&& sent matches Ok(events) && events.len() == 2 * utf16(text@).len()
            &&& sent->Ok_0[2 * i] == (Event::Keyboard {
                key: 0,
                scan: utf16(text@)[i],
                flags: 0x4,
            })
            &&& sent->Ok_0[2 * i + 1] == (Event::Keyboard {
                key: 0,
                scan: utf16(text@)[i],
                flags: 0x6,
            })
        }),
{
}

/// Releasing everything sends as many events as there are keys and buttons
/// held, each what lets go of one of them, the keys' first.
pub proof fn lemma_everything_is_let_go(keys: Seq<u16>, buttons: Seq<u8>, i: int)
    requires
        0 <= i < keys.len() + buttons.len(),
    ensures
        released(keys, buttons).len() == keys.len() + buttons.len(),
        i < keys.len() ==> key_event_of(keys[i], false) is Some ==> Some(released(keys, buttons)[i])
            == key_event_of(keys[i], false),
        i >= keys.len() ==> button_event_of(buttons[i - keys.len()], false) is Some ==> Some(
            released(keys, buttons)[i],
        ) == button_event_of(buttons[i - keys.len()], false),
{
}

}
