use nearhand::input::{
    button_flags, denormalise, key_input, scan_code, text_events, virtual_desk_point, Desk, Error,
    Event, Held, Input, SendInputInjector, Target,
};

const EXTENDED: u32 = 0x0001;
const KEY_UP: u32 = 0x0002;
const UNICODE: u32 = 0x0004;
const SCANCODE: u32 = 0x0008;

fn desk() -> Desk {
    Desk {
        left: 0,
        top: 0,
        width: 1920,
        height: 1080,
    }
}

fn key_flags(event: Event) -> u32 {
    match event {
        Event::Keyboard { flags, .. } => flags,
        Event::Mouse { .. } => panic!("not a key"),
    }
}

#[test]
fn denormalise_spans_the_display() {
    assert_eq!(denormalise(0, 1920), 0);
    assert_eq!(denormalise(u16::MAX, 1920), 1920);
    assert_eq!(denormalise(u16::MAX / 2, 1920), 959);
}

#[test]
fn denormalise_survives_a_zero_extent() {
    assert_eq!(denormalise(u16::MAX, 0), 1);
}

#[test]
fn letters_and_digits_follow_the_rows() {
    assert_eq!(scan_code(0x04), Some(0x1E)); // A
    assert_eq!(scan_code(0x14), Some(0x10)); // Q
    assert_eq!(scan_code(0x1D), Some(0x2C)); // Z
    assert_eq!(scan_code(0x1E), Some(0x02)); // 1
    assert_eq!(scan_code(0x27), Some(0x0B)); // 0
}

#[test]
fn function_keys_skip_the_gaps() {
    assert_eq!(scan_code(0x3A), Some(0x3B)); // F1
    assert_eq!(scan_code(0x43), Some(0x44)); // F10
    assert_eq!(scan_code(0x45), Some(0x58)); // F12
    assert_eq!(scan_code(0x6E), Some(0x6A)); // F19
    assert_eq!(scan_code(0x73), Some(0x76)); // F24
}

#[test]
fn no_two_keys_share_a_scan_code() {
    let mut seen = std::collections::HashMap::new();
    for usage in 0..=0xFFu16 {
        // The ISO key by Enter is the ANSI backslash, physically.
        if usage == 0x32 {
            continue;
        }
        if let Some(scan) = scan_code(usage) {
            if let Some(other) = seen.insert(scan, usage) {
                panic!("usages {other:#04x} and {usage:#04x} both map to {scan:#06x}");
            }
        }
    }
}

#[test]
fn extended_keys_get_the_flag() {
    let flags = key_flags(key_input(0x52, false).expect("Up maps"));
    assert_eq!(
        flags & (EXTENDED | KEY_UP | SCANCODE),
        EXTENDED | KEY_UP | SCANCODE
    );
    let flags = key_flags(key_input(0xE0, true).expect("Ctrl maps"));
    assert_eq!(flags & EXTENDED, 0);
}

#[test]
fn virtual_desk_points_stay_in_range() {
    let (x, y) = virtual_desk_point(i32::MIN / 2, i32::MAX / 2, desk());
    assert!((0..=65535).contains(&x) && (0..=65535).contains(&y));
}

#[test]
fn every_pixel_of_the_desk_has_its_own_point() {
    let mut last = -1;
    for x in 0..1920 {
        let (point, _) = virtual_desk_point(x, 0, desk());
        assert!(point > last);
        last = point;
    }
}

#[test]
fn keys_without_a_scan_code_make_no_event() {
    assert_eq!(scan_code(0x00), None);
    assert_eq!(key_input(0x00, true), None);
}

#[test]
fn buttons_have_flags_of_their_own() {
    let mut seen = Vec::new();
    for button in 0..5u8 {
        for down in [true, false] {
            let flags = button_flags(button, down).expect("a button");
            assert!(!seen.contains(&flags));
            seen.push(flags);
        }
    }
    assert_eq!(button_flags(9, true), None);
}

#[test]
fn text_goes_as_utf_16_down_and_up() {
    let events = text_events("é😀");
    let units: Vec<u16> = "é😀".encode_utf16().collect();
    assert_eq!(events.len(), 2 * units.len());
    for (i, event) in events.iter().enumerate() {
        match event {
            Event::Keyboard { key, scan, flags } => {
                assert_eq!(*key, 0);
                assert_eq!(*scan, units[i / 2]);
                let up = if i % 2 == 1 { KEY_UP } else { 0 };
                assert_eq!(*flags, UNICODE | up);
            }
            Event::Mouse { .. } => panic!("not a key"),
        }
    }
}

#[test]
fn what_is_held_is_let_go_once() {
    let mut held = Held::new();
    assert!(!held.key(0x04, true));
    assert!(held.key(0x04, true), "held already");
    held.button(1, true);
    held.button(2, true);
    held.button(2, false);
    let (keys, buttons) = held.take();
    assert_eq!(keys, vec![0x04]);
    assert_eq!(buttons, vec![1]);
    let (keys, buttons) = held.take();
    assert!(keys.is_empty() && buttons.is_empty());
}

#[test]
fn an_injector_releases_what_it_pressed() {
    let target = Target {
        width: 1920,
        height: 1080,
        x: 0,
        y: 0,
    };
    let mut injector = SendInputInjector::open(target);
    let press = Input::Key {
        scancode: 0x52,
        down: true,
    };
    let planned = injector.inject(&press, desk()).expect("a key");
    assert_eq!(planned.len(), 1);
    assert_eq!(key_flags(planned[0]) & KEY_UP, 0);
    injector.injected(&press);
    let released = injector.release_all();
    assert_eq!(released.len(), 1);
    assert_eq!(key_flags(released[0]) & KEY_UP, KEY_UP);
    assert!(injector.release_all().is_empty());
}

#[test]
fn a_key_nobody_has_is_an_error_that_names_it() {
    let injector = SendInputInjector::open(Target {
        width: 10,
        height: 10,
        x: 0,
        y: 0,
    });
    let odd = Input::Key {
        scancode: 0x00,
        down: true,
    };
    match injector.inject(&odd, desk()) {
        Err(Error::Backend(what)) => {
            assert!(what.starts_with("no scan code for HID usage 0x"), "{what}");
        }
        other => panic!("{other:?}"),
    }
}
