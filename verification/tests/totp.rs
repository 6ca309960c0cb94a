use nearhand::server::totp::{
    base32, code_at, from_base32, new_secret, percent_encode, secret_of, uri, verify,
};

#[test]
fn matches_the_rfc_test_vectors() {
    let secret = b"12345678901234567890";
    for (time, eight_digits) in [
        (59u64, 94287082u32),
        (1111111109, 7081804),
        (1111111111, 14050471),
        (1234567890, 89005924),
        (2000000000, 69279037),
        (20000000000, 65353130),
    ] {
        assert_eq!(code_at(secret, time), eight_digits % 1_000_000, "at {time}");
    }
}

#[test]
fn codes_are_accepted_a_step_either_side_and_not_further() {
    let secret = b"12345678901234567890";
    let now = 1_234_567_890;
    let code = format!("{:06}", code_at(secret, now));
    assert!(verify(secret, &code, now).is_some());
    assert!(verify(secret, &code, now + 30).is_some());
    assert!(verify(secret, &code, now - 30).is_some());
    assert!(verify(secret, &code, now + 90).is_none());
    assert!(verify(secret, "12345", now).is_none());
    assert!(verify(secret, "abcdef", now).is_none());
    let spaced = format!("{} {}", &code[..3], &code[3..]);
    assert!(verify(secret, &spaced, now).is_some(), "as apps show it");
}

#[test]
fn the_step_a_code_is_of_comes_back() {
    let secret = b"12345678901234567890";
    let code = format!("{:06}", code_at(secret, 60));
    assert_eq!(verify(secret, &code, 60), Some(2));
    assert_eq!(verify(secret, &code, 30), Some(2));
}

#[test]
fn base32_roundtrips_and_matches_rfc_4648() {
    assert_eq!(base32(b"foobar"), "MZXW6YTBOI");
    assert_eq!(base32(b"f"), "MY");
    assert_eq!(from_base32("MZXW6YTBOI======").expect("decode"), b"foobar");
    let secret = new_secret().expect("secret");
    assert_eq!(from_base32(&base32(&secret)).expect("decode"), secret);
    assert!(from_base32("not base32!").is_none());
}

#[test]
fn the_uri_is_what_authenticator_apps_read() {
    let uri = uri(b"foobar", "Nearhand", "ada@example.com");
    assert_eq!(
        uri,
        "otpauth://totp/Nearhand:ada%40example.com?secret=MZXW6YTBOI&issuer=Nearhand&algorithm=SHA1&digits=6&period=30"
    );
}

#[test]
fn what_is_not_plain_is_escaped_byte_by_byte() {
    assert_eq!(percent_encode("a-b._~Z9"), "a-b._~Z9");
    assert_eq!(percent_encode("é /"), "%C3%A9%20%2F");
}

#[test]
fn what_is_escaped_can_be_read_back_and_told_apart() {
    let texts = ["", "a", "a b", "a%20b", "a+b", "\u{e9}", "e\u{301}", "\u{1f5a5}/"];
    for text in texts {
        let encoded = percent_encode(text);
        let mut bytes = Vec::new();
        let mut rest = encoded.as_bytes();
        while let Some((first, behind)) = rest.split_first() {
            if *first == b'%' {
                let hex = std::str::from_utf8(&behind[..2]).expect("digits");
                assert_eq!(hex, hex.to_uppercase());
                bytes.push(u8::from_str_radix(hex, 16).expect("hex"));
                rest = &behind[2..];
            } else {
                assert!(first.is_ascii_alphanumeric() || b"-._~".contains(first));
                bytes.push(*first);
                rest = behind;
            }
        }
        assert_eq!(bytes, text.as_bytes());
        for other in texts {
            assert_eq!(percent_encode(other) == encoded, other == text);
        }
    }
}

#[test]
fn base32_takes_any_case_and_spacing() {
    assert_eq!(from_base32("mzxw 6ytb\noi").expect("decode"), b"foobar");
    assert_eq!(from_base32("MZXW6YTBOI"), from_base32("mzxw6ytboi=="));
    assert_eq!(from_base32(""), Some(vec![]));
    assert_eq!(base32(&[]), "");
    assert_eq!(base32(&[0xff; 5]), "77777777");
}

#[test]
fn the_last_seconds_there_are_have_codes_too() {
    let secret = b"12345678901234567890";
    let last = u64::MAX - 16;
    let code = format!("{:06}", code_at(secret, last));
    assert_eq!(verify(secret, &code, last), Some(last / 30));
}

#[test]
fn a_code_keeps_its_step_while_it_is_accepted() {
    let secret = b"12345678901234567890";
    let code = format!("{:06}", code_at(secret, 90));
    for time in 60..150 {
        assert_eq!(verify(secret, &code, time), Some(3), "at {time}");
    }
}

#[test]
fn secrets_differ_and_a_failure_to_draw_one_is_told() {
    let one = new_secret().expect("secret");
    assert_eq!(one.len(), 20);
    assert_ne!(one, new_secret().expect("secret"));
    assert!(secret_of(None).is_err());
}
