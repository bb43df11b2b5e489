use tsl_umd::v3_1::{Brightness, Error, TSL31Packet, PACKET_LENGTH_31};

fn valid_raw() -> Vec<u8> {
    vec![
        0x80 + 0x69,
        0b00011001,
        b'h',
        b'e',
        b'l',
        b'l',
        b'o',
        b' ',
        b' ',
        b' ',
        b' ',
        b' ',
        b' ',
        b' ',
        b' ',
        b' ',
        b' ',
        b' ',
    ]
}

#[test]
fn test_parse() {
    let p = TSL31Packet::new_checked(valid_raw()).unwrap();
    assert_eq!(p.address(), 0x69);
    assert_eq!(p.tally(), [true, false, false, true]);
    assert_eq!(p.brightness(), Brightness::OneSeventh);
    assert_eq!(p.display_data(), "hello");
}

#[test]
fn error_bad_length() {
    assert_eq!(
        TSL31Packet::new_checked(vec![]),
        Err(Error::BadLength {
            expected: PACKET_LENGTH_31,
            got: 0
        })
    );
    assert_eq!(
        TSL31Packet::new_checked(vec![0; PACKET_LENGTH_31 + 1]),
        Err(Error::BadLength {
            expected: PACKET_LENGTH_31,
            got: 19
        })
    );
}

#[test]
fn error_bad_length_one_short() {
    assert_eq!(
        TSL31Packet::new_checked(vec![0; PACKET_LENGTH_31 - 1]),
        Err(Error::BadLength {
            expected: PACKET_LENGTH_31,
            got: 17
        })
    );
}

#[test]
fn error_bad_address() {
    let mut bad_raw = valid_raw();
    bad_raw[0] = 0x13;
    assert_eq!(
        TSL31Packet::new_checked(bad_raw),
        Err(Error::AddressInvalid)
    );
}

#[test]
fn error_bad_display() {
    let mut bad_raw = valid_raw();
    // "oh no " followed by the four UTF-8 bytes of a thinking-face emoji
    let ohno: Vec<u8> = vec![b'o', b'h', b' ', b'n', b'o', b' ', 0xF0, 0x9F, 0xA4, 0x94];
    for (i, b) in ohno.iter().enumerate() {
        bad_raw[2 + i] = *b;
    }
    assert_eq!(
        TSL31Packet::new_checked(bad_raw),
        Err(Error::BadDisplayData { position: 6 })
    );
}

#[test]
fn error_bad_display_first_offender_wins() {
    let mut bad_raw = valid_raw();
    bad_raw[6] = 0xF0;
    bad_raw[10] = 0xFF;
    bad_raw[17] = 0x01;
    assert_eq!(
        TSL31Packet::new_checked(bad_raw),
        Err(Error::BadDisplayData { position: 4 })
    );
}

#[test]
fn test_set_address() {
    let buf = vec![0u8; PACKET_LENGTH_31];
    let mut p = TSL31Packet::new_unchecked(buf);
    p.set_address(42).unwrap();
    assert_eq!(p.address(), 42);
    assert!(p.set_address(234).is_err());
    assert_eq!(p.address(), 42);
}

#[test]
fn test_set_tally() {
    let buf = vec![0u8; PACKET_LENGTH_31];
    let mut p = TSL31Packet::new_unchecked(buf);
    for perm in [
        [false, false, false, false],
        [true, false, false, false],
        [false, true, false, false],
        [false, false, true, false],
        [false, false, false, true],
    ] {
        p.set_tally(perm);
        assert_eq!(p.tally(), perm);
    }
}

#[test]
fn test_set_brightness() {
    let buf = vec![0u8; PACKET_LENGTH_31];
    let mut p = TSL31Packet::new_unchecked(buf);
    for b in [
        Brightness::Zero,
        Brightness::OneSeventh,
        Brightness::OneHalf,
        Brightness::Full,
    ] {
        p.set_brightness(b);
        assert_eq!(p.brightness(), b);
    }
}

#[test]
fn test_set_display_data() {
    let buf = vec![0u8; PACKET_LENGTH_31];
    let mut p = TSL31Packet::new_unchecked(buf);
    for s in ["", "hello there", "1234567890=+!)()"] {
        p.set_display_data(s).unwrap();
        assert_eq!(p.display_data(), s);
    }
}

#[test]
fn set_display_data_rejections() {
    let buf = vec![0u8; PACKET_LENGTH_31];
    let mut p = TSL31Packet::new_unchecked(buf);
    assert!(p.set_display_data("seventeen chars!!").is_err());
    assert!(p.set_display_data("tab\there").is_err());
    assert_eq!(p.inner(), vec![0u8; PACKET_LENGTH_31]);
}

#[test]
fn set_display_data_strips_trailing_spaces_on_read() {
    let buf = vec![0u8; PACKET_LENGTH_31];
    let mut p = TSL31Packet::new_unchecked(buf);
    p.set_display_data("abc   ").unwrap();
    assert_eq!(p.display_data(), "abc");
}

#[test]
fn null_padding_tolerated() {
    let mut raw = valid_raw();
    raw[7] = 0;
    raw[8] = 0xFE;
    raw[9] = 0x03;
    let p = TSL31Packet::new_unchecked(raw);
    assert_eq!(p.display_data(), "hello");
}

#[test]
fn validate_is_idempotent() {
    let mut raw = valid_raw();
    raw[0] = 0x13;
    let before = raw.clone();
    let p = TSL31Packet::new_unchecked(raw);
    let first = p.validate();
    let second = p.validate();
    assert_eq!(first, second);
    assert_eq!(first, Err(Error::AddressInvalid));
    assert_eq!(p.inner(), before);

    let good = TSL31Packet::new_unchecked(valid_raw());
    assert_eq!(good.validate(), Ok(()));
    assert_eq!(good.validate(), Ok(()));
    assert_eq!(good.inner(), valid_raw());
}

#[test]
fn build_and_decode_round_trip() {
    let buf = vec![0u8; PACKET_LENGTH_31];
    let mut p = TSL31Packet::new_unchecked(buf);
    p.set_address(13).unwrap();
    p.set_tally([true, false, false, false]);
    p.set_brightness(Brightness::Full);
    p.set_display_data("hello").unwrap();
    let decoded = TSL31Packet::new_checked(p.inner()).unwrap();
    assert_eq!(decoded.address(), 13);
    assert_eq!(decoded.tally(), [true, false, false, false]);
    assert_eq!(decoded.brightness(), Brightness::Full);
    assert_eq!(decoded.display_data(), "hello");
}

#[test]
fn brightness_intensity_values() {
    assert_eq!(Brightness::Zero.intensity(), 0);
    assert_eq!(Brightness::OneSeventh.intensity(), 36);
    assert_eq!(Brightness::OneHalf.intensity(), 128);
    assert_eq!(Brightness::Full.intensity(), 255);
}

#[test]
fn brightness_describe_tokens() {
    assert_eq!(Brightness::Zero.describe(), "0");
    assert_eq!(Brightness::OneSeventh.describe(), "1/7");
    assert_eq!(Brightness::OneHalf.describe(), "1/2");
    assert_eq!(Brightness::Full.describe(), "1");
}

#[test]
fn error_describe_text() {
    assert_eq!(Error::AddressInvalid.describe(), "AddressInvalid");
    assert_eq!(
        Error::BadLength {
            expected: 18,
            got: 19
        }
        .describe(),
        "BadLength: expected 18, got 19"
    );
    assert_eq!(
        Error::BadDisplayData { position: 6 }.describe(),
        "BadDisplayData at position 6"
    );
}

#[test]
fn packet_describe_text() {
    let p = TSL31Packet::new_checked(valid_raw()).unwrap();
    assert_eq!(
        p.describe(),
        "addr=105, 1=true, 2=false, 3=false, 4=true, brightness=1/7, display=hello"
    );
}
