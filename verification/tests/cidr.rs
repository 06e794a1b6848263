use registry_index::util::cidr::{CidrError, Ipv4CidrWrapper, Ipv6CidrWrapper};
use registry_index::util::number::{digit_value, parse_u8};

#[test]
fn ipv4_prefix_from_address_and_length() {
    let c = Ipv4CidrWrapper::new(0x0a01_0000, 16).unwrap();
    assert_eq!(c.first_address(), 0x0a01_0000);
    assert_eq!(c.network_length(), 16);
    assert_eq!(c.octets(), [10, 1, 0, 0]);
}

#[test]
fn ipv4_prefix_of_every_length_of_the_zero_address() {
    for len in 0..=32u8 {
        assert!(Ipv4CidrWrapper::new(0, len).is_ok());
    }
    assert!(Ipv4CidrWrapper::new(0xffff_ffff, 32).is_ok());
    assert!(Ipv4CidrWrapper::new(0x8000_0000, 1).is_ok());
}

#[test]
fn ipv4_length_over_32_is_too_long() {
    assert_eq!(
        Ipv4CidrWrapper::new(0, 33),
        Err(CidrError::NetworkLengthTooLong)
    );
    assert_eq!(
        Ipv4CidrWrapper::new(0x0a00_0001, 200),
        Err(CidrError::NetworkLengthTooLong)
    );
}

#[test]
fn ipv4_host_bits_are_refused() {
    assert_eq!(
        Ipv4CidrWrapper::new(0x0a01_0203, 24),
        Err(CidrError::InvalidHostPart)
    );
    assert_eq!(
        Ipv4CidrWrapper::new(1, 0),
        Err(CidrError::InvalidHostPart)
    );
    assert_eq!(
        Ipv4CidrWrapper::new(0x0a01_0001, 31),
        Err(CidrError::InvalidHostPart)
    );
}

#[test]
fn ipv6_prefix_from_address_and_length() {
    let address: u128 = 0xfd00_0001_0000_0000_0000_0000_0000_0000;
    let c = Ipv6CidrWrapper::new(address, 32).unwrap();
    assert_eq!(c.first_address(), address);
    assert_eq!(c.network_length(), 32);
    assert_eq!(
        c.octets(),
        [0xfd, 0, 0, 1, 0, 0, 0, 0, 0, 0, 0, 0, 0, 0, 0, 0]
    );
    let host = Ipv6CidrWrapper::new(0x0102_0304_0506_0708_090a_0b0c_0d0e_0f10, 128).unwrap();
    assert_eq!(
        host.octets(),
        [1, 2, 3, 4, 5, 6, 7, 8, 9, 10, 11, 12, 13, 14, 15, 16]
    );
}

#[test]
fn ipv6_errors() {
    assert_eq!(
        Ipv6CidrWrapper::new(0, 129),
        Err(CidrError::NetworkLengthTooLong)
    );
    assert_eq!(
        Ipv6CidrWrapper::new(1, 127),
        Err(CidrError::InvalidHostPart)
    );
    assert!(Ipv6CidrWrapper::new(1, 128).is_ok());
    assert!(Ipv6CidrWrapper::new(0, 0).is_ok());
}

#[test]
fn ipv4_prefix_from_text() {
    let c = Ipv4CidrWrapper::from_str("10.1.0.0/16").unwrap();
    assert_eq!(c.first_address(), 0x0a01_0000);
    assert_eq!(c.network_length(), 16);
    let host = Ipv4CidrWrapper::from_str("10.1.2.3/32").unwrap();
    assert_eq!(host.first_address(), 0x0a01_0203);
    assert_eq!(host.network_length(), 32);
    let bare = Ipv4CidrWrapper::from_str("10.0.0.1").unwrap();
    assert_eq!(bare.first_address(), 0x0a00_0001);
    assert_eq!(bare.network_length(), 32);
}

#[test]
fn ipv4_text_that_is_no_prefix() {
    assert!(Ipv4CidrWrapper::from_str("").is_none());
    assert!(Ipv4CidrWrapper::from_str("whoami").is_none());
    assert!(Ipv4CidrWrapper::from_str("10.1.2.3/16").is_none());
    assert!(Ipv4CidrWrapper::from_str("10.1.0.0/33").is_none());
    assert!(Ipv4CidrWrapper::from_str("fd00::/8").is_none());
}

#[test]
fn ipv6_prefix_from_text() {
    let c = Ipv6CidrWrapper::from_str("fc75:adfb:1234::/48").unwrap();
    assert_eq!(
        c.first_address(),
        0xfc75_adfb_1234_0000_0000_0000_0000_0000
    );
    assert_eq!(c.network_length(), 48);
    let host = Ipv6CidrWrapper::from_str("fc75:adfb:1234::1").unwrap();
    assert_eq!(
        host.first_address(),
        0xfc75_adfb_1234_0000_0000_0000_0000_0001
    );
    assert_eq!(host.network_length(), 128);
    assert!(Ipv6CidrWrapper::from_str("10.1.0.0/16").is_none());
    assert!(Ipv6CidrWrapper::from_str("fc75::1/48").is_none());
}

#[test]
fn prefix_from_parts_that_were_read() {
    assert!(Ipv4CidrWrapper::from_parts(None).is_none());
    assert!(Ipv4CidrWrapper::from_parts(Some((0x0a01_0203, 24))).is_none());
    let c = Ipv4CidrWrapper::from_parts(Some((0x0a01_0200, 24))).unwrap();
    assert_eq!(c, Ipv4CidrWrapper::new(0x0a01_0200, 24).unwrap());
    assert!(Ipv6CidrWrapper::from_parts(None).is_none());
    assert!(Ipv6CidrWrapper::from_parts(Some((1, 64))).is_none());
    let d = Ipv6CidrWrapper::from_parts(Some((1 << 64, 64))).unwrap();
    assert_eq!(d, Ipv6CidrWrapper::new(1 << 64, 64).unwrap());
}

#[test]
fn decimal_octets() {
    assert_eq!(parse_u8("0", 10), Some(0));
    assert_eq!(parse_u8("10", 10), Some(10));
    assert_eq!(parse_u8("255", 10), Some(255));
    assert_eq!(parse_u8("+7", 10), Some(7));
    assert_eq!(parse_u8("007", 10), Some(7));
    assert_eq!(parse_u8("0000000000000000000000255", 10), Some(255));
}

#[test]
fn texts_that_are_no_octet() {
    assert_eq!(parse_u8("", 10), None);
    assert_eq!(parse_u8("+", 10), None);
    assert_eq!(parse_u8("256", 10), None);
    assert_eq!(parse_u8("1000", 10), None);
    assert_eq!(parse_u8("99999999999999999999999999", 10), None);
    assert_eq!(parse_u8("-1", 10), None);
    assert_eq!(parse_u8("1 ", 10), None);
    assert_eq!(parse_u8(" 1", 10), None);
    assert_eq!(parse_u8("1_0", 10), None);
    assert_eq!(parse_u8("a", 10), None);
    assert_eq!(parse_u8("++1", 10), None);
    assert_eq!(parse_u8("\u{663}", 10), None);
}

#[test]
fn hexadecimal_numbers() {
    assert_eq!(parse_u8("f", 16), Some(15));
    assert_eq!(parse_u8("F", 16), Some(15));
    assert_eq!(parse_u8("0a", 16), Some(10));
    assert_eq!(parse_u8("ff", 16), Some(255));
    assert_eq!(parse_u8("10", 16), Some(16));
    assert_eq!(parse_u8("100", 16), None);
    assert_eq!(parse_u8("g", 16), None);
    assert_eq!(parse_u8("z", 36), Some(35));
}

#[test]
fn parse_agrees_with_std() {
    let texts = [
        "", "+", "0", "1", "9", "09", "+0", "+255", "255", "256", "300", "-0", "a", "f", "ff",
        "fg", "0x1", "1e", "00000000ff", "+f", "7f", "80", "zz", " 1",
    ];
    for text in texts {
        assert_eq!(parse_u8(text, 10), text.parse::<u8>().ok(), "{}", text);
        assert_eq!(
            parse_u8(text, 16),
            u8::from_str_radix(text, 16).ok(),
            "{}",
            text
        );
    }
}

#[test]
fn digits() {
    assert_eq!(digit_value('0', 10), Some(0));
    assert_eq!(digit_value('9', 10), Some(9));
    assert_eq!(digit_value('a', 10), None);
    assert_eq!(digit_value('a', 16), Some(10));
    assert_eq!(digit_value('F', 16), Some(15));
    assert_eq!(digit_value('g', 16), None);
    assert_eq!(digit_value('+', 16), None);
    assert_eq!(digit_value('/', 10), None);
    assert_eq!(digit_value(':', 10), None);
}
