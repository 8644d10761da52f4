use uf2_sync::discovery::is_known_device;
use uf2_sync::hexparse::parse_hex_16;
use uf2_sync::range::MemoryRange;

#[test]
fn parses_hexadecimal_identifiers() {
    assert_eq!(parse_hex_16(b"0x1D50"), Some(0x1D50));
    assert_eq!(parse_hex_16(b"0xffff"), Some(0xFFFF));
    assert_eq!(parse_hex_16(b"0x0"), Some(0));
    assert_eq!(parse_hex_16(b"0xAbCd"), Some(0xABCD));
}

#[test]
fn parses_decimal_identifiers() {
    assert_eq!(parse_hex_16(b"0"), Some(0));
    assert_eq!(parse_hex_16(b"123"), Some(123));
    assert_eq!(parse_hex_16(b"65535"), Some(65535));
    assert_eq!(parse_hex_16(b"+42"), Some(42));
}

#[test]
fn accepts_plus_sign_as_std_parsers_do() {
    assert_eq!(parse_hex_16(b"0x+ff"), Some(0xFF));
    assert_eq!(parse_hex_16(b"+0"), Some(0));
    assert_eq!(parse_hex_16(b"+"), None);
    assert_eq!(parse_hex_16(b"0x+"), None);
}

#[test]
fn rejects_malformed_identifiers() {
    assert_eq!(parse_hex_16(b""), None);
    assert_eq!(parse_hex_16(b"0x"), None);
    assert_eq!(parse_hex_16(b"0xG1"), None);
    assert_eq!(parse_hex_16(b"12a"), None);
    assert_eq!(parse_hex_16(b"65536"), None);
    assert_eq!(parse_hex_16(b"0x10000"), None);
    assert_eq!(parse_hex_16(b"-1"), None);
}

#[test]
fn known_device_table_lookup() {
    assert!(is_known_device(0x1D50, 0x6110));
    assert!(is_known_device(0x239A, 0x0035));
    assert!(is_known_device(0x1209, 0x2017));
    assert!(!is_known_device(0x1D50, 0x0001));
    assert!(!is_known_device(0xDEAD, 0xBEEF));
}

#[test]
fn range_containment() {
    let outer = 0x1000u32..0x2000u32;
    assert!(outer.contains_range(&(0x1000..0x2000)));
    assert!(outer.contains_range(&(0x1800..0x1900)));
    assert!(!outer.contains_range(&(0x0F00..0x1100)));
    assert!(!outer.contains_range(&(0x3000..0x3004)));
}

#[test]
fn range_intersection() {
    let outer = 0x1000u32..0x2000u32;
    assert!(outer.intersects_range(&(0x0F00..0x1100)));
    assert!(outer.intersects_range(&(0x1F00..0x2100)));
    assert!(!outer.intersects_range(&(0x1800..0x1900)));
    assert!(!outer.intersects_range(&(0x3000..0x3004)));
}
