use hecate_vm::config::parse_u32_auto;
use hecate_vm::number::{read_auto_u32, read_auto_u64};
use hecate_vm::text::{same, to_dec, to_hex, to_hex_padded, to_signed};

#[test]
fn decimal_text() {
    assert_eq!(to_dec(0), "0");
    assert_eq!(to_dec(7), "7");
    assert_eq!(to_dec(10), "10");
    assert_eq!(to_dec(1234567890), "1234567890");
    assert_eq!(to_dec(u64::MAX), "18446744073709551615");
}

#[test]
fn signed_text() {
    assert_eq!(to_signed(0), "0");
    assert_eq!(to_signed(2047), "2047");
    assert_eq!(to_signed(-1), "-1");
    assert_eq!(to_signed(i32::MIN), "-2147483648");
    assert_eq!(to_signed(i32::MAX), "2147483647");
}

#[test]
fn hexadecimal_text() {
    assert_eq!(to_hex(0), "0");
    assert_eq!(to_hex(0xdead_beef), "deadbeef");
    assert_eq!(to_hex_padded(0x1a, 8), "0000001a");
    assert_eq!(to_hex_padded(0x1a, 2), "1a");
    assert_eq!(to_hex_padded(0x1a, 1), "1a");
    assert_eq!(to_hex_padded(u32::MAX, 8), "ffffffff");
}

#[test]
fn padded_numbers_have_eight_digits() {
    for n in [0u32, 1, 15, 16, 255, 0x1234, 0x7fff_ffff, u32::MAX] {
        assert_eq!(to_hex_padded(n, 8).len(), 8);
    }
}

#[test]
fn padded_bytes_have_two_digits() {
    for n in 0u32..256 {
        assert_eq!(to_hex_padded(n, 2).len(), 2);
    }
}

#[test]
fn same_text() {
    assert!(same("", ""));
    assert!(same("step", "step"));
    assert!(!same("step", "steps"));
    assert!(!same("step", "Step"));
}

#[test]
fn numbers_in_both_notations() {
    assert_eq!(parse_u32_auto("64"), Ok(64));
    assert_eq!(parse_u32_auto("0x40"), Ok(64));
    assert_eq!(parse_u32_auto("0X40"), Ok(64));
    assert_eq!(parse_u32_auto("+5"), Ok(5));
    assert_eq!(parse_u32_auto("0xfFfFfFfF"), Ok(u32::MAX));
    assert_eq!(parse_u32_auto("4294967295"), Ok(u32::MAX));
    assert_eq!(parse_u32_auto("0"), Ok(0));
    assert_eq!(parse_u32_auto("0x+1"), Ok(1));
}

#[test]
fn texts_that_are_no_numbers() {
    assert_eq!(
        parse_u32_auto(""),
        Err("invalid u32 '': cannot parse integer from empty string".to_string())
    );
    assert_eq!(
        parse_u32_auto("0xzz"),
        Err("invalid u32 hex '0xzz': invalid digit found in string".to_string())
    );
    assert_eq!(
        parse_u32_auto("0x"),
        Err("invalid u32 hex '0x': cannot parse integer from empty string".to_string())
    );
    assert_eq!(
        parse_u32_auto("4294967296"),
        Err("invalid u32 '4294967296': number too large to fit in target type".to_string())
    );
    assert_eq!(
        parse_u32_auto("-1"),
        Err("invalid u32 '-1': invalid digit found in string".to_string())
    );
    assert_eq!(
        parse_u32_auto(" 1"),
        Err("invalid u32 ' 1': invalid digit found in string".to_string())
    );
    assert!(parse_u32_auto("+").is_err());
    assert!(parse_u32_auto("1_000").is_err());
}

#[test]
fn numbers_of_64_bits() {
    assert_eq!(read_auto_u64("0xffffffffffffffff"), Ok(u64::MAX));
    assert_eq!(read_auto_u64("18446744073709551615"), Ok(u64::MAX));
    let (hex, complaint) = read_auto_u64("18446744073709551616").unwrap_err();
    assert!(!hex);
    assert_eq!(complaint, "number too large to fit in target type");
    let (hex, complaint) = read_auto_u64("0xg").unwrap_err();
    assert!(hex);
    assert_eq!(complaint, "invalid digit found in string");
}

#[test]
fn decimal_reads_back() {
    for n in [0u32, 1, 9, 10, 99, 12345, u32::MAX] {
        assert_eq!(read_auto_u32(&to_dec(n as u64)), Ok(n));
    }
}

#[test]
fn hexadecimal_reads_back() {
    for n in [0u32, 1, 15, 16, 0xabcd, u32::MAX] {
        for width in [1, 4, 8, 12] {
            let raw = format!("0x{}", to_hex_padded(n, width));
            assert_eq!(read_auto_u32(&raw), Ok(n));
            let raw = format!("0X{}", to_hex_padded(n, width));
            assert_eq!(read_auto_u32(&raw), Ok(n));
        }
    }
}
