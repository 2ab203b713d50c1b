use abxml::errors::{append_decimal, DecodeError};
use abxml::wire::{push_u16, push_u32, read_u16_at, read_u32_at, read_u32_from, read_u8_at, Cursor};

#[test]
fn numbers_are_read_least_significant_byte_first() {
    let data = [0x78, 0x56, 0x34, 0x12, 0xEF, 0xCD, 0xAB];
    assert_eq!(read_u8_at(&data, 0), Ok(0x78));
    assert_eq!(read_u8_at(&data, 6), Ok(0xAB));
    assert_eq!(read_u16_at(&data, 0), Ok(0x5678));
    assert_eq!(read_u16_at(&data, 5), Ok(0xABCD));
    assert_eq!(read_u32_at(&data, 0), Ok(0x1234_5678));
    assert_eq!(read_u32_at(&data, 3), Ok(0xABCD_EF12));
    assert_eq!(read_u32_from(&data, 1, 2), Ok(0xABCD_EF12));
}

#[test]
fn reads_behind_the_end_are_truncated() {
    let data = [0x78, 0x56, 0x34, 0x12, 0xEF, 0xCD, 0xAB];
    assert_eq!(read_u8_at(&data, 7), Err(DecodeError::TruncatedRead));
    assert_eq!(read_u16_at(&data, 6), Err(DecodeError::TruncatedRead));
    assert_eq!(read_u32_at(&data, 4), Err(DecodeError::TruncatedRead));
    assert_eq!(read_u32_at(&data, u64::MAX), Err(DecodeError::TruncatedRead));
    assert_eq!(read_u32_from(&data, u64::MAX, 1), Err(DecodeError::TruncatedRead));
    assert_eq!(read_u32_from(&data, 2, 2), Err(DecodeError::TruncatedRead));
    assert_eq!(read_u32_at(&[], 0), Err(DecodeError::TruncatedRead));
}

#[test]
fn numbers_are_written_least_significant_byte_first() {
    let mut out = vec![0xFF];
    push_u16(&mut out, 0x0102);
    push_u32(&mut out, 0x1234_5678);
    push_u32(&mut out, 0);
    push_u16(&mut out, u16::MAX);
    assert_eq!(out, vec![0xFF, 0x02, 0x01, 0x78, 0x56, 0x34, 0x12, 0, 0, 0, 0, 0xFF, 0xFF]);
}

#[test]
fn written_numbers_are_read_back() {
    for value in [0u32, 1, 0xFF, 0x100, 0xFFFF, 0x1_0000, 0x00FF_FFFF, 0x0100_0000, u32::MAX] {
        let mut out = Vec::new();
        push_u32(&mut out, value);
        assert_eq!(read_u32_at(&out, 0), Ok(value));
    }
    for value in [0u16, 1, 0xFF, 0x100, u16::MAX] {
        let mut out = Vec::new();
        push_u16(&mut out, value);
        assert_eq!(read_u16_at(&out, 0), Ok(value));
    }
}

#[test]
fn cursor_steps_behind_what_it_reads() {
    let data = [1u8, 2, 0, 3, 0, 0, 0, 9];
    let mut cursor = Cursor::new(&data);
    assert_eq!(cursor.position(), 0);
    assert_eq!(cursor.get_ref(), &data);
    assert_eq!(cursor.read_u8(), Ok(1));
    assert_eq!(cursor.position(), 1);
    assert_eq!(cursor.read_u16(), Ok(2));
    assert_eq!(cursor.position(), 3);
    assert_eq!(cursor.read_u32(), Ok(3));
    assert_eq!(cursor.position(), 7);
    // A read that fails leaves the cursor where it was.
    assert_eq!(cursor.read_u16(), Err(DecodeError::TruncatedRead));
    assert_eq!(cursor.read_u32(), Err(DecodeError::TruncatedRead));
    assert_eq!(cursor.position(), 7);
    assert_eq!(cursor.read_u8(), Ok(9));
    assert_eq!(cursor.read_u8(), Err(DecodeError::TruncatedRead));
    assert_eq!(cursor.position(), 8);
    cursor.set_position(100);
    assert_eq!(cursor.position(), 100);
    assert_eq!(cursor.read_u8(), Err(DecodeError::TruncatedRead));
    cursor.set_position(6);
    assert_eq!(cursor.read_u16(), Ok(0x0900));
}

#[test]
fn numbers_are_written_in_decimal() {
    for (value, text) in [
        (0u64, "0"),
        (7, "7"),
        (9, "9"),
        (10, "10"),
        (1541, "1541"),
        (1_000_000, "1000000"),
        (u64::MAX, "18446744073709551615"),
    ] {
        let mut out = String::from("n=");
        append_decimal(&mut out, value);
        assert_eq!(out, format!("n={}", text));
    }
}
