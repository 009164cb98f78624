use gitcore::bytes::{find_byte, take_be_u32, take_bytes, take_u8, take_until};
use gitcore::errors::{FormatFault, GeneralError};

fn truncated() -> GeneralError {
    GeneralError::InvalidFormat(FormatFault::Truncated)
}

#[test]
fn take_u8_moves_by_one() {
    let buf = [10u8, 20, 30];
    assert_eq!(take_u8(&buf, 0), Ok((10, 1)));
    assert_eq!(take_u8(&buf, 2), Ok((30, 3)));
    assert_eq!(take_u8(&buf, 3), Err(truncated()));
    assert_eq!(take_u8(&buf, usize::MAX), Err(truncated()));
    assert_eq!(take_u8(&[], 0), Err(truncated()));
}

#[test]
fn take_be_u32_reads_the_high_byte_first() {
    let buf = [0x01u8, 0x02, 0x03, 0x04, 0xFF, 0xFF, 0xFF, 0xFF, 0x00];
    assert_eq!(take_be_u32(&buf, 0), Ok((0x0102_0304, 4)));
    assert_eq!(take_be_u32(&buf, 1), Ok((0x0203_04FF, 5)));
    assert_eq!(take_be_u32(&buf, 4), Ok((u32::MAX, 8)));
    assert_eq!(take_be_u32(&buf, 5), Ok((0xFFFF_FF00, 9)));
    assert_eq!(take_be_u32(&[0, 0, 0, 2], 0), Ok((2, 4)));
    assert_eq!(take_be_u32(&[0, 0, 1, 0], 0), Ok((256, 4)));
}

#[test]
fn take_be_u32_needs_four_bytes() {
    let buf = [1u8, 2, 3, 4, 5];
    assert_eq!(take_be_u32(&buf, 2), Err(truncated()));
    assert_eq!(take_be_u32(&buf, 5), Err(truncated()));
    assert_eq!(take_be_u32(&buf, usize::MAX - 1), Err(truncated()));
    assert_eq!(take_be_u32(&buf[..3], 0), Err(truncated()));
}

#[test]
fn take_bytes_gives_the_run() {
    let buf = [1u8, 2, 3, 4, 5];
    assert_eq!(take_bytes(&buf, 1, 3), Ok((&buf[1..4], 4)));
    assert_eq!(take_bytes(&buf, 0, 5), Ok((&buf[..], 5)));
    assert_eq!(take_bytes(&buf, 5, 0), Ok((&buf[5..], 5)));
    assert_eq!(take_bytes(&buf, 3, 3), Err(truncated()));
    assert_eq!(take_bytes(&buf, 6, 0), Err(truncated()));
    assert_eq!(take_bytes(&buf, usize::MAX, 2), Err(truncated()));
    assert_eq!(take_bytes(&buf, 2, usize::MAX), Err(truncated()));
}

#[test]
fn find_byte_gives_the_first_match() {
    let buf = b"ab cd ef\0gh";
    assert_eq!(find_byte(buf, b' ', 0), 2);
    assert_eq!(find_byte(buf, b' ', 2), 2);
    assert_eq!(find_byte(buf, b' ', 3), 5);
    assert_eq!(find_byte(buf, 0, 0), 8);
    assert_eq!(find_byte(buf, b'z', 0), buf.len());
    assert_eq!(find_byte(buf, b'a', 1), buf.len());
    assert_eq!(find_byte(buf, b'a', 100), buf.len());
    assert_eq!(find_byte(b"", 0, 0), 0);
}

#[test]
fn take_until_leaves_the_delimiter_out() {
    let buf = b"name\0rest\0";
    assert_eq!(take_until(buf, 0, 0), Ok((&b"name"[..], 5)));
    assert_eq!(take_until(buf, 0, 5), Ok((&b"rest"[..], 10)));
    assert_eq!(take_until(buf, 0, 4), Ok((&b""[..], 5)));
    assert_eq!(take_until(buf, 0, 10), Err(truncated()));
    assert_eq!(take_until(buf, 0, 11), Err(truncated()));
    assert_eq!(take_until(b"no end", 0, 0), Err(truncated()));
}
