use bitbuf::{BitBuf, ReadError};

#[test]
fn first_byte_is_read_msb_first() {
    let buffer = BitBuf::new(vec![0b1011_0010, 0xFF]);
    assert_eq!(buffer.read(0, 8), Ok(178));
}

#[test]
fn span_across_two_bytes() {
    // Last two bits of byte 0 are `10`, first three of byte 1 are `011`.
    let buffer = BitBuf::new(vec![0b1010_1110, 0b0111_0000]);
    assert_eq!(buffer.read(6, 5), Ok(0b10011));
}

#[test]
fn read_ending_at_last_bit_succeeds() {
    let buffer = BitBuf::new(vec![0xAB, 0xCD]);
    assert_eq!(buffer.bit_len(), 16);
    assert_eq!(buffer.read(12, 4), Ok(0xD));
    assert_eq!(buffer.read(0, 16), Ok(0xABCD));
}

#[test]
fn read_one_bit_past_end_is_out_of_range() {
    let buffer = BitBuf::new(vec![0xAB, 0xCD]);
    assert_eq!(buffer.read(13, 4), Err(ReadError::OutOfRange));
    assert_eq!(buffer.read(1, 16), Err(ReadError::OutOfRange));
    assert_eq!(buffer.read(usize::MAX, 1), Err(ReadError::OutOfRange));
}

#[test]
fn repeated_reads_agree() {
    let buffer = BitBuf::new(vec![0x12, 0x34, 0x56, 0x78, 0x9A]);
    let first = buffer.read(3, 17);
    let second = buffer.read(3, 17);
    assert_eq!(first, second);
    assert_eq!(first, Ok(0x12345));
}

#[test]
fn widths_zero_and_thirty_three_are_invalid() {
    let buffer = BitBuf::new(vec![0u8; 16]);
    for position in [0usize, 5, 64, 127, 1000, usize::MAX] {
        assert_eq!(buffer.read(position, 0), Err(ReadError::InvalidWidth));
        assert_eq!(buffer.read(position, 33), Err(ReadError::InvalidWidth));
    }
}

#[test]
fn full_width_read_at_odd_offset() {
    let buffer = BitBuf::new(vec![0xFF, 0x00, 0xFF, 0x00, 0xFF]);
    assert_eq!(buffer.read(4, 32), Ok(0xF00F_F00F));
    assert_eq!(buffer.read(0, 32), Ok(0xFF00_FF00));
}

#[test]
fn empty_buffer() {
    let buffer = BitBuf::new(Vec::new());
    assert_eq!(buffer.bit_len(), 0);
    assert_eq!(buffer.read(0, 1), Err(ReadError::OutOfRange));
    assert_eq!(buffer.scan_checksum(7), Ok(0));
}

#[test]
fn scan_checksum_sums_whole_values() {
    // 1011001001000000 read three bits at a time: 5, 4, 4, 4, 0.
    let buffer = BitBuf::new(vec![0b1011_0010, 0b0100_0000]);
    assert_eq!(buffer.scan_checksum(3), Ok(17));
    assert_eq!(buffer.as_bytes(), &vec![0b1011_0010, 0b0100_0000]);
}

#[test]
fn scan_checksum_wraps_around() {
    let buffer = BitBuf::new(vec![0xFF; 8]);
    assert_eq!(buffer.scan_checksum(32), Ok(0xFFFF_FFFE));
}

#[test]
fn scan_checksum_rejects_invalid_width() {
    let buffer = BitBuf::new(vec![1, 2, 3]);
    assert_eq!(buffer.scan_checksum(0), Err(ReadError::InvalidWidth));
    assert_eq!(buffer.scan_checksum(40), Err(ReadError::InvalidWidth));
}

#[test]
fn aligned_byte_reads_give_the_bytes() {
    let bytes = vec![0x00, 0xAB, 0x7F, 0x80];
    let buffer = BitBuf::new(bytes.clone());
    for (j, byte) in bytes.iter().enumerate() {
        assert_eq!(buffer.read(8 * j, 8), Ok(*byte as u32));
    }
}

#[test]
fn span_across_bytes_matches_its_parts() {
    let bytes = vec![0b0000_0011, 0b1110_0000, 0x55];
    let buffer = BitBuf::new(bytes.clone());
    let expected = (bytes[0] as u32 % 4) * 8 + bytes[1] as u32 / 32;
    assert_eq!(buffer.read(6, 5), Ok(expected));
    assert_eq!(expected, 31);
}
