use bitbuf::strategies::{test_bitreader, test_bitstream_io, test_bitstream_reader, test_bitstream_reader_stream};
use bitbuf::Strategy;

const ALL: [Strategy; 5] = [
    Strategy::Native,
    Strategy::BitstreamReader,
    Strategy::BitstreamReaderStream,
    Strategy::BitstreamIo,
    Strategy::Bitreader,
];

const REFERENCE: [(usize, u32); 5] = [
    (1, 1048576),
    (5, 6501165),
    (8, 1048576),
    (10, 71512815),
    (20, 1775225187),
];

fn reference_checksums(strategy: Strategy) {
    let bytes = vec![1u8; 1024 * 1024];
    for (width, expected) in REFERENCE {
        assert_eq!(strategy.run(bytes.clone(), width), expected, "width {}", width);
    }
}

#[test]
fn reference_checksums_native() {
    reference_checksums(Strategy::Native);
}

#[test]
fn reference_checksums_bitstream_reader() {
    reference_checksums(Strategy::BitstreamReader);
}

#[test]
fn reference_checksums_bitstream_reader_stream() {
    reference_checksums(Strategy::BitstreamReaderStream);
}

#[test]
fn reference_checksums_bitstream_io() {
    reference_checksums(Strategy::BitstreamIo);
}

#[test]
fn reference_checksums_bitreader() {
    reference_checksums(Strategy::Bitreader);
}

#[test]
fn small_buffer_three_bit_reads() {
    // 1011001001000000 read three bits at a time: 5, 4, 4, 4, 0.
    let bytes = vec![0b1011_0010, 0b0100_0000];
    assert_eq!(test_bitstream_reader(bytes.clone(), 3), 17);
    assert_eq!(test_bitstream_reader_stream(bytes.clone(), 3), 17);
    assert_eq!(test_bitstream_io(bytes.clone(), 3), 17);
    assert_eq!(test_bitreader(bytes.clone(), 3), 17);
    for strategy in ALL {
        assert_eq!(strategy.run(bytes.clone(), 3), 17);
    }
}

#[test]
fn full_width_reads_wrap_around() {
    let bytes = vec![0xFF; 8];
    for strategy in ALL {
        assert_eq!(strategy.run(bytes.clone(), 32), 0xFFFF_FFFE);
    }
}

#[test]
fn unaligned_full_width_reads() {
    // 40 bits, width 32: a single value from bit 0; width 7: five values.
    let bytes = vec![0x12, 0x34, 0x56, 0x78, 0x9A];
    for strategy in ALL {
        assert_eq!(strategy.run(bytes.clone(), 32), 0x1234_5678);
        // 0001001 0001101 0001010 1100111 1000100 -> 9 + 13 + 10 + 103 + 68
        assert_eq!(strategy.run(bytes.clone(), 7), 203);
    }
}

#[test]
fn empty_input_gives_zero() {
    for strategy in ALL {
        assert_eq!(strategy.run(Vec::new(), 5), 0);
    }
}
