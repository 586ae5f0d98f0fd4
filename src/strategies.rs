//! Scan passes over a byte buffer through three bit-reading crates, each
//! proved to compute the same checksum as `BitBuf::scan_checksum`.
use vstd::prelude::*;

use crate::bits::{
    bits_of, checksum, lemma_rest_split, lemma_scan_advance, lemma_scan_count, lemma_two_pow_32,
    scan_sum, span_value, two_pow, value_of,
};

verus! {

/// A `bitstream_reader::BitBuffer` in big-endian bit order. Its generic
/// declaration bounds its parameter by a trait of that crate, which Verus
/// refuses, so it is held here as a whole.
#[verifier::external_body]
pub struct StreamBuffer {
    inner: bitstream_reader::BitBuffer<bitstream_reader::BigEndian>,
}

/// A `bitstream_reader::BitStream` in big-endian bit order, held as a whole
/// for the same reason.
#[verifier::external_body]
pub struct Stream {
    inner: bitstream_reader::BitStream<bitstream_reader::BigEndian>,
}

/// A `bitstream_io::BitReader` in big-endian bit order over an in-memory
/// cursor, held as a whole for the same reason.
#[verifier::external_body]
pub struct IoReader {
    inner: bitstream_io::BitReader<std::io::Cursor<Vec<u8>>, bitstream_io::BigEndian>,
}

/// `bitreader::BitReader`, carried through as an opaque value.
#[verifier::external_type_specification]
#[verifier::external_body]
pub struct ExBitReader<'a>(bitreader::BitReader<'a>);

/// The bytes that a `bitstream_reader::BitBuffer` reads from.
pub uninterp spec fn stream_buffer_bytes(b: StreamBuffer) -> Seq<u8>;

/// The bits that a `bitstream_reader::BitStream` has not read yet.
pub uninterp spec fn stream_bits(s: Stream) -> Seq<bool>;

/// The bits that a `bitstream_io::BitReader` has not read yet.
pub uninterp spec fn io_reader_bits(r: IoReader) -> Seq<bool>;

/// The bits that a `bitreader::BitReader` has not read yet.
pub uninterp spec fn bitreader_bits(r: bitreader::BitReader) -> Seq<bool>;

/// Relies on `bitstream_reader::BitBuffer::new`: the buffer reads exactly
/// `bytes` (the padding it appends lies past `bit_len`); it computes
/// `bytes.len() * 8`, which must not overflow.
#[verifier::external_body]
fn stream_buffer_new(bytes: Vec<u8>) -> (r: StreamBuffer)
    requires
        crate::buffer::BitBuf::fits(bytes@),
    ensures
        stream_buffer_bytes(r) == bytes@,
{
    StreamBuffer { inner: bitstream_reader::BitBuffer::new(bytes, bitstream_reader::BigEndian) }
}

/// Relies on `bitstream_reader::BitBuffer::bit_len`: eight bits per byte.
#[verifier::external_body]
fn stream_buffer_bit_len(b: &StreamBuffer) -> (r: usize)
    ensures
        r == stream_buffer_bytes(*b).len() * 8,
{
    b.inner.bit_len()
}

/// Relies on `bitstream_reader::BitBuffer::read_int::<u32>` in big-endian
/// order: the `count` bits at `position`, most significant first, or an
/// error when they pass the end. A count of 0 is left out: the big-endian
/// path then shifts a `usize` by its full width.
#[verifier::external_body]
fn stream_buffer_read(
    b: &StreamBuffer,
    position: usize,
    count: usize,
) -> (r: Option<u32>)
    requires
        1 <= count <= 32,
        position + count <= usize::MAX,
    ensures
        position + count <= stream_buffer_bytes(*b).len() * 8 ==> r == Some(
            span_value(stream_buffer_bytes(*b), position as int, count as int) as u32,
        ),
        position + count > stream_buffer_bytes(*b).len() * 8 ==> r is None,
{
    b.inner.read_int::<u32>(position, count).ok()
}

/// Relies on `bitstream_reader::BitStream::new`: the stream starts at bit 0
/// of the buffer.
#[verifier::external_body]
fn bit_stream_new(b: StreamBuffer) -> (r: Stream)
    ensures
        stream_bits(r) == bits_of(stream_buffer_bytes(b)),
{
    Stream { inner: bitstream_reader::BitStream::new(b.inner) }
}

/// Relies on `bitstream_reader::BitStream::read_sized::<u32>`, which reads
/// through `BitBuffer::read_int` at the stream's position and moves past
/// the bits only when the read succeeds.
#[verifier::external_body]
fn bit_stream_read(s: &mut Stream, size: usize) -> (r: Option<u32>)
    requires
        1 <= size <= 32,
    ensures
        size <= stream_bits(*old(s)).len() ==> r == Some(
            value_of(stream_bits(*old(s)).take(size as int)) as u32,
        ) && stream_bits(*final(s)) == stream_bits(*old(s)).skip(size as int),
        size > stream_bits(*old(s)).len() ==> r is None && stream_bits(*final(s)) == stream_bits(
            *old(s),
        ),
{
    s.inner.read_sized::<u32>(size).ok()
}

/// Relies on `bitstream_io::BitReader::endian` over a `std::io::Cursor` of
/// `bytes`: the reader starts at the first bit.
#[verifier::external_body]
fn io_reader_new(bytes: Vec<u8>) -> (r: IoReader)
    ensures
        io_reader_bits(r) == bits_of(bytes@),
{
    IoReader { inner: bitstream_io::BitReader::endian(std::io::Cursor::new(bytes), bitstream_io::BigEndian) }
}

/// Relies on `bitstream_io::BitRead::read::<u32>` in big-endian order: the
/// next `bits` bits, most significant first, when that many are left.
#[verifier::external_body]
fn io_reader_read(r: &mut IoReader, bits: u32) -> (res: Option<u32>)
    requires
        1 <= bits <= 32,
        bits <= io_reader_bits(*old(r)).len(),
    ensures
        res == Some(value_of(io_reader_bits(*old(r)).take(bits as int)) as u32),
        io_reader_bits(*final(r)) == io_reader_bits(*old(r)).skip(bits as int),
{
    bitstream_io::BitRead::read::<u32>(&mut r.inner, bits).ok()
}

/// Relies on `bitreader::BitReader::new`: the reader starts at the first bit
/// of `bytes`; it computes `bytes.len() * 8` as a `u64`.
#[verifier::external_body]
fn bitreader_new(bytes: &[u8]) -> (r: bitreader::BitReader)
    requires
        bytes@.len() * 8 <= u64::MAX,
    ensures
        bitreader_bits(r) == bits_of(bytes@),
{
    bitreader::BitReader::new(bytes)
}

/// Relies on `bitreader::BitReader::read_u32`: the next `bit_count` bits,
/// most significant first, or an error that leaves the reader in place when
/// fewer are left.
#[verifier::external_body]
fn bitreader_read(r: &mut bitreader::BitReader, bit_count: u8) -> (res: Option<u32>)
    requires
        1 <= bit_count <= 32,
    ensures
        bit_count <= bitreader_bits(*old(r)).len() ==> res == Some(
            value_of(bitreader_bits(*old(r)).take(bit_count as int)) as u32,
        ) && bitreader_bits(*final(r)) == bitreader_bits(*old(r)).skip(bit_count as int),
        bit_count > bitreader_bits(*old(r)).len() ==> res is None && bitreader_bits(*final(r))
            == bitreader_bits(*old(r)),
{
    r.read_u32(bit_count).ok()
}

/// Scan pass through `bitstream_reader::BitBuffer`, reading each value at
/// its own position.
pub fn test_bitstream_reader(vec: Vec<u8>, size: usize) -> (r: u32)
    requires
        1 <= size <= 32,
        crate::buffer::BitBuf::fits(vec@),
    ensures
        r == checksum(vec@, size as nat),
{
    let ghost bits = bits_of(vec@);
    let buffer = stream_buffer_new(vec);
    let mut acc: u32 = 0;
    let mut pos: usize = 0;
    let len = stream_buffer_bit_len(&buffer);
    let ghost mut k: nat = 0;
    proof {
        lemma_two_pow_32();
    }
    while size <= len - pos
        invariant
            1 <= size <= 32,
            len == bits.len(),
            bits == bits_of(stream_buffer_bytes(buffer)),
            pos == k * size,
            pos <= len,
            acc as nat == scan_sum(bits, size as nat, k) % two_pow(32),
            two_pow(32) == 0x1_0000_0000,
        decreases len - pos,
    {
        let data = match stream_buffer_read(&buffer, pos, size) {
            Some(v) => v,
            None => return acc,
        };
        proof {
            lemma_scan_advance(bits, size as nat, k, pos as nat, acc, data);
            k = k + 1;
        }
        acc = acc.wrapping_add(data);
        pos = pos + size;
    }
    proof {
        lemma_scan_count(len as nat, size as nat, k);
    }
    acc
}

/// Scan pass through `bitstream_reader::BitStream`, which keeps its own
/// position.
pub fn test_bitstream_reader_stream(vec: Vec<u8>, size: usize) -> (r: u32)
    requires
        1 <= size <= 32,
        crate::buffer::BitBuf::fits(vec@),
    ensures
        r == checksum(vec@, size as nat),
{
    let ghost bits = bits_of(vec@);
    let buffer = stream_buffer_new(vec);
    let len = stream_buffer_bit_len(&buffer);
    let mut stream = bit_stream_new(buffer);
    let mut acc: u32 = 0;
    let mut pos: usize = 0;
    let ghost mut k: nat = 0;
    proof {
        lemma_two_pow_32();
    }
    while size <= len - pos
        invariant
            1 <= size <= 32,
            len == bits.len(),
            stream_bits(stream) == bits.subrange(pos as int, len as int),
            pos == k * size,
            pos <= len,
            acc as nat == scan_sum(bits, size as nat, k) % two_pow(32),
            two_pow(32) == 0x1_0000_0000,
        decreases len - pos,
    {
        proof {
            lemma_rest_split(bits, pos as int, size as int);
        }
        let data = match bit_stream_read(&mut stream, size) {
            Some(v) => v,
            None => return acc,
        };
        proof {
            lemma_scan_advance(bits, size as nat, k, pos as nat, acc, data);
            k = k + 1;
        }
        acc = acc.wrapping_add(data);
        pos = pos + size;
    }
    proof {
        lemma_scan_count(len as nat, size as nat, k);
    }
    acc
}

/// Scan pass through `bitstream_io::BitReader` over an in-memory cursor.
pub fn test_bitstream_io(vec: Vec<u8>, size: usize) -> (r: u32)
    requires
        1 <= size <= 32,
        crate::buffer::BitBuf::fits(vec@),
    ensures
        r == checksum(vec@, size as nat),
{
    let ghost bits = bits_of(vec@);
    let len = vec.len() * 8;
    let mut reader = io_reader_new(vec);
    let size_32 = size as u32;
    let mut acc: u32 = 0;
    let mut pos: usize = 0;
    let ghost mut k: nat = 0;
    proof {
        lemma_two_pow_32();
    }
    while size <= len - pos
        invariant
            1 <= size <= 32,
            size_32 == size,
            len == bits.len(),
            io_reader_bits(reader) == bits.subrange(pos as int, len as int),
            pos == k * size,
            pos <= len,
            acc as nat == scan_sum(bits, size as nat, k) % two_pow(32),
            two_pow(32) == 0x1_0000_0000,
        decreases len - pos,
    {
        proof {
            lemma_rest_split(bits, pos as int, size as int);
        }
        let data = match io_reader_read(&mut reader, size_32) {
            Some(v) => v,
            None => return acc,
        };
        proof {
            lemma_scan_advance(bits, size as nat, k, pos as nat, acc, data);
            k = k + 1;
        }
        acc = acc.wrapping_add(data);
        pos = pos + size;
    }
    proof {
        lemma_scan_count(len as nat, size as nat, k);
    }
    acc
}

/// Scan pass through `bitreader::BitReader` over the bytes.
pub fn test_bitreader(vec: Vec<u8>, size: usize) -> (r: u32)
    requires
        1 <= size <= 32,
        crate::buffer::BitBuf::fits(vec@),
    ensures
        r == checksum(vec@, size as nat),
{
    let ghost bits = bits_of(vec@);
    let mut reader = bitreader_new(vec.as_slice());
    let size_8 = size as u8;
    let len = vec.len() * 8;
    let mut acc: u32 = 0;
    let mut pos: usize = 0;
    let ghost mut k: nat = 0;
    proof {
        lemma_two_pow_32();
    }
    while size <= len - pos
        invariant
            1 <= size <= 32,
            size_8 == size,
            len == bits.len(),
            bitreader_bits(reader) == bits.subrange(pos as int, len as int),
            pos == k * size,
            pos <= len,
            acc as nat == scan_sum(bits, size as nat, k) % two_pow(32),
            two_pow(32) == 0x1_0000_0000,
        decreases len - pos,
    {
        proof {
            lemma_rest_split(bits, pos as int, size as int);
        }
        let data = match bitreader_read(&mut reader, size_8) {
            Some(v) => v,
            None => return acc,
        };
        proof {
            lemma_scan_advance(bits, size as nat, k, pos as nat, acc, data);
            k = k + 1;
        }
        acc = acc.wrapping_add(data);
        pos = pos + size;
    }
    proof {
        lemma_scan_count(len as nat, size as nat, k);
    }
    acc
}

/// The closed set of scan implementations.
#[derive(Clone, Copy, Debug, PartialEq, Eq, Structural)]
pub enum Strategy {
    /// `BitBuf::scan_checksum` of this crate.
    Native,
    /// `bitstream_reader::BitBuffer`, positioned reads.
    BitstreamReader,
    /// `bitstream_reader::BitStream`, sequential reads.
    BitstreamReaderStream,
    /// `bitstream_io::BitReader`.
    BitstreamIo,
    /// `bitreader::BitReader`.
    Bitreader,
}

impl Strategy {
    /// Runs one scan pass of `width`-bit reads over `bytes` with this
    /// implementation; every one returns the same checksum.
    pub fn run(&self, bytes: Vec<u8>, width: usize) -> (r: u32)
        requires
            1 <= width <= 32,
            crate::buffer::BitBuf::fits(bytes@),
        ensures
            r == checksum(bytes@, width as nat),
    {
        match self {
            Strategy::Native => {
                proof {
                    lemma_two_pow_32();
                }
                let buffer = crate::buffer::BitBuf::new(bytes);
                match buffer.scan_checksum(width) {
                    Ok(v) => v,
                    Err(_) => 0,
                }
            },
            Strategy::BitstreamReader => test_bitstream_reader(bytes, width),
            Strategy::BitstreamReaderStream => test_bitstream_reader_stream(bytes, width),
            Strategy::BitstreamIo => test_bitstream_io(bytes, width),
            Strategy::Bitreader => test_bitreader(bytes, width),
        }
    }
}

} // verus!
