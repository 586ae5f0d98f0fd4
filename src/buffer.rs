//! `BitBuf`: positioned reads of MSB-first unsigned integers of 1 to 32
//! bits from an immutable byte buffer.
use vstd::prelude::*;

use crate::bits::{
    bits_of, checksum, lemma_byte_value, lemma_scan_advance, lemma_scan_count, lemma_two_pow_32,
    lemma_two_pow_is_pow2, lemma_two_pow_mono, lemma_value_bound, lemma_value_concat,
    lemma_window_extract, scan_sum, span_value, two_pow, value_of,
};

verus! {

/// Why a read was refused.
#[derive(Clone, Copy, Debug, PartialEq, Eq, Structural)]
pub enum ReadError {
    /// The requested span ends past the last bit of the buffer.
    OutOfRange,
    /// The width is 0 or greater than 32.
    InvalidWidth,
}

/// The outcome of reading `width` bits at bit `position` from `bytes`.
pub open spec fn read_spec(bytes: Seq<u8>, position: int, width: int) -> Result<u32, ReadError> {
    if width < 1 || width > 32 {
        Err(ReadError::InvalidWidth)
    } else if position + width > bytes.len() * 8 {
        Err(ReadError::OutOfRange)
    } else {
        Ok(span_value(bytes, position, width) as u32)
    }
}

/// An immutable byte buffer read as a sequence of bits, most significant bit
/// first. Reads carry their own position: the buffer holds no cursor.
pub struct BitBuf {
    bytes: Vec<u8>,
}

impl View for BitBuf {
    type V = Seq<u8>;

    closed spec fn view(&self) -> Seq<u8> {
        self.bytes@
    }
}

impl BitBuf {
    /// The total bit length must be a `usize`.
    #[verifier::type_invariant]
    spec fn bit_len_fits(&self) -> bool {
        self.bytes@.len() * 8 <= usize::MAX
    }

    /// The bytes whose total bit length fits a `usize` can back a buffer.
    pub open spec fn fits(bytes: Seq<u8>) -> bool {
        bytes.len() * 8 <= usize::MAX
    }

    pub fn new(bytes: Vec<u8>) -> (r: BitBuf)
        requires
            BitBuf::fits(bytes@),
        ensures
            r@ == bytes@,
    {
        BitBuf { bytes }
    }

    /// The number of bits in the buffer: eight per byte.
    pub fn bit_len(&self) -> (r: usize)
        ensures
            r == self@.len() * 8,
    {
        proof {
            use_type_invariant(self);
        }
        self.bytes.len() * 8
    }

    /// The bytes of the buffer.
    pub fn as_bytes(&self) -> (r: &Vec<u8>)
        ensures
            r@ == self@,
    {
        &self.bytes
    }

    /// Reads the `width`-bit unsigned value that starts at bit `position`,
    /// its first bit being the most significant.
    pub fn read(&self, position: usize, width: usize) -> (r: Result<u32, ReadError>)
        ensures
            r == read_spec(self@, position as int, width as int),
    {
        proof {
            use_type_invariant(self);
        }
        if width == 0 || width > 32 {
            return Err(ReadError::InvalidWidth);
        }
        let total = self.bytes.len() * 8;
        if position > total || width > total - position {
            return Err(ReadError::OutOfRange);
        }
        // The span touches bytes `first..last`; load them most significant
        // byte first, then drop the bits after the span and mask the rest.
        let end_bit = position + width;
        let first = position / 8;
        let last = end_bit / 8 + if end_bit % 8 == 0 {
            0
        } else {
            1
        };
        let ghost bits = bits_of(self@);
        let mut acc: u64 = 0;
        let mut j: usize = first;
        proof {
            lemma_two_pow_32();
            assert(bits.subrange(8 * first as int, 8 * first as int) =~= Seq::<bool>::empty());
        }
        while j < last
            invariant
                first <= j <= last,
                last <= self@.len(),
                last - first <= 5,
                bits == bits_of(self@),
                acc as nat == value_of(bits.subrange(8 * first as int, 8 * j as int)),
                two_pow(32) == 0x1_0000_0000,
            decreases last - j,
        {
            let byte = self.bytes[j];
            proof {
                let before = bits.subrange(8 * first as int, 8 * j as int);
                assert(bits.subrange(8 * first as int, 8 * j + 8) =~= before + bits.subrange(
                    8 * j as int,
                    8 * j + 8,
                ));
                lemma_value_concat(before, bits.subrange(8 * j as int, 8 * j + 8));
                lemma_byte_value(self@, j as int);
                lemma_value_bound(before);
                lemma_two_pow_mono(before.len(), 32);
                reveal_with_fuel(two_pow, 9);
            }
            acc = acc * 256 + byte as u64;
            j = j + 1;
        }
        let trailing = last * 8 - end_bit;
        let shifted = acc >> trailing as u64;
        proof {
            vstd::bits::lemma_u64_pow2_no_overflow(width as nat);
            vstd::bits::lemma_u64_shl_is_mul(1u64, width as u64);
        }
        let mask = (1u64 << width as u64) - 1;
        let value = shifted & mask;
        proof {
            lemma_window_extract(bits, 8 * first as int, position as int, width as int, 8 * last as int);
            lemma_two_pow_is_pow2(trailing as nat);
            lemma_two_pow_is_pow2(width as nat);
            vstd::bits::lemma_u64_shr_is_div(acc, trailing as u64);
            vstd::bits::lemma_u64_low_bits_mask_is_mod(shifted, width as nat);
            lemma_value_bound(bits.subrange(position as int, end_bit as int));
            lemma_two_pow_mono(width as nat, 32);
        }
        Ok(value as u32)
    }

    /// One scan pass: reads every whole `width`-bit value from bit 0 on and
    /// returns their sum modulo 2^32.
    pub fn scan_checksum(&self, width: usize) -> (r: Result<u32, ReadError>)
        ensures
            width < 1 || width > 32 ==> r == Err::<u32, ReadError>(ReadError::InvalidWidth),
            1 <= width <= 32 ==> r == Ok::<u32, ReadError>(checksum(self@, width as nat) as u32),
    {
        if width == 0 || width > 32 {
            return Err(ReadError::InvalidWidth);
        }
        let len = self.bit_len();
        let ghost bits = bits_of(self@);
        let ghost mut k: nat = 0;
        let mut acc: u32 = 0;
        let mut pos: usize = 0;
        proof {
            lemma_two_pow_32();
        }
        while width <= len - pos
            invariant
                1 <= width <= 32,
                len == self@.len() * 8,
                bits == bits_of(self@),
                pos == k * width,
                pos <= len,
                acc as nat == scan_sum(bits, width as nat, k) % two_pow(32),
                two_pow(32) == 0x1_0000_0000,
            decreases len - pos,
        {
            let v = match self.read(pos, width) {
                Ok(v) => v,
                Err(e) => return Err(e),
            };
            proof {
                lemma_scan_advance(bits, width as nat, k, pos as nat, acc, v);
                k = k + 1;
            }
            acc = acc.wrapping_add(v);
            pos = pos + width;
        }
        proof {
            lemma_scan_count(len as nat, width as nat, k);
        }
        Ok(acc)
    }
}

/// Reading the eight bits of an aligned byte gives that byte: the first bit
/// read is the byte's most significant one.
pub proof fn lemma_read_aligned_byte(bytes: Seq<u8>, j: int)
    requires
        0 <= j < bytes.len(),
    ensures
        read_spec(bytes, 8 * j, 8) == Ok::<u32, ReadError>(bytes[j] as u32),
{
    lemma_byte_value(bytes, j);
}

/// Reading five bits at bit 6 takes the low two bits of byte 0 followed by
/// the high three bits of byte 1, the earlier bits being the more
/// significant.
pub proof fn lemma_read_across_bytes(bytes: Seq<u8>)
    requires
        bytes.len() >= 2,
    ensures
        read_spec(bytes, 6, 5) == Ok::<u32, ReadError>(
            ((bytes[0] % 4) * 8 + bytes[1] / 32) as u32,
        ),
{
    let bits = bits_of(bytes);
    lemma_byte_value(bytes, 0);
    lemma_byte_value(bytes, 1);
    reveal_with_fuel(two_pow, 6);
    lemma_window_extract(bits, 0, 6, 2, 8);
    lemma_window_extract(bits, 8, 8, 3, 16);
    assert(bits.subrange(6, 11) =~= bits.subrange(6, 8) + bits.subrange(8, 11));
    lemma_value_concat(bits.subrange(6, 8), bits.subrange(8, 11));
    assert(two_pow(0) == 1 && two_pow(2) == 4 && two_pow(3) == 8 && two_pow(5) == 32);
    let hi = bytes[0] as nat;
    let lo = bytes[1] as nat;
    assert(value_of(bits.subrange(0, 8)) == hi);
    assert(value_of(bits.subrange(8, 16)) == lo);
    assert(value_of(bits.subrange(0, 8)) / two_pow(0) % two_pow(2) == value_of(bits.subrange(6, 8)));
    assert(hi / 1 == hi);
    assert(value_of(bits.subrange(6, 8)) == hi % 4);
    assert(value_of(bits.subrange(8, 16)) / two_pow(5) % two_pow(3) == value_of(bits.subrange(8, 11)));
    assert(lo / 32 < 8);
    vstd::arithmetic::div_mod::lemma_small_mod(lo / 32, 8);
    assert(value_of(bits.subrange(8, 11)) == lo / 32);
    assert(value_of(bits.subrange(6, 11)) == (hi % 4) * 8 + lo / 32);
}

/// A read whose span ends exactly at the last bit succeeds and returns that
/// final span; one that ends a bit further is out of range.
pub proof fn lemma_read_at_end(bytes: Seq<u8>, width: int)
    requires
        1 <= width <= 32,
        width <= bytes.len() * 8,
    ensures
        read_spec(bytes, bytes.len() * 8 - width, width) == Ok::<u32, ReadError>(
            span_value(bytes, bytes.len() * 8 - width, width) as u32,
        ),
        read_spec(bytes, bytes.len() * 8 - width + 1, width) == Err::<u32, ReadError>(
            ReadError::OutOfRange,
        ),
{
}

/// Reading twice with the same position and width gives the same outcome:
/// a read depends on the bytes and its two arguments alone.
pub proof fn lemma_read_idempotent(
    bytes: Seq<u8>,
    position: int,
    width: int,
    first: Result<u32, ReadError>,
    second: Result<u32, ReadError>,
)
    requires
        first == read_spec(bytes, position, width),
        second == read_spec(bytes, position, width),
    ensures
        first == second,
{
}

/// Widths 0 and 33 are refused as invalid at every position.
pub proof fn lemma_invalid_width(bytes: Seq<u8>)
    ensures
        forall|position: int|
            read_spec(bytes, position, 0) == Err::<u32, ReadError>(ReadError::InvalidWidth)
                && read_spec(bytes, position, 33) == Err::<u32, ReadError>(ReadError::InvalidWidth),
{
}

} // verus!
