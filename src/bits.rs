//! The mathematical model: a byte sequence seen as a sequence of bits,
//! most significant bit first, and the unsigned value of a run of bits.
use vstd::prelude::*;

verus! {

/// `2^n`.
pub open spec fn two_pow(n: nat) -> nat
    decreases n,
{
    if n == 0 {
        1
    } else {
        2 * two_pow((n - 1) as nat)
    }
}

/// Bit `i` of `bytes`, counted globally: bit 0 is the most significant bit
/// of byte 0, bit 8 the most significant bit of byte 1.
pub open spec fn bit_at(bytes: Seq<u8>, i: int) -> bool {
    (bytes[i / 8] >> (7 - i % 8) as u8) & 1u8 == 1u8
}

/// All bits of `bytes`, in order.
pub open spec fn bits_of(bytes: Seq<u8>) -> Seq<bool> {
    Seq::new(bytes.len() * 8, |i: int| bit_at(bytes, i))
}

/// The unsigned value of `bits`, the first bit being the most significant.
pub open spec fn value_of(bits: Seq<bool>) -> nat
    decreases bits.len(),
{
    if bits.len() == 0 {
        0
    } else {
        2 * value_of(bits.drop_last()) + if bits.last() {
            1nat
        } else {
            0nat
        }
    }
}

/// The value of the `width` bits of `bytes` that start at bit `position`.
pub open spec fn span_value(bytes: Seq<u8>, position: int, width: int) -> nat {
    value_of(bits_of(bytes).subrange(position, position + width))
}

/// The sum of the first `count` non-overlapping `width`-bit values of `bits`.
pub open spec fn scan_sum(bits: Seq<bool>, width: nat, count: nat) -> nat
    decreases count,
{
    if count == 0 {
        0
    } else {
        let k = (count - 1) as nat;
        scan_sum(bits, width, k) + value_of(bits.subrange((k * width) as int, (k * width + width) as int))
    }
}

/// The checksum of one scan pass of `width`-bit reads over `bytes`: the sum,
/// modulo 2^32, of every whole `width`-bit value from bit 0 on.
pub open spec fn checksum(bytes: Seq<u8>, width: nat) -> nat
    recommends
        width > 0,
{
    scan_sum(bits_of(bytes), width, (bytes.len() * 8) / width) % two_pow(32)
}

pub proof fn lemma_two_pow_32()
    ensures
        two_pow(32) == 0x1_0000_0000,
{
    reveal_with_fuel(two_pow, 33);
}

pub proof fn lemma_two_pow_mono(a: nat, b: nat)
    requires
        a <= b,
    ensures
        two_pow(a) <= two_pow(b),
    decreases b,
{
    if a < b {
        lemma_two_pow_mono(a, (b - 1) as nat);
    }
}

/// A run of `n` bits is worth less than `2^n`.
pub proof fn lemma_value_bound(bits: Seq<bool>)
    ensures
        value_of(bits) < two_pow(bits.len()),
    decreases bits.len(),
{
    if bits.len() > 0 {
        lemma_value_bound(bits.drop_last());
    }
}

/// `two_pow` agrees with vstd's `pow2`.
pub proof fn lemma_two_pow_is_pow2(n: nat)
    ensures
        two_pow(n) == vstd::arithmetic::power2::pow2(n),
    decreases n,
{
    if n == 0 {
        vstd::arithmetic::power2::lemma2_to64();
    } else {
        lemma_two_pow_is_pow2((n - 1) as nat);
        vstd::arithmetic::power2::lemma_pow2_unfold(n);
    }
}

/// The value of two runs of bits laid end to end: the first is shifted left
/// by the length of the second.
pub proof fn lemma_value_concat(a: Seq<bool>, b: Seq<bool>)
    ensures
        value_of(a + b) == value_of(a) * two_pow(b.len()) + value_of(b),
    decreases b.len(),
{
    if b.len() == 0 {
        assert(a + b =~= a);
        assert(two_pow(0) == 1);
        assert(value_of(b) == 0);
    } else {
        let rest = b.drop_last();
        assert((a + b).drop_last() =~= a + rest);
        assert((a + b).last() == b.last());
        lemma_value_concat(a, rest);
        let bit: nat = if b.last() {
            1
        } else {
            0
        };
        let va = value_of(a);
        let p = two_pow(rest.len());
        assert(value_of(a + b) == 2 * (va * p + value_of(rest)) + bit);
        assert(two_pow(b.len()) == 2 * p);
        assert(value_of(b) == 2 * value_of(rest) + bit);
        assert(2 * (va * p + value_of(rest)) + bit == va * (2 * p) + (2 * value_of(rest) + bit))
            by (nonlinear_arith);
    }
}

/// Value of a prefix one bit longer than another.
pub proof fn lemma_value_prefix_step(s: Seq<bool>, k: int)
    requires
        0 <= k < s.len(),
    ensures
        value_of(s.subrange(0, k + 1)) == 2 * value_of(s.subrange(0, k)) + if s[k] {
            1nat
        } else {
            0nat
        },
{
    assert(s.subrange(0, k + 1).drop_last() =~= s.subrange(0, k));
}

/// The eight bits of byte `j` are worth that byte.
pub proof fn lemma_byte_value(bytes: Seq<u8>, j: int)
    requires
        0 <= j < bytes.len(),
    ensures
        value_of(bits_of(bytes).subrange(8 * j, 8 * j + 8)) == bytes[j] as nat,
{
    let s = bits_of(bytes).subrange(8 * j, 8 * j + 8);
    let x = bytes[j];
    assert forall|k: int| 0 <= k < 8 implies #[trigger] s[k] == ((x >> (7 - k) as u8) & 1u8
        == 1u8) by {
        vstd::arithmetic::div_mod::lemma_fundamental_div_mod_converse(8 * j + k, 8, j, k);
    }
    let b0 = (x >> 7u8) & 1u8;
    let b1 = (x >> 6u8) & 1u8;
    let b2 = (x >> 5u8) & 1u8;
    let b3 = (x >> 4u8) & 1u8;
    let b4 = (x >> 3u8) & 1u8;
    let b5 = (x >> 2u8) & 1u8;
    let b6 = (x >> 1u8) & 1u8;
    let b7 = (x >> 0u8) & 1u8;
    assert(b0 <= 1 && b1 <= 1 && b2 <= 1 && b3 <= 1 && b4 <= 1 && b5 <= 1 && b6 <= 1 && b7 <= 1)
        by (bit_vector)
        requires
            b0 == (x >> 7u8) & 1u8,
            b1 == (x >> 6u8) & 1u8,
            b2 == (x >> 5u8) & 1u8,
            b3 == (x >> 4u8) & 1u8,
            b4 == (x >> 3u8) & 1u8,
            b5 == (x >> 2u8) & 1u8,
            b6 == (x >> 1u8) & 1u8,
            b7 == (x >> 0u8) & 1u8,
    ;
    assert(x as u32 == b0 as u32 * 128 + b1 as u32 * 64 + b2 as u32 * 32 + b3 as u32 * 16 + b4 as u32
        * 8 + b5 as u32 * 4 + b6 as u32 * 2 + b7 as u32) by (bit_vector)
        requires
            b0 == (x >> 7u8) & 1u8,
            b1 == (x >> 6u8) & 1u8,
            b2 == (x >> 5u8) & 1u8,
            b3 == (x >> 4u8) & 1u8,
            b4 == (x >> 3u8) & 1u8,
            b5 == (x >> 2u8) & 1u8,
            b6 == (x >> 1u8) & 1u8,
            b7 == (x >> 0u8) & 1u8,
    ;
    assert(s.subrange(0, 0) =~= Seq::<bool>::empty());
    lemma_value_prefix_step(s, 0);
    lemma_value_prefix_step(s, 1);
    lemma_value_prefix_step(s, 2);
    lemma_value_prefix_step(s, 3);
    lemma_value_prefix_step(s, 4);
    lemma_value_prefix_step(s, 5);
    lemma_value_prefix_step(s, 6);
    lemma_value_prefix_step(s, 7);
    assert(s.subrange(0, 8) =~= s);
}

/// Within a window `[lo, hi)` of bits that holds the span
/// `[pos, pos + width)`, dropping the bits after the span and keeping the
/// low `width` bits of what is left gives the value of the span.
pub proof fn lemma_window_extract(bits: Seq<bool>, lo: int, pos: int, width: int, hi: int)
    requires
        0 <= lo <= pos,
        0 <= width,
        pos + width <= hi <= bits.len(),
    ensures
        value_of(bits.subrange(lo, hi)) / two_pow((hi - pos - width) as nat) % two_pow(
            width as nat,
        ) == value_of(bits.subrange(pos, pos + width)),
{
    let p = bits.subrange(lo, pos);
    let m = bits.subrange(pos, pos + width);
    let t = bits.subrange(pos + width, hi);
    assert(bits.subrange(lo, hi) =~= (p + m) + t);
    lemma_value_concat(p + m, t);
    lemma_value_concat(p, m);
    lemma_value_bound(t);
    lemma_value_bound(m);
    let x = value_of(p) * two_pow(width as nat) + value_of(m);
    vstd::arithmetic::div_mod::lemma_fundamental_div_mod_converse(
        value_of(bits.subrange(lo, hi)) as int,
        two_pow(t.len()) as int,
        x as int,
        value_of(t) as int,
    );
    vstd::arithmetic::div_mod::lemma_fundamental_div_mod_converse(
        x as int,
        two_pow(width as nat) as int,
        value_of(p) as int,
        value_of(m) as int,
    );
}

/// One step of a scan pass: adding the next value, with wraparound, to the
/// checksum of the values before it gives the checksum one value further.
pub proof fn lemma_scan_step(bits: Seq<bool>, width: nat, k: nat, acc: u32, v: u32)
    requires
        k * width + width <= bits.len(),
        acc as nat == scan_sum(bits, width, k) % two_pow(32),
        v as nat == value_of(bits.subrange((k * width) as int, (k * width + width) as int)),
    ensures
        vstd::wrapping::u32_specs::wrapping_add(acc, v) as nat == scan_sum(bits, width, k + 1)
            % two_pow(32),
{
    lemma_two_pow_32();
    let s = scan_sum(bits, width, k);
    assert(scan_sum(bits, width, k + 1) == s + v);
    assert((s % 0x1_0000_0000 + v) % 0x1_0000_0000 == (s + v) % 0x1_0000_0000) by {
        vstd::arithmetic::div_mod::lemma_add_mod_noop(s as int, v as int, 0x1_0000_0000);
        vstd::arithmetic::div_mod::lemma_mod_twice(v as int, 0x1_0000_0000);
        vstd::arithmetic::div_mod::lemma_small_mod(v as nat, 0x1_0000_0000);
    }
}

/// One step of a scan pass at bit `pos == k * width`: the value just read
/// is that of the next `width` bits, and adding it with wraparound moves the
/// checksum of the first `k` values to that of the first `k + 1`.
pub proof fn lemma_scan_advance(bits: Seq<bool>, width: nat, k: nat, pos: nat, acc: u32, v: u32)
    requires
        1 <= width <= 32,
        pos == k * width,
        pos + width <= bits.len(),
        acc as nat == scan_sum(bits, width, k) % two_pow(32),
        v == value_of(bits.subrange(pos as int, (pos + width) as int)) as u32,
    ensures
        vstd::wrapping::u32_specs::wrapping_add(acc, v) as nat == scan_sum(bits, width, k + 1)
            % two_pow(32),
        pos + width == (k + 1) * width,
{
    let span = bits.subrange(pos as int, (pos + width) as int);
    lemma_value_bound(span);
    lemma_two_pow_mono(width, 32);
    lemma_two_pow_32();
    lemma_scan_step(bits, width, k, acc, v);
    assert(pos + width == (k + 1) * width) by (nonlinear_arith)
        requires
            pos == k * width,
    ;
}

/// Reading `width` bits from what is left at bit `pos` takes the span
/// `[pos, pos + width)` and leaves what starts at `pos + width`.
pub proof fn lemma_rest_split(bits: Seq<bool>, pos: int, width: int)
    requires
        0 <= pos,
        0 <= width,
        pos + width <= bits.len(),
    ensures
        bits.subrange(pos, bits.len() as int).take(width) == bits.subrange(pos, pos + width),
        bits.subrange(pos, bits.len() as int).skip(width) == bits.subrange(
            pos + width,
            bits.len() as int,
        ),
{
    assert(bits.subrange(pos, bits.len() as int).take(width) =~= bits.subrange(pos, pos + width));
    assert(bits.subrange(pos, bits.len() as int).skip(width) =~= bits.subrange(
        pos + width,
        bits.len() as int,
    ));
}

/// A scan pass stops after `k` reads exactly when `k` whole widths fit and
/// one more does not: `k` is then the number of whole widths in the buffer.
pub proof fn lemma_scan_count(len: nat, width: nat, k: nat)
    requires
        width > 0,
        k * width <= len,
        len < k * width + width,
    ensures
        len / width == k,
{
    vstd::arithmetic::div_mod::lemma_fundamental_div_mod_converse(
        len as int,
        width as int,
        k as int,
        len - k * width,
    );
}

} // verus!
