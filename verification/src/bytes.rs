//! Byte strings: numbers in memory, overwriting part of a buffer, decimal digits.
use vstd::prelude::*;

use vstd::arithmetic::div_mod::{
    lemma_div_denominator, lemma_hoist_over_denominator, lemma_mod_multiples_vanish,
};
use vstd::arithmetic::power::{lemma_pow0, lemma_pow1, lemma_pow_adds, lemma_pow_positive, pow};

use crate::target::ByteOrder;

verus! {

/// The `width` lowest base-256 digits of `value`, least significant first.
pub open spec fn le_bytes(value: nat, width: nat) -> Seq<u8>
    decreases width,
{
    if width == 0 {
        Seq::empty()
    } else {
        seq![(value % 256) as u8] + le_bytes(value / 256, (width - 1) as nat)
    }
}

/// The number whose base-256 digits, least significant first, are `bytes`.
pub open spec fn le_value(bytes: Seq<u8>) -> nat
    decreases bytes.len(),
{
    if bytes.len() == 0 {
        0
    } else {
        bytes[0] as nat + 256 * le_value(bytes.drop_first())
    }
}

/// The number of values that `width` bytes can hold.
pub open spec fn byte_range(width: nat) -> nat
    decreases width,
{
    if width == 0 {
        1
    } else {
        256 * byte_range((width - 1) as nat)
    }
}

/// The `width` lowest bytes of `value` as they stand in memory.
pub open spec fn word_bytes(order: ByteOrder, value: nat, width: nat) -> Seq<u8> {
    match order {
        ByteOrder::Little => le_bytes(value, width),
        ByteOrder::Big => le_bytes(value, width).reverse(),
    }
}

/// The number whose bytes stand in memory as `bytes`.
pub open spec fn word_value(order: ByteOrder, bytes: Seq<u8>) -> nat {
    match order {
        ByteOrder::Little => le_value(bytes),
        ByteOrder::Big => le_value(bytes.reverse()),
    }
}

/// `data` with `bytes` written over it from position `at` on.
pub open spec fn overwrite(data: Seq<u8>, at: int, bytes: Seq<u8>) -> Seq<u8> {
    Seq::new(
        data.len(),
        |k: int|
            if at <= k < at + bytes.len() {
                bytes[k - at]
            } else {
                data[k]
            },
    )
}

/// `data` cut or filled up with zeros to `len` bytes.
pub open spec fn resized(data: Seq<u8>, len: nat) -> Seq<u8> {
    Seq::new(
        len,
        |k: int|
            if k < data.len() {
                data[k]
            } else {
                0u8
            },
    )
}

/// `len` zero bytes.
pub open spec fn zeros(len: nat) -> Seq<u8> {
    Seq::new(len, |k: int| 0u8)
}

/// The two's complement bits of a 32-bit integer.
pub open spec fn bits32(value: i32) -> nat {
    (value as int % 0x1_0000_0000) as nat
}

/// The two's complement bits of a 64-bit integer.
pub open spec fn bits64(value: i64) -> nat {
    (value as int % 0x1_0000_0000_0000_0000) as nat
}

/// The bytes of a text whose characters are all ASCII.
pub open spec fn ascii(text: Seq<char>) -> Seq<u8> {
    Seq::new(text.len(), |k: int| text[k] as u8)
}

/// The decimal numeral of `n`, without leading zeros.
pub open spec fn decimal(n: nat) -> Seq<u8>
    decreases n,
{
    if n < 10 {
        seq![(48 + n) as u8]
    } else {
        decimal(n / 10).push((48 + n % 10) as u8)
    }
}

/// There are as many little-endian bytes as were asked for.
proof fn lemma_le_bytes_len(value: nat, width: nat)
    ensures
        le_bytes(value, width).len() == width,
    decreases width,
{
    if width > 0 {
        lemma_le_bytes_len(value / 256, (width - 1) as nat);
    }
}

/// There are as many bytes as were asked for.
pub proof fn lemma_word_bytes_len(order: ByteOrder, value: nat, width: nat)
    ensures
        word_bytes(order, value, width).len() == width,
{
    lemma_le_bytes_len(value, width);
}

proof fn lemma_le_bytes_read_back(value: nat, width: nat)
    ensures
        value < byte_range(width) ==> le_value(le_bytes(value, width)) == value,
    decreases width,
{
    lemma_le_bytes_len(value, width);
    if width > 0 {
        let rest = le_bytes(value / 256, (width - 1) as nat);
        lemma_le_bytes_read_back(value / 256, (width - 1) as nat);
        assert(le_bytes(value, width).drop_first() =~= rest);
        assert(value < byte_range(width) ==> value / 256 < byte_range((width - 1) as nat));
    }
}

/// Reading back the bytes of a number gives the number, as far as it fits.
pub proof fn word_bytes_read_back(order: ByteOrder, value: nat, width: nat)
    ensures
        word_bytes(order, value, width).len() == width,
        value < byte_range(width) ==> word_value(order, word_bytes(order, value, width)) == value,
{
    lemma_le_bytes_len(value, width);
    lemma_le_bytes_read_back(value, width);
    assert(le_bytes(value, width).reverse().reverse() =~= le_bytes(value, width));
}

/// Reading a region right after it was overwritten gives what was written, and the other positions
/// keep their bytes.
pub proof fn overwrite_read_back(data: Seq<u8>, at: int, bytes: Seq<u8>)
    requires
        0 <= at,
        at + bytes.len() <= data.len(),
    ensures
        overwrite(data, at, bytes).len() == data.len(),
        overwrite(data, at, bytes).subrange(at, at + bytes.len()) == bytes,
        forall|lo: int, hi: int|
            0 <= lo <= hi <= data.len() && (hi <= at || at + bytes.len() <= lo)
                ==> #[trigger] overwrite(data, at, bytes).subrange(lo, hi) == data.subrange(lo, hi),
{
    assert(overwrite(data, at, bytes).subrange(at, at + bytes.len()) =~= bytes);
    assert forall|lo: int, hi: int|
        0 <= lo <= hi <= data.len() && (hi <= at || at + bytes.len() <= lo) implies
        #[trigger] overwrite(data, at, bytes).subrange(lo, hi) == data.subrange(lo, hi) by {
        assert(overwrite(data, at, bytes).subrange(lo, hi) =~= data.subrange(lo, hi));
    }
}

/// Writes `bytes` over `data` from position `at` on.
pub fn write_bytes(data: &mut Vec<u8>, at: usize, bytes: &[u8])
    requires
        at + bytes@.len() <= old(data)@.len(),
    ensures
        final(data)@ == overwrite(old(data)@, at as int, bytes@),
        final(data)@.len() == old(data)@.len(),
        forall|k: int|
            0 <= k < old(data)@.len() ==> #[trigger] final(data)@[k] == if at <= k < at
                + bytes@.len() {
                bytes@[k - at]
            } else {
                old(data)@[k]
            },
{
    let ghost before = data@;
    let total: usize = data.len();
    let mut k: usize = 0;
    assert(data@ =~= overwrite(before, at as int, bytes@.take(0)));
    while k < bytes.len()
        invariant
            k <= bytes@.len(),
            before.len() == data@.len() == total,
            at + bytes@.len() <= total,
            data@ == overwrite(before, at as int, bytes@.take(k as int)),
        decreases bytes@.len() - k,
    {
        data.set(at + k, bytes[k]);
        k = k + 1;
        assert(data@ =~= overwrite(before, at as int, bytes@.take(k as int)));
    }
    assert(bytes@.take(k as int) =~= bytes@);
}

/// The `width` lowest base-256 digits of `value`, least significant first.
fn encode_le(value: u64, width: usize) -> (out: Vec<u8>)
    ensures
        out@ == le_bytes(value as nat, width as nat),
{
    let mut out: Vec<u8> = Vec::new();
    let mut rest: u64 = value;
    let mut k: usize = 0;
    assert(out@ + le_bytes(rest as nat, width as nat) =~= le_bytes(value as nat, width as nat));
    while k < width
        invariant
            k <= width,
            out@ + le_bytes(rest as nat, (width - k) as nat) == le_bytes(
                value as nat,
                width as nat,
            ),
        decreases width - k,
    {
        let ghost tail = le_bytes((rest / 256) as nat, (width - k - 1) as nat);
        let ghost before = out@;
        let digit: u8 = (rest % 256) as u8;
        out.push(digit);
        assert(before + (seq![digit] + tail) =~= out@ + tail);
        rest = rest / 256;
        k = k + 1;
    }
    assert(out@ + le_bytes(rest as nat, 0) =~= out@);
    out
}

/// The `width` lowest bytes of `value` as they stand in memory.
pub fn encode(order: ByteOrder, value: u64, width: usize) -> (out: Vec<u8>)
    ensures
        out@ == word_bytes(order, value as nat, width as nat),
{
    let digits: Vec<u8> = encode_le(value, width);
    match order {
        ByteOrder::Little => digits,
        ByteOrder::Big => {
            let mut out: Vec<u8> = Vec::new();
            let mut k: usize = digits.len();
            while k > 0
                invariant
                    k <= digits@.len(),
                    out@ == digits@.skip(k as int).reverse(),
                decreases k,
            {
                k = k - 1;
                out.push(digits[k]);
                assert(out@ =~= digits@.skip(k as int).reverse());
            }
            assert(digits@.skip(0) =~= digits@);
            out
        },
    }
}

/// The bytes of a 32-bit integer as they stand in memory.
pub fn encode_i32(order: ByteOrder, value: i32) -> (out: Vec<u8>)
    ensures
        out@ == word_bytes(order, bits32(value), 4),
{
    let bits: u64 = if value >= 0 {
        value as u64
    } else {
        (value as i64 + 0x1_0000_0000) as u64
    };
    encode(order, bits, 4)
}

/// The bytes of a 64-bit integer as they stand in memory.
pub fn encode_i64(order: ByteOrder, value: i64) -> (out: Vec<u8>)
    ensures
        out@ == word_bytes(order, bits64(value), 8),
{
    let bits: u64 = if value >= 0 {
        value as u64
    } else {
        (value as i128 + 0x1_0000_0000_0000_0000) as u64
    };
    encode(order, bits, 8)
}

/// The bytes of an ASCII text.
pub fn ascii_bytes(text: &str) -> (out: Vec<u8>)
    requires
        vstd::string::is_ascii(text),
    ensures
        out@ == ascii(text@),
        out@.len() == text@.len(),
        forall|k: int| 0 <= k < text@.len() ==> #[trigger] out@[k] == text@[k] as u8,
{
    broadcast use vstd::string::is_ascii_spec_bytes;

    let out: Vec<u8> = vstd::slice::slice_to_vec(text.as_bytes());
    assert(out@ =~= ascii(text@));
    out
}

/// The decimal numeral of `n`.
pub fn decimal_bytes(n: u64) -> (out: Vec<u8>)
    ensures
        out@ == decimal(n as nat),
    decreases n,
{
    if n < 10 {
        let mut out: Vec<u8> = Vec::new();
        out.push((48 + n) as u8);
        assert(out@ =~= decimal(n as nat));
        out
    } else {
        let mut out: Vec<u8> = decimal_bytes(n / 10);
        out.push((48 + n % 10) as u8);
        out
    }
}

/// A digit of a number does not change when whole multiples of a larger power are added.
pub proof fn lemma_digit_of_shifted(n: int, q: int, width: nat, k: nat)
    requires
        k < width,
    ensures
        ((n + q * pow(256, width)) / pow(256, k)) % 256 == (n / pow(256, k)) % 256,
{
    let low = pow(256, k);
    let rest = pow(256, (width - k - 1) as nat);
    lemma_pow_positive(256, k);
    lemma_pow_adds(256, k, (width - k) as nat);
    lemma_pow_adds(256, 1, (width - k - 1) as nat);
    lemma_pow1(256);
    assert(pow(256, width) == low * (256 * rest));
    let j = q * (256 * rest);
    assert(q * pow(256, width) == j * low) by (nonlinear_arith)
        requires
            pow(256, width) == low * (256 * rest),
            j == q * (256 * rest),
    ;
    lemma_hoist_over_denominator(n, j, low as nat);
    assert(j == 256 * (q * rest)) by (nonlinear_arith)
        requires
            j == q * (256 * rest),
    ;
    lemma_mod_multiples_vanish(q * rest, n / low, 256);
}

proof fn lemma_le_digits(value: nat, width: nat, k: nat)
    requires
        k < width,
    ensures
        le_bytes(value, width).len() == width,
        le_bytes(value, width)[k as int] == (value as int / pow(256, k)) % 256,
    decreases width,
{
    lemma_le_bytes_len(value, width);
    let rest = (width - 1) as nat;
    lemma_le_bytes_len(value / 256, rest);
    if k == 0 {
        lemma_pow0(256);
    } else {
        lemma_le_digits(value / 256, rest, (k - 1) as nat);
        lemma_pow_positive(256, (k - 1) as nat);
        lemma_pow_adds(256, 1, (k - 1) as nat);
        lemma_pow1(256);
        lemma_div_denominator(value as int, 256, pow(256, (k - 1) as nat));
        assert(le_bytes(value, width)[k as int] == le_bytes(value / 256, rest)[k - 1]);
    }
}

/// Every byte of a number in memory is one of its base-256 digits: on a little-endian host the byte
/// at place `k` is the digit that counts 256 to the power of `k`, on a big-endian host the last
/// byte is the one that counts units.
pub proof fn bytes_are_digits(order: ByteOrder, value: nat, width: nat, k: nat)
    requires
        k < width,
    ensures
        word_bytes(order, value, width).len() == width,
        order is Little ==> word_bytes(order, value, width)[k as int] == (value as int / pow(
            256,
            k,
        )) % 256,
        order is Big ==> word_bytes(order, value, width)[width - 1 - k] == (value as int / pow(
            256,
            k,
        )) % 256,
{
    lemma_le_digits(value, width, k);
}

/// The bytes of a signed 32-bit number are the digits of its two's complement, for every number.
pub proof fn bytes_of_i32_are_digits(order: ByteOrder, value: i32, k: nat)
    requires
        k < 4,
    ensures
        word_bytes(order, bits32(value), 4).len() == 4,
        order is Little ==> word_bytes(order, bits32(value), 4)[k as int] == (value as int / pow(
            256,
            k,
        )) % 256,
        order is Big ==> word_bytes(order, bits32(value), 4)[3 - k] == (value as int / pow(256, k))
            % 256,
{
    let q = -(value as int / 0x1_0000_0000);
    bytes_are_digits(order, bits32(value), 4, k);
    lemma_powers_of_256();
    assert(bits32(value) == value as int + q * pow(256, 4));
    lemma_digit_of_shifted(value as int, q, 4, k);
}

/// The bytes of a signed 64-bit number are the digits of its two's complement, for every number.
pub proof fn bytes_of_i64_are_digits(order: ByteOrder, value: i64, k: nat)
    requires
        k < 8,
    ensures
        word_bytes(order, bits64(value), 8).len() == 8,
        order is Little ==> word_bytes(order, bits64(value), 8)[k as int] == (value as int / pow(
            256,
            k,
        )) % 256,
        order is Big ==> word_bytes(order, bits64(value), 8)[7 - k] == (value as int / pow(256, k))
            % 256,
{
    let q = -(value as int / 0x1_0000_0000_0000_0000);
    bytes_are_digits(order, bits64(value), 8, k);
    lemma_powers_of_256();
    assert(bits64(value) == value as int + q * pow(256, 8));
    lemma_digit_of_shifted(value as int, q, 8, k);
}

/// The first powers of 256.
pub proof fn lemma_powers_of_256()
    ensures
        pow(256, 0) == 1,
        pow(256, 1) == 0x100,
        pow(256, 2) == 0x1_0000,
        pow(256, 3) == 0x100_0000,
        pow(256, 4) == 0x1_0000_0000,
        pow(256, 5) == 0x100_0000_0000,
        pow(256, 6) == 0x1_0000_0000_0000,
        pow(256, 7) == 0x100_0000_0000_0000,
        pow(256, 8) == 0x1_0000_0000_0000_0000,
{
    reveal(pow);
    reveal_with_fuel(pow, 9);
}

/// The bytes of a signed 32-bit number, read as a number in two's complement, give the number: the
/// weighted sum of the bytes is the number itself, or exceeds it by two to the power of 32 where
/// the number is negative.
pub proof fn i32_reads_back(order: ByteOrder, value: i32)
    ensures
        ({
            let b = word_bytes(order, bits32(value), 4);
            let little = b[0] + 0x100 * b[1] + 0x1_0000 * b[2] + 0x100_0000 * b[3];
            let big = b[3] + 0x100 * b[2] + 0x1_0000 * b[1] + 0x100_0000 * b[0];
            let read = if order is Little {
                little
            } else {
                big
            };
            &&& b.len() == 4
            &&& read < 0x8000_0000 <==> value >= 0
            &&& value as int == if read < 0x8000_0000 {
                read
            } else {
                read - 0x1_0000_0000
            }
        }),
{
    let b = le_bytes(bits32(value), 4);
    lemma_byte_ranges();
    lemma_le_bytes_len(bits32(value), 4);
    lemma_le_bytes_read_back(bits32(value), 4);
    lemma_le_value_of_four(b);
}

/// The bytes of a signed 64-bit number, read as a number in two's complement, give the number: the
/// weighted sum of the bytes is the number itself, or exceeds it by two to the power of 64 where
/// the number is negative.
pub proof fn i64_reads_back(order: ByteOrder, value: i64)
    ensures
        ({
            let b = word_bytes(order, bits64(value), 8);
            let little = b[0] + 0x100 * b[1] + 0x1_0000 * b[2] + 0x100_0000 * b[3] + 0x1_0000_0000
                * b[4] + 0x100_0000_0000 * b[5] + 0x1_0000_0000_0000 * b[6] + 0x100_0000_0000_0000
                * b[7];
            let big = b[7] + 0x100 * b[6] + 0x1_0000 * b[5] + 0x100_0000 * b[4] + 0x1_0000_0000
                * b[3] + 0x100_0000_0000 * b[2] + 0x1_0000_0000_0000 * b[1] + 0x100_0000_0000_0000
                * b[0];
            let read = if order is Little {
                little
            } else {
                big
            };
            &&& b.len() == 8
            &&& read < 0x8000_0000_0000_0000 <==> value >= 0
            &&& value as int == if read < 0x8000_0000_0000_0000 {
                read
            } else {
                read - 0x1_0000_0000_0000_0000
            }
        }),
{
    let b = le_bytes(bits64(value), 8);
    lemma_byte_ranges();
    lemma_le_bytes_len(bits64(value), 8);
    lemma_le_bytes_read_back(bits64(value), 8);
    lemma_le_value_of_four(b.skip(4));
    lemma_le_value_splits(b);
    lemma_le_value_of_four(b.take(4));
}

/// How many values four and eight bytes can hold.
pub proof fn lemma_byte_ranges()
    ensures
        byte_range(4) == 0x1_0000_0000,
        byte_range(8) == 0x1_0000_0000_0000_0000,
{
    reveal_with_fuel(byte_range, 9);
}

/// The number that four bytes hold, least significant first.
pub proof fn lemma_le_value_of_four(b: Seq<u8>)
    requires
        b.len() == 4,
    ensures
        le_value(b) == b[0] + 0x100 * b[1] + 0x1_0000 * b[2] + 0x100_0000 * b[3],
{
    let c1 = b.drop_first();
    let c2 = c1.drop_first();
    let c3 = c2.drop_first();
    let c4 = c3.drop_first();
    assert(le_value(c4) == 0);
    assert(le_value(c3) == b[3]);
    assert(le_value(c2) == b[2] + 0x100 * le_value(c3));
    assert(le_value(c1) == b[1] + 0x100 * le_value(c2));
}

/// The number that eight bytes hold, least significant first, in two halves.
proof fn lemma_le_value_splits(b: Seq<u8>)
    requires
        b.len() == 8,
    ensures
        le_value(b) == le_value(b.take(4)) + 0x1_0000_0000 * le_value(b.skip(4)),
{
    let c1 = b.drop_first();
    let c2 = c1.drop_first();
    let c3 = c2.drop_first();
    let c4 = c3.drop_first();
    assert(c4 =~= b.skip(4));
    assert(le_value(c3) == b[3] + 0x100 * le_value(c4));
    assert(le_value(c2) == b[2] + 0x100 * le_value(c3));
    assert(le_value(c1) == b[1] + 0x100 * le_value(c2));
    lemma_le_value_of_four(b.take(4));
}

/// Reading bytes as a number is reading their digits: every byte is the digit of the number that is
/// read, at its place, and the number has no further digits.
pub proof fn reading_a_number_reads_its_digits(order: ByteOrder, bytes: Seq<u8>, k: nat)
    requires
        k < bytes.len(),
    ensures
        word_value(order, bytes) < pow(256, bytes.len()),
        order is Little ==> bytes[k as int] == (word_value(order, bytes) as int / pow(256, k))
            % 256,
        order is Big ==> bytes[bytes.len() - 1 - k] == (word_value(order, bytes) as int / pow(
            256,
            k,
        )) % 256,
{
    lemma_le_value_digits(bytes, k);
    lemma_le_value_digits(bytes.reverse(), k);
}

proof fn lemma_le_value_digits(bytes: Seq<u8>, k: nat)
    ensures
        le_value(bytes) < pow(256, bytes.len()),
        k < bytes.len() ==> bytes[k as int] == (le_value(bytes) as int / pow(256, k)) % 256,
    decreases bytes.len(),
{
    lemma_pow0(256);
    if bytes.len() > 0 {
        let rest = bytes.drop_first();
        let value = le_value(bytes) as int;
        lemma_pow1(256);
        lemma_pow_adds(256, 1, rest.len());
        if k == 0 {
            lemma_le_value_digits(rest, 0);
            assert(value % 256 == bytes[0]);
        } else {
            lemma_le_value_digits(rest, (k - 1) as nat);
            lemma_pow_positive(256, (k - 1) as nat);
            lemma_pow_adds(256, 1, (k - 1) as nat);
            lemma_div_denominator(value, 256, pow(256, (k - 1) as nat));
            assert(value / 256 == le_value(rest));
        }
    }
}

/// A decimal numeral shows the number: each byte is the code of a decimal digit, the last one
/// counts units and each one before it ten times as much as the next, the digits are enough to hold
/// the number, and the numeral does not start with a zero unless the number is zero.
pub proof fn numerals_show_their_numbers(n: nat, k: nat)
    ensures
        decimal(n).len() >= 1,
        k < decimal(n).len() ==> decimal(n)[decimal(n).len() - 1 - k] == 48 + (n as int / pow(
            10,
            k,
        )) % 10,
        n < pow(10, decimal(n).len()),
        decimal(n).len() > 1 ==> n >= pow(10, (decimal(n).len() - 1) as nat),
    decreases n,
{
    lemma_pow0(10);
    lemma_pow1(10);
    if n >= 10 {
        let rest = decimal(n / 10);
        numerals_show_their_numbers(
            n / 10,
            if k > 0 {
                (k - 1) as nat
            } else {
                0
            },
        );
        lemma_pow_adds(10, 1, rest.len());
        lemma_pow_adds(10, 1, (rest.len() - 1) as nat);
        if k > 0 {
            lemma_pow_positive(10, (k - 1) as nat);
            lemma_pow_adds(10, 1, (k - 1) as nat);
            lemma_div_denominator(n as int, 10, pow(10, (k - 1) as nat));
        }
    }
}

/// Filling up or cutting keeps the bytes that are there and adds zeros.
pub proof fn resizing_keeps_bytes_and_adds_zeros(data: Seq<u8>, len: nat, k: int)
    requires
        0 <= k < len,
    ensures
        resized(data, len).len() == len,
        k < data.len() ==> resized(data, len)[k] == data[k],
        k >= data.len() ==> resized(data, len)[k] == 0,
{
}

} // verus!
