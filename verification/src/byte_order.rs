//! Numbers as the bytes that they take up in memory.
use vstd::arithmetic::div_mod::lemma_div_denominator;
use vstd::arithmetic::power::{lemma_pow0, lemma_pow_positive, pow};
use vstd::prelude::*;

verus! {

/// The `width` low bytes of `x`, the lowest first.
pub open spec fn le_bytes(x: nat, width: nat) -> Seq<u8>
    decreases width,
{
    if width == 0 {
        Seq::empty()
    } else {
        seq![(x % 256) as u8] + le_bytes(x / 256, (width - 1) as nat)
    }
}

/// The number that the bytes stand for, the lowest byte first.
pub open spec fn le_value(bytes: Seq<u8>) -> nat
    decreases bytes.len(),
{
    if bytes.len() == 0 {
        0
    } else {
        bytes[0] as nat + 256 * le_value(bytes.skip(1))
    }
}

/// The number of different contents that `width` bytes can have.
pub open spec fn byte_range(width: nat) -> nat
    decreases width,
{
    if width == 0 {
        1
    } else {
        256 * byte_range((width - 1) as nat)
    }
}

/// Bytes stand for a number of as many bytes, whose bytes they are.
pub proof fn law_le_roundtrip(bytes: Seq<u8>)
    ensures
        le_value(bytes) < byte_range(bytes.len()),
        le_bytes(le_value(bytes), bytes.len()) == bytes,
    decreases bytes.len(),
{
    if bytes.len() > 0 {
        let rest = bytes.skip(1);
        law_le_roundtrip(rest);
        let x = le_value(bytes);
        assert(x % 256 == bytes[0] as nat && x / 256 == le_value(rest));
        assert(seq![bytes[0]] + rest =~= bytes);
    } else {
        assert(le_bytes(0, 0) =~= bytes);
    }
}

/// A number that fits in `width` bytes is the one that its bytes stand for.
pub proof fn law_le_bytes_exact(x: nat, width: nat)
    requires
        x < byte_range(width),
    ensures
        le_bytes(x, width).len() == width,
        le_value(le_bytes(x, width)) == x,
    decreases width,
{
    if width > 0 {
        law_le_bytes_exact(x / 256, (width - 1) as nat);
        assert(le_bytes(x, width).skip(1) =~= le_bytes(x / 256, (width - 1) as nat));
    }
}

/// The bytes that a number takes up in the machine's memory, first to last.
pub open spec fn native_bytes(x: nat, width: nat) -> Seq<u8> {
    match vstd::endian::endianness() {
        vstd::endian::Endian::Little => le_bytes(x, width),
        vstd::endian::Endian::Big => le_bytes(x, width).reverse(),
    }
}

/// The number whose bytes in the machine's memory these are.
pub open spec fn native_value(bytes: Seq<u8>) -> nat {
    match vstd::endian::endianness() {
        vstd::endian::Endian::Little => le_value(bytes),
        vstd::endian::Endian::Big => le_value(bytes.reverse()),
    }
}

/// Bytes in memory stand for a number of as many bytes, whose bytes in memory they are.
pub proof fn law_native_roundtrip(bytes: Seq<u8>)
    ensures
        native_value(bytes) < byte_range(bytes.len()),
        native_bytes(native_value(bytes), bytes.len()) == bytes,
{
    law_le_roundtrip(bytes);
    law_le_roundtrip(bytes.reverse());
    assert(bytes.reverse().reverse() =~= bytes);
}

/// A number that fits in `width` bytes is the one that its bytes in memory stand for.
pub proof fn law_native_bytes_exact(x: nat, width: nat)
    requires
        x < byte_range(width),
    ensures
        native_bytes(x, width).len() == width,
        native_value(native_bytes(x, width)) == x,
{
    law_le_bytes_exact(x, width);
    assert(le_bytes(x, width).reverse().reverse() =~= le_bytes(x, width));
}

/// Byte `k` from the low end of a number is the digit that counts its powers `256^k`.
pub proof fn law_le_bytes_are_digits(x: nat, width: nat, k: int)
    requires
        0 <= k < width,
    ensures
        le_bytes(x, width).len() == width,
        le_bytes(x, width)[k] == (x as int / pow(256, k as nat)) % 256,
    decreases width,
{
    let rest = le_bytes(x / 256, (width - 1) as nat);
    if k == 0 {
        lemma_pow0(256);
        if width > 1 {
            law_le_bytes_are_digits(x / 256, (width - 1) as nat, 0);
        } else {
            assert(rest =~= Seq::empty());
        }
    } else {
        law_le_bytes_are_digits(x / 256, (width - 1) as nat, k - 1);
        assert(le_bytes(x, width)[k] == rest[k - 1]);
        lemma_pow_positive(256, (k - 1) as nat);
        lemma_div_denominator(x as int, 256, pow(256, (k - 1) as nat));
        reveal(pow);
    }
}

/// In memory, byte `k` of a number counts its powers `256^k` on a little-endian machine; on a
/// big-endian machine the bytes stand the other way round.
pub proof fn law_native_bytes_are_digits(x: nat, width: nat, k: int)
    requires
        0 <= k < width,
    ensures
        native_bytes(x, width).len() == width,
        vstd::endian::endianness() is Little ==> native_bytes(x, width)[k] == (x as int / pow(
            256,
            k as nat,
        )) % 256,
        vstd::endian::endianness() is Big ==> native_bytes(x, width)[k] == (x as int / pow(
            256,
            (width - 1 - k) as nat,
        )) % 256,
{
    law_le_bytes_are_digits(x, width, k);
    law_le_bytes_are_digits(x, width, width - 1 - k);
}

/// `u16::from_ne_bytes` gives the number whose bytes in the machine's memory are the given ones:
/// the first is the low one on a little-endian machine, the high one on a big-endian machine.
#[verifier::external_body]
fn u16_from_ne_bytes(bytes: [u8; 2]) -> (x: u16)
    ensures
        x == match vstd::endian::endianness() {
            vstd::endian::Endian::Little => bytes@[0] + 256 * bytes@[1],
            vstd::endian::Endian::Big => 256 * bytes@[0] + bytes@[1],
        },
{
    u16::from_ne_bytes(bytes)
}

/// Tells whether the machine keeps the low byte of a number first.
fn machine_is_little_endian() -> (little: bool)
    ensures
        little == (vstd::endian::endianness() is Little),
{
    u16_from_ne_bytes([1, 0]) == 1
}

/// Reads the whole of `raw`, at most eight bytes, the lowest byte first.
fn read_low_first(raw: &[u8]) -> (x: u64)
    requires
        raw@.len() <= 8,
    ensures
        x == le_value(raw@),
{
    let mut x: u64 = 0;
    let mut j: usize = raw.len();
    assert(raw@.skip(j as int) =~= Seq::empty());
    while j > 0
        invariant
            j <= raw@.len() <= 8,
            x == le_value(raw@.skip(j as int)),
        decreases j,
    {
        j = j - 1;
        proof {
            assert(raw@.skip(j as int).skip(1) =~= raw@.skip(j + 1));
            law_le_roundtrip(raw@.skip(j as int));
            reveal_with_fuel(byte_range, 9);
        }
        x = raw[j] as u64 + 256 * x;
    }
    assert(raw@.skip(0) =~= raw@);
    x
}

/// Reads the whole of `raw`, at most eight bytes, the highest byte first.
fn read_high_first(raw: &[u8]) -> (x: u64)
    requires
        raw@.len() <= 8,
    ensures
        x == le_value(raw@.reverse()),
{
    let mut x: u64 = 0;
    let mut j: usize = 0;
    assert(raw@.take(0).reverse() =~= Seq::empty());
    while j < raw.len()
        invariant
            j <= raw@.len() <= 8,
            x == le_value(raw@.take(j as int).reverse()),
        decreases raw@.len() - j,
    {
        proof {
            let next = raw@.take(j + 1).reverse();
            assert(next.skip(1) =~= raw@.take(j as int).reverse());
            law_le_roundtrip(next);
            reveal_with_fuel(byte_range, 9);
        }
        x = raw[j] as u64 + 256 * x;
        j = j + 1;
    }
    assert(raw@.take(raw@.len() as int) =~= raw@);
    x
}

/// Reads the whole of `raw`, at most eight bytes, as a number in the machine's byte order.
pub(crate) fn read_native(raw: &[u8]) -> (x: u64)
    requires
        raw@.len() <= 8,
    ensures
        x < byte_range(raw@.len()),
        native_bytes(x as nat, raw@.len()) == raw@,
{
    let x: u64 = if machine_is_little_endian() {
        read_low_first(raw)
    } else {
        read_high_first(raw)
    };
    proof {
        law_native_roundtrip(raw@);
    }
    x
}

} // verus!
