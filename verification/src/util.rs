//! The key hash and the little-endian integer codec shared by reader and writer.

use vstd::prelude::*;
use vstd::string::StringExecFns;
use vstd::string::StringSliceAdditionalSpecFns;

verus! {

/// The Bernstein hash of a byte string: start at 5381 and, byte by byte,
/// multiply by 33 and add the byte, modulo 2^32.
pub open spec fn spec_djb_hash(bytes: Seq<u8>) -> u32
    decreases bytes.len(),
{
    if bytes.len() == 0 {
        5381
    } else {
        ((spec_djb_hash(bytes.drop_last()) * 33 + bytes.last()) % 0x1_0000_0000) as u32
    }
}

/// Hashes the bytes of a key.
pub fn djb_hash_bytes(bytes: &[u8]) -> (hash_value: u32)
    ensures
        hash_value == spec_djb_hash(bytes@),
{
    let mut hash_value: u32 = 5381;
    let mut i: usize = 0;
    while i < bytes.len()
        invariant
            i <= bytes@.len(),
            hash_value == spec_djb_hash(bytes@.take(i as int)),
        decreases bytes@.len() - i,
    {
        let byte = bytes[i];
        proof {
            assert(bytes@.take(i + 1).drop_last() =~= bytes@.take(i as int));
            assert(bytes@.take(i + 1).last() == byte);
        }
        hash_value = hash_value.wrapping_mul(33).wrapping_add(byte as u32);
        i += 1;
    }
    proof {
        assert(bytes@.take(i as int) =~= bytes@);
    }
    hash_value
}

/// Hashes a key by its UTF-8 bytes.
pub fn djb_hash(key: &str) -> (hash_value: u32)
    ensures
        hash_value == spec_djb_hash(key.spec_bytes()),
{
    djb_hash_bytes(key.as_bytes())
}

} // verus!

verus! {

/// The value of two bytes read as a little-endian integer.
pub open spec fn spec_u16_le(bytes: Seq<u8>) -> u16
    recommends
        bytes.len() == 2,
{
    (bytes[0] + bytes[1] * 0x100) as u16
}

/// The value of four bytes read as a little-endian integer.
pub open spec fn spec_u32_le(bytes: Seq<u8>) -> u32
    recommends
        bytes.len() == 4,
{
    (bytes[0] + bytes[1] * 0x100 + bytes[2] * 0x1_0000 + bytes[3] * 0x100_0000) as u32
}

/// The two bytes that store `value` in little-endian order.
pub open spec fn spec_u16_le_bytes(value: u16) -> Seq<u8> {
    seq![(value % 0x100) as u8, (value / 0x100) as u8]
}

/// The four bytes that store `value` in little-endian order.
pub open spec fn spec_u32_le_bytes(value: u32) -> Seq<u8> {
    seq![
        (value % 0x100) as u8,
        (value / 0x100 % 0x100) as u8,
        (value / 0x1_0000 % 0x100) as u8,
        (value / 0x100_0000) as u8,
    ]
}

/// The little-endian integer stored in `data` at `offset`.
pub open spec fn spec_u16_at(data: Seq<u8>, offset: int) -> u16
    recommends
        0 <= offset,
        offset + 2 <= data.len(),
{
    spec_u16_le(data.subrange(offset, offset + 2))
}

/// The little-endian integer stored in `data` at `offset`.
pub open spec fn spec_u32_at(data: Seq<u8>, offset: int) -> u32
    recommends
        0 <= offset,
        offset + 4 <= data.len(),
{
    spec_u32_le(data.subrange(offset, offset + 4))
}

/// Writing an integer and reading it back gives the integer.
pub proof fn lemma_u16_le_roundtrip(value: u16)
    ensures
        spec_u16_le_bytes(value).len() == 2,
        spec_u16_le(spec_u16_le_bytes(value)) == value,
{
}

/// Writing an integer and reading it back gives the integer.
pub proof fn lemma_u32_le_roundtrip(value: u32)
    ensures
        spec_u32_le_bytes(value).len() == 4,
        spec_u32_le(spec_u32_le_bytes(value)) == value,
{
}

/// Reads a little-endian `u16` at `offset`, or `None` where the two bytes
/// do not lie inside `data`.
pub fn read_u16_le(data: &[u8], offset: usize) -> (value: Option<u16>)
    ensures
        value is Some <==> offset + 2 <= data@.len(),
        value matches Some(v) ==> v == spec_u16_at(data@, offset as int),
{
    if data.len() < 2 || offset > data.len() - 2 {
        return None;
    }
    let b0: u16 = data[offset] as u16;
    let b1: u16 = data[offset + 1] as u16;
    Some(b0 + b1 * 0x100)
}

/// Reads a little-endian `u32` at `offset`, or `None` where the four bytes
/// do not lie inside `data`.
pub fn read_u32_le(data: &[u8], offset: usize) -> (value: Option<u32>)
    ensures
        value is Some <==> offset + 4 <= data@.len(),
        value matches Some(v) ==> v == spec_u32_at(data@, offset as int),
{
    if data.len() < 4 || offset > data.len() - 4 {
        return None;
    }
    let b0: u32 = data[offset] as u32;
    let b1: u32 = data[offset + 1] as u32;
    let b2: u32 = data[offset + 2] as u32;
    let b3: u32 = data[offset + 3] as u32;
    Some(b0 + b1 * 0x100 + b2 * 0x1_0000 + b3 * 0x100_0000)
}

/// Appends the little-endian bytes of `value` to `out`.
pub fn write_u16_le(out: &mut Vec<u8>, value: u16)
    ensures
        final(out)@ == old(out)@ + spec_u16_le_bytes(value),
{
    out.push((value % 0x100) as u8);
    out.push((value / 0x100) as u8);
    proof {
        assert(out@ =~= old(out)@ + spec_u16_le_bytes(value));
    }
}

/// Appends the little-endian bytes of `value` to `out`.
pub fn write_u32_le(out: &mut Vec<u8>, value: u32)
    ensures
        final(out)@ == old(out)@ + spec_u32_le_bytes(value),
{
    out.push((value % 0x100) as u8);
    out.push((value / 0x100 % 0x100) as u8);
    out.push((value / 0x1_0000 % 0x100) as u8);
    out.push((value / 0x100_0000) as u8);
    proof {
        assert(out@ =~= old(out)@ + spec_u32_le_bytes(value));
    }
}

/// Whether `a` and `b` hold the same bytes.
pub fn bytes_eq(a: &[u8], b: &[u8]) -> (equal: bool)
    ensures
        equal == (a@ == b@),
{
    if a.len() != b.len() {
        return false;
    }
    let mut i: usize = 0;
    while i < a.len()
        invariant
            a@.len() == b@.len(),
            i <= a@.len(),
            a@.take(i as int) == b@.take(i as int),
        decreases a@.len() - i,
    {
        if a[i] != b[i] {
            return false;
        }
        proof {
            assert(a@.take(i + 1) =~= a@.take(i as int).push(a@[i as int]));
            assert(b@.take(i + 1) =~= b@.take(i as int).push(b@[i as int]));
        }
        i += 1;
    }
    proof {
        assert(a@.take(i as int) =~= a@);
        assert(b@.take(i as int) =~= b@);
    }
    true
}

} // verus!

verus! {

/// The character of a decimal digit.
pub open spec fn spec_digit(d: nat) -> char
    recommends
        d < 10,
{
    if d == 0 {
        '0'
    } else if d == 1 {
        '1'
    } else if d == 2 {
        '2'
    } else if d == 3 {
        '3'
    } else if d == 4 {
        '4'
    } else if d == 5 {
        '5'
    } else if d == 6 {
        '6'
    } else if d == 7 {
        '7'
    } else if d == 8 {
        '8'
    } else {
        '9'
    }
}

/// The decimal numeral of `n`, without leading zeros.
pub open spec fn spec_decimal(n: nat) -> Seq<char>
    decreases n,
{
    if n < 10 {
        seq![spec_digit(n)]
    } else {
        spec_decimal(n / 10).push(spec_digit(n % 10))
    }
}

fn digit_str(d: usize) -> (s: &'static str)
    requires
        d < 10,
    ensures
        s@ == seq![spec_digit(d as nat)],
{
    proof {
        reveal_strlit("0");
        reveal_strlit("1");
        reveal_strlit("2");
        reveal_strlit("3");
        reveal_strlit("4");
        reveal_strlit("5");
        reveal_strlit("6");
        reveal_strlit("7");
        reveal_strlit("8");
        reveal_strlit("9");
    }
    let s = if d == 0 {
        "0"
    } else if d == 1 {
        "1"
    } else if d == 2 {
        "2"
    } else if d == 3 {
        "3"
    } else if d == 4 {
        "4"
    } else if d == 5 {
        "5"
    } else if d == 6 {
        "6"
    } else if d == 7 {
        "7"
    } else if d == 8 {
        "8"
    } else {
        "9"
    };
    proof {
        assert(s@ =~= seq![spec_digit(d as nat)]);
    }
    s
}

/// Writes `n` as a decimal numeral.
pub fn decimal_string(n: usize) -> (s: String)
    ensures
        s@ == spec_decimal(n as nat),
    decreases n,
{
    if n < 10 {
        digit_str(n).to_owned()
    } else {
        let mut s = decimal_string(n / 10);
        s.append(digit_str(n % 10));
        proof {
            assert(s@ =~= spec_decimal(n as nat));
        }
        s
    }
}

} // verus!

verus! {

/// Whether two strings hold the same text.
pub fn str_eq(a: &str, b: &str) -> (equal: bool)
    ensures
        equal == (a@ == b@),
{
    proof {
        vstd::utf8::encode_utf8_decode_utf8(a@);
        vstd::utf8::encode_utf8_decode_utf8(b@);
    }
    bytes_eq(a.as_bytes(), b.as_bytes())
}

} // verus!
