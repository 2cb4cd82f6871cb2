//! Fixed-width big-endian integers, as they appear in storage keys and
//! values.

use vstd::prelude::*;

use crate::string::{chars_of, push_char};

verus! {

/// The number that `bytes` spells in base 256, most significant byte first.
pub open spec fn be_value(bytes: Seq<u8>) -> nat
    decreases bytes.len(),
{
    if bytes.len() == 0 {
        0
    } else {
        be_value(bytes.drop_last()) * 256 + bytes.last() as nat
    }
}

/// The `width` least significant base-256 digits of `value`, most significant
/// first.
pub open spec fn be_bytes(value: nat, width: nat) -> Seq<u8>
    decreases width,
{
    if width == 0 {
        Seq::empty()
    } else {
        be_bytes(value / 256, (width - 1) as nat).push((value % 256) as u8)
    }
}

/// The eight bytes that store a `u64`.
pub open spec fn u64_be(value: u64) -> Seq<u8> {
    be_bytes(value as nat, 8)
}

/// `be_bytes` yields exactly `width` digits.
pub proof fn lemma_be_bytes_len(value: nat, width: nat)
    ensures
        be_bytes(value, width).len() == width,
    decreases width,
{
    if width > 0 {
        lemma_be_bytes_len(value / 256, (width - 1) as nat);
    }
}

/// Reading back the digits of a number gives the number, as far as the
/// digits reach.
pub proof fn lemma_be_value_of_be_bytes(value: nat, width: nat)
    ensures
        width == 0 ==> be_value(be_bytes(value, width)) == 0,
        width > 0 ==> be_value(be_bytes(value, width)) == be_value(
            be_bytes(value / 256, (width - 1) as nat),
        ) * 256 + value % 256,
    decreases width,
{
    if width > 0 {
        let lower = be_bytes(value / 256, (width - 1) as nat);
        let digits = be_bytes(value, width);
        assert(digits == lower.push((value % 256) as u8));
        assert(digits.drop_last() =~= lower);
        assert(digits.last() == (value % 256) as u8);
    }
}

/// A `u64` survives being written as eight bytes and read back.
pub proof fn lemma_u64_be_round_trip(value: u64)
    ensures
        u64_be(value).len() == 8,
        be_value(u64_be(value)) == value as nat,
{
    let v0 = value as nat;
    let v1 = v0 / 256;
    let v2 = v1 / 256;
    let v3 = v2 / 256;
    let v4 = v3 / 256;
    let v5 = v4 / 256;
    let v6 = v5 / 256;
    let v7 = v6 / 256;
    let v8 = v7 / 256;
    lemma_be_bytes_len(v0, 8);
    lemma_be_value_of_be_bytes(v0, 8);
    lemma_be_value_of_be_bytes(v1, 7);
    lemma_be_value_of_be_bytes(v2, 6);
    lemma_be_value_of_be_bytes(v3, 5);
    lemma_be_value_of_be_bytes(v4, 4);
    lemma_be_value_of_be_bytes(v5, 3);
    lemma_be_value_of_be_bytes(v6, 2);
    lemma_be_value_of_be_bytes(v7, 1);
    lemma_be_value_of_be_bytes(v8, 0);
    assert(v8 == 0);
}

/// Eight bytes are the stored form of the `u64` they spell.
pub proof fn lemma_be_bytes_of_be_value(bytes: Seq<u8>)
    ensures
        be_bytes(be_value(bytes), bytes.len()) == bytes,
    decreases bytes.len(),
{
    if bytes.len() > 0 {
        let head = bytes.drop_last();
        lemma_be_bytes_of_be_value(head);
        let v = be_value(bytes);
        assert(v / 256 == be_value(head));
        assert(v % 256 == bytes.last() as nat);
        assert(be_bytes(v, bytes.len()) =~= bytes);
    } else {
        assert(be_bytes(be_value(bytes), 0) =~= bytes);
    }
}

/// The value of eight bytes fits a `u64`.
pub proof fn lemma_be_value_bound(bytes: Seq<u8>)
    requires
        bytes.len() <= 8,
    ensures
        bytes.len() == 0 ==> be_value(bytes) == 0,
        bytes.len() == 1 ==> be_value(bytes) < 0x100,
        bytes.len() == 2 ==> be_value(bytes) < 0x1_0000,
        bytes.len() == 3 ==> be_value(bytes) < 0x100_0000,
        bytes.len() == 4 ==> be_value(bytes) < 0x1_0000_0000,
        bytes.len() == 5 ==> be_value(bytes) < 0x100_0000_0000,
        bytes.len() == 6 ==> be_value(bytes) < 0x1_0000_0000_0000,
        bytes.len() == 7 ==> be_value(bytes) < 0x100_0000_0000_0000,
        bytes.len() == 8 ==> be_value(bytes) <= u64::MAX,
    decreases bytes.len(),
{
    if bytes.len() > 0 {
        lemma_be_value_bound(bytes.drop_last());
    }
}

/// Writes `value` as eight bytes, most significant first.
pub fn u64_to_be_bytes(value: u64) -> (bytes: Vec<u8>)
    ensures
        bytes@ == u64_be(value),
        bytes@.len() == 8,
{
    let b7: u8 = (value % 256) as u8;
    let v1: u64 = value / 256;
    let b6: u8 = (v1 % 256) as u8;
    let v2: u64 = v1 / 256;
    let b5: u8 = (v2 % 256) as u8;
    let v3: u64 = v2 / 256;
    let b4: u8 = (v3 % 256) as u8;
    let v4: u64 = v3 / 256;
    let b3: u8 = (v4 % 256) as u8;
    let v5: u64 = v4 / 256;
    let b2: u8 = (v5 % 256) as u8;
    let v6: u64 = v5 / 256;
    let b1: u8 = (v6 % 256) as u8;
    let v7: u64 = v6 / 256;
    let b0: u8 = (v7 % 256) as u8;
    let mut bytes: Vec<u8> = Vec::with_capacity(8);
    bytes.push(b0);
    bytes.push(b1);
    bytes.push(b2);
    bytes.push(b3);
    bytes.push(b4);
    bytes.push(b5);
    bytes.push(b6);
    bytes.push(b7);
    proof {
        reveal_with_fuel(be_bytes, 9);
        assert(bytes@ =~= u64_be(value));
    }
    bytes
}

/// Reads eight bytes as a `u64`, most significant first; `None` for any
/// other length.
pub fn u64_from_bytes(bytes: &[u8]) -> (value: Option<u64>)
    ensures
        value is Some <==> bytes@.len() == 8,
        value is Some ==> value->0 as nat == be_value(bytes@),
        value is Some ==> u64_be(value->0) == bytes@,
{
    if bytes.len() != 8 {
        return None;
    }
    let mut acc: u64 = 0;
    let mut i: usize = 0;
    while i < 8
        invariant
            bytes@.len() == 8,
            i <= 8,
            acc as nat == be_value(bytes@.take(i as int)),
        decreases 8 - i,
    {
        proof {
            let next = bytes@.take(i as int + 1);
            assert(next.drop_last() =~= bytes@.take(i as int));
            assert(next.last() == bytes@[i as int]);
            lemma_be_value_bound(bytes@.take(i as int));
            lemma_be_value_bound(next);
        }
        acc = acc * 256 + bytes[i] as u64;
        i = i + 1;
    }
    proof {
        assert(bytes@.take(8) =~= bytes@);
        lemma_be_bytes_of_be_value(bytes@);
    }
    Some(acc)
}

/// Appends `bytes` to `out`.
pub fn append_bytes(out: &mut Vec<u8>, bytes: &[u8])
    ensures
        final(out)@ == old(out)@ + bytes@,
{
    let mut i: usize = 0;
    while i < bytes.len()
        invariant
            i <= bytes@.len(),
            out@ =~= old(out)@ + bytes@.take(i as int),
        decreases bytes@.len() - i,
    {
        out.push(bytes[i]);
        i = i + 1;
    }
    assert(bytes@.take(bytes@.len() as int) =~= bytes@);
}

/// A copy of `bytes`.
pub fn copy_bytes(bytes: &[u8]) -> (copy: Vec<u8>)
    ensures
        copy@ == bytes@,
{
    let mut copy: Vec<u8> = Vec::new();
    append_bytes(&mut copy, bytes);
    assert(copy@ =~= bytes@);
    copy
}

/// The character that writes a number below sixteen in hexadecimal.
pub open spec fn hex_digit(value: u8) -> char {
    if value < 10 {
        (0x30 + value) as u8 as char
    } else {
        (0x57 + value) as u8 as char
    }
}

/// The number that a hexadecimal digit in lower case writes.
pub open spec fn hex_value(digit: char) -> Option<u8> {
    let code = digit as u32;
    if 0x30 <= code <= 0x39 {
        Some((code - 0x30) as u8)
    } else if 0x61 <= code <= 0x66 {
        Some((code - 0x57) as u8)
    } else {
        None
    }
}

/// Bytes written in hexadecimal, two digits in lower case for each.
pub open spec fn spec_hex(bytes: Seq<u8>) -> Seq<char>
    decreases bytes.len(),
{
    if bytes.len() == 0 {
        Seq::empty()
    } else {
        spec_hex(bytes.drop_last()).push(hex_digit(bytes.last() / 16)).push(
            hex_digit(bytes.last() % 16),
        )
    }
}

/// The bytes that a text writes in hexadecimal; none where the text is not
/// made of pairs of hexadecimal digits in lower case.
pub open spec fn spec_unhex(text: Seq<char>) -> Option<Seq<u8>>
    decreases text.len(),
{
    if text.len() == 0 {
        Some(Seq::empty())
    } else if text.len() == 1 {
        None
    } else {
        let high = hex_value(text[text.len() - 2]);
        let low = hex_value(text[text.len() - 1]);
        match (spec_unhex(text.take(text.len() - 2)), high, low) {
            (Some(front), Some(high), Some(low)) => Some(front.push((high * 16 + low) as u8)),
            _ => None,
        }
    }
}

/// A digit reads back as the number it writes.
pub proof fn lemma_hex_digit(value: u8)
    requires
        value < 16,
    ensures
        hex_value(hex_digit(value)) == Some(value),
{
}

/// Bytes written in hexadecimal read back as they were.
pub proof fn lemma_hex_round_trip(bytes: Seq<u8>)
    ensures
        spec_unhex(spec_hex(bytes)) == Some(bytes),
    decreases bytes.len(),
{
    if bytes.len() > 0 {
        let front = bytes.drop_last();
        let last = bytes.last();
        lemma_hex_round_trip(front);
        lemma_hex_digit(last / 16);
        lemma_hex_digit(last % 16);
        let text = spec_hex(bytes);
        assert(text.take(text.len() - 2) =~= spec_hex(front));
        assert(text[text.len() - 2] == hex_digit(last / 16));
        assert(text[text.len() - 1] == hex_digit(last % 16));
        assert(((last / 16) * 16 + last % 16) as u8 == last);
        assert(front.push(last) =~= bytes);
    }
}

fn digit_of(value: u8) -> (digit: char)
    requires
        value < 16,
    ensures
        digit == hex_digit(value),
{
    if value < 10 {
        (0x30 + value) as char
    } else {
        (0x57 + value) as char
    }
}

fn value_of(digit: char) -> (value: Option<u8>)
    ensures
        value == hex_value(digit),
{
    let code = digit as u32;
    if 0x30 <= code && code <= 0x39 {
        Some((code - 0x30) as u8)
    } else if 0x61 <= code && code <= 0x66 {
        Some((code - 0x57) as u8)
    } else {
        None
    }
}

/// Writes bytes in hexadecimal.
pub fn hex_of(bytes: &[u8]) -> (text: String)
    ensures
        text@ == spec_hex(bytes@),
{
    let mut text = String::new();
    let mut i: usize = 0;
    assert(bytes@.take(0) =~= Seq::<u8>::empty());
    while i < bytes.len()
        invariant
            i <= bytes@.len(),
            text@ == spec_hex(bytes@.take(i as int)),
        decreases bytes@.len() - i,
    {
        proof {
            let next = bytes@.take(i + 1);
            assert(next.drop_last() =~= bytes@.take(i as int));
            assert(next.last() == bytes@[i as int]);
        }
        push_char(&mut text, digit_of(bytes[i] / 16));
        push_char(&mut text, digit_of(bytes[i] % 16));
        i = i + 1;
    }
    assert(bytes@.take(bytes@.len() as int) =~= bytes@);
    text
}

/// Reads bytes written in hexadecimal.
pub fn bytes_of_hex(text: &str) -> (bytes: Option<Vec<u8>>)
    ensures
        bytes is Some <==> spec_unhex(text@) is Some,
        bytes is Some ==> bytes->0@ == spec_unhex(text@)->0,
{
    let chars = chars_of(text);
    if chars.len() % 2 != 0 {
        proof {
            lemma_unhex_odd(chars@);
        }
        return None;
    }
    let mut bytes: Vec<u8> = Vec::new();
    let mut i: usize = 0;
    assert(chars@.take(0) =~= Seq::<char>::empty());
    while i < chars.len()
        invariant
            chars@ == text@,
            chars@.len() % 2 == 0,
            i % 2 == 0,
            i <= chars@.len(),
            spec_unhex(chars@.take(i as int)) == Some(bytes@),
        decreases chars@.len() - i,
    {
        let high = value_of(chars[i]);
        let low = value_of(chars[i + 1]);
        proof {
            let next = chars@.take(i + 2);
            assert(next.take(next.len() - 2) =~= chars@.take(i as int));
            assert(next[next.len() - 2] == chars@[i as int]);
            assert(next[next.len() - 1] == chars@[i + 1]);
        }
        match (high, low) {
            (Some(high), Some(low)) => {
                bytes.push(high * 16 + low);
            },
            _ => {
                proof {
                    lemma_unhex_prefix(chars@, i + 2);
                }
                return None;
            },
        }
        i = i + 2;
    }
    assert(chars@.take(chars@.len() as int) =~= chars@);
    Some(bytes)
}

/// A text of odd length writes no bytes.
pub proof fn lemma_unhex_odd(text: Seq<char>)
    requires
        text.len() % 2 == 1,
    ensures
        spec_unhex(text) is None,
    decreases text.len(),
{
    if text.len() > 1 {
        lemma_unhex_odd(text.take(text.len() - 2));
    }
}

/// A text writes no bytes where its beginning writes none.
pub proof fn lemma_unhex_prefix(text: Seq<char>, n: int)
    requires
        0 <= n <= text.len(),
        n % 2 == 0,
        text.len() % 2 == 0,
        spec_unhex(text.take(n)) is None,
    ensures
        spec_unhex(text) is None,
    decreases text.len() - n,
{
    if n < text.len() {
        let shorter = text.take(text.len() - 2);
        if n <= text.len() - 2 {
            assert(shorter.take(n) =~= text.take(n));
            lemma_unhex_prefix(shorter, n);
        }
    } else {
        assert(text.take(n) =~= text);
    }
}

} // verus!
