//! Hex codec: conversions between ASCII hex digits and unsigned integers or
//! byte arrays. This is the numeric alphabet for the whole protocol.
//!
//! Decoding accepts upper- and lower-case digits; encoding always produces
//! fixed-width upper-case digits, which the line decoder relies on.

use vstd::arithmetic::div_mod::lemma_div_denominator;
use vstd::arithmetic::div_mod::lemma_fundamental_div_mod;
use vstd::prelude::*;

verus! {

/// True of the ASCII bytes `0`-`9`, `a`-`f` and `A`-`F`.
pub open spec fn is_hex_digit(c: u8) -> bool {
    (48 <= c <= 57) || (97 <= c <= 102) || (65 <= c <= 70)
}

/// The value (0..16) of an ASCII hex digit.
pub open spec fn hex_val(c: u8) -> int {
    if 48 <= c <= 57 {
        c - 48
    } else if 97 <= c <= 102 {
        c - 97 + 10
    } else {
        c - 65 + 10
    }
}

/// The upper-case ASCII hex digit for a value in 0..16.
pub open spec fn hex_char_of(v: int) -> u8 {
    if 0 <= v < 10 {
        (48 + v) as u8
    } else if 10 <= v < 16 {
        (55 + v) as u8
    } else {
        0
    }
}

/// Every byte of the sequence is an ASCII hex digit.
pub open spec fn hex_seq_valid(s: Seq<u8>) -> bool {
    forall|i: int| 0 <= i < s.len() ==> is_hex_digit(s[i])
}

/// The number denoted by a sequence of hex digits, most significant first.
pub open spec fn hex_num(s: Seq<u8>) -> int
    decreases s.len(),
{
    if s.len() == 0 {
        0
    } else {
        hex_num(s.drop_last()) * 16 + hex_val(s.last())
    }
}

/// 16 to the power `w`.
pub open spec fn pow16(w: nat) -> int
    decreases w,
{
    if w == 0 {
        1
    } else {
        16 * pow16((w - 1) as nat)
    }
}

/// The fixed-width, zero-padded, upper-case hex encoding of `v` in `w` digits.
pub open spec fn hex_enc(v: int, w: nat) -> Seq<u8>
    decreases w,
{
    if w == 0 {
        Seq::empty()
    } else {
        hex_enc(v / 16, (w - 1) as nat).push(hex_char_of(v % 16))
    }
}

/// The hex-pair encoding of a byte sequence: two upper-case digits per byte,
/// high nibble first.
pub open spec fn hex_pairs(data: Seq<u8>) -> Seq<u8> {
    Seq::new(
        (2 * data.len()) as nat,
        |i: int|
            if i % 2 == 0 {
                hex_char_of(data[i / 2] as int / 16)
            } else {
                hex_char_of(data[i / 2] as int % 16)
            },
    )
}

/// The bytes denoted by a sequence of hex digit pairs.
pub open spec fn pairs_to_bytes(s: Seq<u8>) -> Seq<u8> {
    Seq::new((s.len() / 2) as nat, |i: int| (hex_val(s[2 * i]) * 16 + hex_val(s[2 * i + 1])) as u8)
}

/// `hex_char_of` produces a hex digit and `hex_val` inverts it.
pub proof fn lemma_hex_char_val(v: int)
    requires
        0 <= v < 16,
    ensures
        is_hex_digit(hex_char_of(v)),
        hex_val(hex_char_of(v)) == v,
{
}

/// Appending a digit multiplies the denoted number by 16 and adds the digit.
pub proof fn lemma_hex_num_snoc(s: Seq<u8>, c: u8)
    ensures
        hex_num(s.push(c)) == hex_num(s) * 16 + hex_val(c),
{
    assert(s.push(c).drop_last() =~= s);
    assert(s.push(c).last() == c);
}

/// A sequence of `w` hex digits denotes a number below 16^w.
pub proof fn lemma_hex_num_bound(s: Seq<u8>)
    requires
        hex_seq_valid(s),
    ensures
        0 <= hex_num(s) < pow16(s.len()),
    decreases s.len(),
{
    if s.len() == 0 {
    } else {
        let s0 = s.drop_last();
        assert(hex_seq_valid(s0));
        lemma_hex_num_bound(s0);
        assert(0 <= hex_val(s.last()) < 16);
        assert(pow16(s.len()) == 16 * pow16((s.len() - 1) as nat));
    }
}

/// For `v` below 16^w, the fixed-width encoding has width `w`, consists of
/// hex digits, and denotes `v` again.
pub proof fn lemma_hex_enc(v: int, w: nat)
    requires
        0 <= v < pow16(w),
    ensures
        hex_enc(v, w).len() == w,
        hex_seq_valid(hex_enc(v, w)),
        hex_num(hex_enc(v, w)) == v,
    decreases w,
{
    if w == 0 {
    } else {
        lemma_fundamental_div_mod(v, 16);
        assert(pow16(w) == 16 * pow16((w - 1) as nat));
        assert(v / 16 < pow16((w - 1) as nat));
        lemma_hex_enc(v / 16, (w - 1) as nat);
        lemma_hex_char_val(v % 16);
        lemma_hex_num_snoc(hex_enc(v / 16, (w - 1) as nat), hex_char_of(v % 16));
    }
}

/// The hex-pair encoding of a byte sequence consists of hex digits and
/// decodes back to the same bytes.
pub proof fn lemma_pairs_round_trip(data: Seq<u8>)
    ensures
        hex_pairs(data).len() == 2 * data.len(),
        hex_seq_valid(hex_pairs(data)),
        pairs_to_bytes(hex_pairs(data)) == data,
{
    assert forall|i: int| 0 <= i < hex_pairs(data).len() implies is_hex_digit(
        hex_pairs(data)[i],
    ) by {
        if i % 2 == 0 {
            lemma_hex_char_val(data[i / 2] as int / 16);
        } else {
            lemma_hex_char_val(data[i / 2] as int % 16);
        }
    }
    assert forall|i: int| 0 <= i < data.len() implies pairs_to_bytes(hex_pairs(data))[i]
        == data[i] by {
        assert(hex_pairs(data)[2 * i] == hex_char_of(data[i] as int / 16));
        assert(hex_pairs(data)[2 * i + 1] == hex_char_of(data[i] as int % 16));
        lemma_hex_char_val(data[i] as int / 16);
        lemma_hex_char_val(data[i] as int % 16);
        lemma_fundamental_div_mod(data[i] as int, 16);
    }
    assert(pairs_to_bytes(hex_pairs(data)) =~= data);
}

/// All the small powers of 16 the codec's widths call for.
pub proof fn lemma_pow16_values()
    ensures
        pow16(0) == 1,
        pow16(1) == 16,
        pow16(2) == 256,
        pow16(3) == 4096,
        pow16(4) == 0x10000,
        pow16(5) == 0x100000,
        pow16(6) == 0x1000000,
        pow16(7) == 0x10000000,
        pow16(8) == 0x100000000,
{
    assert(pow16(0) == 1);
    assert(pow16(1) == 16);
    assert(pow16(2) == 256);
    assert(pow16(3) == 4096);
    assert(pow16(4) == 0x10000);
    assert(pow16(5) == 0x100000);
    assert(pow16(6) == 0x1000000);
    assert(pow16(7) == 0x10000000);
    assert(pow16(8) == 0x100000000);
}

pub proof fn lemma_pow16_positive(w: nat)
    ensures
        pow16(w) >= 1,
    decreases w,
{
    if w > 0 {
        lemma_pow16_positive((w - 1) as nat);
    }
}

pub proof fn lemma_pow16_increases(a: nat, b: nat)
    requires
        a <= b,
    ensures
        1 <= pow16(a) <= pow16(b),
    decreases b,
{
    lemma_pow16_positive(a);
    if a < b {
        lemma_pow16_increases(a, (b - 1) as nat);
    }
}

/// Converts one ASCII hex digit to its value; fails on any other byte.
pub fn hextou8(s: u8) -> (r: Result<u8, ()>)
    ensures
        is_hex_digit(s) ==> r == Ok::<u8, ()>(hex_val(s) as u8),
        !is_hex_digit(s) ==> r is Err,
{
    if s >= 48 && s <= 57 {
        Ok(s - 48)
    } else if s >= 97 && s <= 102 {
        Ok(s - 97 + 10)
    } else if s >= 65 && s <= 70 {
        Ok(s - 65 + 10)
    } else {
        Err(())
    }
}

/// Composes a byte from a hex pair, high nibble first; fails if either digit
/// is malformed.
pub fn hex2tou8(s: &[u8]) -> (r: Result<u8, ()>)
    requires
        s@.len() >= 2,
    ensures
        (is_hex_digit(s@[0]) && is_hex_digit(s@[1])) ==> r == Ok::<u8, ()>(
            (hex_val(s@[0]) * 16 + hex_val(s@[1])) as u8,
        ),
        !(is_hex_digit(s@[0]) && is_hex_digit(s@[1])) ==> r is Err,
{
    let msn = match hextou8(s[0]) {
        Ok(v) => v,
        Err(()) => {
            return Err(());
        },
    };
    let lsn = match hextou8(s[1]) {
        Ok(v) => v,
        Err(()) => {
            return Err(());
        },
    };
    Ok(msn * 16 + lsn)
}

/// Reads up to four hex digits into a 16-bit value, most significant first;
/// all-or-nothing: any malformed digit fails the whole conversion.
pub fn hextou16(buf: &[u8]) -> (r: Result<u16, ()>)
    requires
        buf@.len() <= 4,
    ensures
        hex_seq_valid(buf@) ==> (r matches Ok(v) && v as int == hex_num(buf@)),
        !hex_seq_valid(buf@) ==> r is Err,
{
    let mut value: u16 = 0;
    let mut i: usize = 0;
    while i < buf.len()
        invariant
            buf@.len() <= 4,
            i <= buf@.len(),
            hex_seq_valid(buf@.take(i as int)),
            value as int == hex_num(buf@.take(i as int)),
        decreases buf@.len() - i,
    {
        let d = match hextou8(buf[i]) {
            Ok(d) => d,
            Err(()) => {
                assert(!is_hex_digit(buf@[i as int]));
                return Err(());
            },
        };
        proof {
            lemma_hex_num_bound(buf@.take(i as int));
            lemma_pow16_values();
            lemma_pow16_increases(i as nat, 3);
            lemma_hex_num_snoc(buf@.take(i as int), buf@[i as int]);
            assert(buf@.take(i + 1) =~= buf@.take(i as int).push(buf@[i as int]));
        }
        value = value * 16 + (d as u16);
        i += 1;
    }
    proof {
        assert(buf@.take(i as int) =~= buf@);
    }
    Ok(value)
}

/// Reads up to eight hex digits into a 32-bit value, most significant first;
/// all-or-nothing: any malformed digit fails the whole conversion.
pub fn hextou32(buf: &[u8]) -> (r: Result<u32, ()>)
    requires
        buf@.len() <= 8,
    ensures
        hex_seq_valid(buf@) ==> (r matches Ok(v) && v as int == hex_num(buf@)),
        !hex_seq_valid(buf@) ==> r is Err,
{
    let mut value: u32 = 0;
    let mut i: usize = 0;
    while i < buf.len()
        invariant
            buf@.len() <= 8,
            i <= buf@.len(),
            hex_seq_valid(buf@.take(i as int)),
            value as int == hex_num(buf@.take(i as int)),
        decreases buf@.len() - i,
    {
        let d = match hextou8(buf[i]) {
            Ok(d) => d,
            Err(()) => {
                assert(!is_hex_digit(buf@[i as int]));
                return Err(());
            },
        };
        proof {
            lemma_hex_num_bound(buf@.take(i as int));
            lemma_pow16_values();
            lemma_pow16_increases(i as nat, 7);
            lemma_hex_num_snoc(buf@.take(i as int), buf@[i as int]);
            assert(buf@.take(i + 1) =~= buf@.take(i as int).push(buf@[i as int]));
        }
        value = value * 16 + (d as u32);
        i += 1;
    }
    proof {
        assert(buf@.take(i as int) =~= buf@);
    }
    Ok(value)
}

/// The upper-case ASCII hex digit for a nibble: total over 0..16.
pub fn hexdigit(value: u8) -> (r: u8)
    requires
        value < 16,
    ensures
        r == hex_char_of(value as int),
{
    if value < 10 {
        48 + value
    } else {
        55 + value
    }
}

/// Encodes a 16-bit value as exactly three hex digits (the low 12 bits;
/// a standard identifier always fits).
pub fn u16tohex3(value: u16) -> (r: [u8; 3])
    ensures
        r@ == hex_enc(value as int, 3),
{
    let r: [u8; 3] = [
        hexdigit(((value / 256) % 16) as u8),
        hexdigit(((value / 16) % 16) as u8),
        hexdigit((value % 16) as u8),
    ];
    proof {
        let v = value as int;
        reveal_with_fuel(hex_enc, 4);
        lemma_div_denominator(v, 16, 16);
        assert(r@ =~= hex_enc(v, 3));
    }
    r
}

/// Encodes a 32-bit value as exactly eight hex digits.
pub fn u32tohex8(value: u32) -> (r: [u8; 8])
    ensures
        r@ == hex_enc(value as int, 8),
{
    let r: [u8; 8] = [
        hexdigit(((value / 0x10000000) % 16) as u8),
        hexdigit(((value / 0x1000000) % 16) as u8),
        hexdigit(((value / 0x100000) % 16) as u8),
        hexdigit(((value / 0x10000) % 16) as u8),
        hexdigit(((value / 4096) % 16) as u8),
        hexdigit(((value / 256) % 16) as u8),
        hexdigit(((value / 16) % 16) as u8),
        hexdigit((value % 16) as u8),
    ];
    proof {
        let v = value as int;
        reveal_with_fuel(hex_enc, 9);
        lemma_div_denominator(v, 16, 16);
        lemma_div_denominator(v, 256, 16);
        lemma_div_denominator(v, 4096, 16);
        lemma_div_denominator(v, 0x10000, 16);
        lemma_div_denominator(v, 0x100000, 16);
        lemma_div_denominator(v, 0x1000000, 16);
        assert(r@ =~= hex_enc(v, 8));
    }
    r
}

/// Encodes a byte slice as hex pairs, two upper-case digits per byte.
pub fn bytestohex(data: &[u8]) -> (r: Vec<u8>)
    ensures
        r@ == hex_pairs(data@),
{
    let mut buf: Vec<u8> = Vec::new();
    let mut i: usize = 0;
    while i < data.len()
        invariant
            i <= data@.len(),
            buf@.len() == 2 * i,
            forall|j: int| 0 <= j < buf@.len() ==> buf@[j] == hex_pairs(data@)[j],
        decreases data@.len() - i,
    {
        let b = data[i];
        buf.push(hexdigit(b / 16));
        buf.push(hexdigit(b % 16));
        i += 1;
    }
    proof {
        assert(buf@ =~= hex_pairs(data@));
    }
    buf
}

/// Decodes `len` hex pairs of `s`, starting at `offset`, into the first
/// `len` bytes of an 8-byte payload container; the rest stays zero.
/// All-or-nothing: one malformed digit fails the whole payload.
pub fn unpack_data(s: &[u8], offset: usize, len: usize) -> (r: Result<[u8; 8], ()>)
    requires
        len <= 8,
        offset + 2 * len <= s@.len(),
    ensures
        hex_seq_valid(s@.subrange(offset as int, offset + 2 * len)) ==> (r matches Ok(buf)
            && buf@.take(len as int) == pairs_to_bytes(
            s@.subrange(offset as int, offset + 2 * len),
        ) && (forall|i: int| len <= i < 8 ==> buf@[i] == 0)),
        !hex_seq_valid(s@.subrange(offset as int, offset + 2 * len)) ==> r is Err,
{
    let ghost digits = s@.subrange(offset as int, offset + 2 * len);
    let slen: usize = s.len();
    let mut buf: [u8; 8] = [0, 0, 0, 0, 0, 0, 0, 0];
    let mut i: usize = 0;
    while i < len
        invariant
            len <= 8,
            i <= len,
            offset + 2 * len <= slen,
            slen == s@.len(),
            digits == s@.subrange(offset as int, offset + 2 * len),
            forall|j: int|
                0 <= j < 2 * i ==> is_hex_digit(#[trigger] digits[j]),
            forall|j: int|
                0 <= j < i ==> #[trigger] buf@[j] as int == hex_val(digits[2 * j]) * 16 + hex_val(
                    digits[2 * j + 1],
                ),
            forall|j: int| i <= j < 8 ==> buf@[j] == 0,
        decreases len - i,
    {
        let pair = vstd::slice::slice_subrange(s, offset + 2 * i, offset + 2 * i + 2);
        assert(pair@[0] == digits[2 * i] && pair@[1] == digits[2 * i + 1]);
        match hex2tou8(pair) {
            Ok(b) => {
                buf[i] = b;
                i += 1;
            },
            Err(()) => {
                assert(!is_hex_digit(digits[2 * i]) || !is_hex_digit(digits[2 * i + 1]));
                return Err(());
            },
        }
    }
    proof {
        assert forall|j: int| 0 <= j < digits.len() implies is_hex_digit(#[trigger] digits[j]) by {
            assert(j < 2 * len);
        }
        assert(buf@.take(len as int) =~= pairs_to_bytes(digits));
    }
    Ok(buf)
}

} // verus!
