//! Fixed-width Crockford base32 codec: a 128-bit value is written as exactly
//! 26 symbols, most significant 5-bit group first, over the 32-symbol
//! alphabet of the digits and the uppercase letters without I, L, O and U.

use vstd::prelude::*;

use crate::UlidError;

verus! {

/// The symbol that stands for a 5-bit group, as an ASCII byte:
/// `0`-`9` for 0 to 9, then the uppercase letters skipping I, L, O and U.
pub open spec fn symbol_of(d: u8) -> u8 {
    if d == 0 { 48 }        // '0'
    else if d == 1 { 49 }   // '1'
    else if d == 2 { 50 }   // '2'
    else if d == 3 { 51 }   // '3'
    else if d == 4 { 52 }   // '4'
    else if d == 5 { 53 }   // '5'
    else if d == 6 { 54 }   // '6'
    else if d == 7 { 55 }   // '7'
    else if d == 8 { 56 }   // '8'
    else if d == 9 { 57 }   // '9'
    else if d == 10 { 65 }  // 'A'
    else if d == 11 { 66 }  // 'B'
    else if d == 12 { 67 }  // 'C'
    else if d == 13 { 68 }  // 'D'
    else if d == 14 { 69 }  // 'E'
    else if d == 15 { 70 }  // 'F'
    else if d == 16 { 71 }  // 'G'
    else if d == 17 { 72 }  // 'H'
    else if d == 18 { 74 }  // 'J'
    else if d == 19 { 75 }  // 'K'
    else if d == 20 { 77 }  // 'M'
    else if d == 21 { 78 }  // 'N'
    else if d == 22 { 80 }  // 'P'
    else if d == 23 { 81 }  // 'Q'
    else if d == 24 { 82 }  // 'R'
    else if d == 25 { 83 }  // 'S'
    else if d == 26 { 84 }  // 'T'
    else if d == 27 { 86 }  // 'V'
    else if d == 28 { 87 }  // 'W'
    else if d == 29 { 88 }  // 'X'
    else if d == 30 { 89 }  // 'Y'
    else { 90 }             // 'Z'
}

/// Maps an ASCII byte back to its 5-bit group; `None` outside the alphabet.
pub open spec fn value_of(b: u8) -> Option<u8> {
    if b == 48 { Some(0u8) }
    else if b == 49 { Some(1u8) }
    else if b == 50 { Some(2u8) }
    else if b == 51 { Some(3u8) }
    else if b == 52 { Some(4u8) }
    else if b == 53 { Some(5u8) }
    else if b == 54 { Some(6u8) }
    else if b == 55 { Some(7u8) }
    else if b == 56 { Some(8u8) }
    else if b == 57 { Some(9u8) }
    else if b == 65 { Some(10u8) }
    else if b == 66 { Some(11u8) }
    else if b == 67 { Some(12u8) }
    else if b == 68 { Some(13u8) }
    else if b == 69 { Some(14u8) }
    else if b == 70 { Some(15u8) }
    else if b == 71 { Some(16u8) }
    else if b == 72 { Some(17u8) }
    else if b == 74 { Some(18u8) }
    else if b == 75 { Some(19u8) }
    else if b == 77 { Some(20u8) }
    else if b == 78 { Some(21u8) }
    else if b == 80 { Some(22u8) }
    else if b == 81 { Some(23u8) }
    else if b == 82 { Some(24u8) }
    else if b == 83 { Some(25u8) }
    else if b == 84 { Some(26u8) }
    else if b == 86 { Some(27u8) }
    else if b == 87 { Some(28u8) }
    else if b == 88 { Some(29u8) }
    else if b == 89 { Some(30u8) }
    else if b == 90 { Some(31u8) }
    else { None }
}

/// 32 raised to the power `k`.
pub open spec fn pow32(k: nat) -> nat
    decreases k,
{
    if k == 0 { 1 } else { 32 * pow32((k - 1) as nat) }
}

/// The `i`-th 5-bit group of `v`, counting from the most significant of the
/// 26 groups that the text form holds.
pub open spec fn digit(v: u128, i: int) -> u8 {
    (((v as nat) / pow32((25 - i) as nat)) % 32) as u8
}

/// The 26-byte text encoding of a 128-bit value.
pub open spec fn encoding(v: u128) -> Seq<u8> {
    Seq::new(26, |i: int| symbol_of(digit(v, i)))
}

/// The symbol lookup, total over the 5-bit domain.
fn lookup(b: u8) -> (r: u8)
    requires
        b < 32,
    ensures
        r == symbol_of(b),
{
    match b {
        0 => 48,
        1 => 49,
        2 => 50,
        3 => 51,
        4 => 52,
        5 => 53,
        6 => 54,
        7 => 55,
        8 => 56,
        9 => 57,
        10 => 65,
        11 => 66,
        12 => 67,
        13 => 68,
        14 => 69,
        15 => 70,
        16 => 71,
        17 => 72,
        18 => 74,
        19 => 75,
        20 => 77,
        21 => 78,
        22 => 80,
        23 => 81,
        24 => 82,
        25 => 83,
        26 => 84,
        27 => 86,
        28 => 87,
        29 => 88,
        30 => 89,
        _ => 90,
    }
}

/// Masking a 128-bit value with `0x1f` takes its value modulo 32.
proof fn lemma_mask5_is_mod(x: u128)
    by (bit_vector)
    ensures
        x & 0x1f == x % 32,
{
}

/// Shifting a 128-bit value right by 5 divides it by 32.
proof fn lemma_shr5_is_div(x: u128)
    by (bit_vector)
    ensures
        x >> 5 == x / 32,
{
}

/// `pow32` is positive.
pub proof fn lemma_pow32_pos(k: nat)
    ensures
        pow32(k) >= 1,
    decreases k,
{
    if k > 0 {
        lemma_pow32_pos((k - 1) as nat);
    }
}

/// `pow32` does not shrink as the exponent grows.
proof fn lemma_pow32_increases(j: nat, k: nat)
    requires
        j <= k,
    ensures
        pow32(j) <= pow32(k),
    decreases k,
{
    if j < k {
        lemma_pow32_increases(j, (k - 1) as nat);
        lemma_pow32_pos((k - 1) as nat);
    }
}

/// A text is a well-formed encoding when it has exactly 26 bytes, each in
/// the alphabet, and its first symbol leaves the value within 128 bits.
pub open spec fn valid_encoding(s: Seq<u8>) -> bool {
    &&& s.len() == 26
    &&& forall|i: int| 0 <= i < 26 ==> value_of(s[i]).is_some()
    &&& value_of(s[0]).unwrap() < 8
}

/// The value of the first `j` symbols of a text, most significant first.
pub open spec fn decoded_prefix(s: Seq<u8>, j: int) -> nat
    decreases j,
{
    if j <= 0 {
        0
    } else {
        decoded_prefix(s, j - 1) * 32 + value_of(s[j - 1]).unwrap() as nat
    }
}

/// The value a well-formed encoding stands for; `None` otherwise.
pub open spec fn decode_spec(s: Seq<u8>) -> Option<u128> {
    if valid_encoding(s) {
        Some(decoded_prefix(s, 26) as u128)
    } else {
        None
    }
}

/// The symbol lookup's inverse, total over all bytes.
fn decode_symbol(b: u8) -> (r: Option<u8>)
    ensures
        r == value_of(b),
{
    match b {
        48 => Some(0),
        49 => Some(1),
        50 => Some(2),
        51 => Some(3),
        52 => Some(4),
        53 => Some(5),
        54 => Some(6),
        55 => Some(7),
        56 => Some(8),
        57 => Some(9),
        65 => Some(10),
        66 => Some(11),
        67 => Some(12),
        68 => Some(13),
        69 => Some(14),
        70 => Some(15),
        71 => Some(16),
        72 => Some(17),
        74 => Some(18),
        75 => Some(19),
        77 => Some(20),
        78 => Some(21),
        80 => Some(22),
        81 => Some(23),
        82 => Some(24),
        83 => Some(25),
        84 => Some(26),
        86 => Some(27),
        87 => Some(28),
        88 => Some(29),
        89 => Some(30),
        90 => Some(31),
        _ => None,
    }
}

/// Reads a 26-symbol encoding back into the 128-bit value it stands for.
/// Returns `InvalidEncoding` when the input's length is not 26, a byte
/// falls outside the alphabet, or the value would not fit in 128 bits.
pub fn decode(text: &[u8]) -> (r: Result<u128, UlidError>)
    ensures
        match r {
            Ok(v) => decode_spec(text@) == Some(v),
            Err(e) => decode_spec(text@).is_none() && e == UlidError::InvalidEncoding,
        },
{
    if text.len() != 26 {
        return Err(UlidError::InvalidEncoding);
    }
    let mut acc: u128 = 0;
    let mut j: usize = 0;
    while j < 26
        invariant
            text@.len() == 26,
            j <= 26,
            forall|k: int| 0 <= k < j ==> value_of(text@[k]).is_some(),
            j >= 1 ==> value_of(text@[0]).unwrap() < 8,
            acc as nat == decoded_prefix(text@, j as int),
            j >= 1 ==> (acc as nat) < 8 * pow32((j - 1) as nat),
        decreases 26 - j,
    {
        let sym = decode_symbol(text[j]);
        match sym {
            None => {
                return Err(UlidError::InvalidEncoding);
            },
            Some(v) => {
                if j == 0 {
                    if v >= 8 {
                        return Err(UlidError::InvalidEncoding);
                    }
                    acc = v as u128;
                } else {
                    proof {
                        lemma_pow32_increases((j - 1) as nat, 24);
                        reveal_with_fuel(pow32, 26);
                        assert(pow32(24) == 0x1000000000000000000000000000000nat);
                        assert((acc as nat) * 32 + 31 < 8 * pow32(j as nat)) by {
                            assert(pow32(j as nat) == 32 * pow32((j - 1) as nat));
                        }
                        lemma_pow32_increases(j as nat, 25);
                        assert(8 * pow32(25nat) == 0x100000000000000000000000000000000nat);
                    }
                    acc = acc * 32 + v as u128;
                }
            },
        }
        j = j + 1;
    }
    proof {
        assert(valid_encoding(text@));
    }
    Ok(acc)
}

/// Writes the 26-symbol encoding of `raw_ulid` into the first 26 bytes of
/// `buffer`, most significant group first; the rest of the buffer is kept.
pub fn encode(raw_ulid: u128, buffer: &mut Vec<u8>)
    requires
        old(buffer).len() >= 26,
    ensures
        final(buffer)@.len() == old(buffer)@.len(),
        forall|k: int| 0 <= k < 26 ==> final(buffer)@[k] == encoding(raw_ulid)[k],
        forall|k: int| 26 <= k < final(buffer)@.len() ==> final(buffer)@[k] == old(buffer)@[k],
{
    let mut raw: u128 = raw_ulid;
    let mut i: usize = 0;
    proof {
        assert(pow32(0) == 1);
    }
    while i < 26
        invariant
            i <= 26,
            buffer@.len() == old(buffer)@.len() >= 26,
            raw == (raw_ulid as nat) / pow32(i as nat),
            forall|k: int| 26 - i <= k < 26 ==> buffer@[k] == encoding(raw_ulid)[k],
            forall|k: int| 0 <= k < 26 - i ==> buffer@[k] == old(buffer)@[k],
            forall|k: int| 26 <= k < buffer@.len() ==> buffer@[k] == old(buffer)@[k],
        decreases 26 - i,
    {
        proof {
            lemma_mask5_is_mod(raw);
        }
        let d: u8 = (raw & 0x1f) as u8;
        proof {
            assert(raw % 32 < 32);
            assert(d == digit(raw_ulid, 25 - i));
        }
        buffer[25 - i] = lookup(d);
        proof {
            lemma_shr5_is_div(raw);
            lemma_pow32_pos(i as nat);
            vstd::arithmetic::div_mod::lemma_div_denominator(
                raw_ulid as int,
                pow32(i as nat) as int,
                32,
            );
            assert(pow32(i as nat) * 32 == pow32((i + 1) as nat));
        }
        raw = raw >> 5;
        i = i + 1;
    }
}

/// Encodes after validating the destination's size: a buffer under 26
/// bytes is rejected before anything is written.
pub fn encode_checked(raw_ulid: u128, buffer: &mut Vec<u8>) -> (r: Result<(), UlidError>)
    ensures
        old(buffer).len() < 26 ==> r == Err::<(), UlidError>(UlidError::BufferTooSmall)
            && final(buffer)@ == old(buffer)@,
        old(buffer).len() >= 26 ==> {
            &&& r == Ok::<(), UlidError>(())
            &&& final(buffer)@.len() == old(buffer)@.len()
            &&& forall|k: int| 0 <= k < 26 ==> final(buffer)@[k] == encoding(raw_ulid)[k]
            &&& forall|k: int|
                26 <= k < final(buffer)@.len() ==> final(buffer)@[k] == old(buffer)@[k]
        },
{
    if buffer.len() < 26 {
        return Err(UlidError::BufferTooSmall);
    }
    encode(raw_ulid, buffer);
    Ok(())
}

/// Decoding a symbol gives back the 5-bit group it was chosen for.
proof fn lemma_value_of_symbol(d: u8)
    requires
        d < 32,
    ensures
        value_of(symbol_of(d)) == Some(d),
{
}

/// The first `j` symbols of an encoding decode to the value's high part.
proof fn lemma_prefix_of_encoding(v: u128, j: int)
    requires
        0 <= j <= 26,
    ensures
        decoded_prefix(encoding(v), j) == (v as nat) / pow32((26 - j) as nat),
    decreases j,
{
    if j == 0 {
        reveal_with_fuel(pow32, 27);
        assert(pow32(26) == 0x400000000000000000000000000000000nat);
        vstd::arithmetic::div_mod::lemma_basic_div(v as int, pow32(26) as int);
    } else {
        lemma_prefix_of_encoding(v, j - 1);
        let e = encoding(v);
        let d = digit(v, j - 1);
        assert(e[j - 1] == symbol_of(d));
        assert(d < 32) by {
            assert((((v as nat) / pow32((26 - j) as nat)) % 32) < 32);
        }
        lemma_value_of_symbol(d);
        let x = (v as nat) / pow32((26 - j) as nat);
        assert((v as nat) / pow32((27 - j) as nat) == x / 32) by {
            lemma_pow32_pos((26 - j) as nat);
            vstd::arithmetic::div_mod::lemma_div_denominator(
                v as int,
                pow32((26 - j) as nat) as int,
                32,
            );
            assert(pow32((27 - j) as nat) == 32 * pow32((26 - j) as nat));
        }
        assert(decoded_prefix(e, j) == (x / 32) * 32 + x % 32);
        vstd::arithmetic::div_mod::lemma_fundamental_div_mod(x as int, 32);
    }
}

/// Round trip: every 128-bit value's encoding is well formed and decodes
/// back to the value itself.
pub proof fn lemma_encode_decode_round_trip(v: u128)
    ensures
        decode_spec(encoding(v)) == Some(v),
{
    let e = encoding(v);
    lemma_prefix_of_encoding(v, 26);
    assert(pow32(0) == 1);
    vstd::arithmetic::div_mod::lemma_div_basics(v as int);
    assert(decoded_prefix(e, 26) == v as nat);
    assert forall|i: int| 0 <= i < 26 implies value_of(e[i]).is_some() by {
        lemma_value_of_symbol(digit(v, i));
    }
    assert(value_of(e[0]).unwrap() < 8) by {
        lemma_value_of_symbol(digit(v, 0));
        reveal_with_fuel(pow32, 26);
        assert(8 * pow32(25) == 0x100000000000000000000000000000000nat);
        vstd::arithmetic::div_mod::lemma_multiply_divide_lt(v as int, pow32(25) as int, 8);
        vstd::arithmetic::div_mod::lemma_small_mod((v as nat) / pow32(25), 32);
    }
    assert(valid_encoding(e));
}

/// Strict lexicographic order on equal-length byte sequences.
pub open spec fn lex_less(x: Seq<u8>, y: Seq<u8>) -> bool {
    x.len() == y.len() && exists|j: int|
        0 <= j < x.len() && (forall|k: int| 0 <= k < j ==> x[k] == y[k]) && x[j] < y[j]
}

/// The alphabet lists its symbols in increasing byte order.
proof fn lemma_symbol_increases(a: u8, b: u8)
    requires
        a < b,
        b < 32,
    ensures
        symbol_of(a) < symbol_of(b),
{
}

/// Values that agree on their first `j` digits agree above `pow32(26 - j)`.
proof fn lemma_common_prefix(a: u128, b: u128, j: int)
    requires
        0 <= j <= 26,
        forall|k: int| 0 <= k < j ==> digit(a, k) == digit(b, k),
    ensures
        (a as nat) / pow32((26 - j) as nat) == (b as nat) / pow32((26 - j) as nat),
    decreases j,
{
    if j == 0 {
        reveal_with_fuel(pow32, 27);
        assert(pow32(26) == 0x400000000000000000000000000000000nat);
        vstd::arithmetic::div_mod::lemma_basic_div(a as int, pow32(26) as int);
        vstd::arithmetic::div_mod::lemma_basic_div(b as int, pow32(26) as int);
    } else {
        lemma_common_prefix(a, b, j - 1);
        let p = pow32((26 - j) as nat);
        let xa = (a as nat) / p;
        let xb = (b as nat) / p;
        lemma_pow32_pos((26 - j) as nat);
        assert(xa / 32 == (a as nat) / pow32((27 - j) as nat)) by {
            vstd::arithmetic::div_mod::lemma_div_denominator(a as int, p as int, 32);
            assert(pow32((27 - j) as nat) == 32 * p);
        }
        assert(xb / 32 == (b as nat) / pow32((27 - j) as nat)) by {
            vstd::arithmetic::div_mod::lemma_div_denominator(b as int, p as int, 32);
            assert(pow32((27 - j) as nat) == 32 * p);
        }
        assert(digit(a, j - 1) == digit(b, j - 1));
        assert(xa % 32 == xb % 32);
        vstd::arithmetic::div_mod::lemma_fundamental_div_mod(xa as int, 32);
        vstd::arithmetic::div_mod::lemma_fundamental_div_mod(xb as int, 32);
    }
}

/// Finds the most significant digit where two distinct values differ.
proof fn lemma_first_diff(a: u128, b: u128, j: int) -> (r: int)
    requires
        a != b,
        0 <= j <= 26,
        forall|k: int| 0 <= k < j ==> digit(a, k) == digit(b, k),
    ensures
        j <= r < 26,
        digit(a, r) != digit(b, r),
        forall|k: int| 0 <= k < r ==> digit(a, k) == digit(b, k),
    decreases 26 - j,
{
    if j == 26 {
        lemma_common_prefix(a, b, 26);
        assert(pow32(0) == 1);
        vstd::arithmetic::div_mod::lemma_div_basics(a as int);
        vstd::arithmetic::div_mod::lemma_div_basics(b as int);
        assert(false);
        j
    } else if digit(a, j) != digit(b, j) {
        j
    } else {
        lemma_first_diff(a, b, j + 1)
    }
}

/// Numeric order of two 128-bit values carries over to lexicographic order
/// of their text encodings.
pub proof fn lemma_encoding_preserves_order(a: u128, b: u128)
    requires
        a < b,
    ensures
        lex_less(encoding(a), encoding(b)),
{
    let j = lemma_first_diff(a, b, 0);
    lemma_common_prefix(a, b, j);
    let p = pow32((25 - j) as nat);
    let q = (a as nat) / pow32((26 - j) as nat);
    let xa = (a as nat) / p;
    let xb = (b as nat) / p;
    lemma_pow32_pos((25 - j) as nat);
    assert(xa / 32 == q) by {
        vstd::arithmetic::div_mod::lemma_div_denominator(a as int, p as int, 32);
        assert(pow32((26 - j) as nat) == 32 * p);
    }
    assert(xb / 32 == (b as nat) / pow32((26 - j) as nat)) by {
        vstd::arithmetic::div_mod::lemma_div_denominator(b as int, p as int, 32);
        assert(pow32((26 - j) as nat) == 32 * p);
    }
    assert(xa <= xb) by {
        vstd::arithmetic::div_mod::lemma_div_is_ordered(a as int, b as int, p as int);
    }
    vstd::arithmetic::div_mod::lemma_fundamental_div_mod(xa as int, 32);
    vstd::arithmetic::div_mod::lemma_fundamental_div_mod(xb as int, 32);
    assert(digit(a, j) < digit(b, j));
    lemma_symbol_increases(digit(a, j), digit(b, j));
    let ea = encoding(a);
    let eb = encoding(b);
    assert(0 <= j < ea.len() && (forall|k: int| 0 <= k < j ==> ea[k] == eb[k]) && ea[j] < eb[j]);
}

} // verus!
