//! The library's cross-cutting guarantees, each proved once and for all:
//! time-ordered identifiers sort the same way as raw values and as text,
//! the nil identifier is the least and encodes to all zero symbols, and
//! every encoded symbol stays inside the restricted alphabet.

use vstd::prelude::*;

use crate::base32;
use crate::compose;
use crate::is_text_of;

verus! {

/// Strict lexicographic order on equal-length character sequences, by
/// code point.
pub open spec fn text_lex_less(x: Seq<char>, y: Seq<char>) -> bool {
    x.len() == y.len() && exists|j: int|
        0 <= j < x.len() && (forall|k: int| 0 <= k < j ==> x[k] == y[k]) && (x[j] as u32) < (
        y[j] as u32)
}

/// The order of raw values carries over to the character texts that spell
/// their encodings: what holds of the encoded bytes holds of the strings
/// built from them.
pub proof fn lemma_text_order_follows_value_order(a: u128, b: u128, sa: Seq<char>, sb: Seq<char>)
    requires
        a < b,
        is_text_of(sa, a),
        is_text_of(sb, b),
    ensures
        text_lex_less(sa, sb),
{
    base32::lemma_encoding_preserves_order(a, b);
    let ea = base32::encoding(a);
    let eb = base32::encoding(b);
    let j = choose|j: int|
        0 <= j < ea.len() && (forall|k: int| 0 <= k < j ==> ea[k] == eb[k]) && ea[j] < eb[j];
    assert forall|k: int| 0 <= k < j implies sa[k] == sb[k] by {
        vstd::utf8::char_u32_cast(sa[k], sa[k] as u32);
        vstd::utf8::char_u32_cast(sb[k], sb[k] as u32);
    }
    assert(0 <= j < sa.len() && (forall|k: int| 0 <= k < j ==> sa[k] == sb[k]) && (sa[j] as u32)
        < (sb[j] as u32));
}

/// An identifier minted at a strictly later millisecond compares greater
/// than one minted earlier, as a raw 128-bit value and in text form alike,
/// whatever the two random payloads hold.
pub proof fn lemma_later_millisecond_sorts_higher(t1: u128, r1: u128, t2: u128, r2: u128)
    requires
        t1 < t2,
        t2 < 0x1000000000000,
        r1 < 0x100000000000000000000,
        r2 < 0x100000000000000000000,
    ensures
        compose(t1, r1) < compose(t2, r2),
        base32::lex_less(
            base32::encoding(compose(t1, r1)),
            base32::encoding(compose(t2, r2)),
        ),
{
    assert(t1 * 0x100000000000000000000 + 0x100000000000000000000 <= t2
        * 0x100000000000000000000) by {
        assert((t1 + 1) * 0x100000000000000000000 <= t2 * 0x100000000000000000000) by {
            vstd::arithmetic::mul::lemma_mul_inequality(
                t1 + 1,
                t2 as int,
                0x100000000000000000000,
            );
        }
        assert((t1 + 1) * 0x100000000000000000000 == t1 * 0x100000000000000000000
            + 0x100000000000000000000) by {
            vstd::arithmetic::mul::lemma_mul_is_distributive_add_other_way(
                0x100000000000000000000,
                t1 as int,
                1,
            );
        }
    }
    assert(t2 * 0x100000000000000000000 + r2 <= 0xFFFFFFFFFFFF * 0x100000000000000000000
        + r2) by {
        vstd::arithmetic::mul::lemma_mul_inequality(
            t2 as int,
            0xFFFFFFFFFFFF,
            0x100000000000000000000,
        );
    }
    base32::lemma_encoding_preserves_order(compose(t1, r1), compose(t2, r2));
}

/// Composition is injective: two identifiers coincide only when both their
/// time fields and their random fields coincide. Distinctness of minted
/// identifiers therefore reduces to distinctness of the pairs they are
/// built from.
pub proof fn lemma_compose_injective(t1: u128, r1: u128, t2: u128, r2: u128)
    requires
        t1 < 0x1000000000000,
        t2 < 0x1000000000000,
        r1 < 0x100000000000000000000,
        r2 < 0x100000000000000000000,
        compose(t1, r1) == compose(t2, r2),
    ensures
        t1 == t2,
        r1 == r2,
{
    assert(t1 * 0x100000000000000000000 + r1 < 0x100000000000000000000000000000000) by {
        vstd::arithmetic::mul::lemma_mul_inequality(
            t1 as int,
            0xFFFFFFFFFFFF,
            0x100000000000000000000,
        );
    }
    assert(t2 * 0x100000000000000000000 + r2 < 0x100000000000000000000000000000000) by {
        vstd::arithmetic::mul::lemma_mul_inequality(
            t2 as int,
            0xFFFFFFFFFFFF,
            0x100000000000000000000,
        );
    }
    if t1 != t2 {
        if t1 < t2 {
            lemma_later_millisecond_sorts_higher(t1, r1, t2, r2);
        } else {
            lemma_later_millisecond_sorts_higher(t2, r2, t1, r1);
        }
    }
}

/// The nil identifier encodes to 26 copies of the alphabet's zero symbol.
pub proof fn lemma_nil_encoding()
    ensures
        forall|i: int| 0 <= i < 26 ==> base32::encoding(0)[i] == 48u8,
{
    assert forall|i: int| 0 <= i < 26 implies base32::encoding(0)[i] == 48u8 by {
        base32::lemma_pow32_pos((25 - i) as nat);
        vstd::arithmetic::div_mod::lemma_basic_div(0, base32::pow32((25 - i) as nat) as int);
        assert(base32::digit(0, i) == 0);
    }
}

/// The nil identifier compares less than every other identifier, as a raw
/// value and in text form alike.
pub proof fn lemma_nil_is_least(v: u128)
    requires
        v != 0,
    ensures
        0 < v,
        base32::lex_less(base32::encoding(0), base32::encoding(v)),
{
    base32::lemma_encoding_preserves_order(0, v);
}

/// Every symbol of every encoding lies in the restricted alphabet; in
/// particular the ambiguous letters I, L, O and U never appear.
pub proof fn lemma_symbols_stay_in_alphabet(v: u128, i: int)
    requires
        0 <= i < 26,
    ensures
        base32::value_of(base32::encoding(v)[i]).is_some(),
        base32::encoding(v)[i] != 73u8,
        base32::encoding(v)[i] != 76u8,
        base32::encoding(v)[i] != 79u8,
        base32::encoding(v)[i] != 85u8,
        base32::encoding(v)[i] < 0x80,
{
    let d = base32::digit(v, i);
    assert(d < 32);
    assert(base32::value_of(base32::symbol_of(d)).is_some());
}

} // verus!
