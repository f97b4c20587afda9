//! Scores as the library holds them: the IEEE-754 bit pattern of a double, and a key
//! on which the integer order is the order of the scores.
use vstd::prelude::*;

verus! {

/// Bit pattern of negative infinity.
pub const NEG_INFINITY_BITS: u64 = 0xFFF0_0000_0000_0000;

/// Sign bit of a double.
pub const SIGN_BIT: u64 = 0x8000_0000_0000_0000;

/// Exponent bits of a double.
pub const EXPONENT_MASK: u64 = 0x7FF0_0000_0000_0000;

/// Mantissa bits of a double.
pub const MANTISSA_MASK: u64 = 0x000F_FFFF_FFFF_FFFF;

/// Whether `bits` encodes a NaN: all exponent bits set and a mantissa that is not zero.
pub open spec fn is_nan_bits(bits: u64) -> bool {
    bits & EXPONENT_MASK == EXPONENT_MASK && bits & MANTISSA_MASK != 0
}

/// The score that is stored for a run whose accumulated score has the bit pattern
/// `bits`: a NaN becomes negative infinity, so that stored scores are totally ordered.
pub fn persisted_score_bits(bits: u64) -> (r: u64)
    ensures
        r == (if is_nan_bits(bits) {
            NEG_INFINITY_BITS
        } else {
            bits
        }),
        !is_nan_bits(r),
{
    assert(!is_nan_bits(NEG_INFINITY_BITS)) by (bit_vector);
    if bits & EXPONENT_MASK == EXPONENT_MASK && bits & MANTISSA_MASK != 0 {
        NEG_INFINITY_BITS
    } else {
        bits
    }
}

/// The unsigned key of a double's bit pattern: negative values have all bits flipped,
/// others gain the sign bit, so that for numbers that are not NaN the unsigned order of
/// keys is the numeric order (with -0 just below +0).
pub open spec fn order_key(bits: u64) -> u64 {
    if bits & SIGN_BIT != 0 {
        !bits
    } else {
        bits | SIGN_BIT
    }
}

/// The ordering key of a score with bit pattern `bits`: -0 counts as +0, so the two
/// zeros are equal scores, and the unsigned order of keys is the numeric order.
pub open spec fn score_key_spec(bits: u64) -> u64 {
    order_key(if bits == SIGN_BIT { 0 } else { bits })
}

/// Computes `score_key_spec`.
pub fn score_key(bits: u64) -> (r: u64)
    ensures
        r == score_key_spec(bits),
{
    let b = if bits == SIGN_BIT {
        0
    } else {
        bits
    };
    if b & SIGN_BIT != 0 {
        !b
    } else {
        b | SIGN_BIT
    }
}

/// The key that `order_key` gives -0, which `score_key` never gives.
pub const NEG_ZERO_KEY: u64 = 0x7FFF_FFFF_FFFF_FFFF;

/// The bit pattern whose ordering key is `key`: the inverse of `score_key`.
pub fn score_bits_of_key(key: u64) -> (r: u64)
    ensures
        order_key(r) == key,
        key != NEG_ZERO_KEY ==> score_key_spec(r) == key,
        r == (if key & SIGN_BIT != 0 {
            key ^ SIGN_BIT
        } else {
            !key
        }),
{
    let r = if key & SIGN_BIT != 0 {
        key ^ SIGN_BIT
    } else {
        !key
    };
    assert(order_key(r) == key) by (bit_vector)
        requires
            r == (if key & 0x8000_0000_0000_0000u64 != 0 {
                key ^ 0x8000_0000_0000_0000u64
            } else {
                !key
            }),
    ;
    assert(key != NEG_ZERO_KEY ==> r != SIGN_BIT) by (bit_vector)
        requires
            r == (if key & 0x8000_0000_0000_0000u64 != 0 {
                key ^ 0x8000_0000_0000_0000u64
            } else {
                !key
            }),
    ;
    r
}

/// The SQL integer of a key: the sign bit flipped, so that the signed order is the
/// order of the keys.
pub open spec fn sql_of_key(key: u64) -> i64 {
    (key ^ SIGN_BIT) as i64
}

/// The integer under which a score with bit pattern `bits` is stored in SQL.
pub open spec fn sql_score_spec(bits: u64) -> i64 {
    sql_of_key(score_key_spec(bits))
}

/// Computes `sql_score_spec`.
pub fn sql_score(bits: u64) -> (r: i64)
    ensures
        r == sql_score_spec(bits),
{
    (score_key(bits) ^ SIGN_BIT) as i64
}

/// The bit pattern of the score stored in SQL as `v`: the inverse of `sql_score`.
pub fn score_bits_from_sql(v: i64) -> (r: u64)
    ensures
        sql_of_key(order_key(r)) == v,
        v != -1 ==> sql_score_spec(r) == v,
{
    let key = (v as u64) ^ SIGN_BIT;
    let r = score_bits_of_key(key);
    assert(((key ^ SIGN_BIT) as i64) == v) by (bit_vector)
        requires
            key == (v as u64) ^ 0x8000_0000_0000_0000u64,
    ;
    assert(v != -1 ==> key != NEG_ZERO_KEY) by (bit_vector)
        requires
            key == (v as u64) ^ 0x8000_0000_0000_0000u64,
    ;
    r
}

/// Storing keeps the order: for scores that are not NaN, a larger key is stored as a
/// larger integer.
pub proof fn lemma_sql_score_order(a: u64, b: u64)
    ensures
        score_key_spec(a) < score_key_spec(b) <==> sql_score_spec(a) < sql_score_spec(b),
        score_key_spec(a) == score_key_spec(b) <==> sql_score_spec(a) == sql_score_spec(b),
{
    let ka = score_key_spec(a);
    let kb = score_key_spec(b);
    assert(ka < kb <==> ((ka ^ 0x8000_0000_0000_0000u64) as i64) < ((kb ^ 0x8000_0000_0000_0000u64) as i64))
        by (bit_vector);
    assert(ka == kb <==> ((ka ^ 0x8000_0000_0000_0000u64) as i64) == ((kb ^ 0x8000_0000_0000_0000u64) as i64))
        by (bit_vector);
}

} // verus!
